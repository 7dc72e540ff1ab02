use vstd::prelude::*;

verus! {

/// The magnitude band an amount is displayed in: base-10,000 grouping.
#[derive(Debug, Clone, Copy, PartialEq, Eq, Structural)]
pub enum AmountBand {
    /// Below 10,000 yen: whole yen.
    Yen,
    /// From 10,000 yen up to (not including) 100,000,000: units of 10,000 yen.
    TenThousands,
    /// From 100,000,000 yen: units of 100,000,000 yen.
    HundredMillions,
}

pub const TEN_THOUSAND: u64 = 10_000;

pub const HUNDRED_MILLION: u64 = 100_000_000;

pub open spec fn band_of(amount: int) -> AmountBand {
    if amount >= HUNDRED_MILLION as u128 {
        AmountBand::HundredMillions
    } else if amount >= TEN_THOUSAND as u128 {
        AmountBand::TenThousands
    } else {
        AmountBand::Yen
    }
}

/// The band that `format_amount` displays `amount` in.
pub fn amount_band(amount: u128) -> (r: AmountBand)
    ensures
        r == band_of(amount as int),
{
    if amount >= HUNDRED_MILLION as u128 {
        AmountBand::HundredMillions
    } else if amount >= TEN_THOUSAND as u128 {
        AmountBand::TenThousands
    } else {
        AmountBand::Yen
    }
}

/// `a / d` rounded to the nearest integer, halves rounded up.
pub open spec fn round_div(a: nat, d: nat) -> nat
    recommends
        d > 0,
{
    if (a % d) * 2 >= d {
        a / d + 1
    } else {
        a / d
    }
}

pub open spec fn digit_char(d: nat) -> char
    recommends
        d < 10,
{
    seq!['0', '1', '2', '3', '4', '5', '6', '7', '8', '9'][d as int]
}

/// The decimal digits of `n`, without leading zeros.
pub open spec fn decimal(n: nat) -> Seq<char>
    decreases n,
{
    if n < 10 {
        seq![digit_char(n)]
    } else {
        decimal(n / 10).push(digit_char(n % 10))
    }
}

/// How `format_amount` writes `amount`: in units of 100,000,000 yen to two
/// decimals, in units of 10,000 yen to one decimal, or in whole yen, by band.
pub open spec fn formatted(amount: nat) -> Seq<char> {
    match band_of(amount as int) {
        AmountBand::HundredMillions => {
            let h = round_div(amount, 1_000_000);
            decimal(h / 100) + seq!['.', digit_char((h % 100) / 10), digit_char(h % 10), '億', '円']
        },
        AmountBand::TenThousands => {
            let t = round_div(amount, 1_000);
            decimal(t / 10) + seq!['.', digit_char(t % 10), '万', '円']
        },
        AmountBand::Yen => decimal(amount) + seq!['円'],
    }
}

fn digit_str(d: u128) -> (r: &'static str)
    requires
        d < 10,
    ensures
        r@ == seq![digit_char(d as nat)],
{
    proof {
        reveal_strlit("0");
        reveal_strlit("1");
        reveal_strlit("2");
        reveal_strlit("3");
        reveal_strlit("4");
        reveal_strlit("5");
        reveal_strlit("6");
        reveal_strlit("7");
        reveal_strlit("8");
        reveal_strlit("9");
    }
    match d {
        0 => "0",
        1 => "1",
        2 => "2",
        3 => "3",
        4 => "4",
        5 => "5",
        6 => "6",
        7 => "7",
        8 => "8",
        _ => "9",
    }
}

fn push_decimal(s: &mut String, n: u128)
    ensures
        final(s)@ == old(s)@ + decimal(n as nat),
    decreases n,
{
    if n < 10 {
        s.append(digit_str(n));
    } else {
        push_decimal(s, n / 10);
        s.append(digit_str(n % 10));
        assert(final(s)@ =~= old(s)@ + decimal(n as nat));
    }
}

fn rounded_div(a: u128, d: u128) -> (r: u128)
    requires
        d > 1,
    ensures
        r == round_div(a as nat, d as nat),
{
    let q = a / d;
    let rem = a % d;
    proof {
        if a > 0 {
            vstd::arithmetic::div_mod::lemma_div_decreases(a as int, d as int);
        }
    }
    if rem >= d - rem {
        q + 1
    } else {
        q
    }
}

/// Writes an amount of yen in the band that its size calls for.
pub fn format_amount(amount: u128) -> (r: String)
    ensures
        r@ == formatted(amount as nat),
{
    let mut s = String::new();
    proof {
        reveal_strlit(".");
        reveal_strlit("億円");
        reveal_strlit("万円");
        reveal_strlit("円");
    }
    if amount >= HUNDRED_MILLION as u128 {
        let h = rounded_div(amount, 1_000_000);
        push_decimal(&mut s, h / 100);
        s.append(".");
        s.append(digit_str((h % 100) / 10));
        s.append(digit_str(h % 10));
        s.append("億円");
    } else if amount >= TEN_THOUSAND as u128 {
        let t = rounded_div(amount, 1_000);
        push_decimal(&mut s, t / 10);
        s.append(".");
        s.append(digit_str(t % 10));
        s.append("万円");
    } else {
        push_decimal(&mut s, amount);
        s.append("円");
    }
    assert(s@ =~= formatted(amount as nat));
    s
}


/// How `format_micro_yen` writes an amount given in millionths of a yen: the
/// band is chosen on the exact amount, and the figure is rounded once, to the
/// band's precision.
pub open spec fn formatted_micro(micro: nat) -> Seq<char> {
    if micro >= HUNDRED_MILLION * 1_000_000 {
        let h = round_div(micro, 1_000_000_000_000);
        decimal(h / 100) + seq!['.', digit_char((h % 100) / 10), digit_char(h % 10), '億', '円']
    } else if micro >= TEN_THOUSAND * 1_000_000 {
        let t = round_div(micro, 1_000_000_000);
        decimal(t / 10) + seq!['.', digit_char(t % 10), '万', '円']
    } else {
        decimal(round_div(micro, 1_000_000)) + seq!['円']
    }
}

/// Writes an amount given in millionths of a yen in the band that its size
/// calls for, rounding only once.
pub fn format_micro_yen(micro: u128) -> (r: String)
    ensures
        r@ == formatted_micro(micro as nat),
{
    let mut s = String::new();
    proof {
        reveal_strlit(".");
        reveal_strlit("億円");
        reveal_strlit("万円");
        reveal_strlit("円");
    }
    if micro >= HUNDRED_MILLION as u128 * 1_000_000 {
        let h = rounded_div(micro, 1_000_000_000_000);
        push_decimal(&mut s, h / 100);
        s.append(".");
        s.append(digit_str((h % 100) / 10));
        s.append(digit_str(h % 10));
        s.append("億円");
    } else if micro >= TEN_THOUSAND as u128 * 1_000_000 {
        let t = rounded_div(micro, 1_000_000_000);
        push_decimal(&mut s, t / 10);
        s.append(".");
        s.append(digit_str(t % 10));
        s.append("万円");
    } else {
        push_decimal(&mut s, rounded_div(micro, 1_000_000));
        s.append("円");
    }
    assert(s@ =~= formatted_micro(micro as nat));
    s
}

/// A way of writing amounts, given in millionths of a yen, for display, so that
/// another convention can take the place of the base-10,000 bands.
pub trait AmountFormat {
    fn format(&self, micro: u128) -> String;
}

/// The base-10,000 bands of `format_amount`.
pub struct BandedYen;

impl AmountFormat for BandedYen {
    fn format(&self, micro: u128) -> (r: String)
        ensures
            r@ == formatted_micro(micro as nat),
    {
        format_micro_yen(micro)
    }
}

} // verus!
