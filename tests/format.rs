use wealth_plan::format::{
    amount_band, format_amount, format_micro_yen, AmountBand, AmountFormat, BandedYen,
};

#[test]
fn format_band_boundaries() {
    assert_eq!(amount_band(9_999), AmountBand::Yen);
    assert_eq!(amount_band(10_000), AmountBand::TenThousands);
    assert_eq!(amount_band(99_999_999), AmountBand::TenThousands);
    assert_eq!(amount_band(100_000_000), AmountBand::HundredMillions);
    assert_eq!(format_amount(9_999), "9999円");
    assert_eq!(format_amount(10_000), "1.0万円");
    assert_eq!(format_amount(99_999_999), "10000.0万円");
    assert_eq!(format_amount(100_000_000), "1.00億円");
}

#[test]
fn format_rounds_to_the_band_precision() {
    assert_eq!(format_amount(0), "0円");
    assert_eq!(format_amount(12_345), "1.2万円");
    assert_eq!(format_amount(150_000), "15.0万円");
    assert_eq!(format_amount(104_050), "10.4万円");
    assert_eq!(format_amount(123_456_789), "1.23億円");
    assert_eq!(format_amount(41_786_318), "4178.6万円");
}

#[test]
fn format_largest_amount() {
    assert_eq!(format_amount(u64::MAX as u128), "184467440737.10億円");
    assert_eq!(format_amount(u128::MAX), "3402823669209384634633746074317.68億円");
}

#[test]
fn banded_yen_formats_millionths() {
    assert_eq!(BandedYen.format(120_154_964_152), "12.0万円");
    assert_eq!(BandedYen.format(120_154_964_152), format_micro_yen(120_154_964_152));
}

#[test]
fn format_micro_yen_rounds_once() {
    assert_eq!(format_micro_yen(10_499_500_000), "1.0万円");
    assert_eq!(format_micro_yen(9_999_600_000), "10000円");
    assert_eq!(format_micro_yen(500_000), "1円");
    assert_eq!(format_micro_yen(0), "0円");
    assert_eq!(format_micro_yen(41_786_318_983_773), "4178.6万円");
    assert_eq!(format_micro_yen(99_999_999_000_000), "10000.0万円");
    assert_eq!(format_micro_yen(100_000_000_000_000), "1.00億円");
}
