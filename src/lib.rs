pub mod error;
pub mod format;
pub mod growth;
pub mod report;
