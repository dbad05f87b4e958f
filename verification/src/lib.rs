pub mod category;
pub mod checker;
pub mod cli;
pub mod report;
pub mod walker;

pub use checker::{CheckOptions, Violation, check_bytes, is_allowed, is_default_allowed};
pub use report::format_violation;
pub use walker::{FileResult, check_file};
