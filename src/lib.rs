//! Readability analysis of the digit grouping in numeric literals.
//!
//! Given the source text of an integer or floating-point literal, the library
//! splits it into radix prefix, digits and type suffix, decides whether its
//! underscore separators are absent, inconsistent or too far apart, and
//! proposes a well-grouped rewrite of any literal it flags.

pub mod consistency;
pub mod digit_info;
pub mod hint;
pub mod laws;
pub mod lint;
pub mod radix;
pub mod text;

pub use consistency::{check_grouping, GroupingOutcome};
pub use digit_info::DigitInfo;
pub use lint::{Diagnostic, LiteralDigitGrouping, WarningType};
pub use radix::Radix;
