//! What can be wrong with a search configuration.

use vstd::prelude::*;

verus! {

/// A search configuration that cannot be used. It is found when the
/// configuration is built, before any directory is visited.
#[derive(Debug, Clone, PartialEq, Eq)]
pub enum ConfigError {
    /// The pattern is not a regular expression that can be compiled.
    InvalidPattern { pattern: String },
    /// Year, month and day do not name a day of the calendar.
    InvalidDate { year: i32, month: u32, day: u32 },
}

impl ConfigError {
    /// A sentence for the user, naming the input that was refused.
    pub fn message(&self) -> (text: String)
        ensures
            self matches ConfigError::InvalidPattern { pattern } ==> text@
                == "invalid pattern: "@ + pattern@,
            self is InvalidDate ==> text@ == "invalid calendar date"@,
    {
        match self {
            ConfigError::InvalidPattern { pattern } => {
                String::from_str("invalid pattern: ").concat(pattern.as_str())
            },
            ConfigError::InvalidDate { .. } => String::from_str("invalid calendar date"),
        }
    }
}

} // verus!
