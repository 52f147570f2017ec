//! The generator's configuration: enabled categories and target length.

use vstd::prelude::*;

verus! {

/// Which character categories a password may draw from, and how long it
/// must be. The length must lie in `5..=127`; at least one category must
/// be enabled before generation is invoked.
#[derive(Debug, Clone, Copy)]
pub struct Config {
    pub use_capital: bool,
    pub use_simple: bool,
    pub use_special: bool,
    pub use_number: bool,
    pub length: i8,
}

impl Config {
    /// True when at least one character category is enabled.
    pub open spec fn some_category_enabled(self) -> bool {
        self.use_capital || self.use_simple || self.use_special || self.use_number
    }

    /// A length the generator accepts: at least 5 (`i8` already bounds it
    /// above by 127).
    pub open spec fn length_in_range(self) -> bool {
        5 <= self.length
    }

    /// Exactly one character category is enabled.
    pub open spec fn exactly_one_category(self) -> bool {
        ||| self.use_capital && !self.use_simple && !self.use_special && !self.use_number
        ||| !self.use_capital && self.use_simple && !self.use_special && !self.use_number
        ||| !self.use_capital && !self.use_simple && self.use_special && !self.use_number
        ||| !self.use_capital && !self.use_simple && !self.use_special && self.use_number
    }

    pub fn new(
        use_capital: bool,
        use_simple: bool,
        use_special: bool,
        use_number: bool,
        length: i8,
    ) -> (r: Self)
        ensures
            r.use_capital == use_capital,
            r.use_simple == use_simple,
            r.use_special == use_special,
            r.use_number == use_number,
            r.length == length,
    {
        Config { use_capital, use_simple, use_special, use_number, length }
    }
}

/// Why generation could not produce a password.
#[derive(Debug, Clone, Copy, PartialEq, Eq, Structural)]
pub enum ConfigError {
    /// No character category was enabled; callers must apply a default
    /// (lowercase only) before invoking the generator.
    NoCategorySelected,
    /// Every retry produced a truncation missing some enabled category.
    RetriesExhausted,
}

} // verus!
