use vstd::prelude::*;

verus! {

/// The numeral base of a literal, as given by its prefix.
#[derive(Debug, Clone, Copy, PartialEq, Eq, Structural)]
pub enum Radix {
    Binary,
    Octal,
    Decimal,
    Hexadecimal,
}

impl Radix {
    /// The preferred number of digits in one group for this radix.
    pub open spec fn group_size(self) -> nat {
        match self {
            Radix::Binary | Radix::Hexadecimal => 4,
            Radix::Octal | Radix::Decimal => 3,
        }
    }

    /// Returns a reasonable digit group size for this radix.
    pub fn suggest_grouping(&self) -> (r: usize)
        ensures
            r as nat == self.group_size(),
    {
        match *self {
            Radix::Binary | Radix::Hexadecimal => 4,
            Radix::Octal | Radix::Decimal => 3,
        }
    }
}

} // verus!
