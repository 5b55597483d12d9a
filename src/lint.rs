use vstd::prelude::*;
use crate::consistency::{grouping_outcome, grouping_outcome_of, GroupingOutcome};
use crate::digit_info::{digits_of, literal_hint, DigitInfo};
use crate::hint::{find_point, fractional_part, integral_part, slice_of};
use crate::text::{chars_of, reversed};

verus! {

/// The kinds of warning about digit grouping.
#[derive(Debug, Clone, Copy, PartialEq, Eq, Structural)]
pub enum WarningType {
    /// A long literal without separators.
    UnreadableLiteral,
    /// Separators at uneven distances, or groups that differ on the two
    /// sides of a decimal point.
    InconsistentDigitGrouping,
    /// Groups larger than readable.
    LargeDigitGroups,
}

/// A warning about one literal, ready to be shown to a user.
#[derive(Debug)]
pub struct Diagnostic<L> {
    /// What is wrong.
    pub kind: WarningType,
    /// A short description of what is wrong.
    pub message: String,
    /// The literal rewritten with well-grouped digits.
    pub suggestion: String,
    /// Where the literal stands, passed through untouched.
    pub locus: L,
}

impl WarningType {
    /// The text that describes this kind of warning.
    pub open spec fn message_text(self) -> Seq<char> {
        match self {
            WarningType::UnreadableLiteral => "long literal lacking separators"@,
            WarningType::InconsistentDigitGrouping => "digits grouped inconsistently by underscores"@,
            WarningType::LargeDigitGroups => "digit groups should be smaller"@,
        }
    }

    /// The text that describes this kind of warning.
    pub fn message(&self) -> (r: String)
        ensures
            r@ == self.message_text(),
    {
        match *self {
            WarningType::UnreadableLiteral => String::from_str("long literal lacking separators"),
            WarningType::InconsistentDigitGrouping => String::from_str(
                "digits grouped inconsistently by underscores",
            ),
            WarningType::LargeDigitGroups => String::from_str("digit groups should be smaller"),
        }
    }

    /// The warning of this kind about the literal at `locus`, suggesting
    /// `grouping_hint` in its place.
    pub fn display<L>(&self, grouping_hint: &str, locus: L) -> (r: Diagnostic<L>)
        ensures
            r.kind == *self,
            r.message@ == self.message_text(),
            r.suggestion@ == grouping_hint@,
            r.locus == locus,
    {
        Diagnostic {
            kind: *self,
            message: self.message(),
            suggestion: String::from_str(grouping_hint),
            locus,
        }
    }
}

/// The warning that a grouping outcome calls for, if any.
pub open spec fn warning_of(o: GroupingOutcome) -> Option<WarningType> {
    match o {
        GroupingOutcome::Acceptable(_) => None,
        GroupingOutcome::Unreadable => Some(WarningType::UnreadableLiteral),
        GroupingOutcome::Inconsistent => Some(WarningType::InconsistentDigitGrouping),
        GroupingOutcome::GroupsTooLarge => Some(WarningType::LargeDigitGroups),
    }
}

/// The group sizes `gi` of an integral part of `int_len` characters and `gf`
/// of a fractional part of `frac_len` characters fit together.
pub open spec fn parts_consistent(gi: int, gf: int, int_len: int, frac_len: int) -> bool {
    if gi == 0 && gf == 0 {
        true
    } else if gf == 0 {
        frac_len <= gi
    } else if gi == 0 {
        int_len <= gf
    } else {
        gi == gf
    }
}

/// The warning about the digits `d` of a literal, if any. A float has its
/// integral part checked first, then its fractional part read from the decimal
/// point outward, then the two group sizes against each other.
pub open spec fn digits_warning(d: Seq<char>, float: bool) -> Option<WarningType> {
    if !float {
        warning_of(grouping_outcome(d))
    } else {
        let ip = integral_part(d);
        let fp = fractional_part(d);
        match grouping_outcome(ip) {
            GroupingOutcome::Acceptable(gi) => {
                if fp.len() == 0 {
                    None
                } else {
                    match grouping_outcome(fp.reverse()) {
                        GroupingOutcome::Acceptable(gf) => {
                            if parts_consistent(gi as int, gf as int, ip.len() as int, fp.len() as int) {
                                None
                            } else {
                                Some(WarningType::InconsistentDigitGrouping)
                            }
                        },
                        other => warning_of(other),
                    }
                }
            },
            other => warning_of(other),
        }
    }
}

/// `lit` begins with a decimal digit.
pub open spec fn starts_with_digit(lit: Seq<char>) -> bool {
    lit.len() > 0 && '0' <= lit[0] <= '9'
}

/// The warning about literal `lit`, if any. Text that does not begin with a
/// decimal digit is not analysed.
pub open spec fn literal_warning(lit: Seq<char>, float: bool) -> Option<WarningType> {
    if starts_with_digit(lit) {
        digits_warning(digits_of(lit, float), float)
    } else {
        None
    }
}

/// The check of digit grouping in integer and floating-point literals.
#[derive(Debug, Clone, Copy)]
pub struct LiteralDigitGrouping;

impl LiteralDigitGrouping {
    /// Checks the literal whose source text is `src` and returns the warning
    /// about it, attached to `locus`, if there is one.
    pub fn check_lit<L>(&self, src: &str, float: bool, locus: L) -> (r: Option<Diagnostic<L>>)
        ensures
            r is Some <==> literal_warning(src@, float) is Some,
            r matches Some(w) ==> {
                &&& Some(w.kind) == literal_warning(src@, float)
                &&& w.message@ == w.kind.message_text()
                &&& w.suggestion@ == literal_hint(src@, float)
                &&& w.locus == locus
            },
    {
        let n = src.unicode_len();
        if n == 0 {
            return None;
        }
        let first = src.get_char(0);
        if !('0' <= first && first <= '9') {
            return None;
        }
        let info = DigitInfo::new(src, float);
        let d = chars_of(info.digits.as_str());
        match Self::digits_warning_of(&d, float) {
            None => None,
            Some(kind) => {
                let hint = info.grouping_hint();
                Some(kind.display(hint.as_str(), locus))
            },
        }
    }

    /// Returns the digits of an integral or floating-point literal.
    pub fn get_digits(lit: &str, float: bool) -> (r: String)
        ensures
            r@ == digits_of(lit@, float),
    {
        DigitInfo::new(lit, float).digits
    }

    /// The warning about the digits `d` of a literal, if any.
    fn digits_warning_of(d: &Vec<char>, float: bool) -> (r: Option<WarningType>)
        ensures
            r == digits_warning(d@, float),
    {
        if !float {
            return match Self::do_lint(d) {
                Ok(_) => None,
                Err(kind) => Some(kind),
            };
        }
        let p = find_point(d);
        let int_part = slice_of(d, 0, p);
        proof {
            assert(int_part@ =~= integral_part(d@));
        }
        match Self::do_lint(&int_part) {
            Err(kind) => Some(kind),
            Ok(gi) => {
                if p >= d.len() || p + 1 == d.len() {
                    None
                } else {
                    let frac_part = slice_of(d, p + 1, d.len());
                    proof {
                        assert(frac_part@ =~= fractional_part(d@));
                    }
                    match Self::do_lint(&reversed(&frac_part)) {
                        Err(kind) => Some(kind),
                        Ok(gf) => {
                            let consistent = if gi == 0 && gf == 0 {
                                true
                            } else if gf == 0 {
                                frac_part.len() <= gi
                            } else if gi == 0 {
                                int_part.len() <= gf
                            } else {
                                gi == gf
                            };
                            if consistent {
                                None
                            } else {
                                Some(WarningType::InconsistentDigitGrouping)
                            }
                        },
                    }
                }
            },
        }
    }

    /// Checks the separators of `digits` (no decimal point): the group size
    /// in use where they are readable, else the warning they call for.
    fn do_lint(digits: &Vec<char>) -> (r: Result<usize, WarningType>)
        ensures
            match grouping_outcome(digits@) {
                GroupingOutcome::Acceptable(g) => r == Ok::<usize, WarningType>(g),
                other => r == Err::<usize, WarningType>(warning_of(other)->0),
            },
    {
        match grouping_outcome_of(digits) {
            GroupingOutcome::Acceptable(g) => Ok(g),
            GroupingOutcome::Unreadable => Err(WarningType::UnreadableLiteral),
            GroupingOutcome::Inconsistent => Err(WarningType::InconsistentDigitGrouping),
            GroupingOutcome::GroupsTooLarge => Err(WarningType::LargeDigitGroups),
        }
    }
}

} // verus!
