use vstd::prelude::*;
use crate::hint::{
    find_point, fractional_hint, fractional_part, group_fractional, group_integral,
    integral_hint, integral_part, point_index, slice_of,
};
use crate::radix::Radix;
use crate::text::{chars_of, is_separator, string_of};

verus! {

/// `lit` starts with `0` followed by the radix letter `c`.
pub open spec fn has_radix_prefix(lit: Seq<char>, c: char) -> bool {
    lit.len() >= 2 && lit[0] == '0' && lit[1] == c
}

/// The radix that the prefix of `lit` announces.
pub open spec fn radix_of(lit: Seq<char>) -> Radix {
    if has_radix_prefix(lit, 'x') {
        Radix::Hexadecimal
    } else if has_radix_prefix(lit, 'b') {
        Radix::Binary
    } else if has_radix_prefix(lit, 'o') {
        Radix::Octal
    } else {
        Radix::Decimal
    }
}

/// The radix prefix of `lit`, present for every radix but decimal.
pub open spec fn prefix_of(lit: Seq<char>) -> Option<Seq<char>> {
    if radix_of(lit) == Radix::Decimal {
        None
    } else {
        Some(lit.take(2))
    }
}

/// `lit` without its radix prefix.
pub open spec fn after_prefix(lit: Seq<char>) -> Seq<char> {
    if radix_of(lit) == Radix::Decimal {
        lit
    } else {
        lit.skip(2)
    }
}

/// `c` opens a type suffix: `i` or `u` on an integer, `f` on a float.
pub open spec fn is_suffix_marker(c: char, float: bool) -> bool {
    if float {
        c == 'f'
    } else {
        c == 'i' || c == 'u'
    }
}

/// Whether `c` opens a type suffix.
fn suffix_marker(c: char, float: bool) -> (r: bool)
    ensures
        r == is_suffix_marker(c, float),
{
    !float && (c == 'i' || c == 'u') || float && c == 'f'
}

/// Index of the first suffix marker in `w` at or after `i`, or `w.len()`.
pub open spec fn marker_from(w: Seq<char>, float: bool, i: int) -> int
    decreases w.len() - i,
{
    if i < 0 || i >= w.len() {
        w.len() as int
    } else if is_suffix_marker(w[i], float) {
        i
    } else {
        marker_from(w, float, i + 1)
    }
}

/// Index of the first suffix marker in `w`, or `w.len()` where there is none.
pub open spec fn first_marker(w: Seq<char>, float: bool) -> int {
    marker_from(w, float, 0)
}

/// Where the suffix of `w` begins: at its first marker, or one earlier where
/// a separator stands right before that marker.
pub open spec fn suffix_start(w: Seq<char>, float: bool) -> int {
    let m = first_marker(w, float);
    if 0 < m < w.len() && is_separator(w[m - 1]) {
        m - 1
    } else {
        m
    }
}

/// The digits of `lit`: what lies between its radix prefix and its type suffix.
pub open spec fn digits_of(lit: Seq<char>, float: bool) -> Seq<char> {
    let w = after_prefix(lit);
    w.take(suffix_start(w, float))
}

/// The type suffix of `lit`, with the separator that precedes it, if any.
pub open spec fn suffix_of(lit: Seq<char>, float: bool) -> Option<Seq<char>> {
    let w = after_prefix(lit);
    if first_marker(w, float) < w.len() {
        Some(w.skip(suffix_start(w, float)))
    } else {
        None
    }
}

/// The characters of an optional string.
pub open spec fn opt_view(o: Option<String>) -> Option<Seq<char>> {
    match o {
        Some(s) => Some(s@),
        None => None,
    }
}

/// The characters of an optional piece of text, nothing where it is absent.
pub open spec fn or_empty(o: Option<Seq<char>>) -> Seq<char> {
    match o {
        Some(s) => s,
        None => Seq::empty(),
    }
}

/// The suggested rewrite of a literal with these parts: the digits regrouped
/// by the radix's preferred size, prefix and suffix kept. A float with a
/// decimal point has its integral part grouped from the units digit and its
/// fractional part from the point.
pub open spec fn hint_text(
    digits: Seq<char>,
    radix: Radix,
    prefix: Option<Seq<char>>,
    suffix: Option<Seq<char>>,
) -> Seq<char> {
    let g = radix.group_size();
    if point_index(digits) < digits.len() {
        group_integral(integral_part(digits), g) + seq!['.'] + group_fractional(
            fractional_part(digits),
            g,
        ) + or_empty(suffix)
    } else {
        or_empty(prefix) + group_integral(digits, g) + or_empty(suffix)
    }
}

/// The suggested rewrite of literal `lit`.
pub open spec fn literal_hint(lit: Seq<char>, float: bool) -> Seq<char> {
    hint_text(digits_of(lit, float), radix_of(lit), prefix_of(lit), suffix_of(lit, float))
}

/// One literal taken apart into radix prefix, digits and type suffix.
#[derive(Debug)]
pub struct DigitInfo {
    /// Characters of the literal between the radix prefix and type suffix.
    pub digits: String,
    /// Which radix the literal was written in.
    pub radix: Radix,
    /// The radix prefix, if present.
    pub prefix: Option<String>,
    /// The type suffix, including a preceding separator if present.
    pub suffix: Option<String>,
    /// True for floating-point literals.
    pub float: bool,
}

impl DigitInfo {
    /// This value is the decomposition of literal `lit`.
    pub open spec fn describes(self, lit: Seq<char>, float: bool) -> bool {
        &&& self.digits@ == digits_of(lit, float)
        &&& self.radix == radix_of(lit)
        &&& opt_view(self.prefix) == prefix_of(lit)
        &&& opt_view(self.suffix) == suffix_of(lit, float)
        &&& self.float == float
    }

    /// The rewrite that `grouping_hint` proposes.
    pub open spec fn hint(self) -> Seq<char> {
        hint_text(self.digits@, self.radix, opt_view(self.prefix), opt_view(self.suffix))
    }

    /// Takes the literal text `lit` apart.
    pub fn new(lit: &str, float: bool) -> (r: DigitInfo)
        ensures
            r.describes(lit@, float),
    {
        let all = chars_of(lit);
        let n = all.len();
        let radix = if n >= 2 && all[0] == '0' && all[1] == 'x' {
            Radix::Hexadecimal
        } else if n >= 2 && all[0] == '0' && all[1] == 'b' {
            Radix::Binary
        } else if n >= 2 && all[0] == '0' && all[1] == 'o' {
            Radix::Octal
        } else {
            Radix::Decimal
        };
        let (prefix, start) = match radix {
            Radix::Decimal => (None, 0),
            _ => (Some(string_of(&slice_of(&all, 0, 2))), 2),
        };
        let w = slice_of(&all, start, n);
        proof {
            assert(w@ =~= after_prefix(lit@));
            if radix != Radix::Decimal {
                assert(lit@.subrange(0, 2) =~= lit@.take(2));
            }
        }
        let mut i: usize = 0;
        while i < w.len() && !suffix_marker(w[i], float)
            invariant
                i <= w@.len(),
                marker_from(w@, float, i as int) == first_marker(w@, float),
            decreases w.len() - i,
        {
            i = i + 1;
        }
        let m = i;
        let has_suffix = m < w.len();
        let cut = if has_suffix && m > 0 && w[m - 1] == '_' {
            m - 1
        } else {
            m
        };
        let digits = string_of(&slice_of(&w, 0, cut));
        let suffix = if has_suffix {
            Some(string_of(&slice_of(&w, cut, w.len())))
        } else {
            None
        };
        proof {
            assert(w@.subrange(0, cut as int) =~= w@.take(cut as int));
            assert(w@.subrange(cut as int, w@.len() as int) =~= w@.skip(cut as int));
        }
        DigitInfo { digits, radix, prefix, suffix, float }
    }

    /// Returns the literal with its digits grouped in a sensible way.
    pub fn grouping_hint(&self) -> (r: String)
        ensures
            r@ == self.hint(),
    {
        let g = self.radix.suggest_grouping();
        let d = chars_of(self.digits.as_str());
        let p = find_point(&d);
        let mut out: Vec<char> = Vec::new();
        if p < d.len() {
            let int_part = slice_of(&d, 0, p);
            let frac_part = slice_of(&d, p + 1, d.len());
            proof {
                assert(int_part@ =~= integral_part(d@));
                assert(frac_part@ =~= fractional_part(d@));
            }
            out.append(&mut integral_hint(&int_part, g));
            out.push('.');
            out.append(&mut fractional_hint(&frac_part, g));
        } else {
            if let Some(pre) = &self.prefix {
                out.append(&mut chars_of(pre.as_str()));
            }
            out.append(&mut integral_hint(&d, g));
        }
        if let Some(suf) = &self.suffix {
            out.append(&mut chars_of(suf.as_str()));
        }
        assert(out@ =~= self.hint());
        string_of(&out)
    }
}

} // verus!
