use vstd::prelude::*;
use crate::consistency::{
    grouping_outcome, lemma_separator_indices, separator_indices, separator_positions,
    GroupingOutcome,
};
use crate::digit_info::{
    after_prefix, digits_of, first_marker, is_suffix_marker, literal_hint, marker_from,
    or_empty, prefix_of, radix_of, suffix_of, suffix_start, DigitInfo, opt_view,
};
use crate::hint::{
    fractional_part, group_from_left, group_fractional, group_integral, integral_part,
    point_from, point_index,
};
use crate::lint::{literal_warning, starts_with_digit, WarningType};
use crate::radix::Radix;
use crate::text::{
    is_separator, lemma_strip_concat, lemma_strip_has_no_separator, lemma_strip_plain,
    strip_separators,
};

verus! {

/// `s` is made of decimal digits only.
pub open spec fn all_decimal_digits(s: Seq<char>) -> bool {
    forall|i: int| 0 <= i < s.len() ==> '0' <= #[trigger] s[i] <= '9'
}

/// `s` holds no separator.
pub open spec fn no_separators(s: Seq<char>) -> bool {
    forall|i: int| 0 <= i < s.len() ==> !is_separator(#[trigger] s[i])
}

proof fn lemma_no_separator_positions(d: Seq<char>)
    requires
        no_separators(d),
    ensures
        separator_positions(d).len() == 0,
{
    let r = d.reverse();
    lemma_separator_indices(r);
    if separator_indices(r).len() > 0 {
        let k = separator_indices(r)[0];
        assert(r[k] == d[d.len() - 1 - k]);
    }
}

proof fn lemma_marker_from(w: Seq<char>, float: bool, i: int)
    requires
        0 <= i <= w.len(),
    ensures
        i <= marker_from(w, float, i) <= w.len(),
        forall|j: int| i <= j < marker_from(w, float, i) ==> !is_suffix_marker(#[trigger] w[j], float),
        marker_from(w, float, i) < w.len() ==> is_suffix_marker(w[marker_from(w, float, i)], float),
    decreases w.len() - i,
{
    if i < w.len() && !is_suffix_marker(w[i], float) {
        lemma_marker_from(w, float, i + 1);
    }
}

proof fn lemma_point_from(d: Seq<char>, i: int)
    requires
        0 <= i <= d.len(),
    ensures
        i <= point_from(d, i) <= d.len(),
        forall|j: int| i <= j < point_from(d, i) ==> #[trigger] d[j] != '.',
        point_from(d, i) < d.len() ==> d[point_from(d, i)] == '.',
    decreases d.len() - i,
{
    if i < d.len() && d[i] != '.' {
        lemma_point_from(d, i + 1);
    }
}

/// A run of at most four digits without separators is acceptable as it
/// stands, and a literal written as such a run draws no warning.
pub proof fn lemma_short_plain_literal(s: Seq<char>, float: bool)
    requires
        0 < s.len() <= 4,
        all_decimal_digits(s),
    ensures
        grouping_outcome(s) == GroupingOutcome::Acceptable(0),
        literal_warning(s, float) is None,
{
    assert(no_separators(s));
    lemma_no_separator_positions(s);
    lemma_plain_literal_parts(s, float);
    lemma_point_from(s, 0);
    if point_index(s) < s.len() {
        assert('0' <= s[point_index(s)] <= '9');
    }
    assert(integral_part(s) =~= s);
}

/// A run of decimal digits written as a literal is taken whole as its digits,
/// with no prefix and no suffix.
proof fn lemma_plain_literal_parts(s: Seq<char>, float: bool)
    requires
        s.len() > 0,
        all_decimal_digits(s),
    ensures
        radix_of(s) == Radix::Decimal,
        digits_of(s, float) == s,
        suffix_of(s, float) is None,
        prefix_of(s) is None,
{
    assert(radix_of(s) == Radix::Decimal) by {
        if s.len() >= 2 {
            assert('0' <= s[1] <= '9');
        }
    }
    lemma_marker_from(s, float, 0);
    if first_marker(s, float) < s.len() {
        let m = first_marker(s, float);
        assert('0' <= s[m] <= '9');
    }
    assert(s.take(s.len() as int) =~= s);
}

/// A literal of more than four decimal digits without separators is
/// unreadable, and its suggested rewrite, stripped of separators, is the
/// literal itself.
pub proof fn lemma_long_plain_literal(s: Seq<char>)
    requires
        s.len() > 4,
        all_decimal_digits(s),
    ensures
        literal_warning(s, false) == Some(WarningType::UnreadableLiteral),
        strip_separators(literal_hint(s, false)) == s,
{
    lemma_plain_literal_parts(s, false);
    assert(no_separators(s));
    lemma_no_separator_positions(s);
    lemma_point_from(s, 0);
    if point_index(s) < s.len() {
        assert('0' <= s[point_index(s)] <= '9');
    }
    let gd = group_integral(s, 3);
    assert(literal_hint(s, false) =~= gd);
    lemma_group_integral_round_trip(s, 3);
    lemma_strip_plain(s);
}

/// A run of more than four characters without separators is unreadable.
pub proof fn lemma_long_plain_unreadable(d: Seq<char>)
    requires
        d.len() > 4,
        no_separators(d),
    ensures
        grouping_outcome(d) == GroupingOutcome::Unreadable,
{
    lemma_no_separator_positions(d);
}

proof fn lemma_reverse_concat(a: Seq<char>, b: Seq<char>)
    ensures
        (a + b).reverse() == b.reverse() + a.reverse(),
{
    assert((a + b).reverse() =~= b.reverse() + a.reverse());
}

proof fn lemma_reverse_reverse(a: Seq<char>)
    ensures
        a.reverse().reverse() == a,
{
    assert(a.reverse().reverse() =~= a);
}

proof fn lemma_strip_reverse(x: Seq<char>)
    ensures
        strip_separators(x.reverse()) == strip_separators(x).reverse(),
    decreases x.len(),
{
    if x.len() == 0 {
        assert(x.reverse() =~= x);
        assert(strip_separators(x).reverse() =~= strip_separators(x));
    } else {
        let y = x.drop_last();
        let c = seq![x.last()];
        assert(x =~= y + c);
        lemma_reverse_concat(y, c);
        assert(c.reverse() =~= c);
        lemma_strip_reverse(y);
        lemma_strip_concat(c, y.reverse());
        lemma_strip_concat(y, c);
        lemma_reverse_concat(strip_separators(y), strip_separators(c));
        assert(strip_separators(c).reverse() =~= strip_separators(c)) by {
            assert(c.drop_last() =~= Seq::<char>::empty());
        }
    }
}

proof fn lemma_strip_twice(x: Seq<char>)
    ensures
        strip_separators(strip_separators(x)) == strip_separators(x),
{
    lemma_strip_has_no_separator(x);
    lemma_strip_plain(strip_separators(x));
}

proof fn lemma_strip_group(t: Seq<char>, g: nat)
    ensures
        strip_separators(group_from_left(t, g)) == strip_separators(t),
    decreases t.len(),
{
    if g > 0 && t.len() > g {
        let a = t.take(g as int);
        let b = t.skip(g as int);
        lemma_strip_group(b, g);
        lemma_strip_concat(a + seq!['_'], group_from_left(b, g));
        lemma_strip_concat(a, seq!['_']);
        assert(seq!['_'].drop_last() =~= Seq::<char>::empty());
        assert(strip_separators(Seq::<char>::empty()) == Seq::<char>::empty());
        assert(strip_separators(seq!['_']) =~= Seq::<char>::empty());
        lemma_strip_concat(a, b);
        assert(t =~= a + b);
        assert(strip_separators(a) + Seq::<char>::empty() =~= strip_separators(a));
    }
}

/// Regrouping an integral part keeps its digits and their order.
pub proof fn lemma_group_integral_round_trip(d: Seq<char>, g: nat)
    ensures
        strip_separators(group_integral(d, g)) == strip_separators(d),
{
    let t = strip_separators(d).reverse();
    lemma_strip_reverse(group_from_left(t, g));
    lemma_strip_group(t, g);
    lemma_strip_reverse(strip_separators(d));
    lemma_strip_twice(d);
    lemma_reverse_reverse(strip_separators(d));
}

/// Regrouping a fractional part keeps its digits and their order.
pub proof fn lemma_group_fractional_round_trip(d: Seq<char>, g: nat)
    ensures
        strip_separators(group_fractional(d, g)) == strip_separators(d),
{
    lemma_strip_group(strip_separators(d), g);
    lemma_strip_twice(d);
}

proof fn lemma_split_at_point(d: Seq<char>)
    requires
        point_index(d) < d.len(),
    ensures
        d == integral_part(d) + seq!['.'] + fractional_part(d),
{
    lemma_point_from(d, 0);
    assert(d =~= integral_part(d) + seq!['.'] + fractional_part(d));
}

/// Removing the separators from the suggested rewrite gives back the
/// literal's own digits, with its prefix (on a literal without decimal point)
/// and its suffix, stripped likewise: no digit is added, dropped or moved.
pub proof fn lemma_hint_round_trip(info: DigitInfo)
    ensures
        ({
            let d = info.digits@;
            let pre = or_empty(opt_view(info.prefix));
            let suf = or_empty(opt_view(info.suffix));
            &&& point_index(d) < d.len() ==> strip_separators(info.hint()) == strip_separators(d)
                + strip_separators(suf)
            &&& point_index(d) >= d.len() ==> strip_separators(info.hint()) == strip_separators(
                pre,
            ) + strip_separators(d) + strip_separators(suf)
        }),
{
    let d = info.digits@;
    let g = info.radix.group_size();
    let pre = or_empty(opt_view(info.prefix));
    let suf = or_empty(opt_view(info.suffix));
    if point_index(d) < d.len() {
        let ip = integral_part(d);
        let fp = fractional_part(d);
        let gi = group_integral(ip, g);
        let gf = group_fractional(fp, g);
        let dot = seq!['.'];
        assert(strip_separators(dot) =~= dot) by {
            assert(dot.drop_last() =~= Seq::<char>::empty());
            assert(strip_separators(Seq::<char>::empty()) == Seq::<char>::empty());
            assert(Seq::<char>::empty().push('.') =~= dot);
        }
        lemma_group_integral_round_trip(ip, g);
        lemma_group_fractional_round_trip(fp, g);
        lemma_strip_concat(gi + dot + gf, suf);
        lemma_strip_concat(gi + dot, gf);
        lemma_strip_concat(gi, dot);
        lemma_split_at_point(d);
        lemma_strip_concat(ip + dot, fp);
        lemma_strip_concat(ip, dot);
    } else {
        let gd = group_integral(d, g);
        lemma_group_integral_round_trip(d, g);
        lemma_strip_concat(pre + gd, suf);
        lemma_strip_concat(pre, gd);
    }
}

proof fn lemma_separator_indices_concat(a: Seq<char>, b: Seq<char>)
    ensures
        separator_indices(a + b) == separator_indices(a) + separator_indices(b).map_values(
            |j: int| j + a.len(),
        ),
    decreases b.len(),
{
    if b.len() == 0 {
        assert(a + b =~= a);
        assert(separator_indices(a) + separator_indices(b).map_values(|j: int| j + a.len())
            =~= separator_indices(a));
    } else {
        lemma_separator_indices_concat(a, b.drop_last());
        assert((a + b).drop_last() =~= a + b.drop_last());
        let f = |j: int| j + a.len();
        if is_separator(b.last()) {
            assert(separator_indices(b).map_values(f) =~= separator_indices(b.drop_last()).map_values(
                f,
            ).push(b.len() - 1 + a.len()));
        }
        assert(separator_indices(a) + separator_indices(b).map_values(f) =~= if is_separator(
            b.last(),
        ) {
            (separator_indices(a) + separator_indices(b.drop_last()).map_values(f)).push(
                (a + b).len() - 1,
            )
        } else {
            separator_indices(a) + separator_indices(b.drop_last()).map_values(f)
        });
    }
}

proof fn lemma_plain_indices(t: Seq<char>)
    requires
        no_separators(t),
    ensures
        separator_indices(t).len() == 0,
{
    lemma_separator_indices(t);
    if separator_indices(t).len() > 0 {
        assert(!is_separator(t[separator_indices(t)[0]]));
    }
}

/// The separators of a run grouped from the left stand at evenly spaced
/// positions, the first one after `g` characters, the last group no longer.
proof fn lemma_grouped_indices(t: Seq<char>, g: nat)
    requires
        no_separators(t),
        g >= 1,
        t.len() > g,
    ensures
        ({
            let x = group_from_left(t, g);
            let p = separator_indices(x);
            &&& p.len() >= 1
            &&& p[0] == g
            &&& forall|i: int| 0 <= i < p.len() - 1 ==> #[trigger] p[i + 1] - p[i] == g + 1
            &&& x.len() - p.last() <= g + 1
        }),
    decreases t.len(),
{
    let a = t.take(g as int);
    let b = t.skip(g as int);
    let y = group_from_left(b, g);
    let x = group_from_left(t, g);
    let sep = seq!['_'];
    assert(no_separators(a));
    assert(no_separators(b));
    lemma_plain_indices(a);
    assert((a + sep).drop_last() =~= a);
    assert(separator_indices(a + sep) =~= seq![g as int]);
    lemma_separator_indices_concat(a + sep, y);
    let q = separator_indices(y);
    let p = separator_indices(x);
    assert(x == (a + sep) + y);
    assert(p == seq![g as int] + q.map_values(|j: int| j + (g + 1)));
    if b.len() <= g {
        lemma_plain_indices(b);
        assert(p.len() == 1);
    } else {
        lemma_grouped_indices(b, g);
        assert forall|i: int| 0 <= i < p.len() - 1 implies #[trigger] p[i + 1] - p[i] == g + 1 by {
            if i > 0 {
                assert(q[(i - 1) + 1] - q[i - 1] == g + 1);
            }
        }
    }
}

/// A run without separators, grouped from the left by a readable size and
/// read back from its other end, is acceptable: with groups of `g` where it
/// is longer than `g`, else as it stands.
proof fn lemma_grouped_outcome(t: Seq<char>, g: nat)
    requires
        no_separators(t),
        1 <= g <= 4,
    ensures
        grouping_outcome(group_from_left(t, g).reverse()) == GroupingOutcome::Acceptable(
            if t.len() <= g { 0 } else { g as usize },
        ),
        t.len() <= g ==> group_from_left(t, g) == t,
{
    let x = group_from_left(t, g);
    lemma_reverse_reverse(x);
    assert(separator_positions(x.reverse()) == separator_indices(x));
    if t.len() <= g {
        lemma_plain_indices(t);
    } else {
        lemma_grouped_indices(t, g);
    }
}

proof fn lemma_strip_keeps(s: Seq<char>, ok: spec_fn(char) -> bool)
    requires
        forall|i: int| 0 <= i < s.len() ==> ok(#[trigger] s[i]) || is_separator(s[i]),
    ensures
        forall|i: int|
            0 <= i < strip_separators(s).len() ==> ok(#[trigger] strip_separators(s)[i]),
    decreases s.len(),
{
    if s.len() > 0 {
        let y = s.drop_last();
        assert(forall|i: int| 0 <= i < y.len() ==> y[i] == s[i]);
        lemma_strip_keeps(y, ok);
        let z = strip_separators(y);
        if !is_separator(s.last()) {
            assert forall|i: int| 0 <= i < z.push(s.last()).len() implies ok(
                #[trigger] z.push(s.last())[i],
            ) by {
                if i < z.len() {
                    assert(z.push(s.last())[i] == z[i]);
                } else {
                    assert(ok(s[s.len() - 1]) || is_separator(s[s.len() - 1]));
                }
            }
        }
    }
}

proof fn lemma_strip_first(s: Seq<char>)
    requires
        s.len() > 0,
        !is_separator(s[0]),
    ensures
        strip_separators(s).len() > 0,
        strip_separators(s)[0] == s[0],
{
    let c = seq![s[0]];
    let rest = s.skip(1);
    assert(s =~= c + rest);
    lemma_strip_concat(c, rest);
    assert(c.drop_last() =~= Seq::<char>::empty());
    assert(strip_separators(Seq::<char>::empty()) == Seq::<char>::empty());
    assert(strip_separators(c) =~= c);
}

proof fn lemma_group_keeps(t: Seq<char>, g: nat, ok: spec_fn(char) -> bool)
    requires
        forall|i: int| 0 <= i < t.len() ==> ok(#[trigger] t[i]),
    ensures
        ({
            let x = group_from_left(t, g);
            &&& forall|i: int| 0 <= i < x.len() ==> ok(#[trigger] x[i]) || is_separator(x[i])
            &&& t.len() > 0 ==> x.len() > 0 && x[0] == t[0] && x.last() == t.last()
        }),
    decreases t.len(),
{
    if g > 0 && t.len() > g {
        let a = t.take(g as int);
        let b = t.skip(g as int);
        let y = group_from_left(b, g);
        lemma_group_keeps(b, g, ok);
        let x = group_from_left(t, g);
        assert forall|i: int| 0 <= i < x.len() implies ok(#[trigger] x[i]) || is_separator(x[i]) by {
            if i < g {
                assert(x[i] == t[i]);
            } else if i > g {
                assert(x[i] == y[i - g - 1]);
            }
        }
    }
}

/// What a type suffix begins with: a marker, or a separator then a marker.
spec fn suffix_shape(s: Seq<char>, float: bool) -> bool {
    s.len() == 0 || is_suffix_marker(s[0], float) || (s.len() >= 2 && is_separator(s[0])
        && is_suffix_marker(s[1], float))
}

proof fn lemma_suffix_shape(lit: Seq<char>, float: bool)
    ensures
        suffix_shape(or_empty(suffix_of(lit, float)), float),
        after_prefix(lit) == digits_of(lit, float) + or_empty(suffix_of(lit, float)),
{
    let w = after_prefix(lit);
    lemma_marker_from(w, float, 0);
    let b = suffix_start(w, float);
    assert(w =~= w.take(b) + w.skip(b));
    if first_marker(w, float) >= w.len() {
        assert(w.take(b) =~= w);
        assert(w =~= w + Seq::<char>::empty());
    }
}

proof fn lemma_digits_of_body(body: Seq<char>, sfx: Seq<char>, float: bool)
    requires
        forall|i: int| 0 <= i < body.len() ==> !is_suffix_marker(#[trigger] body[i], float),
        body.len() > 0 ==> !is_separator(body.last()),
        suffix_shape(sfx, float),
    ensures
        (body + sfx).take(suffix_start(body + sfx, float)) == body,
{
    let w = body + sfx;
    let n = body.len() as int;
    lemma_marker_from(w, float, 0);
    let m = first_marker(w, float);
    if m < n {
        assert(w[m] == body[m]);
    }
    if sfx.len() > 0 {
        assert(w[n] == sfx[0]);
        if !is_suffix_marker(sfx[0], float) {
            assert(w[n + 1] == sfx[1]);
            assert(m == n + 1);
        } else {
            assert(m == n);
            if n > 0 {
                assert(w[n - 1] == body.last());
            }
        }
    }
    assert(w.take(suffix_start(w, float)) =~= body);
}

/// `c` is a digit of `radix`.
pub open spec fn is_radix_digit(c: char, radix: Radix) -> bool {
    match radix {
        Radix::Binary => c == '0' || c == '1',
        Radix::Octal => '0' <= c <= '7',
        Radix::Decimal => '0' <= c <= '9',
        Radix::Hexadecimal => '0' <= c <= '9' || 'a' <= c <= 'f' || 'A' <= c <= 'F',
    }
}

/// Every character of `s` is a digit of `radix` or a separator.
pub open spec fn digits_or_separators(s: Seq<char>, radix: Radix) -> bool {
    forall|i: int| 0 <= i < s.len() ==> is_radix_digit(#[trigger] s[i], radix) || is_separator(s[i])
}

/// `lit` has the shape of a numeric literal: it begins with a decimal digit;
/// its digits are digits of its radix and separators, with at most one
/// decimal point, and that only in a float; a float is decimal.
pub open spec fn well_formed_literal(lit: Seq<char>, float: bool) -> bool {
    let d = digits_of(lit, float);
    let r = radix_of(lit);
    &&& starts_with_digit(lit)
    &&& float ==> r == Radix::Decimal
    &&& point_index(d) < d.len() ==> float
    &&& digits_or_separators(integral_part(d), r)
    &&& digits_or_separators(fractional_part(d), r)
}

/// What regrouping one part of a literal's digits yields, read from the units
/// digit: digits of the radix and separators only, the first digit kept, an
/// acceptable grouping.
proof fn lemma_integral_regrouped(part: Seq<char>, radix: Radix)
    requires
        digits_or_separators(part, radix),
    ensures
        ({
            let g = radix.group_size();
            let gi = group_integral(part, g);
            let n = strip_separators(part).len();
            &&& digits_or_separators(gi, radix)
            &&& n > 0 ==> gi.len() > 0 && !is_separator(gi.last())
            &&& part.len() > 0 && !is_separator(part[0]) ==> gi.len() > 0 && gi[0] == part[0]
            &&& grouping_outcome(gi) == GroupingOutcome::Acceptable(
                if n <= g { 0 } else { g as usize },
            )
            &&& n <= g ==> gi.len() == n
        }),
{
    let g = radix.group_size();
    let ok = |c: char| is_radix_digit(c, radix);
    let st = strip_separators(part);
    lemma_strip_keeps(part, ok);
    let t = st.reverse();
    assert(forall|i: int| 0 <= i < t.len() ==> #[trigger] t[i] == st[st.len() - 1 - i]);
    assert(forall|i: int| 0 <= i < t.len() ==> ok(#[trigger] t[i]));
    lemma_group_keeps(t, g, ok);
    let x = group_from_left(t, g);
    let gi = x.reverse();
    assert(forall|i: int| 0 <= i < gi.len() ==> #[trigger] gi[i] == x[x.len() - 1 - i]);
    assert(no_separators(t));
    lemma_grouped_outcome(t, g);
    if part.len() > 0 && !is_separator(part[0]) {
        lemma_strip_first(part);
    }
}

/// What regrouping the fractional part yields, read from the decimal point.
proof fn lemma_fractional_regrouped(part: Seq<char>, radix: Radix)
    requires
        digits_or_separators(part, radix),
    ensures
        ({
            let g = radix.group_size();
            let gf = group_fractional(part, g);
            let n = strip_separators(part).len();
            &&& digits_or_separators(gf, radix)
            &&& n > 0 ==> gf.len() > 0 && !is_separator(gf.last())
            &&& grouping_outcome(gf.reverse()) == GroupingOutcome::Acceptable(
                if n <= g { 0 } else { g as usize },
            )
            &&& n <= g ==> gf.len() == n
        }),
{
    let g = radix.group_size();
    let ok = |c: char| is_radix_digit(c, radix);
    let t = strip_separators(part);
    lemma_strip_keeps(part, ok);
    lemma_group_keeps(t, g, ok);
    assert(no_separators(t));
    lemma_grouped_outcome(t, g);
}

proof fn lemma_decimal_digits_start(lit: Seq<char>, float: bool)
    requires
        starts_with_digit(lit),
        radix_of(lit) == Radix::Decimal,
    ensures
        digits_of(lit, float).len() > 0,
        digits_of(lit, float)[0] == lit[0],
{
    lemma_marker_from(lit, float, 0);
    if first_marker(lit, float) == 0 {
        assert(is_suffix_marker(lit[0], float));
    }
}

/// A literal's suggested rewrite, analysed in its turn, draws no warning.
pub proof fn lemma_hint_draws_no_warning(lit: Seq<char>, float: bool)
    requires
        well_formed_literal(lit, float),
    ensures
        literal_warning(literal_hint(lit, float), float) is None,
{
    let d = digits_of(lit, float);
    let r = radix_of(lit);
    let g = r.group_size();
    let pre = or_empty(prefix_of(lit));
    let sfx = or_empty(suffix_of(lit, float));
    let h = literal_hint(lit, float);
    lemma_suffix_shape(lit, float);
    lemma_point_from(d, 0);
    if r == Radix::Decimal {
        lemma_decimal_digits_start(lit, float);
    }
    if point_index(d) >= d.len() {
        assert(integral_part(d) =~= d);
        let gd = group_integral(d, g);
        lemma_integral_regrouped(d, r);
        assert(h == pre + gd + sfx);
        let body = gd;
        assert forall|i: int| 0 <= i < body.len() implies !is_suffix_marker(
            #[trigger] body[i],
            float,
        ) by {
            assert(is_radix_digit(body[i], r) || is_separator(body[i]));
        }
        lemma_digits_of_body(body, sfx, float);
        if r == Radix::Decimal {
            assert(pre =~= Seq::<char>::empty());
            assert(h =~= gd + sfx);
            assert(d[0] == lit[0] && !is_separator(d[0]));
            if h.len() >= 2 {
                if gd.len() >= 2 {
                    assert(h[1] == gd[1]);
                    assert(is_radix_digit(gd[1], r) || is_separator(gd[1]));
                } else {
                    assert(h[1] == sfx[0]);
                }
            }
            assert(radix_of(h) == Radix::Decimal);
            assert(after_prefix(h) == body + sfx);
        } else {
            assert(pre == lit.take(2));
            assert(h[0] == lit[0] && h[1] == lit[1]);
            assert(radix_of(h) == r);
            assert(after_prefix(h) =~= body + sfx);
        }
        assert(starts_with_digit(h));
        assert(digits_of(h, float) == body);
        if float {
            lemma_point_from(body, 0);
            if point_index(body) < body.len() {
                assert(is_radix_digit(body[point_index(body)], r) || is_separator(
                    body[point_index(body)],
                ));
            }
            assert(integral_part(body) =~= body);
        }
    } else {
        let ip = integral_part(d);
        let fp = fractional_part(d);
        let gi = group_integral(ip, g);
        let gf = group_fractional(fp, g);
        let dot = seq!['.'];
        let body = gi + dot + gf;
        lemma_integral_regrouped(ip, r);
        lemma_fractional_regrouped(fp, r);
        assert(d[0] != '.');
        assert(ip[0] == d[0]);
        assert(h == body + sfx);
        assert(h[0] == gi[0]);
        if h.len() >= 2 {
            if gi.len() >= 2 {
                assert(h[1] == gi[1]);
                assert(is_radix_digit(gi[1], r) || is_separator(gi[1]));
            } else {
                assert(h[1] == '.');
            }
        }
        assert(radix_of(h) == Radix::Decimal);
        assert(starts_with_digit(h));
        assert forall|i: int| 0 <= i < body.len() implies !is_suffix_marker(
            #[trigger] body[i],
            float,
        ) by {
            if i < gi.len() {
                assert(body[i] == gi[i]);
                assert(is_radix_digit(gi[i], r) || is_separator(gi[i]));
            } else if i > gi.len() {
                assert(body[i] == gf[i - gi.len() - 1]);
                assert(is_radix_digit(gf[i - gi.len() - 1], r) || is_separator(
                    gf[i - gi.len() - 1],
                ));
            }
        }
        if gf.len() > 0 {
            assert(body.last() == gf.last());
        }
        lemma_digits_of_body(body, sfx, float);
        assert(digits_of(h, float) == body);
        lemma_point_from(body, 0);
        let k = point_index(body);
        assert(body[gi.len() as int] == '.');
        if k < gi.len() {
            assert(body[k] == gi[k]);
            assert(is_radix_digit(gi[k], r) || is_separator(gi[k]));
        }
        assert(k == gi.len());
        assert(integral_part(body) =~= gi);
        assert(fractional_part(body) =~= gf);
    }
}

} // verus!
