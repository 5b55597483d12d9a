use vstd::prelude::*;
use crate::text::{reversed, strip_separators, without_separators};

verus! {

/// `d` cut into groups of `g` characters from the left (the last group may be
/// shorter), joined by separators.
pub open spec fn group_from_left(d: Seq<char>, g: nat) -> Seq<char>
    decreases d.len(),
{
    if g == 0 || d.len() <= g {
        d
    } else {
        d.take(g as int) + seq!['_'] + group_from_left(d.skip(g as int), g)
    }
}

/// The digits of an integral part regrouped by `g`, counting from the units
/// digit, so that only the leading group may be shorter.
pub open spec fn group_integral(d: Seq<char>, g: nat) -> Seq<char> {
    group_from_left(strip_separators(d).reverse(), g).reverse()
}

/// The digits of a fractional part regrouped by `g`, counting from the decimal
/// point, so that only the trailing group may be shorter.
pub open spec fn group_fractional(d: Seq<char>, g: nat) -> Seq<char> {
    group_from_left(strip_separators(d), g)
}

/// Index of the first decimal point in `d` at or after `i`, or `d.len()`.
pub open spec fn point_from(d: Seq<char>, i: int) -> int
    decreases d.len() - i,
{
    if i < 0 || i >= d.len() {
        d.len() as int
    } else if d[i] == '.' {
        i
    } else {
        point_from(d, i + 1)
    }
}

/// Index of the first decimal point in `d`, or `d.len()` where there is none.
pub open spec fn point_index(d: Seq<char>) -> int {
    point_from(d, 0)
}

/// The digits before the decimal point (all of them where there is none).
pub open spec fn integral_part(d: Seq<char>) -> Seq<char> {
    d.take(point_index(d))
}

/// The digits after the decimal point (none where there is no point).
pub open spec fn fractional_part(d: Seq<char>) -> Seq<char> {
    if point_index(d) < d.len() {
        d.skip(point_index(d) + 1)
    } else {
        Seq::empty()
    }
}

/// Cuts `v` into groups of `g` from the left and joins them by separators.
pub fn group_left(v: &Vec<char>, g: usize) -> (r: Vec<char>)
    requires
        g > 0,
    ensures
        r@ == group_from_left(v@, g as nat),
{
    let n = v.len();
    let mut out: Vec<char> = Vec::new();
    let mut pos: usize = 0;
    assert(v@.skip(0) =~= v@);
    while pos < n
        invariant
            0 < g,
            n == v@.len(),
            pos <= n,
            out@ + (if 0 < pos < n {
                seq!['_']
            } else {
                Seq::empty()
            }) + group_from_left(v@.skip(pos as int), g as nat) == group_from_left(
                v@,
                g as nat,
            ),
        decreases n - pos,
    {
        let ghost rest = v@.skip(pos as int);
        let ghost start = out@;
        if pos > 0 {
            out.push('_');
        }
        let ghost joined = out@;
        let end = if n - pos <= g {
            n
        } else {
            pos + g
        };
        let mut j = pos;
        while j < end
            invariant
                pos <= j <= end <= n,
                n == v@.len(),
                out@ == joined + v@.subrange(pos as int, j as int),
            decreases end - j,
        {
            out.push(v[j]);
            j = j + 1;
            assert(out@ =~= joined + v@.subrange(pos as int, j as int));
        }
        proof {
            if n - pos <= g {
                assert(v@.subrange(pos as int, n as int) =~= rest);
                assert(v@.skip(n as int) =~= Seq::<char>::empty());
                assert(out@ + Seq::<char>::empty() + group_from_left(
                    v@.skip(n as int),
                    g as nat,
                ) =~= out@);
            } else {
                assert(rest.take(g as int) =~= v@.subrange(pos as int, end as int));
                assert(rest.skip(g as int) =~= v@.skip(end as int));
                assert(out@ + seq!['_'] + group_from_left(v@.skip(end as int), g as nat)
                    =~= joined + group_from_left(rest, g as nat));
            }
        }
        pos = end;
    }
    assert(v@.skip(n as int) =~= Seq::<char>::empty());
    assert(out@ + Seq::<char>::empty() + Seq::<char>::empty() =~= out@);
    out
}

/// The digits of an integral part regrouped by `g` from the units digit.
pub fn integral_hint(d: &Vec<char>, g: usize) -> (r: Vec<char>)
    requires
        g > 0,
    ensures
        r@ == group_integral(d@, g as nat),
{
    let plain = without_separators(d);
    let back = reversed(&plain);
    let grouped = group_left(&back, g);
    reversed(&grouped)
}

/// The digits of a fractional part regrouped by `g` from the decimal point.
pub fn fractional_hint(d: &Vec<char>, g: usize) -> (r: Vec<char>)
    requires
        g > 0,
    ensures
        r@ == group_fractional(d@, g as nat),
{
    let plain = without_separators(d);
    group_left(&plain, g)
}

/// Index of the first decimal point in `d`, or its length where there is none.
pub fn find_point(d: &Vec<char>) -> (r: usize)
    ensures
        r as int == point_index(d@),
        r <= d@.len(),
{
    let mut i: usize = 0;
    while i < d.len()
        invariant
            i <= d@.len(),
            point_from(d@, i as int) == point_index(d@),
        decreases d.len() - i,
    {
        if d[i] == '.' {
            return i;
        }
        i = i + 1;
    }
    i
}

/// The characters of `v` from index `from` (inclusive) to `to` (exclusive).
pub fn slice_of(v: &Vec<char>, from: usize, to: usize) -> (r: Vec<char>)
    requires
        from <= to <= v@.len(),
    ensures
        r@ == v@.subrange(from as int, to as int),
{
    let mut r: Vec<char> = Vec::new();
    let mut i = from;
    while i < to
        invariant
            from <= i <= to <= v@.len(),
            r@ == v@.subrange(from as int, i as int),
        decreases to - i,
    {
        r.push(v[i]);
        i = i + 1;
        assert(r@ =~= v@.subrange(from as int, i as int));
    }
    r
}

} // verus!
