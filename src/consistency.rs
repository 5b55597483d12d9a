use vstd::prelude::*;
use crate::text::{chars_of, is_separator};

verus! {

/// What the grouping of one run of digits (without a decimal point) amounts to.
#[derive(Debug, Clone, Copy, PartialEq, Eq, Structural)]
pub enum GroupingOutcome {
    /// Readable as it stands; the size of its groups, or 0 where there are none.
    Acceptable(usize),
    /// Too long to be read without separators.
    Unreadable,
    /// Separators stand at uneven distances.
    Inconsistent,
    /// Separators are evenly placed but too far apart.
    GroupsTooLarge,
}

/// The length above which a run of digits needs separators, and the largest
/// group size that is still readable.
pub open spec fn max_plain_len() -> nat {
    4
}

/// Indices of the separators in `r`, in increasing order.
pub open spec fn separator_indices(r: Seq<char>) -> Seq<int>
    decreases r.len(),
{
    if r.len() == 0 {
        Seq::empty()
    } else if is_separator(r.last()) {
        separator_indices(r.drop_last()).push(r.len() - 1)
    } else {
        separator_indices(r.drop_last())
    }
}

/// Positions of the separators of `d`, each counted as the number of
/// characters to its right, nearest to the units digit first.
pub open spec fn separator_positions(d: Seq<char>) -> Seq<int> {
    separator_indices(d.reverse())
}

/// Every two neighbouring positions lie `g + 1` apart.
pub open spec fn evenly_spaced(p: Seq<int>, g: int) -> bool {
    forall|i: int| 0 <= i < p.len() - 1 ==> #[trigger] p[i + 1] - p[i] == g + 1
}

/// The verdict on the separators of `d`.
pub open spec fn grouping_outcome(d: Seq<char>) -> GroupingOutcome {
    let p = separator_positions(d);
    if p.len() == 0 {
        if d.len() > max_plain_len() {
            GroupingOutcome::Unreadable
        } else {
            GroupingOutcome::Acceptable(0)
        }
    } else {
        let g = p[0];
        if !evenly_spaced(p, g) || d.len() - p.last() > g + 1 {
            GroupingOutcome::Inconsistent
        } else if g > max_plain_len() {
            GroupingOutcome::GroupsTooLarge
        } else {
            GroupingOutcome::Acceptable(g as usize)
        }
    }
}

/// Separator indices lie inside `r`, increase strictly, and point at separators.
pub proof fn lemma_separator_indices(r: Seq<char>)
    ensures
        forall|i: int|
            0 <= i < separator_indices(r).len() ==> 0 <= #[trigger] separator_indices(r)[i]
                < r.len() && is_separator(r[separator_indices(r)[i]]),
        forall|i: int, j: int|
            0 <= i < j < separator_indices(r).len() ==> separator_indices(r)[i]
                < separator_indices(r)[j],
    decreases r.len(),
{
    if r.len() > 0 {
        let s = r.drop_last();
        let q = separator_indices(s);
        lemma_separator_indices(s);
        let p = separator_indices(r);
        assert forall|i: int| 0 <= i < p.len() implies 0 <= #[trigger] p[i] < r.len()
            && is_separator(r[p[i]]) by {
            if i < q.len() {
                assert(p[i] == q[i]);
                assert(s[q[i]] == r[q[i]]);
            }
        }
        assert forall|i: int, j: int| 0 <= i < j < p.len() implies p[i] < p[j] by {
            if j < q.len() {
                assert(p[i] == q[i] && p[j] == q[j]);
            } else {
                assert(p[i] == q[i]);
                assert(q[i] < s.len());
            }
        }
    }
}

/// Decides the grouping of a run of digits held as characters.
pub fn grouping_outcome_of(d: &Vec<char>) -> (r: GroupingOutcome)
    ensures
        r == grouping_outcome(d@),
{
    let n = d.len();
    let ghost rev = d@.reverse();
    let mut pos: Vec<usize> = Vec::new();
    let mut k: usize = 0;
    while k < n
        invariant
            n == d@.len(),
            rev == d@.reverse(),
            k <= n,
            pos@.len() == separator_indices(rev.take(k as int)).len(),
            forall|i: int|
                0 <= i < pos@.len() ==> pos@[i] as int == separator_indices(
                    rev.take(k as int),
                )[i],
        decreases n - k,
    {
        assert(rev.take(k + 1).drop_last() =~= rev.take(k as int));
        if d[n - 1 - k] == '_' {
            pos.push(k);
        }
        k = k + 1;
    }
    assert(rev.take(n as int) =~= rev);
    let ghost p = separator_positions(d@);
    proof {
        lemma_separator_indices(rev);
    }
    if pos.len() == 0 {
        if n > 4 {
            GroupingOutcome::Unreadable
        } else {
            GroupingOutcome::Acceptable(0)
        }
    } else {
        let g = pos[0];
        let mut even = true;
        let mut i: usize = 1;
        while i < pos.len()
            invariant
                1 <= i <= pos@.len(),
                pos@.len() == p.len(),
                forall|j: int| 0 <= j < pos@.len() ==> pos@[j] as int == p[j],
                forall|a: int, b: int| 0 <= a < b < p.len() ==> p[a] < p[b],
                forall|j: int| 0 <= j < p.len() ==> 0 <= #[trigger] p[j] < n,
                g as int == p[0],
                even == (forall|j: int| 0 <= j < i - 1 ==> #[trigger] p[j + 1] - p[j] == g + 1),
            decreases pos@.len() - i,
        {
            assert(p[i - 1] < p[i as int]);
            let step = pos[i] - pos[i - 1];
            proof {
                let k = i - 1;
                assert(p[k + 1] - p[k] == step);
            }
            if step != g + 1 {
                even = false;
            }
            i = i + 1;
        }
        let last = pos[pos.len() - 1];
        if !even || n - last > g + 1 {
            GroupingOutcome::Inconsistent
        } else if g > 4 {
            GroupingOutcome::GroupsTooLarge
        } else {
            GroupingOutcome::Acceptable(g)
        }
    }
}

/// Decides whether the separators in `digits` (which holds no decimal point)
/// are absent but acceptable, absent and needed, uneven, or too far apart; on
/// success yields the group size in use.
pub fn check_grouping(digits: &str) -> (r: GroupingOutcome)
    ensures
        r == grouping_outcome(digits@),
{
    let d = chars_of(digits);
    grouping_outcome_of(&d)
}

} // verus!
