//! Grouping engine: partitions the kept-record sequence into ordered,
//! non-empty, contiguous groups for the navigator.
//!
//! Each record is compared with its immediate predecessor in the input (not
//! with the group's first member): a record stays in the open group when its
//! state equals the predecessor's state or when it carries a parent;
//! otherwise it opens a new group.
use vstd::prelude::*;

use crate::decode::ParsedLine;
use crate::decode::ParsedLineV;
use crate::decode::rec_views;
use crate::decode::seq_views;

verus! {

/// Whether the record at position `i` opens a new group: the first record
/// does; a later one does exactly when it is parentless and its state
/// differs from its immediate predecessor's.
pub open spec fn starts_new_group(recs: Seq<ParsedLineV>, i: int) -> bool {
    i == 0 || !(recs[i].state == recs[i - 1].state || recs[i].parent is Some)
}

/// The positions held by one group, as mathematical integers.
pub open spec fn idxs(v: Seq<usize>) -> Seq<int> {
    Seq::new(v.len(), |j: int| v[j] as int)
}

/// The positions held by every group.
pub open spec fn idx_views(v: Seq<Vec<usize>>) -> Seq<Seq<int>> {
    Seq::new(v.len(), |i: int| idxs(v[i]@))
}

/// What it means for `gs` to be the grouping of `recs`: the groups are
/// non-empty runs of consecutive positions, they start at 0, follow one
/// another without a gap, and together cover all of `recs` in order; a
/// group opens exactly at the positions where `starts_new_group` holds.
/// These conditions determine the grouping uniquely.
pub open spec fn is_grouping(recs: Seq<ParsedLineV>, gs: Seq<Seq<int>>) -> bool {
    &&& (recs.len() == 0 <==> gs.len() == 0)
    &&& forall|k: int| 0 <= k < gs.len() ==> (#[trigger] gs[k]).len() > 0
    &&& gs.len() > 0 ==> gs[0][0] == 0
    &&& forall|k: int, m: int|
        0 <= k < gs.len() && 0 <= m < gs[k].len() ==> (#[trigger] gs[k][m]) == gs[k][0] + m
    &&& forall|k: int| 0 < k < gs.len() ==> (#[trigger] gs[k])[0] == gs[k - 1][0] + gs[k - 1].len()
    &&& gs.len() > 0 ==> gs[gs.len() - 1][0] + gs[gs.len() - 1].len() == recs.len()
    &&& forall|k: int| 0 <= k < gs.len() ==> starts_new_group(recs, (#[trigger] gs[k])[0])
    &&& forall|k: int, m: int|
        0 <= k < gs.len() && 0 < m < gs[k].len() ==> !starts_new_group(recs, #[trigger] gs[k][m])
}

/// Invariant of the grouping loop: the closed groups followed by the open
/// group form a grouping of the first `l` records.
spec fn is_partial_grouping(
    recs: Seq<ParsedLineV>,
    gs: Seq<Seq<int>>,
    cur: Seq<int>,
    l: int,
) -> bool {
    &&& cur.len() > 0
    &&& forall|m: int| 0 <= m < cur.len() ==> (#[trigger] cur[m]) == cur[0] + m
    &&& cur[0] + cur.len() == l
    &&& if gs.len() == 0 {
        cur[0] == 0
    } else {
        gs[0][0] == 0 && gs[gs.len() - 1][0] + gs[gs.len() - 1].len() == cur[0]
    }
    &&& forall|k: int| 0 <= k < gs.len() ==> (#[trigger] gs[k]).len() > 0
    &&& forall|k: int, m: int|
        0 <= k < gs.len() && 0 <= m < gs[k].len() ==> (#[trigger] gs[k][m]) == gs[k][0] + m
    &&& forall|k: int| 0 < k < gs.len() ==> (#[trigger] gs[k])[0] == gs[k - 1][0] + gs[k - 1].len()
    &&& forall|k: int| 0 <= k < gs.len() ==> starts_new_group(recs, (#[trigger] gs[k])[0])
    &&& forall|k: int, m: int|
        0 <= k < gs.len() && 0 < m < gs[k].len() ==> !starts_new_group(recs, #[trigger] gs[k][m])
    &&& starts_new_group(recs, cur[0])
    &&& forall|m: int| 0 < m < cur.len() ==> !starts_new_group(recs, #[trigger] cur[m])
}

/// True exactly when the two vectors hold the same characters.
fn chars_eq(a: &Vec<char>, b: &Vec<char>) -> (r: bool)
    ensures
        r == (a@ == b@),
{
    if a.len() != b.len() {
        return false;
    }
    let mut i: usize = 0;
    while i < a.len()
        invariant
            i <= a@.len(),
            a@.len() == b@.len(),
            forall|m: int| 0 <= m < i ==> a@[m] == b@[m],
        decreases a@.len() - i,
    {
        if a[i] != b[i] {
            return false;
        }
        i += 1;
    }
    proof {
        assert(a@ =~= b@);
    }
    true
}

/// True exactly when the two state sequences hold the same items.
fn states_eq(a: &Vec<Vec<char>>, b: &Vec<Vec<char>>) -> (r: bool)
    ensures
        r == (seq_views(a@) == seq_views(b@)),
{
    if a.len() != b.len() {
        proof {
            assert(seq_views(a@).len() != seq_views(b@).len());
        }
        return false;
    }
    let mut i: usize = 0;
    while i < a.len()
        invariant
            i <= a@.len(),
            a@.len() == b@.len(),
            forall|m: int| 0 <= m < i ==> seq_views(a@)[m] == seq_views(b@)[m],
        decreases a@.len() - i,
    {
        if !chars_eq(&a[i], &b[i]) {
            proof {
                assert(seq_views(a@)[i as int] != seq_views(b@)[i as int]);
            }
            return false;
        }
        i += 1;
    }
    proof {
        assert(seq_views(a@) =~= seq_views(b@));
    }
    true
}

/// Partitions the records into ordered groups of positions. The groups are
/// non-empty and disjoint, and their concatenation is `0..plines.len()` in
/// order; a group opens exactly where `starts_new_group` holds, so a record
/// with a parent is always folded into the currently open group.
pub fn group_parsed_lines(plines: &Vec<ParsedLine>) -> (groups: Vec<Vec<usize>>)
    ensures
        is_grouping(rec_views(plines@), idx_views(groups@)),
        forall|k: int, m: int|
            0 <= k < groups@.len() && 0 <= m < groups@[k]@.len() ==> (
            #[trigger] groups@[k]@[m]) < plines@.len(),
{
    let ghost recs = rec_views(plines@);
    let mut groups: Vec<Vec<usize>> = Vec::new();
    if plines.len() == 0 {
        proof {
            assert(idx_views(groups@) =~= Seq::<Seq<int>>::empty());
        }
        return groups;
    }
    let mut current: Vec<usize> = Vec::new();
    current.push(0);
    let mut l: usize = 1;
    while l < plines.len()
        invariant
            1 <= l <= plines@.len(),
            recs == rec_views(plines@),
            forall|m: int| 0 <= m < current@.len() ==> current@[m] < plines@.len(),
            forall|k: int, m: int|
                0 <= k < groups@.len() && 0 <= m < groups@[k]@.len() ==> (
                #[trigger] groups@[k]@[m]) < plines@.len(),
            is_partial_grouping(recs, idx_views(groups@), idxs(current@), l as int),
        decreases plines@.len() - l,
    {
        let stay = states_eq(&plines[l].state, &plines[l - 1].state) || plines[l].parent.is_some();
        proof {
            assert(recs[l as int].state == seq_views(plines@[l as int].state@));
            assert(recs[l - 1].state == seq_views(plines@[l - 1].state@));
            assert(stay == !starts_new_group(recs, l as int));
        }
        if stay {
            let ghost old_cur = idxs(current@);
            current.push(l);
            proof {
                assert(idxs(current@) =~= old_cur.push(l as int));
            }
        } else {
            let ghost old_gs = idx_views(groups@);
            let ghost old_cur = idxs(current@);
            groups.push(current);
            proof {
                assert(idx_views(groups@) =~= old_gs.push(old_cur));
            }
            current = Vec::new();
            current.push(l);
            proof {
                assert(idxs(current@) =~= seq![l as int]);
            }
        }
        l += 1;
    }
    let ghost old_gs = idx_views(groups@);
    let ghost old_cur = idxs(current@);
    groups.push(current);
    proof {
        assert(idx_views(groups@) =~= old_gs.push(old_cur));
    }
    groups
}

} // verus!
