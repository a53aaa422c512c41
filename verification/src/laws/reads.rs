//! Laws of masks and of reading stored columns.

use vstd::prelude::*;

use crate::layout::flat::expanded;
use crate::layout::flat::is_narrow;
use crate::layout::flat::is_narrowing;
use crate::layout::flat::is_true_span;
use crate::layout::flat::FlatPlan;
use crate::layout::flat::SplitRange;
use crate::mask::count;
use crate::mask::in_slice;
use crate::mask::intersection;
use crate::mask::intersection_by_rank;
use crate::mask::lemma_selected_len;
use crate::mask::lemma_selected_rank;
use crate::mask::selected;

verus! {

/// The selected rows of a mask as a set.
pub open spec fn true_rows(mask: Seq<bool>) -> Set<int> {
    Set::new(|i: int| 0 <= i < mask.len() && mask[i])
}

/// As many rows are counted as are selected.
pub proof fn law_count(mask: Seq<bool>)
    ensures
        true_rows(mask).finite(),
        count(mask) == true_rows(mask).len(),
    decreases mask.len(),
{
    if mask.len() == 0 {
        assert(true_rows(mask) =~= Set::empty());
    } else {
        let before = mask.drop_last();
        let last = mask.len() - 1;
        law_count(before);
        if mask.last() {
            assert(true_rows(mask) =~= true_rows(before).insert(last));
            assert(!true_rows(before).contains(last));
        } else {
            assert(true_rows(mask) =~= true_rows(before));
        }
    }
}

/// What is selected: row `i` stands where as many selected rows come before it as
/// there are; there are no others; and so they keep their order.
pub proof fn law_selected<T>(rows: Seq<T>, mask: Seq<bool>, i: int)
    requires
        rows.len() == mask.len(),
        0 <= i < mask.len(),
    ensures
        selected(rows, mask).len() == true_rows(mask).len(),
        mask[i] ==> true_rows(mask.take(i)).len() < selected(rows, mask).len() && selected(
            rows,
            mask,
        )[true_rows(mask.take(i)).len() as int] == rows[i],
{
    law_count(mask);
    law_count(mask.take(i));
    lemma_selected_len(rows, mask);
    if mask[i] {
        lemma_selected_rank(rows, mask, i);
    }
}

/// A row is in both masks if each selects it; and by rank, if the first selects
/// it and the second selects its place among those that the first selects.
pub proof fn law_intersections(a: Seq<bool>, b: Seq<bool>, i: int)
    requires
        0 <= i < a.len(),
    ensures
        intersection(a, b).len() == a.len(),
        intersection(a, b)[i] <==> a[i] && b[i],
        intersection_by_rank(a, b).len() == a.len(),
        intersection_by_rank(a, b)[i] <==> a[i] && b[true_rows(a.take(i)).len() as int],
{
    law_count(a.take(i));
}

/// A mask that is extended selects what it selected, `offset` rows further on, and
/// nothing else.
pub proof fn law_extended_masks(sub: Seq<bool>, offset: int, full_len: nat, i: int)
    requires
        0 <= offset,
        offset + sub.len() <= full_len,
        0 <= i < full_len,
    ensures
        expanded(sub, offset, full_len).len() == full_len,
        i < offset || i >= offset + sub.len() ==> !expanded(sub, offset, full_len)[i],
        offset <= i < offset + sub.len() ==> expanded(sub, offset, full_len)[i] == sub[i - offset],
{
}

/// A range is the least one that holds all selected rows if its first and its last
/// row are selected and no row outside of it is; and it is narrow if twice its
/// rows are no more than all rows.
pub proof fn law_spans(mask: Seq<bool>, lo: int, hi: int, len: int)
    ensures
        is_true_span(mask, lo, hi) <==> {
            &&& 0 <= lo < hi <= mask.len()
            &&& mask[lo] && mask[hi - 1]
            &&& forall|i: int| 0 <= i < mask.len() && !(lo <= i < hi) ==> !(#[trigger] mask[i])
        },
        is_narrow(lo, hi, len) <==> 2 * (hi - lo) <= len,
{
}

/// What is decoded for a read: if the selected rows reach from `lo` up to `hi` and
/// that is at most half of all rows, the rows from `lo` up to `hi`; otherwise all
/// rows. The mask is cut down to the same rows.
pub proof fn law_what_is_decoded(plan: FlatPlan, start: int, mask: Seq<bool>, lo: int, hi: int)
    requires
        plan.is_for(start, mask),
        0 <= lo < hi <= mask.len(),
        mask[lo],
        mask[hi - 1],
        forall|i: int| 0 <= i < mask.len() && #[trigger] mask[i] ==> lo <= i < hi,
    ensures
        plan.full_len == mask.len(),
        2 * (hi - lo) <= mask.len() ==> plan.start == start + lo && plan.end == start + hi
            && plan.offset == lo && plan.mask@ == mask.subrange(lo, hi),
        2 * (hi - lo) > mask.len() ==> plan.start == start && plan.end == start + mask.len()
            && plan.offset == 0 && plan.mask@ == mask,
{
    let from = plan.offset as int;
    let to = (plan.offset + plan.mask@.len()) as int;
    assert(is_true_span(mask, lo, hi));
    if is_true_span(mask, from, to) {
        assert(mask[from]);
        assert(mask[to - 1]);
        assert(mask[lo]);
        assert(mask[hi - 1]);
    }
    assert(mask.subrange(0, mask.len() as int) =~= mask);
}

/// If no row is selected, all are decoded.
pub proof fn law_nothing_selected_decodes_all(plan: FlatPlan, start: int, mask: Seq<bool>)
    requires
        plan.is_for(start, mask),
        forall|i: int| 0 <= i < mask.len() ==> !(#[trigger] mask[i]),
    ensures
        plan.start == start,
        plan.end == start + mask.len(),
        plan.offset == 0,
        plan.full_len == mask.len(),
        plan.mask@ == mask,
{
    let from = plan.offset as int;
    let to = (plan.offset + plan.mask@.len()) as int;
    if is_true_span(mask, from, to) {
        assert(mask[from]);
    }
    assert(mask.subrange(0, mask.len() as int) =~= mask);
}

/// A predicate is evaluated on the selected rows alone if they are less than a
/// fifth of the decoded ones.
pub proof fn law_when_a_plan_is_sparse(plan: FlatPlan)
    ensures
        plan.spec_is_sparse() <==> 5 * true_rows(plan.mask@).len() < plan.mask@.len(),
{
    law_count(plan.mask@);
}

/// The outcome of a predicate on the rows it is evaluated on: the decoded rows;
/// or the selected ones among them, each at its place, if the plan is sparse.
pub open spec fn is_outcome(plan: FlatPlan, hits: Seq<bool>, outcome: Seq<bool>) -> bool {
    if 5 * true_rows(plan.mask@).len() < plan.mask@.len() {
        &&& outcome.len() == true_rows(plan.mask@).len()
        &&& forall|i: int|
            0 <= i < plan.mask@.len() && #[trigger] plan.mask@[i] ==> outcome[true_rows(
                plan.mask@.take(i),
            ).len() as int] == hits[plan.offset + i]
    } else {
        &&& outcome.len() == plan.mask@.len()
        &&& forall|i: int|
            0 <= i < plan.mask@.len() ==> #[trigger] outcome[i] == hits[plan.offset + i]
    }
}

/// Filtering selects, of all rows of a read, those that are selected and satisfy
/// the predicate, whatever was decoded and on whatever rows the predicate was
/// evaluated.
pub proof fn law_filtering(
    plan: FlatPlan,
    start: int,
    mask: Seq<bool>,
    hits: Seq<bool>,
    outcome: Seq<bool>,
    i: int,
)
    requires
        plan.is_for(start, mask),
        hits.len() == mask.len(),
        is_outcome(plan, hits, outcome),
        0 <= i < mask.len(),
    ensures
        plan.filtered(outcome).len() == mask.len(),
        plan.filtered(outcome)[i] <==> mask[i] && hits[i],
{
    law_count(plan.mask@);
    let lo = plan.offset as int;
    let at = i - lo;
    if 0 <= at < plan.mask@.len() {
        law_count(plan.mask@.take(at));
        assert(plan.mask@[at] == mask[i]);
        if plan.mask@[at] && !plan.spec_is_sparse() {
            assert(outcome[at] == hits[lo + at]);
        }
    } else {
        let hi = lo + plan.mask@.len();
        if mask[i] {
            assert(lo <= i < hi);
        }
    }
}

/// Rows and mask are cut down to where the selected rows are: those of the least
/// range that holds them if it is at most half of all rows, else all.
pub proof fn law_narrowing<T>(
    rows: Seq<T>,
    mask: Seq<bool>,
    narrow_rows: Seq<T>,
    narrow_mask: Seq<bool>,
    offset: int,
    lo: int,
    hi: int,
)
    requires
        rows.len() == mask.len(),
        is_narrowing(rows, mask, narrow_rows, narrow_mask, offset),
        0 <= lo < hi <= mask.len(),
        mask[lo],
        mask[hi - 1],
        forall|i: int| 0 <= i < mask.len() && #[trigger] mask[i] ==> lo <= i < hi,
    ensures
        2 * (hi - lo) <= mask.len() ==> offset == lo && narrow_rows == rows.subrange(lo, hi)
            && narrow_mask == mask.subrange(lo, hi),
        2 * (hi - lo) > mask.len() ==> offset == 0 && narrow_rows == rows && narrow_mask == mask,
{
    let to = offset + narrow_mask.len();
    assert(is_true_span(mask, lo, hi));
    if is_true_span(mask, offset, to) {
        assert(mask[offset]);
        assert(mask[to - 1]);
    }
    assert(mask.subrange(0, mask.len() as int) =~= mask);
    assert(rows.subrange(0, rows.len() as int) =~= rows);
}

/// A range ends in the table as many rows behind the start of its column as it
/// ends in the column, wherever it starts.
pub proof fn law_where_a_range_ends(range: SplitRange)
    requires
        range.row_offset + range.end <= u64::MAX,
    ensures
        range.root_end() - range.row_offset == range.end,
{
}

/// A slice holds the rows from its first one on, one for each by which its end
/// lies behind it.
pub proof fn law_slices(first: usize, end: usize, i: int)
    requires
        first <= end,
    ensures
        in_slice((first, end), i) <==> 0 <= i - first < end - first,
{
}

} // verus!
