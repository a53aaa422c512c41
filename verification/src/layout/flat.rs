//! Columns that are stored as a single array.
//!
//! A read has a range of rows and a mask over that range. Where the selected
//! rows lie close together, only the part of the array that holds them is
//! decoded.

use std::collections::BTreeSet;

use vstd::laws_cmp::group_laws_cmp;
use vstd::prelude::*;
use vstd::slice::slice_subrange;
use vstd::std_specs::btree::group_btree_axioms;

use crate::error::Error;
use crate::mask::count;
use crate::mask::in_slice;
use crate::mask::intersection;
use crate::mask::intersection_by_rank;
use crate::mask::lemma_selected_concat;
use crate::mask::lemma_selected_everything;
use crate::mask::lemma_selected_len;
use crate::mask::lemma_selected_nothing;
use crate::mask::lemma_selected_rank;
use crate::mask::selected;
use crate::mask::Mask;

verus! {

/// Whether no row outside of `lo..hi` is selected.
pub open spec fn lies_within(mask: Seq<bool>, lo: int, hi: int) -> bool {
    forall|i: int| 0 <= i < mask.len() && #[trigger] mask[i] ==> lo <= i < hi
}

/// Whether `lo..hi` is the least range that holds all selected rows.
pub open spec fn is_true_span(mask: Seq<bool>, lo: int, hi: int) -> bool {
    &&& 0 <= lo < hi <= mask.len()
    &&& mask[lo]
    &&& mask[hi - 1]
    &&& lies_within(mask, lo, hi)
}

/// Whether a range is narrow enough to be decoded by itself: at most half of
/// all rows.
pub open spec fn is_narrow(lo: int, hi: int, len: int) -> bool {
    2 * (hi - lo) <= len
}

/// A mask of `full_len` rows that selects what `sub` selects, `offset` rows
/// further on.
pub open spec fn expanded(sub: Seq<bool>, offset: int, full_len: nat) -> Seq<bool> {
    Seq::new(full_len, |i: int| offset <= i < offset + sub.len() && sub[i - offset])
}

/// The rows and the mask are cut down to the same range, which holds all
/// selected rows: the least one if that is narrow, else the whole.
pub open spec fn is_narrowing<T>(
    rows: Seq<T>,
    mask: Seq<bool>,
    narrow_rows: Seq<T>,
    narrow_mask: Seq<bool>,
    offset: int,
) -> bool {
    let end = offset + narrow_mask.len();
    &&& 0 <= offset <= end <= mask.len()
    &&& narrow_rows == rows.subrange(offset, end)
    &&& narrow_mask == mask.subrange(offset, end)
    &&& is_narrow_range(mask, offset, end)
}

/// Whether `lo..hi` is the range to decode: the least one that holds all
/// selected rows if that is narrow, else all rows.
pub open spec fn is_narrow_range(mask: Seq<bool>, lo: int, hi: int) -> bool {
    ||| is_true_span(mask, lo, hi) && is_narrow(lo, hi, mask.len() as int)
    ||| lo == 0 && hi == mask.len() && forall|l: int, h: int| #[trigger]
        is_true_span(mask, l, h) ==> !is_narrow(l, h, mask.len() as int)
}

/// The least range that holds all selected rows, if it is narrow.
pub fn narrow_true_span(mask: &Mask) -> (span: Option<(usize, usize)>)
    ensures
        match span {
            Some((lo, hi)) => is_true_span(mask@, lo as int, hi as int) && is_narrow(
                lo as int,
                hi as int,
                mask@.len() as int,
            ),
            None => forall|l: int, h: int| #[trigger]
                is_true_span(mask@, l, h) ==> !is_narrow(l, h, mask@.len() as int),
        },
{
    let len = mask.len();
    // A mask that selects every row already covers the whole range.
    if mask.all_true() {
        proof {
            assert forall|l: int, h: int| #[trigger] is_true_span(mask@, l, h) implies !is_narrow(
                l,
                h,
                mask@.len() as int,
            ) by {
                assert(mask@[0]);
                assert(mask@[mask@.len() - 1]);
            }
        }
        return None;
    }
    match (mask.first(), mask.last()) {
        (Some(first), Some(last)) => {
            assert(mask@[first as int]);
            assert(mask@[last as int]);
            let span: usize = last - first + 1;
            let ghost lo = first as int;
            let ghost hi = last + 1;
            assert(is_true_span(mask@, lo, hi));
            if span < len && span <= len / 2 {
                Some((first, last + 1))
            } else {
                proof {
                    assert forall|l: int, h: int| #[trigger]
                        is_true_span(mask@, l, h) implies l == lo && h == hi by {
                        assert(mask@[l]);
                        assert(mask@[h - 1]);
                    }
                }
                None
            }
        },
        _ => {
            proof {
                assert forall|l: int, h: int| #[trigger] is_true_span(mask@, l, h) implies false by {
                    assert(mask@[l]);
                }
            }
            None
        },
    }
}

/// If the selected rows occupy a range that is materially narrower than the
/// array, returns the array and the mask cut down to that range and where it
/// starts; otherwise returns them unchanged, with offset zero.
///
/// The selected rows are the same ones either way.
pub fn narrow_to_true_span<'a, T>(array: &'a [T], mask: Mask) -> (r: (&'a [T], Mask, usize))
    requires
        array@.len() == mask@.len(),
    ensures
        is_narrowing(array@, mask@, r.0@, r.1@, r.2 as int),
        selected(r.0@, r.1@) == selected(array@, mask@),
{
    match narrow_true_span(&mask) {
        Some((lo, hi)) => {
            proof {
                law_narrowing_keeps_the_selected_rows(array@, mask@, lo as int, hi as int);
            }
            let rows = slice_subrange(array, lo, hi);
            let narrow = mask.slice(lo, hi);
            (rows, narrow, lo)
        },
        None => {
            assert(array@.subrange(0, array@.len() as int) =~= array@);
            assert(mask@.subrange(0, mask@.len() as int) =~= mask@);
            (array, mask, 0)
        },
    }
}

/// Extends a mask over a part of the rows, which starts at `offset`, to all
/// `full_len` rows: those outside of the part are not selected.
pub fn expand_mask(sub: Mask, offset: usize, full_len: usize) -> (mask: Mask)
    requires
        offset + sub@.len() <= full_len,
    ensures
        mask@ == expanded(sub@, offset as int, full_len as nat),
{
    if offset == 0 && sub.len() == full_len {
        assert(sub@ =~= expanded(sub@, 0, full_len as nat));
        return sub;
    }
    if sub.all_true() {
        let slices = [(offset, offset + sub.len())];
        let mask = Mask::from_slices(full_len, &slices);
        assert forall|i: int| 0 <= i < full_len implies mask@[i] == expanded(
            sub@,
            offset as int,
            full_len as nat,
        )[i] by {
            assert(in_slice(slices@[0], i) == (offset <= i < offset + sub@.len()));
            if offset <= i < offset + sub@.len() {
                assert(sub@[i - offset]);
            }
        }
        assert(mask@ =~= expanded(sub@, offset as int, full_len as nat));
        return mask;
    }
    let indices = sub.indices();
    let mut moved: Vec<usize> = Vec::new();
    let mut k: usize = 0;
    while k < indices.len()
        invariant
            k <= indices@.len(),
            offset + sub@.len() <= full_len,
            forall|j: int| 0 <= j < indices@.len() ==> #[trigger] indices@[j] < sub@.len(),
            moved@.len() == k,
            forall|j: int| 0 <= j < k ==> #[trigger] moved@[j] == indices@[j] + offset,
        decreases indices.len() - k,
    {
        assert(indices@[k as int] < sub@.len());
        moved.push(indices[k] + offset);
        k = k + 1;
    }
    proof {
        assert forall|j: int| 0 <= j < moved@.len() implies #[trigger] moved@[j] < full_len by {
            assert(indices@[j] < sub@.len());
        }
    }
    let mask = Mask::from_indices(full_len, moved.as_slice());
    proof {
        let whole = expanded(sub@, offset as int, full_len as nat);
        assert forall|i: int| 0 <= i < full_len implies mask@[i] == whole[i] by {
            let at = i as usize;
            assert(mask@[at as int] == moved@.contains(at));
            if whole[i] {
                let from = (i - offset) as usize;
                assert(sub@[from as int]);
                let j = indices@.index_of(from);
                assert(moved@[j] == at);
            }
            if moved@.contains(at) {
                let j = moved@.index_of(at);
                assert(sub@[indices@[j] as int]);
            }
        }
        assert(mask@ =~= whole);
    }
    mask
}

/// What is decoded for a read.
#[derive(Debug)]
pub struct FlatPlan {
    /// The first row of the array that is decoded.
    pub start: usize,
    /// The row behind the last one that is decoded.
    pub end: usize,
    /// Which of the decoded rows are selected.
    pub mask: Mask,
    /// Where the decoded rows start in the range that is read.
    pub offset: usize,
    /// The number of rows in the range that is read.
    pub full_len: usize,
}

impl FlatPlan {
    /// Whether this is the plan for a read of the rows from `start` on with the
    /// given mask.
    pub open spec fn is_for(self, start: int, mask: Seq<bool>) -> bool {
        &&& self.full_len == mask.len()
        &&& self.start == start + self.offset
        &&& self.end - self.start == self.mask@.len()
        &&& self.offset + self.mask@.len() <= self.full_len
        &&& self.mask@ == mask.subrange(
            self.offset as int,
            (self.offset + self.mask@.len()) as int,
        )
        &&& is_narrow_range(mask, self.offset as int, (self.offset + self.mask@.len()) as int)
    }

    /// Plans a read of the rows `start..end` with a mask over them.
    pub fn new(start: usize, end: usize, mask: Mask) -> (plan: Self)
        requires
            start <= end,
            mask@.len() == end - start,
        ensures
            plan.is_for(start as int, mask@),
    {
        match narrow_true_span(&mask) {
            Some((lo, hi)) => FlatPlan {
                start: start + lo,
                end: start + hi,
                mask: mask.slice(lo, hi),
                offset: lo,
                full_len: end - start,
            },
            None => {
                assert(mask@.subrange(0, mask@.len() as int) =~= mask@);
                FlatPlan { start, end, mask, offset: 0, full_len: end - start }
            },
        }
    }

    /// Whether so few of the decoded rows are selected that a predicate is
    /// evaluated on those alone.
    pub open spec fn spec_is_sparse(&self) -> bool {
        5 * count(self.mask@) < self.mask@.len()
    }

    /// Whether so few of the decoded rows are selected that a predicate is
    /// evaluated on those alone.
    #[verifier::when_used_as_spec(spec_is_sparse)]
    pub fn is_sparse(&self) -> (b: bool)
        ensures
            b == self.spec_is_sparse(),
    {
        self.mask.is_sparse()
    }

    /// The rows that are selected and satisfy a predicate, over the range that
    /// is read, from the outcome of the predicate on the rows it was evaluated
    /// on.
    pub open spec fn filtered(self, outcome: Seq<bool>) -> Seq<bool> {
        expanded(
            if self.spec_is_sparse() {
                intersection_by_rank(self.mask@, outcome)
            } else {
                intersection(self.mask@, outcome)
            },
            self.offset as int,
            self.full_len as nat,
        )
    }

    /// Combines the mask with the outcome of a predicate: on the selected rows
    /// if the plan is sparse, else on all decoded rows.
    pub fn finish_filter(&self, outcome: &Mask) -> (mask: Mask)
        requires
            self.offset + self.mask@.len() <= self.full_len,
            outcome@.len() == (if self.spec_is_sparse() {
                count(self.mask@)
            } else {
                self.mask@.len()
            }),
        ensures
            mask@ == self.filtered(outcome@),
    {
        let sub = if self.is_sparse() {
            self.mask.intersect_by_rank(outcome)
        } else {
            self.mask.bitand(outcome)
        };
        expand_mask(sub, self.offset, self.full_len)
    }
}

/// Which of the selected rows of `array[start..end]` satisfy a predicate, as a
/// mask over all rows of that range.
pub fn filter_evaluation<T: Copy, F: Fn(T) -> bool>(
    array: &[T],
    start: usize,
    end: usize,
    predicate: F,
    mask: Mask,
) -> (result: Mask)
    requires
        start <= end <= array@.len(),
        mask@.len() == end - start,
        forall|i: int|
            start <= i < end ==> call_requires(predicate, (#[trigger] array@[i],)),
    ensures
        result@.len() == mask@.len(),
        forall|i: int|
            0 <= i < mask@.len() && #[trigger] result@[i] ==> mask@[i] && call_ensures(
                predicate,
                (array@[start + i],),
                true,
            ),
        forall|i: int|
            0 <= i < mask@.len() && mask@[i] && !(#[trigger] result@[i]) ==> call_ensures(
                predicate,
                (array@[start + i],),
                false,
            ),
{
    let ghost whole = mask@;
    let plan = FlatPlan::new(start, end, mask);
    let rows = slice_subrange(array, plan.start, plan.end);
    let evaluated: Vec<T> = if plan.is_sparse() {
        plan.mask.filter(rows)
    } else {
        let every = Mask::new_true(rows.len());
        proof {
            lemma_selected_everything(rows@, every@);
        }
        every.filter(rows)
    };
    let mut outcome: Vec<bool> = Vec::new();
    let mut i: usize = 0;
    proof {
        lemma_selected_len(rows@, plan.mask@);
        assert forall|k: int| 0 <= k < evaluated@.len() implies call_requires(
            predicate,
            (#[trigger] evaluated@[k],),
        ) by {
            if plan.spec_is_sparse() {
                let at = lemma_selected_source(rows@, plan.mask@, k);
                assert(evaluated@[k] == array@[plan.start + at]);
            } else {
                assert(evaluated@[k] == array@[plan.start + k]);
            }
        }
    }
    while i < evaluated.len()
        invariant
            i <= evaluated@.len(),
            outcome@.len() == i,
            forall|k: int|
                0 <= k < evaluated@.len() ==> call_requires(predicate, (#[trigger] evaluated@[k],)),
            forall|k: int|
                0 <= k < i ==> call_ensures(predicate, (evaluated@[k],), #[trigger] outcome@[k]),
        decreases evaluated.len() - i,
    {
        let b = predicate(evaluated[i]);
        outcome.push(b);
        i = i + 1;
    }
    let outcome = Mask::from_bits(outcome);
    let result = plan.finish_filter(&outcome);
    proof {
        assert forall|i: int| 0 <= i < whole.len() implies if whole[i] {
            call_ensures(predicate, (array@[start + i],), #[trigger] result@[i])
        } else {
            !result@[i]
        } by {
            let at = i - plan.offset;
            if whole[i] {
                assert(0 <= at < plan.mask@.len());
                assert(plan.mask@[at]);
                assert(rows@[at] == array@[start + i]);
                lemma_selected_rank(rows@, plan.mask@, at);
                let k = if plan.spec_is_sparse() {
                    count(plan.mask@.take(at)) as int
                } else {
                    at
                };
                assert(evaluated@[k] == rows@[at]);
                assert(result@[i] == outcome@[k]);
            } else if 0 <= at < plan.mask@.len() {
                assert(!plan.mask@[at]);
            }
        }
        assert forall|i: int| 0 <= i < whole.len() && #[trigger] result@[i] implies whole[i]
            && call_ensures(predicate, (array@[start + i],), true) by {
            assert(result@[i] == true);
        }
        assert forall|i: int|
            0 <= i < whole.len() && whole[i] && !(#[trigger] result@[i]) implies call_ensures(
            predicate,
            (array@[start + i],),
            false,
        ) by {
            assert(result@[i] == false);
        }
    }
    result
}

/// The selected rows of `array[start..end]`, with an expression applied to
/// each.
///
/// The rows are selected first, as the expression need not make sense of the
/// others.
pub fn projection_evaluation<T: Copy, U, F: Fn(T) -> U>(
    array: &[T],
    start: usize,
    end: usize,
    expr: F,
    mask: Mask,
) -> (result: Vec<U>)
    requires
        start <= end <= array@.len(),
        mask@.len() == end - start,
        forall|k: int|
            0 <= k < count(mask@) ==> call_requires(
                expr,
                (#[trigger] selected(array@.subrange(start as int, end as int), mask@)[k],),
            ),
    ensures
        result@.len() == count(mask@),
        forall|k: int|
            0 <= k < result@.len() ==> call_ensures(
                expr,
                (selected(array@.subrange(start as int, end as int), mask@)[k],),
                #[trigger] result@[k],
            ),
{
    let ghost wanted = selected(array@.subrange(start as int, end as int), mask@);
    proof {
        lemma_selected_len(array@.subrange(start as int, end as int), mask@);
    }
    let rows = slice_subrange(array, start, end);
    let (rows, mask, _) = narrow_to_true_span(rows, mask);
    let mut result: Vec<U> = Vec::new();
    let kept = mask.filter(rows);
    let mut i: usize = 0;
    while i < kept.len()
        invariant
            i <= kept@.len(),
            kept@ == wanted,
            result@.len() == i,
            forall|k: int| 0 <= k < wanted.len() ==> call_requires(expr, (#[trigger] wanted[k],)),
            forall|k: int|
                0 <= k < i ==> call_ensures(expr, (wanted[k],), #[trigger] result@[k]),
        decreases kept.len() - i,
    {
        assert(kept@[i as int] == wanted[i as int]);
        let u = expr(kept[i]);
        result.push(u);
        i = i + 1;
    }
    result
}

/// A range of rows of a column, and where the column starts in the table.
#[derive(Debug, Clone, Copy, PartialEq, Eq, Structural)]
pub struct SplitRange {
    /// The row of the table at which the column starts.
    pub row_offset: u64,
    /// The first row of the range, counted from the start of the column.
    pub start: u64,
    /// The row behind the last one of the range.
    pub end: u64,
}

impl SplitRange {
    /// The row of the table at which the range ends.
    pub open spec fn root_end(self) -> u64 {
        (self.row_offset + self.end) as u64
    }
}

/// Splits the table where the range ends. Fails if the range reaches beyond the
/// column.
pub fn register_splits(
    split_range: &SplitRange,
    row_count: u64,
    splits: &mut BTreeSet<u64>,
) -> (r: Result<(), Error>)
    requires
        split_range.end <= row_count ==> split_range.row_offset + split_range.end <= u64::MAX,
    ensures
        split_range.end <= row_count ==> r == Ok::<(), Error>(()) && final(splits)@ == old(
            splits,
        )@.insert(split_range.root_end()),
        split_range.end <= row_count ==> exists|e: u64|
            e == split_range.row_offset + split_range.end && final(splits)@ == #[trigger] old(
                splits,
            )@.insert(e),
        split_range.end > row_count ==> r == Err::<(), Error>(
            Error::SplitOutOfBounds { end: split_range.end, row_count },
        ) && final(splits)@ == old(splits)@,
{
    broadcast use {group_btree_axioms, group_laws_cmp};

    if split_range.end > row_count {
        return Err(Error::SplitOutOfBounds { end: split_range.end, row_count });
    }
    splits.insert(split_range.row_offset + split_range.end);
    Ok(())
}

/// Each selected row comes from somewhere.
proof fn lemma_selected_source<T>(rows: Seq<T>, mask: Seq<bool>, k: int) -> (at: int)
    requires
        rows.len() == mask.len(),
        0 <= k < count(mask),
    ensures
        0 <= at < rows.len(),
        selected(rows, mask)[k] == rows[at],
    decreases mask.len(),
{
    let before = mask.drop_last();
    lemma_selected_len(rows.drop_last(), before);
    if mask.last() && k == count(before) {
        rows.len() - 1
    } else {
        lemma_selected_source(rows.drop_last(), before, k)
    }
}

/// To cut rows and mask down to a range that holds all selected rows leaves the
/// selected rows as they are.
pub proof fn law_narrowing_keeps_the_selected_rows<T>(
    rows: Seq<T>,
    mask: Seq<bool>,
    lo: int,
    hi: int,
)
    requires
        rows.len() == mask.len(),
        0 <= lo <= hi <= mask.len(),
        lies_within(mask, lo, hi),
    ensures
        selected(rows.subrange(lo, hi), mask.subrange(lo, hi)) == selected(rows, mask),
{
    let n = mask.len() as int;
    let (m1, m2, m3) = (mask.subrange(0, lo), mask.subrange(lo, hi), mask.subrange(hi, n));
    let (r1, r2, r3) = (rows.subrange(0, lo), rows.subrange(lo, hi), rows.subrange(hi, n));
    assert(mask =~= m1 + m2 + m3);
    assert(rows =~= r1 + r2 + r3);
    lemma_selected_concat(r1 + r2, r3, m1 + m2, m3);
    lemma_selected_concat(r1, r2, m1, m2);
    assert forall|i: int| 0 <= i < m1.len() implies !(#[trigger] m1[i]) by {
        assert(mask[i] ==> lo <= i < hi);
    }
    assert forall|i: int| 0 <= i < m3.len() implies !(#[trigger] m3[i]) by {
        assert(mask[hi + i] ==> lo <= hi + i < hi);
    }
    lemma_selected_nothing(r1, m1);
    lemma_selected_nothing(r3, m3);
    assert(selected(rows, mask) =~= selected(r2, m2));
}

/// Expanding undoes the cutting down of a mask to a range that holds all
/// selected rows.
pub proof fn law_expanding_undoes_narrowing(mask: Seq<bool>, lo: int, hi: int)
    requires
        0 <= lo <= hi <= mask.len(),
        lies_within(mask, lo, hi),
    ensures
        expanded(mask.subrange(lo, hi), lo, mask.len()) == mask,
{
    let back = expanded(mask.subrange(lo, hi), lo, mask.len());
    assert forall|i: int| 0 <= i < mask.len() implies back[i] == mask[i] by {
        assert(mask[i] ==> lo <= i < hi);
    }
    assert(back =~= mask);
}

/// The place of a row among the selected ones finds its outcome again.
pub proof fn law_intersection_by_rank_of_selected(mask: Seq<bool>, hits: Seq<bool>)
    requires
        hits.len() == mask.len(),
    ensures
        intersection_by_rank(mask, selected(hits, mask)) == intersection(mask, hits),
{
    assert forall|i: int| 0 <= i < mask.len() implies intersection_by_rank(
        mask,
        selected(hits, mask),
    )[i] == intersection(mask, hits)[i] by {
        if mask[i] {
            lemma_selected_rank(hits, mask, i);
        }
    }
    assert(intersection_by_rank(mask, selected(hits, mask)) =~= intersection(mask, hits));
}

/// However a read is planned, filtering gives the rows that are selected and
/// satisfy the predicate: neither which rows are decoded nor on which of them
/// the predicate is evaluated makes a difference.
pub proof fn law_filter_does_not_depend_on_the_plan(
    plan: FlatPlan,
    start: int,
    mask: Seq<bool>,
    hits: Seq<bool>,
)
    requires
        plan.is_for(start, mask),
        hits.len() == mask.len(),
    ensures
        ({
            let decoded = hits.subrange(
                plan.offset as int,
                (plan.offset + plan.mask@.len()) as int,
            );
            let outcome = if plan.spec_is_sparse() {
                selected(decoded, plan.mask@)
            } else {
                decoded
            };
            plan.filtered(outcome) == intersection(mask, hits)
        }),
{
    let lo = plan.offset as int;
    let hi = (plan.offset + plan.mask@.len()) as int;
    let decoded = hits.subrange(lo, hi);
    law_intersection_by_rank_of_selected(plan.mask@, decoded);
    let both = intersection(mask, hits);
    assert(intersection(plan.mask@, decoded) =~= both.subrange(lo, hi));
    assert(lies_within(both, lo, hi)) by {
        assert forall|i: int| 0 <= i < both.len() && #[trigger] both[i] implies lo <= i < hi by {
            assert(mask[i]);
        }
    }
    law_expanding_undoes_narrowing(both, lo, hi);
}

} // verus!
