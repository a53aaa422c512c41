//! Masks: which rows are selected.

use vstd::prelude::*;

verus! {

/// How many rows are selected.
pub open spec fn count(mask: Seq<bool>) -> nat
    decreases mask.len(),
{
    if mask.len() == 0 {
        0
    } else {
        count(mask.drop_last()) + (if mask.last() {
            1nat
        } else {
            0
        })
    }
}

/// The selected ones of `rows`, in order.
pub open spec fn selected<T>(rows: Seq<T>, mask: Seq<bool>) -> Seq<T>
    decreases mask.len(),
{
    if mask.len() == 0 {
        Seq::empty()
    } else {
        let before = selected(rows.drop_last(), mask.drop_last());
        if mask.last() {
            before.push(rows.last())
        } else {
            before
        }
    }
}

/// The rows that both masks select.
pub open spec fn intersection(a: Seq<bool>, b: Seq<bool>) -> Seq<bool> {
    Seq::new(a.len(), |i: int| a[i] && b[i])
}

/// The rows that `a` selects and whose place among those `b` selects.
pub open spec fn intersection_by_rank(a: Seq<bool>, b: Seq<bool>) -> Seq<bool> {
    Seq::new(a.len(), |i: int| a[i] && b[count(a.take(i)) as int])
}

/// The rows from `start` up to `end`.
pub open spec fn in_slice(slice: (usize, usize), i: int) -> bool {
    slice.0 <= i < slice.1
}

/// There are no more selected rows than rows.
pub proof fn lemma_count_bound(mask: Seq<bool>)
    ensures
        count(mask) <= mask.len(),
        count(mask) == mask.len() <==> forall|i: int| 0 <= i < mask.len() ==> #[trigger] mask[i],
    decreases mask.len(),
{
    if mask.len() > 0 {
        let before = mask.drop_last();
        lemma_count_bound(before);
        if forall|i: int| 0 <= i < before.len() ==> #[trigger] before[i] {
            if mask.last() {
                assert forall|i: int| 0 <= i < mask.len() implies #[trigger] mask[i] by {
                    if i < before.len() {
                        assert(before[i]);
                    }
                }
            }
        } else {
            let i = choose|i: int| 0 <= i < before.len() && !(#[trigger] before[i]);
            assert(!mask[i]);
        }
    }
}

/// Counting one row more.
pub proof fn lemma_count_step(mask: Seq<bool>, i: int)
    requires
        0 <= i < mask.len(),
    ensures
        count(mask.take(i + 1)) == count(mask.take(i)) + (if mask[i] {
            1nat
        } else {
            0
        }),
{
    assert(mask.take(i + 1).drop_last() =~= mask.take(i));
}

/// Fewer rows are selected among fewer rows.
pub proof fn lemma_count_monotonic(mask: Seq<bool>, i: int, j: int)
    requires
        0 <= i <= j <= mask.len(),
    ensures
        count(mask.take(i)) <= count(mask.take(j)),
    decreases j - i,
{
    if i < j {
        lemma_count_step(mask, j - 1);
        lemma_count_monotonic(mask, i, j - 1);
    }
}

/// A selected row has a place among the selected rows.
pub proof fn lemma_rank(mask: Seq<bool>, i: int)
    requires
        0 <= i < mask.len(),
        mask[i],
    ensures
        count(mask.take(i)) < count(mask),
{
    lemma_count_step(mask, i);
    lemma_count_monotonic(mask, i + 1, mask.len() as int);
    assert(mask.take(mask.len() as int) =~= mask);
}

/// There are as many selected rows as are counted.
pub proof fn lemma_selected_len<T>(rows: Seq<T>, mask: Seq<bool>)
    ensures
        selected(rows, mask).len() == count(mask),
    decreases mask.len(),
{
    if mask.len() > 0 {
        lemma_selected_len(rows.drop_last(), mask.drop_last());
    }
}

/// The place of a selected row among the selected rows.
pub proof fn lemma_selected_rank<T>(rows: Seq<T>, mask: Seq<bool>, i: int)
    requires
        rows.len() == mask.len(),
        0 <= i < mask.len(),
        mask[i],
    ensures
        count(mask.take(i)) < count(mask),
        selected(rows, mask)[count(mask.take(i)) as int] == rows[i],
    decreases mask.len(),
{
    lemma_rank(mask, i);
    let before = mask.drop_last();
    lemma_selected_len(rows.drop_last(), before);
    if i == mask.len() - 1 {
        assert(mask.take(i) =~= before);
    } else {
        lemma_selected_rank(rows.drop_last(), before, i);
        assert(before.take(i) =~= mask.take(i));
    }
}

/// Selecting in two parts.
pub proof fn lemma_selected_concat<T>(a: Seq<T>, b: Seq<T>, m: Seq<bool>, n: Seq<bool>)
    requires
        a.len() == m.len(),
        b.len() == n.len(),
    ensures
        selected(a + b, m + n) == selected(a, m) + selected(b, n),
    decreases n.len(),
{
    if n.len() == 0 {
        assert(a + b =~= a);
        assert(m + n =~= m);
        assert(selected(a, m) + selected(b, n) =~= selected(a, m));
    } else {
        assert((a + b).drop_last() =~= a + b.drop_last());
        assert((m + n).drop_last() =~= m + n.drop_last());
        lemma_selected_concat(a, b.drop_last(), m, n.drop_last());
        assert(selected(a + b, m + n) =~= selected(a, m) + selected(b, n));
    }
}

/// Nothing is selected by a mask without a selected row.
pub proof fn lemma_selected_nothing<T>(rows: Seq<T>, mask: Seq<bool>)
    requires
        forall|i: int| 0 <= i < mask.len() ==> !(#[trigger] mask[i]),
    ensures
        selected(rows, mask) == Seq::<T>::empty(),
    decreases mask.len(),
{
    if mask.len() > 0 {
        assert forall|i: int| 0 <= i < mask.drop_last().len() implies !(
        #[trigger] mask.drop_last()[i]) by {
            assert(!mask[i]);
        }
        lemma_selected_nothing(rows.drop_last(), mask.drop_last());
    }
}

/// Everything is selected by a mask that selects every row.
pub proof fn lemma_selected_everything<T>(rows: Seq<T>, mask: Seq<bool>)
    requires
        rows.len() == mask.len(),
        forall|i: int| 0 <= i < mask.len() ==> #[trigger] mask[i],
    ensures
        selected(rows, mask) == rows,
    decreases mask.len(),
{
    if mask.len() > 0 {
        assert forall|i: int| 0 <= i < mask.drop_last().len() implies #[trigger] mask.drop_last()[i]
            by {
            assert(mask[i]);
        }
        lemma_selected_everything(rows.drop_last(), mask.drop_last());
    }
    assert(selected(rows, mask) =~= rows);
}

/// Which rows of an array are selected.
#[derive(Debug, PartialEq, Eq)]
pub struct Mask {
    bits: Vec<bool>,
}

impl View for Mask {
    type V = Seq<bool>;

    closed spec fn view(&self) -> Seq<bool> {
        self.bits@
    }
}

impl Clone for Mask {
    fn clone(&self) -> (copy: Self)
        ensures
            copy@ == self@,
    {
        let bits = self.bits.clone();
        assert(bits@ =~= self.bits@);
        Mask { bits }
    }
}

impl Mask {
    /// The mask that selects the rows whose bit is set.
    pub fn from_bits(bits: Vec<bool>) -> (mask: Self)
        ensures
            mask@ == bits@,
    {
        Mask { bits }
    }

    /// The mask of `len` rows, all of them selected if `value` is true.
    fn new(len: usize, value: bool) -> (mask: Self)
        ensures
            mask@ == Seq::new(len as nat, |i: int| value),
    {
        let mut bits: Vec<bool> = Vec::new();
        let mut i: usize = 0;
        while i < len
            invariant
                i <= len,
                bits@ == Seq::new(i as nat, |j: int| value),
            decreases len - i,
        {
            bits.push(value);
            i = i + 1;
        }
        Mask { bits }
    }

    /// The mask that selects every one of `len` rows.
    pub fn new_true(len: usize) -> (mask: Self)
        ensures
            mask@ == Seq::new(len as nat, |i: int| true),
    {
        let mask = Mask::new(len, true);
        assert(mask@ =~= Seq::new(len as nat, |i: int| true));
        mask
    }

    /// The mask that selects none of `len` rows.
    pub fn new_false(len: usize) -> (mask: Self)
        ensures
            mask@ == Seq::new(len as nat, |i: int| false),
    {
        let mask = Mask::new(len, false);
        assert(mask@ =~= Seq::new(len as nat, |i: int| false));
        mask
    }

    /// The mask that selects the given ones of `len` rows.
    pub fn from_indices(len: usize, indices: &[usize]) -> (mask: Self)
        requires
            forall|k: int| 0 <= k < indices@.len() ==> #[trigger] indices@[k] < len,
        ensures
            mask@.len() == len,
            forall|i: usize| i < len ==> #[trigger] mask@[i as int] == indices@.contains(i),
    {
        let mut mask = Mask::new_false(len);
        let mut k: usize = 0;
        assert(indices@.take(0) =~= Seq::empty());
        while k < indices.len()
            invariant
                k <= indices@.len(),
                forall|j: int| 0 <= j < indices@.len() ==> #[trigger] indices@[j] < len,
                mask@.len() == len,
                forall|i: usize|
                    i < len ==> #[trigger] mask@[i as int] == indices@.take(k as int).contains(i),
            decreases indices.len() - k,
        {
            let at = indices[k];
            let ghost before = mask@;
            mask.bits.set(at, true);
            proof {
                let taken = indices@.take(k as int);
                let more = indices@.take(k as int + 1);
                assert(more =~= taken.push(at));
                assert forall|i: usize| i < len implies #[trigger] mask@[i as int]
                    == more.contains(i) by {
                    assert(before[i as int] == taken.contains(i));
                    if taken.contains(i) {
                        let j = taken.index_of(i);
                        assert(more[j] == i);
                    }
                    if i == at {
                        assert(more[k as int] == i);
                    }
                    if more.contains(i) && i != at {
                        let j = more.index_of(i);
                        assert(taken[j] == i);
                    }
                }
            }
            k = k + 1;
        }
        assert(indices@.take(k as int) =~= indices@);
        mask
    }

    /// The mask that selects those of `len` rows that lie in one of the slices.
    pub fn from_slices(len: usize, slices: &[(usize, usize)]) -> (mask: Self)
        requires
            forall|k: int|
                0 <= k < slices@.len() ==> (#[trigger] slices@[k]).0 <= slices@[k].1 <= len,
        ensures
            mask@.len() == len,
            forall|i: int|
                0 <= i < len ==> #[trigger] mask@[i] == (exists|k: int|
                    0 <= k < slices@.len() && in_slice(#[trigger] slices@[k], i)),
    {
        let mut mask = Mask::new_false(len);
        let mut k: usize = 0;
        while k < slices.len()
            invariant
                k <= slices@.len(),
                forall|j: int|
                    0 <= j < slices@.len() ==> (#[trigger] slices@[j]).0 <= slices@[j].1 <= len,
                mask@.len() == len,
                forall|i: int|
                    0 <= i < len ==> #[trigger] mask@[i] == (exists|j: int|
                        0 <= j < k && in_slice(#[trigger] slices@[j], i)),
            decreases slices.len() - k,
        {
            let (start, end) = slices[k];
            let ghost before = mask@;
            let mut at: usize = start;
            while at < end
                invariant
                    start <= at <= end,
                    end <= len,
                    before.len() == len,
                    mask@.len() == len,
                    forall|i: int|
                        0 <= i < len ==> #[trigger] mask@[i] == (before[i] || start <= i < at),
                decreases end - at,
            {
                mask.bits.set(at, true);
                at = at + 1;
            }
            proof {
                assert forall|i: int| 0 <= i < len implies #[trigger] mask@[i] == (exists|j: int|
                    0 <= j < k + 1 && in_slice(#[trigger] slices@[j], i)) by {
                    assert(before[i] == (exists|j: int|
                        0 <= j < k && in_slice(#[trigger] slices@[j], i)));
                    assert(in_slice(slices@[k as int], i) == (start <= i < end));
                }
            }
            k = k + 1;
        }
        mask
    }

    /// The number of rows.
    pub fn len(&self) -> (len: usize)
        ensures
            len == self@.len(),
    {
        self.bits.len()
    }

    /// Whether row `i` is selected.
    pub fn value(&self, i: usize) -> (b: bool)
        requires
            i < self@.len(),
        ensures
            b == self@[i as int],
    {
        self.bits[i]
    }

    /// How many rows are selected.
    pub fn true_count(&self) -> (n: usize)
        ensures
            n == count(self@),
    {
        let mut n: usize = 0;
        let mut i: usize = 0;
        while i < self.bits.len()
            invariant
                i <= self.bits@.len(),
                n <= i,
                n == count(self.bits@.take(i as int)),
            decreases self.bits.len() - i,
        {
            proof {
                lemma_count_step(self.bits@, i as int);
            }
            if self.bits[i] {
                n = n + 1;
            }
            i = i + 1;
        }
        assert(self.bits@.take(i as int) =~= self.bits@);
        n
    }

    /// Whether every row is selected.
    pub fn all_true(&self) -> (b: bool)
        ensures
            b == (forall|i: int| 0 <= i < self@.len() ==> #[trigger] self@[i]),
    {
        let n = self.true_count();
        proof {
            lemma_count_bound(self@);
        }
        n == self.bits.len()
    }

    /// The first selected row.
    pub fn first(&self) -> (first: Option<usize>)
        ensures
            match first {
                Some(i) => i < self@.len() && self@[i as int] && forall|j: int|
                    0 <= j < i ==> !(#[trigger] self@[j]),
                None => forall|j: int| 0 <= j < self@.len() ==> !(#[trigger] self@[j]),
            },
    {
        let mut i: usize = 0;
        while i < self.bits.len()
            invariant
                i <= self.bits@.len(),
                forall|j: int| 0 <= j < i ==> !(#[trigger] self.bits@[j]),
            decreases self.bits.len() - i,
        {
            if self.bits[i] {
                return Some(i);
            }
            i = i + 1;
        }
        None
    }

    /// The last selected row.
    pub fn last(&self) -> (last: Option<usize>)
        ensures
            match last {
                Some(i) => i < self@.len() && self@[i as int] && forall|j: int|
                    i < j < self@.len() ==> !(#[trigger] self@[j]),
                None => forall|j: int| 0 <= j < self@.len() ==> !(#[trigger] self@[j]),
            },
    {
        let mut i: usize = self.bits.len();
        while i > 0
            invariant
                i <= self.bits@.len(),
                forall|j: int| i <= j < self.bits@.len() ==> !(#[trigger] self.bits@[j]),
            decreases i,
        {
            i = i - 1;
            if self.bits[i] {
                return Some(i);
            }
        }
        None
    }

    /// The selected rows, in order.
    pub fn indices(&self) -> (indices: Vec<usize>)
        ensures
            indices@.len() == count(self@),
            forall|k: int|
                0 <= k < indices@.len() ==> #[trigger] indices@[k] < self@.len()
                    && self@[indices@[k] as int],
            forall|j: int, k: int| 0 <= j < k < indices@.len() ==> indices@[j] < indices@[k],
            forall|i: usize|
                i < self@.len() ==> #[trigger] self@[i as int] == indices@.contains(i),
    {
        let mut indices: Vec<usize> = Vec::new();
        let mut i: usize = 0;
        while i < self.bits.len()
            invariant
                i <= self.bits@.len(),
                indices@.len() == count(self.bits@.take(i as int)),
                forall|k: int|
                    0 <= k < indices@.len() ==> #[trigger] indices@[k] < i
                        && self.bits@[indices@[k] as int],
                forall|j: int, k: int| 0 <= j < k < indices@.len() ==> indices@[j] < indices@[k],
                forall|j: usize|
                    j < i ==> #[trigger] self.bits@[j as int] == indices@.contains(j),
            decreases self.bits.len() - i,
        {
            let ghost before = indices@;
            proof {
                lemma_count_step(self.bits@, i as int);
            }
            if self.bits[i] {
                indices.push(i);
            }
            proof {
                assert forall|j: usize| j < i + 1 implies #[trigger] self.bits@[j as int]
                    == indices@.contains(j) by {
                    if j < i {
                        assert(self.bits@[j as int] == before.contains(j));
                        if before.contains(j) {
                            assert(indices@[before.index_of(j)] == j);
                        }
                        if indices@.contains(j) {
                            assert(before[indices@.index_of(j)] == j);
                        }
                    } else {
                        if self.bits@[j as int] {
                            assert(indices@[before.len() as int] == j);
                        }
                    }
                }
            }
            i = i + 1;
        }
        assert(self.bits@.take(i as int) =~= self.bits@);
        indices
    }

    /// Whether less than a fifth of the rows is selected.
    pub fn is_sparse(&self) -> (b: bool)
        ensures
            b == (5 * count(self@) < self@.len()),
    {
        5 * (self.true_count() as u128) < self.bits.len() as u128
    }

    /// The rows from `start` up to `end`.
    pub fn slice(&self, start: usize, end: usize) -> (mask: Self)
        requires
            start <= end <= self@.len(),
        ensures
            mask@ == self@.subrange(start as int, end as int),
    {
        let mut bits: Vec<bool> = Vec::new();
        let mut i: usize = start;
        while i < end
            invariant
                start <= i <= end,
                end <= self.bits@.len(),
                bits@ == self.bits@.subrange(start as int, i as int),
            decreases end - i,
        {
            bits.push(self.bits[i]);
            i = i + 1;
            assert(bits@ =~= self.bits@.subrange(start as int, i as int));
        }
        Mask { bits }
    }

    /// The rows that both masks select.
    pub fn bitand(&self, other: &Mask) -> (mask: Self)
        requires
            self@.len() == other@.len(),
        ensures
            mask@ == intersection(self@, other@),
    {
        let mut bits: Vec<bool> = Vec::new();
        let mut i: usize = 0;
        while i < self.bits.len()
            invariant
                i <= self.bits@.len(),
                self.bits@.len() == other.bits@.len(),
                bits@.len() == i,
                forall|j: int|
                    0 <= j < i ==> #[trigger] bits@[j] == (self.bits@[j] && other.bits@[j]),
            decreases self.bits.len() - i,
        {
            bits.push(self.bits[i] && other.bits[i]);
            i = i + 1;
        }
        let mask = Mask { bits };
        assert(mask@ =~= intersection(self@, other@));
        mask
    }

    /// The rows that this mask selects and whose place among those `other`
    /// selects.
    pub fn intersect_by_rank(&self, other: &Mask) -> (mask: Self)
        requires
            other@.len() == count(self@),
        ensures
            mask@ == intersection_by_rank(self@, other@),
    {
        let mut bits: Vec<bool> = Vec::new();
        let mut rank: usize = 0;
        let mut i: usize = 0;
        while i < self.bits.len()
            invariant
                i <= self.bits@.len(),
                other.bits@.len() == count(self.bits@),
                rank <= i,
                rank == count(self.bits@.take(i as int)),
                bits@.len() == i,
                forall|j: int|
                    0 <= j < i ==> #[trigger] bits@[j] == (self.bits@[j] && other.bits@[count(
                        self.bits@.take(j),
                    ) as int]),
            decreases self.bits.len() - i,
        {
            proof {
                lemma_count_step(self.bits@, i as int);
                if self.bits@[i as int] {
                    lemma_rank(self.bits@, i as int);
                }
            }
            if self.bits[i] {
                bits.push(other.bits[rank]);
                rank = rank + 1;
            } else {
                bits.push(false);
            }
            i = i + 1;
        }
        let mask = Mask { bits };
        assert(mask@ =~= intersection_by_rank(self@, other@));
        mask
    }

    /// The selected ones of `rows`, in order.
    pub fn filter<T: Copy>(&self, rows: &[T]) -> (kept: Vec<T>)
        requires
            rows@.len() == self@.len(),
        ensures
            kept@ == selected(rows@, self@),
    {
        let mut kept: Vec<T> = Vec::new();
        let mut i: usize = 0;
        while i < self.bits.len()
            invariant
                i <= self.bits@.len(),
                rows@.len() == self.bits@.len(),
                kept@ == selected(rows@.take(i as int), self.bits@.take(i as int)),
            decreases self.bits.len() - i,
        {
            proof {
                assert(self.bits@.take(i as int + 1).drop_last() =~= self.bits@.take(i as int));
                assert(rows@.take(i as int + 1).drop_last() =~= rows@.take(i as int));
            }
            if self.bits[i] {
                kept.push(rows[i]);
            }
            i = i + 1;
        }
        assert(self.bits@.take(i as int) =~= self.bits@);
        assert(rows@.take(i as int) =~= rows@);
        kept
    }
}

} // verus!
