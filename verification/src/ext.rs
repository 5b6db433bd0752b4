use std::collections::VecDeque;
use vstd::prelude::*;
use vstd::slice::slice_subrange;

verus! {

/// Copies as many leading elements of `from` into `to` as both can hold.
/// Returns the amount of elements that were assigned.
pub fn assign_slice<T: Copy>(from: &[T], to: &mut [T]) -> (assigned: usize)
    ensures
        assigned == if from@.len() <= old(to)@.len() { from@.len() } else { old(to)@.len() },
        final(to)@ == from@.take(assigned as int) + old(to)@.skip(assigned as int),
{
    let safe_end = if from.len() <= to.len() { from.len() } else { to.len() };
    let mut i: usize = 0;
    while i < safe_end
        invariant
            safe_end <= from@.len(),
            safe_end <= to@.len(),
            i <= safe_end,
            to@.len() == old(to)@.len(),
            forall|k: int| 0 <= k < i ==> to@[k] == from@[k],
            forall|k: int| i <= k < to@.len() ==> to@[k] == old(to)@[k],
        decreases safe_end - i,
    {
        to[i] = from[i];
        i = i + 1;
    }
    assert(to@ =~= from@.take(safe_end as int) + old(to)@.skip(safe_end as int));
    safe_end
}


/// Same as `assign_slice`, but starting at `offset` in `to`.
/// If the offset is larger than the length of `to`, nothing is assigned.
pub fn assign_slice_with_offset<T: Copy>(offset: usize, from: &[T], to: &mut [T]) -> (assigned: usize)
    ensures
        ({
            let start = if offset <= old(to)@.len() { offset as int } else { old(to)@.len() as int };
            let room = old(to)@.len() - start;
            &&& assigned == if from@.len() <= room { from@.len() as int } else { room }
            &&& final(to)@ == old(to)@.take(start) + from@.take(assigned as int)
                + old(to)@.skip(start + assigned)
        }),
{
    let start = if offset <= to.len() { offset } else { to.len() };
    let room = to.len() - start;
    let safe_end = if from.len() <= room { from.len() } else { room };
    let mut i: usize = 0;
    while i < safe_end
        invariant
            start + room == to@.len(),
            to@.len() == to.len(),
            safe_end <= from@.len(),
            safe_end <= room,
            i <= safe_end,
            to@.len() == old(to)@.len(),
            forall|k: int| 0 <= k < start ==> to@[k] == old(to)@[k],
            forall|k: int| 0 <= k < i ==> to@[start + k] == from@[k],
            forall|k: int| start + i <= k < to@.len() ==> to@[k] == old(to)@[k],
        decreases safe_end - i,
    {
        to[start + i] = from[i];
        i = i + 1;
    }
    assert(to@ =~= old(to)@.take(start as int) + from@.take(safe_end as int)
        + old(to)@.skip(start + safe_end));
    safe_end
}

#[verifier::external_type_specification]
pub struct ExRangeFrom<Idx>(core::ops::RangeFrom<Idx>);

#[verifier::external_type_specification]
pub struct ExRangeTo<Idx>(core::ops::RangeTo<Idx>);

#[verifier::external_type_specification]
pub struct ExRangeFull(core::ops::RangeFull);

/// A range of indices into a collection of a given length.
pub trait IndexRange {
    /// The first index of the range and the index one past its last one,
    /// for a collection of length `len` (an unbounded end is `len`).
    spec fn spec_bounds(&self, len: nat) -> (int, int);

    fn bounds(&self, len: usize) -> (r: (usize, usize))
        ensures
            r.0 as int == self.spec_bounds(len as nat).0,
            r.1 as int == self.spec_bounds(len as nat).1,
    ;
}

impl IndexRange for core::ops::Range<usize> {
    open spec fn spec_bounds(&self, len: nat) -> (int, int) {
        (self.start as int, self.end as int)
    }

    fn bounds(&self, len: usize) -> (r: (usize, usize)) {
        (self.start, self.end)
    }
}

impl IndexRange for core::ops::RangeFrom<usize> {
    open spec fn spec_bounds(&self, len: nat) -> (int, int) {
        (self.start as int, len as int)
    }

    fn bounds(&self, len: usize) -> (r: (usize, usize)) {
        (self.start, len)
    }
}

impl IndexRange for core::ops::RangeTo<usize> {
    open spec fn spec_bounds(&self, len: nat) -> (int, int) {
        (0, self.end as int)
    }

    fn bounds(&self, len: usize) -> (r: (usize, usize)) {
        (0, self.end)
    }
}

impl IndexRange for core::ops::RangeFull {
    open spec fn spec_bounds(&self, len: nat) -> (int, int) {
        (0, len as int)
    }

    fn bounds(&self, len: usize) -> (r: (usize, usize)) {
        (0, len)
    }
}

/// `VecDeque::as_slices`: the deque's contents as two slices, front part first.
/// Where the contents are split depends on the deque's memory layout, so the
/// contract states only that the two slices together hold the contents in order.
#[verifier::external_body]
fn deque_as_slices<T>(deque: &VecDeque<T>) -> (parts: (&[T], &[T]))
    ensures
        parts.0@ + parts.1@ == deque@,
{
    deque.as_slices()
}

pub open spec fn min_int(a: int, b: int) -> int {
    if a <= b { a } else { b }
}

/// The part of the range from `start` to `end` (clamped to the contents) that
/// lies before the split point `split`, and the part that lies from it on.
pub open spec fn cut_at<T>(contents: Seq<T>, start: int, end: int, split: int) -> (Seq<T>, Seq<T>) {
    let last = min_int(end, contents.len() as int);
    (
        contents.subrange(min_int(start, split), min_int(last, split)),
        contents.subrange(if start >= split { start } else { split }, if last >= split { last } else { split }),
    )
}

pub trait VecDequeExt<T> {
    spec fn deque_view(&self) -> Seq<T>;

    /// Returns the elements of the given range as two slices, in order: the
    /// part held in the deque's first slice and the part held in its second.
    /// An end past the deque's length is clamped to its length.
    fn range_as_slices<R: IndexRange>(&self, range: R) -> (parts: (&[T], &[T]))
        requires
            range.spec_bounds(self.deque_view().len()).0 <= range.spec_bounds(self.deque_view().len()).1,
            range.spec_bounds(self.deque_view().len()).0 <= self.deque_view().len(),
        ensures
            parts.0@ + parts.1@ == self.deque_view().subrange(
                range.spec_bounds(self.deque_view().len()).0,
                min_int(range.spec_bounds(self.deque_view().len()).1, self.deque_view().len() as int),
            ),
            exists|split: int|
                0 <= split <= self.deque_view().len() && #[trigger] cut_at(
                    self.deque_view(),
                    range.spec_bounds(self.deque_view().len()).0,
                    range.spec_bounds(self.deque_view().len()).1,
                    split,
                ) == (parts.0@, parts.1@),
    ;
}

impl<T> VecDequeExt<T> for VecDeque<T> {
    open spec fn deque_view(&self) -> Seq<T> {
        self@
    }

    fn range_as_slices<R: IndexRange>(&self, range: R) -> (parts: (&[T], &[T])) {
        let (start, end) = range.bounds(self.len());
        let (head, tail) = deque_as_slices(self);
        let head_len = head.len();
        let head_start = if start <= head_len { start } else { head_len };
        let head_end = if end <= head_len { end } else { head_len };
        let head_part = slice_subrange(head, head_start, head_end);
        let tail_start = if start >= head_len { start - head_len } else { 0 };
        let tail_end_unclamped = if end >= head_len { end - head_len } else { 0 };
        let tail_end = if tail_end_unclamped <= tail.len() { tail_end_unclamped } else { tail.len() };
        let tail_part = slice_subrange(tail, tail_start, tail_end);
        proof {
            let d = self@;
            assert(d == head@ + tail@);
            assert(head_part@ + tail_part@ =~= d.subrange(start as int, min_int(end as int, d.len() as int)));
            let cut = cut_at(d, start as int, end as int, head_len as int);
            assert(cut.0 =~= head_part@);
            assert(cut.1 =~= tail_part@);
            assert(cut == (head_part@, tail_part@));
        }
        (head_part, tail_part)
    }
}

} // verus!
