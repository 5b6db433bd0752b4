use vstd::prelude::*;

use vstd::arithmetic::div_mod::{lemma_fundamental_div_mod, lemma_mod_bound};

use crate::ext::min_int;
use crate::buffer::{
    index_within, lemma_merge_filled, lemma_split_position, lemma_written_ascending, merge_all, ranges_ascending,
    can_retain_all, lemma_retained_within, ranges_filled, ranges_separated, reads_back, retained_all, lemma_merge_separated, split_position, written, RangeView,
};

verus! {

/// The range holds `samples` from the absolute offset `offset` on.
pub open spec fn holds_at<T>(range: RangeView<T>, offset: int, samples: Seq<T>) -> bool {
    &&& range.offset <= offset
    &&& offset - range.offset + samples.len() <= range.len()
    &&& range.data.subrange(offset - range.offset, offset - range.offset + samples.len()) == samples
}

/// One of the ranges holds `samples` from the absolute offset `offset` on.
pub open spec fn held_in<T>(ranges: Seq<RangeView<T>>, offset: int, samples: Seq<T>) -> bool {
    exists|k: int| 0 <= k < ranges.len() && holds_at(#[trigger] ranges[k], offset, samples)
}

/// Merging ranges in ascending order yields separated ranges, the last of which
/// starts no later than the last one merged.
pub proof fn lemma_merge_all_separated<T>(ranges: Seq<RangeView<T>>)
    requires
        ranges_ascending(ranges),
    ensures
        ranges_separated(merge_all(ranges)),
        ranges.len() > 0 ==> merge_all(ranges).len() > 0 && merge_all(ranges).last().offset <= ranges.last().offset,
        ranges.len() == 0 ==> merge_all(ranges).len() == 0,
    decreases ranges.len(),
{
    if ranges.len() == 1 {
        assert(merge_all(ranges) == ranges);
        assert(ranges[0].fits());
    } else if ranges.len() >= 2 {
        let prefix = ranges.drop_last();
        assert forall|i: int| 0 <= i < prefix.len() implies (#[trigger] prefix[i]).fits() by {
            assert(prefix[i] == ranges[i]);
        }
        assert forall|i: int, j: int| 0 <= i < j < prefix.len() implies (#[trigger] prefix[i]).offset
            < (#[trigger] prefix[j]).offset by {
            assert(prefix[i] == ranges[i] && prefix[j] == ranges[j]);
        }
        lemma_merge_all_separated(prefix);
        let merged = merge_all(prefix);
        let current = merged.last();
        let next = ranges.last();
        let n = ranges.len() - 1;
        assert(ranges[n] == next);
        assert(next.fits());
        assert(prefix.last() == ranges[n - 1]);
        assert(ranges[n - 1].offset < ranges[n].offset);
        assert(current.offset < next.offset);
        let m = merged.len() - 1;
        assert(merged[m] == current);
        assert(current.fits());
        let result = merge_all(ranges);
        if current.touches(next) {
            let joined = current.merged(next);
            assert(joined == current.joined(next));
            assert(result == merged.drop_last().push(joined));
            assert(joined.offset == current.offset);
            assert(joined.fits());
            assert forall|i: int, j: int| 0 <= i < j < result.len() implies #[trigger] result[i].end() + 1
                < #[trigger] result[j].offset by {
                assert(result[i] == merged[i]);
                if j < result.len() - 1 {
                    assert(result[j] == merged[j]);
                } else {
                    assert(merged[i].end() + 1 < merged[m].offset);
                }
            }
            assert forall|i: int| 0 <= i < result.len() implies (#[trigger] result[i]).fits() by {
                if i < result.len() - 1 {
                    assert(result[i] == merged[i]);
                }
            }
        } else {
            assert(result == merged.push(next));
            assert(current.end() + 1 < next.offset);
            assert forall|i: int, j: int| 0 <= i < j < result.len() implies #[trigger] result[i].end() + 1
                < #[trigger] result[j].offset by {
                assert(result[i] == merged[i]);
                if j < result.len() - 1 {
                    assert(result[j] == merged[j]);
                } else if i < m {
                    assert(merged[i].end() + 1 < merged[m].offset);
                }
            }
            assert forall|i: int| 0 <= i < result.len() implies (#[trigger] result[i]).fits() by {
                if i < result.len() - 1 {
                    assert(result[i] == merged[i]);
                }
            }
        }
    }
}

/// After the `split`th range, which holds the samples, every range starts after
/// them; merging then keeps the samples in some range.
proof fn lemma_merge_keeps_samples<T>(ranges: Seq<RangeView<T>>, split: int, offset: int, samples: Seq<T>, k: int)
    requires
        ranges_ascending(ranges),
        ranges_filled(ranges.take(split)),
        0 <= split < k <= ranges.len(),
        samples.len() > 0,
        ranges[split].offset == offset,
        ranges[split].data == samples,
        forall|i: int| split < i < ranges.len() ==> (#[trigger] ranges[i]).offset >= offset + samples.len(),
    ensures
        exists|j: int| 0 <= j < merge_all(ranges.take(k)).len() && holds_at(
            #[trigger] merge_all(ranges.take(k))[j],
            offset,
            samples,
        ),
    decreases k,
{
    let prefix = ranges.take(k);
    assert(prefix.drop_last() =~= ranges.take(k - 1));
    assert(prefix.last() == ranges[k - 1]);
    assert(ranges_ascending(prefix)) by {
        assert forall|i: int| 0 <= i < prefix.len() implies (#[trigger] prefix[i]).fits() by {
            assert(prefix[i] == ranges[i]);
        }
        assert forall|i: int, j: int| 0 <= i < j < prefix.len() implies (#[trigger] prefix[i]).offset
            < (#[trigger] prefix[j]).offset by {
            assert(prefix[i] == ranges[i] && prefix[j] == ranges[j]);
        }
    }
    let result = merge_all(prefix);
    let next = ranges[k - 1];
    if k == split + 1 {
        // The range of the samples is merged with the ranges before it.
        if k == 1 {
            assert(result == prefix);
            assert(result[0] == next);
            assert(next.data.subrange(0, samples.len() as int) =~= samples);
            assert(holds_at(result[0], offset, samples));
        } else {
            let before = ranges.take(k - 1);
            assert(ranges_ascending(before)) by {
                assert forall|i: int| 0 <= i < before.len() implies (#[trigger] before[i]).fits() by {
                    assert(before[i] == ranges[i]);
                }
                assert forall|i: int, j: int| 0 <= i < j < before.len() implies (#[trigger] before[i]).offset
                    < (#[trigger] before[j]).offset by {
                    assert(before[i] == ranges[i] && before[j] == ranges[j]);
                }
            }
            lemma_merge_all_separated(before);
            lemma_merge_filled(before);
            let merged = merge_all(before);
            let current = merged.last();
            assert(before.last() == ranges[k - 2]);
            assert(ranges[k - 2].offset < ranges[k - 1].offset);
            assert(current.offset < next.offset);
            if current.touches(next) {
                let joined = current.joined(next);
                assert(result == merged.drop_last().push(current.merged(next)));
                assert(current.merged(next) == joined);
                assert(current.len() > 0);
                let kept = (offset - current.offset) as int;
                assert(joined.data == current.data.take(kept) + samples);
                assert(joined.data.subrange(kept, kept + samples.len()) =~= samples);
                assert(holds_at(result[result.len() - 1], offset, samples));
            } else {
                assert(result == merged.push(next));
                assert(result[result.len() - 1] == next);
                assert(next.data.subrange(0, samples.len() as int) =~= samples);
                assert(holds_at(result[result.len() - 1], offset, samples));
            }
        }
    } else {
        let before = ranges.take(k - 1);
        lemma_merge_keeps_samples(ranges, split, offset, samples, k - 1);
        let merged = merge_all(before);
        let j = choose|j: int| 0 <= j < merged.len() && holds_at(#[trigger] merged[j], offset, samples);
        assert(ranges_ascending(before)) by {
            assert forall|i: int| 0 <= i < before.len() implies (#[trigger] before[i]).fits() by {
                assert(before[i] == ranges[i]);
            }
            assert forall|i: int, j: int| 0 <= i < j < before.len() implies (#[trigger] before[i]).offset
                < (#[trigger] before[j]).offset by {
                assert(before[i] == ranges[i] && before[j] == ranges[j]);
            }
        }
        lemma_merge_all_separated(before);
        let current = merged.last();
        assert(before.last() == ranges[k - 2]);
        assert(ranges[k - 2].offset < ranges[k - 1].offset);
        assert(current.offset < next.offset);
        assert(next.offset >= offset + samples.len());
        if current.touches(next) {
            assert(result == merged.drop_last().push(current.merged(next)));
            assert(current.merged(next) == current.joined(next));
            if j < merged.len() - 1 {
                assert(result[j] == merged[j]);
            } else {
                let joined = current.joined(next);
                let start = offset - current.offset;
                assert(merged[j] == current);
                let intersection = crate::buffer::sat_sub(current.end() + 1, next.offset);
                let kept = crate::buffer::sat_sub(current.len(), intersection);
                assert(kept >= start + samples.len());
                assert(joined.data.subrange(start, start + samples.len()) =~= current.data.subrange(
                    start,
                    start + samples.len(),
                ));
                assert(holds_at(result[j], offset, samples));
            }
        } else {
            assert(result == merged.push(next));
            assert(result[j] == merged[j]);
        }
    }
}

/// What is written can be read back: reading as many samples as were written,
/// at the offset they were written at, yields them.
#[verifier::spinoff_prover]
#[verifier::rlimit(30)]
pub proof fn lemma_read_after_write<T>(ranges: Seq<RangeView<T>>, offset: int, samples: Seq<T>)
    requires
        ranges_separated(ranges),
        ranges_filled(ranges),
        0 <= offset,
        offset + samples.len() < usize::MAX,
        samples.len() > 0,
    ensures
        reads_back(merge_all(written(ranges, offset, samples)), offset, samples),
{
    lemma_written_ascending(ranges, offset, samples);
    let w = written(ranges, offset, samples);
    let p = split_position(ranges, offset);
    assert(ranges_filled(w.take(p))) by {
        assert forall|i: int| 0 <= i < w.take(p).len() implies (#[trigger] w.take(p)[i]).len() > 0 by {
            assert(w.take(p)[i] == w[i]);
        }
    }
    lemma_merge_keeps_samples(w, p, offset, samples, w.len() as int);
    assert(w.take(w.len() as int) =~= w);
    let after = merge_all(w);
    lemma_merge_all_separated(w);
    let j = choose|j: int| 0 <= j < after.len() && holds_at(#[trigger] after[j], offset, samples);
    assert(after[j].within(offset));
    let chosen = index_within(after, offset);
    assert(after[chosen].within(offset));
    if chosen < j {
        assert(after[chosen].end() + 1 < after[j].offset);
    } else if chosen > j {
        assert(after[j].end() + 1 < after[chosen].offset);
    }
    assert(chosen == j);
}

/// The samples of the whole chunk `chunk` of `chunk_size` samples, read from a range that holds it.
pub open spec fn chunk_samples<T>(range: RangeView<T>, chunk: int, chunk_size: int) -> Seq<T> {
    range.data.subrange(chunk * chunk_size - range.offset, chunk * chunk_size + chunk_size - range.offset)
}

/// Retaining a window keeps every whole chunk that meets it: a chunk of
/// `chunk_size` samples that lies inside the range and holds a sample between
/// `start` and `end` is still there after the cut, at the same position and
/// with the same samples.
pub proof fn lemma_retained_keeps_chunk<T>(range: RangeView<T>, start: int, end: int, chunk_size: int, chunk: int)
    requires
        range.fits(),
        chunk_size > 0,
        0 <= start,
        range.offset <= chunk * chunk_size,
        chunk * chunk_size + chunk_size <= range.offset + range.len(),
        chunk * chunk_size <= end,
        start < chunk * chunk_size + chunk_size,
    ensures
        holds_at(range.retained(start, end, chunk_size), chunk * chunk_size, chunk_samples(range, chunk, chunk_size)),
{
    let c = chunk_size;
    let o = range.offset;
    let z = range.offset + range.len();
    lemma_fundamental_div_mod(o, c);
    lemma_fundamental_div_mod(start, c);
    lemma_fundamental_div_mod(end, c);
    lemma_fundamental_div_mod(z, c);
    lemma_mod_bound(o, c);
    lemma_mod_bound(start, c);
    lemma_mod_bound(end, c);
    lemma_mod_bound(z, c);
    let a = range.first_chunk(c);
    if o % c == 0 {
        assert(o / c <= chunk) by (nonlinear_arith)
            requires o == c * (o / c), o <= chunk * c, c > 0;
    } else {
        assert(o / c < chunk) by (nonlinear_arith)
            requires o == c * (o / c) + o % c, 0 < o % c, o <= chunk * c, c > 0;
    }
    assert(start / c <= chunk) by (nonlinear_arith)
        requires start == c * (start / c) + start % c, 0 <= start % c, start < chunk * c + c, c > 0;
    assert(chunk <= end / c) by (nonlinear_arith)
        requires end == c * (end / c) + end % c, end % c < c, chunk * c <= end, c > 0;
    assert(chunk < z / c) by (nonlinear_arith)
        requires z == c * (z / c) + z % c, z % c < c, chunk * c + c <= z, c > 0;
    let f = range.retain_start(start, c);
    let e = range.retain_end(end, c);
    assert(f <= chunk < e);
    lemma_retained_within(range, start, end, c);
    let kept = range.retained(start, end, c);
    assert(f * c <= chunk * c && chunk * c + c <= e * c) by (nonlinear_arith)
        requires f <= chunk, chunk + 1 <= e, c > 0;
    assert(e * c <= z) by (nonlinear_arith)
        requires e <= z / c, z == c * (z / c) + z % c, z % c >= 0, c > 0;
    assert(f * c >= o) by (nonlinear_arith)
        requires
            f >= a,
            a == o / c + (if o % c == 0 { 0int } else { 1int }),
            o == c * (o / c) + o % c,
            0 <= o % c < c,
            c > 0;
    assert(kept.len() == e * c - f * c);
    assert(kept.offset == f * c);
    assert(kept.data.subrange(chunk * c - kept.offset, chunk * c - kept.offset + c) =~= chunk_samples(range, chunk, c));
}

/// Retaining a window keeps separated ranges separated: the cut ranges end no
/// later than the ranges they come from.
proof fn lemma_retained_separated<T>(ranges: Seq<RangeView<T>>, start: int, end: int, chunk_size: int)
    requires
        ranges_separated(ranges),
        ranges_filled(ranges),
        can_retain_all(ranges, start, end, chunk_size),
    ensures
        ranges_separated(retained_all(ranges, start, end, chunk_size)),
        ranges.len() > 0 ==> forall|k: int|
            0 <= k < retained_all(ranges, start, end, chunk_size).len() ==> (#[trigger] retained_all(
                ranges,
                start,
                end,
                chunk_size,
            )[k]).end() <= ranges.last().end(),
    decreases ranges.len(),
{
    if ranges.len() > 0 {
        let prefix = ranges.drop_last();
        let n = ranges.len() - 1;
        let last = ranges.last();
        assert(last == ranges[n]);
        assert(last.fits() && last.len() > 0);
        assert(ranges_separated(prefix)) by {
            assert forall|i: int, j: int| 0 <= i < j < prefix.len() implies #[trigger] prefix[i].end() + 1
                < #[trigger] prefix[j].offset by {
                assert(prefix[i] == ranges[i] && prefix[j] == ranges[j]);
            }
            assert forall|i: int| 0 <= i < prefix.len() implies (#[trigger] prefix[i]).fits() by {
                assert(prefix[i] == ranges[i]);
            }
        }
        assert(ranges_filled(prefix)) by {
            assert forall|i: int| 0 <= i < prefix.len() implies (#[trigger] prefix[i]).len() > 0 by {
                assert(prefix[i] == ranges[i]);
            }
        }
        assert(can_retain_all(prefix, start, end, chunk_size)) by {
            assert forall|i: int| 0 <= i < prefix.len() && #[trigger] prefix[i].overlaps(start, end) implies chunk_size
                > 0 by {
                assert(prefix[i] == ranges[i]);
            }
        }
        lemma_retained_separated(prefix, start, end, chunk_size);
        let earlier = retained_all(prefix, start, end, chunk_size);
        let result = retained_all(ranges, start, end, chunk_size);
        if n > 0 {
            assert(prefix.last() == ranges[n - 1]);
            assert(ranges[n - 1].end() + 1 < ranges[n].offset);
            assert forall|k: int| 0 <= k < earlier.len() implies (#[trigger] earlier[k]).end() <= last.end() by {}
        }
        let kept = last.retained(start, end, chunk_size);
        if last.overlaps(start, end) && kept.len() > 0 {
            assert(chunk_size > 0);
            lemma_retained_within(last, start, end, chunk_size);
            assert(result == earlier.push(kept));
            assert(kept.offset >= last.offset);
            assert(kept.end() <= last.end());
            assert(kept.fits());
            assert forall|k: int| 0 <= k < result.len() implies (#[trigger] result[k]).end() <= last.end()
                && result[k].fits() by {
                if k < earlier.len() {
                    assert(result[k] == earlier[k]);
                }
            }
            assert forall|a: int, b: int| 0 <= a < b < result.len() implies #[trigger] result[a].end() + 1
                < #[trigger] result[b].offset by {
                assert(result[a] == earlier[a]);
                if b < earlier.len() {
                    assert(result[b] == earlier[b]);
                } else {
                    assert(earlier[a].end() <= prefix.last().end());
                }
            }
        } else {
            assert(result == earlier);
        }
    }
}

/// The range cut from the `index`th range, where it is left with samples, is among the retained ranges.
proof fn lemma_retained_contains<T>(ranges: Seq<RangeView<T>>, start: int, end: int, chunk_size: int, index: int)
    requires
        0 <= index < ranges.len(),
        ranges[index].overlaps(start, end),
        ranges[index].retained(start, end, chunk_size).len() > 0,
    ensures
        exists|k: int|
            0 <= k < retained_all(ranges, start, end, chunk_size).len() && #[trigger] retained_all(
                ranges,
                start,
                end,
                chunk_size,
            )[k] == ranges[index].retained(start, end, chunk_size),
    decreases ranges.len(),
{
    let prefix = ranges.drop_last();
    let earlier = retained_all(prefix, start, end, chunk_size);
    let result = retained_all(ranges, start, end, chunk_size);
    if index == ranges.len() - 1 {
        assert(ranges.last() == ranges[index]);
        assert(result == earlier.push(ranges[index].retained(start, end, chunk_size)));
        assert(result[earlier.len() as int] == ranges[index].retained(start, end, chunk_size));
    } else {
        assert(prefix[index] == ranges[index]);
        lemma_retained_contains(prefix, start, end, chunk_size, index);
        let k = choose|k: int| 0 <= k < earlier.len() && #[trigger] earlier[k] == prefix[index].retained(start, end, chunk_size);
        let last = ranges.last();
        if last.overlaps(start, end) && last.retained(start, end, chunk_size).len() > 0 {
            assert(result == earlier.push(last.retained(start, end, chunk_size)));
            assert(result[k] == earlier[k]);
        } else {
            assert(result == earlier);
        }
    }
}

/// Every range that retaining keeps is cut from one of the ranges before.
proof fn lemma_retained_from<T>(ranges: Seq<RangeView<T>>, start: int, end: int, chunk_size: int, k: int)
    requires
        0 <= k < retained_all(ranges, start, end, chunk_size).len(),
    ensures
        retained_all(ranges, start, end, chunk_size)[k].len() > 0,
        exists|i: int|
            0 <= i < ranges.len() && ranges[i].overlaps(start, end) && retained_all(ranges, start, end, chunk_size)[k]
                == (#[trigger] ranges[i]).retained(start, end, chunk_size),
    decreases ranges.len(),
{
    let prefix = ranges.drop_last();
    let earlier = retained_all(prefix, start, end, chunk_size);
    let result = retained_all(ranges, start, end, chunk_size);
    let last = ranges.last();
    let n = ranges.len() - 1;
    if last.overlaps(start, end) && last.retained(start, end, chunk_size).len() > 0 {
        assert(result == earlier.push(last.retained(start, end, chunk_size)));
        if k == earlier.len() {
            assert(ranges[n] == last);
        } else {
            lemma_retained_from(prefix, start, end, chunk_size, k);
            let i = choose|i: int| 0 <= i < prefix.len() && prefix[i].overlaps(start, end) && earlier[k] == (
            #[trigger] prefix[i]).retained(start, end, chunk_size);
            assert(prefix[i] == ranges[i]);
        }
    } else {
        assert(result == earlier);
        lemma_retained_from(prefix, start, end, chunk_size, k);
        let i = choose|i: int| 0 <= i < prefix.len() && prefix[i].overlaps(start, end) && earlier[k] == (
        #[trigger] prefix[i]).retained(start, end, chunk_size);
        assert(prefix[i] == ranges[i]);
    }
}

/// Retaining a window around an offset keeps every whole chunk that meets the
/// window: a chunk of `chunk_size` samples that lies inside one of the ranges
/// and holds a sample between the window's start and end is still in the buffer
/// afterwards, at the same position and with the same samples.
pub proof fn lemma_retain_window_keeps_window<T>(
    ranges: Seq<RangeView<T>>,
    start: int,
    end: int,
    chunk_size: int,
    index: int,
    chunk: int,
)
    requires
        ranges_separated(ranges),
        ranges_filled(ranges),
        chunk_size > 0,
        0 <= start,
        0 <= index < ranges.len(),
        ranges[index].offset <= chunk * chunk_size,
        chunk * chunk_size + chunk_size <= ranges[index].offset + ranges[index].len(),
        chunk * chunk_size <= end,
        start < chunk * chunk_size + chunk_size,
    ensures
        exists|k: int|
            0 <= k < merge_all(retained_all(ranges, start, end, chunk_size)).len() && holds_at(
                #[trigger] merge_all(retained_all(ranges, start, end, chunk_size))[k],
                chunk * chunk_size,
                chunk_samples(ranges[index], chunk, chunk_size),
            ),
{
    let range = ranges[index];
    assert(range.fits());
    assert(range.overlaps(start, end));
    lemma_retained_keeps_chunk(range, start, end, chunk_size, chunk);
    let kept = range.retained(start, end, chunk_size);
    lemma_retained_contains(ranges, start, end, chunk_size, index);
    lemma_retained_separated(ranges, start, end, chunk_size);
    let retained = retained_all(ranges, start, end, chunk_size);
    lemma_merge_separated(retained);
    let k = choose|k: int| 0 <= k < retained.len() && #[trigger] retained[k] == kept;
    assert(retained[k] == kept);
    assert(holds_at(merge_all(retained)[k], chunk * chunk_size, chunk_samples(range, chunk, chunk_size)));
}

/// Retaining a window invents and moves no sample: every range in the buffer
/// afterwards was held, at the same position and with the same samples, by one
/// of the ranges before.
pub proof fn lemma_retain_window_invents_nothing<T>(
    ranges: Seq<RangeView<T>>,
    start: int,
    end: int,
    chunk_size: int,
    k: int,
)
    requires
        ranges_separated(ranges),
        ranges_filled(ranges),
        can_retain_all(ranges, start, end, chunk_size),
        0 <= k < merge_all(retained_all(ranges, start, end, chunk_size)).len(),
    ensures
        exists|i: int|
            0 <= i < ranges.len() && holds_at(
                #[trigger] ranges[i],
                merge_all(retained_all(ranges, start, end, chunk_size))[k].offset,
                merge_all(retained_all(ranges, start, end, chunk_size))[k].data,
            ),
{
    lemma_retained_separated(ranges, start, end, chunk_size);
    let retained = retained_all(ranges, start, end, chunk_size);
    lemma_merge_separated(retained);
    lemma_retained_from(ranges, start, end, chunk_size, k);
    let i = choose|i: int| 0 <= i < ranges.len() && ranges[i].overlaps(start, end) && retained[k] == (
    #[trigger] ranges[i]).retained(start, end, chunk_size);
    let range = ranges[i];
    let kept = retained[k];
    assert(range.fits());
    assert(chunk_size > 0);
    lemma_retained_within(range, start, end, chunk_size);
    assert(holds_at(range, kept.offset, kept.data));
}

} // verus!
