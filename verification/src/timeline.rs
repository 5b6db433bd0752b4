use vstd::prelude::*;

use crate::buffer::{can_retain_all, merge_all, retained_all, sat_sub};
use crate::ext::min_int;
use crate::sink::{Sink, SinkId};
use crate::store::SinkStore;

verus! {

broadcast use crate::sink::Sink::lemma_guarded_as;

/// Instructs a player what sink to read from, and where to start reading from.
pub struct TimelineRead {
    pub sink_id: SinkId,
    /// The offset of the first sample to read from the sink.
    pub offset: usize,
    /// How many samples to read from the offset.
    pub amount: usize,
}

/// Instructs the playback what sinks to preload.
#[derive(Debug)]
pub struct TimelinePreload {
    pub sink_id: SinkId,
    /// The offset in samples to start preloading from.
    pub offset: usize,
}

/// What an advance yields: the reads, how many sinks were played to their end,
/// the new offset in the current sink, and how many requested samples are left unread.
pub type AdvanceOutcome = (Seq<TimelineRead>, int, int, int);

/// The outcome of advancing from the `index`th sink, reading from `playback_offset`
/// with `remaining` samples still wanted, while `offset` is the timeline's offset.
pub open spec fn advance_from<T>(
    sinks: Map<u64, Sink<T>>,
    ids: Seq<SinkId>,
    index: int,
    playback_offset: int,
    remaining: int,
    offset: int,
) -> AdvanceOutcome
    decreases ids.len() - index,
{
    if index < 0 || index >= ids.len() {
        (Seq::empty(), index, offset, remaining)
    } else {
        let sink = sinks[ids[index].spec_value()];
        if remaining == 0 || !sink.spec_is_activated() {
            (Seq::empty(), index, offset, remaining)
        } else {
            let available = sink.void_distance(playback_offset);
            let amount = min_int(available, remaining);
            let here = if amount > 0 {
                seq![
                    TimelineRead {
                        sink_id: ids[index],
                        offset: playback_offset as usize,
                        amount: amount as usize,
                    },
                ]
            } else {
                Seq::empty()
            };
            if !sink.spec_can_load_more() && available <= remaining {
                let rest = advance_from(sinks, ids, index + 1, 0, remaining - amount, 0);
                (here + rest.0, rest.1, rest.2, rest.3)
            } else {
                let new_offset = if amount > 0 { playback_offset + amount } else { offset };
                (here, index, new_offset, remaining - amount)
            }
        }
    }
}

/// The preloads requested from the `index`th sink on, starting at `offset` in it,
/// while `remaining` samples are still to be preloaded.
pub open spec fn preload_from<T>(
    sinks: Map<u64, Sink<T>>,
    ids: Seq<SinkId>,
    index: int,
    offset: int,
    remaining: int,
    threshold: int,
) -> Seq<TimelinePreload>
    decreases ids.len() - index,
{
    if index < 0 || index >= ids.len() {
        Seq::empty()
    } else {
        let sink = sinks[ids[index].spec_value()];
        let until_void = sink.void_distance(offset);
        if !sink.spec_is_activated() || until_void >= threshold || remaining == 0 {
            Seq::empty()
        } else if sink.spec_can_load_more() {
            let preloadable = min_int(sink.end_distance(offset), remaining);
            seq![TimelinePreload { sink_id: ids[index], offset: (until_void + offset) as usize }]
                + preload_from(sinks, ids, index + 1, 0, remaining - preloadable, threshold)
        } else {
            preload_from(sinks, ids, index + 1, 0, remaining, threshold)
        }
    }
}

/// The offset from which a preload's sink is measured: the timeline's offset
/// for the current sink, the start for every later one.
pub open spec fn preload_start(ids: Seq<SinkId>, offset: int, preload: TimelinePreload) -> int {
    if ids.len() > 0 && preload.sink_id.spec_value() == ids[0].spec_value() {
        offset
    } else {
        0
    }
}

/// How many samples the preloaded sinks can still supply: for each, the
/// samples from where it is measured to its end.
pub open spec fn preload_supply<T>(
    sinks: Map<u64, Sink<T>>,
    ids: Seq<SinkId>,
    offset: int,
    preloads: Seq<TimelinePreload>,
) -> int
    decreases preloads.len(),
{
    if preloads.len() == 0 {
        0
    } else {
        sinks[preloads[0].sink_id.spec_value()].end_distance(preload_start(ids, offset, preloads[0]))
            + preload_supply(sinks, ids, offset, preloads.drop_first())
    }
}

/// A preload asks a sink to load more from where its samples run out: the sink
/// is activated, can load more, holds fewer than `threshold` samples ahead of
/// where it is measured, and is to be loaded from its void on.
pub open spec fn preload_wanted<T>(
    sinks: Map<u64, Sink<T>>,
    ids: Seq<SinkId>,
    offset: int,
    threshold: int,
    preload: TimelinePreload,
) -> bool {
    let sink = sinks[preload.sink_id.spec_value()];
    let start = preload_start(ids, offset, preload);
    &&& sink.spec_is_activated()
    &&& sink.spec_can_load_more()
    &&& sink.void_distance(start) < threshold
    &&& preload.offset == (start + sink.void_distance(start)) as usize
}

/// The preloads name sinks of `ids` at the strictly increasing `positions`.
pub open spec fn preloads_in_order(preloads: Seq<TimelinePreload>, ids: Seq<SinkId>, positions: Seq<int>) -> bool {
    &&& positions.len() == preloads.len()
    &&& forall|k: int|
        0 <= k < preloads.len() ==> 0 <= #[trigger] positions[k] < ids.len() && preloads[k].sink_id
            == ids[positions[k]]
    &&& forall|a: int, b: int| 0 <= a < b < preloads.len() ==> #[trigger] positions[a] < #[trigger] positions[b]
}

proof fn lemma_preload_supply_push<T>(
    sinks: Map<u64, Sink<T>>,
    ids: Seq<SinkId>,
    offset: int,
    first: TimelinePreload,
    rest: Seq<TimelinePreload>,
)
    ensures
        preload_supply(sinks, ids, offset, seq![first] + rest) == sinks[first.sink_id.spec_value()].end_distance(
            preload_start(ids, offset, first),
        ) + preload_supply(sinks, ids, offset, rest),
{
    let all = seq![first] + rest;
    assert(all[0] == first);
    assert(all.drop_first() =~= rest);
}

/// What preloading from the `index`th sink yields, with `remaining` samples still wanted.
proof fn lemma_preload_positions<T>(
    sinks: Map<u64, Sink<T>>,
    ids: Seq<SinkId>,
    index: int,
    playback_offset: int,
    remaining: int,
    threshold: int,
    offset: int,
) -> (positions: Seq<int>)
    requires
        0 <= index,
        distinct_ids(ids),
        playback_offset == (if index == 0 { offset } else { 0 }),
        0 <= remaining,
    ensures
        ({
            let preloads = preload_from(sinks, ids, index, playback_offset, remaining, threshold);
            &&& preloads_in_order(preloads, ids, positions)
            &&& forall|k: int| 0 <= k < preloads.len() ==> index <= #[trigger] positions[k]
            &&& preloads.len() > 0 ==> remaining > 0
            &&& forall|j: int|
                0 < j < preloads.len() ==> preload_supply(sinks, ids, offset, #[trigger] preloads.take(j))
                    < remaining
            &&& forall|k: int|
                0 <= k < preloads.len() ==> preload_wanted(sinks, ids, offset, threshold, #[trigger] preloads[k])
        }),
    decreases ids.len() - index,
{
    let preloads = preload_from(sinks, ids, index, playback_offset, remaining, threshold);
    if index >= ids.len() {
        Seq::empty()
    } else {
        let sink = sinks[ids[index].spec_value()];
        let until_void = sink.void_distance(playback_offset);
        if !sink.spec_is_activated() || until_void >= threshold || remaining == 0 {
            Seq::empty()
        } else if sink.spec_can_load_more() {
            let preloadable = min_int(sink.end_distance(playback_offset), remaining);
            let first = TimelinePreload { sink_id: ids[index], offset: (until_void + playback_offset) as usize };
            let rest = preload_from(sinks, ids, index + 1, 0, remaining - preloadable, threshold);
            let rest_positions = lemma_preload_positions(
                sinks,
                ids,
                index + 1,
                0,
                remaining - preloadable,
                threshold,
                offset,
            );
            let positions = seq![index] + rest_positions;
            assert(preloads == seq![first] + rest);
            assert(preload_start(ids, offset, first) == playback_offset) by {
                if index > 0 {
                    assert(ids[index].spec_value() != ids[0].spec_value());
                }
            }
            assert(preloads[0] == first);
            assert forall|k: int| 0 <= k < preloads.len() implies 0 <= #[trigger] positions[k] < ids.len()
                && preloads[k].sink_id == ids[positions[k]] && index <= positions[k] && preload_wanted(
                sinks,
                ids,
                offset,
                threshold,
                preloads[k],
            ) by {
                if k > 0 {
                    assert(positions[k] == rest_positions[k - 1]);
                    assert(preloads[k] == rest[k - 1]);
                }
            }
            assert forall|a: int, b: int| 0 <= a < b < preloads.len() implies #[trigger] positions[a]
                < #[trigger] positions[b] by {
                assert(positions[b] == rest_positions[b - 1]);
                if a > 0 {
                    assert(positions[a] == rest_positions[a - 1]);
                } else {
                    assert(preloads[b] == rest[b - 1]);
                }
            }
            assert forall|j: int| 0 < j < preloads.len() implies preload_supply(
                sinks,
                ids,
                offset,
                #[trigger] preloads.take(j),
            ) < remaining by {
                assert(rest.len() > 0);
                assert(preloads.take(j) =~= seq![first] + rest.take(j - 1));
                lemma_preload_supply_push(sinks, ids, offset, first, rest.take(j - 1));
                if j == 1 {
                    assert(rest.take(0) =~= Seq::<TimelinePreload>::empty());
                } else {
                    assert(preload_supply(sinks, ids, offset, rest.take(j - 1)) < remaining - preloadable);
                }
            }
            positions
        } else {
            lemma_preload_positions(sinks, ids, index + 1, 0, remaining, threshold, offset)
        }
    }
}

/// Preloading asks for no more than the threshold: the sinks it asks to load
/// come in timeline order, each one activated, able to load more and holding
/// fewer than `threshold` samples ahead, to be loaded from its void on; and a
/// sink is asked only while the sinks asked before it can supply fewer than
/// `threshold` samples in all. So where the first sink asked can supply the
/// threshold on its own, it is the only one.
pub proof fn lemma_preload_within_threshold<T>(sinks: Map<u64, Sink<T>>, ids: Seq<SinkId>, offset: int, threshold: int)
    requires
        distinct_ids(ids),
        0 <= threshold,
    ensures
        ({
            let preloads = preload_from(sinks, ids, 0, offset, threshold, threshold);
            &&& forall|j: int|
                0 < j < preloads.len() ==> preload_supply(sinks, ids, offset, #[trigger] preloads.take(j))
                    < threshold
            &&& forall|k: int|
                0 <= k < preloads.len() ==> preload_wanted(sinks, ids, offset, threshold, #[trigger] preloads[k])
            &&& exists|positions: Seq<int>| #[trigger] preloads_in_order(preloads, ids, positions)
        }),
{
    let positions = lemma_preload_positions(sinks, ids, 0, offset, threshold, threshold, offset);
    let preloads = preload_from(sinks, ids, 0, offset, threshold, threshold);
    assert(preloads_in_order(preloads, ids, positions));
}

/// The total amount of samples that the reads ask for.
pub open spec fn read_total(reads: Seq<TimelineRead>) -> int
    decreases reads.len(),
{
    if reads.len() == 0 {
        0
    } else {
        read_total(reads.drop_last()) + reads.last().amount
    }
}

proof fn lemma_read_total_append(a: Seq<TimelineRead>, b: Seq<TimelineRead>)
    ensures
        read_total(a + b) == read_total(a) + read_total(b),
    decreases b.len(),
{
    if b.len() == 0 {
        assert(a + b =~= a);
    } else {
        assert((a + b).drop_last() =~= a + b.drop_last());
        lemma_read_total_append(a, b.drop_last());
    }
}

/// Each read asks for as many samples as its sink holds from the read's offset
/// up to its void, or for as many as are still wanted of `requested`, whichever is less.
pub open spec fn reads_as_wanted<T>(sinks: Map<u64, Sink<T>>, reads: Seq<TimelineRead>, requested: int) -> bool {
    forall|k: int|
        0 <= k < reads.len() ==> (#[trigger] reads[k]).amount == min_int(
            sinks[reads[k].sink_id.spec_value()].void_distance(reads[k].offset as int),
            requested - read_total(reads.take(k)),
        )
}

/// An advance never reads more than was asked for: the amounts of its reads add
/// up to the requested amount less what was left unread, every read reads
/// something, and each asks for what its sink holds or for what is still wanted.
pub proof fn lemma_advance_reads_requested<T>(
    sinks: Map<u64, Sink<T>>,
    ids: Seq<SinkId>,
    index: int,
    playback_offset: int,
    remaining: int,
    offset: int,
)
    requires
        0 <= remaining <= usize::MAX,
        0 <= playback_offset <= usize::MAX,
    ensures
        ({
            let outcome = advance_from(sinks, ids, index, playback_offset, remaining, offset);
            &&& 0 <= outcome.3 <= remaining
            &&& read_total(outcome.0) == remaining - outcome.3
            &&& forall|k: int| 0 <= k < outcome.0.len() ==> (#[trigger] outcome.0[k]).amount > 0
            &&& reads_as_wanted(sinks, outcome.0, remaining)
        }),
    decreases ids.len() - index,
{
    let outcome = advance_from(sinks, ids, index, playback_offset, remaining, offset);
    assert(reads_as_wanted(sinks, Seq::<TimelineRead>::empty(), remaining));
    if 0 <= index < ids.len() {
        let sink = sinks[ids[index].spec_value()];
        if remaining != 0 && sink.spec_is_activated() {
            let available = sink.void_distance(playback_offset);
            let amount = min_int(available, remaining);
            let here = if amount > 0 {
                seq![
                    TimelineRead {
                        sink_id: ids[index],
                        offset: playback_offset as usize,
                        amount: amount as usize,
                    },
                ]
            } else {
                Seq::empty()
            };
            assert(amount <= remaining);
            assert(amount >= 0) by {
                assert(available >= 0 || available < 0);
            }
            if amount > 0 {
                assert(here.drop_last() =~= Seq::<TimelineRead>::empty());
                assert(read_total(Seq::<TimelineRead>::empty()) == 0);
                assert(here.last().amount == amount);
                assert(read_total(here) == read_total(here.drop_last()) + here.last().amount);
                assert(read_total(here) == amount);
                assert(here.take(0) =~= Seq::<TimelineRead>::empty());
            } else {
                assert(read_total(here) == 0);
            }
            assert(reads_as_wanted(sinks, here, remaining));
            if !sink.spec_can_load_more() && available <= remaining {
                lemma_advance_reads_requested(sinks, ids, index + 1, 0, remaining - amount, 0);
                let rest = advance_from(sinks, ids, index + 1, 0, remaining - amount, 0).0;
                lemma_read_total_append(here, rest);
                let reads = outcome.0;
                assert(reads == here + rest);
                assert forall|k: int| 0 <= k < reads.len() implies (#[trigger] reads[k]).amount > 0 by {
                    if k >= here.len() {
                        assert(reads[k] == rest[k - here.len()]);
                    }
                }
                assert forall|k: int| 0 <= k < reads.len() implies (#[trigger] reads[k]).amount == min_int(
                    sinks[reads[k].sink_id.spec_value()].void_distance(reads[k].offset as int),
                    remaining - read_total(reads.take(k)),
                ) by {
                    if k >= here.len() {
                        let j = k - here.len();
                        assert(reads[k] == rest[j]);
                        assert(reads.take(k) =~= here + rest.take(j));
                        lemma_read_total_append(here, rest.take(j));
                    } else {
                        assert(reads[k] == here[k]);
                        assert(reads.take(k) =~= here.take(k));
                    }
                }
            }
        }
    }
}

/// The reads come from the sinks of `ids` at the strictly increasing
/// `positions`, none beyond `last`; every read but the last played a sink that
/// can load no more up to its void, and that sink lies before `last`.
pub open spec fn plays_in_order<T>(
    sinks: Map<u64, Sink<T>>,
    reads: Seq<TimelineRead>,
    ids: Seq<SinkId>,
    last: int,
    positions: Seq<int>,
) -> bool {
    &&& positions.len() == reads.len()
    &&& forall|k: int|
        0 <= k < reads.len() ==> 0 <= #[trigger] positions[k] <= last && positions[k] < ids.len()
            && reads[k].sink_id == ids[positions[k]]
    &&& forall|a: int, b: int| 0 <= a < b < reads.len() ==> #[trigger] positions[a] < #[trigger] positions[b]
    &&& forall|k: int|
        0 <= k < reads.len() - 1 ==> #[trigger] positions[k] < last
            && !sinks[ids[positions[k]].spec_value()].spec_can_load_more()
            && reads[k].amount == sinks[ids[positions[k]].spec_value()].void_distance(reads[k].offset as int)
}

/// An advance moves past a sink only once it is finished: every sink it leaves
/// behind is sealed or has failed, so a sink that is still loading, or has not
/// started loading, stays in the timeline, waiting at its void.
pub proof fn lemma_advance_leaves_only_finished_sinks<T>(
    sinks: Map<u64, Sink<T>>,
    ids: Seq<SinkId>,
    index: int,
    playback_offset: int,
    remaining: int,
    offset: int,
)
    ensures
        ({
            let outcome = advance_from(sinks, ids, index, playback_offset, remaining, offset);
            forall|i: int|
                index <= i < outcome.1 ==> {
                    let state = (#[trigger] sinks[ids[i].spec_value()]).spec_load_state();
                    state is Sealed || state is Error
                }
        }),
    decreases ids.len() - index,
{
    if 0 <= index < ids.len() {
        let sink = sinks[ids[index].spec_value()];
        if remaining != 0 && sink.spec_is_activated() {
            let available = sink.void_distance(playback_offset);
            let amount = min_int(available, remaining);
            if !sink.spec_can_load_more() && available <= remaining {
                sink.lemma_can_load_more_until_finished();
                lemma_advance_leaves_only_finished_sinks(sinks, ids, index + 1, 0, remaining - amount, 0);
            }
        }
    }
}

/// The positions in `ids` of the sinks that an advance from the `index`th sink reads.
proof fn lemma_advance_positions<T>(
    sinks: Map<u64, Sink<T>>,
    ids: Seq<SinkId>,
    index: int,
    playback_offset: int,
    remaining: int,
    offset: int,
) -> (positions: Seq<int>)
    requires
        0 <= index,
        0 <= remaining <= usize::MAX,
        0 <= playback_offset <= usize::MAX,
    ensures
        ({
            let outcome = advance_from(sinks, ids, index, playback_offset, remaining, offset);
            &&& plays_in_order(sinks, outcome.0, ids, outcome.1, positions)
            &&& index <= outcome.1
            &&& forall|k: int|
                0 <= k < outcome.0.len() ==> index <= #[trigger] positions[k] && outcome.0[k].offset == (if positions[k]
                    == index {
                    playback_offset
                } else {
                    0
                })
        }),
    decreases ids.len() - index,
{
    let outcome = advance_from(sinks, ids, index, playback_offset, remaining, offset);
    if index >= ids.len() {
        Seq::empty()
    } else {
        let sink = sinks[ids[index].spec_value()];
        if remaining == 0 || !sink.spec_is_activated() {
            Seq::empty()
        } else {
            let available = sink.void_distance(playback_offset);
            let amount = min_int(available, remaining);
            let here: Seq<int> = if amount > 0 { seq![index] } else { Seq::empty() };
            if !sink.spec_can_load_more() && available <= remaining {
                let rest = lemma_advance_positions(sinks, ids, index + 1, 0, remaining - amount, 0);
                let rest_outcome = advance_from(sinks, ids, index + 1, 0, remaining - amount, 0);
                let positions = here + rest;
                let reads = outcome.0;
                assert(outcome.1 == rest_outcome.1);
                assert forall|k: int| 0 <= k < reads.len() implies 0 <= #[trigger] positions[k] <= outcome.1
                    && positions[k] < ids.len() && reads[k].sink_id == ids[positions[k]] && index <= positions[k]
                    && reads[k].offset == (if positions[k] == index { playback_offset } else { 0 }) by {
                    if k >= here.len() {
                        assert(positions[k] == rest[k - here.len()]);
                        assert(reads[k] == rest_outcome.0[k - here.len()]);
                    }
                }
                assert forall|a: int, b: int| 0 <= a < b < reads.len() implies #[trigger] positions[a]
                    < #[trigger] positions[b] by {
                    if a >= here.len() {
                        assert(positions[a] == rest[a - here.len()]);
                        assert(positions[b] == rest[b - here.len()]);
                    } else {
                        assert(positions[b] == rest[b - here.len()]);
                        assert(reads[b] == rest_outcome.0[b - here.len()]);
                    }
                }
                assert forall|k: int| 0 <= k < reads.len() - 1 implies #[trigger] positions[k] < outcome.1
                    && !sinks[ids[positions[k]].spec_value()].spec_can_load_more()
                    && reads[k].amount == sinks[ids[positions[k]].spec_value()].void_distance(reads[k].offset as int) by {
                    if k >= here.len() {
                        assert(positions[k] == rest[k - here.len()]);
                        assert(reads[k] == rest_outcome.0[k - here.len()]);
                        assert(reads[k + 1] == rest_outcome.0[k + 1 - here.len()]);
                    } else {
                        assert(reads[k + 1] == rest_outcome.0[0]);
                        assert(rest[0] <= rest_outcome.1);
                    }
                }
                positions
            } else {
                here
            }
        }
    }
}

/// Advancing the timeline plays its sinks in order, each at most once: the
/// current sink from the current offset and every later sink from its start.
/// Every read but the last plays a sink that can load no more up to its void,
/// and the advance removes that sink from the timeline. The reads ask for no
/// more samples than were requested, each for some, and together for as many
/// as the advance reports read.
pub proof fn lemma_advance_plays_in_order<T>(sinks: Map<u64, Sink<T>>, ids: Seq<SinkId>, offset: int, amount: int)
    requires
        distinct_ids(ids),
        0 <= offset <= usize::MAX,
        0 <= amount <= usize::MAX,
    ensures
        ({
            let outcome = advance_from(sinks, ids, 0, offset, amount, offset);
            let reads = outcome.0;
            &&& read_total(reads) == amount - outcome.3
            &&& 0 <= outcome.3 <= amount
            &&& forall|k: int| 0 <= k < reads.len() ==> (#[trigger] reads[k]).amount > 0
            &&& forall|a: int, b: int|
                0 <= a < b < reads.len() ==> (#[trigger] reads[a]).sink_id.spec_value()
                    != (#[trigger] reads[b]).sink_id.spec_value()
            &&& forall|k: int|
                0 <= k < reads.len() ==> (#[trigger] reads[k]).offset == (if reads[k].sink_id.spec_value()
                    == ids[0].spec_value() {
                    offset
                } else {
                    0
                })
            &&& reads_as_wanted(sinks, reads, amount)
            &&& exists|positions: Seq<int>| #[trigger] plays_in_order(sinks, reads, ids, outcome.1, positions)
        }),
{
    lemma_advance_reads_requested(sinks, ids, 0, offset, amount, offset);
    let positions = lemma_advance_positions(sinks, ids, 0, offset, amount, offset);
    let outcome = advance_from(sinks, ids, 0, offset, amount, offset);
    let reads = outcome.0;
    assert(plays_in_order(sinks, reads, ids, outcome.1, positions));
    assert forall|a: int, b: int| 0 <= a < b < reads.len() implies (#[trigger] reads[a]).sink_id.spec_value()
        != (#[trigger] reads[b]).sink_id.spec_value() by {
        assert(positions[a] < positions[b]);
        assert(ids[positions[a]] != ids[positions[b]] || positions[a] == positions[b]);
    }
    assert forall|k: int| 0 <= k < reads.len() implies (#[trigger] reads[k]).offset == (if reads[k].sink_id.spec_value()
        == ids[0].spec_value() {
        offset
    } else {
        0
    }) by {
        let p = positions[k];
        assert(reads[k].sink_id == ids[p]);
        if p != 0 {
            assert(ids[p].spec_value() != ids[0].spec_value());
        }
    }
}

/// No sink occurs twice.
pub open spec fn distinct_ids(ids: Seq<SinkId>) -> bool {
    forall|i: int, j: int|
        0 <= i < ids.len() && 0 <= j < ids.len() && i != j ==> (#[trigger] ids[i]).spec_value()
            != (#[trigger] ids[j]).spec_value()
}

pub open spec fn holds_id(ids: Seq<SinkId>, key: u64) -> bool {
    exists|i: int| 0 <= i < ids.len() && (#[trigger] ids[i]).spec_value() == key
}

/// Every sink of `ids` is in the store.
pub open spec fn all_stored<T>(store: &SinkStore<T>, ids: Seq<SinkId>) -> bool {
    forall|i: int| 0 <= i < ids.len() ==> store.contains(#[trigger] ids[i])
}

/// The two sequences are empty, or start with the same sink.
pub open spec fn same_first(current: Seq<SinkId>, next: Seq<SinkId>) -> bool {
    if current.len() == 0 || next.len() == 0 {
        current.len() == 0 && next.len() == 0
    } else {
        current[0].spec_value() == next[0].spec_value()
    }
}

/// The sinks after those of `ids` were released at `now`.
pub open spec fn released<T>(sinks: Map<u64, Sink<T>>, ids: Seq<SinkId>, now: u64) -> Map<u64, Sink<T>> {
    Map::new(
        |key: u64| sinks.dom().contains(key),
        |key: u64|
            if holds_id(ids, key) {
                sinks[key].guarded_as(false, now)
            } else {
                sinks[key]
            },
    )
}

/// The sinks after those of `current` were released and those of `next` held at `now`.
pub open spec fn regarded<T>(
    sinks: Map<u64, Sink<T>>,
    current: Seq<SinkId>,
    next: Seq<SinkId>,
    now: u64,
) -> Map<u64, Sink<T>> {
    Map::new(
        |key: u64| sinks.dom().contains(key),
        |key: u64|
            if holds_id(next, key) {
                sinks[key].guarded_as(true, now)
            } else if holds_id(current, key) {
                sinks[key].guarded_as(false, now)
            } else {
                sinks[key]
            },
    )
}

/// Setting the sinks of a timeline holds every new sink, releases every sink it
/// no longer plays, and leaves the other sinks as they were.
pub proof fn lemma_regarded_holds<T>(sinks: Map<u64, Sink<T>>, current: Seq<SinkId>, next: Seq<SinkId>, now: u64, key: u64)
    requires
        sinks.dom().contains(key),
    ensures
        regarded(sinks, current, next, now).dom() == sinks.dom(),
        holds_id(next, key) ==> regarded(sinks, current, next, now)[key].guarded(),
        !holds_id(next, key) && holds_id(current, key) ==> !regarded(sinks, current, next, now)[key].guarded(),
        !holds_id(next, key) && !holds_id(current, key) ==> regarded(sinks, current, next, now)[key] == sinks[key],
        regarded(sinks, current, next, now)[key].spec_id() == sinks[key].spec_id(),
        regarded(sinks, current, next, now)[key].activation() == sinks[key].activation(),
        regarded(sinks, current, next, now)[key].spec_load_state() == sinks[key].spec_load_state(),
{
    assert(regarded(sinks, current, next, now).dom() =~= sinks.dom());
    sinks[key].lemma_guarded_as(true, now);
    sinks[key].lemma_guarded_as(false, now);
}

/// The current sink's samples outside `window` samples around `offset` can be
/// cleared in chunks of `chunk_size` samples.
pub open spec fn can_clear_outside<T>(
    store: &SinkStore<T>,
    id: SinkId,
    offset: int,
    window: int,
    chunk_size: int,
) -> bool {
    &&& store.contains(id)
    &&& store.sink(id).spec_is_activated()
    &&& offset + window <= usize::MAX
    &&& can_retain_all(
        store.sink(id).buffer().ranges(),
        sat_sub(offset, window),
        offset + window,
        chunk_size,
    )
}

/// The timeline keeps track of a sequence of sinks, manages advancement of playback, and returns what sinks to preload.
pub struct Timeline {
    /// How many samples can be left in a sink before more is preloaded.
    preload_threshold: usize,
    /// How many samples around the playback offset a sink keeps.
    window_size: usize,
    /// The number of channels, which is the size of a chunk of samples.
    channel_count: usize,
    /// A sequence of sinks. The first one is the currently playing one.
    sinks: Vec<SinkId>,
    /// The playback offset of the first sink.
    offset: usize,
    /// The total playback offset of the timeline.
    total_offset: usize,
}

impl Timeline {
    #[verifier::type_invariant]
    spec fn well_formed(&self) -> bool {
        distinct_ids(self.sinks@)
    }

    pub closed spec fn ids(&self) -> Seq<SinkId> {
        self.sinks@
    }

    pub closed spec fn spec_offset(&self) -> usize {
        self.offset
    }

    pub closed spec fn spec_total_offset(&self) -> usize {
        self.total_offset
    }

    pub closed spec fn threshold(&self) -> usize {
        self.preload_threshold
    }

    pub closed spec fn window(&self) -> usize {
        self.window_size
    }

    pub closed spec fn channels(&self) -> usize {
        self.channel_count
    }

    /// Creates an empty timeline that preloads when fewer than `preload_threshold`
    /// samples are left, and keeps `window_size` samples around the offset of its
    /// current sink in chunks of `channel_count` samples.
    pub fn new(preload_threshold: usize, window_size: usize, channel_count: usize) -> (timeline: Self)
        ensures
            timeline.ids() == Seq::<SinkId>::empty(),
            timeline.spec_offset() == 0,
            timeline.spec_total_offset() == 0,
            timeline.threshold() == preload_threshold,
            timeline.window() == window_size,
            timeline.channels() == channel_count,
    {
        Timeline {
            preload_threshold,
            window_size,
            channel_count,
            sinks: Vec::new(),
            offset: 0,
            total_offset: 0,
        }
    }

    /// Advances the playback offset and returns the sinks that the player should read from.
    /// If this returns more than one [TimelineRead], it means the current sink finished playing.
    ///
    /// However, this cannot be relied upon, because it is possible for the remaining samples to be 0 exactly when moving on to the next sink.
    /// Therefore, the player should instead check if the [SinkId] changed to determine if the next sink started playing.
    ///
    /// If the returned vector is empty, it means the player is at the end of the timeline.
    ///
    /// * `amount` - The requested amount of samples.
    pub fn advance<T>(&mut self, store: &SinkStore<T>, amount: usize) -> (reads: Vec<TimelineRead>)
        requires
            all_stored(store, old(self).ids()),
        ensures
            ({
                let outcome = advance_from(
                    store@,
                    old(self).ids(),
                    0,
                    old(self).spec_offset() as int,
                    amount as int,
                    old(self).spec_offset() as int,
                );
                &&& reads@ == outcome.0
                &&& final(self).ids() == old(self).ids().skip(outcome.1)
                &&& final(self).spec_offset() == outcome.2
                &&& final(self).spec_total_offset() == old(self).spec_total_offset().wrapping_add(
                    (amount - outcome.3) as usize,
                )
                &&& exists|positions: Seq<int>| #[trigger] plays_in_order(store@, reads@, old(self).ids(), outcome.1, positions)
                &&& forall|i: int|
                    0 <= i < outcome.1 ==> {
                        let state = (#[trigger] store@[old(self).ids()[i].spec_value()]).spec_load_state();
                        state is Sealed || state is Error
                    }
            }),
            read_total(reads@) <= amount,
            reads_as_wanted(store@, reads@, amount as int),
            final(self).spec_total_offset() == old(self).spec_total_offset().wrapping_add(read_total(reads@) as usize),
            forall|k: int| 0 <= k < reads@.len() ==> (#[trigger] reads@[k]).amount > 0,
            forall|a: int, b: int|
                0 <= a < b < reads@.len() ==> (#[trigger] reads@[a]).sink_id.spec_value()
                    != (#[trigger] reads@[b]).sink_id.spec_value(),
            forall|k: int|
                0 <= k < reads@.len() ==> (#[trigger] reads@[k]).offset == (if reads@[k].sink_id.spec_value()
                    == old(self).ids()[0].spec_value() {
                    old(self).spec_offset()
                } else {
                    0
                }),
            final(self).threshold() == old(self).threshold(),
            final(self).window() == old(self).window(),
            final(self).channels() == old(self).channels(),
    {
        proof {
            use_type_invariant(&*self);
        }
        let ghost ids = self.sinks@;
        let ghost start = self.offset as int;
        let mut result: Vec<TimelineRead> = Vec::new();
        let mut remaining = amount;
        let mut playback_offset = self.offset;
        let mut offset = self.offset;
        let mut index: usize = 0;

        while index < self.sinks.len()
            invariant_except_break
                ({
                    let total = advance_from(store@, ids, 0, start, amount as int, start);
                    let rest = advance_from(
                        store@,
                        ids,
                        index as int,
                        playback_offset as int,
                        remaining as int,
                        offset as int,
                    );
                    &&& total.0 == result@ + rest.0
                    &&& total.1 == rest.1
                    &&& total.2 == rest.2
                    &&& total.3 == rest.3
                }),
            invariant
                index <= ids.len(),
                ids == self.sinks@,
                ids == old(self).ids(),
                start == old(self).spec_offset(),
                distinct_ids(ids),
                all_stored(store, ids),
                remaining <= amount,
                self.preload_threshold == old(self).threshold(),
                self.window_size == old(self).window(),
                self.channel_count == old(self).channels(),
                self.total_offset == old(self).spec_total_offset(),
            ensures
                ({
                    let total = advance_from(store@, ids, 0, start, amount as int, start);
                    &&& total.0 == result@
                    &&& total.1 == index as int
                    &&& total.2 == offset as int
                    &&& total.3 == remaining as int
                }),
            decreases ids.len() - index,
        {
            let ghost rest_before = advance_from(
                store@,
                ids,
                index as int,
                playback_offset as int,
                remaining as int,
                offset as int,
            );
            let id = self.sinks[index];
            let sink = match store.get(id) {
                Some(sink) => sink,
                None => {
                    assert(store.contains(ids[index as int]));
                    break;
                },
            };
            if remaining == 0 || !sink.is_activated() {
                assert(result@ + Seq::<TimelineRead>::empty() =~= result@);
                break;
            }

            let available_until_void = sink.distance_from_void(playback_offset);
            let available = available_until_void.distance;
            let amount_to_read = if available < remaining { available } else { remaining };
            let ghost here = if amount_to_read > 0 {
                seq![TimelineRead { sink_id: ids[index as int], offset: playback_offset, amount: amount_to_read }]
            } else {
                Seq::empty()
            };
            let ghost before = result@;

            // There are samples to read from this sink.
            if amount_to_read > 0 {
                remaining = remaining - amount_to_read;
                result.push(TimelineRead { sink_id: id, offset: playback_offset, amount: amount_to_read });
                offset = playback_offset + amount_to_read;
            }
            proof {
                assert(result@ == before + here);
            }

            // Reset offset for the next sink.
            playback_offset = 0;

            // Move on to the next sink when the sink is not loadable, and there are
            // no more samples to read from it.
            let should_move_on = !sink.can_load_more() && available.saturating_sub(amount_to_read) == 0;

            if !should_move_on {
                assert(rest_before.0 == here);
                break;
            }

            offset = 0;
            index = index + 1;
            proof {
                let rest = advance_from(store@, ids, index as int, 0, remaining as int, 0);
                assert(before + (here + rest.0) == (before + here) + rest.0);
            }
        }

        let read = amount - remaining;
        proof {
            lemma_advance_plays_in_order(store@, ids, start, amount as int);
            lemma_advance_leaves_only_finished_sinks(store@, ids, 0, start, amount as int, start);
        }
        self.total_offset = self.total_offset.wrapping_add(read);
        self.offset = offset;

        // Remove the sinks we just played from the list.
        let mut kept: Vec<SinkId> = Vec::new();
        let mut position = index;
        while position < self.sinks.len()
            invariant
                index <= position <= ids.len(),
                ids == self.sinks@,
                kept@ == ids.subrange(index as int, position as int),
            decreases ids.len() - position,
        {
            kept.push(self.sinks[position]);
            position = position + 1;
        }
        proof {
            assert(kept@ =~= ids.skip(index as int));
            assert(distinct_ids(kept@)) by {
                assert forall|a: int, b: int|
                    0 <= a < kept@.len() && 0 <= b < kept@.len() && a != b implies (
                    #[trigger] kept@[a]).spec_value() != (#[trigger] kept@[b]).spec_value() by {
                    assert(kept@[a] == ids[a + index]);
                    assert(kept@[b] == ids[b + index]);
                }
            }
        }
        self.sinks = kept;
        result
    }

    /// Returns what sinks to preload, if any.
    ///
    /// This should never be called while a sink is being loaded.
    pub fn preload<T>(&self, store: &SinkStore<T>) -> (preloads: Vec<TimelinePreload>)
        requires
            all_stored(store, self.ids()),
        ensures
            preloads@ == preload_from(
                store@,
                self.ids(),
                0,
                self.spec_offset() as int,
                self.threshold() as int,
                self.threshold() as int,
            ),
            forall|j: int|
                0 < j < preloads@.len() ==> preload_supply(
                    store@,
                    self.ids(),
                    self.spec_offset() as int,
                    #[trigger] preloads@.take(j),
                ) < self.threshold(),
            forall|k: int|
                0 <= k < preloads@.len() ==> preload_wanted(
                    store@,
                    self.ids(),
                    self.spec_offset() as int,
                    self.threshold() as int,
                    #[trigger] preloads@[k],
                ),
            exists|positions: Seq<int>| #[trigger] preloads_in_order(preloads@, self.ids(), positions),
    {
        proof {
            use_type_invariant(self);
            lemma_preload_within_threshold(store@, self.sinks@, self.offset as int, self.preload_threshold as int);
        }
        let ghost ids = self.sinks@;
        let threshold = self.preload_threshold;
        let mut remaining_to_load = threshold;
        let mut offset = self.offset;
        let mut result: Vec<TimelinePreload> = Vec::new();
        let mut index: usize = 0;

        while index < self.sinks.len()
            invariant
                index <= ids.len(),
                ids == self.sinks@,
                threshold == self.preload_threshold,
                all_stored(store, ids),
                remaining_to_load <= threshold,
                preload_from(store@, ids, 0, self.offset as int, threshold as int, threshold as int)
                    == result@ + preload_from(
                    store@,
                    ids,
                    index as int,
                    offset as int,
                    remaining_to_load as int,
                    threshold as int,
                ),
            ensures
                preload_from(store@, ids, 0, self.offset as int, threshold as int, threshold as int)
                    == result@,
            decreases ids.len() - index,
        {
            let id = self.sinks[index];
            let sink = match store.get(id) {
                Some(sink) => sink,
                None => {
                    assert(store.contains(ids[index as int]));
                    break;
                },
            };

            // Wait for sink activation
            if !sink.is_activated() {
                assert(preload_from(store@, ids, index as int, offset as int, remaining_to_load as int, threshold as int) =~= Seq::empty());
                assert(result@ + Seq::<TimelinePreload>::empty() =~= result@);
                break;
            }

            let available_until_void = sink.distance_from_void(offset);
            let available_until_end = sink.distance_from_end(offset);

            // No need to preload if we're under the threshold, or if we satisfied the remaining to load.
            if available_until_void.distance >= threshold || remaining_to_load == 0 {
                assert(result@ + Seq::<TimelinePreload>::empty() =~= result@);
                break;
            }

            let ghost before = result@;
            // Only try to preload if the sink is loadable.
            if sink.can_load_more() {
                let how_much_can_preload = if available_until_end < remaining_to_load {
                    available_until_end
                } else {
                    remaining_to_load
                };
                let preload_offset = available_until_void.distance + offset;

                result.push(TimelinePreload { sink_id: id, offset: preload_offset });
                remaining_to_load = remaining_to_load - how_much_can_preload;
                proof {
                    let rest = preload_from(store@, ids, index + 1, 0, remaining_to_load as int, threshold as int);
                    let here = seq![TimelinePreload { sink_id: ids[index as int], offset: preload_offset }];
                    assert(result@ == before + here);
                    assert(before + (here + rest) == (before + here) + rest);
                }
            }

            // Set the preload offset to the start for the next sink.
            offset = 0;
            index = index + 1;
        }
        proof {
            if index >= ids.len() {
                assert(result@ + Seq::<TimelinePreload>::empty() =~= result@);
            }
        }
        result
    }

    /// Sets the sinks to play and preload, releasing the sinks it held before and
    /// holding the new ones.
    ///
    /// Calling this function will not reset the playback offset to 0 if the first sink is not different from the current one.
    /// This is because the player may have already started reading from the next sink, and we don't want to reset the offset.
    ///
    /// Instead, this function is meant to be called when we advance to the next sink or a previous one, so that future sinks in a queue can be preloaded.
    pub fn set_sinks<T>(&mut self, store: &mut SinkStore<T>, sinks: Vec<SinkId>, now: u64)
        requires
            all_stored(old(store), old(self).ids()),
            all_stored(old(store), sinks@),
            distinct_ids(sinks@),
            forall|i: int|
                0 <= i < sinks@.len() ==> !old(store).sink(#[trigger] sinks@[i]).guarded() || holds_id(
                    old(self).ids(),
                    sinks@[i].spec_value(),
                ),
        ensures
            final(self).ids() == sinks@,
            final(self).spec_offset() == if same_first(old(self).ids(), sinks@) {
                old(self).spec_offset()
            } else {
                0
            },
            final(self).spec_total_offset() == old(self).spec_total_offset(),
            final(self).threshold() == old(self).threshold(),
            final(self).window() == old(self).window(),
            final(self).channels() == old(self).channels(),
            final(store)@ == regarded(old(store)@, old(self).ids(), sinks@, now),
    {
        proof {
            use_type_invariant(&*self);
        }
        let ghost before = store@;
        let ghost old_ids = self.sinks@;
        let ghost new_ids = sinks@;

        // Reset the timeline if the first sink is different.
        let current_sink_id = self.current_sink();
        let same = if sinks.len() == 0 {
            current_sink_id.is_none()
        } else {
            match current_sink_id {
                Some(current) => current.value() == sinks[0].value(),
                None => false,
            }
        };
        if !same {
            self.reset();
        }

        // Release the current sinks.
        let mut index: usize = 0;
        while index < self.sinks.len()
            invariant
                index <= old_ids.len(),
                old_ids == self.sinks@,
                distinct_ids(old_ids),
                all_stored(old(store), old_ids),
                before == old(store)@,
                store@ == released(before, old_ids.take(index as int), now),
            decreases old_ids.len() - index,
        {
            let id = self.sinks[index];
            let ghost key = id.spec_value();
            proof {
                assert(old(store).contains(old_ids[index as int]));
                assert(!holds_id(old_ids.take(index as int), key)) by {
                    if holds_id(old_ids.take(index as int), key) {
                        let j = choose|j: int|
                            0 <= j < index && (#[trigger] old_ids.take(index as int)[j]).spec_value() == key;
                        assert(old_ids.take(index as int)[j] == old_ids[j]);
                    }
                }
            }
            let ghost previous = store@;
            proof {
                assert(previous.dom().contains(key));
            }
            match store.take(id) {
                Some(mut sink) => {
                    sink.clear_guard(now);
                    store.insert(sink);
                    proof {
                        assert(store@ =~= previous.insert(key, previous[key].guarded_as(false, now)));
                    }
                },
                None => {
                    assert(false);
                },
            }
            index = index + 1;
            proof {
                let next = released(before, old_ids.take(index as int), now);
                assert forall|k: u64| #[trigger] next.dom().contains(k) implies store@.dom().contains(k) && next[k] == store@[k] by {
                    assert(holds_id(old_ids.take(index as int), k) <==> (holds_id(
                        old_ids.take(index - 1),
                        k,
                    ) || k == key)) by {
                        if holds_id(old_ids.take(index as int), k) {
                            let j = choose|j: int|
                                0 <= j < index && (#[trigger] old_ids.take(index as int)[j]).spec_value() == k;
                            if j < index - 1 {
                                assert(old_ids.take(index - 1)[j] == old_ids.take(index as int)[j]);
                            }
                        }
                        if holds_id(old_ids.take(index - 1), k) {
                            let j = choose|j: int|
                                0 <= j < index - 1 && (#[trigger] old_ids.take(index - 1)[j]).spec_value() == k;
                            assert(old_ids.take(index - 1)[j] == old_ids.take(index as int)[j]);
                        }
                        if k == key {
                            assert(old_ids.take(index as int)[index - 1] == old_ids[index - 1]);
                        }
                    }
                }
                assert(next =~= store@);
            }
        }
        proof {
            assert(old_ids.take(old_ids.len() as int) =~= old_ids);
        }

        // Hold the new sinks.
        let mut position: usize = 0;
        while position < sinks.len()
            invariant
                position <= new_ids.len(),
                new_ids == sinks@,
                distinct_ids(new_ids),
                all_stored(old(store), new_ids),
                before == old(store)@,
                forall|i: int|
                    0 <= i < new_ids.len() ==> !old(store).sink(#[trigger] new_ids[i]).guarded() || holds_id(
                        old_ids,
                        new_ids[i].spec_value(),
                    ),
                store@ == regarded(before, old_ids, new_ids.take(position as int), now),
            decreases new_ids.len() - position,
        {
            let id = sinks[position];
            let ghost key = id.spec_value();
            proof {
                assert(old(store).contains(new_ids[position as int]));
                assert(!holds_id(new_ids.take(position as int), key)) by {
                    if holds_id(new_ids.take(position as int), key) {
                        let j = choose|j: int|
                            0 <= j < position && (#[trigger] new_ids.take(position as int)[j]).spec_value() == key;
                        assert(new_ids.take(position as int)[j] == new_ids[j]);
                    }
                }
                before[key].lemma_guarded_twice(false, now, true, now);
            }
            let ghost previous = store@;
            proof {
                assert(previous.dom().contains(key));
            }
            match store.take(id) {
                Some(mut sink) => {
                    sink.guard(now);
                    store.insert(sink);
                    proof {
                        assert(store@ =~= previous.insert(key, previous[key].guarded_as(true, now)));
                    }
                },
                None => {
                    assert(false);
                },
            }
            position = position + 1;
            proof {
                let next = regarded(before, old_ids, new_ids.take(position as int), now);
                assert forall|k: u64| #[trigger] next.dom().contains(k) implies store@.dom().contains(k) && next[k] == store@[k] by {
                    assert(holds_id(new_ids.take(position as int), k) <==> (holds_id(
                        new_ids.take(position - 1),
                        k,
                    ) || k == key)) by {
                        if holds_id(new_ids.take(position as int), k) {
                            let j = choose|j: int|
                                0 <= j < position && (#[trigger] new_ids.take(position as int)[j]).spec_value() == k;
                            if j < position - 1 {
                                assert(new_ids.take(position - 1)[j] == new_ids.take(position as int)[j]);
                            }
                        }
                        if holds_id(new_ids.take(position - 1), k) {
                            let j = choose|j: int|
                                0 <= j < position - 1 && (#[trigger] new_ids.take(position - 1)[j]).spec_value() == k;
                            assert(new_ids.take(position - 1)[j] == new_ids.take(position as int)[j]);
                        }
                        if k == key {
                            assert(new_ids.take(position as int)[position - 1] == new_ids[position - 1]);
                        }
                    }
                }
                assert(next =~= store@);
            }
        }
        proof {
            assert(new_ids.take(new_ids.len() as int) =~= new_ids);
        }
        self.sinks = sinks;
    }

    /// Clears samples of the current sink that are not needed, to save memory.
    pub fn clear_superflous<T>(&self, store: &mut SinkStore<T>)
        requires
            self.ids().len() > 0 ==> can_clear_outside(
                old(store),
                self.ids()[0],
                self.spec_offset() as int,
                self.window() as int,
                self.channels() as int,
            ),
        ensures
            self.ids().len() == 0 ==> final(store)@ == old(store)@,
            self.ids().len() > 0 ==> ({
                let key = self.ids()[0].spec_value();
                let start = sat_sub(self.spec_offset() as int, self.window() as int);
                let end = self.spec_offset() + self.window();
                let cleared = final(store)@[key];
                let previous = old(store)@[key];
                &&& final(store)@ == old(store)@.insert(key, cleared)
                &&& cleared.spec_is_activated()
                &&& cleared.buffer().ranges() == merge_all(
                    retained_all(previous.buffer().ranges(), start, end, self.channels() as int),
                )
                &&& cleared.buffer().expected() == previous.buffer().expected()
                &&& cleared.same_flags(&previous)
                &&& cleared.interacted_at() == previous.interacted_at()
            }),
    {
        if self.sinks.len() > 0 {
            let id = self.sinks[0];
            match store.take(id) {
                Some(mut sink) => {
                    sink.clear_outside(self.offset, self.window_size, self.channel_count);
                    store.insert(sink);
                    proof {
                        assert(old(store)@.remove(id.spec_value()).insert(id.spec_value(), sink)
                            =~= old(store)@.insert(id.spec_value(), sink));
                    }
                },
                None => {},
            }
        }
    }

    /// Returns true if `clear_superflous` can clear the current sink, or there is none.
    pub fn can_clear_superflous<T>(&self, store: &SinkStore<T>) -> (possible: bool)
        ensures
            possible == (self.ids().len() > 0 ==> can_clear_outside(
                store,
                self.ids()[0],
                self.spec_offset() as int,
                self.window() as int,
                self.channels() as int,
            )),
    {
        if self.sinks.len() == 0 {
            return true;
        }
        match store.get(self.sinks[0]) {
            Some(sink) => sink.can_clear_outside(self.offset, self.window_size, self.channel_count),
            None => false,
        }
    }

    /// Resets the current sink to the beginning.
    pub fn reset(&mut self)
        ensures
            final(self).spec_offset() == 0,
            final(self).ids() == old(self).ids(),
            final(self).spec_total_offset() == old(self).spec_total_offset(),
            final(self).threshold() == old(self).threshold(),
            final(self).window() == old(self).window(),
            final(self).channels() == old(self).channels(),
    {
        proof {
            use_type_invariant(&*self);
        }
        self.offset = 0;
    }

    /// Seeks to a specific offset in the timeline.
    pub fn seek(&mut self, offset: usize)
        ensures
            final(self).spec_offset() == offset,
            final(self).ids() == old(self).ids(),
            final(self).spec_total_offset() == old(self).spec_total_offset(),
            final(self).threshold() == old(self).threshold(),
            final(self).window() == old(self).window(),
            final(self).channels() == old(self).channels(),
    {
        proof {
            use_type_invariant(&*self);
        }
        self.offset = offset;
    }

    /// Returns the offset of the current sink.
    pub fn current_offset(&self) -> (offset: usize)
        ensures
            offset == self.spec_offset(),
    {
        self.offset
    }

    /// Returns the total offset of the timeline.
    pub fn total_offset(&self) -> (total: usize)
        ensures
            total == self.spec_total_offset(),
    {
        self.total_offset
    }

    /// Returns the id of the currently playing sink.
    pub fn current_sink(&self) -> (current: Option<SinkId>)
        ensures
            self.ids().len() == 0 ==> current is None,
            self.ids().len() > 0 ==> current == Some(self.ids()[0]),
    {
        if self.sinks.len() == 0 {
            None
        } else {
            Some(self.sinks[0])
        }
    }

    /// Returns the sinks of the timeline, the currently playing one first.
    pub fn sink_ids(&self) -> (ids: Vec<SinkId>)
        ensures
            ids@ == self.ids(),
    {
        let mut ids: Vec<SinkId> = Vec::new();
        let mut index: usize = 0;
        while index < self.sinks.len()
            invariant
                index <= self.sinks@.len(),
                ids@ == self.sinks@.take(index as int),
            decreases self.sinks@.len() - index,
        {
            ids.push(self.sinks[index]);
            index = index + 1;
            assert(ids@ =~= self.sinks@.take(index as int));
        }
        assert(self.sinks@.take(self.sinks@.len() as int) =~= self.sinks@);
        ids
    }

    /// Returns true if the timeline is empty.
    pub fn is_empty(&self) -> (empty: bool)
        ensures
            empty == (self.ids().len() == 0),
    {
        self.sinks.len() == 0
    }
}

} // verus!
