use vstd::prelude::*;

use crate::buffer::index_within;
use crate::ext::min_int;
use crate::id::{Id, IdType};
use crate::introspection::Introspect;
use crate::sink::{Sink, SinkId};
use crate::store::SinkStore;
use crate::timeline::{
    advance_from, all_stored, lemma_advance_reads_requested, read_total, reads_as_wanted, same_first, Timeline,
    TimelinePreload, TimelineRead,
};

verus! {

/// Marks the ids of [Player]s.
#[derive(Debug, Hash)]
pub struct PlayerKind;

pub type PlayerId = Id<PlayerKind>;

#[derive(Debug, Clone, Copy, PartialEq, Eq, Structural)]
pub enum PlayerState {
    /// The player is either paused, or has nothing to play.
    /// Note that the player still processes samples even if it is in this state.
    Idle,
    /// The player is playing sinks.
    Playing,
    /// The player is waiting for a sink to load.
    Buffering,
}

impl Default for PlayerState {
    fn default() -> (state: Self)
        ensures
            state == PlayerState::Idle,
    {
        PlayerState::Idle
    }
}

/// What one processing step of a player produced.
pub struct ProcessOutcome<T> {
    /// The samples to push to the output.
    pub samples: Vec<T>,
    /// The new state of the player, if it changed.
    pub state_update: Option<PlayerState>,
    /// The player moved on from the sink it was playing: its queue should advance.
    pub advanced: bool,
    /// The offset in the current sink and the total offset of the timeline, in
    /// samples, when samples were played.
    pub time: Option<(usize, usize)>,
}

/// The samples after each read has filled the buffer from `position` on: a read
/// fills as much of the rest of the buffer as its sink holds from its offset on.
pub open spec fn mixed<T>(
    sinks: Map<u64, Sink<T>>,
    reads: Seq<TimelineRead>,
    samples: Seq<T>,
    position: int,
) -> Seq<T>
    decreases reads.len(),
{
    if reads.len() == 0 {
        samples
    } else {
        let read = reads[0];
        let ranges = sinks[read.sink_id.spec_value()].buffer().ranges();
        let found = index_within(ranges, read.offset as int);
        let requested = samples.len() - position;
        if found >= 0 {
            let amount = ranges[found].read_amount(read.offset as int, requested);
            mixed(
                sinks,
                reads.drop_first(),
                samples.take(position) + ranges[found].read_samples(read.offset as int, requested)
                    + samples.skip(position + amount),
                position + amount,
            )
        } else {
            mixed(sinks, reads.drop_first(), samples, position)
        }
    }
}

/// Filling never changes the length of the buffer: a player always produces
/// exactly as many samples as it is asked for.
pub proof fn lemma_mixed_length<T>(sinks: Map<u64, Sink<T>>, reads: Seq<TimelineRead>, samples: Seq<T>, position: int)
    requires
        0 <= position <= samples.len(),
    ensures
        mixed(sinks, reads, samples, position).len() == samples.len(),
    decreases reads.len(),
{
    if reads.len() > 0 {
        let read = reads[0];
        let ranges = sinks[read.sink_id.spec_value()].buffer().ranges();
        let found = index_within(ranges, read.offset as int);
        let requested = samples.len() - position;
        if found >= 0 {
            let range = ranges[found];
            let amount = range.read_amount(read.offset as int, requested);
            let relative_start = crate::buffer::sat_sub(read.offset as int, range.offset);
            let available = crate::buffer::sat_sub(range.len(), relative_start);
            assert(0 <= amount <= requested);
            assert(amount <= available);
            let next = samples.take(position) + range.read_samples(read.offset as int, requested)
                + samples.skip(position + amount);
            assert(range.read_samples(read.offset as int, requested).len() == amount);
            assert(next.len() == samples.len());
            lemma_mixed_length(sinks, reads.drop_first(), next, position + amount);
        } else {
            lemma_mixed_length(sinks, reads.drop_first(), samples, position);
        }
    }
}

/// The state a player is in after a processing step that read `reads` and left `remaining` sinks.
pub open spec fn state_after(reads: Seq<TimelineRead>, remaining: Seq<SinkId>) -> PlayerState {
    if reads.len() == 0 {
        if remaining.len() == 0 {
            PlayerState::Idle
        } else {
            PlayerState::Buffering
        }
    } else {
        PlayerState::Playing
    }
}

/// Every read of an advance comes from an activated, stored sink, at the offset
/// the advance started from or at the start of the sink.
proof fn lemma_advance_reads<T>(
    sinks: Map<u64, Sink<T>>,
    ids: Seq<SinkId>,
    index: int,
    playback_offset: int,
    remaining: int,
    offset: int,
)
    requires
        forall|i: int| 0 <= i < ids.len() ==> sinks.dom().contains((#[trigger] ids[i]).spec_value()),
        0 <= playback_offset <= usize::MAX,
    ensures
        ({
            let reads = advance_from(sinks, ids, index, playback_offset, remaining, offset).0;
            forall|k: int|
                0 <= k < reads.len() ==> {
                    let read = #[trigger] reads[k];
                    &&& read.offset == playback_offset || read.offset == 0
                    &&& sinks.dom().contains(read.sink_id.spec_value())
                    &&& sinks[read.sink_id.spec_value()].spec_is_activated()
                }
        }),
    decreases ids.len() - index,
{
    let outcome = advance_from(sinks, ids, index, playback_offset, remaining, offset);
    if 0 <= index < ids.len() {
        let sink = sinks[ids[index].spec_value()];
        if remaining != 0 && sink.spec_is_activated() {
            let available = sink.void_distance(playback_offset);
            let amount = min_int(available, remaining);
            let here = if amount > 0 {
                seq![
                    TimelineRead {
                        sink_id: ids[index],
                        offset: playback_offset as usize,
                        amount: amount as usize,
                    },
                ]
            } else {
                Seq::empty()
            };
            assert(sinks.dom().contains(ids[index].spec_value()));
            if !sink.spec_can_load_more() && available <= remaining {
                lemma_advance_reads(sinks, ids, index + 1, 0, remaining - amount, 0);
                let rest = advance_from(sinks, ids, index + 1, 0, remaining - amount, 0).0;
                assert(outcome.0 == here + rest);
                assert forall|k: int| here.len() <= k < outcome.0.len() implies #[trigger] outcome.0[k]
                    == rest[k - here.len()] by {}
            } else {
                assert(outcome.0 == here);
            }
        }
    }
}

/// The player is responsible for managing the playback of a [Timeline],
/// and producing the played samples.
pub struct Player {
    id: PlayerId,
    timeline: Timeline,
    state: PlayerState,
    should_play: bool,
}

impl Player {
    pub closed spec fn spec_id(&self) -> PlayerId {
        self.id
    }

    /// Returns the id of the player.
    pub fn id(&self) -> (id: PlayerId)
        ensures
            id == self.spec_id(),
    {
        self.id
    }

    pub closed spec fn spec_timeline(&self) -> Timeline {
        self.timeline
    }

    pub closed spec fn spec_state(&self) -> PlayerState {
        self.state
    }

    pub closed spec fn spec_should_play(&self) -> bool {
        self.should_play
    }

    /// The player has the same timeline as `other`.
    pub open spec fn same_timeline(&self, other: &Player) -> bool {
        &&& self.spec_timeline().ids() == other.spec_timeline().ids()
        &&& self.spec_timeline().spec_offset() == other.spec_timeline().spec_offset()
        &&& self.spec_timeline().spec_total_offset() == other.spec_timeline().spec_total_offset()
        &&& self.spec_timeline().threshold() == other.spec_timeline().threshold()
        &&& self.spec_timeline().window() == other.spec_timeline().window()
        &&& self.spec_timeline().channels() == other.spec_timeline().channels()
    }

    /// Creates an idle player with an empty timeline, which plays as soon as it has sinks.
    pub fn new(preload_threshold: usize, window_size: usize, channel_count: usize) -> (player: Self)
        ensures
            player.spec_id().spec_value() != 0,
            player.spec_timeline().ids() == Seq::<SinkId>::empty(),
            player.spec_timeline().spec_offset() == 0,
            player.spec_timeline().spec_total_offset() == 0,
            player.spec_timeline().threshold() == preload_threshold,
            player.spec_timeline().window() == window_size,
            player.spec_timeline().channels() == channel_count,
            player.spec_state() == PlayerState::Idle,
            player.spec_should_play(),
    {
        Player {
            timeline: Timeline::new(preload_threshold, window_size, channel_count),
            should_play: true,
            state: PlayerState::Idle,
            id: PlayerId::new(),
        }
    }

    /// Returns what sinks to preload.
    pub fn preload<T>(&self, store: &SinkStore<T>) -> (preloads: Vec<TimelinePreload>)
        requires
            all_stored(store, self.spec_timeline().ids()),
        ensures
            preloads@ == crate::timeline::preload_from(
                store@,
                self.spec_timeline().ids(),
                0,
                self.spec_timeline().spec_offset() as int,
                self.spec_timeline().threshold() as int,
                self.spec_timeline().threshold() as int,
            ),
    {
        self.timeline.preload(store)
    }

    /// Sets the sinks of the timeline.
    pub fn set_sinks<T>(&mut self, store: &mut SinkStore<T>, sinks: Vec<SinkId>, now: u64)
        requires
            all_stored(old(store), old(self).spec_timeline().ids()),
            all_stored(old(store), sinks@),
            crate::timeline::distinct_ids(sinks@),
            forall|i: int|
                0 <= i < sinks@.len() ==> !old(store).sink(#[trigger] sinks@[i]).guarded()
                    || crate::timeline::holds_id(old(self).spec_timeline().ids(), sinks@[i].spec_value()),
        ensures
            final(self).spec_timeline().ids() == sinks@,
            final(self).spec_timeline().spec_offset() == if same_first(
                old(self).spec_timeline().ids(),
                sinks@,
            ) {
                old(self).spec_timeline().spec_offset()
            } else {
                0
            },
            final(self).spec_timeline().spec_total_offset() == old(self).spec_timeline().spec_total_offset(),
            final(self).spec_timeline().threshold() == old(self).spec_timeline().threshold(),
            final(self).spec_timeline().window() == old(self).spec_timeline().window(),
            final(self).spec_timeline().channels() == old(self).spec_timeline().channels(),
            final(store)@ == crate::timeline::regarded(
                old(store)@,
                old(self).spec_timeline().ids(),
                sinks@,
                now,
            ),
            final(self).spec_id() == old(self).spec_id(),
            final(self).spec_state() == old(self).spec_state(),
            final(self).spec_should_play() == old(self).spec_should_play(),
    {
        self.timeline.set_sinks(store, sinks, now);
    }

    /// Processes the timeline and returns the samples to push to the output.
    /// If there are no sinks to play, or the player is paused, the samples are silence.
    pub fn process<T: Copy>(&mut self, store: &SinkStore<T>, buffer_size: usize, silence: T) -> (outcome: ProcessOutcome<T>)
        requires
            all_stored(store, old(self).spec_timeline().ids()),
            old(self).spec_timeline().spec_offset() + buffer_size <= usize::MAX,
        ensures
            ({
                let before = old(self).spec_timeline();
                let quiet = Seq::new(buffer_size as nat, |i: int| silence);
                let advanced = advance_from(
                    store@,
                    before.ids(),
                    0,
                    before.spec_offset() as int,
                    buffer_size as int,
                    before.spec_offset() as int,
                );
                let after = final(self).spec_timeline();
                let state = if old(self).spec_should_play() {
                    state_after(advanced.0, before.ids().skip(advanced.1))
                } else {
                    PlayerState::Idle
                };
                &&& final(self).spec_state() == state
                &&& outcome.state_update == if old(self).spec_state() != state {
                    Some(state)
                } else {
                    None
                }
                &&& !old(self).spec_should_play() ==> {
                    &&& outcome.samples@ == quiet
                    &&& final(self).same_timeline(old(self))
                    &&& !outcome.advanced
                    &&& outcome.time is None
                }
                &&& old(self).spec_should_play() ==> {
                    &&& outcome.samples@ == mixed(store@, advanced.0, quiet, 0)
                    &&& read_total(advanced.0) <= buffer_size
                    &&& forall|i: int| read_total(advanced.0) <= i < buffer_size ==> outcome.samples@[i] == silence
                    &&& after.ids() == before.ids().skip(advanced.1)
                    &&& after.spec_offset() == advanced.2
                    &&& after.spec_total_offset() == before.spec_total_offset().wrapping_add(
                        (buffer_size - advanced.3) as usize,
                    )
                    &&& after.threshold() == before.threshold()
                    &&& after.window() == before.window()
                    &&& after.channels() == before.channels()
                    &&& outcome.advanced == (before.ids().len() > 0 && !same_first(
                        before.ids(),
                        after.ids(),
                    ))
                    &&& outcome.time == if advanced.0.len() > 0 {
                        Some((after.spec_offset(), after.spec_total_offset()))
                    } else {
                        None
                    }
                }
            }),
            final(self).spec_id() == old(self).spec_id(),
            final(self).spec_should_play() == old(self).spec_should_play(),
    {
        let mut samples: Vec<T> = Vec::new();
        while samples.len() < buffer_size
            invariant
                samples@.len() <= buffer_size,
                forall|i: int| 0 <= i < samples@.len() ==> samples@[i] == silence,
            decreases buffer_size - samples@.len(),
        {
            samples.push(silence);
        }
        let ghost quiet = Seq::new(buffer_size as nat, |i: int| silence);
        assert(samples@ =~= quiet);

        // If the player is not supposed to play, we just push silence.
        if !self.should_play {
            let state_update = self.set_state_if_different(PlayerState::Idle);
            return ProcessOutcome { samples, state_update, advanced: false, time: None };
        }

        // Get the current sink before advancing the timeline.
        let current_sink = self.timeline.current_sink();
        let reads = self.timeline.advance(store, buffer_size);

        // If this new sink is different, we can be sure that we advanced to the next sink.
        let new_sink = self.timeline.current_sink();
        let was_empty = reads.len() == 0;

        // Update state according to the result of the reads.
        let state_update = if was_empty {
            // If the timeline is empty, we reached the end of the playback.
            if self.timeline.is_empty() {
                self.set_state_if_different(PlayerState::Idle)
            } else {
                // Otherwise, a sink is buffering at this point.
                self.set_state_if_different(PlayerState::Buffering)
            }
        } else {
            self.set_state_if_different(PlayerState::Playing)
        };

        let ghost start = old(self).spec_timeline().spec_offset() as int;
        proof {
            let ids = old(self).spec_timeline().ids();
            assert forall|i: int| 0 <= i < ids.len() implies store@.dom().contains((#[trigger] ids[i]).spec_value()) by {
                assert(store.contains(ids[i]));
            }
            lemma_advance_reads(store@, ids, 0, start, buffer_size as int, start);
            lemma_advance_reads_requested(store@, ids, 0, start, buffer_size as int, start);
            assert(reads@.take(0) =~= Seq::<TimelineRead>::empty());
        }

        let mut amount_read: usize = 0;
        let mut index: usize = 0;
        assert(reads@.skip(0) =~= reads@);
        while index < reads.len()
            invariant
                index <= reads@.len(),
                amount_read <= samples@.len(),
                samples@.len() == buffer_size,
                start + buffer_size <= usize::MAX,
                forall|k: int|
                    0 <= k < reads@.len() ==> {
                        let read = #[trigger] reads@[k];
                        &&& read.offset == start || read.offset == 0
                        &&& store@.dom().contains(read.sink_id.spec_value())
                        &&& store@[read.sink_id.spec_value()].spec_is_activated()
                    },
                mixed(store@, reads@, quiet, 0) == mixed(
                    store@,
                    reads@.skip(index as int),
                    samples@,
                    amount_read as int,
                ),
                amount_read == read_total(reads@.take(index as int)),
                read_total(reads@) <= buffer_size,
                reads_as_wanted(store@, reads@, buffer_size as int),
                forall|k: int| 0 <= k < reads@.len() ==> (#[trigger] reads@[k]).amount > 0,
                forall|i: int| amount_read <= i < buffer_size ==> samples@[i] == silence,
            decreases reads@.len() - index,
        {
            let read = &reads[index];
            let ghost before = samples@;
            let ghost position = amount_read as int;
            proof {
                assert(reads@.skip(index as int)[0] == reads@[index as int]);
                assert(reads@.skip(index as int).drop_first() =~= reads@.skip(index + 1));
            }
            match store.get(read.sink_id) {
                Some(sink) => {
                    let (_, rest) = samples.as_mut_slice().split_at_mut(amount_read);
                    let result = sink.read(read.offset, rest);
                    proof {
                        let ranges = sink.buffer().ranges();
                        let found = index_within(ranges, read.offset as int);
                        assert(read.amount == min_int(
                            sink.void_distance(read.offset as int),
                            buffer_size - read_total(reads@.take(index as int)),
                        ));
                        assert(found >= 0);
                        assert(ranges[found].within(read.offset as int));
                        assert(result.amount == read.amount);
                        assert(samples@ =~= before.take(position) + ranges[found].read_samples(
                            read.offset as int,
                            before.len() - position,
                        ) + before.skip(position + result.amount));
                        assert(reads@.take(index + 1).drop_last() =~= reads@.take(index as int));
                        assert(reads@.take(index + 1).last() == reads@[index as int]);
                    }
                    amount_read = amount_read + result.amount;
                },
                None => {
                    assert(false);
                },
            }
            index = index + 1;
        }
        proof {
            assert(reads@.skip(reads@.len() as int) =~= Seq::<TimelineRead>::empty());
            assert(reads@.take(reads@.len() as int) =~= reads@);
        }

        let advanced = match current_sink {
            Some(current) => match new_sink {
                Some(new) => current.value() != new.value(),
                None => true,
            },
            None => false,
        };

        // Report the current time and total time.
        let time = if !was_empty {
            Some((self.timeline.current_offset(), self.timeline.total_offset()))
        } else {
            None
        };

        ProcessOutcome { samples, state_update, advanced, time }
    }

    /// Clears samples that are not needed, to save memory.
    pub fn clear_superflous<T>(&self, store: &mut SinkStore<T>)
        requires
            self.spec_timeline().ids().len() > 0 ==> crate::timeline::can_clear_outside(
                old(store),
                self.spec_timeline().ids()[0],
                self.spec_timeline().spec_offset() as int,
                self.spec_timeline().window() as int,
                self.spec_timeline().channels() as int,
            ),
        ensures
            self.spec_timeline().ids().len() == 0 ==> final(store)@ == old(store)@,
            self.spec_timeline().ids().len() > 0 ==> ({
                let timeline = self.spec_timeline();
                let key = timeline.ids()[0].spec_value();
                let start = crate::buffer::sat_sub(timeline.spec_offset() as int, timeline.window() as int);
                let end = timeline.spec_offset() + timeline.window();
                let cleared = final(store)@[key];
                let previous = old(store)@[key];
                &&& final(store)@ == old(store)@.insert(key, cleared)
                &&& cleared.spec_is_activated()
                &&& cleared.buffer().ranges() == crate::buffer::merge_all(
                    crate::buffer::retained_all(previous.buffer().ranges(), start, end, timeline.channels() as int),
                )
                &&& cleared.buffer().expected() == previous.buffer().expected()
                &&& cleared.same_flags(&previous)
                &&& cleared.interacted_at() == previous.interacted_at()
            }),
    {
        self.timeline.clear_superflous(store);
    }

    /// Returns true if `clear_superflous` can clear the current sink, or there is none.
    pub fn can_clear_superflous<T>(&self, store: &SinkStore<T>) -> (possible: bool)
        ensures
            possible == (self.spec_timeline().ids().len() > 0 ==> crate::timeline::can_clear_outside(
                store,
                self.spec_timeline().ids()[0],
                self.spec_timeline().spec_offset() as int,
                self.spec_timeline().window() as int,
                self.spec_timeline().channels() as int,
            )),
    {
        self.timeline.can_clear_superflous(store)
    }

    /// Starts playback if possible.
    pub fn play(&mut self)
        ensures
            final(self).spec_should_play(),
            final(self).same_timeline(old(self)),
            final(self).spec_state() == old(self).spec_state(),
            final(self).spec_id() == old(self).spec_id(),
    {
        self.should_play = true;
    }

    /// Pauses playback.
    pub fn pause(&mut self)
        ensures
            !final(self).spec_should_play(),
            final(self).same_timeline(old(self)),
            final(self).spec_state() == old(self).spec_state(),
            final(self).spec_id() == old(self).spec_id(),
    {
        self.should_play = false;
    }

    /// Seeks to a specific offset in the current sink.
    pub fn seek(&mut self, offset: usize)
        ensures
            final(self).spec_timeline().spec_offset() == offset,
            final(self).spec_timeline().ids() == old(self).spec_timeline().ids(),
            final(self).spec_timeline().spec_total_offset() == old(self).spec_timeline().spec_total_offset(),
            final(self).spec_timeline().threshold() == old(self).spec_timeline().threshold(),
            final(self).spec_timeline().window() == old(self).spec_timeline().window(),
            final(self).spec_timeline().channels() == old(self).spec_timeline().channels(),
            final(self).spec_should_play() == old(self).spec_should_play(),
            final(self).spec_state() == old(self).spec_state(),
            final(self).spec_id() == old(self).spec_id(),
    {
        self.timeline.seek(offset);
    }

    /// Returns the offset of the current sink, in samples.
    pub fn current_offset(&self) -> (offset: usize)
        ensures
            offset == self.spec_timeline().spec_offset(),
    {
        self.timeline.current_offset()
    }

    /// Returns the total offset of the timeline, in samples.
    pub fn current_total_offset(&self) -> (total: usize)
        ensures
            total == self.spec_timeline().spec_total_offset(),
    {
        self.timeline.total_offset()
    }

    /// Returns the currently playing sink.
    pub fn current_sink(&self) -> (current: Option<SinkId>)
        ensures
            self.spec_timeline().ids().len() == 0 ==> current is None,
            self.spec_timeline().ids().len() > 0 ==> current == Some(self.spec_timeline().ids()[0]),
    {
        self.timeline.current_sink()
    }

    /// Returns the current state of the player.
    pub fn current_state(&self) -> (state: PlayerState)
        ensures
            state == self.spec_state(),
    {
        self.state
    }

    /// Sets the state, and returns it when it differs from the previous one.
    fn set_state_if_different(&mut self, state: PlayerState) -> (update: Option<PlayerState>)
        ensures
            final(self).spec_state() == state,
            update == if old(self).spec_state() != state { Some(state) } else { None },
            final(self).same_timeline(old(self)),
            final(self).spec_should_play() == old(self).spec_should_play(),
            final(self).spec_id() == old(self).spec_id(),
    {
        if self.state != state {
            self.state = state;
            Some(state)
        } else {
            None
        }
    }
}

/// A description of a timeline's state.
#[derive(Debug)]
pub struct TimelineIntrospection {
    pub offset: usize,
    pub total_offset: usize,
    pub sinks: Vec<IdType>,
}

#[derive(Debug)]
pub struct PlayerIntrospection {
    pub id: IdType,
    pub state: PlayerState,
    pub should_play: bool,
    pub timeline: TimelineIntrospection,
}

impl Introspect<TimelineIntrospection> for Timeline {
    fn introspect(&self) -> (introspection: TimelineIntrospection)
        ensures
            introspection.offset == self.spec_offset(),
            introspection.total_offset == self.spec_total_offset(),
            introspection.sinks@.len() == self.ids().len(),
            forall|i: int| 0 <= i < self.ids().len() ==> introspection.sinks@[i] == (#[trigger] self.ids()[i]).spec_value(),
    {
        let sinks = self.sink_ids();
        let mut values: Vec<IdType> = Vec::new();
        let mut index: usize = 0;
        while index < sinks.len()
            invariant
                sinks@ == self.ids(),
                index <= sinks@.len(),
                values@.len() == index,
                forall|i: int| 0 <= i < index ==> values@[i] == (#[trigger] sinks@[i]).spec_value(),
            decreases sinks@.len() - index,
        {
            values.push(sinks[index].value());
            index = index + 1;
        }
        TimelineIntrospection {
            offset: self.current_offset(),
            total_offset: self.total_offset(),
            sinks: values,
        }
    }
}

impl Introspect<PlayerIntrospection> for Player {
    fn introspect(&self) -> (introspection: PlayerIntrospection)
        ensures
            introspection.id == self.spec_id().spec_value(),
            introspection.state == self.spec_state(),
            introspection.should_play == self.spec_should_play(),
            introspection.timeline.offset == self.spec_timeline().spec_offset(),
            introspection.timeline.total_offset == self.spec_timeline().spec_total_offset(),
    {
        PlayerIntrospection {
            id: self.id.value(),
            state: self.state,
            should_play: self.should_play,
            timeline: self.timeline.introspect(),
        }
    }
}

} // verus!
