use vstd::prelude::*;

use crate::buffer::{
    can_retain_all, index_within, merge_all, retained_all, sat_sub, written, BufferRead,
    BufferVoidDistance, MultiRangeBuffer, RangeView,
};
use crate::id::Id;

verus! {

/// Marks the ids of [Sink]s.
#[derive(Debug, Hash)]
pub struct SinkKind;

pub type SinkId = Id<SinkKind>;

/// How many seconds a sink must go without interaction before it can be cleared.
pub const CLEARABLE_AFTER_SECS: u64 = 180;

/// Represents the load state of a [Sink].
#[derive(Debug, Clone, PartialEq, Eq)]
pub enum SinkLoadState {
    /// The sink finished loading or hasn't started loading yet.
    Idle,
    /// The ingestion is loading samples into the sink.
    Loading,
    /// The ingestion has finished loading samples into the sink and there is no more data to load.
    ///
    /// If the sink is in this state, it will be skipped by the player when it encounters a void.
    Sealed,
    /// Something went wrong with the sink, or the ingestion loading into it.
    ///
    /// If the sink is in this state, it will be skipped by the player when it encounters a void.
    Error(String),
}

/// The load states as values that can be compared in contracts.
pub enum LoadStateView {
    Idle,
    Loading,
    Sealed,
    Error(Seq<char>),
}

impl View for SinkLoadState {
    type V = LoadStateView;

    open spec fn view(&self) -> LoadStateView {
        match self {
            SinkLoadState::Idle => LoadStateView::Idle,
            SinkLoadState::Loading => LoadStateView::Loading,
            SinkLoadState::Sealed => LoadStateView::Sealed,
            SinkLoadState::Error(message) => LoadStateView::Error(message@),
        }
    }
}

fn copy_load_state(state: &SinkLoadState) -> (copy: SinkLoadState)
    ensures
        copy@ == state@,
{
    match state {
        SinkLoadState::Idle => SinkLoadState::Idle,
        SinkLoadState::Loading => SinkLoadState::Loading,
        SinkLoadState::Sealed => SinkLoadState::Sealed,
        SinkLoadState::Error(message) => SinkLoadState::Error(message.clone()),
    }
}

fn same_load_state(a: &SinkLoadState, b: &SinkLoadState) -> (same: bool)
    ensures
        same == (a@ == b@),
{
    match (a, b) {
        (SinkLoadState::Idle, SinkLoadState::Idle) => true,
        (SinkLoadState::Loading, SinkLoadState::Loading) => true,
        (SinkLoadState::Sealed, SinkLoadState::Sealed) => true,
        (SinkLoadState::Error(x), SinkLoadState::Error(y)) => {
            let equal = x.as_str().unicode_len() == y.as_str().unicode_len() && same_chars(x, y);
            equal
        },
        _ => false,
    }
}

fn same_chars(x: &String, y: &String) -> (same: bool)
    ensures
        same == (x@ == y@),
{
    let a = x.as_str();
    let b = y.as_str();
    let n = a.unicode_len();
    if n != b.unicode_len() {
        return false;
    }
    let mut i: usize = 0;
    while i < n
        invariant
            n == a@.len(),
            n == b@.len(),
            a@ == x@,
            b@ == y@,
            i <= n,
            forall|k: int| 0 <= k < i ==> a@[k] == b@[k],
        decreases n - i,
    {
        if a.get_char(i) != b.get_char(i) {
            return false;
        }
        i = i + 1;
    }
    assert(a@ =~= b@);
    true
}

/// Represents the activation state of a sink
pub enum SinkActivation<T> {
    /// The sink has been prepared
    Inactive,
    /// The sink is currently being activated
    Activating,
    /// The sink has been successfully activated and is ready to be loaded to
    Activated(MultiRangeBuffer<T>),
    /// An error occurred with sink activation and the sink will be skipped
    Error(String),
}

/// A sink's load state changed.
pub struct LoadStateUpdate {
    pub sink_id: SinkId,
    pub new_state: SinkLoadState,
}

/// Represents a source of samples that can be played by a player.
pub struct Sink<T> {
    id: SinkId,
    activation: SinkActivation<T>,
    /// The current load state of the sink.
    load_state: SinkLoadState,
    /// Whether a guard has been created and exists somewhere.
    has_guard: bool,
    /// Whether an activation guard has been created and exists somewhere.
    has_activation_guard: bool,
    /// Whether a write reference has been created and exists somewhere.
    has_write_ref: bool,
    /// When the sink was last interacted with, in seconds of the caller's clock.
    last_interaction: u64,
}

impl<T> Sink<T> {
    pub closed spec fn spec_id(&self) -> SinkId {
        self.id
    }

    /// Returns the id of the sink.
    pub fn id(&self) -> (id: SinkId)
        ensures
            id == self.spec_id(),
    {
        self.id
    }

    /// The sink with its guard flag set to `guarded`, interacted with at `now`.
    pub closed spec fn guarded_as(self, guarded: bool, now: u64) -> Sink<T> {
        Sink {
            id: self.id,
            activation: self.activation,
            load_state: self.load_state,
            has_guard: guarded,
            has_activation_guard: self.has_activation_guard,
            has_write_ref: self.has_write_ref,
            last_interaction: now,
        }
    }

    pub broadcast proof fn lemma_guarded_as(self, guarded: bool, now: u64)
        ensures
            #[trigger] self.guarded_as(guarded, now).guarded() == guarded,
            self.guarded_as(guarded, now).interacted_at() == now,
            self.guarded_as(guarded, now).spec_id() == self.spec_id(),
            self.guarded_as(guarded, now).activation() == self.activation(),
            self.guarded_as(guarded, now).spec_load_state() == self.spec_load_state(),
            self.guarded_as(guarded, now).activation_guarded() == self.activation_guarded(),
            self.guarded_as(guarded, now).write_referenced() == self.write_referenced(),
    {
    }

    pub proof fn lemma_guarded_twice(self, first: bool, first_at: u64, second: bool, second_at: u64)
        ensures
            self.guarded_as(first, first_at).guarded_as(second, second_at) == self.guarded_as(second, second_at),
    {
    }

    pub closed spec fn activation(&self) -> &SinkActivation<T> {
        &self.activation
    }

    pub closed spec fn spec_load_state(&self) -> LoadStateView {
        self.load_state@
    }

    pub closed spec fn guarded(&self) -> bool {
        self.has_guard
    }

    pub closed spec fn activation_guarded(&self) -> bool {
        self.has_activation_guard
    }

    pub closed spec fn write_referenced(&self) -> bool {
        self.has_write_ref
    }

    pub closed spec fn interacted_at(&self) -> u64 {
        self.last_interaction
    }

    pub open spec fn spec_is_activated(&self) -> bool {
        self.activation() is Activated
    }

    /// The buffer of an activated sink.
    pub open spec fn buffer(&self) -> MultiRangeBuffer<T> {
        match self.activation() {
            SinkActivation::Activated(buffer) => *buffer,
            _ => arbitrary(),
        }
    }

    /// How many samples can be read from `offset` before a void.
    pub open spec fn void_distance(&self, offset: int) -> int {
        let ranges = self.buffer().ranges();
        let found = index_within(ranges, offset);
        if found >= 0 {
            ranges[found].end() + 1 - offset
        } else {
            0
        }
    }

    /// How many expected samples are left from `offset`; `usize::MAX` if the end is unknown.
    pub open spec fn end_distance(&self, offset: int) -> int {
        match self.buffer().expected() {
            Some(expected) => sat_sub(expected as int, offset),
            None => usize::MAX as int,
        }
    }

    /// The sink went three minutes without interaction and nothing holds it.
    pub open spec fn spec_is_clearable(&self, now: u64) -> bool {
        &&& sat_sub(now as int, self.interacted_at() as int) >= CLEARABLE_AFTER_SECS
        &&& !self.guarded()
        &&& !self.write_referenced()
    }

    pub open spec fn spec_can_load_more(&self) -> bool {
        self.spec_load_state() is Idle || self.spec_load_state() is Loading
    }

    /// A sink can load more samples until it is finished: only a sealed sink,
    /// which holds all its samples, or a failed one cannot. In particular a sink
    /// that is being loaded, or that has not started loading, can.
    pub proof fn lemma_can_load_more_until_finished(&self)
        ensures
            self.spec_can_load_more() <==> !(self.spec_load_state() is Sealed || self.spec_load_state() is Error),
            self.spec_load_state() is Loading ==> self.spec_can_load_more(),
            self.spec_load_state() is Idle ==> self.spec_can_load_more(),
    {
    }

    /// All of the sink's state but its activation is as in `other`.
    pub open spec fn same_flags(&self, other: &Sink<T>) -> bool {
        &&& self.spec_id() == other.spec_id()
        &&& self.spec_load_state() == other.spec_load_state()
        &&& self.guarded() == other.guarded()
        &&& self.activation_guarded() == other.activation_guarded()
        &&& self.write_referenced() == other.write_referenced()
    }

    /// Creates a new inactive sink
    pub fn prepare(now: u64) -> (sink: Self)
        ensures
            sink.spec_id().spec_value() != 0,
            sink.activation() is Inactive,
            sink.spec_load_state() is Idle,
            !sink.guarded(),
            !sink.activation_guarded(),
            !sink.write_referenced(),
            sink.interacted_at() == now,
    {
        Self::inactive(SinkId::new(), now)
    }

    /// Creates a new inactive sink with the given id.
    pub(crate) fn inactive(id: SinkId, now: u64) -> (sink: Self)
        ensures
            sink.spec_id() == id,
            sink.activation() is Inactive,
            sink.spec_load_state() is Idle,
            !sink.guarded(),
            !sink.activation_guarded(),
            !sink.write_referenced(),
            sink.interacted_at() == now,
    {
        Sink {
            id,
            activation: SinkActivation::Inactive,
            load_state: SinkLoadState::Idle,
            has_guard: false,
            has_activation_guard: false,
            has_write_ref: false,
            last_interaction: now,
        }
    }

    /// Creates a new sink that is activated immediately
    pub fn with_activation(expected_length: Option<usize>, now: u64) -> (sink: Self)
        ensures
            sink.spec_id().spec_value() != 0,
            sink.spec_is_activated(),
            sink.buffer().ranges() == Seq::<RangeView<T>>::empty(),
            sink.buffer().expected() == expected_length,
            sink.spec_load_state() is Idle,
            !sink.guarded(),
            !sink.activation_guarded(),
            !sink.write_referenced(),
            sink.interacted_at() == now,
    {
        let mut sink = Self::prepare(now);
        sink.activation = SinkActivation::Activated(MultiRangeBuffer::new(expected_length));
        sink
    }

    /// Marks the sink as held by a timeline.
    pub fn guard(&mut self, now: u64)
        requires
            !old(self).guarded(),
        ensures
            *final(self) == old(self).guarded_as(true, now),
            final(self).guarded(),
            final(self).interacted_at() == now,
            final(self).activation() == old(self).activation(),
            final(self).spec_id() == old(self).spec_id(),
            final(self).spec_load_state() == old(self).spec_load_state(),
            final(self).activation_guarded() == old(self).activation_guarded(),
            final(self).write_referenced() == old(self).write_referenced(),
    {
        self.has_guard = true;
        self.last_interaction = now;
    }

    /// Marks the sink as released by its timeline.
    pub fn clear_guard(&mut self, now: u64)
        ensures
            *final(self) == old(self).guarded_as(false, now),
            !final(self).guarded(),
            final(self).interacted_at() == now,
            final(self).activation() == old(self).activation(),
            final(self).spec_id() == old(self).spec_id(),
            final(self).spec_load_state() == old(self).spec_load_state(),
            final(self).activation_guarded() == old(self).activation_guarded(),
            final(self).write_referenced() == old(self).write_referenced(),
    {
        self.has_guard = false;
        self.last_interaction = now;
    }

    /// Starts activation: the sink is activating until the activation is finished or failed.
    pub fn activate(&mut self, now: u64)
        requires
            old(self).activation() is Inactive || old(self).activation() is Error,
            !old(self).activation_guarded(),
        ensures
            final(self).activation() is Activating,
            final(self).activation_guarded(),
            final(self).interacted_at() == now,
            final(self).spec_id() == old(self).spec_id(),
            final(self).spec_load_state() == old(self).spec_load_state(),
            final(self).guarded() == old(self).guarded(),
            final(self).write_referenced() == old(self).write_referenced(),
    {
        self.has_activation_guard = true;
        self.last_interaction = now;
        self.activation = SinkActivation::Activating;
    }

    /// Finishes the activation: the sink holds an empty buffer of the expected length.
    pub fn finish_activation(&mut self, expected_length: Option<usize>)
        ensures
            final(self).spec_is_activated(),
            final(self).buffer().ranges() == Seq::<RangeView<T>>::empty(),
            final(self).buffer().expected() == expected_length,
            final(self).same_flags(old(self)),
            final(self).interacted_at() == old(self).interacted_at(),
    {
        self.activation = SinkActivation::Activated(MultiRangeBuffer::new(expected_length));
    }

    /// Fails the activation with the given reason.
    pub fn fail_activation(&mut self, reason: &str)
        ensures
            (final(self).activation() matches SinkActivation::Error(message) && message@ == reason@),
            final(self).same_flags(old(self)),
            final(self).interacted_at() == old(self).interacted_at(),
    {
        self.activation = SinkActivation::Error(reason.to_owned());
    }

    /// Marks the activation as no longer held.
    pub fn clear_activation_guard(&mut self, now: u64)
        ensures
            !final(self).activation_guarded(),
            final(self).interacted_at() == now,
            final(self).activation() == old(self).activation(),
            final(self).spec_id() == old(self).spec_id(),
            final(self).spec_load_state() == old(self).spec_load_state(),
            final(self).guarded() == old(self).guarded(),
            final(self).write_referenced() == old(self).write_referenced(),
    {
        self.has_activation_guard = false;
        self.last_interaction = now;
    }

    /// Reads samples from the sink at the given offset.
    pub fn read(&self, offset: usize, buf: &mut [T]) -> (result: BufferRead)
        where T: Copy
        requires
            self.spec_is_activated(),
            offset + old(buf)@.len() <= usize::MAX,
        ensures
            ({
                let ranges = self.buffer().ranges();
                let found = index_within(ranges, offset as int);
                &&& found >= 0 ==> ranges[found].len() > 0
                &&& found >= 0 ==> result.amount == ranges[found].read_amount(offset as int, old(buf)@.len() as int)
                &&& found >= 0 ==> final(buf)@ == ranges[found].read_samples(offset as int, old(buf)@.len() as int)
                    + old(buf)@.skip(result.amount as int)
                &&& found < 0 ==> result.amount == 0 && final(buf)@ == old(buf)@
            }),
    {
        match &self.activation {
            SinkActivation::Activated(buffer) => buffer.read(offset, buf),
            _ => {
                assert(false);
                BufferRead { amount: 0, end: crate::buffer::BufferReadEnd::Gap }
            },
        }
    }

    /// Takes the sink's write reference: the sink is loading until it is released.
    pub fn write(&mut self, now: u64) -> (update: Option<LoadStateUpdate>)
        requires
            !old(self).write_referenced(),
            old(self).spec_load_state() is Idle,
        ensures
            final(self).write_referenced(),
            final(self).spec_load_state() is Loading,
            final(self).spec_can_load_more(),
            (update matches Some(u) && u.sink_id == old(self).spec_id() && u.new_state@ is Loading),
            final(self).interacted_at() == now,
            final(self).activation() == old(self).activation(),
            final(self).spec_id() == old(self).spec_id(),
            final(self).guarded() == old(self).guarded(),
            final(self).activation_guarded() == old(self).activation_guarded(),
    {
        self.has_write_ref = true;
        let update = self.set_load_state(SinkLoadState::Loading);
        self.last_interaction = now;
        update
    }

    /// Releases the write reference; a sink that is still loading becomes idle.
    pub fn clear_write_ref(&mut self, now: u64) -> (update: Option<LoadStateUpdate>)
        ensures
            !final(self).write_referenced(),
            old(self).spec_load_state() is Loading ==> (final(self).spec_load_state() is Idle
                && (update matches Some(u) && u.sink_id == old(self).spec_id() && u.new_state@ is Idle)),
            !(old(self).spec_load_state() is Loading) ==> (final(self).spec_load_state() == old(self).spec_load_state()
                && update is None),
            final(self).interacted_at() == now,
            final(self).activation() == old(self).activation(),
            final(self).spec_id() == old(self).spec_id(),
            final(self).guarded() == old(self).guarded(),
            final(self).activation_guarded() == old(self).activation_guarded(),
    {
        let update = if same_load_state(&self.load_state, &SinkLoadState::Loading) {
            self.set_load_state(SinkLoadState::Idle)
        } else {
            None
        };
        self.has_write_ref = false;
        self.last_interaction = now;
        update
    }

    /// Writes samples to the sink at the given offset, through its write reference.
    pub fn write_samples(&mut self, offset: usize, samples: &[T])
        where T: Copy
        requires
            old(self).write_referenced(),
            old(self).spec_is_activated(),
            old(self).buffer().write_fits(offset as int, samples@.len() as int),
        ensures
            final(self).spec_is_activated(),
            final(self).buffer().ranges() == merge_all(written(old(self).buffer().ranges(), offset as int, samples@)),
            samples@.len() > 0 ==> crate::buffer::reads_back(final(self).buffer().ranges(), offset as int, samples@),
            final(self).buffer().expected() == old(self).buffer().expected(),
            final(self).same_flags(old(self)),
            final(self).interacted_at() == old(self).interacted_at(),
    {
        let mut activation = SinkActivation::Inactive;
        std::mem::swap(&mut activation, &mut self.activation);
        match activation {
            SinkActivation::Activated(mut buffer) => {
                buffer.write(offset, samples);
                self.activation = SinkActivation::Activated(buffer);
            },
            _ => {
                assert(false);
            },
        }
    }

    /// Seals the sink.
    pub fn seal(&mut self) -> (update: Option<LoadStateUpdate>)
        ensures
            final(self).spec_load_state() is Sealed,
            update is Some <==> !(old(self).spec_load_state() is Sealed),
            update matches Some(u) ==> u.sink_id == old(self).spec_id() && u.new_state@ is Sealed,
            final(self).activation() == old(self).activation(),
            final(self).spec_id() == old(self).spec_id(),
            final(self).guarded() == old(self).guarded(),
            final(self).activation_guarded() == old(self).activation_guarded(),
            final(self).write_referenced() == old(self).write_referenced(),
            final(self).interacted_at() == old(self).interacted_at(),
    {
        self.set_load_state(SinkLoadState::Sealed)
    }

    /// Sets the sink to the given error state.
    pub fn error(&mut self, error: String) -> (update: Option<LoadStateUpdate>)
        ensures
            final(self).spec_load_state() == LoadStateView::Error(error@),
            update is Some <==> old(self).spec_load_state() != LoadStateView::Error(error@),
            update matches Some(u) ==> u.sink_id == old(self).spec_id() && u.new_state@ == LoadStateView::Error(error@),
            final(self).activation() == old(self).activation(),
            final(self).spec_id() == old(self).spec_id(),
            final(self).guarded() == old(self).guarded(),
            final(self).activation_guarded() == old(self).activation_guarded(),
            final(self).write_referenced() == old(self).write_referenced(),
            final(self).interacted_at() == old(self).interacted_at(),
    {
        self.set_load_state(SinkLoadState::Error(error))
    }

    pub fn load_state(&self) -> (state: SinkLoadState)
        ensures
            state@ == self.spec_load_state(),
    {
        copy_load_state(&self.load_state)
    }

    /// Returns how many samples are left in the sink until a void at the given offset.
    pub fn distance_from_void(&self, offset: usize) -> (distance: BufferVoidDistance)
        requires
            self.spec_is_activated(),
        ensures
            ({
                let ranges = self.buffer().ranges();
                let found = index_within(ranges, offset as int);
                &&& found >= 0 ==> distance.distance == ranges[found].end() + 1 - offset
                    && distance.is_end == (found + 1 >= ranges.len())
                &&& found < 0 ==> distance.distance == 0 && !distance.is_end
            }),
            distance.distance == self.void_distance(offset as int),
            offset + distance.distance <= usize::MAX,
    {
        match &self.activation {
            SinkActivation::Activated(buffer) => buffer.distance_from_void(offset),
            _ => {
                assert(false);
                BufferVoidDistance { distance: 0, is_end: false }
            },
        }
    }

    /// Returns how many expected samples are left from the given offset.
    pub fn distance_from_end(&self, offset: usize) -> (distance: usize)
        requires
            self.spec_is_activated(),
        ensures
            distance == self.end_distance(offset as int),
    {
        match &self.activation {
            SinkActivation::Activated(buffer) => buffer.distance_from_end(offset),
            _ => {
                assert(false);
                0
            },
        }
    }

    /// Clears the samples in the sink outside the given window.
    pub fn clear_outside(&mut self, offset: usize, window: usize, chunk_size: usize)
        requires
            old(self).spec_is_activated(),
            offset + window <= usize::MAX,
            can_retain_all(
                old(self).buffer().ranges(),
                sat_sub(offset as int, window as int),
                offset + window,
                chunk_size as int,
            ),
        ensures
            final(self).spec_is_activated(),
            final(self).buffer().ranges() == merge_all(retained_all(
                old(self).buffer().ranges(),
                sat_sub(offset as int, window as int),
                offset + window,
                chunk_size as int,
            )),
            final(self).buffer().expected() == old(self).buffer().expected(),
            final(self).same_flags(old(self)),
            final(self).interacted_at() == old(self).interacted_at(),
    {
        let mut activation = SinkActivation::Inactive;
        std::mem::swap(&mut activation, &mut self.activation);
        match activation {
            SinkActivation::Activated(mut buffer) => {
                buffer.retain_window(offset, window, chunk_size);
                self.activation = SinkActivation::Activated(buffer);
            },
            _ => {
                assert(false);
            },
        }
    }

    /// Returns true if the sink is activated and its samples outside the window can be cleared.
    pub fn can_clear_outside(&self, offset: usize, window: usize, chunk_size: usize) -> (possible: bool)
        ensures
            possible == (self.spec_is_activated() && offset + window <= usize::MAX && can_retain_all(
                self.buffer().ranges(),
                sat_sub(offset as int, window as int),
                offset + window,
                chunk_size as int,
            )),
    {
        match &self.activation {
            SinkActivation::Activated(buffer) => buffer.can_retain_window(offset, window, chunk_size),
            _ => false,
        }
    }

    /// Returns the expected length of the sink. [None] if unknown.
    pub fn expected_length(&self) -> (expected: Option<usize>)
        requires
            self.spec_is_activated(),
        ensures
            expected == self.buffer().expected(),
    {
        match &self.activation {
            SinkActivation::Activated(buffer) => buffer.expected_length(),
            _ => {
                assert(false);
                None
            },
        }
    }

    /// Returns true if a timeline holds the sink.
    pub fn is_guarded(&self) -> (guarded: bool)
        ensures
            guarded == self.guarded(),
    {
        self.has_guard
    }

    /// Returns true if the sink is being activated.
    pub fn has_activation_guard(&self) -> (guarded: bool)
        ensures
            guarded == self.activation_guarded(),
    {
        self.has_activation_guard
    }

    /// Returns true if the sink's write reference is taken.
    pub fn has_write_ref(&self) -> (taken: bool)
        ensures
            taken == self.write_referenced(),
    {
        self.has_write_ref
    }

    /// Returns true if the sink can still be loaded into.
    pub fn can_load_more(&self) -> (loadable: bool)
        ensures
            loadable == self.spec_can_load_more(),
    {
        match self.load_state {
            SinkLoadState::Loading | SinkLoadState::Idle => true,
            _ => false,
        }
    }

    /// Returns true if the sink is inactive
    pub fn is_activatable(&self) -> (activatable: bool)
        ensures
            activatable == self.activation() is Inactive,
    {
        match self.activation {
            SinkActivation::Inactive => true,
            _ => false,
        }
    }

    /// Returns true if the sink is activated and can be read from
    pub fn is_activated(&self) -> (activated: bool)
        ensures
            activated == self.spec_is_activated(),
    {
        match self.activation {
            SinkActivation::Activated(_) => true,
            _ => false,
        }
    }

    /// Returns true if the sink can be cleared from memory: it went three
    /// minutes without interaction and nothing holds it.
    pub fn is_clearable(&self, now: u64) -> (clearable: bool)
        ensures
            clearable == self.spec_is_clearable(now),
    {
        let elapsed_secs = now.saturating_sub(self.last_interaction);

        // Three minutes should be enough to clear sinks before too much memory is used.
        if elapsed_secs < CLEARABLE_AFTER_SECS {
            return false;
        }

        !self.has_guard && !self.has_write_ref
    }

    /// Sets the load state; returns the update when the state changed.
    fn set_load_state(&mut self, state: SinkLoadState) -> (update: Option<LoadStateUpdate>)
        ensures
            final(self).spec_load_state() == state@,
            update is Some <==> old(self).spec_load_state() != state@,
            update matches Some(u) ==> u.sink_id == old(self).spec_id() && u.new_state@ == state@,
            final(self).activation() == old(self).activation(),
            final(self).spec_id() == old(self).spec_id(),
            final(self).guarded() == old(self).guarded(),
            final(self).activation_guarded() == old(self).activation_guarded(),
            final(self).write_referenced() == old(self).write_referenced(),
            final(self).interacted_at() == old(self).interacted_at(),
    {
        if !same_load_state(&self.load_state, &state) {
            let update = LoadStateUpdate { sink_id: self.id, new_state: copy_load_state(&state) };
            self.load_state = state;
            Some(update)
        } else {
            self.load_state = state;
            None
        }
    }
}

} // verus!
