use vstd::prelude::*;

use crate::sink::{LoadStateUpdate, LoadStateView, Sink, SinkId};
use crate::timeline::{distinct_ids, holds_id};

verus! {

/// The key under which a sink is stored: the value of its id.
pub open spec fn key_of<T>(sink: Sink<T>) -> u64 {
    sink.spec_id().spec_value()
}

pub open spec fn has_key<T>(sinks: Seq<Sink<T>>, key: u64) -> bool {
    exists|i: int| 0 <= i < sinks.len() && #[trigger] key_of(sinks[i]) == key
}

pub open spec fn distinct_keys<T>(sinks: Seq<Sink<T>>) -> bool {
    forall|i: int, j: int|
        0 <= i < sinks.len() && 0 <= j < sinks.len() && i != j ==> key_of(#[trigger] sinks[i])
            != key_of(#[trigger] sinks[j])
}

spec fn index_of_key<T>(sinks: Seq<Sink<T>>, key: u64) -> int {
    choose|i: int| 0 <= i < sinks.len() && #[trigger] key_of(sinks[i]) == key
}

/// The sinks of a sequence, keyed by the value of their ids.
pub closed spec fn keyed<T>(sinks: Seq<Sink<T>>) -> Map<u64, Sink<T>> {
    Map::new(|key: u64| has_key(sinks, key), |key: u64| sinks[index_of_key(sinks, key)])
}

proof fn lemma_keyed_index<T>(sinks: Seq<Sink<T>>, i: int)
    requires
        distinct_keys(sinks),
        0 <= i < sinks.len(),
    ensures
        keyed(sinks).dom().contains(key_of(sinks[i])),
        keyed(sinks)[key_of(sinks[i])] == sinks[i],
{
    let key = key_of(sinks[i]);
    assert(has_key(sinks, key));
    let j = index_of_key(sinks, key);
    assert(key_of(sinks[j]) == key);
}

/// Sinks with distinct keys are as many as their keys.
proof fn lemma_keyed_len<T>(sinks: Seq<Sink<T>>)
    requires
        distinct_keys(sinks),
    ensures
        keyed(sinks).dom().len() == sinks.len(),
{
    let keys = sinks.map_values(|sink: Sink<T>| key_of(sink));
    assert(keys.no_duplicates()) by {
        assert forall|i: int, j: int| 0 <= i < keys.len() && 0 <= j < keys.len() && i != j implies keys[i]
            != keys[j] by {
            assert(keys[i] == key_of(sinks[i]) && keys[j] == key_of(sinks[j]));
        }
    }
    keys.unique_seq_to_set();
    assert(keyed(sinks).dom() =~= keys.to_set()) by {
        assert forall|key: u64| keyed(sinks).dom().contains(key) <==> keys.to_set().contains(key) by {
            if has_key(sinks, key) {
                let i = choose|i: int| 0 <= i < sinks.len() && #[trigger] key_of(sinks[i]) == key;
                assert(keys[i] == key);
                assert(keys.contains(key));
            }
            if keys.to_set().contains(key) {
                assert(keys.contains(key));
                let i = choose|i: int| 0 <= i < keys.len() && keys[i] == key;
                assert(key_of(sinks[i]) == key);
            }
        }
    }
}

proof fn lemma_keyed_update<T>(sinks: Seq<Sink<T>>, i: int, sink: Sink<T>)
    requires
        distinct_keys(sinks),
        0 <= i < sinks.len(),
        key_of(sink) == key_of(sinks[i]),
    ensures
        distinct_keys(sinks.update(i, sink)),
        keyed(sinks.update(i, sink)) == keyed(sinks).insert(key_of(sink), sink),
{
    let updated = sinks.update(i, sink);
    assert(distinct_keys(updated)) by {
        assert forall|a: int, b: int|
            0 <= a < updated.len() && 0 <= b < updated.len() && a != b implies key_of(
            #[trigger] updated[a],
        ) != key_of(#[trigger] updated[b]) by {
            assert(key_of(updated[a]) == key_of(sinks[a]));
            assert(key_of(updated[b]) == key_of(sinks[b]));
        }
    }
    let expected = keyed(sinks).insert(key_of(sink), sink);
    assert forall|key: u64| #[trigger] keyed(updated).dom().contains(key) <==> expected.dom().contains(
        key,
    ) by {
        if has_key(updated, key) {
            let j = choose|j: int| 0 <= j < updated.len() && #[trigger] key_of(updated[j]) == key;
            if j != i {
                assert(key_of(sinks[j]) == key);
            }
        }
        if has_key(sinks, key) {
            let j = choose|j: int| 0 <= j < sinks.len() && #[trigger] key_of(sinks[j]) == key;
            assert(key_of(updated[j]) == key);
        }
        if key == key_of(sink) {
            assert(key_of(updated[i]) == key);
        }
    }
    assert forall|key: u64| #[trigger] keyed(updated).dom().contains(key) implies keyed(updated)[key]
        == expected[key] by {
        let j = choose|j: int| 0 <= j < updated.len() && #[trigger] key_of(updated[j]) == key;
        lemma_keyed_index(updated, j);
        if j != i {
            lemma_keyed_index(sinks, j);
        }
    }
    assert(keyed(updated) =~= expected);
}

proof fn lemma_keyed_remove<T>(sinks: Seq<Sink<T>>, i: int)
    requires
        distinct_keys(sinks),
        0 <= i < sinks.len(),
    ensures
        distinct_keys(sinks.remove(i)),
        keyed(sinks.remove(i)) == keyed(sinks).remove(key_of(sinks[i])),
{
    let removed = sinks.remove(i);
    assert forall|a: int| 0 <= a < removed.len() implies #[trigger] removed[a] == (if a < i {
        sinks[a]
    } else {
        sinks[a + 1]
    }) by {}
    assert(distinct_keys(removed)) by {
        assert forall|a: int, b: int|
            0 <= a < removed.len() && 0 <= b < removed.len() && a != b implies key_of(
            #[trigger] removed[a],
        ) != key_of(#[trigger] removed[b]) by {
            let a2 = if a < i { a } else { a + 1 };
            let b2 = if b < i { b } else { b + 1 };
            assert(removed[a] == sinks[a2]);
            assert(removed[b] == sinks[b2]);
        }
    }
    let expected = keyed(sinks).remove(key_of(sinks[i]));
    assert forall|key: u64| #[trigger] keyed(removed).dom().contains(key) <==> expected.dom().contains(
        key,
    ) by {
        if has_key(removed, key) {
            let a = choose|a: int| 0 <= a < removed.len() && #[trigger] key_of(removed[a]) == key;
            let a2 = if a < i { a } else { a + 1 };
            assert(removed[a] == sinks[a2]);
            assert(key_of(sinks[a2]) == key);
        }
        if has_key(sinks, key) && key != key_of(sinks[i]) {
            let j = choose|j: int| 0 <= j < sinks.len() && #[trigger] key_of(sinks[j]) == key;
            let j2 = if j < i { j } else { j - 1 };
            assert(removed[j2] == sinks[j]);
            assert(key_of(removed[j2]) == key);
        }
    }
    assert forall|key: u64| #[trigger] keyed(removed).dom().contains(key) implies keyed(removed)[key]
        == expected[key] by {
        let a = choose|a: int| 0 <= a < removed.len() && #[trigger] key_of(removed[a]) == key;
        let a2 = if a < i { a } else { a + 1 };
        assert(removed[a] == sinks[a2]);
        lemma_keyed_index(removed, a);
        lemma_keyed_index(sinks, a2);
    }
    assert(keyed(removed) =~= expected);
}

proof fn lemma_keyed_push<T>(sinks: Seq<Sink<T>>, sink: Sink<T>)
    requires
        distinct_keys(sinks),
        !keyed(sinks).dom().contains(key_of(sink)),
    ensures
        distinct_keys(sinks.push(sink)),
        keyed(sinks.push(sink)) == keyed(sinks).insert(key_of(sink), sink),
{
    let pushed = sinks.push(sink);
    assert(distinct_keys(pushed)) by {
        assert forall|a: int, b: int|
            0 <= a < pushed.len() && 0 <= b < pushed.len() && a != b implies key_of(
            #[trigger] pushed[a],
        ) != key_of(#[trigger] pushed[b]) by {
            if a < sinks.len() && b < sinks.len() {
                assert(pushed[a] == sinks[a]);
                assert(pushed[b] == sinks[b]);
            } else if a < sinks.len() {
                assert(pushed[a] == sinks[a]);
                assert(key_of(sinks[a]) != key_of(sink));
            } else {
                assert(pushed[b] == sinks[b]);
                assert(key_of(sinks[b]) != key_of(sink));
            }
        }
    }
    let expected = keyed(sinks).insert(key_of(sink), sink);
    assert forall|key: u64| #[trigger] keyed(pushed).dom().contains(key) <==> expected.dom().contains(
        key,
    ) by {
        if has_key(pushed, key) {
            let a = choose|a: int| 0 <= a < pushed.len() && #[trigger] key_of(pushed[a]) == key;
            if a < sinks.len() {
                assert(pushed[a] == sinks[a]);
                assert(key_of(sinks[a]) == key);
            }
        }
        if has_key(sinks, key) {
            let j = choose|j: int| 0 <= j < sinks.len() && #[trigger] key_of(sinks[j]) == key;
            assert(pushed[j] == sinks[j]);
            assert(key_of(pushed[j]) == key);
        }
        if key == key_of(sink) {
            assert(key_of(pushed[sinks.len() as int]) == key);
        }
    }
    assert forall|key: u64| #[trigger] keyed(pushed).dom().contains(key) implies keyed(pushed)[key]
        == expected[key] by {
        let a = choose|a: int| 0 <= a < pushed.len() && #[trigger] key_of(pushed[a]) == key;
        lemma_keyed_index(pushed, a);
        if a < sinks.len() {
            assert(pushed[a] == sinks[a]);
            lemma_keyed_index(sinks, a);
        }
    }
    assert(keyed(pushed) =~= expected);
}

/// Cleaning up never removes a sink that a timeline holds or that is being written to.
pub proof fn lemma_held_sinks_survive<T>(sink: Sink<T>, now: u64)
    ensures
        (sink.guarded() || sink.write_referenced()) ==> !sink.spec_is_clearable(now),
{
}

/// The sinks of the pipeline, each stored under its id.
pub struct SinkStore<T> {
    sinks: Vec<Sink<T>>,
}

impl<T> View for SinkStore<T> {
    type V = Map<u64, Sink<T>>;

    closed spec fn view(&self) -> Map<u64, Sink<T>> {
        keyed(self.sinks@)
    }
}

impl<T> SinkStore<T> {
    #[verifier::type_invariant]
    spec fn well_formed(&self) -> bool {
        distinct_keys(self.sinks@)
    }

    pub open spec fn contains(&self, id: SinkId) -> bool {
        self@.dom().contains(id.spec_value())
    }

    /// The sink stored under the given id.
    pub open spec fn sink(&self, id: SinkId) -> Sink<T> {
        self@[id.spec_value()]
    }

    pub fn new() -> (store: Self)
        ensures
            store@ == Map::<u64, Sink<T>>::empty(),
    {
        let store = SinkStore { sinks: Vec::new() };
        assert(store@ =~= Map::<u64, Sink<T>>::empty());
        store
    }

    fn position(&self, id: SinkId) -> (position: Option<usize>)
        ensures
            match position {
                Some(i) => i < self.sinks@.len() && key_of(self.sinks@[i as int]) == id.spec_value(),
                None => !has_key(self.sinks@, id.spec_value()),
            },
    {
        let mut i: usize = 0;
        while i < self.sinks.len()
            invariant
                i <= self.sinks@.len(),
                forall|j: int| 0 <= j < i ==> key_of(#[trigger] self.sinks@[j]) != id.spec_value(),
            decreases self.sinks@.len() - i,
        {
            if self.sinks[i].id().value() == id.value() {
                return Some(i);
            }
            i = i + 1;
        }
        None
    }

    /// Returns true if a sink is stored under the given id.
    pub fn has(&self, id: SinkId) -> (found: bool)
        ensures
            found == self.contains(id),
    {
        proof {
            use_type_invariant(self);
        }
        match self.position(id) {
            Some(i) => {
                proof {
                    lemma_keyed_index(self.sinks@, i as int);
                }
                true
            },
            None => false,
        }
    }

    /// Returns the sink stored under the given id.
    pub fn get(&self, id: SinkId) -> (sink: Option<&Sink<T>>)
        ensures
            match sink {
                Some(sink) => self.contains(id) && *sink == self.sink(id) && key_of(*sink) == id.spec_value(),
                None => !self.contains(id),
            },
    {
        proof {
            use_type_invariant(self);
        }
        match self.position(id) {
            Some(i) => {
                proof {
                    lemma_keyed_index(self.sinks@, i as int);
                }
                Some(&self.sinks[i])
            },
            None => None,
        }
    }

    /// Stores a sink under its id, in place of any sink stored there before.
    pub fn insert(&mut self, sink: Sink<T>)
        ensures
            final(self)@ == old(self)@.insert(sink.spec_id().spec_value(), sink),
    {
        proof {
            use_type_invariant(&*self);
        }
        match self.position(sink.id()) {
            Some(i) => {
                proof {
                    lemma_keyed_update(self.sinks@, i as int, sink);
                }
                let mut sinks = Vec::new();
                std::mem::swap(&mut sinks, &mut self.sinks);
                sinks.set(i, sink);
                self.sinks = sinks;
            },
            None => {
                proof {
                    lemma_keyed_push(self.sinks@, sink);
                }
                let mut sinks = Vec::new();
                std::mem::swap(&mut sinks, &mut self.sinks);
                sinks.push(sink);
                self.sinks = sinks;
            },
        }
    }

    /// Returns how many sinks are stored.
    pub fn len(&self) -> (count: usize)
        ensures
            count == self@.dom().len(),
    {
        proof {
            use_type_invariant(self);
            lemma_keyed_len(self.sinks@);
        }
        self.sinks.len()
    }

    /// The values of the ids of the stored sinks.
    fn keys(&self) -> (keys: Vec<u64>)
        ensures
            keys@.len() == self@.dom().len(),
            forall|key: u64| keys@.contains(key) <==> self@.dom().contains(key),
    {
        proof {
            use_type_invariant(self);
            lemma_keyed_len(self.sinks@);
        }
        let mut keys: Vec<u64> = Vec::new();
        let mut index: usize = 0;
        while index < self.sinks.len()
            invariant
                index <= self.sinks@.len(),
                keys@.len() == index,
                forall|k: int| 0 <= k < index ==> keys@[k] == key_of(#[trigger] self.sinks@[k]),
            decreases self.sinks@.len() - index,
        {
            keys.push(self.sinks[index].id().value());
            index = index + 1;
        }
        proof {
            assert forall|key: u64| keys@.contains(key) <==> self@.dom().contains(key) by {
                if keys@.contains(key) {
                    let k = choose|k: int| 0 <= k < keys@.len() && keys@[k] == key;
                    assert(key_of(self.sinks@[k]) == key);
                    assert(has_key(self.sinks@, key));
                }
                if self@.dom().contains(key) {
                    assert(has_key(self.sinks@, key));
                    let k = choose|k: int| 0 <= k < self.sinks@.len() && #[trigger] key_of(self.sinks@[k]) == key;
                    assert(keys@[k] == key);
                }
            }
        }
        keys
    }

    /// Prepares an inactive sink under an id that no stored sink has, stores
    /// it, and returns its id. Only a store that holds a sink under every id
    /// but zero has no such id left.
    pub fn prepare(&mut self, now: u64) -> (id: SinkId)
        ensures
            id.spec_value() != 0,
            old(self)@.dom().len() < u64::MAX ==> !old(self).contains(id),
            final(self)@ == old(self)@.insert(id.spec_value(), final(self).sink(id)),
            final(self).sink(id).spec_id() == id,
            final(self).sink(id).activation() is Inactive,
            final(self).sink(id).spec_load_state() is Idle,
            !final(self).sink(id).guarded(),
            !final(self).sink(id).activation_guarded(),
            !final(self).sink(id).write_referenced(),
            final(self).sink(id).interacted_at() == now,
    {
        let keys = self.keys();
        let id = SinkId::from_value(crate::id::fresh_id_value(&keys));
        let sink = Sink::inactive(id, now);
        self.insert(sink);
        id
    }

    /// Removes every sink that can be cleared from memory, and returns their ids.
    pub fn clear_inactive(&mut self, now: u64) -> (cleared: Vec<SinkId>)
        ensures
            forall|key: u64|
                #[trigger] final(self)@.dom().contains(key) <==> old(self)@.dom().contains(key)
                    && !old(self)@[key].spec_is_clearable(now),
            forall|key: u64|
                #[trigger] final(self)@.dom().contains(key) ==> final(self)@[key] == old(self)@[key],
            forall|key: u64|
                holds_id(cleared@, key) <==> (old(self)@.dom().contains(key) && old(self)@[key].spec_is_clearable(
                    now,
                )),
            distinct_ids(cleared@),
    {
        proof {
            use_type_invariant(&*self);
        }
        let ghost all = self@;
        let mut remaining = Vec::new();
        std::mem::swap(&mut remaining, &mut self.sinks);
        let mut kept: Vec<Sink<T>> = Vec::new();
        let mut cleared: Vec<SinkId> = Vec::new();
        assert(keyed(kept@) =~= Map::<u64, Sink<T>>::empty());

        while remaining.len() > 0
            invariant
                distinct_keys(remaining@),
                distinct_keys(kept@),
                distinct_ids(cleared@),
                forall|key: u64|
                    #[trigger] keyed(kept@).dom().contains(key) ==> all.dom().contains(key)
                        && keyed(kept@)[key] == all[key] && !all[key].spec_is_clearable(now)
                        && !keyed(remaining@).dom().contains(key),
                forall|key: u64|
                    #[trigger] keyed(remaining@).dom().contains(key) ==> all.dom().contains(key)
                        && keyed(remaining@)[key] == all[key],
                forall|key: u64|
                    #[trigger] all.dom().contains(key) ==> keyed(remaining@).dom().contains(key)
                        || keyed(kept@).dom().contains(key) || (all[key].spec_is_clearable(now)
                        && holds_id(cleared@, key)),
                forall|key: u64|
                    #[trigger] holds_id(cleared@, key) ==> all.dom().contains(key)
                        && all[key].spec_is_clearable(now) && !keyed(remaining@).dom().contains(key),
            decreases remaining@.len(),
        {
            let ghost before = remaining@;
            let ghost before_kept = kept@;
            let ghost before_cleared = cleared@;
            let sink = remaining.remove(0);
            let ghost key = key_of(sink);
            proof {
                lemma_keyed_index(before, 0);
                lemma_keyed_remove(before, 0);
            }
            if sink.is_clearable(now) {
                let id = sink.id();
                cleared.push(id);
                proof {
                    assert forall|k: u64| holds_id(cleared@, k) <==> (holds_id(before_cleared, k) || k == key) by {
                        if holds_id(cleared@, k) {
                            let j = choose|j: int| 0 <= j < cleared@.len() && (#[trigger] cleared@[j]).spec_value() == k;
                            if j < before_cleared.len() {
                                assert(cleared@[j] == before_cleared[j]);
                            }
                        }
                        if holds_id(before_cleared, k) {
                            let j = choose|j: int| 0 <= j < before_cleared.len() && (#[trigger] before_cleared[j]).spec_value() == k;
                            assert(cleared@[j] == before_cleared[j]);
                        }
                        if k == key {
                            assert(cleared@[before_cleared.len() as int] == id);
                        }
                    }
                    assert(distinct_ids(cleared@)) by {
                        assert(!holds_id(before_cleared, key));
                        assert forall|a: int, b: int|
                            0 <= a < cleared@.len() && 0 <= b < cleared@.len() && a != b implies (
                            #[trigger] cleared@[a]).spec_value() != (#[trigger] cleared@[b]).spec_value() by {
                            if a < before_cleared.len() && b < before_cleared.len() {
                                assert(cleared@[a] == before_cleared[a]);
                                assert(cleared@[b] == before_cleared[b]);
                            } else if a < before_cleared.len() {
                                assert(cleared@[a] == before_cleared[a]);
                            } else {
                                assert(cleared@[b] == before_cleared[b]);
                            }
                        }
                    }
                }
            } else {
                proof {
                    lemma_keyed_push(kept@, sink);
                }
                kept.push(sink);
            }
            proof {
                assert forall|k: u64| #[trigger] all.dom().contains(k) implies keyed(remaining@).dom().contains(k)
                    || keyed(kept@).dom().contains(k) || (all[k].spec_is_clearable(now)
                    && holds_id(cleared@, k)) by {
                    if k != key {
                        if holds_id(before_cleared, k) {
                            let j = choose|j: int| 0 <= j < before_cleared.len() && (#[trigger] before_cleared[j]).spec_value() == k;
                            assert(cleared@[j] == before_cleared[j]);
                        }
                        if keyed(before_kept).dom().contains(k) {
                            assert(keyed(kept@).dom().contains(k));
                        }
                    }
                }
                assert forall|k: u64| #[trigger] holds_id(cleared@, k) implies all.dom().contains(k)
                    && all[k].spec_is_clearable(now) && !keyed(remaining@).dom().contains(k) by {
                    if k != key {
                        let j = choose|j: int| 0 <= j < cleared@.len() && (#[trigger] cleared@[j]).spec_value() == k;
                        assert(j < before_cleared.len());
                        assert(cleared@[j] == before_cleared[j]);
                        assert(holds_id(before_cleared, k));
                    }
                }
            }
        }
        proof {
            assert(keyed(remaining@) =~= Map::<u64, Sink<T>>::empty());
        }
        self.sinks = kept;
        cleared
    }

    /// The store is as `other`, but for the sink stored under `id`.
    pub open spec fn changed_only(&self, other: &SinkStore<T>, id: SinkId) -> bool {
        &&& other.contains(id)
        &&& self.contains(id)
        &&& self@ == other@.insert(id.spec_value(), self.sink(id))
        &&& self.sink(id).spec_id() == other.sink(id).spec_id()
    }

    /// Starts the activation of a sink: the sink is activating, and its
    /// activation guard is taken until the activation finishes or fails.
    pub fn begin_activation(&mut self, id: SinkId, now: u64)
        requires
            old(self).contains(id),
            old(self).sink(id).activation() is Inactive || old(self).sink(id).activation() is Error,
            !old(self).sink(id).activation_guarded(),
        ensures
            final(self).changed_only(old(self), id),
            final(self).sink(id).activation() is Activating,
            final(self).sink(id).activation_guarded(),
            final(self).sink(id).interacted_at() == now,
            final(self).sink(id).spec_load_state() == old(self).sink(id).spec_load_state(),
            final(self).sink(id).guarded() == old(self).sink(id).guarded(),
            final(self).sink(id).write_referenced() == old(self).sink(id).write_referenced(),
    {
        let ghost before = self@;
        match self.take(id) {
            Some(mut sink) => {
                sink.activate(now);
                self.insert(sink);
                assert(self@ =~= before.insert(id.spec_value(), sink));
            },
            None => {
                assert(false);
            },
        }
    }

    /// Finishes the activation of a sink: it holds an empty buffer of the expected
    /// length, and its activation guard is released.
    pub fn finish_activation(&mut self, id: SinkId, expected_length: Option<usize>, now: u64)
        requires
            old(self).contains(id),
        ensures
            final(self).changed_only(old(self), id),
            final(self).sink(id).spec_is_activated(),
            final(self).sink(id).buffer().ranges() == Seq::<crate::buffer::RangeView<T>>::empty(),
            final(self).sink(id).buffer().expected() == expected_length,
            !final(self).sink(id).activation_guarded(),
            final(self).sink(id).interacted_at() == now,
            final(self).sink(id).spec_load_state() == old(self).sink(id).spec_load_state(),
            final(self).sink(id).guarded() == old(self).sink(id).guarded(),
            final(self).sink(id).write_referenced() == old(self).sink(id).write_referenced(),
    {
        let ghost before = self@;
        match self.take(id) {
            Some(mut sink) => {
                sink.finish_activation(expected_length);
                sink.clear_activation_guard(now);
                self.insert(sink);
                assert(self@ =~= before.insert(id.spec_value(), sink));
            },
            None => {
                assert(false);
            },
        }
    }

    /// Fails the activation of a sink with the given reason, and releases its activation guard.
    pub fn fail_activation(&mut self, id: SinkId, reason: &str, now: u64)
        requires
            old(self).contains(id),
        ensures
            final(self).changed_only(old(self), id),
            (final(self).sink(id).activation() matches crate::sink::SinkActivation::Error(message)
                && message@ == reason@),
            !final(self).sink(id).activation_guarded(),
            final(self).sink(id).interacted_at() == now,
            final(self).sink(id).spec_load_state() == old(self).sink(id).spec_load_state(),
            final(self).sink(id).guarded() == old(self).sink(id).guarded(),
            final(self).sink(id).write_referenced() == old(self).sink(id).write_referenced(),
    {
        let ghost before = self@;
        match self.take(id) {
            Some(mut sink) => {
                sink.fail_activation(reason);
                sink.clear_activation_guard(now);
                self.insert(sink);
                assert(self@ =~= before.insert(id.spec_value(), sink));
            },
            None => {
                assert(false);
            },
        }
    }

    /// Takes the write reference of an idle sink, which is loading until the reference is released.
    pub fn take_write_ref(&mut self, id: SinkId, now: u64) -> (update: Option<LoadStateUpdate>)
        requires
            old(self).contains(id),
            !old(self).sink(id).write_referenced(),
            old(self).sink(id).spec_load_state() is Idle,
        ensures
            final(self).changed_only(old(self), id),
            final(self).sink(id).write_referenced(),
            final(self).sink(id).spec_load_state() is Loading,
            (update matches Some(u) && u.sink_id == id && u.new_state@ is Loading),
            final(self).sink(id).interacted_at() == now,
            final(self).sink(id).activation() == old(self).sink(id).activation(),
            final(self).sink(id).guarded() == old(self).sink(id).guarded(),
            final(self).sink(id).activation_guarded() == old(self).sink(id).activation_guarded(),
    {
        let ghost before = self@;
        match self.take(id) {
            Some(mut sink) => {
                let update = sink.write(now);
                self.insert(sink);
                assert(self@ =~= before.insert(id.spec_value(), sink));
                match update {
                    Some(u) => Some(LoadStateUpdate { sink_id: id, new_state: u.new_state }),
                    None => None,
                }
            },
            None => {
                assert(false);
                None
            },
        }
    }

    /// Writes samples to a sink at the given offset, through its write reference.
    pub fn write(&mut self, id: SinkId, offset: usize, samples: &[T])
        where T: Copy
        requires
            old(self).contains(id),
            old(self).sink(id).write_referenced(),
            old(self).sink(id).spec_is_activated(),
            old(self).sink(id).buffer().write_fits(offset as int, samples@.len() as int),
        ensures
            final(self).changed_only(old(self), id),
            final(self).sink(id).spec_is_activated(),
            final(self).sink(id).buffer().ranges() == crate::buffer::merge_all(
                crate::buffer::written(old(self).sink(id).buffer().ranges(), offset as int, samples@),
            ),
            samples@.len() > 0 ==> crate::buffer::reads_back(
                final(self).sink(id).buffer().ranges(),
                offset as int,
                samples@,
            ),
            final(self).sink(id).buffer().expected() == old(self).sink(id).buffer().expected(),
            final(self).sink(id).same_flags(&old(self).sink(id)),
            final(self).sink(id).interacted_at() == old(self).sink(id).interacted_at(),
    {
        let ghost before = self@;
        match self.take(id) {
            Some(mut sink) => {
                sink.write_samples(offset, samples);
                self.insert(sink);
                assert(self@ =~= before.insert(id.spec_value(), sink));
            },
            None => {
                assert(false);
            },
        }
    }

    /// Releases the write reference of a sink; a sink that is still loading becomes idle.
    pub fn release_write_ref(&mut self, id: SinkId, now: u64) -> (update: Option<LoadStateUpdate>)
        requires
            old(self).contains(id),
        ensures
            final(self).changed_only(old(self), id),
            !final(self).sink(id).write_referenced(),
            old(self).sink(id).spec_load_state() is Loading ==> (final(self).sink(id).spec_load_state() is Idle
                && (update matches Some(u) && u.sink_id == id && u.new_state@ is Idle)),
            !(old(self).sink(id).spec_load_state() is Loading) ==> (final(self).sink(id).spec_load_state()
                == old(self).sink(id).spec_load_state() && update is None),
            final(self).sink(id).interacted_at() == now,
            final(self).sink(id).activation() == old(self).sink(id).activation(),
            final(self).sink(id).guarded() == old(self).sink(id).guarded(),
            final(self).sink(id).activation_guarded() == old(self).sink(id).activation_guarded(),
    {
        let ghost before = self@;
        match self.take(id) {
            Some(mut sink) => {
                let update = sink.clear_write_ref(now);
                self.insert(sink);
                assert(self@ =~= before.insert(id.spec_value(), sink));
                match update {
                    Some(u) => Some(LoadStateUpdate { sink_id: id, new_state: u.new_state }),
                    None => None,
                }
            },
            None => {
                assert(false);
                None
            },
        }
    }

    /// Seals a sink: there is no more data to load into it.
    pub fn seal(&mut self, id: SinkId) -> (update: Option<LoadStateUpdate>)
        requires
            old(self).contains(id),
        ensures
            final(self).changed_only(old(self), id),
            final(self).sink(id).spec_load_state() is Sealed,
            update is Some <==> !(old(self).sink(id).spec_load_state() is Sealed),
            update matches Some(u) ==> u.sink_id == id && u.new_state@ is Sealed,
            final(self).sink(id).activation() == old(self).sink(id).activation(),
            final(self).sink(id).guarded() == old(self).sink(id).guarded(),
            final(self).sink(id).activation_guarded() == old(self).sink(id).activation_guarded(),
            final(self).sink(id).write_referenced() == old(self).sink(id).write_referenced(),
            final(self).sink(id).interacted_at() == old(self).sink(id).interacted_at(),
    {
        let ghost before = self@;
        match self.take(id) {
            Some(mut sink) => {
                let update = sink.seal();
                self.insert(sink);
                assert(self@ =~= before.insert(id.spec_value(), sink));
                match update {
                    Some(u) => Some(LoadStateUpdate { sink_id: id, new_state: u.new_state }),
                    None => None,
                }
            },
            None => {
                assert(false);
                None
            },
        }
    }

    /// Puts a sink in the error state with the given message.
    pub fn error(&mut self, id: SinkId, message: String) -> (update: Option<LoadStateUpdate>)
        requires
            old(self).contains(id),
        ensures
            final(self).changed_only(old(self), id),
            final(self).sink(id).spec_load_state() == LoadStateView::Error(message@),
            update is Some <==> old(self).sink(id).spec_load_state() != LoadStateView::Error(message@),
            update matches Some(u) ==> u.sink_id == id && u.new_state@ == LoadStateView::Error(message@),
            final(self).sink(id).activation() == old(self).sink(id).activation(),
            final(self).sink(id).guarded() == old(self).sink(id).guarded(),
            final(self).sink(id).activation_guarded() == old(self).sink(id).activation_guarded(),
            final(self).sink(id).write_referenced() == old(self).sink(id).write_referenced(),
            final(self).sink(id).interacted_at() == old(self).sink(id).interacted_at(),
    {
        let ghost before = self@;
        let ghost text = message@;
        match self.take(id) {
            Some(mut sink) => {
                let update = sink.error(message);
                self.insert(sink);
                assert(self@ =~= before.insert(id.spec_value(), sink));
                match update {
                    Some(u) => Some(LoadStateUpdate { sink_id: id, new_state: u.new_state }),
                    None => None,
                }
            },
            None => {
                assert(false);
                None
            },
        }
    }

    /// Removes the sink stored under the given id and returns it.
    pub fn take(&mut self, id: SinkId) -> (sink: Option<Sink<T>>)
        ensures
            match sink {
                Some(sink) => old(self).contains(id) && sink == old(self).sink(id)
                    && key_of(sink) == id.spec_value(),
                None => !old(self).contains(id),
            },
            final(self)@ == old(self)@.remove(id.spec_value()),
    {
        proof {
            use_type_invariant(&*self);
        }
        match self.position(id) {
            Some(i) => {
                proof {
                    lemma_keyed_index(self.sinks@, i as int);
                    lemma_keyed_remove(self.sinks@, i as int);
                }
                let mut sinks = Vec::new();
                std::mem::swap(&mut sinks, &mut self.sinks);
                let sink = sinks.remove(i);
                self.sinks = sinks;
                Some(sink)
            },
            None => {
                assert(self@.remove(id.spec_value()) =~= self@);
                None
            },
        }
    }
}

} // verus!
