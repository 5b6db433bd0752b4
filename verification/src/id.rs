use std::marker::PhantomData;
use vstd::prelude::*;

verus! {

pub type IdType = u64;

/// `rand::random::<u64>()`: a value drawn from the thread-local generator.
/// Nothing is stated of the value: it depends on chance.
#[verifier::external_body]
fn random_id_value() -> IdType {
    rand::random::<u64>()
}

/// A unique identifier for any type.
#[derive(Debug, Hash)]
pub struct Id<T> {
    value: IdType,
    kind: PhantomData<T>,
}

impl<T> Id<T> {
    pub closed spec fn spec_value(self) -> IdType {
        self.value
    }

    /// The empty id: the only id whose value is zero.
    pub closed spec fn empty() -> Self {
        Id { value: 0, kind: PhantomData }
    }

    /// An id is the empty id exactly when its value is zero.
    pub proof fn lemma_empty_has_value_zero(id: Self)
        ensures
            Self::empty().spec_value() == 0,
            (id == Self::empty()) <==> id.spec_value() == 0,
    {
    }

    /// Creates a new id. Ids are drawn at random from the non-zero values,
    /// so that distinct ids are equal only with negligible probability.
    pub fn new() -> (id: Self)
        ensures
            id.spec_value() != 0,
            id != Self::empty(),
    {
        let drawn = random_id_value();
        let value = if drawn == 0 { 1 } else { drawn };
        Id { value, kind: PhantomData }
    }

    /// Returns an empty id.
    pub fn none() -> (id: Self)
        ensures
            id.spec_value() == 0,
            id == Self::empty(),
    {
        Id { value: 0, kind: PhantomData }
    }

    /// Creates an id with the given value.
    pub fn from_value(value: IdType) -> (id: Self)
        ensures
            id.spec_value() == value,
    {
        Id { value, kind: PhantomData }
    }

    pub fn value(&self) -> (value: IdType)
        ensures
            value == self.spec_value(),
    {
        self.value
    }
}

impl<T> Clone for Id<T> {
    fn clone(&self) -> (id: Self)
        ensures
            id.spec_value() == self.spec_value(),
    {
        Id { value: self.value, kind: PhantomData }
    }
}

impl<T> Copy for Id<T> {}

impl<T> PartialEq for Id<T> {
    fn eq(&self, other: &Self) -> (equal: bool) {
        self.value == other.value
    }
}

impl<T> vstd::std_specs::cmp::PartialEqSpecImpl for Id<T> {
    open spec fn obeys_eq_spec() -> bool {
        true
    }

    open spec fn eq_spec(&self, other: &Self) -> bool {
        self.spec_value() == other.spec_value()
    }
}

impl<T> Eq for Id<T> {}

impl<T> Default for Id<T> {
    fn default() -> (id: Self)
        ensures
            id.spec_value() == 0,
            id == Self::empty(),
    {
        Self::none()
    }
}

/// Returns true if `taken` holds the value.
fn holds_value(taken: &Vec<IdType>, value: IdType) -> (found: bool)
    ensures
        found == taken@.contains(value),
{
    let mut index: usize = 0;
    while index < taken.len()
        invariant
            index <= taken@.len(),
            forall|k: int| 0 <= k < index ==> taken@[k] != value,
        decreases taken@.len() - index,
    {
        if taken[index] == value {
            assert(taken@[index as int] == value);
            return true;
        }
        index = index + 1;
    }
    false
}

/// A value for a new id that none of `taken` has: a value drawn at random if
/// it is free, or else the smallest free value from 1 on. Only where `taken`
/// holds every value but zero is there none to find.
pub fn fresh_id_value(taken: &Vec<IdType>) -> (value: IdType)
    ensures
        value != 0,
        taken@.len() < u64::MAX ==> !taken@.contains(value),
{
    let drawn = random_id_value();
    if drawn != 0 && !holds_value(taken, drawn) {
        return drawn;
    }
    let mut value: IdType = 1;
    let mut taken_now = holds_value(taken, value);
    let ghost mut below = Set::<u64>::empty();
    proof {
        assert(below =~= Set::new(|x: u64| 1 <= x < 1));
    }
    while taken_now && value < u64::MAX
        invariant
            1 <= value,
            taken_now == taken@.contains(value),
            below == Set::new(|x: u64| 1 <= x < value),
            below.finite(),
            below.len() == value - 1,
            below.subset_of(taken@.to_set()),
        decreases u64::MAX - value,
    {
        proof {
            assert(!below.contains(value));
            below = below.insert(value);
            assert(below =~= Set::new(|x: u64| 1 <= x < value + 1));
        }
        value = value + 1;
        taken_now = holds_value(taken, value);
    }
    proof {
        if taken_now && taken@.len() < u64::MAX {
            let all = below.insert(value);
            assert(!below.contains(value));
            assert(all.subset_of(taken@.to_set()));
            vstd::set_lib::lemma_len_subset(all, taken@.to_set());
            taken@.lemma_cardinality_of_set();
            assert(false);
        }
    }
    value
}

} // verus!
