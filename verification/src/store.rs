//! The mapping store: an insert-only registry from short identifiers to
//! targets, and the collision policy that fills it.

use vstd::prelude::*;
use vstd::hash_map::StringHashMap;
use crate::generator::{default_shape, IdGenerator, IdShape};
use crate::policy::{
    all_taken, first_free_at, lemma_policy_outcome, offer_outcome, policy_outcome, run_of_shape,
    Offer,
};

verus! {

/// The number of candidates a store draws per request when none is configured.
pub const DEFAULT_MAX_ATTEMPTS: usize = 16;

/// What the store can report instead of a result.
#[derive(Clone, Copy, Debug, PartialEq, Eq, Structural)]
pub enum StoreError {
    /// The identifier has no mapping.
    NotFound,
    /// Every candidate drawn for a request was already taken.
    GenerationExhausted,
}

/// The mappings of a store: short identifier to target.
pub type Mappings = Map<Seq<char>, Seq<char>>;

/// What a lookup of `id` in `mappings` yields.
pub open spec fn resolution(mappings: Mappings, id: Seq<char>) -> Result<Seq<char>, StoreError> {
    if mappings.contains_key(id) {
        Ok(mappings[id])
    } else {
        Err(StoreError::NotFound)
    }
}

/// What a caller is told, with the string in it taken by its characters.
pub open spec fn answer(told: Result<String, StoreError>) -> Result<Seq<char>, StoreError> {
    match told {
        Ok(text) => Ok(text@),
        Err(e) => Err(e),
    }
}

/// `mappings` as they are after a request for `target` was answered with
/// `id`.
pub open spec fn with_mapping(mappings: Mappings, id: Seq<char>, target: Seq<char>) -> Mappings {
    mappings.insert(id, target)
}

/// Some identifier of `shape` is still unused in `mappings`.
pub open spec fn has_free_id(mappings: Mappings, shape: IdShape) -> bool {
    exists|id: Seq<char>| shape.admits(id) && !mappings.contains_key(id)
}

/// No key of `mappings` is an identifier of `shape`: every identifier of that
/// shape is unused.
pub open spec fn all_ids_free(mappings: Mappings, shape: IdShape) -> bool {
    forall|id: Seq<char>| #[trigger] mappings.contains_key(id) ==> !shape.admits(id)
}

/// Every key of `mappings` is an identifier of `shape`.
pub open spec fn keys_are_ids(mappings: Mappings, shape: IdShape) -> bool {
    forall|id: Seq<char>| #[trigger] mappings.contains_key(id) ==> shape.admits(id)
}

/// An insert-only registry of identifier-to-target mappings, together with the
/// generator and the retry bound of its collision policy.
///
/// A mapping, once made, is never changed or removed.
pub struct MappingStore {
    entries: StringHashMap<String>,
    generator: IdGenerator,
    max_attempts: usize,
}

impl View for MappingStore {
    type V = Mappings;

    closed spec fn view(&self) -> Mappings {
        self.entries@.map_values(|target: String| target@)
    }
}

impl MappingStore {
    #[verifier::type_invariant]
    spec fn well_formed(self) -> bool {
        self.entries@.dom().finite()
    }

    /// The shape of the identifiers that this store hands out.
    pub closed spec fn shape(&self) -> IdShape {
        self.generator@
    }

    /// The number of candidates drawn per request, at most.
    pub closed spec fn spec_max_attempts(&self) -> usize {
        self.max_attempts
    }

    /// An empty store that draws up to `max_attempts` candidates per request
    /// from `generator`.
    pub fn new(generator: IdGenerator, max_attempts: usize) -> (store: MappingStore)
        ensures
            store@ == Mappings::empty(),
            store.shape() == generator@,
            store.spec_max_attempts() == max_attempts,
    {
        let store = MappingStore { entries: StringHashMap::new(), generator, max_attempts };
        assert(store@ =~= Mappings::empty());
        store
    }

    /// The generator that candidates are drawn from.
    pub fn generator(&self) -> (generator: &IdGenerator)
        ensures
            generator@ == self.shape(),
    {
        &self.generator
    }

    /// The number of candidates drawn per request, at most.
    #[verifier::when_used_as_spec(spec_max_attempts)]
    pub fn max_attempts(&self) -> (max_attempts: usize)
        ensures
            max_attempts == self.spec_max_attempts(),
    {
        self.max_attempts
    }

    /// The number of mappings.
    pub fn len(&self) -> (count: usize)
        ensures
            self@.dom().finite(),
            count == self@.len(),
    {
        proof {
            use_type_invariant(self);
            assert(self@.dom() =~= self.entries@.dom());
        }
        self.entries.len()
    }

    /// Whether `id` has a mapping.
    pub fn contains(&self, id: &str) -> (present: bool)
        ensures
            present == self@.contains_key(id@),
    {
        self.entries.contains_key(id)
    }

    /// Looks `id` up: its target, or `NotFound` when it has no mapping. The
    /// store is left as it is.
    pub fn resolve(&self, id: &str) -> (found: Result<String, StoreError>)
        ensures
            answer(found) == resolution(self@, id@),
    {
        match self.entries.get(id) {
            Some(target) => Ok(target.clone()),
            None => Err(StoreError::NotFound),
        }
    }

    /// Binds `id` to `target` unless `id` is taken, and says whether it did. A
    /// taken identifier keeps its target: nothing is ever overwritten.
    pub fn insert_if_absent(&mut self, id: &str, target: &str) -> (inserted: bool)
        ensures
            inserted == !old(self)@.contains_key(id@),
            final(self)@ == if inserted {
                with_mapping(old(self)@, id@, target@)
            } else {
                old(self)@
            },
            final(self).shape() == old(self).shape(),
            final(self).spec_max_attempts() == old(self).spec_max_attempts(),
    {
        proof {
            use_type_invariant(&*self);
        }
        if self.entries.contains_key(id) {
            return false;
        }
        let mut entries = StringHashMap::new();
        std::mem::swap(&mut entries, &mut self.entries);
        entries.insert(id.to_owned(), target.to_owned());
        self.entries = entries;
        assert(self@ =~= with_mapping(old(self)@, id@, target@));
        true
    }

    /// The step that the collision policy takes with each candidate. As
    /// attempt number `attempt` (counted from 0) of a request for `target`,
    /// `candidate` is bound to `target` if it is unused and an attempt is
    /// left for it. If it is taken, the answer says whether the request may
    /// go on with another candidate or has failed.
    pub fn offer(&mut self, candidate: &str, target: &str, attempt: usize) -> (next: Offer)
        ensures
            next == offer_outcome(
                old(self)@,
                candidate@,
                attempt as nat,
                old(self).spec_max_attempts() as nat,
            ),
            final(self)@ == if next == Offer::Bound {
                with_mapping(old(self)@, candidate@, target@)
            } else {
                old(self)@
            },
            final(self).shape() == old(self).shape(),
            final(self).spec_max_attempts() == old(self).spec_max_attempts(),
    {
        if attempt >= self.max_attempts {
            Offer::Exhausted
        } else if self.insert_if_absent(candidate, target) {
            Offer::Bound
        } else if attempt + 1 < self.max_attempts {
            Offer::Again
        } else {
            Offer::Exhausted
        }
    }

    /// Answers a request to shorten `target`: draws candidates from the
    /// generator and offers them in turn until one is bound to `target`, which
    /// is then returned, or the policy gives up with `GenerationExhausted`,
    /// which leaves the store as it was.
    ///
    /// Which candidates are drawn is up to the generator. Whatever it draws,
    /// the answer is what the policy makes of a run of `max_attempts`
    /// candidates of the store's shape: the first of them that is unused, or
    /// `GenerationExhausted` when all of them are taken. Which run it was the
    /// caller is not told; `offer` states the decision for a candidate that
    /// is known. The request succeeds whenever an attempt is allowed and no
    /// key of the store has the generator's shape (an empty store, for one);
    /// it fails whenever no attempt is allowed or no identifier is left.
    pub fn create(&mut self, target: &str) -> (created: Result<String, StoreError>)
        ensures
            final(self).shape() == old(self).shape(),
            final(self).spec_max_attempts() == old(self).spec_max_attempts(),
            match created {
                Ok(id) => {
                    &&& old(self).shape().admits(id@)
                    &&& !old(self)@.contains_key(id@)
                    &&& final(self)@ == with_mapping(old(self)@, id@, target@)
                },
                Err(e) => e == StoreError::GenerationExhausted && final(self)@ == old(self)@,
            },
            exists|drawn: Seq<Seq<char>>|
                #[trigger] run_of_shape(
                    drawn,
                    old(self).shape(),
                    old(self).spec_max_attempts() as nat,
                ) && answer(created) == policy_outcome(
                    old(self)@,
                    drawn,
                    0,
                    old(self).spec_max_attempts() as nat,
                ),
            old(self).spec_max_attempts() >= 1 && all_ids_free(old(self)@, old(self).shape())
                ==> created is Ok,
            old(self).spec_max_attempts() == 0 || !has_free_id(old(self)@, old(self).shape())
                ==> created is Err,
            keys_are_ids(old(self)@, old(self).shape()) ==> keys_are_ids(
                final(self)@,
                final(self).shape(),
            ),
    {
        let ghost before = self@;
        let ghost shape = self.shape();
        let ghost bound = self.spec_max_attempts() as nat;
        if self.max_attempts == 0 {
            proof {
                let drawn = Seq::<Seq<char>>::empty();
                assert(run_of_shape(drawn, shape, bound));
                assert(all_taken(before, drawn, 0, bound as int));
                lemma_policy_outcome(before, drawn, bound);
            }
            return Err(StoreError::GenerationExhausted);
        }
        let ghost mut drawn = Seq::<Seq<char>>::empty();
        let mut attempt: usize = 0;
        loop
            invariant
                self@ == before,
                self.shape() == shape,
                self.spec_max_attempts() == bound,
                before == old(self)@,
                shape == old(self).shape(),
                bound == old(self).spec_max_attempts(),
                attempt < self.max_attempts,
                run_of_shape(drawn, shape, attempt as nat),
                all_taken(before, drawn, 0, attempt as int),
            decreases self.max_attempts - attempt,
        {
            let candidate = self.generator.new_id();
            let ghost tried = drawn.push(candidate@);
            match self.offer(candidate.as_str(), target, attempt) {
                Offer::Bound => {
                    proof {
                        let run = Seq::new(
                            bound,
                            |i: int| if i < attempt { drawn[i] } else { candidate@ },
                        );
                        assert(run_of_shape(run, shape, bound));
                        assert(first_free_at(before, run, 0, attempt as int));
                        lemma_policy_outcome(before, run, bound);
                    }
                    return Ok(candidate);
                },
                Offer::Again => {
                    proof {
                        drawn = tried;
                    }
                    attempt += 1;
                },
                Offer::Exhausted => {
                    proof {
                        assert(run_of_shape(tried, shape, bound));
                        assert(all_taken(before, tried, 0, bound as int));
                        lemma_policy_outcome(before, tried, bound);
                    }
                    return Err(StoreError::GenerationExhausted);
                },
            }
        }
    }
}

impl Default for MappingStore {
    /// An empty store with the default generator and `DEFAULT_MAX_ATTEMPTS`.
    fn default() -> (store: MappingStore)
        ensures
            store@ == Mappings::empty(),
            store.shape() == default_shape(),
            store.spec_max_attempts() == DEFAULT_MAX_ATTEMPTS,
    {
        MappingStore::new(IdGenerator::default(), DEFAULT_MAX_ATTEMPTS)
    }
}

} // verus!
