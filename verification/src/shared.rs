//! A handle for sharing one mapping store between concurrent callers.
//!
//! The store sits behind a reader/writer lock. A request takes the lock, does
//! one step on the store (`MappingStore::offer` or `MappingStore::resolve`,
//! whose contracts say exactly what that step does)
//! and gives the lock back before it returns. Between two requests of one
//! caller any number of requests of other callers may take place, so the
//! contracts in this module state only what holds whenever the lock is free.
//! What a store holds after offers that reached it in any order is the
//! subject of the second half of `history`.

use vstd::prelude::*;
use vstd::rwlock::{RwLock, RwLockPredicate};
use crate::generator::{default_shape, IdGenerator, IdShape};
use crate::policy::Offer;
use crate::store::{keys_are_ids, MappingStore, StoreError, DEFAULT_MAX_ATTEMPTS};

verus! {

/// What holds of the guarded store whenever the lock is free: its
/// configuration is the one the handle was made with, and every key is an
/// identifier of the configured shape.
struct Guarded {
    shape: IdShape,
    max_attempts: usize,
}

impl RwLockPredicate<MappingStore> for Guarded {
    closed spec fn inv(self, store: MappingStore) -> bool {
        &&& store.shape() == self.shape
        &&& store.spec_max_attempts() == self.max_attempts
        &&& keys_are_ids(store@, self.shape)
    }
}

/// A mapping store behind a reader/writer lock.
///
/// Requests take `&self`, so one handle serves any number of callers at once.
/// Lookups share the lock; a request that adds a mapping holds it alone. The
/// store itself never leaves the lock while the handle lives.
pub struct SharedStore {
    store: RwLock<MappingStore, Guarded>,
    generator: IdGenerator,
    max_attempts: usize,
}

impl SharedStore {
    #[verifier::type_invariant]
    spec fn well_formed(self) -> bool {
        self.store.pred() == (Guarded { shape: self.generator@, max_attempts: self.max_attempts })
    }

    /// The shape of the identifiers that this store hands out.
    pub closed spec fn shape(&self) -> IdShape {
        self.generator@
    }

    /// The number of candidates drawn per request, at most.
    pub closed spec fn spec_max_attempts(&self) -> usize {
        self.max_attempts
    }

    /// A handle on a new, empty store that draws up to `max_attempts`
    /// candidates per request from `generator`.
    pub fn new(generator: IdGenerator, max_attempts: usize) -> (shared: SharedStore)
        ensures
            shared.shape() == generator@,
            shared.spec_max_attempts() == max_attempts,
    {
        let ghost guarded = Guarded { shape: generator@, max_attempts };
        let own = generator.duplicate();
        let store = MappingStore::new(generator, max_attempts);
        SharedStore { store: RwLock::new(store, Ghost(guarded)), generator: own, max_attempts }
    }

    /// The generator that candidates are drawn from.
    pub fn generator(&self) -> (generator: &IdGenerator)
        ensures
            generator@ == self.shape(),
    {
        &self.generator
    }

    /// The number of candidates drawn per request, at most.
    #[verifier::when_used_as_spec(spec_max_attempts)]
    pub fn max_attempts(&self) -> (max_attempts: usize)
        ensures
            max_attempts == self.spec_max_attempts(),
    {
        self.max_attempts
    }

    /// Answers a request to shorten `target`: draws candidates and offers
    /// them to the store in turn, as `MappingStore::offer` describes, until
    /// one is bound to `target`, which is then returned, or the policy gives
    /// up with `GenerationExhausted`.
    ///
    /// The lock is held only while one candidate is offered, never while a
    /// candidate is drawn, and it is free again on every way out. A candidate
    /// is tested and bound under one hold of the lock, so no other request
    /// can take the identifier in between.
    pub fn create(&self, target: &str) -> (created: Result<String, StoreError>)
        ensures
            match created {
                Ok(id) => self.shape().admits(id@),
                Err(e) => e == StoreError::GenerationExhausted,
            },
            self.spec_max_attempts() == 0 ==> created is Err,
    {
        proof {
            use_type_invariant(self);
        }
        if self.max_attempts == 0 {
            return Err(StoreError::GenerationExhausted);
        }
        let mut attempt: usize = 0;
        loop
            invariant
                attempt < self.max_attempts,
                self.well_formed(),
            decreases self.max_attempts - attempt,
        {
            let candidate = self.generator.new_id();
            let (mut store, handle) = self.store.acquire_write();
            let next = store.offer(candidate.as_str(), target, attempt);
            handle.release_write(store);
            match next {
                Offer::Bound => {
                    return Ok(candidate);
                },
                Offer::Again => {
                    attempt += 1;
                },
                Offer::Exhausted => {
                    return Err(StoreError::GenerationExhausted);
                },
            }
        }
    }

    /// Looks `id` up in the store as it is at the moment of the call: its
    /// target, or `NotFound`. An identifier of another shape than the store's
    /// is never found.
    pub fn resolve(&self, id: &str) -> (found: Result<String, StoreError>)
        ensures
            match found {
                Ok(_) => self.shape().admits(id@),
                Err(e) => e == StoreError::NotFound,
            },
    {
        proof {
            use_type_invariant(self);
        }
        let handle = self.store.acquire_read();
        let found = handle.borrow().resolve(id);
        handle.release_read();
        found
    }

    /// Ends the sharing and hands the store out, with every mapping made
    /// through the handle.
    pub fn into_store(self) -> (store: MappingStore)
        ensures
            store.shape() == self.shape(),
            store.spec_max_attempts() == self.spec_max_attempts(),
            keys_are_ids(store@, store.shape()),
    {
        proof {
            use_type_invariant(&self);
        }
        self.store.into_inner()
    }
}

impl Default for SharedStore {
    /// A handle on an empty store with the default generator and
    /// `DEFAULT_MAX_ATTEMPTS`.
    fn default() -> (shared: SharedStore)
        ensures
            shared.shape() == default_shape(),
            shared.spec_max_attempts() == DEFAULT_MAX_ATTEMPTS,
    {
        SharedStore::new(IdGenerator::default(), DEFAULT_MAX_ATTEMPTS)
    }
}

} // verus!
