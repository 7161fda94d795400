//! The collision policy: what is done with each candidate identifier, and
//! what a request comes to over a run of candidates.

use vstd::prelude::*;
use crate::generator::IdShape;
use crate::store::{Mappings, StoreError};

verus! {

/// What becomes of one candidate that is offered to a store.
#[derive(Clone, Copy, Debug, PartialEq, Eq, Structural)]
pub enum Offer {
    /// The candidate was unused and is now bound to the target.
    Bound,
    /// The candidate is taken; another one may be offered.
    Again,
    /// The candidate is taken, or no attempt was left for it; the request has
    /// failed.
    Exhausted,
}

/// What becomes of `candidate` when it is offered to `mappings` as attempt
/// number `attempt` (counted from 0) of a request that may make
/// `max_attempts` attempts.
pub open spec fn offer_outcome(
    mappings: Mappings,
    candidate: Seq<char>,
    attempt: nat,
    max_attempts: nat,
) -> Offer {
    if attempt >= max_attempts {
        Offer::Exhausted
    } else if !mappings.contains_key(candidate) {
        Offer::Bound
    } else if attempt + 1 < max_attempts {
        Offer::Again
    } else {
        Offer::Exhausted
    }
}

/// What a request comes to when `candidates[attempt]`, `candidates[attempt + 1]`
/// and so on are offered to `mappings` in turn: the identifier that was bound,
/// or `GenerationExhausted`.
pub open spec fn policy_outcome(
    mappings: Mappings,
    candidates: Seq<Seq<char>>,
    attempt: nat,
    max_attempts: nat,
) -> Result<Seq<char>, StoreError>
    decreases max_attempts - attempt,
{
    match offer_outcome(mappings, candidates[attempt as int], attempt, max_attempts) {
        Offer::Bound => Ok(candidates[attempt as int]),
        Offer::Again => policy_outcome(mappings, candidates, attempt + 1, max_attempts),
        Offer::Exhausted => Err(StoreError::GenerationExhausted),
    }
}

/// `candidates` is a run of `count` identifiers of `shape`.
pub open spec fn run_of_shape(candidates: Seq<Seq<char>>, shape: IdShape, count: nat) -> bool {
    &&& candidates.len() == count
    &&& forall|i: int| 0 <= i < candidates.len() ==> shape.admits(#[trigger] candidates[i])
}

/// `candidates[from]` up to `candidates[to - 1]` are all taken in `mappings`.
pub open spec fn all_taken(
    mappings: Mappings,
    candidates: Seq<Seq<char>>,
    from: int,
    to: int,
) -> bool {
    forall|i: int| from <= i < to ==> mappings.contains_key(#[trigger] candidates[i])
}

/// `candidates[at]` is the first of `candidates[from]`, `candidates[from + 1]`,
/// ... that is unused in `mappings`.
pub open spec fn first_free_at(
    mappings: Mappings,
    candidates: Seq<Seq<char>>,
    from: int,
    at: int,
) -> bool {
    &&& from <= at < candidates.len()
    &&& all_taken(mappings, candidates, from, at)
    &&& !mappings.contains_key(candidates[at])
}

/// From any attempt on, a request fails exactly when every candidate that is
/// left within the bound is taken, and otherwise returns the first that is
/// unused.
pub proof fn lemma_policy_outcome_from(
    mappings: Mappings,
    candidates: Seq<Seq<char>>,
    attempt: nat,
    max_attempts: nat,
)
    requires
        attempt <= max_attempts <= candidates.len(),
    ensures
        policy_outcome(mappings, candidates, attempt, max_attempts) is Err <==> all_taken(
            mappings,
            candidates,
            attempt as int,
            max_attempts as int,
        ),
        policy_outcome(mappings, candidates, attempt, max_attempts) matches Err(e) ==> e
            == StoreError::GenerationExhausted,
        policy_outcome(mappings, candidates, attempt, max_attempts) matches Ok(id) ==> exists|
            at: int,
        |
            at < max_attempts && #[trigger] first_free_at(mappings, candidates, attempt as int, at)
                && id == candidates[at],
    decreases max_attempts - attempt,
{
    if attempt < max_attempts {
        if !mappings.contains_key(candidates[attempt as int]) {
            assert(first_free_at(mappings, candidates, attempt as int, attempt as int));
        } else if attempt + 1 < max_attempts {
            lemma_policy_outcome_from(mappings, candidates, attempt + 1, max_attempts);
            let later = policy_outcome(mappings, candidates, attempt + 1, max_attempts);
            if later is Ok {
                let at = choose|at: int|
                    at < max_attempts && #[trigger] first_free_at(
                        mappings,
                        candidates,
                        attempt as int + 1,
                        at,
                    ) && later->Ok_0 == candidates[at];
                assert(first_free_at(mappings, candidates, attempt as int, at));
            } else {
                assert(all_taken(mappings, candidates, attempt as int, max_attempts as int)) by {
                    assert(all_taken(mappings, candidates, attempt as int + 1, max_attempts as int));
                }
            }
        }
    }
}

/// A request fails with `GenerationExhausted` exactly when its first
/// `max_attempts` candidates are all taken; otherwise it returns the first of
/// them that is unused.
pub proof fn lemma_policy_outcome(
    mappings: Mappings,
    candidates: Seq<Seq<char>>,
    max_attempts: nat,
)
    requires
        max_attempts <= candidates.len(),
    ensures
        policy_outcome(mappings, candidates, 0, max_attempts) == Err::<Seq<char>, StoreError>(
            StoreError::GenerationExhausted,
        ) <==> all_taken(mappings, candidates, 0, max_attempts as int),
        forall|at: int|
            at < max_attempts && #[trigger] first_free_at(mappings, candidates, 0, at)
                ==> policy_outcome(mappings, candidates, 0, max_attempts) == Ok::<
                Seq<char>,
                StoreError,
            >(candidates[at]),
{
    lemma_policy_outcome_from(mappings, candidates, 0, max_attempts);
    let outcome = policy_outcome(mappings, candidates, 0, max_attempts);
    assert forall|at: int|
        at < max_attempts && #[trigger] first_free_at(
            mappings,
            candidates,
            0,
            at,
        ) implies outcome == Ok::<Seq<char>, StoreError>(candidates[at]) by {
        assert(!all_taken(mappings, candidates, 0, max_attempts as int));
        let found = choose|found: int|
            found < max_attempts && #[trigger] first_free_at(mappings, candidates, 0, found)
                && outcome->Ok_0 == candidates[found];
        if found < at {
            assert(mappings.contains_key(candidates[found]));
        }
        if at < found {
            assert(mappings.contains_key(candidates[at]));
        }
    }
}

} // verus!
