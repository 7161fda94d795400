//! What holds of a store over a whole history of answered requests.
//!
//! A history is given by the identifiers that were handed out, in order, and
//! the targets they were handed out for. `MappingStore::create` promises of
//! each identifier it returns that it was unused at that moment and is bound
//! by `with_mapping` afterwards; the lemmas below draw the consequences for
//! any number of requests.
//!
//! The second half takes the single offer as the unit, not the request: the
//! offers of several requests may reach a store in any order, each request
//! counting its own attempts. Whatever the order, the offers that were bound
//! make up a fresh history.

use vstd::prelude::*;
use crate::policy::{offer_outcome, Offer};
use crate::store::{resolution, with_mapping, Mappings, StoreError};

verus! {

/// The mappings after a history of answered requests that began with `start`:
/// the `n`-th request was for `targets[n]` and was answered with `ids[n]`.
pub open spec fn replay(start: Mappings, ids: Seq<Seq<char>>, targets: Seq<Seq<char>>) -> Mappings
    decreases ids.len(),
{
    if ids.len() == 0 {
        start
    } else {
        with_mapping(
            replay(start, ids.drop_last(), targets.drop_last()),
            ids.last(),
            targets.last(),
        )
    }
}

/// Every identifier of the history was unused at the moment it was handed out.
pub open spec fn handed_out_fresh(
    start: Mappings,
    ids: Seq<Seq<char>>,
    targets: Seq<Seq<char>>,
) -> bool {
    &&& ids.len() == targets.len()
    &&& forall|n: int|
        0 <= n < ids.len() ==> !(#[trigger] replay(
            start,
            ids.take(n),
            targets.take(n),
        )).contains_key(ids[n])
}

/// A fresh history stays fresh when one more request is answered with an
/// identifier that is unused by then, and the mappings grow by that one.
pub proof fn lemma_history_extends(
    start: Mappings,
    ids: Seq<Seq<char>>,
    targets: Seq<Seq<char>>,
    id: Seq<char>,
    target: Seq<char>,
)
    requires
        handed_out_fresh(start, ids, targets),
        !replay(start, ids, targets).contains_key(id),
    ensures
        handed_out_fresh(start, ids.push(id), targets.push(target)),
        replay(start, ids.push(id), targets.push(target)) == with_mapping(
            replay(start, ids, targets),
            id,
            target,
        ),
{
    let longer_ids = ids.push(id);
    let longer_targets = targets.push(target);
    assert(longer_ids.drop_last() =~= ids);
    assert(longer_targets.drop_last() =~= targets);
    assert forall|n: int| 0 <= n < longer_ids.len() implies !(#[trigger] replay(
        start,
        longer_ids.take(n),
        longer_targets.take(n),
    )).contains_key(longer_ids[n]) by {
        if n < ids.len() {
            assert(longer_ids.take(n) =~= ids.take(n));
            assert(longer_targets.take(n) =~= targets.take(n));
        } else {
            assert(longer_ids.take(n) =~= ids);
            assert(longer_targets.take(n) =~= targets);
        }
    }
}

/// A history that was fresh throughout was fresh up to its last request, and
/// its last identifier was unused until then.
pub proof fn lemma_fresh_prefix(start: Mappings, ids: Seq<Seq<char>>, targets: Seq<Seq<char>>)
    requires
        handed_out_fresh(start, ids, targets),
        ids.len() > 0,
    ensures
        handed_out_fresh(start, ids.drop_last(), targets.drop_last()),
        !replay(start, ids.drop_last(), targets.drop_last()).contains_key(ids.last()),
{
    let earlier_ids = ids.drop_last();
    let earlier_targets = targets.drop_last();
    assert forall|n: int| 0 <= n < earlier_ids.len() implies !(#[trigger] replay(
        start,
        earlier_ids.take(n),
        earlier_targets.take(n),
    )).contains_key(earlier_ids[n]) by {
        assert(earlier_ids.take(n) =~= ids.take(n));
        assert(earlier_targets.take(n) =~= targets.take(n));
    }
    let last = ids.len() - 1;
    assert(ids.take(last) =~= earlier_ids);
    assert(targets.take(last) =~= earlier_targets);
    assert(!replay(start, ids.take(last), targets.take(last)).contains_key(ids[last]));
}

/// The keys after a history are the keys it began with and the identifiers
/// handed out, and nothing else.
pub proof fn lemma_keys_after_history(
    start: Mappings,
    ids: Seq<Seq<char>>,
    targets: Seq<Seq<char>>,
    id: Seq<char>,
)
    ensures
        replay(start, ids, targets).contains_key(id) <==> start.contains_key(id) || ids.contains(
            id,
        ),
    decreases ids.len(),
{
    if ids.len() > 0 {
        lemma_keys_after_history(start, ids.drop_last(), targets.drop_last(), id);
        if ids.contains(id) {
            let n = choose|n: int| 0 <= n < ids.len() && ids[n] == id;
            if n < ids.len() - 1 {
                assert(ids.drop_last()[n] == id);
            }
        }
        if ids.drop_last().contains(id) {
            let n = choose|n: int| 0 <= n < ids.drop_last().len() && ids.drop_last()[n] == id;
            assert(ids[n] == id);
        }
    }
}

/// No identifier is handed out twice, and none that was taken at the start.
pub proof fn lemma_ids_are_distinct(start: Mappings, ids: Seq<Seq<char>>, targets: Seq<Seq<char>>)
    requires
        handed_out_fresh(start, ids, targets),
    ensures
        forall|m: int, n: int| 0 <= m < n < ids.len() ==> ids[m] != ids[n],
        forall|n: int| 0 <= n < ids.len() ==> !start.contains_key(#[trigger] ids[n]),
{
    assert forall|n: int| 0 <= n < ids.len() implies !start.contains_key(#[trigger] ids[n]) && (
    forall|m: int| 0 <= m < n ==> ids[m] != ids[n]) by {
        let before = replay(start, ids.take(n), targets.take(n));
        assert(!before.contains_key(ids[n]));
        lemma_keys_after_history(start, ids.take(n), targets.take(n), ids[n]);
        assert forall|m: int| 0 <= m < n implies ids[m] != ids[n] by {
            assert(ids.take(n)[m] == ids[m]);
        }
    }
}

/// Every answered request adds exactly one mapping: the store holds as many
/// more mappings as identifiers were handed out.
pub proof fn lemma_count_after_history(
    start: Mappings,
    ids: Seq<Seq<char>>,
    targets: Seq<Seq<char>>,
)
    requires
        start.dom().finite(),
        handed_out_fresh(start, ids, targets),
    ensures
        replay(start, ids, targets).dom().finite(),
        replay(start, ids, targets).len() == start.len() + ids.len(),
    decreases ids.len(),
{
    if ids.len() > 0 {
        lemma_fresh_prefix(start, ids, targets);
        lemma_count_after_history(start, ids.drop_last(), targets.drop_last());
    }
}

/// Every identifier handed out resolves to the target it was handed out for,
/// however many requests were answered after it.
pub proof fn lemma_every_id_resolves(
    start: Mappings,
    ids: Seq<Seq<char>>,
    targets: Seq<Seq<char>>,
    n: int,
)
    requires
        handed_out_fresh(start, ids, targets),
        0 <= n < ids.len(),
    ensures
        resolution(replay(start, ids, targets), ids[n]) == Ok::<Seq<char>, StoreError>(
            targets[n],
        ),
    decreases ids.len(),
{
    if n < ids.len() - 1 {
        lemma_fresh_prefix(start, ids, targets);
        lemma_every_id_resolves(start, ids.drop_last(), targets.drop_last(), n);
        lemma_ids_are_distinct(start, ids, targets);
    }
}

/// A mapping that was there at the start keeps its target through any
/// history: no request overwrites it.
pub proof fn lemma_earlier_mappings_kept(
    start: Mappings,
    ids: Seq<Seq<char>>,
    targets: Seq<Seq<char>>,
    id: Seq<char>,
)
    requires
        handed_out_fresh(start, ids, targets),
        start.contains_key(id),
    ensures
        resolution(replay(start, ids, targets), id) == resolution(start, id),
    decreases ids.len(),
{
    if ids.len() > 0 {
        lemma_fresh_prefix(start, ids, targets);
        lemma_earlier_mappings_kept(start, ids.drop_last(), targets.drop_last(), id);
        lemma_keys_after_history(start, ids.drop_last(), targets.drop_last(), id);
    }
}

/// An identifier that was neither taken at the start nor handed out since is
/// not found.
pub proof fn lemma_unknown_id_not_found(
    start: Mappings,
    ids: Seq<Seq<char>>,
    targets: Seq<Seq<char>>,
    id: Seq<char>,
)
    requires
        !start.contains_key(id),
        !ids.contains(id),
    ensures
        resolution(replay(start, ids, targets), id) == Err::<Seq<char>, StoreError>(
            StoreError::NotFound,
        ),
{
    lemma_keys_after_history(start, ids, targets, id);
}

/// Right after a request for `target` was answered with `id`, `id` resolves to
/// `target`.
pub proof fn lemma_round_trip(mappings: Mappings, id: Seq<char>, target: Seq<char>)
    ensures
        resolution(with_mapping(mappings, id, target), id) == Ok::<Seq<char>, StoreError>(target),
{
}

/// A lookup gives the same answer before and after another request was
/// answered with an identifier that was unused.
pub proof fn lemma_reads_do_not_drift(
    mappings: Mappings,
    id: Seq<char>,
    other_id: Seq<char>,
    other_target: Seq<char>,
)
    requires
        mappings.contains_key(id),
        !mappings.contains_key(other_id),
    ensures
        resolution(with_mapping(mappings, other_id, other_target), id) == resolution(mappings, id),
{
}

/// One candidate that was offered to a store: for which target, and as which
/// attempt of its request.
pub struct Offered {
    pub candidate: Seq<char>,
    pub target: Seq<char>,
    pub attempt: nat,
}

/// What the store of `mappings` answers to `offered`.
pub open spec fn outcome_of(mappings: Mappings, offered: Offered, max_attempts: nat) -> Offer {
    offer_outcome(mappings, offered.candidate, offered.attempt, max_attempts)
}

/// The mappings after `offers` have reached a store that began with `start`,
/// one after another in the order given.
pub open spec fn after_offers(start: Mappings, offers: Seq<Offered>, max_attempts: nat) -> Mappings
    decreases offers.len(),
{
    if offers.len() == 0 {
        start
    } else {
        let before = after_offers(start, offers.drop_last(), max_attempts);
        if outcome_of(before, offers.last(), max_attempts) == Offer::Bound {
            with_mapping(before, offers.last().candidate, offers.last().target)
        } else {
            before
        }
    }
}

/// The `n`-th of `offers` was bound when it reached the store.
pub open spec fn was_bound(
    start: Mappings,
    offers: Seq<Offered>,
    max_attempts: nat,
    n: int,
) -> bool {
    &&& 0 <= n < offers.len()
    &&& outcome_of(after_offers(start, offers.take(n), max_attempts), offers[n], max_attempts)
        == Offer::Bound
}

/// The candidates among `offers` that were bound, in the order in which they
/// were bound.
pub open spec fn bound_ids(start: Mappings, offers: Seq<Offered>, max_attempts: nat) -> Seq<
    Seq<char>,
>
    decreases offers.len(),
{
    if offers.len() == 0 {
        Seq::empty()
    } else {
        let earlier = bound_ids(start, offers.drop_last(), max_attempts);
        let before = after_offers(start, offers.drop_last(), max_attempts);
        if outcome_of(before, offers.last(), max_attempts) == Offer::Bound {
            earlier.push(offers.last().candidate)
        } else {
            earlier
        }
    }
}

/// The targets that the candidates of `bound_ids` were bound to, in the same
/// order.
pub open spec fn bound_targets(
    start: Mappings,
    offers: Seq<Offered>,
    max_attempts: nat,
) -> Seq<Seq<char>>
    decreases offers.len(),
{
    if offers.len() == 0 {
        Seq::empty()
    } else {
        let earlier = bound_targets(start, offers.drop_last(), max_attempts);
        let before = after_offers(start, offers.drop_last(), max_attempts);
        if outcome_of(before, offers.last(), max_attempts) == Offer::Bound {
            earlier.push(offers.last().target)
        } else {
            earlier
        }
    }
}

/// In whatever order the offers of any number of requests reach a store, the
/// ones that are bound make up a fresh history, and the store holds what the
/// replay of that history holds. So all that is said of histories above holds
/// of interleaved requests too.
pub proof fn lemma_offers_make_a_history(
    start: Mappings,
    offers: Seq<Offered>,
    max_attempts: nat,
)
    ensures
        handed_out_fresh(
            start,
            bound_ids(start, offers, max_attempts),
            bound_targets(start, offers, max_attempts),
        ),
        after_offers(start, offers, max_attempts) == replay(
            start,
            bound_ids(start, offers, max_attempts),
            bound_targets(start, offers, max_attempts),
        ),
    decreases offers.len(),
{
    if offers.len() == 0 {
        assert(handed_out_fresh(start, Seq::empty(), Seq::empty()));
    } else {
        let earlier = offers.drop_last();
        lemma_offers_make_a_history(start, earlier, max_attempts);
        let before = after_offers(start, earlier, max_attempts);
        if outcome_of(before, offers.last(), max_attempts) == Offer::Bound {
            lemma_history_extends(
                start,
                bound_ids(start, earlier, max_attempts),
                bound_targets(start, earlier, max_attempts),
                offers.last().candidate,
                offers.last().target,
            );
        }
    }
}

/// The store grows by one mapping for every offer that was bound, and by
/// nothing else.
pub proof fn lemma_count_after_offers(start: Mappings, offers: Seq<Offered>, max_attempts: nat)
    requires
        start.dom().finite(),
    ensures
        after_offers(start, offers, max_attempts).dom().finite(),
        after_offers(start, offers, max_attempts).len() == start.len() + bound_ids(
            start,
            offers,
            max_attempts,
        ).len(),
{
    lemma_offers_make_a_history(start, offers, max_attempts);
    lemma_count_after_history(
        start,
        bound_ids(start, offers, max_attempts),
        bound_targets(start, offers, max_attempts),
    );
}

/// A mapping that is there after the first `n` offers is still there, with
/// the same target, after all of them.
pub proof fn lemma_offers_keep_mappings(
    start: Mappings,
    offers: Seq<Offered>,
    max_attempts: nat,
    n: int,
    id: Seq<char>,
)
    requires
        0 <= n <= offers.len(),
        after_offers(start, offers.take(n), max_attempts).contains_key(id),
    ensures
        resolution(after_offers(start, offers, max_attempts), id) == resolution(
            after_offers(start, offers.take(n), max_attempts),
            id,
        ),
    decreases offers.len(),
{
    if n == offers.len() {
        assert(offers.take(n) =~= offers);
    } else {
        let earlier = offers.drop_last();
        assert(earlier.take(n) =~= offers.take(n));
        lemma_offers_keep_mappings(start, earlier, max_attempts, n, id);
    }
}

/// An offer that was bound resolves to its own target ever after, whatever
/// offers of whatever requests came before it or come after it.
pub proof fn lemma_bound_offer_resolves(
    start: Mappings,
    offers: Seq<Offered>,
    max_attempts: nat,
    n: int,
)
    requires
        was_bound(start, offers, max_attempts, n),
    ensures
        resolution(after_offers(start, offers, max_attempts), offers[n].candidate) == Ok::<
            Seq<char>,
            StoreError,
        >(offers[n].target),
{
    let upto = offers.take(n + 1);
    assert(upto.drop_last() =~= offers.take(n));
    assert(upto.last() == offers[n]);
    lemma_offers_keep_mappings(start, offers, max_attempts, n + 1, offers[n].candidate);
}

/// No identifier is bound by two offers.
pub proof fn lemma_bound_offers_are_distinct(
    start: Mappings,
    offers: Seq<Offered>,
    max_attempts: nat,
    m: int,
    n: int,
)
    requires
        m < n,
        was_bound(start, offers, max_attempts, m),
        was_bound(start, offers, max_attempts, n),
    ensures
        offers[m].candidate != offers[n].candidate,
{
    let upto = offers.take(n);
    assert(upto.take(m) =~= offers.take(m));
    assert(upto.take(m + 1) =~= offers.take(m + 1));
    assert(was_bound(start, upto, max_attempts, m));
    lemma_bound_offer_resolves(start, upto, max_attempts, m);
}

} // verus!
