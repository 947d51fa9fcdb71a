//! What holds of every routing decision.
use crate::auth;
use crate::binary64;
use crate::config::laws;
use crate::config::rules;
use crate::config::view_laws;
use crate::config::{Backend, BackendView, Privacy, VirtualKeyView};
use crate::router;
use crate::router::{
    ConfiguredPolicy, EwmaLatency, EwmaView, Policy, PrivacyClass, Private, QueryView, RouteError,
    RouteQuery, Shareable, StaticPriority,
};
use vstd::prelude::*;

verus! {

/// One of the backends may serve the query under privacy class `P`.
pub open spec fn eligible_exists<P: PrivacyClass>(
    backends: Seq<Backend>,
    query: QueryView,
) -> bool {
    exists|i: int|
        0 <= i < backends.len() && router::eligible::<P>((#[trigger] backends[i])@, query)
}

/// `places` says where in `backends` each of the `picked` stands, in order.
pub open spec fn picked_in_order(
    picked: Seq<Backend>,
    backends: Seq<Backend>,
    places: Seq<int>,
) -> bool {
    &&& places.len() == picked.len()
    &&& forall|k: int|
        0 <= k < picked.len() ==> 0 <= #[trigger] places[k] < backends.len() && picked[k]
            == backends[places[k]]
    &&& forall|k: int, l: int|
        0 <= k < l < places.len() ==> #[trigger] places[k] < #[trigger] places[l]
}

/// The candidates are the eligible backends, all of them and no others, each in
/// its place: config order is preserved.
pub proof fn lemma_candidates_are_the_eligible<P: PrivacyClass>(
    backends: Seq<Backend>,
    query: QueryView,
) -> (places: Seq<int>)
    ensures
        picked_in_order(router::candidates_of::<P>(backends, query), backends, places),
        forall|i: int|
            0 <= i < backends.len() ==> (router::eligible::<P>((#[trigger] backends[i])@, query)
                <==> places.contains(i)),
    decreases backends.len(),
{
    let picked = router::candidates_of::<P>(backends, query);
    if backends.len() == 0 {
        Seq::empty()
    } else {
        let earlier = backends.drop_last();
        let before = lemma_candidates_are_the_eligible::<P>(earlier, query);
        let n = backends.len() - 1;
        let places = if router::eligible::<P>(backends.last()@, query) {
            before.push(n)
        } else {
            before
        };
        assert forall|i: int| 0 <= i < backends.len() implies (router::eligible::<P>(
            (#[trigger] backends[i])@,
            query,
        ) <==> places.contains(i)) by {
            if i < n {
                assert(earlier[i] == backends[i]);
                if before.contains(i) {
                    let k = choose|k: int| 0 <= k < before.len() && before[k] == i;
                    assert(places[k] == i);
                }
                if places.contains(i) {
                    let k = choose|k: int| 0 <= k < places.len() && places[k] == i;
                    assert(before[k] == i);
                }
            } else {
                if router::eligible::<P>(backends[i]@, query) {
                    assert(places[before.len() as int] == i);
                } else if places.contains(i) {
                    let k = choose|k: int| 0 <= k < places.len() && places[k] == i;
                    assert(before[k] < n);
                }
            }
        }
        places
    }
}

/// Whatever index a policy comes up with, out of range or not, a selected
/// backend is one of the table and eligible for the query.
pub proof fn lemma_selection_is_always_eligible<P: PrivacyClass>(
    backends: Seq<Backend>,
    query: QueryView,
    choice: Option<usize>,
)
    ensures
        router::chosen(router::candidates_of::<P>(backends, query), choice) matches Some(b)
            ==> backends.contains(b) && router::eligible::<P>(b@, query),
{
    let places = lemma_candidates_are_the_eligible::<P>(backends, query);
    let picked = router::candidates_of::<P>(backends, query);
    if let Some(b) = router::chosen(picked, choice) {
        let k = choice->0 as int;
        assert(backends[places[k]] == b);
        assert(places.contains(places[k]));
        assert(router::eligible::<P>(backends[places[k]]@, query));
    }
}

/// THE invariant: no private request ever resolves to an `External` backend,
/// for any backend table, query or policy, an adversarial one included.
pub proof fn lemma_private_never_routes_external(
    backends: Seq<Backend>,
    query: QueryView,
    choice: Option<usize>,
)
    ensures
        router::chosen(router::candidates_of::<Private>(backends, query), choice) matches Some(b)
            ==> b.privacy == Privacy::Local && b@.serves(query.model) && b@.has_tags(
            query.required_tags,
        ),
{
    lemma_selection_is_always_eligible::<Private>(backends, query, choice);
}

/// A virtual key with `enforce_private` keeps all of its traffic on local
/// backends: its requests are admitted as private, and whatever else marks or
/// does not mark a request, no policy gets it to an `External` backend.
pub proof fn lemma_private_keys_stay_local(
    keys: Seq<VirtualKeyView>,
    i: int,
    marker: bool,
    backends: Seq<Backend>,
    query: QueryView,
    choice: Option<usize>,
)
    requires
        laws::sound_keys(keys),
        0 <= i < keys.len(),
        keys[i].enforce_private,
    ensures
        auth::caller(auth::key_table(keys), Some("Bearer "@ + keys[i].key)) matches Ok(id) && (
        router::chosen(
            router::offered(backends, query, id.enforce_private || marker),
            choice,
        ) matches Some(b) ==> b.privacy == Privacy::Local),
{
    auth::lemma_each_key_is_admitted_as_itself(keys, i);
    lemma_private_never_routes_external(backends, query, choice);
}

/// The policy is honest: given candidates, it picks one of them.
pub open spec fn honest<Q: Policy + ?Sized>(policy: &Q) -> bool {
    forall|candidates: Seq<Backend>, choice: Option<usize>|
        candidates.len() > 0 && #[trigger] policy.permits(candidates, choice) ==> (
        choice matches Some(i) && i < candidates.len())
}

/// The policies of this crate are honest.
pub proof fn lemma_built_in_policies_are_honest(
    fixed: StaticPriority,
    ewma: EwmaLatency,
    configured: ConfiguredPolicy,
)
    ensures
        honest(&fixed),
        honest(&ewma),
        honest(&configured),
{
}

/// An honest policy finds a backend exactly when an eligible one exists.
pub proof fn lemma_honest_policies_are_complete<P: PrivacyClass, Q: Policy + ?Sized>(
    policy: &Q,
    backends: Seq<Backend>,
    query: QueryView,
    choice: Option<usize>,
)
    requires
        honest(policy),
        policy.permits(router::candidates_of::<P>(backends, query), choice),
    ensures
        router::chosen(router::candidates_of::<P>(backends, query), choice) is Some
            <==> eligible_exists::<P>(backends, query),
{
    let picked = router::candidates_of::<P>(backends, query);
    let places = lemma_candidates_are_the_eligible::<P>(backends, query);
    if eligible_exists::<P>(backends, query) {
        let i = choose|i: int|
            0 <= i < backends.len() && router::eligible::<P>((#[trigger] backends[i])@, query);
        assert(places.contains(i));
    }
    if picked.len() > 0 {
        assert(places.contains(places[0]));
        assert(router::eligible::<P>(backends[places[0]]@, query));
    }
}

/// With no eligible backend, every policy comes away empty-handed.
pub proof fn lemma_no_policy_conjures_a_backend<P: PrivacyClass>(
    backends: Seq<Backend>,
    query: QueryView,
    choice: Option<usize>,
)
    requires
        !eligible_exists::<P>(backends, query),
    ensures
        router::chosen(router::candidates_of::<P>(backends, query), choice) is None,
{
    lemma_selection_is_always_eligible::<P>(backends, query, choice);
    if let Some(b) = router::chosen(router::candidates_of::<P>(backends, query), choice) {
        let i = choose|i: int| 0 <= i < backends.len() && backends[i] == b;
        assert(router::eligible::<P>(backends[i]@, query));
    }
}

/// Static priority selects the first eligible backend in config order.
pub proof fn lemma_static_priority_takes_the_first<P: PrivacyClass>(
    backends: Seq<Backend>,
    query: QueryView,
    choice: Option<usize>,
    i: int,
)
    requires
        StaticPriority.permits(router::candidates_of::<P>(backends, query), choice),
        0 <= i < backends.len(),
        router::eligible::<P>(backends[i]@, query),
        forall|j: int| 0 <= j < i ==> !router::eligible::<P>((#[trigger] backends[j])@, query),
    ensures
        router::chosen(router::candidates_of::<P>(backends, query), choice) == Some(backends[i]),
{
    let places = lemma_candidates_are_the_eligible::<P>(backends, query);
    assert(places.contains(i));
    let k = choose|k: int| 0 <= k < places.len() && places[k] == i;
    assert(places.contains(places[0]));
    assert(router::eligible::<P>(backends[places[0]]@, query));
    if k > 0 {
        assert(places[0] < places[k]);
    }
}

/// Marking a request private only takes backends away: its candidates are the
/// local ones among those of the same request unmarked, in the same order.
pub proof fn lemma_private_candidates_are_the_local_ones(backends: Seq<Backend>, query: QueryView)
    ensures
        router::candidates_of::<Private>(backends, query) == local_ones(
            router::candidates_of::<Shareable>(backends, query),
        ),
    decreases backends.len(),
{
    if backends.len() > 0 {
        let earlier = backends.drop_last();
        lemma_private_candidates_are_the_local_ones(earlier, query);
        let shareable = router::candidates_of::<Shareable>(earlier, query);
        assert(shareable.push(backends.last()).drop_last() == shareable);
    }
}

/// The local ones among `backends`, in the same order.
pub open spec fn local_ones(backends: Seq<Backend>) -> Seq<Backend>
    decreases backends.len(),
{
    if backends.len() == 0 {
        Seq::empty()
    } else {
        let earlier = local_ones(backends.drop_last());
        if backends.last().privacy == Privacy::Local {
            earlier.push(backends.last())
        } else {
            earlier
        }
    }
}

/// The latency policy leaves nothing open: what it picks is determined by the
/// scores, ties breaking toward config order.
pub proof fn lemma_ewma_pick_is_determined(
    ewma: EwmaView,
    candidates: Seq<Backend>,
    choice: Option<usize>,
    other: Option<usize>,
)
    requires
        ewma.picks(candidates, choice),
        ewma.picks(candidates, other),
    ensures
        choice == other,
{
    if choice is Some && other is Some {
        let i = choice->0 as int;
        let j = other->0 as int;
        let first = binary64::total_rank(ewma.score(candidates[i].name@));
        let second = binary64::total_rank(ewma.score(candidates[j].name@));
        assert(first <= second && second <= first);
    }
}

/// Cold backends get probed instead of starved: while a candidate has no sample
/// and the averages of the others are positive, a candidate without a sample is
/// picked.
pub proof fn lemma_cold_backends_are_probed(
    ewma: EwmaView,
    candidates: Seq<Backend>,
    choice: Option<usize>,
    cold: int,
)
    requires
        ewma.picks(candidates, choice),
        0 <= cold < candidates.len(),
        !ewma.stats.contains_key(candidates[cold].name@),
        forall|j: int|
            0 <= j < candidates.len() && ewma.stats.contains_key(
                (#[trigger] candidates[j]).name@,
            ) ==> binary64::total_rank(ewma.stats[candidates[j].name@]) > 0,
    ensures
        choice is Some,
        !ewma.stats.contains_key(candidates[choice->0 as int].name@),
{
    let i = choice->0 as int;
    assert(binary64::total_rank(ewma.score(candidates[i].name@)) <= binary64::total_rank(
        ewma.score(candidates[cold].name@),
    ));
}

/// Who may serve a request: under `Private` only local backends, under
/// `Shareable` all of them; and always only those that list the model and, for
/// each required tag, list the tag.
pub proof fn lemma_eligibility(b: BackendView, query: QueryView)
    ensures
        router::eligible::<Shareable>(b, query) <==> (exists|i: int|
            0 <= i < b.models.len() && #[trigger] b.models[i] == query.model) && (forall|t: int|
            0 <= t < query.required_tags.len() ==> b.capability_tags.contains(
                #[trigger] query.required_tags[t],
            )),
        router::eligible::<Private>(b, query) <==> b.privacy == Privacy::Local
            && router::eligible::<Shareable>(b, query),
        router::eligible::<Private>(b, query) ==> b.privacy != Privacy::External,
{
    rules::lemma_serves_exactly_the_listed(b, query.model);
}

/// A backend that lists the model, at whatever place among its models and
/// wherever in the table it stands, is a candidate for a request without
/// required tags; a local one also for a private request.
pub proof fn lemma_listed_model_is_served(
    backends: Seq<Backend>,
    k: int,
    i: int,
    query: QueryView,
)
    requires
        0 <= k < backends.len(),
        0 <= i < backends[k].models@.len(),
        backends[k].models@[i]@ == query.model,
        query.required_tags.len() == 0,
    ensures
        router::offered(backends, query, false).contains(backends[k]),
        backends[k].privacy == Privacy::Local ==> router::offered(backends, query, true).contains(
            backends[k],
        ),
{
    let b = backends[k];
    view_laws::lemma_backend_view(b);
    assert(b@.models[i] == query.model);
    rules::lemma_serves_exactly_the_listed(b@, query.model);
    lemma_eligible_is_offered::<Shareable>(backends, k, query);
    if b.privacy == Privacy::Local {
        lemma_eligible_is_offered::<Private>(backends, k, query);
    }
}

proof fn lemma_eligible_is_offered<P: PrivacyClass>(
    backends: Seq<Backend>,
    k: int,
    query: QueryView,
)
    requires
        0 <= k < backends.len(),
    ensures
        router::eligible::<P>(backends[k]@, query) ==> router::candidates_of::<P>(
            backends,
            query,
        ).contains(backends[k]),
{
    let places = lemma_candidates_are_the_eligible::<P>(backends, query);
    let picked = router::candidates_of::<P>(backends, query);
    if router::eligible::<P>(backends[k]@, query) {
        assert(places.contains(k));
        let n = choose|n: int| 0 <= n < places.len() && places[n] == k;
        assert(picked[n] == backends[k]);
    }
}

/// The only backend of a table is found for every model that it lists, at
/// whatever place, by every honest policy; a local one also for a private
/// request.
pub proof fn lemma_single_backend<Q: Policy + ?Sized>(
    policy: &Q,
    b: Backend,
    query: QueryView,
    mark_private: bool,
    choice: Option<usize>,
    r: Result<&Backend, RouteError>,
)
    requires
        honest(policy),
        policy.permits(router::offered(seq![b], query, mark_private), choice),
        router::is_answer(
            r,
            router::offered(seq![b], query, mark_private),
            choice,
            query,
            router::class_label(mark_private),
        ),
        mark_private ==> b.privacy == Privacy::Local,
        exists|i: int| 0 <= i < b.models@.len() && (#[trigger] b.models@[i])@ == query.model,
        query.required_tags.len() == 0,
    ensures
        router::offered(seq![b], query, mark_private) == seq![b],
        r matches Ok(found) && *found == b,
{
    let i = choose|i: int| 0 <= i < b.models@.len() && (#[trigger] b.models@[i])@ == query.model;
    let table = seq![b];
    lemma_listed_model_is_served(table, 0, i, query);
    let found = router::offered(table, query, mark_private);
    if mark_private {
        lemma_one_at_most::<Private>(b, query);
    } else {
        lemma_one_at_most::<Shareable>(b, query);
    }
    assert(found =~= table);
    assert(choice == Some(0usize));
    lemma_answer_follows_the_index(
        r,
        found,
        choice,
        query,
        router::class_label(mark_private),
    );
}

proof fn lemma_one_at_most<P: PrivacyClass>(b: Backend, query: QueryView)
    ensures
        router::candidates_of::<P>(seq![b], query).len() <= 1,
        router::candidates_of::<P>(seq![b], query).len() == 1 ==> router::candidates_of::<P>(
            seq![b],
            query,
        )[0] == b,
{
    let places = lemma_candidates_are_the_eligible::<P>(seq![b], query);
    if places.len() > 0 {
        assert(0 <= places[0] < 1);
    }
    if places.len() > 1 {
        assert(places[0] < places[1]);
        assert(places[1] < 1);
    }
}

/// What is offered to the policy: for a private request the local ones of what
/// is offered otherwise; each offered backend stands in the table.
pub proof fn lemma_offers(backends: Seq<Backend>, query: QueryView)
    ensures
        router::offered(backends, query, true) == local_ones(
            router::offered(backends, query, false),
        ),
        forall|i: int|
            0 <= i < router::offered(backends, query, true).len() ==> (
            #[trigger] router::offered(backends, query, true)[i]).privacy == Privacy::Local,
        router::class_label(true) == "private"@,
        router::class_label(false) == "shareable"@,
{
    lemma_private_candidates_are_the_local_ones(backends, query);
    assert forall|i: int| 0 <= i < router::offered(backends, query, true).len() implies (
    #[trigger] router::offered(backends, query, true)[i]).privacy == Privacy::Local by {
        lemma_offered_are_local(backends, query, i);
    }
}

proof fn lemma_offered_are_local(backends: Seq<Backend>, query: QueryView, i: int)
    requires
        0 <= i < router::candidates_of::<Private>(backends, query).len(),
    ensures
        router::candidates_of::<Private>(backends, query)[i].privacy == Privacy::Local,
{
    let places = lemma_candidates_are_the_eligible::<Private>(backends, query);
    assert(places.contains(places[i]));
    assert(router::eligible::<Private>(backends[places[i]]@, query));
}

/// A policy's index stands for the candidate at that place, and an index out of
/// range or none for no candidate.
pub proof fn lemma_index_stands_for_candidate(candidates: Seq<Backend>, i: usize)
    ensures
        i < candidates.len() ==> router::chosen(candidates, Some(i)) == Some(candidates[i as int]),
        i >= candidates.len() ==> router::chosen(candidates, Some(i)) is None,
        router::chosen(candidates, None) is None,
{
}

/// What routing answers: the backend at the policy's index; and where the policy
/// declines or its index is out of range, an error that repeats the request.
pub proof fn lemma_answer_follows_the_index(
    r: Result<&Backend, RouteError>,
    candidates: Seq<Backend>,
    choice: Option<usize>,
    query: QueryView,
    label: Seq<char>,
)
    requires
        router::is_answer(r, candidates, choice, query, label),
    ensures
        choice matches Some(i) ==> (i < candidates.len() ==> (r matches Ok(b) && *b
            == candidates[i as int])),
        (choice is None || choice->0 >= candidates.len()) ==> (r matches Err(
            RouteError::NoEligibleBackend { model, required_tags, privacy },
        ) && model@ == query.model && privacy@ == label && view_laws::lists_all(
            query.required_tags,
            required_tags@,
        )),
{
}

/// A query's view says all of it.
pub proof fn lemma_query_view(query: RouteQuery)
    ensures
        query@.model == query.model@,
        view_laws::lists_all(query@.required_tags, query.required_tags@),
{
}

/// Static priority answers the first place exactly if there is one.
pub proof fn lemma_static_priority_answers(candidates: Seq<Backend>, choice: Option<usize>)
    requires
        StaticPriority.permits(candidates, choice),
    ensures
        candidates.len() > 0 ==> choice == Some(0usize),
        candidates.len() == 0 ==> choice is None,
{
}

/// The latency that a backend counts with: its recorded moving average, or 0 if
/// nothing was recorded.
pub open spec fn counted_latency(stats: Map<Seq<char>, u64>, name: Seq<char>) -> u64 {
    if stats.contains_key(name) {
        stats[name]
    } else {
        0
    }
}

/// The latency policy picks the backend whose recorded moving average, as it
/// stands, is the lowest in the total order, a backend without a record counting
/// as 0; of several lowest ones it picks the first.
pub proof fn lemma_lowest_average_is_picked(
    policy: EwmaLatency,
    candidates: Seq<Backend>,
    choice: Option<usize>,
)
    requires
        policy.permits(candidates, choice),
    ensures
        choice is Some <==> candidates.len() > 0,
        choice matches Some(i) ==> {
            let stats = policy@.stats;
            &&& i < candidates.len()
            &&& forall|j: int|
                0 <= j < candidates.len() ==> binary64::total_rank(
                    counted_latency(stats, candidates[i as int].name@),
                ) <= binary64::total_rank(
                    counted_latency(stats, (#[trigger] candidates[j]).name@),
                )
            &&& forall|j: int|
                0 <= j < i ==> binary64::total_rank(
                    counted_latency(stats, candidates[i as int].name@),
                ) < binary64::total_rank(
                    counted_latency(stats, (#[trigger] candidates[j]).name@),
                )
        },
{
    if let Some(i) = choice {
        let view = policy@;
        assert(view.is_best(candidates, i as int));
        assert forall|j: int| 0 <= j < candidates.len() implies view.score(
            (#[trigger] candidates[j]).name@,
        ) == counted_latency(view.stats, candidates[j].name@) by {
        }
    }
}

/// If every candidate has a recorded average, the picked one's is the lowest of
/// them in the total order of `f64`, and strictly lower than those before it.
pub proof fn lemma_lowest_of_recorded_averages(
    ewma: EwmaView,
    candidates: Seq<Backend>,
    choice: Option<usize>,
)
    requires
        ewma.picks(candidates, choice),
        candidates.len() > 0,
        forall|j: int|
            0 <= j < candidates.len() ==> ewma.stats.contains_key((#[trigger] candidates[j]).name@),
    ensures
        choice matches Some(i) && i < candidates.len() && (forall|j: int|
            0 <= j < candidates.len() ==> binary64::total_rank(
                ewma.stats[candidates[i as int].name@],
            ) <= binary64::total_rank(ewma.stats[(#[trigger] candidates[j]).name@])) && (forall|
            j: int,
        |
            0 <= j < i ==> binary64::total_rank(ewma.stats[candidates[i as int].name@])
                < binary64::total_rank(ewma.stats[(#[trigger] candidates[j]).name@])),
{
    let i = choice->0 as int;
    assert(ewma.is_best(candidates, i));
    assert(ewma.stats.contains_key(candidates[i].name@));
    assert(ewma.score(candidates[i].name@) == ewma.stats[candidates[i].name@]);
    assert forall|j: int| 0 <= j < candidates.len() implies ewma.score(
        (#[trigger] candidates[j]).name@,
    ) == ewma.stats[candidates[j].name@] by {
        assert(ewma.stats.contains_key(candidates[j].name@));
    }
}

/// The policy that a configuration asks for answers as the plain one does.
pub proof fn lemma_configured_policy_answers_as_the_plain_one(
    fixed: StaticPriority,
    ewma: EwmaLatency,
    candidates: Seq<Backend>,
    choice: Option<usize>,
)
    ensures
        ConfiguredPolicy::Static(fixed).permits(candidates, choice) <==> fixed.permits(
            candidates,
            choice,
        ),
        ConfiguredPolicy::Ewma(ewma).permits(candidates, choice) <==> ewma.permits(
            candidates,
            choice,
        ),
        ewma.permits(candidates, choice) <==> ewma@.picks(candidates, choice),
{
}

}
