//! Policy-driven backend selection with **type-enforced privacy routing**.
//!
//! # The privacy guarantee
//!
//! A request routed as private must never reach an [`Privacy::External`]
//! backend. The constraint is carried by types:
//!
//! 1. Classification happens exactly once: [`ClassifiedQuery::classify`] turns
//!    a raw [`RouteQuery`] into either a `TypedQuery<Private>` or a
//!    `TypedQuery<Shareable>`. The [`PrivacyClass`] trait that the two markers
//!    implement is sealed, so no downstream code can invent a third class.
//!
//! 2. The only way to obtain routing candidates is [`Candidates::gather`],
//!    whose filter is driven by [`PrivacyClass::admits`]. That every candidate
//!    is admitted is an invariant of the type.
//!
//! 3. Policies never hand back backends: they return an *index* into the
//!    candidate list ([`Policy::pick`]), and [`Candidates::select`]
//!    bounds-checks it. Even a buggy or adversarial policy that returns an
//!    out-of-range index can only ever yield a backend that survived the filter.
//!
//! The result of selection is a [`Selection`], a backend reference *witnessed*
//! by the privacy class it was filtered under.
use crate::binary64;
use crate::config::laws;
use crate::config::resolve;
use crate::config::{Backend, BackendView, GatewayConfig, PolicySelection, Privacy};
use crate::sealed;
use crate::text;
use std::marker::PhantomData;
use std::sync::Arc;
use vstd::hash_map::StringHashMap;
use vstd::prelude::*;

verus! {

/// Type-level privacy class of a request. Sealed: `Private` and `Shareable`
/// are the only implementations, mirroring the closed [`Privacy`] enum.
pub trait PrivacyClass: sealed::Sealed {
    /// Backends with this placement may serve requests of this class.
    spec fn admitted(privacy: Privacy) -> bool;

    /// May a backend with this placement serve requests of this class?
    fn admits(privacy: Privacy) -> (r: bool)
        ensures
            r == Self::admitted(privacy),
    ;

    /// Human-readable label for errors/logs.
    const LABEL: &'static str;
}

/// Marker for requests that must stay on operator-controlled infrastructure.
/// Used only as a type parameter.
#[derive(Debug)]
pub enum Private {
    Never(sealed::Never),
}

/// Marker for requests free to use any backend.
/// Used only as a type parameter.
#[derive(Debug)]
pub enum Shareable {
    Never(sealed::Never),
}

impl sealed::Sealed for Private {

}

impl PrivacyClass for Private {
    open spec fn admitted(privacy: Privacy) -> bool {
        privacy == Privacy::Local
    }

    fn admits(privacy: Privacy) -> (r: bool) {
        privacy == Privacy::Local
    }

    const LABEL: &'static str = "private";
}

impl sealed::Sealed for Shareable {

}

impl PrivacyClass for Shareable {
    open spec fn admitted(privacy: Privacy) -> bool {
        true
    }

    fn admits(privacy: Privacy) -> (r: bool) {
        true
    }

    const LABEL: &'static str = "shareable";
}

/// What a request asks of the routing layer, before classification.
#[derive(Debug)]
pub struct RouteQuery {
    /// Model identifier the client requested (exact match).
    pub model: String,
    /// Capability tags the serving backend must have (all of them).
    pub required_tags: Vec<String>,
}

pub struct QueryView {
    pub model: Seq<char>,
    pub required_tags: Seq<Seq<char>>,
}

impl View for RouteQuery {
    type V = QueryView;

    open spec fn view(&self) -> QueryView {
        QueryView { model: self.model@, required_tags: text::texts(self.required_tags@) }
    }
}

impl Clone for RouteQuery {
    fn clone(&self) -> (r: Self)
        ensures
            r@ == self@,
    {
        RouteQuery {
            model: self.model.clone(),
            required_tags: text::copy_strings(self.required_tags.as_slice()),
        }
    }
}

impl RouteQuery {
    pub fn new(model: &str) -> (r: Self)
        ensures
            r@ == (QueryView { model: model@, required_tags: Seq::empty() }),
    {
        let r = RouteQuery { model: model.to_owned(), required_tags: Vec::new() };
        assert(r@.required_tags == Seq::<Seq<char>>::empty());
        r
    }

    pub fn with_tags(self, tags: Vec<String>) -> (r: Self)
        ensures
            r@ == (QueryView { required_tags: text::texts(tags@), ..self@ }),
    {
        RouteQuery { model: self.model, required_tags: tags }
    }
}

/// A query stamped with its privacy class. Constructed only via
/// [`ClassifiedQuery::classify`], the single classification point.
pub struct TypedQuery<P: PrivacyClass> {
    query: RouteQuery,
    _class: PhantomData<P>,
}

impl<P: PrivacyClass> View for TypedQuery<P> {
    type V = QueryView;

    closed spec fn view(&self) -> QueryView {
        self.query@
    }
}

impl<P: PrivacyClass> TypedQuery<P> {
    pub fn model(&self) -> (r: &str)
        ensures
            r@ == self@.model,
    {
        self.query.model.as_str()
    }

    pub fn required_tags(&self) -> (r: &[String])
        ensures
            text::texts(r@) == self@.required_tags,
    {
        self.query.required_tags.as_slice()
    }
}

/// The one place a request's privacy is decided.
pub enum ClassifiedQuery {
    Private(TypedQuery<Private>),
    Shareable(TypedQuery<Shareable>),
}

impl ClassifiedQuery {
    /// `mark_private` is the OR of every privacy signal the server layer
    /// collects (virtual key `enforce_private`, per-request markers, ...).
    pub fn classify(query: RouteQuery, mark_private: bool) -> (r: Self)
        ensures
            mark_private ==> (r matches ClassifiedQuery::Private(q) && q@ == query@),
            !mark_private ==> (r matches ClassifiedQuery::Shareable(q) && q@ == query@),
    {
        if mark_private {
            ClassifiedQuery::Private(TypedQuery { query, _class: PhantomData })
        } else {
            ClassifiedQuery::Shareable(TypedQuery { query, _class: PhantomData })
        }
    }
}

/// The backend may serve the query under privacy class `P`: the class admits
/// it, the model is served and all required capability tags are present.
pub open spec fn eligible<P: PrivacyClass>(b: BackendView, query: QueryView) -> bool {
    &&& P::admitted(b.privacy)
    &&& b.serves(query.model)
    &&& b.has_tags(query.required_tags)
}

/// The eligible ones among `backends`, in the same order.
pub open spec fn candidates_of<P: PrivacyClass>(
    backends: Seq<Backend>,
    query: QueryView,
) -> Seq<Backend>
    decreases backends.len(),
{
    if backends.len() == 0 {
        Seq::empty()
    } else {
        let earlier = candidates_of::<P>(backends.drop_last(), query);
        if eligible::<P>(backends.last()@, query) {
            earlier.push(backends.last())
        } else {
            earlier
        }
    }
}

/// The candidates for a query, given whether it is marked private.
pub open spec fn offered(
    backends: Seq<Backend>,
    query: QueryView,
    mark_private: bool,
) -> Seq<Backend> {
    if mark_private {
        candidates_of::<Private>(backends, query)
    } else {
        candidates_of::<Shareable>(backends, query)
    }
}

/// The label of the privacy class that a query is routed under.
pub open spec fn class_label(mark_private: bool) -> Seq<char> {
    if mark_private {
        "private"@
    } else {
        "shareable"@
    }
}

/// The candidate that a policy's choice stands for: none if the policy declines
/// or its index is out of range.
pub open spec fn chosen(candidates: Seq<Backend>, choice: Option<usize>) -> Option<Backend> {
    match choice {
        Some(i) => if i < candidates.len() {
            Some(candidates[i as int])
        } else {
            None
        },
        None => None,
    }
}

/// Backends eligible for one classified query, witnessed by privacy class
/// `P`. [`Candidates::gather`] is the only constructor, and it filters through
/// [`PrivacyClass::admits`].
pub struct Candidates<'a, P: PrivacyClass> {
    items: Vec<&'a Backend>,
    _class: PhantomData<P>,
}

impl<'a, P: PrivacyClass> View for Candidates<'a, P> {
    type V = Seq<Backend>;

    closed spec fn view(&self) -> Seq<Backend> {
        self.items@.unref()
    }
}

impl<'a, P: PrivacyClass> Candidates<'a, P> {
    /// Every candidate is admitted by the class.
    #[verifier::type_invariant]
    spec fn all_admitted(self) -> bool {
        forall|i: int| 0 <= i < self.items@.len() ==> P::admitted((#[trigger] self.items@[i]).privacy)
    }

    /// Filter `backends` down to those that may serve `query`: privacy class
    /// admits the backend, the model is served, and all required capability
    /// tags are present. Config order is preserved (policies treat earlier
    /// entries as higher static priority).
    pub fn gather(query: &TypedQuery<P>, backends: &'a [Backend]) -> (r: Self)
        ensures
            r@ == candidates_of::<P>(backends@, query@),
    {
        let mut items: Vec<&'a Backend> = Vec::new();
        assert(items@.unref() == candidates_of::<P>(backends@.take(0), query@));
        for i in 0..backends.len()
            invariant
                items@.unref() == candidates_of::<P>(backends@.take(i as int), query@),
                forall|k: int| 0 <= k < items@.len() ==> P::admitted((#[trigger] items@[k]).privacy),
        {
            let ghost before = items@;
            let b = &backends[i];
            assert(backends@.take(i + 1).drop_last() == backends@.take(i as int));
            if P::admits(b.privacy) && b.serves_model(query.model()) && b.has_capability_tags(
                query.required_tags(),
            ) {
                items.push(b);
                assert(items@.unref() == before.unref().push(*b));
            }
        }
        assert(backends@.take(backends@.len() as int) == backends@);
        Candidates { items, _class: PhantomData }
    }

    pub fn len(&self) -> (r: usize)
        ensures
            r == self@.len(),
    {
        self.items.len()
    }

    pub fn is_empty(&self) -> (r: bool)
        ensures
            r == (self@.len() == 0),
    {
        self.items.len() == 0
    }

    /// The candidate that a policy's choice stands for. Anything out of range
    /// yields `None` rather than escaping the filtered set.
    pub fn at(self, choice: Option<usize>) -> (r: Option<Selection<'a, P>>)
        ensures
            match r {
                Some(selection) => chosen(self@, choice) == Some(selection@),
                None => chosen(self@, choice) is None,
            },
    {
        proof {
            use_type_invariant(&self);
        }
        match choice {
            Some(i) => {
                if i < self.items.len() {
                    Some(Selection { backend: self.items[i], _class: PhantomData })
                } else {
                    None
                }
            },
            None => None,
        }
    }

    /// Let `policy` pick a candidate. The policy returns an index; anything
    /// out of range yields `None` rather than escaping the filtered set.
    pub fn select<Q: Policy + ?Sized>(self, policy: &Q) -> (r: Option<Selection<'a, P>>)
        ensures
            exists|choice: Option<usize>| #[trigger]
                policy.permits(self@, choice) && match r {
                    Some(selection) => chosen(self@, choice) == Some(selection@),
                    None => chosen(self@, choice) is None,
                },
    {
        let choice = policy.pick(self.items.as_slice());
        assert(policy.permits(self@, choice));
        self.at(choice)
    }
}

/// A routing decision witnessed by the privacy class it was filtered under.
/// A `Selection<'_, Private>` pointing at an `External` backend cannot be
/// constructed.
pub struct Selection<'a, P: PrivacyClass> {
    backend: &'a Backend,
    _class: PhantomData<P>,
}

impl<'a, P: PrivacyClass> View for Selection<'a, P> {
    type V = Backend;

    closed spec fn view(&self) -> Backend {
        *self.backend
    }
}

impl<'a, P: PrivacyClass> Selection<'a, P> {
    /// The backend is admitted by the class.
    #[verifier::type_invariant]
    spec fn is_admitted(self) -> bool {
        P::admitted(self.backend.privacy)
    }

    /// The selected backend. Whatever policy selected it, the class admits it.
    pub fn backend(&self) -> (r: &'a Backend)
        ensures
            *r == self@,
            P::admitted(r.privacy),
    {
        proof {
            use_type_invariant(self);
        }
        self.backend
    }
}

/// A routing policy ranks the pre-filtered candidates; it cannot add to
/// them. Implementations must be cheap and non-blocking: `pick` runs on
/// the request path.
pub trait Policy: Send + Sync {
    /// What the policy may answer. A policy that promises nothing permits
    /// everything.
    open spec fn permits(&self, candidates: Seq<Backend>, choice: Option<usize>) -> bool {
        true
    }

    /// Index of the chosen candidate, or `None` to decline (e.g. empty set).
    fn pick(&self, candidates: &[&Backend]) -> (choice: Option<usize>)
        ensures
            self.permits(candidates@.unref(), choice),
    ;
}

/// Picks the first candidate, i.e. config order is the priority order.
#[derive(Debug, Default, Clone, Copy)]
pub struct StaticPriority;

impl Policy for StaticPriority {
    open spec fn permits(&self, candidates: Seq<Backend>, choice: Option<usize>) -> bool {
        choice == (if candidates.len() == 0 {
            None
        } else {
            Some(0usize)
        })
    }

    fn pick(&self, candidates: &[&Backend]) -> (choice: Option<usize>) {
        if candidates.len() == 0 {
            None
        } else {
            Some(0)
        }
    }
}

/// Picks the candidate with the lowest exponentially-weighted moving-average
/// latency. Backends with no recorded sample score 0, i.e. they are tried
/// optimistically so cold backends get probed instead of starved. Ties break
/// toward config order. All numbers are `f64` bit patterns.
pub struct EwmaLatency {
    alpha_bits: u64,
    /// backend name -> EWMA latency in milliseconds
    stats: StringHashMap<u64>,
}

pub struct EwmaView {
    pub alpha_bits: u64,
    /// The moving average of each backend that has a sample, by name.
    pub stats: Map<Seq<char>, u64>,
}

impl View for EwmaLatency {
    type V = EwmaView;

    closed spec fn view(&self) -> EwmaView {
        EwmaView { alpha_bits: self.alpha_bits, stats: self.stats@ }
    }
}

impl EwmaView {
    /// The score of a backend: its moving average, or 0 if it has no sample.
    pub open spec fn score(self, name: Seq<char>) -> u64 {
        if self.stats.contains_key(name) {
            self.stats[name]
        } else {
            binary64::ZERO
        }
    }

    /// Candidate `i` has the lowest score, and comes first among those that do.
    pub open spec fn is_best(self, candidates: Seq<Backend>, i: int) -> bool {
        &&& 0 <= i < candidates.len()
        &&& forall|j: int|
            0 <= j < candidates.len() ==> binary64::total_rank(self.score(candidates[i].name@))
                <= binary64::total_rank(self.score((#[trigger] candidates[j]).name@))
        &&& forall|j: int|
            0 <= j < i ==> binary64::total_rank(self.score(candidates[i].name@))
                < binary64::total_rank(self.score((#[trigger] candidates[j]).name@))
    }

    /// What the policy may pick: the best candidate, if there is one.
    pub open spec fn picks(self, candidates: Seq<Backend>, choice: Option<usize>) -> bool {
        match choice {
            None => candidates.len() == 0,
            Some(i) => self.is_best(candidates, i as int),
        }
    }
}

impl EwmaLatency {
    /// A policy without samples. `alpha_bits` must lie in `(0, 1]`; config
    /// validation rejects other values before they reach here.
    pub fn new(alpha_bits: u64) -> (r: Self)
        requires
            binary64::in_unit_interval(alpha_bits),
        ensures
            r@ == (EwmaView { alpha_bits, stats: Map::empty() }),
    {
        EwmaLatency { alpha_bits, stats: StringHashMap::new() }
    }

    /// Record an observed request latency for `backend`, in milliseconds. A
    /// sample that is not finite is ignored; the first one is taken as it is; a
    /// later one is blended with the average so far by
    /// `blend(alpha, sample, average)`.
    pub fn observe<F: Fn(u64, u64, u64) -> u64>(
        &mut self,
        backend: &str,
        sample_bits: u64,
        blend: F,
    )
        requires
            forall|alpha: u64, sample: u64, average: u64|
                call_requires(blend, (alpha, sample, average)),
        ensures
            final(self)@.alpha_bits == old(self)@.alpha_bits,
            !binary64::is_finite(sample_bits) ==> final(self)@ == old(self)@,
            binary64::is_finite(sample_bits) && !old(self)@.stats.contains_key(backend@)
                ==> final(self)@.stats == old(self)@.stats.insert(backend@, sample_bits),
            binary64::is_finite(sample_bits) && old(self)@.stats.contains_key(backend@)
                ==> exists|average: u64|
                #![trigger old(self)@.stats.insert(backend@, average)]
                call_ensures(
                    blend,
                    (old(self)@.alpha_bits, sample_bits, old(self)@.stats[backend@]),
                    average,
                ) && final(self)@.stats == old(self)@.stats.insert(backend@, average),
    {
        if !binary64::check_finite(sample_bits) {
            return;
        }
        let average = match self.stats.get(backend) {
            Some(average) => blend(self.alpha_bits, sample_bits, *average),
            None => sample_bits,
        };
        self.stats.insert(backend.to_owned(), average);
        assert(final(self)@.stats == old(self)@.stats.insert(backend@, average));
    }

    /// Current EWMA latency in milliseconds, if any sample was recorded.
    pub fn latency_ms(&self, backend: &str) -> (r: Option<u64>)
        ensures
            r == (if self@.stats.contains_key(backend@) {
                Some(self@.stats[backend@])
            } else {
                None
            }),
    {
        match self.stats.get(backend) {
            Some(average) => Some(*average),
            None => None,
        }
    }

    fn score(&self, backend: &str) -> (r: u64)
        ensures
            r == self@.score(backend@),
    {
        match self.latency_ms(backend) {
            Some(average) => average,
            None => binary64::ZERO,
        }
    }
}

impl Policy for EwmaLatency {
    open spec fn permits(&self, candidates: Seq<Backend>, choice: Option<usize>) -> bool {
        self@.picks(candidates, choice)
    }

    fn pick(&self, candidates: &[&Backend]) -> (choice: Option<usize>) {
        if candidates.len() == 0 {
            return None;
        }
        let ghost all = candidates@.unref();
        let mut best: usize = 0;
        let mut best_score = self.score(candidates[0].name.as_str());
        for i in 1..candidates.len()
            invariant
                all == candidates@.unref(),
                best < i <= candidates@.len(),
                best_score == self@.score(all[best as int].name@),
                self@.is_best(all.take(i as int), best as int),
        {
            let score = self.score(candidates[i].name.as_str());
            if binary64::precedes(score, best_score) {
                best = i;
                best_score = score;
            }
            assert(all.take(i + 1) == all.take(i as int).push(all[i as int]));
        }
        assert(all.take(candidates@.len() as int) == all);
        Some(best)
    }
}

/// Why a query could not be routed.
#[derive(Debug, PartialEq, Eq)]
pub enum RouteError {
    NoEligibleBackend {
        model: String,
        required_tags: Vec<String>,
        /// Label of the privacy class the request was routed under.
        privacy: &'static str,
    },
}

/// The policy that a configuration asks for.
pub enum ConfiguredPolicy {
    Static(StaticPriority),
    Ewma(EwmaLatency),
}

impl Policy for ConfiguredPolicy {
    open spec fn permits(&self, candidates: Seq<Backend>, choice: Option<usize>) -> bool {
        match self {
            ConfiguredPolicy::Static(policy) => policy.permits(candidates, choice),
            ConfiguredPolicy::Ewma(policy) => policy.permits(candidates, choice),
        }
    }

    fn pick(&self, candidates: &[&Backend]) -> (choice: Option<usize>) {
        match self {
            ConfiguredPolicy::Static(policy) => policy.pick(candidates),
            ConfiguredPolicy::Ewma(policy) => policy.pick(candidates),
        }
    }
}

/// The routing facade: owns the backend table and the active policy.
pub struct Router<Q: Policy + ?Sized> {
    backends: Vec<Backend>,
    policy: Arc<Q>,
}

impl<Q: Policy + ?Sized> View for Router<Q> {
    type V = Seq<Backend>;

    closed spec fn view(&self) -> Seq<Backend> {
        self.backends@
    }
}

/// The answer to a query whose candidates are `candidates`, under the privacy
/// label `label`, where the policy chose `choice`.
pub open spec fn is_answer(
    r: Result<&Backend, RouteError>,
    candidates: Seq<Backend>,
    choice: Option<usize>,
    query: QueryView,
    label: Seq<char>,
) -> bool {
    match chosen(candidates, choice) {
        Some(backend) => r matches Ok(b) && *b == backend,
        None => r matches Err(RouteError::NoEligibleBackend { model, required_tags, privacy })
            && model@ == query.model && text::texts(required_tags@) == query.required_tags
            && privacy@ == label,
    }
}

impl Router<ConfiguredPolicy> {
    /// Build from validated config. For `ewma_latency` the policy instance
    /// is internal; callers that need to feed latency observations should
    /// construct via [`Router::with_policy`] and keep a handle.
    pub fn from_config(cfg: &GatewayConfig) -> (r: Self)
        requires
            laws::sound_policy(cfg.policy),
        ensures
            resolve::backend_views(r@) == cfg@.backends,
            match cfg.policy {
                PolicySelection::StaticPriority => r.policy() is Static,
                PolicySelection::EwmaLatency { alpha_bits } => r.policy() matches
                    ConfiguredPolicy::Ewma(policy) && policy@ == (EwmaView {
                    alpha_bits,
                    stats: Map::empty(),
                }),
            },
    {
        let policy = match cfg.policy {
            PolicySelection::StaticPriority => ConfiguredPolicy::Static(StaticPriority),
            PolicySelection::EwmaLatency { alpha_bits } => ConfiguredPolicy::Ewma(
                EwmaLatency::new(alpha_bits),
            ),
        };
        let mut backends: Vec<Backend> = Vec::new();
        assert(resolve::backend_views(backends@) == cfg@.backends.take(0));
        for i in 0..cfg.backends.len()
            invariant
                resolve::backend_views(backends@) == cfg@.backends.take(i as int),
        {
            let ghost before = resolve::backend_views(backends@);
            let backend = cfg.backends[i].clone();
            backends.push(backend);
            assert(resolve::backend_views(backends@) == before.push(backend@));
            assert(cfg@.backends.take(i + 1) == cfg@.backends.take(i as int).push(
                cfg@.backends[i as int],
            ));
        }
        assert(cfg@.backends.take(cfg.backends@.len() as int) == cfg@.backends);
        Self::with_policy(backends, Arc::new(policy))
    }
}

impl<Q: Policy + ?Sized> Router<Q> {
    /// The active policy.
    pub closed spec fn policy(&self) -> &Q {
        &*self.policy
    }

    pub fn with_policy(backends: Vec<Backend>, policy: Arc<Q>) -> (r: Self)
        ensures
            r@ == backends@,
            r.policy() == &*policy,
    {
        Router { backends, policy }
    }

    pub fn backends(&self) -> (r: &[Backend])
        ensures
            r@ == self@,
    {
        self.backends.as_slice()
    }

    /// Resolve a query to a backend. `mark_private` flows into
    /// [`ClassifiedQuery::classify`]; from there the privacy constraint is
    /// carried by types, not by control flow in this function.
    pub fn route(&self, query: RouteQuery, mark_private: bool) -> (r: Result<&Backend, RouteError>)
        ensures
            exists|choice: Option<usize>| #[trigger]
                self.policy().permits(offered(self@, query@, mark_private), choice) && is_answer(
                    r,
                    offered(self@, query@, mark_private),
                    choice,
                    query@,
                    class_label(mark_private),
                ),
            r matches Ok(b) ==> (mark_private ==> b.privacy == Privacy::Local),
    {
        let ghost candidates = offered(self@, query@, mark_private);
        assert(mark_private ==> candidates == candidates_of::<Private>(self@, query@));
        assert(!mark_private ==> candidates == candidates_of::<Shareable>(self@, query@));
        match ClassifiedQuery::classify(query, mark_private) {
            ClassifiedQuery::Private(q) => self.resolve(&q),
            ClassifiedQuery::Shareable(q) => self.resolve(&q),
        }
    }

    /// Resolve a classified query to a backend.
    pub fn resolve<P: PrivacyClass>(&self, query: &TypedQuery<P>) -> (r: Result<
        &Backend,
        RouteError,
    >)
        ensures
            exists|choice: Option<usize>| #[trigger]
                self.policy().permits(candidates_of::<P>(self@, query@), choice) && is_answer(
                    r,
                    candidates_of::<P>(self@, query@),
                    choice,
                    query@,
                    P::LABEL@,
                ),
            r matches Ok(b) ==> P::admitted(b.privacy),
    {
        let candidates = Candidates::<P>::gather(query, self.backends.as_slice());
        let ghost found = candidates@;
        let selected = candidates.select(&*self.policy);
        let ghost choice = choose|choice: Option<usize>| #[trigger]
            self.policy().permits(found, choice) && match selected {
                Some(selection) => chosen(found, choice) == Some(selection@),
                None => chosen(found, choice) is None,
            };
        let r = match selected {
            Some(selection) => Ok(selection.backend()),
            None => Err(
                RouteError::NoEligibleBackend {
                    model: query.model().to_owned(),
                    required_tags: text::copy_strings(query.required_tags()),
                    privacy: P::LABEL,
                },
            ),
        };
        assert(self.policy().permits(found, choice));
        assert(is_answer(r, found, choice, query@, P::LABEL@));
        assert(found == candidates_of::<P>(self@, query@));
        r
    }
}

}
