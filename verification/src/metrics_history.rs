//! What holds of the metrics after any history of records.
use crate::metrics;
use crate::metrics::MetricsView;
use crate::metrics_laws;
use crate::text;
use crate::upstream::Usage;
use vstd::prelude::*;
use vstd::seq_lib;

verus! {

/// A call that counts under a label.
pub enum CounterCall {
    /// Add 1.
    Inc(Seq<char>),
    /// Add this much, possibly 0.
    Add(Seq<char>, u64),
}

impl CounterCall {
    /// The label that the call counts under.
    pub open spec fn label(self) -> Seq<char> {
        match self {
            CounterCall::Inc(label) => label,
            CounterCall::Add(label, _) => label,
        }
    }

    /// What the call adds.
    pub open spec fn amount(self) -> u64 {
        match self {
            CounterCall::Inc(_) => 1,
            CounterCall::Add(_, n) => n,
        }
    }
}

/// The counters after a sequence of calls.
pub open spec fn counted(calls: Seq<CounterCall>) -> Map<Seq<char>, u64>
    decreases calls.len(),
{
    if calls.len() == 0 {
        Map::empty()
    } else {
        metrics::bumped(counted(calls.drop_last()), calls.last().label(), calls.last().amount())
    }
}

/// One of the calls counts under this label.
pub open spec fn touched(calls: Seq<CounterCall>, label: Seq<char>) -> bool {
    exists|i: int| 0 <= i < calls.len() && (#[trigger] calls[i]).label() == label
}

/// What the calls add under a label, in all.
pub open spec fn total(calls: Seq<CounterCall>, label: Seq<char>) -> nat
    decreases calls.len(),
{
    if calls.len() == 0 {
        0
    } else {
        total(calls.drop_last(), label) + (if calls.last().label() == label {
            calls.last().amount() as nat
        } else {
            0
        })
    }
}

/// After any sequence of calls there is a counter for exactly the labels that
/// were counted under, each holds what was added under its label (modulo
/// 2^64), and the counters are listed in the strict order of their labels.
pub proof fn lemma_counters_tell_the_calls(calls: Seq<CounterCall>, label: Seq<char>)
    ensures
        counted(calls).contains_key(label) <==> touched(calls, label),
        metrics::count(counted(calls), label) == total(calls, label) % 0x1_0000_0000_0000_0000,
        metrics::is_listing(counted(calls), metrics::listing(counted(calls))),
    decreases calls.len(),
{
    if calls.len() == 0 {
        let none = Map::<Seq<char>, u64>::empty();
        assert(metrics::is_listing(none, Seq::empty()));
    } else {
        let earlier = calls.drop_last();
        let last = calls.last();
        lemma_counters_tell_the_calls(earlier, label);
        metrics::lemma_bumped_is_listed(counted(earlier), last.label(), last.amount());
        if touched(earlier, label) {
            let i = choose|i: int| 0 <= i < earlier.len() && (#[trigger] earlier[i]).label() == label;
            assert(calls[i].label() == label);
        }
        if last.label() == label {
            assert(calls[calls.len() - 1].label() == label);
        }
        if touched(calls, label) && last.label() != label {
            let i = choose|i: int| 0 <= i < calls.len() && (#[trigger] calls[i]).label() == label;
            assert(earlier[i].label() == label);
        }
        metrics_laws::lemma_counting_touches_one_counter(
            counted(earlier),
            last.label(),
            label,
            last.amount(),
        );
    }
}

/// A snapshot of the counters after any sequence of calls lists every label that
/// was counted under, once, with what was added under it (modulo 2^64), and no
/// other; the labels ascend strictly.
pub proof fn lemma_snapshot_tells_the_calls(
    calls: Seq<CounterCall>,
    pairs: Seq<(Seq<char>, u64)>,
)
    requires
        metrics::is_listing(counted(calls), pairs),
    ensures
        metrics::is_ascending(pairs),
        forall|label: Seq<char>|
            #[trigger] metrics::has_label(pairs, label) <==> touched(calls, label),
        forall|i: int|
            0 <= i < pairs.len() ==> (#[trigger] pairs[i]).1 == total(calls, pairs[i].0)
                % 0x1_0000_0000_0000_0000,
        forall|i: int, j: int|
            0 <= i < j < pairs.len() ==> (#[trigger] pairs[i]).0 != (#[trigger] pairs[j]).0,
{
    assert forall|label: Seq<char>| #[trigger] metrics::has_label(pairs, label) <==> touched(
        calls,
        label,
    ) by {
        lemma_counters_tell_the_calls(calls, label);
        if metrics::has_label(pairs, label) {
            let i = choose|i: int| 0 <= i < pairs.len() && (#[trigger] pairs[i]).0 == label;
            assert(counted(calls).contains_key(pairs[i].0));
        }
    }
    assert forall|i: int| 0 <= i < pairs.len() implies (#[trigger] pairs[i]).1 == total(
        calls,
        pairs[i].0,
    ) % 0x1_0000_0000_0000_0000 by {
        lemma_counters_tell_the_calls(calls, pairs[i].0);
    }
    assert forall|i: int, j: int| 0 <= i < j < pairs.len() implies (#[trigger] pairs[i]).0 != (
    #[trigger] pairs[j]).0 by {
        text::lemma_before_irreflexive(pairs[i].0);
        assert(text::before(pairs[i].0, pairs[j].0));
    }
}

/// The order of calls does not matter to the counters.
pub proof fn lemma_order_of_calls_is_immaterial(a: Seq<CounterCall>, b: Seq<CounterCall>)
    requires
        a.to_multiset() == b.to_multiset(),
    ensures
        counted(a) == counted(b),
{
    let step = |m: Map<Seq<char>, u64>, c: CounterCall| metrics::bumped(m, c.label(), c.amount());
    assert forall|x: CounterCall, y: CounterCall, m: Map<Seq<char>, u64>| #[trigger]
        step(step(m, x), y) == step(step(m, y), x) by {
        metrics_laws::lemma_counting_commutes(m, x.label(), x.amount(), y.label(), y.amount());
    }
    seq_lib::lemma_fold_left_permutation(a, b, step, Map::empty());
    lemma_counted_is_fold(a, step);
    lemma_counted_is_fold(b, step);
}

proof fn lemma_counted_is_fold(
    calls: Seq<CounterCall>,
    step: spec_fn(Map<Seq<char>, u64>, CounterCall) -> Map<Seq<char>, u64>,
)
    requires
        forall|m: Map<Seq<char>, u64>, c: CounterCall| #[trigger]
            step(m, c) == metrics::bumped(m, c.label(), c.amount()),
    ensures
        counted(calls) == calls.fold_left(Map::empty(), step),
    decreases calls.len(),
{
    if calls.len() > 0 {
        lemma_counted_is_fold(calls.drop_last(), step);
    }
}

/// One call of a `record_` function of a [`metrics::MetricsHandle`].
pub enum Record {
    Request { backend: Seq<char>, model: Seq<char>, status_class: Seq<char> },
    Tokens { key: Seq<char>, usage: Usage },
    UpstreamError { backend: Seq<char> },
    RateLimitRejection { key: Seq<char> },
    BudgetRejection { key: Seq<char> },
}

/// The metrics after one more record.
pub open spec fn recorded(m: MetricsView, record: Record) -> MetricsView {
    match record {
        Record::Request { backend, model, status_class } => MetricsView {
            requests: metrics::bumped(
                m.requests,
                metrics::request_label(backend, model, status_class),
                1,
            ),
            ..m
        },
        Record::Tokens { key, usage } => MetricsView {
            tokens: metrics::with_usage(m.tokens, key, usage),
            ..m
        },
        Record::UpstreamError { backend } => MetricsView {
            upstream_errors: metrics::bumped(
                m.upstream_errors,
                metrics::backend_label(backend),
                1,
            ),
            ..m
        },
        Record::RateLimitRejection { key } => MetricsView {
            rate_limit_rejections: metrics::bumped(
                m.rate_limit_rejections,
                metrics::key_label(key),
                1,
            ),
            ..m
        },
        Record::BudgetRejection { key } => MetricsView {
            budget_rejections: metrics::bumped(m.budget_rejections, metrics::key_label(key), 1),
            ..m
        },
    }
}

/// The metrics of a new handle after a history of records.
pub open spec fn after(history: Seq<Record>) -> MetricsView
    decreases history.len(),
{
    if history.len() == 0 {
        metrics::no_metrics()
    } else {
        recorded(after(history.drop_last()), history.last())
    }
}

/// A metric family.
pub enum Family {
    Requests,
    Tokens,
    UpstreamErrors,
    RateLimitRejections,
    BudgetRejections,
}

impl Family {
    /// The counters of the family.
    pub open spec fn counters(self, m: MetricsView) -> Map<Seq<char>, u64> {
        match self {
            Family::Requests => m.requests,
            Family::Tokens => m.tokens,
            Family::UpstreamErrors => m.upstream_errors,
            Family::RateLimitRejections => m.rate_limit_rejections,
            Family::BudgetRejections => m.budget_rejections,
        }
    }

    /// The text of the family in the exposition.
    pub open spec fn text(self, m: MetricsView) -> Seq<char> {
        match self {
            Family::Requests => metrics::requests_family(m.requests),
            Family::Tokens => metrics::tokens_family(m.tokens),
            Family::UpstreamErrors => metrics::upstream_errors_family(m.upstream_errors),
            Family::RateLimitRejections => metrics::rate_limit_rejections_family(
                m.rate_limit_rejections,
            ),
            Family::BudgetRejections => metrics::budget_rejections_family(m.budget_rejections),
        }
    }

    /// The record goes to the family.
    pub open spec fn takes(self, record: Record) -> bool {
        match self {
            Family::Requests => record is Request,
            Family::Tokens => record is Tokens,
            Family::UpstreamErrors => record is UpstreamError,
            Family::RateLimitRejections => record is RateLimitRejection,
            Family::BudgetRejections => record is BudgetRejection,
        }
    }

    /// What the record counts in the family.
    pub open spec fn calls_of(self, record: Record) -> Seq<CounterCall> {
        if !self.takes(record) {
            Seq::empty()
        } else {
            match record {
                Record::Request { backend, model, status_class } => seq![
                    CounterCall::Inc(metrics::request_label(backend, model, status_class)),
                ],
                Record::Tokens { key, usage } => seq![
                    CounterCall::Add(
                        metrics::token_label(key, "prompt"@),
                        usage.prompt_tokens,
                    ),
                    CounterCall::Add(
                        metrics::token_label(key, "completion"@),
                        usage.completion_tokens,
                    ),
                    CounterCall::Add(metrics::token_label(key, "total"@), usage.total_tokens),
                ],
                Record::UpstreamError { backend } => seq![
                    CounterCall::Inc(metrics::backend_label(backend)),
                ],
                Record::RateLimitRejection { key } => seq![
                    CounterCall::Inc(metrics::key_label(key)),
                ],
                Record::BudgetRejection { key } => seq![
                    CounterCall::Inc(metrics::key_label(key)),
                ],
            }
        }
    }

    /// What a history counts in the family.
    pub open spec fn calls(self, history: Seq<Record>) -> Seq<CounterCall>
        decreases history.len(),
    {
        if history.len() == 0 {
            Seq::empty()
        } else {
            self.calls(history.drop_last()) + self.calls_of(history.last())
        }
    }

    /// The family was recorded to.
    pub open spec fn is_recorded(self, history: Seq<Record>) -> bool {
        exists|i: int| 0 <= i < history.len() && self.takes(#[trigger] history[i])
    }
}

proof fn lemma_counted_push(calls: Seq<CounterCall>, call: CounterCall)
    ensures
        counted(calls.push(call)) == metrics::bumped(counted(calls), call.label(), call.amount()),
{
    assert(calls.push(call).drop_last() == calls);
}

proof fn lemma_family_is_counted(family: Family, history: Seq<Record>)
    ensures
        family.counters(after(history)) == counted(family.calls(history)),
    decreases history.len(),
{
    if history.len() > 0 {
        let earlier = history.drop_last();
        lemma_family_is_counted(family, earlier);
        let before = family.calls(earlier);
        let added = family.calls_of(history.last());
        if !family.takes(history.last()) {
            assert(before + added == before);
        } else if family is Tokens {
            assert(before + added == before.push(added[0]).push(added[1]).push(added[2]));
            lemma_counted_push(before, added[0]);
            lemma_counted_push(before.push(added[0]), added[1]);
            lemma_counted_push(before.push(added[0]).push(added[1]), added[2]);
        } else {
            assert(before + added == before.push(added[0]));
            lemma_counted_push(before, added[0]);
        }
    }
}

proof fn lemma_calls_if_recorded(family: Family, history: Seq<Record>)
    ensures
        family.calls(history).len() > 0 <==> family.is_recorded(history),
    decreases history.len(),
{
    if history.len() > 0 {
        let earlier = history.drop_last();
        lemma_calls_if_recorded(family, earlier);
        if family.is_recorded(earlier) {
            let i = choose|i: int| 0 <= i < earlier.len() && family.takes(#[trigger] earlier[i]);
            assert(family.takes(history[i]));
        }
        if family.takes(history.last()) {
            assert(family.takes(history[history.len() - 1]));
        }
        if family.is_recorded(history) && !family.takes(history.last()) {
            let i = choose|i: int| 0 <= i < history.len() && family.takes(#[trigger] history[i]);
            assert(family.takes(earlier[i]));
        }
    }
}

/// The metrics of every history can be listed.
pub proof fn lemma_history_is_listed(history: Seq<Record>)
    ensures
        metrics::is_listed(after(history)),
{
    let any = Seq::<char>::empty();
    lemma_family_is_counted(Family::Requests, history);
    lemma_counters_tell_the_calls(Family::Requests.calls(history), any);
    lemma_family_is_counted(Family::Tokens, history);
    lemma_counters_tell_the_calls(Family::Tokens.calls(history), any);
    lemma_family_is_counted(Family::UpstreamErrors, history);
    lemma_counters_tell_the_calls(Family::UpstreamErrors.calls(history), any);
    lemma_family_is_counted(Family::RateLimitRejections, history);
    lemma_counters_tell_the_calls(Family::RateLimitRejections.calls(history), any);
    lemma_family_is_counted(Family::BudgetRejections, history);
    lemma_counters_tell_the_calls(Family::BudgetRejections.calls(history), any);
}

/// After any history of records, a family holds a counter for exactly the
/// labels that its records bear, and each counter holds what they add under its
/// label (modulo 2^64).
pub proof fn lemma_metrics_tell_the_history(
    family: Family,
    history: Seq<Record>,
    label: Seq<char>,
)
    ensures
        family.counters(after(history)).contains_key(label) <==> touched(
            family.calls(history),
            label,
        ),
        metrics::count(family.counters(after(history)), label) == total(
            family.calls(history),
            label,
        ) % 0x1_0000_0000_0000_0000,
{
    lemma_family_is_counted(family, history);
    lemma_counters_tell_the_calls(family.calls(history), label);
}

/// A family appears in the exposition exactly if it was recorded to.
pub proof fn lemma_families_appear_if_recorded(family: Family, history: Seq<Record>)
    ensures
        family.text(after(history)).len() > 0 <==> family.is_recorded(history),
{
    reveal_strlit("# HELP ");
    lemma_calls_if_recorded(family, history);
    let calls = family.calls(history);
    let counters = family.counters(after(history));
    let pairs = metrics::listing(counters);
    lemma_history_is_listed(history);
    if calls.len() > 0 {
        let label = calls[0].label();
        assert(touched(calls, label));
        lemma_metrics_tell_the_history(family, history, label);
        assert(metrics::has_label(pairs, label));
    } else if pairs.len() > 0 {
        lemma_metrics_tell_the_history(family, history, pairs[0].0);
        assert(counters.contains_key(pairs[0].0));
    }
}

/// The order of records does not matter: histories that hold the same records
/// leave the same metrics, and so the same exposition.
pub proof fn lemma_order_of_records_is_immaterial(a: Seq<Record>, b: Seq<Record>)
    requires
        a.to_multiset() == b.to_multiset(),
    ensures
        after(a) == after(b),
        metrics::exposition(after(a)) == metrics::exposition(after(b)),
{
    let step = |m: MetricsView, r: Record| recorded(m, r);
    assert forall|x: Record, y: Record, m: MetricsView| #[trigger] step(step(m, x), y) == step(
        step(m, y),
        x,
    ) by {
        lemma_records_commute(m, x, y);
    }
    seq_lib::lemma_fold_left_permutation(a, b, step, metrics::no_metrics());
    lemma_after_is_fold(a, step);
    lemma_after_is_fold(b, step);
}

proof fn lemma_after_is_fold(
    history: Seq<Record>,
    step: spec_fn(MetricsView, Record) -> MetricsView,
)
    requires
        forall|m: MetricsView, r: Record| #[trigger] step(m, r) == recorded(m, r),
    ensures
        after(history) == history.fold_left(metrics::no_metrics(), step),
    decreases history.len(),
{
    if history.len() > 0 {
        lemma_after_is_fold(history.drop_last(), step);
    }
}

proof fn lemma_bumped_thrice(
    m: Map<Seq<char>, u64>,
    key: Seq<char>,
    usage: Usage,
    l: Seq<char>,
    n: u64,
)
    ensures
        metrics::with_usage(metrics::bumped(m, l, n), key, usage) == metrics::bumped(
            metrics::with_usage(m, key, usage),
            l,
            n,
        ),
{
    let p = metrics::token_label(key, "prompt"@);
    let c = metrics::token_label(key, "completion"@);
    let t = metrics::token_label(key, "total"@);
    let m1 = metrics::bumped(m, p, usage.prompt_tokens);
    let m2 = metrics::bumped(m1, c, usage.completion_tokens);
    metrics_laws::lemma_counting_commutes(m, l, n, p, usage.prompt_tokens);
    metrics_laws::lemma_counting_commutes(m1, l, n, c, usage.completion_tokens);
    metrics_laws::lemma_counting_commutes(m2, l, n, t, usage.total_tokens);
}

proof fn lemma_records_commute(m: MetricsView, x: Record, y: Record)
    ensures
        recorded(recorded(m, x), y) == recorded(recorded(m, y), x),
{
    match (x, y) {
        (
            Record::Request { backend, model, status_class },
            Record::Request { backend: b, model: l, status_class: s },
        ) => {
            metrics_laws::lemma_counting_commutes(
                m.requests,
                metrics::request_label(backend, model, status_class),
                1,
                metrics::request_label(b, l, s),
                1,
            );
        },
        (Record::Tokens { key, usage }, Record::Tokens { key: k, usage: u }) => {
            let p = metrics::token_label(k, "prompt"@);
            let c = metrics::token_label(k, "completion"@);
            let t = metrics::token_label(k, "total"@);
            let m1 = metrics::bumped(m.tokens, p, u.prompt_tokens);
            let m2 = metrics::bumped(m1, c, u.completion_tokens);
            lemma_bumped_thrice(m.tokens, key, usage, p, u.prompt_tokens);
            lemma_bumped_thrice(m1, key, usage, c, u.completion_tokens);
            lemma_bumped_thrice(m2, key, usage, t, u.total_tokens);
        },
        (Record::UpstreamError { backend }, Record::UpstreamError { backend: b }) => {
            metrics_laws::lemma_counting_commutes(
                m.upstream_errors,
                metrics::backend_label(backend),
                1,
                metrics::backend_label(b),
                1,
            );
        },
        (Record::RateLimitRejection { key }, Record::RateLimitRejection { key: k }) => {
            metrics_laws::lemma_counting_commutes(
                m.rate_limit_rejections,
                metrics::key_label(key),
                1,
                metrics::key_label(k),
                1,
            );
        },
        (Record::BudgetRejection { key }, Record::BudgetRejection { key: k }) => {
            metrics_laws::lemma_counting_commutes(
                m.budget_rejections,
                metrics::key_label(key),
                1,
                metrics::key_label(k),
                1,
            );
        },
        _ => {},
    }
}

/// How often a record stands in a history.
pub open spec fn times(history: Seq<Record>, record: Record) -> nat
    decreases history.len(),
{
    if history.len() == 0 {
        0
    } else {
        times(history.drop_last(), record) + (if history.last() == record {
            1nat
        } else {
            0
        })
    }
}

/// The prompt, completion and total tokens of a key in a history.
pub open spec fn spent(history: Seq<Record>, key: Seq<char>) -> (nat, nat, nat)
    decreases history.len(),
{
    if history.len() == 0 {
        (0, 0, 0)
    } else {
        let (prompt, completion, total) = spent(history.drop_last(), key);
        match history.last() {
            Record::Tokens { key: k, usage } if k == key => (
                prompt + usage.prompt_tokens as nat,
                completion + usage.completion_tokens as nat,
                total + usage.total_tokens as nat,
            ),
            _ => (prompt, completion, total),
        }
    }
}

/// The counter of a backend, model and status class holds the number of such
/// requests (modulo 2^64).
pub proof fn lemma_requests_are_counted(
    history: Seq<Record>,
    backend: Seq<char>,
    model: Seq<char>,
    status_class: Seq<char>,
)
    ensures
        metrics::count(
            after(history).requests,
            metrics::request_label(backend, model, status_class),
        ) == times(
            history,
            Record::Request { backend, model, status_class },
        ) % 0x1_0000_0000_0000_0000,
    decreases history.len(),
{
    if history.len() > 0 {
        let earlier = history.drop_last();
        lemma_requests_are_counted(earlier, backend, model, status_class);
        if let Record::Request { backend: b, model: m, status_class: s } = history.last() {
            let label = metrics::request_label(backend, model, status_class);
            let other = metrics::request_label(b, m, s);
            if label == other {
                metrics_laws::lemma_request_labels_are_distinct(
                    backend,
                    model,
                    status_class,
                    b,
                    m,
                    s,
                );
            }
            metrics_laws::lemma_counting_touches_one_counter(
                after(earlier).requests,
                other,
                label,
                1,
            );
        }
    }
}

/// The counter of a backend's errors, and those of a key's rejections, hold the
/// number of such errors and rejections (modulo 2^64).
pub proof fn lemma_errors_and_rejections_are_counted(history: Seq<Record>, name: Seq<char>)
    ensures
        metrics::count(after(history).upstream_errors, metrics::backend_label(name)) == times(
            history,
            Record::UpstreamError { backend: name },
        ) % 0x1_0000_0000_0000_0000,
        metrics::count(after(history).rate_limit_rejections, metrics::key_label(name)) == times(
            history,
            Record::RateLimitRejection { key: name },
        ) % 0x1_0000_0000_0000_0000,
        metrics::count(after(history).budget_rejections, metrics::key_label(name)) == times(
            history,
            Record::BudgetRejection { key: name },
        ) % 0x1_0000_0000_0000_0000,
    decreases history.len(),
{
    if history.len() > 0 {
        let earlier = history.drop_last();
        lemma_errors_and_rejections_are_counted(earlier, name);
        match history.last() {
            Record::UpstreamError { backend } => {
                metrics_laws::lemma_single_labels_are_distinct(name, backend);
            },
            Record::RateLimitRejection { key } => {
                metrics_laws::lemma_single_labels_are_distinct(name, key);
            },
            Record::BudgetRejection { key } => {
                metrics_laws::lemma_single_labels_are_distinct(name, key);
            },
            _ => {},
        }
    }
}

/// The three token counters of a key hold the sums of its reported tokens
/// (modulo 2^64).
pub proof fn lemma_tokens_are_summed(history: Seq<Record>, key: Seq<char>)
    ensures
        ({
            let tokens = after(history).tokens;
            let (prompt, completion, total) = spent(history, key);
            &&& metrics::count(tokens, metrics::token_label(key, "prompt"@)) == prompt
                % 0x1_0000_0000_0000_0000
            &&& metrics::count(tokens, metrics::token_label(key, "completion"@)) == completion
                % 0x1_0000_0000_0000_0000
            &&& metrics::count(tokens, metrics::token_label(key, "total"@)) == total
                % 0x1_0000_0000_0000_0000
        }),
    decreases history.len(),
{
    if history.len() > 0 {
        let earlier = history.drop_last();
        lemma_tokens_are_summed(earlier, key);
        if let Record::Tokens { key: k, usage } = history.last() {
            if k == key {
                metrics_laws::lemma_usage_is_counted_by_kind(
                    after(earlier).tokens,
                    key,
                    usage,
                    key,
                );
            } else {
                lemma_other_key_untouched(after(earlier).tokens, k, usage, key, "prompt"@);
                lemma_other_key_untouched(after(earlier).tokens, k, usage, key, "completion"@);
                lemma_other_key_untouched(after(earlier).tokens, k, usage, key, "total"@);
            }
        }
    }
}

proof fn lemma_other_key_untouched(
    tokens: Map<Seq<char>, u64>,
    key: Seq<char>,
    usage: Usage,
    other: Seq<char>,
    kind: Seq<char>,
)
    requires
        key != other,
    ensures
        metrics::count(
            metrics::with_usage(tokens, key, usage),
            metrics::token_label(other, kind),
        ) == metrics::count(tokens, metrics::token_label(other, kind)),
{
    let label = metrics::token_label(other, kind);
    if label == metrics::token_label(key, "prompt"@) {
        metrics_laws::lemma_token_labels_are_distinct(other, kind, key, "prompt"@);
    }
    if label == metrics::token_label(key, "completion"@) {
        metrics_laws::lemma_token_labels_are_distinct(other, kind, key, "completion"@);
    }
    if label == metrics::token_label(key, "total"@) {
        metrics_laws::lemma_token_labels_are_distinct(other, kind, key, "total"@);
    }
    metrics_laws::lemma_usage_is_counted_by_kind(tokens, key, usage, label);
}

}
