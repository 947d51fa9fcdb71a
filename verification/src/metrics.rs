//! Prometheus-compatible metrics exposition.
//!
//! # Exposed metrics
//!
//! ```text
//! # HELP patchbay_requests_total Total requests received.
//! # TYPE patchbay_requests_total counter
//! patchbay_requests_total{backend="local-llm",model="qwen-coder",status="2xx"} 42
//! # HELP patchbay_tokens_total Total tokens consumed.
//! # TYPE patchbay_tokens_total counter
//! patchbay_tokens_total{key="dev",kind="completion"} 512
//! patchbay_tokens_total{key="dev",kind="prompt"} 1024
//! patchbay_tokens_total{key="dev",kind="total"} 1536
//! # HELP patchbay_upstream_errors_total Upstream non-2xx or connection errors.
//! # TYPE patchbay_upstream_errors_total counter
//! patchbay_upstream_errors_total{backend="openai"} 3
//! # HELP patchbay_rate_limit_rejections_total Requests rejected by rate limiter.
//! # TYPE patchbay_rate_limit_rejections_total counter
//! patchbay_rate_limit_rejections_total{key="dev"} 1
//! # HELP patchbay_budget_rejections_total Requests rejected by token budget.
//! # TYPE patchbay_budget_rejections_total counter
//! patchbay_budget_rejections_total{key="dev"} 1
//! ```
use crate::text;
use crate::text::Side;
use crate::upstream::Usage;
use vstd::prelude::*;

verus! {

/// The value of a counter; one that was never touched stands at 0.
pub open spec fn count(counters: Map<Seq<char>, u64>, label: Seq<char>) -> u64 {
    if counters.contains_key(label) {
        counters[label]
    } else {
        0
    }
}

/// The counters after `n` was added to one of them. Counters wrap around.
pub open spec fn bumped(
    counters: Map<Seq<char>, u64>,
    label: Seq<char>,
    n: u64,
) -> Map<Seq<char>, u64> {
    counters.insert(label, count(counters, label).wrapping_add(n))
}

/// `pairs` lists the counters in the order of their labels.
pub open spec fn is_listing(
    counters: Map<Seq<char>, u64>,
    pairs: Seq<(Seq<char>, u64)>,
) -> bool {
    &&& is_ascending(pairs)
    &&& forall|i: int|
        0 <= i < pairs.len() ==> counters.contains_key((#[trigger] pairs[i]).0)
            && counters[pairs[i].0] == pairs[i].1
    &&& forall|label: Seq<char>| #[trigger]
        counters.contains_key(label) ==> has_label(pairs, label)
}

/// The labels ascend.
pub open spec fn is_ascending(pairs: Seq<(Seq<char>, u64)>) -> bool {
    forall|i: int, j: int|
        0 <= i < j < pairs.len() ==> text::before((#[trigger] pairs[i]).0, (#[trigger] pairs[j]).0)
}

/// One of the pairs bears this label.
pub open spec fn has_label(pairs: Seq<(Seq<char>, u64)>, label: Seq<char>) -> bool {
    exists|i: int| 0 <= i < pairs.len() && (#[trigger] pairs[i]).0 == label
}

/// The counters, listed in the order of their labels.
pub open spec fn listing(counters: Map<Seq<char>, u64>) -> Seq<(Seq<char>, u64)> {
    choose|pairs: Seq<(Seq<char>, u64)>| is_listing(counters, pairs)
}

/// A list of counters in order is determined by what it lists.
pub proof fn lemma_listing_is_unique(
    counters: Map<Seq<char>, u64>,
    a: Seq<(Seq<char>, u64)>,
    b: Seq<(Seq<char>, u64)>,
)
    requires
        is_listing(counters, a),
        is_listing(counters, b),
    ensures
        a == b,
{
    lemma_listing_prefix(counters, a, b, a.len() as int);
    lemma_listing_prefix(counters, b, a, b.len() as int);
}

/// The first `n` pairs of one listing are those of the other.
proof fn lemma_listing_prefix(
    counters: Map<Seq<char>, u64>,
    a: Seq<(Seq<char>, u64)>,
    b: Seq<(Seq<char>, u64)>,
    n: int,
)
    requires
        is_listing(counters, a),
        is_listing(counters, b),
        0 <= n <= a.len(),
    ensures
        n <= b.len(),
        forall|i: int| 0 <= i < n ==> a[i] == b[i],
    decreases n,
{
    if n > 0 {
        let k = n - 1;
        lemma_listing_prefix(counters, a, b, k);
        assert(counters.contains_key(a[k].0));
        let j = choose|j: int| 0 <= j < b.len() && (#[trigger] b[j]).0 == a[k].0;
        if j < k {
            assert(a[j] == b[j]);
            assert(text::before(a[j].0, a[k].0));
            text::lemma_before_irreflexive(a[k].0);
        } else if k < j {
            assert(text::before(b[k].0, b[j].0));
            assert(counters.contains_key(b[k].0));
            let i = choose|i: int| 0 <= i < a.len() && (#[trigger] a[i]).0 == b[k].0;
            if i < k {
                assert(a[i] == b[i]);
                assert(text::before(b[i].0, b[k].0));
                text::lemma_before_irreflexive(b[k].0);
            } else if k < i {
                assert(text::before(a[k].0, a[i].0));
                text::lemma_before_transitive(a[k].0, b[k].0, a[k].0);
                text::lemma_before_irreflexive(a[k].0);
            } else {
                text::lemma_before_irreflexive(a[k].0);
            }
        }
    }
}

/// What labelled values say, pair by pair.
pub open spec fn pair_views(pairs: Seq<(String, u64)>) -> Seq<(Seq<char>, u64)> {
    pairs.map_values(|p: (String, u64)| (p.0@, p.1))
}

/// The counters that an ascending list holds.
pub open spec fn table_of(pairs: Seq<(Seq<char>, u64)>) -> Map<Seq<char>, u64> {
    Map::new(|label: Seq<char>| has_label(pairs, label), |label: Seq<char>| pairs[place(pairs, label)].1)
}

/// Where in the list a label stands.
pub open spec fn place(pairs: Seq<(Seq<char>, u64)>, label: Seq<char>) -> int {
    choose|i: int| 0 <= i < pairs.len() && (#[trigger] pairs[i]).0 == label
}

proof fn lemma_place(pairs: Seq<(Seq<char>, u64)>, i: int)
    requires
        is_ascending(pairs),
        0 <= i < pairs.len(),
    ensures
        has_label(pairs, pairs[i].0),
        place(pairs, pairs[i].0) == i,
{
    let j = place(pairs, pairs[i].0);
    assert(pairs[i].0 == pairs[i].0);
    assert(0 <= j < pairs.len() && pairs[j].0 == pairs[i].0);
    text::lemma_before_irreflexive(pairs[i].0);
    if j < i {
        assert(text::before(pairs[j].0, pairs[i].0));
    } else if i < j {
        assert(text::before(pairs[i].0, pairs[j].0));
    }
}

/// An ascending list is the listing of what it holds.
proof fn lemma_table_listing(pairs: Seq<(Seq<char>, u64)>)
    requires
        is_ascending(pairs),
    ensures
        is_listing(table_of(pairs), pairs),
        listing(table_of(pairs)) == pairs,
{
    let table = table_of(pairs);
    assert forall|i: int| 0 <= i < pairs.len() implies table.contains_key((#[trigger] pairs[i]).0)
        && table[pairs[i].0] == pairs[i].1 by {
        lemma_place(pairs, i);
    }
    assert(is_listing(table, pairs));
    lemma_listing_is_unique(table, listing(table), pairs);
}

/// Setting the value at one place of an ascending list sets one counter.
proof fn lemma_table_update(pairs: Seq<(Seq<char>, u64)>, i: int, value: u64)
    requires
        is_ascending(pairs),
        0 <= i < pairs.len(),
    ensures
        is_ascending(pairs.update(i, (pairs[i].0, value))),
        table_of(pairs.update(i, (pairs[i].0, value))) == table_of(pairs).insert(pairs[i].0, value),
{
    let now = pairs.update(i, (pairs[i].0, value));
    assert(forall|k: int| 0 <= k < now.len() ==> (#[trigger] now[k]).0 == pairs[k].0);
    assert(is_ascending(now));
    lemma_place(pairs, i);
    assert forall|label: Seq<char>| has_label(now, label) == #[trigger] has_label(pairs, label) by {
        if has_label(now, label) {
            assert(pairs[place(now, label)].0 == label);
        }
        if has_label(pairs, label) {
            assert(now[place(pairs, label)].0 == label);
        }
    }
    assert forall|label: Seq<char>| #[trigger] has_label(now, label) implies table_of(now)[label]
        == table_of(pairs).insert(pairs[i].0, value)[label] by {
        let k = place(now, label);
        lemma_place(now, k);
        lemma_place(pairs, k);
    }
    assert(table_of(now) =~= table_of(pairs).insert(pairs[i].0, value));
}

/// Putting a new label in its place among an ascending list adds one counter.
proof fn lemma_table_insert(pairs: Seq<(Seq<char>, u64)>, i: int, label: Seq<char>)
    requires
        is_ascending(pairs),
        0 <= i <= pairs.len(),
        forall|k: int| 0 <= k < i ==> text::before((#[trigger] pairs[k]).0, label),
        i < pairs.len() ==> text::before(label, pairs[i].0),
    ensures
        is_ascending(pairs.insert(i, (label, 0))),
        !table_of(pairs).contains_key(label),
        table_of(pairs.insert(i, (label, 0))) == table_of(pairs).insert(label, 0),
{
    let now = pairs.insert(i, (label, 0));
    assert forall|k: int| i <= k < pairs.len() implies text::before(
        label,
        (#[trigger] pairs[k]).0,
    ) by {
        if i < k {
            assert(text::before(pairs[i].0, pairs[k].0));
            text::lemma_before_transitive(label, pairs[i].0, pairs[k].0);
        }
    }
    assert forall|j: int, k: int| 0 <= j < k < now.len() implies text::before(
        (#[trigger] now[j]).0,
        (#[trigger] now[k]).0,
    ) by {
        let a = if j < i {
            j
        } else {
            j - 1
        };
        let b = if k < i {
            k
        } else {
            k - 1
        };
        if j == i {
            assert(now[k] == pairs[b]);
        } else if k == i {
            assert(now[j] == pairs[a]);
        } else {
            assert(now[j] == pairs[a] && now[k] == pairs[b]);
        }
    }
    if has_label(pairs, label) {
        assert(pairs[place(pairs, label)].0 == label);
        text::lemma_before_irreflexive(label);
    }
    assert forall|l: Seq<char>| #[trigger] has_label(now, l) == (has_label(pairs, l) || l
        == label) by {
        assert(now[i].0 == label);
        if has_label(pairs, l) {
            let k = place(pairs, l);
            assert(now[if k < i {
                k
            } else {
                k + 1
            }].0 == l);
        }
        if has_label(now, l) && l != label {
            let k = place(now, l);
            assert(pairs[if k < i {
                k
            } else {
                k - 1
            }].0 == l);
        }
    }
    assert forall|l: Seq<char>| #[trigger] has_label(now, l) implies table_of(now)[l] == table_of(
        pairs,
    ).insert(label, 0)[l] by {
        let k = place(now, l);
        lemma_place(now, k);
        if k != i {
            let m = if k < i {
                k
            } else {
                k - 1
            };
            assert(pairs[m] == now[k]);
            lemma_place(pairs, m);
            lemma_place(now, i);
        }
    }
    assert(table_of(now) =~= table_of(pairs).insert(label, 0));
}

/// Where among an ascending list a new label belongs, at `k` or after it.
proof fn lemma_insertion_point(pairs: Seq<(Seq<char>, u64)>, label: Seq<char>, k: int) -> (i: int)
    requires
        !has_label(pairs, label),
        0 <= k <= pairs.len(),
        forall|j: int| 0 <= j < k ==> text::before((#[trigger] pairs[j]).0, label),
    ensures
        k <= i <= pairs.len(),
        forall|j: int| 0 <= j < i ==> text::before((#[trigger] pairs[j]).0, label),
        i < pairs.len() ==> text::before(label, pairs[i].0),
    decreases pairs.len() - k,
{
    if k == pairs.len() {
        k
    } else {
        assert(pairs[k].0 != label);
        text::lemma_before_total(pairs[k].0, label);
        if text::before(pairs[k].0, label) {
            lemma_insertion_point(pairs, label, k + 1)
        } else {
            k
        }
    }
}

/// Counters that can be listed still can after one more count.
pub proof fn lemma_bumped_is_listed(counters: Map<Seq<char>, u64>, label: Seq<char>, n: u64)
    requires
        is_listing(counters, listing(counters)),
    ensures
        is_listing(bumped(counters, label, n), listing(bumped(counters, label, n))),
{
    let pairs = listing(counters);
    let value = count(counters, label).wrapping_add(n);
    lemma_table_listing(pairs);
    assert forall|l: Seq<char>| has_label(pairs, l) implies counters[l] == #[trigger] table_of(
        pairs,
    )[l] by {
        assert(pairs[place(pairs, l)].0 == l);
    }
    assert(counters =~= table_of(pairs));
    if has_label(pairs, label) {
        let i = place(pairs, label);
        assert(pairs[i].0 == label);
        lemma_table_update(pairs, i, value);
        lemma_table_listing(pairs.update(i, (pairs[i].0, value)));
    } else {
        let i = lemma_insertion_point(pairs, label, 0);
        lemma_table_insert(pairs, i, label);
        let now = pairs.insert(i, (label, 0));
        assert(now[i].0 == label);
        lemma_table_update(now, i, value);
        lemma_table_listing(now.update(i, (now[i].0, value)));
        assert(counters.insert(label, 0).insert(label, value) =~= counters.insert(label, value));
    }
}

/// A set of labeled counters. A label is pre-formatted as `{k="v",...}` for
/// direct text-format output.
pub struct LabeledCounters {
    /// In the order of their labels.
    entries: Vec<(String, u64)>,
}

impl View for LabeledCounters {
    type V = Map<Seq<char>, u64>;

    closed spec fn view(&self) -> Map<Seq<char>, u64> {
        table_of(pair_views(self.entries@))
    }
}

impl Default for LabeledCounters {
    fn default() -> (r: Self)
        ensures
            r@ == Map::<Seq<char>, u64>::empty(),
    {
        Self::new()
    }
}

impl LabeledCounters {
    #[verifier::type_invariant]
    spec fn in_order(self) -> bool {
        is_ascending(pair_views(self.entries@))
    }

    /// No counter was touched yet.
    pub fn new() -> (r: Self)
        ensures
            r@ == Map::<Seq<char>, u64>::empty(),
    {
        let r = LabeledCounters { entries: Vec::new() };
        assert(r@ =~= Map::<Seq<char>, u64>::empty());
        r
    }

    /// Where the counter of a label stands; a missing one is put in its place,
    /// at 0.
    fn get_or_create(entries: &mut Vec<(String, u64)>, key: String) -> (i: usize)
        requires
            is_ascending(pair_views(old(entries)@)),
        ensures
            is_ascending(pair_views(final(entries)@)),
            i < final(entries)@.len(),
            final(entries)@[i as int].0@ == key@,
            final(entries)@[i as int].1 == count(table_of(pair_views(old(entries)@)), key@),
            table_of(pair_views(final(entries)@)) == bumped(
                table_of(pair_views(old(entries)@)),
                key@,
                0,
            ),
    {
        let ghost pairs = pair_views(entries@);
        let ghost table = table_of(pairs);
        let mut i: usize = 0;
        while i < entries.len()
            invariant
                entries@ == old(entries)@,
                pairs == pair_views(entries@),
                is_ascending(pairs),
                i <= entries@.len(),
                forall|k: int| 0 <= k < i ==> text::before((#[trigger] pairs[k]).0, key@),
            ensures
                entries@ == old(entries)@,
                i <= entries@.len(),
                forall|k: int| 0 <= k < i ==> text::before((#[trigger] pairs[k]).0, key@),
                i < entries@.len() ==> text::before(key@, pairs[i as int].0),
            decreases entries@.len() - i,
        {
            match text::side_of(entries[i].0.as_str(), key.as_str()) {
                Side::Before => {
                    assert(text::before(pairs[i as int].0, key@));
                    i = i + 1;
                },
                Side::Same => {
                    proof {
                        lemma_place(pairs, i as int);
                        assert(pairs[i as int].0 == key@);
                        assert(table_of(pairs) =~= bumped(table_of(pairs), key@, 0));
                    }
                    return i;
                },
                Side::After => {
                    break;
                },
            }
        }
        let ghost label = key@;
        entries.insert(i, (key, 0));
        proof {
            lemma_table_insert(pairs, i as int, label);
            assert(pair_views(entries@) == pairs.insert(i as int, (label, 0u64)));
        }
        i
    }

    /// Add 1 to the counter of a label.
    pub fn inc(&mut self, key: String)
        ensures
            final(self)@ == bumped(old(self)@, key@, 1),
    {
        self.add(key, 1);
    }

    /// Add to the counter of a label. A counter that was added to, be it 0,
    /// exists from then on.
    pub fn add(&mut self, key: String, n: u64)
        ensures
            final(self)@ == bumped(old(self)@, key@, n),
    {
        proof {
            use_type_invariant(&*self);
        }
        let ghost label = key@;
        let ghost before = table_of(pair_views(self.entries@));
        let mut entries: Vec<(String, u64)> = Vec::new();
        std::mem::swap(&mut entries, &mut self.entries);
        let i = Self::get_or_create(&mut entries, key);
        let ghost pairs = pair_views(entries@);
        let value = entries[i].1.wrapping_add(n);
        let name = entries[i].0.clone();
        entries.set(i, (name, value));
        proof {
            lemma_table_update(pairs, i as int, value);
            assert(pair_views(entries@) == pairs.update(i as int, (label, value)));
            assert(bumped(before, label, 0).insert(label, value) == bumped(before, label, n));
        }
        self.entries = entries;
    }

    /// The counters in the order of their labels (deterministic output).
    pub fn snapshot(&self) -> (r: Vec<(String, u64)>)
        ensures
            pair_views(r@) == listing(self@),
            is_listing(self@, pair_views(r@)),
    {
        proof {
            use_type_invariant(self);
            lemma_table_listing(pair_views(self.entries@));
        }
        let mut r: Vec<(String, u64)> = Vec::new();
        for i in 0..self.entries.len()
            invariant
                r@ == self.entries@.take(i as int),
        {
            let entry = &self.entries[i];
            r.push((entry.0.clone(), entry.1));
            assert(self.entries@.take(i + 1) == self.entries@.take(i as int).push(
                self.entries@[i as int],
            ));
        }
        assert(self.entries@.take(self.entries@.len() as int) == self.entries@);
        r
    }
}

/// A character as it stands inside a quoted label value: backslash,
/// double-quote and newline are escaped.
pub open spec fn escaped_char(c: char) -> Seq<char> {
    if c == '\\' {
        seq!['\\', '\\']
    } else if c == '"' {
        seq!['\\', '"']
    } else if c == '\n' {
        seq!['\\', 'n']
    } else {
        seq![c]
    }
}

/// A text as it stands inside a quoted label value.
pub open spec fn escaped(s: Seq<char>) -> Seq<char>
    decreases s.len(),
{
    if s.len() == 0 {
        Seq::empty()
    } else {
        escaped_char(s[0]) + escaped(s.drop_first())
    }
}

/// `{backend="..",model="..",status=".."}`
pub open spec fn request_label(
    backend: Seq<char>,
    model: Seq<char>,
    status_class: Seq<char>,
) -> Seq<char> {
    "{backend=\""@ + escaped(backend) + "\",model=\""@ + escaped(model) + "\",status=\""@ + escaped(
        status_class,
    ) + "\"}"@
}

/// `{key="..",kind=".."}`
pub open spec fn token_label(key: Seq<char>, kind: Seq<char>) -> Seq<char> {
    "{key=\""@ + escaped(key) + "\",kind=\""@ + kind + "\"}"@
}

/// `{backend=".."}`
pub open spec fn backend_label(backend: Seq<char>) -> Seq<char> {
    "{backend=\""@ + escaped(backend) + "\"}"@
}

/// `{key=".."}`
pub open spec fn key_label(key: Seq<char>) -> Seq<char> {
    "{key=\""@ + escaped(key) + "\"}"@
}

/// The decimal digit of a number below ten.
pub open spec fn digit(d: nat) -> char {
    ('0' as nat + d) as char
}

/// A number in decimal, without leading zeros.
pub open spec fn decimal(n: nat) -> Seq<char>
    decreases n,
{
    if n < 10 {
        seq![digit(n)]
    } else {
        decimal(n / 10).push(digit(n % 10))
    }
}

/// One sample line per counter.
pub open spec fn sample_lines(name: Seq<char>, pairs: Seq<(Seq<char>, u64)>) -> Seq<char>
    decreases pairs.len(),
{
    if pairs.len() == 0 {
        Seq::empty()
    } else {
        sample_lines(name, pairs.drop_last()) + name + pairs.last().0 + " "@ + decimal(
            pairs.last().1 as nat,
        ) + "\n"@
    }
}

/// The text of one metric family: its help and type lines, then its samples.
/// A family without samples does not appear.
pub open spec fn family(
    name: Seq<char>,
    ty: Seq<char>,
    help: Seq<char>,
    pairs: Seq<(Seq<char>, u64)>,
) -> Seq<char> {
    if pairs.len() == 0 {
        Seq::empty()
    } else {
        "# HELP "@ + name + " "@ + help + "\n# TYPE "@ + name + " "@ + ty + "\n"@ + sample_lines(
            name,
            pairs,
        )
    }
}

/// What a [`MetricsHandle`] has counted, by label.
#[verifier::ext_equal]
pub struct MetricsView {
    pub requests: Map<Seq<char>, u64>,
    pub tokens: Map<Seq<char>, u64>,
    pub upstream_errors: Map<Seq<char>, u64>,
    pub rate_limit_rejections: Map<Seq<char>, u64>,
    pub budget_rejections: Map<Seq<char>, u64>,
}

/// The counters of every family can be listed, as those of a
/// [`MetricsHandle`] always can.
pub open spec fn is_listed(m: MetricsView) -> bool {
    &&& is_listing(m.requests, listing(m.requests))
    &&& is_listing(m.tokens, listing(m.tokens))
    &&& is_listing(m.upstream_errors, listing(m.upstream_errors))
    &&& is_listing(m.rate_limit_rejections, listing(m.rate_limit_rejections))
    &&& is_listing(m.budget_rejections, listing(m.budget_rejections))
}

/// Nothing was counted yet.
pub open spec fn no_metrics() -> MetricsView {
    MetricsView {
        requests: Map::empty(),
        tokens: Map::empty(),
        upstream_errors: Map::empty(),
        rate_limit_rejections: Map::empty(),
        budget_rejections: Map::empty(),
    }
}

/// The token counters after one more usage report of a key.
pub open spec fn with_usage(
    tokens: Map<Seq<char>, u64>,
    key: Seq<char>,
    usage: Usage,
) -> Map<Seq<char>, u64> {
    bumped(
        bumped(
            bumped(tokens, token_label(key, "prompt"@), usage.prompt_tokens),
            token_label(key, "completion"@),
            usage.completion_tokens,
        ),
        token_label(key, "total"@),
        usage.total_tokens,
    )
}

/// The family of requests.
pub open spec fn requests_family(counters: Map<Seq<char>, u64>) -> Seq<char> {
    family(
        "patchbay_requests_total"@,
        "counter"@,
        "Total requests received."@,
        listing(counters),
    )
}

/// The family of tokens.
pub open spec fn tokens_family(counters: Map<Seq<char>, u64>) -> Seq<char> {
    family("patchbay_tokens_total"@, "counter"@, "Total tokens consumed."@, listing(counters))
}

/// The family of upstream errors.
pub open spec fn upstream_errors_family(counters: Map<Seq<char>, u64>) -> Seq<char> {
    family(
        "patchbay_upstream_errors_total"@,
        "counter"@,
        "Upstream non-2xx or connection errors."@,
        listing(counters),
    )
}

/// The family of rejections by the rate limiter.
pub open spec fn rate_limit_rejections_family(counters: Map<Seq<char>, u64>) -> Seq<char> {
    family(
        "patchbay_rate_limit_rejections_total"@,
        "counter"@,
        "Requests rejected by rate limiter."@,
        listing(counters),
    )
}

/// The family of rejections by the token budget.
pub open spec fn budget_rejections_family(counters: Map<Seq<char>, u64>) -> Seq<char> {
    family(
        "patchbay_budget_rejections_total"@,
        "counter"@,
        "Requests rejected by token budget."@,
        listing(counters),
    )
}

/// All metrics in Prometheus text format.
pub open spec fn exposition(m: MetricsView) -> Seq<char> {
    requests_family(m.requests) + tokens_family(m.tokens) + upstream_errors_family(
        m.upstream_errors,
    ) + rate_limit_rejections_family(m.rate_limit_rejections) + budget_rejections_family(
        m.budget_rejections,
    )
}

/// The gateway's metrics: what happened so far, counted by label.
pub struct MetricsHandle {
    requests: LabeledCounters,
    tokens: LabeledCounters,
    upstream_errors: LabeledCounters,
    rate_limit_rejections: LabeledCounters,
    budget_rejections: LabeledCounters,
}

impl View for MetricsHandle {
    type V = MetricsView;

    closed spec fn view(&self) -> MetricsView {
        MetricsView {
            requests: self.requests@,
            tokens: self.tokens@,
            upstream_errors: self.upstream_errors@,
            rate_limit_rejections: self.rate_limit_rejections@,
            budget_rejections: self.budget_rejections@,
        }
    }
}

impl Default for MetricsHandle {
    fn default() -> (r: Self)
        ensures
            r@ == no_metrics(),
    {
        MetricsHandle {
            requests: LabeledCounters::new(),
            tokens: LabeledCounters::new(),
            upstream_errors: LabeledCounters::new(),
            rate_limit_rejections: LabeledCounters::new(),
            budget_rejections: LabeledCounters::new(),
        }
    }
}

impl MetricsHandle {
    pub fn new() -> (r: Self)
        ensures
            r@ == no_metrics(),
    {
        Self::default()
    }

    /// Record one completed (or failed) request. `status_class` is "2xx",
    /// "4xx", "5xx", etc.
    pub fn record_request(&mut self, backend: &str, model: &str, status_class: &str)
        ensures
            final(self)@ == (MetricsView {
                requests: bumped(
                    old(self)@.requests,
                    request_label(backend@, model@, status_class@),
                    1,
                ),
                ..old(self)@
            }),
    {
        let mut key = "{backend=\"".to_owned();
        key.append(escape(backend).as_str());
        key.append("\",model=\"");
        key.append(escape(model).as_str());
        key.append("\",status=\"");
        key.append(escape(status_class).as_str());
        key.append("\"}");
        self.requests.inc(key);
    }

    /// Record token usage for a virtual `key` after a completed response.
    pub fn record_tokens(&mut self, key: &str, usage: &Usage)
        ensures
            final(self)@ == (MetricsView {
                tokens: with_usage(old(self)@.tokens, key@, *usage),
                ..old(self)@
            }),
    {
        self.add_tokens(key, "prompt", usage.prompt_tokens);
        self.add_tokens(key, "completion", usage.completion_tokens);
        self.add_tokens(key, "total", usage.total_tokens);
    }

    fn add_tokens(&mut self, key: &str, kind: &str, n: u64)
        ensures
            final(self)@ == (MetricsView {
                tokens: bumped(old(self)@.tokens, token_label(key@, kind@), n),
                ..old(self)@
            }),
    {
        let mut label = "{key=\"".to_owned();
        label.append(escape(key).as_str());
        label.append("\",kind=\"");
        label.append(kind);
        label.append("\"}");
        self.tokens.add(label, n);
    }

    /// Record a failed upstream request (non-2xx or connection error).
    pub fn record_upstream_error(&mut self, backend: &str)
        ensures
            final(self)@ == (MetricsView {
                upstream_errors: bumped(old(self)@.upstream_errors, backend_label(backend@), 1),
                ..old(self)@
            }),
    {
        let mut key = "{backend=\"".to_owned();
        key.append(escape(backend).as_str());
        key.append("\"}");
        self.upstream_errors.inc(key);
    }

    /// Record a request rejected by the rate limiter.
    pub fn record_rate_limit_rejection(&mut self, key: &str)
        ensures
            final(self)@ == (MetricsView {
                rate_limit_rejections: bumped(
                    old(self)@.rate_limit_rejections,
                    key_label(key@),
                    1,
                ),
                ..old(self)@
            }),
    {
        let label = quoted_key(key);
        self.rate_limit_rejections.inc(label);
    }

    /// Record a request rejected by the token budget.
    pub fn record_budget_rejection(&mut self, key: &str)
        ensures
            final(self)@ == (MetricsView {
                budget_rejections: bumped(old(self)@.budget_rejections, key_label(key@), 1),
                ..old(self)@
            }),
    {
        let label = quoted_key(key);
        self.budget_rejections.inc(label);
    }

    /// Render all metrics in Prometheus text format (text/plain; version=0.0.4).
    pub fn render(&self) -> (out: String)
        ensures
            out@ == exposition(self@),
            is_listed(self@),
    {
        let mut out = String::new();
        write_family(
            &mut out,
            "patchbay_requests_total",
            "counter",
            "Total requests received.",
            self.requests.snapshot().as_slice(),
        );
        write_family(
            &mut out,
            "patchbay_tokens_total",
            "counter",
            "Total tokens consumed.",
            self.tokens.snapshot().as_slice(),
        );
        write_family(
            &mut out,
            "patchbay_upstream_errors_total",
            "counter",
            "Upstream non-2xx or connection errors.",
            self.upstream_errors.snapshot().as_slice(),
        );
        write_family(
            &mut out,
            "patchbay_rate_limit_rejections_total",
            "counter",
            "Requests rejected by rate limiter.",
            self.rate_limit_rejections.snapshot().as_slice(),
        );
        write_family(
            &mut out,
            "patchbay_budget_rejections_total",
            "counter",
            "Requests rejected by token budget.",
            self.budget_rejections.snapshot().as_slice(),
        );
        out
    }
}

fn quoted_key(key: &str) -> (r: String)
    ensures
        r@ == key_label(key@),
{
    let mut label = "{key=\"".to_owned();
    label.append(escape(key).as_str());
    label.append("\"}");
    label
}

fn write_family(out: &mut String, name: &str, ty: &str, help: &str, pairs: &[(String, u64)])
    ensures
        final(out)@ == old(out)@ + family(name@, ty@, help@, pair_views(pairs@)),
{
    if pairs.len() == 0 {
        return;
    }
    out.append("# HELP ");
    out.append(name);
    out.append(" ");
    out.append(help);
    out.append("\n# TYPE ");
    out.append(name);
    out.append(" ");
    out.append(ty);
    out.append("\n");
    let ghost head = out@;
    let ghost views = pair_views(pairs@);
    for i in 0..pairs.len()
        invariant
            views == pair_views(pairs@),
            out@ == head + sample_lines(name@, views.take(i as int)),
    {
        let pair = &pairs[i];
        out.append(name);
        out.append(pair.0.as_str());
        out.append(" ");
        push_decimal(out, pair.1);
        out.append("\n");
        assert(views.take(i + 1).drop_last() == views.take(i as int));
    }
    assert(views.take(pairs@.len() as int) == views);
}

/// Write a number in decimal.
fn push_decimal(out: &mut String, n: u64)
    ensures
        final(out)@ == old(out)@ + decimal(n as nat),
    decreases n,
{
    if n >= 10 {
        push_decimal(out, n / 10);
    }
    out.push((0x30u8 + (n % 10) as u8) as char);
}

/// Escape label values: backslash, double-quote, and newline must be escaped.
pub fn escape(s: &str) -> (r: String)
    ensures
        r@ == escaped(s@),
{
    let chars = text::chars_of(s);
    let mut r = String::new();
    assert(s@.skip(0) == s@);
    for i in 0..chars.len()
        invariant
            chars@ == s@,
            r@ + escaped(s@.skip(i as int)) == escaped(s@),
    {
        let ghost done = r@;
        let c = chars[i];
        if c == '\\' {
            r.append("\\\\");
        } else if c == '"' {
            r.append("\\\"");
        } else if c == '\n' {
            r.append("\\n");
        } else {
            r.push(c);
        }
        proof {
            reveal_strlit("\\\\");
            reveal_strlit("\\\"");
            reveal_strlit("\\n");
            assert(r@ == done + escaped_char(c));
            assert(s@.skip(i as int).drop_first() == s@.skip(i + 1));
        }
    }
    r
}

}
