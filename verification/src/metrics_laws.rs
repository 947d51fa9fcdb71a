//! What holds of the metrics as a whole: nothing that is counted is lost,
//! mixed up or left out of the exposition.
use crate::metrics;
use crate::metrics::MetricsView;
use crate::upstream::Usage;
use vstd::prelude::*;

verus! {

/// `line` stands somewhere in `text`.
pub open spec fn shows(text: Seq<char>, line: Seq<char>) -> bool {
    exists|from: int|
        0 <= from <= text.len() - line.len() && #[trigger] text.subrange(from, from + line.len())
            == line
}

/// The line that gives the value of one counter.
pub open spec fn sample(name: Seq<char>, label: Seq<char>, value: u64) -> Seq<char> {
    name + label + " "@ + metrics::decimal(value as nat) + "\n"@
}

/// Every counter is shown, with its value.
pub open spec fn shows_all(
    text: Seq<char>,
    name: Seq<char>,
    counters: Map<Seq<char>, u64>,
) -> bool {
    forall|label: Seq<char>| #[trigger]
        counters.contains_key(label) ==> shows(text, sample(name, label, counters[label]))
}

/// Before anything was counted, the exposition is empty.
pub proof fn lemma_nothing_counted_renders_empty()
    ensures
        metrics::exposition(metrics::no_metrics()) == Seq::<char>::empty(),
{
    let none = Map::<Seq<char>, u64>::empty();
    assert(metrics::is_listing(none, Seq::empty()));
    metrics::lemma_listing_is_unique(none, metrics::listing(none), Seq::empty());
}

/// Counting adds to the one counter (modulo 2^64) and leaves every other as
/// it is.
pub proof fn lemma_counting_touches_one_counter(
    counters: Map<Seq<char>, u64>,
    label: Seq<char>,
    other: Seq<char>,
    n: u64,
)
    ensures
        metrics::count(metrics::bumped(counters, label, n), label) == (metrics::count(
            counters,
            label,
        ) + n) % 0x1_0000_0000_0000_0000,
        other != label ==> metrics::count(metrics::bumped(counters, label, n), other)
            == metrics::count(counters, other),
{
}

/// Counting twice under one label is counting the sum (modulo 2^64).
pub proof fn lemma_counts_accumulate(
    counters: Map<Seq<char>, u64>,
    label: Seq<char>,
    a: u64,
    b: u64,
)
    ensures
        metrics::bumped(metrics::bumped(counters, label, a), label, b) == metrics::bumped(
            counters,
            label,
            a.wrapping_add(b),
        ),
{
    assert(metrics::bumped(metrics::bumped(counters, label, a), label, b) =~= metrics::bumped(
        counters,
        label,
        a.wrapping_add(b),
    ));
}

/// The order in which things are counted does not matter.
pub proof fn lemma_counting_commutes(
    counters: Map<Seq<char>, u64>,
    k: Seq<char>,
    a: u64,
    l: Seq<char>,
    b: u64,
)
    ensures
        metrics::bumped(metrics::bumped(counters, k, a), l, b) == metrics::bumped(
            metrics::bumped(counters, l, b),
            k,
            a,
        ),
{
    assert(metrics::bumped(metrics::bumped(counters, k, a), l, b) =~= metrics::bumped(
        metrics::bumped(counters, l, b),
        k,
        a,
    ));
}

/// An escaped text holds no line break.
pub proof fn lemma_escaped_is_one_line(s: Seq<char>)
    ensures
        !metrics::escaped(s).contains('\n'),
    decreases s.len(),
{
    if s.len() > 0 {
        lemma_escaped_is_one_line(s.drop_first());
        let e = metrics::escaped(s);
        let head = metrics::escaped_char(s[0]);
        let rest = metrics::escaped(s.drop_first());
        assert forall|i: int| 0 <= i < e.len() implies e[i] != '\n' by {
            if i >= head.len() {
                assert(e[i] == rest[i - head.len()]);
            }
        }
    }
}

/// An escaped text ends at the first quote that no backslash escapes: what
/// was quoted can be told from what follows it.
pub proof fn lemma_quoted_text_is_delimited(
    a: Seq<char>,
    x: Seq<char>,
    b: Seq<char>,
    y: Seq<char>,
)
    requires
        metrics::escaped(a) + seq!['"'] + x == metrics::escaped(b) + seq!['"'] + y,
    ensures
        a == b,
        x == y,
    decreases a.len(),
{
    let left = metrics::escaped(a) + seq!['"'] + x;
    let right = metrics::escaped(b) + seq!['"'] + y;
    if a.len() == 0 || b.len() == 0 {
        assert(left[0] == right[0]);
        assert(a == b);
        assert(x == left.skip(1));
        assert(y == right.skip(1));
    } else {
        let n = metrics::escaped_char(a[0]).len() as int;
        assert(left[0] == right[0]);
        assert(left[n - 1] == right[n - 1]);
        assert(left[1] == right[1]);
        assert(a[0] == b[0]);
        assert(left.skip(n) == metrics::escaped(a.drop_first()) + seq!['"'] + x);
        assert(right.skip(n) == metrics::escaped(b.drop_first()) + seq!['"'] + y);
        lemma_quoted_text_is_delimited(a.drop_first(), x, b.drop_first(), y);
        assert(a == seq![a[0]] + a.drop_first());
        assert(b == seq![b[0]] + b.drop_first());
    }
}

/// Escaping loses nothing.
pub proof fn lemma_escape_is_injective(a: Seq<char>, b: Seq<char>)
    requires
        metrics::escaped(a) == metrics::escaped(b),
    ensures
        a == b,
{
    lemma_quoted_text_is_delimited(a, Seq::empty(), b, Seq::empty());
}

/// Requests to different backends, for different models or with different
/// status classes are counted apart.
pub proof fn lemma_request_labels_are_distinct(
    backend: Seq<char>,
    model: Seq<char>,
    status_class: Seq<char>,
    other_backend: Seq<char>,
    other_model: Seq<char>,
    other_status_class: Seq<char>,
)
    requires
        metrics::request_label(backend, model, status_class) == metrics::request_label(
            other_backend,
            other_model,
            other_status_class,
        ),
    ensures
        backend == other_backend,
        model == other_model,
        status_class == other_status_class,
{
    reveal_strlit("{backend=\"");
    reveal_strlit("\",model=\"");
    reveal_strlit("\",status=\"");
    reveal_strlit("\"}");
    let quote = seq!['"'];
    let b1 = seq!['}'];
    let s1 = metrics::escaped(status_class) + quote + b1;
    let s2 = metrics::escaped(other_status_class) + quote + b1;
    let to_status = "\",status=\""@.skip(1);
    let to_model = "\",model=\""@.skip(1);
    let m1 = metrics::escaped(model) + quote + (to_status + s1);
    let m2 = metrics::escaped(other_model) + quote + (to_status + s2);
    let r1 = metrics::escaped(backend) + quote + (to_model + m1);
    let r2 = metrics::escaped(other_backend) + quote + (to_model + m2);
    let open = "{backend=\""@;
    assert(metrics::request_label(backend, model, status_class) == open + r1);
    assert(metrics::request_label(other_backend, other_model, other_status_class) == open + r2);
    assert(r1 == (open + r1).skip(open.len() as int));
    assert(r2 == (open + r2).skip(open.len() as int));
    lemma_quoted_text_is_delimited(backend, to_model + m1, other_backend, to_model + m2);
    assert(m1 == (to_model + m1).skip(to_model.len() as int));
    assert(m2 == (to_model + m2).skip(to_model.len() as int));
    lemma_quoted_text_is_delimited(model, to_status + s1, other_model, to_status + s2);
    assert(s1 == (to_status + s1).skip(to_status.len() as int));
    assert(s2 == (to_status + s2).skip(to_status.len() as int));
    lemma_quoted_text_is_delimited(status_class, b1, other_status_class, b1);
}

/// Tokens of different keys or of different kinds are counted apart.
pub proof fn lemma_token_labels_are_distinct(
    key: Seq<char>,
    kind: Seq<char>,
    other_key: Seq<char>,
    other_kind: Seq<char>,
)
    requires
        metrics::token_label(key, kind) == metrics::token_label(other_key, other_kind),
    ensures
        key == other_key,
        kind == other_kind,
{
    reveal_strlit("{key=\"");
    reveal_strlit("\",kind=\"");
    reveal_strlit("\"}");
    let quote = seq!['"'];
    let open = "{key=\""@;
    let to_kind = "\",kind=\""@.skip(1);
    let k1 = kind + "\"}"@;
    let k2 = other_kind + "\"}"@;
    let r1 = metrics::escaped(key) + quote + (to_kind + k1);
    let r2 = metrics::escaped(other_key) + quote + (to_kind + k2);
    assert(metrics::token_label(key, kind) == open + r1);
    assert(metrics::token_label(other_key, other_kind) == open + r2);
    assert(r1 == (open + r1).skip(open.len() as int));
    assert(r2 == (open + r2).skip(open.len() as int));
    lemma_quoted_text_is_delimited(key, to_kind + k1, other_key, to_kind + k2);
    assert(k1 == (to_kind + k1).skip(to_kind.len() as int));
    assert(k2 == (to_kind + k2).skip(to_kind.len() as int));
    assert(kind == k1.take(k1.len() - 2));
    assert(other_kind == k2.take(k2.len() - 2));
}

/// Errors of different backends are counted apart, and so are rejections of
/// different keys.
pub proof fn lemma_single_labels_are_distinct(a: Seq<char>, b: Seq<char>)
    ensures
        metrics::backend_label(a) == metrics::backend_label(b) ==> a == b,
        metrics::key_label(a) == metrics::key_label(b) ==> a == b,
{
    reveal_strlit("{backend=\"");
    reveal_strlit("{key=\"");
    reveal_strlit("\"}");
    let r1 = metrics::escaped(a) + seq!['"'] + seq!['}'];
    let r2 = metrics::escaped(b) + seq!['"'] + seq!['}'];
    let backend = "{backend=\""@;
    let key = "{key=\""@;
    assert(metrics::backend_label(a) == backend + r1);
    assert(metrics::backend_label(b) == backend + r2);
    assert(metrics::key_label(a) == key + r1);
    assert(metrics::key_label(b) == key + r2);
    assert(r1 == (backend + r1).skip(backend.len() as int));
    assert(r2 == (backend + r2).skip(backend.len() as int));
    assert(r1 == (key + r1).skip(key.len() as int));
    assert(r2 == (key + r2).skip(key.len() as int));
    if r1 == r2 {
        lemma_quoted_text_is_delimited(a, seq!['}'], b, seq!['}']);
    }
}

/// A usage report adds to the three token counters of its key, each by its
/// own amount, and to no other.
pub proof fn lemma_usage_is_counted_by_kind(
    tokens: Map<Seq<char>, u64>,
    key: Seq<char>,
    usage: Usage,
    other: Seq<char>,
)
    ensures
        ({
            let now = metrics::with_usage(tokens, key, usage);
            let prompt = metrics::token_label(key, "prompt"@);
            let completion = metrics::token_label(key, "completion"@);
            let total = metrics::token_label(key, "total"@);
            &&& metrics::count(now, prompt) == metrics::count(tokens, prompt).wrapping_add(
                usage.prompt_tokens,
            )
            &&& metrics::count(now, completion) == metrics::count(tokens, completion).wrapping_add(
                usage.completion_tokens,
            )
            &&& metrics::count(now, total) == metrics::count(tokens, total).wrapping_add(
                usage.total_tokens,
            )
            &&& other != prompt && other != completion && other != total ==> metrics::count(
                now,
                other,
            ) == metrics::count(tokens, other)
        }),
{
    reveal_strlit("prompt");
    reveal_strlit("completion");
    reveal_strlit("total");
    let prompt = metrics::token_label(key, "prompt"@);
    let completion = metrics::token_label(key, "completion"@);
    let total = metrics::token_label(key, "total"@);
    if prompt == completion {
        lemma_token_labels_are_distinct(key, "prompt"@, key, "completion"@);
    }
    if prompt == total {
        lemma_token_labels_are_distinct(key, "prompt"@, key, "total"@);
    }
    if completion == total {
        lemma_token_labels_are_distinct(key, "completion"@, key, "total"@);
    }
}

proof fn lemma_shows_in_longer(before: Seq<char>, text: Seq<char>, after: Seq<char>, line: Seq<char>)
    requires
        shows(text, line),
    ensures
        shows(before + text + after, line),
{
    let from = choose|from: int|
        0 <= from <= text.len() - line.len() && #[trigger] text.subrange(from, from + line.len())
            == line;
    let all = before + text + after;
    let at = before.len() + from;
    assert(all.subrange(at, at + line.len()) == line);
}

proof fn lemma_lines_show_each(name: Seq<char>, pairs: Seq<(Seq<char>, u64)>, i: int)
    requires
        0 <= i < pairs.len(),
    ensures
        shows(metrics::sample_lines(name, pairs), sample(name, pairs[i].0, pairs[i].1)),
    decreases pairs.len(),
{
    let rest = metrics::sample_lines(name, pairs.drop_last());
    let last = sample(name, pairs.last().0, pairs.last().1);
    let all = metrics::sample_lines(name, pairs);
    assert(all == rest + last);
    if i == pairs.len() - 1 {
        assert(last.subrange(0, 0int + last.len()) == last);
        lemma_shows_in_longer(rest, last, Seq::empty(), last);
        assert(all == rest + last + Seq::empty());
    } else {
        lemma_lines_show_each(name, pairs.drop_last(), i);
        lemma_shows_in_longer(
            Seq::empty(),
            rest,
            last,
            sample(name, pairs[i].0, pairs[i].1),
        );
        assert(all == Seq::empty() + rest + last);
    }
}

proof fn lemma_family_shows_all(
    before: Seq<char>,
    after: Seq<char>,
    name: Seq<char>,
    ty: Seq<char>,
    help: Seq<char>,
    counters: Map<Seq<char>, u64>,
)
    requires
        metrics::is_listing(counters, metrics::listing(counters)),
    ensures
        shows_all(
            before + metrics::family(name, ty, help, metrics::listing(counters)) + after,
            name,
            counters,
        ),
{
    let pairs = metrics::listing(counters);
    let text = metrics::family(name, ty, help, pairs);
    assert forall|label: Seq<char>| #[trigger] counters.contains_key(label) implies shows(
        before + text + after,
        sample(name, label, counters[label]),
    ) by {
        assert(metrics::has_label(pairs, label));
        let i = choose|i: int| 0 <= i < pairs.len() && (#[trigger] pairs[i]).0 == label;
        lemma_lines_show_each(name, pairs, i);
        let head = "# HELP "@ + name + " "@ + help + "\n# TYPE "@ + name + " "@ + ty + "\n"@;
        let lines = metrics::sample_lines(name, pairs);
        lemma_shows_in_longer(head, lines, Seq::empty(), sample(name, label, counters[label]));
        assert(text == head + lines + Seq::empty());
        lemma_shows_in_longer(before, text, after, sample(name, label, counters[label]));
    }
}

/// Every counter of every family stands in the exposition, on a line with
/// its name, its label and its value.
pub proof fn lemma_every_counter_is_exposed(m: MetricsView)
    requires
        metrics::is_listed(m),
    ensures
        shows_all(metrics::exposition(m), "patchbay_requests_total"@, m.requests),
        shows_all(metrics::exposition(m), "patchbay_tokens_total"@, m.tokens),
        shows_all(metrics::exposition(m), "patchbay_upstream_errors_total"@, m.upstream_errors),
        shows_all(
            metrics::exposition(m),
            "patchbay_rate_limit_rejections_total"@,
            m.rate_limit_rejections,
        ),
        shows_all(
            metrics::exposition(m),
            "patchbay_budget_rejections_total"@,
            m.budget_rejections,
        ),
{
    let all = metrics::exposition(m);
    let none = Seq::<char>::empty();
    let requests = metrics::requests_family(m.requests);
    let tokens = metrics::tokens_family(m.tokens);
    let errors = metrics::upstream_errors_family(m.upstream_errors);
    let limited = metrics::rate_limit_rejections_family(m.rate_limit_rejections);
    let spent = metrics::budget_rejections_family(m.budget_rejections);
    assert(all == none + requests + (tokens + errors + limited + spent));
    assert(all == requests + tokens + (errors + limited + spent));
    assert(all == (requests + tokens) + errors + (limited + spent));
    assert(all == (requests + tokens + errors) + limited + spent);
    assert(all == (requests + tokens + errors + limited) + spent + none);
    lemma_family_shows_all(
        none,
        tokens + errors + limited + spent,
        "patchbay_requests_total"@,
        "counter"@,
        "Total requests received."@,
        m.requests,
    );
    lemma_family_shows_all(
        requests,
        errors + limited + spent,
        "patchbay_tokens_total"@,
        "counter"@,
        "Total tokens consumed."@,
        m.tokens,
    );
    lemma_family_shows_all(
        requests + tokens,
        limited + spent,
        "patchbay_upstream_errors_total"@,
        "counter"@,
        "Upstream non-2xx or connection errors."@,
        m.upstream_errors,
    );
    lemma_family_shows_all(
        requests + tokens + errors,
        spent,
        "patchbay_rate_limit_rejections_total"@,
        "counter"@,
        "Requests rejected by rate limiter."@,
        m.rate_limit_rejections,
    );
    lemma_family_shows_all(
        requests + tokens + errors + limited,
        none,
        "patchbay_budget_rejections_total"@,
        "counter"@,
        "Requests rejected by token budget."@,
        m.budget_rejections,
    );
}

}
