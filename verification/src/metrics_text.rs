//! What the exposition says, stated of all values: numbers read back as the
//! numbers, labels hold their values, and every family is laid out the same way.
use crate::metrics;
use crate::metrics::MetricsView;
use crate::text;
use crate::upstream::Usage;
use vstd::prelude::*;

verus! {

/// A written number reads back as the number: folding its digits from the left
/// gives it. It is made of digits alone, and only 0 begins with a zero.
pub proof fn lemma_number_reads_back(n: nat)
    ensures
        metrics::decimal(n).fold_left(0int, |v: int, c: char| v * 10 + (c as int - 48)) == n,
        metrics::decimal(n).len() > 0,
        forall|i: int|
            0 <= i < metrics::decimal(n).len() ==> '0' <= #[trigger] metrics::decimal(n)[i] <= '9',
        metrics::decimal(n)[0] == '0' <==> n == 0,
        n < 10 ==> metrics::decimal(n).len() == 1,
    decreases n,
{
    let read = |v: int, c: char| v * 10 + (c as int - 48);
    let written = metrics::decimal(n);
    if n < 10 {
        assert(written.drop_last() =~= Seq::<char>::empty());
        assert(written.drop_last().fold_left(0int, read) == 0);
    } else {
        lemma_number_reads_back(n / 10);
        let earlier = metrics::decimal(n / 10);
        assert(written.drop_last() =~= earlier);
        assert(written[0] == earlier[0]);
        assert(written.fold_left(0int, read) == read(
            earlier.fold_left(0int, read),
            written.last(),
        ));
        assert(n == (n / 10) * 10 + n % 10);
    }
}

/// Different numbers are written differently.
pub proof fn lemma_numbers_are_written_apart(a: nat, b: nat)
    requires
        metrics::decimal(a) == metrics::decimal(b),
    ensures
        a == b,
{
    lemma_number_reads_back(a);
    lemma_number_reads_back(b);
}

/// Appending a digit to a written number multiplies it by ten and adds the digit.
pub proof fn lemma_appending_a_digit(n: nat, d: nat)
    requires
        n > 0,
        d < 10,
    ensures
        metrics::decimal(n * 10 + d) == metrics::decimal(n) + metrics::decimal(d),
{
    let m = n * 10 + d;
    assert(m / 10 == n && m % 10 == d);
    assert(metrics::decimal(m) =~= metrics::decimal(n) + metrics::decimal(d));
}

/// Escaping goes character by character: backslash, quote and line break become
/// two characters each, every other character stays as it is.
pub proof fn lemma_escaping(a: Seq<char>, b: Seq<char>, c: char)
    ensures
        metrics::escaped(Seq::empty()) == Seq::<char>::empty(),
        metrics::escaped(a + b) == metrics::escaped(a) + metrics::escaped(b),
        metrics::escaped(seq!['\\']) == seq!['\\', '\\'],
        metrics::escaped(seq!['"']) == seq!['\\', '"'],
        metrics::escaped(seq!['\n']) == seq!['\\', 'n'],
        c != '\\' && c != '"' && c != '\n' ==> metrics::escaped(seq![c]) == seq![c],
    decreases a.len(),
{
    lemma_escaped_single('\\');
    lemma_escaped_single('"');
    lemma_escaped_single('\n');
    lemma_escaped_single(c);
    if a.len() == 0 {
        assert(a + b =~= b);
        assert(metrics::escaped(a) + metrics::escaped(b) =~= metrics::escaped(b));
    } else {
        assert((a + b).drop_first() =~= a.drop_first() + b);
        lemma_escaping(a.drop_first(), b, c);
        assert(metrics::escaped(a + b) =~= metrics::escaped(a) + metrics::escaped(b));
    }
}

proof fn lemma_escaped_single(c: char)
    ensures
        metrics::escaped(seq![c]) == metrics::escaped_char(c),
{
    assert(seq![c].drop_first() =~= Seq::<char>::empty());
    assert(metrics::escaped(seq![c].drop_first()) =~= Seq::<char>::empty());
    assert(metrics::escaped(seq![c]) =~= metrics::escaped_char(c));
}

/// The labels of a request, of tokens, of a backend and of a key, with each value
/// escaped between quotes.
pub proof fn lemma_labels(x: Seq<char>, y: Seq<char>, z: Seq<char>)
    ensures
        metrics::request_label(x, y, z) == "{backend=\""@ + metrics::escaped(x) + "\",model=\""@
            + metrics::escaped(y) + "\",status=\""@ + metrics::escaped(z) + "\"}"@,
        metrics::token_label(x, y) == "{key=\""@ + metrics::escaped(x) + "\",kind=\""@ + y
            + "\"}"@,
        metrics::backend_label(x) == "{backend=\""@ + metrics::escaped(x) + "\"}"@,
        metrics::key_label(x) == "{key=\""@ + metrics::escaped(x) + "\"}"@,
{
}

/// Counting under a label: the counter exists afterwards and holds what it held,
/// 0 if it is new, and the amount more (modulo 2^64); the others are as they
/// were.
pub proof fn lemma_counting(
    counters: Map<Seq<char>, u64>,
    label: Seq<char>,
    other: Seq<char>,
    n: u64,
)
    ensures
        ({
            let now = metrics::bumped(counters, label, n);
            &&& now.contains_key(label)
            &&& counters.contains_key(label) ==> now[label] == (counters[label] + n)
                % 0x1_0000_0000_0000_0000
            &&& !counters.contains_key(label) ==> now[label] == n
            &&& other != label ==> (now.contains_key(other) <==> counters.contains_key(other))
            &&& other != label && counters.contains_key(other) ==> now[other] == counters[other]
        }),
        counters.contains_key(label) ==> metrics::count(counters, label) == counters[label],
        !counters.contains_key(label) ==> metrics::count(counters, label) == 0,
{
}

/// A usage report counts its three numbers, in one step each.
pub proof fn lemma_usage_report(tokens: Map<Seq<char>, u64>, key: Seq<char>, usage: Usage)
    ensures
        metrics::with_usage(tokens, key, usage) == metrics::bumped(
            metrics::bumped(
                metrics::bumped(
                    tokens,
                    metrics::token_label(key, "prompt"@),
                    usage.prompt_tokens,
                ),
                metrics::token_label(key, "completion"@),
                usage.completion_tokens,
            ),
            metrics::token_label(key, "total"@),
            usage.total_tokens,
        ),
{
}

/// A listing holds every counter, with its value, and nothing else; the labels
/// ascend, so none comes twice.
pub proof fn lemma_listing_is_exact(
    counters: Map<Seq<char>, u64>,
    pairs: Seq<(Seq<char>, u64)>,
)
    requires
        metrics::is_listing(counters, pairs),
    ensures
        forall|i: int|
            0 <= i < pairs.len() ==> counters.contains_key((#[trigger] pairs[i]).0)
                && counters[pairs[i].0] == pairs[i].1,
        forall|label: Seq<char>| #[trigger]
            counters.contains_key(label) ==> exists|i: int|
                0 <= i < pairs.len() && #[trigger] pairs[i] == (label, counters[label]),
        forall|i: int, j: int|
            0 <= i < j < pairs.len() ==> text::before(
                (#[trigger] pairs[i]).0,
                (#[trigger] pairs[j]).0,
            ),
        metrics::listing(counters) == pairs,
{
    assert forall|label: Seq<char>| #[trigger] counters.contains_key(label) implies exists|i: int|
        0 <= i < pairs.len() && #[trigger] pairs[i] == (label, counters[label]) by {
        assert(metrics::has_label(pairs, label));
        let i = choose|i: int| 0 <= i < pairs.len() && (#[trigger] pairs[i]).0 == label;
        assert(pairs[i] == (label, counters[label]));
    }
    metrics::lemma_listing_is_unique(counters, metrics::listing(counters), pairs);
}

/// The sample lines of a family are those of its counters, one for one and in
/// order: name, label, a space, the value and a line break.
pub proof fn lemma_sample_lines(
    name: Seq<char>,
    x: Seq<(Seq<char>, u64)>,
    y: Seq<(Seq<char>, u64)>,
    label: Seq<char>,
    value: u64,
)
    ensures
        metrics::sample_lines(name, Seq::empty()) == Seq::<char>::empty(),
        metrics::sample_lines(name, seq![(label, value)]) == name + label + " "@
            + metrics::decimal(value as nat) + "\n"@,
        metrics::sample_lines(name, x + y) == metrics::sample_lines(name, x)
            + metrics::sample_lines(name, y),
    decreases y.len(),
{
    let one = seq![(label, value)];
    assert(one.drop_last() =~= Seq::<(Seq<char>, u64)>::empty());
    assert(metrics::sample_lines(name, one.drop_last()) =~= Seq::<char>::empty());
    assert(metrics::sample_lines(name, one) =~= name + label + " "@ + metrics::decimal(
        value as nat,
    ) + "\n"@);
    if y.len() == 0 {
        assert(x + y =~= x);
        assert(metrics::sample_lines(name, x) + metrics::sample_lines(name, y)
            =~= metrics::sample_lines(name, x));
    } else {
        assert((x + y).drop_last() =~= x + y.drop_last());
        lemma_sample_lines(name, x, y.drop_last(), label, value);
        assert(metrics::sample_lines(name, x + y) =~= metrics::sample_lines(name, x)
            + metrics::sample_lines(name, y));
    }
}

/// A family without counters is not shown; another is shown by a help line, a
/// type line and its sample lines.
pub proof fn lemma_family_layout(
    name: Seq<char>,
    ty: Seq<char>,
    help: Seq<char>,
    pairs: Seq<(Seq<char>, u64)>,
)
    ensures
        pairs.len() == 0 ==> metrics::family(name, ty, help, pairs) == Seq::<char>::empty(),
        pairs.len() > 0 ==> metrics::family(name, ty, help, pairs) == "# HELP "@ + name + " "@
            + help + "\n# TYPE "@ + name + " "@ + ty + "\n"@ + metrics::sample_lines(name, pairs),
{
}

/// The exposition is five families, in this order and under these names.
pub proof fn lemma_exposition_layout(m: MetricsView)
    ensures
        metrics::exposition(m) == metrics::family(
            "patchbay_requests_total"@,
            "counter"@,
            "Total requests received."@,
            metrics::listing(m.requests),
        ) + metrics::family(
            "patchbay_tokens_total"@,
            "counter"@,
            "Total tokens consumed."@,
            metrics::listing(m.tokens),
        ) + metrics::family(
            "patchbay_upstream_errors_total"@,
            "counter"@,
            "Upstream non-2xx or connection errors."@,
            metrics::listing(m.upstream_errors),
        ) + metrics::family(
            "patchbay_rate_limit_rejections_total"@,
            "counter"@,
            "Requests rejected by rate limiter."@,
            metrics::listing(m.rate_limit_rejections),
        ) + metrics::family(
            "patchbay_budget_rejections_total"@,
            "counter"@,
            "Requests rejected by token budget."@,
            metrics::listing(m.budget_rejections),
        ),
{
}

/// A new handle has counted nothing in any family.
pub proof fn lemma_new_metrics(label: Seq<char>)
    ensures
        !metrics::no_metrics().requests.contains_key(label),
        !metrics::no_metrics().tokens.contains_key(label),
        !metrics::no_metrics().upstream_errors.contains_key(label),
        !metrics::no_metrics().rate_limit_rejections.contains_key(label),
        !metrics::no_metrics().budget_rejections.contains_key(label),
{
}

/// Pairs of labels and values are viewed one for one.
pub proof fn lemma_pair_views(pairs: Seq<(String, u64)>)
    ensures
        metrics::pair_views(pairs).len() == pairs.len(),
        forall|i: int|
            0 <= i < pairs.len() ==> (#[trigger] metrics::pair_views(pairs)[i]).0 == pairs[i].0@
                && metrics::pair_views(pairs)[i].1 == pairs[i].1,
{
}

}
