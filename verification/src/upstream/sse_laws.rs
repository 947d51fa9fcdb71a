//! What holds of every scanned stream.
use super::sse;
use super::sse::{ScannerView, Term, Usage};
use vstd::prelude::*;

verus! {

/// A separator that was found stays where it is, whatever arrives after it.
proof fn lemma_boundary_stable(buf: Seq<u8>, more: Seq<u8>, i: int)
    requires
        sse::boundary_from(buf, i) is Some,
    ensures
        sse::boundary_from(buf + more, i) == sse::boundary_from(buf, i),
    decreases buf.len() - i,
{
    let all = buf + more;
    assert(forall|k: int| 0 <= k < buf.len() ==> all[k] == buf[k]);
    match sse::term(buf, i) {
        Term::Not => {
            lemma_boundary_stable(buf, more, i + 1);
        },
        Term::Incomplete => {},
        Term::Len(first) => {
            let j = i + first;
            if sse::term(buf, j) is Not {
                lemma_boundary_stable(buf, more, j);
            }
        },
    }
}

/// The events of a stream are those of its first part followed by those of what
/// that part leaves over together with the rest: no event is found twice, lost
/// or cut by the place where the parts meet.
pub proof fn lemma_events_concat(a: Seq<u8>, b: Seq<u8>)
    ensures
        sse::events(a + b) == sse::events(a) + sse::events(sse::remainder(a) + b),
        sse::remainder(a + b) == sse::remainder(sse::remainder(a) + b),
    decreases a.len(),
{
    sse::lemma_boundary_bounds(a, 0);
    match sse::boundary(a) {
        None => {
            assert(sse::events(a) + sse::events(a + b) == sse::events(a + b));
        },
        Some((end, next)) => {
            lemma_boundary_stable(a, b, 0);
            assert((a + b).take(end) == a.take(end));
            assert((a + b).skip(next) == a.skip(next) + b);
            lemma_events_concat(a.skip(next), b);
            let rest = sse::events(sse::remainder(a) + b);
            assert(seq![a.take(end)] + (sse::events(a.skip(next)) + rest) == (seq![a.take(end)]
                + sse::events(a.skip(next))) + rest);
        },
    }
}

/// What events put up is what each of two groups of them puts up.
pub proof fn lemma_payloads_concat(x: Seq<Seq<u8>>, y: Seq<Seq<u8>>)
    ensures
        sse::usage_payloads(x + y) == sse::usage_payloads(x) + sse::usage_payloads(y),
    decreases y.len(),
{
    if y.len() == 0 {
        assert(x + y == x);
        assert(sse::usage_payloads(x) + sse::usage_payloads(y) == sse::usage_payloads(x));
    } else {
        assert((x + y).drop_last() == x + y.drop_last());
        lemma_payloads_concat(x, y.drop_last());
        let before = sse::usage_payloads(x);
        let after = sse::usage_payloads(y.drop_last());
        match sse::usage_payload(y.last()) {
            None => {},
            Some(data) => {
                assert((before + after).push(data) == before + after.push(data));
            },
        }
    }
}

/// There is a terminator among events exactly if one of two groups holds it.
pub proof fn lemma_done_concat(x: Seq<Seq<u8>>, y: Seq<Seq<u8>>)
    ensures
        sse::any_done(x + y) <==> sse::any_done(x) || sse::any_done(y),
{
    if sse::any_done(x) {
        let i = choose|i: int| 0 <= i < x.len() && sse::is_done(#[trigger] x[i]);
        assert(sse::is_done((x + y)[i]));
    }
    if sse::any_done(y) {
        let i = choose|i: int| 0 <= i < y.len() && sse::is_done(#[trigger] y[i]);
        assert(sse::is_done((x + y)[x.len() + i]));
    }
    if sse::any_done(x + y) {
        let i = choose|i: int| 0 <= i < (x + y).len() && sse::is_done(#[trigger] (x + y)[i]);
        if i < x.len() {
            assert(sse::is_done(x[i]));
        } else {
            assert(sse::is_done(y[i - x.len()]));
        }
    }
}

/// Feeding two chunks one after the other comes to the same as feeding them at
/// once, unless the first one overflows the buffer.
pub proof fn lemma_two_chunks(s: ScannerView, a: Seq<u8>, b: Seq<u8>)
    requires
        !sse::scanned(s, a).overflowed,
    ensures
        sse::scanned(sse::scanned(s, a), b) == sse::scanned(s, a + b),
        sse::surfaced(s, a) + sse::surfaced(sse::scanned(s, a), b) == sse::surfaced(s, a + b),
{
    let seen = s.buf + a;
    assert(s.buf + (a + b) == seen + b);
    lemma_events_concat(seen, b);
    let first = sse::events(seen);
    let second = sse::events(sse::remainder(seen) + b);
    lemma_payloads_concat(first, second);
    lemma_done_concat(first, second);
}

/// The scanner after several chunks.
pub open spec fn scanned_all(s: ScannerView, chunks: Seq<Seq<u8>>) -> ScannerView
    decreases chunks.len(),
{
    if chunks.len() == 0 {
        s
    } else {
        sse::scanned(scanned_all(s, chunks.drop_last()), chunks.last())
    }
}

/// The payloads that several chunks put up for usage accounting.
pub open spec fn surfaced_all(s: ScannerView, chunks: Seq<Seq<u8>>) -> Seq<Seq<u8>>
    decreases chunks.len(),
{
    if chunks.len() == 0 {
        Seq::empty()
    } else {
        surfaced_all(s, chunks.drop_last()) + sse::surfaced(
            scanned_all(s, chunks.drop_last()),
            chunks.last(),
        )
    }
}

/// The chunks in one piece.
pub open spec fn whole(chunks: Seq<Seq<u8>>) -> Seq<u8>
    decreases chunks.len(),
{
    if chunks.len() == 0 {
        Seq::empty()
    } else {
        whole(chunks.drop_last()) + chunks.last()
    }
}

/// However a stream is cut into chunks, the scanner finds the same events in
/// it, `\r\n` pairs cut in two included. The one exception is a cut at which
/// more than the buffer's bound is waiting for the end of an event.
pub proof fn lemma_chunking_is_immaterial(chunks: Seq<Seq<u8>>)
    requires
        chunks.len() > 0 ==> !scanned_all(sse::fresh_scanner(), chunks.drop_last()).overflowed,
    ensures
        scanned_all(sse::fresh_scanner(), chunks) == sse::scanned(
            sse::fresh_scanner(),
            whole(chunks),
        ),
        surfaced_all(sse::fresh_scanner(), chunks) == sse::surfaced(
            sse::fresh_scanner(),
            whole(chunks),
        ),
    decreases chunks.len(),
{
    let fresh = sse::fresh_scanner();
    if chunks.len() == 0 {
        assert(fresh.buf + whole(chunks) == Seq::<u8>::empty());
    } else {
        let earlier = chunks.drop_last();
        lemma_chunking_is_immaterial(earlier);
        lemma_two_chunks(fresh, whole(earlier), chunks.last());
    }
}

/// Once a scanner has overflowed it stays as it is and surfaces nothing.
pub proof fn lemma_overflow_is_final(s: ScannerView, chunk: Seq<u8>)
    requires
        s.overflowed,
    ensures
        sse::scanned(s, chunk) == s,
        sse::surfaced(s, chunk) == Seq::<Seq<u8>>::empty(),
{
}

/// The scanner holds at most the bound in its buffer, and no complete event.
pub open spec fn settled(s: ScannerView) -> bool {
    &&& s.buf.len() <= sse::MAX_EVENT_BUFFER
    &&& sse::boundary(s.buf) is None
}

/// What is left over holds no complete event.
pub proof fn lemma_remainder_has_no_event(buf: Seq<u8>)
    ensures
        sse::boundary(sse::remainder(buf)) is None,
    decreases buf.len(),
{
    sse::lemma_boundary_bounds(buf, 0);
    if let Some((end, next)) = sse::boundary(buf) {
        lemma_remainder_has_no_event(buf.skip(next));
    }
}

/// Between chunks a scanner is settled: it starts so, and scanning and
/// accounting keep it so.
pub proof fn lemma_scanner_stays_settled(s: ScannerView, chunk: Seq<u8>, reply: Option<Usage>)
    requires
        settled(s),
    ensures
        settled(sse::fresh_scanner()),
        settled(sse::scanned(s, chunk)),
        settled(sse::accounted(s, reply)),
{
    lemma_remainder_has_no_event(s.buf + chunk);
}

/// A `[DONE]` once seen is never forgotten.
pub proof fn lemma_done_is_remembered(s: ScannerView, chunk: Seq<u8>, reply: Option<Usage>)
    requires
        s.saw_done,
    ensures
        sse::scanned(s, chunk).saw_done,
        sse::accounted(s, reply).saw_done,
{
}

/// The last usage reported wins: a later payload without one does not undo it.
pub proof fn lemma_last_usage_wins(s: ScannerView, replies: Seq<Option<Usage>>, i: int)
    requires
        0 <= i < replies.len(),
        replies[i] is Some,
        forall|j: int| i < j < replies.len() ==> replies[j] is None,
    ensures
        sse::accounted_all(s, replies).last_usage == replies[i],
    decreases replies.len(),
{
    if i < replies.len() - 1 {
        lemma_last_usage_wins(s, replies.drop_last(), i);
    }
}

}
