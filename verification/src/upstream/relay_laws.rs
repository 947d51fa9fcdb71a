//! What holds of every relayed stream.
use super::relay;
use super::relay::{RelayError, RelayEvent, RelayOutcome, RelayStep, RelaySummary, RelayView};
use super::sse;
use super::sse::{ScannerView, Usage};
use super::sse_laws;
use bytes::Bytes;
use std::time::Duration;
use vstd::prelude::*;

verus! {

/// What happens to a relay: it is polled, and the payloads that the poll puts
/// up for usage accounting are read.
pub struct RelayInput {
    pub event: RelayEvent,
    pub replies: Seq<Option<Usage>>,
}

/// The relay after one input.
pub open spec fn advanced(v: RelayView, input: RelayInput) -> RelayView {
    relay::polled(v, input.event, input.replies)
}

/// The relay after a history of inputs.
pub open spec fn after(history: Seq<RelayInput>) -> RelayView
    decreases history.len(),
{
    if history.len() == 0 {
        relay::fresh_relay()
    } else {
        advanced(after(history.drop_last()), history.last())
    }
}

/// The summary that one input sends.
pub open spec fn sent_by(v: RelayView, input: RelayInput) -> Seq<RelaySummary> {
    match relay::summary_at(v, input.event) {
        Some(summary) => seq![summary],
        None => Seq::empty(),
    }
}

/// The summaries that a history sends.
pub open spec fn sent(history: Seq<RelayInput>) -> Seq<RelaySummary>
    decreases history.len(),
{
    if history.len() == 0 {
        Seq::empty()
    } else {
        sent(history.drop_last()) + sent_by(after(history.drop_last()), history.last())
    }
}

/// The summaries that a history sends, the final drop of the stream included.
pub open spec fn sent_in_all(history: Seq<RelayInput>) -> Seq<RelaySummary> {
    match relay::reported_summary(after(history), RelayOutcome::ClientDisconnected) {
        Some(summary) => sent(history).push(summary),
        None => sent(history),
    }
}

/// The chunks that a history forwards to the client.
pub open spec fn forwarded(history: Seq<RelayInput>, stall_timeout: Duration) -> Seq<Bytes>
    decreases history.len(),
{
    if history.len() == 0 {
        Seq::empty()
    } else {
        let earlier = forwarded(history.drop_last(), stall_timeout);
        match relay::step_at(after(history.drop_last()), history.last().event, stall_timeout) {
            RelayStep::Forward(chunk) => earlier.push(chunk),
            _ => earlier,
        }
    }
}

/// The chunks that the upstream produces in a history, up to the poll that ends
/// the stream.
pub open spec fn received(history: Seq<RelayInput>) -> Seq<Bytes>
    decreases history.len(),
{
    if history.len() == 0 {
        Seq::empty()
    } else {
        let earlier = received(history.drop_last());
        match history.last().event {
            RelayEvent::Chunk(chunk) if !ended(history.drop_last()) => earlier.push(chunk),
            _ => earlier,
        }
    }
}

/// The input ends a live stream: the upstream failed, closed or stalled.
pub open spec fn is_terminal(input: RelayInput) -> bool {
    match input.event {
        RelayEvent::Failed(_) => true,
        RelayEvent::Ended => true,
        RelayEvent::Idle { stalled } => stalled,
        RelayEvent::Chunk(_) => false,
    }
}

/// The upstream has failed, closed or stalled.
pub open spec fn ended(history: Seq<RelayInput>) -> bool {
    exists|i: int| 0 <= i < history.len() && is_terminal(#[trigger] history[i])
}

/// What chunks hold, chunk by chunk.
pub open spec fn contents(chunks: Seq<Bytes>) -> Seq<Seq<u8>> {
    chunks.map_values(|b: Bytes| relay::bytes_content(b))
}

proof fn lemma_ended_step(history: Seq<RelayInput>)
    requires
        history.len() > 0,
    ensures
        ended(history) <==> ended(history.drop_last()) || is_terminal(history.last()),
{
    let earlier = history.drop_last();
    if ended(earlier) {
        let i = choose|i: int| 0 <= i < earlier.len() && is_terminal(#[trigger] earlier[i]);
        assert(is_terminal(history[i]));
    }
    if is_terminal(history.last()) {
        assert(is_terminal(history[history.len() - 1]));
    }
    if ended(history) {
        let i = choose|i: int| 0 <= i < history.len() && is_terminal(#[trigger] history[i]);
        if i < earlier.len() {
            assert(is_terminal(earlier[i]));
        }
    }
}

/// The client's stream has ended, and its summary is out, exactly if the
/// upstream has failed, closed or stalled; and then one summary went out.
pub proof fn lemma_end_sends_one_summary(history: Seq<RelayInput>)
    ensures
        after(history).finished <==> ended(history),
        after(history).reported <==> ended(history),
        sent(history).len() == (if ended(history) {
            1int
        } else {
            0int
        }),
    decreases history.len(),
{
    if history.len() > 0 {
        lemma_end_sends_one_summary(history.drop_last());
        lemma_ended_step(history);
    }
}

/// How a relay ends that is dropped after a history: as its upstream did, or
/// by the client going away.
pub open spec fn ending(history: Seq<RelayInput>) -> RelayOutcome
    decreases history.len(),
{
    if history.len() == 0 {
        RelayOutcome::ClientDisconnected
    } else if ended(history.drop_last()) {
        ending(history.drop_last())
    } else {
        match history.last().event {
            RelayEvent::Failed(message) => RelayOutcome::UpstreamError(message),
            RelayEvent::Ended => RelayOutcome::Completed,
            RelayEvent::Idle { stalled: true } => RelayOutcome::Stalled,
            _ => RelayOutcome::ClientDisconnected,
        }
    }
}

proof fn lemma_end_sends_the_summary(history: Seq<RelayInput>)
    ensures
        ended(history) ==> sent(history) == seq![
            relay::summary_of(after(history), ending(history)),
        ],
        !ended(history) ==> ending(history) == RelayOutcome::ClientDisconnected,
    decreases history.len(),
{
    if history.len() > 0 {
        let earlier = history.drop_last();
        lemma_end_sends_the_summary(earlier);
        lemma_end_sends_one_summary(earlier);
        lemma_ended_step(history);
        if ended(earlier) {
            assert(sent(history) == sent(earlier));
        }
    }
}

/// Exactly one summary is sent per relay, however the stream ends: by its
/// upstream, or by being dropped while still live. It says how the stream
/// ended, and what was relayed and found in it up to then.
pub proof fn lemma_exactly_one_summary(history: Seq<RelayInput>)
    ensures
        sent_in_all(history) == seq![relay::summary_of(after(history), ending(history))],
        !ended(history) <==> ending(history) == RelayOutcome::ClientDisconnected,
{
    lemma_end_sends_one_summary(history);
    lemma_end_sends_the_summary(history);
    if ended(history) {
        lemma_ended_differs(history);
    }
}

proof fn lemma_ended_differs(history: Seq<RelayInput>)
    requires
        ended(history),
    ensures
        ending(history) != RelayOutcome::ClientDisconnected,
    decreases history.len(),
{
    if history.len() > 0 {
        lemma_ended_step(history);
        if ended(history.drop_last()) {
            lemma_ended_differs(history.drop_last());
        }
    }
}

/// A finished stream stays finished: every later poll says that it has ended,
/// sends nothing and changes nothing.
pub proof fn lemma_finished_is_final(
    v: RelayView,
    event: RelayEvent,
    replies: Seq<Option<Usage>>,
    stall_timeout: Duration,
)
    requires
        v.finished,
    ensures
        relay::step_at(v, event, stall_timeout) is End,
        relay::polled(v, event, replies) == v,
        relay::payloads_at(v, event) == Seq::<Seq<u8>>::empty(),
        relay::summary_at(v, event) is None,
{
}

/// Byte-faithful: the client gets the very chunks that the upstream produced,
/// all of them, in order and unchanged, whatever the payloads were read as; and
/// the relay counts their bytes.
pub proof fn lemma_byte_faithful(history: Seq<RelayInput>, stall_timeout: Duration)
    ensures
        forwarded(history, stall_timeout) == received(history),
        after(history).bytes_relayed == sse_laws::whole(
            contents(forwarded(history, stall_timeout)),
        ).len(),
    decreases history.len(),
{
    if history.len() > 0 {
        let earlier = history.drop_last();
        lemma_byte_faithful(earlier, stall_timeout);
        lemma_end_sends_one_summary(earlier);
        if let RelayEvent::Chunk(chunk) = history.last().event {
            if !ended(earlier) {
                let now = contents(forwarded(history, stall_timeout));
                assert(now == contents(forwarded(earlier, stall_timeout)).push(
                    relay::bytes_content(chunk),
                ));
                assert(now.drop_last() == contents(forwarded(earlier, stall_timeout)));
            }
        }
    }
}

/// The scanner, apart from the usage that was reported to it, is where scanning
/// the forwarded bytes would bring it: accounting sees what the client sees.
pub proof fn lemma_scanner_sees_what_the_client_sees(
    history: Seq<RelayInput>,
    stall_timeout: Duration,
)
    ensures
        ({
            let seen = sse_laws::scanned_all(
                sse::fresh_scanner(),
                contents(forwarded(history, stall_timeout)),
            );
            after(history).scanner == (ScannerView {
                last_usage: after(history).scanner.last_usage,
                ..seen
            })
        }),
    decreases history.len(),
{
    if history.len() > 0 {
        let earlier = history.drop_last();
        lemma_scanner_sees_what_the_client_sees(earlier, stall_timeout);
        if let RelayEvent::Chunk(chunk) = history.last().event {
            if !after(earlier).finished {
                let now = contents(forwarded(history, stall_timeout));
                assert(now == contents(forwarded(earlier, stall_timeout)).push(
                    relay::bytes_content(chunk),
                ));
                assert(now.drop_last() == contents(forwarded(earlier, stall_timeout)));
                lemma_accounting_is_separate(
                    sse::scanned(after(earlier).scanner, relay::bytes_content(chunk)),
                    history.last().replies,
                );
            }
        }
    }
}

/// What the payloads in a history were read as, in order, up to the poll that
/// ends the stream.
pub open spec fn replies(history: Seq<RelayInput>) -> Seq<Option<Usage>>
    decreases history.len(),
{
    if history.len() == 0 {
        Seq::empty()
    } else {
        let earlier = replies(history.drop_last());
        match history.last().event {
            RelayEvent::Chunk(_) if !ended(history.drop_last()) => earlier
                + history.last().replies,
            _ => earlier,
        }
    }
}

proof fn lemma_accounting_is_separate(s: ScannerView, replies: Seq<Option<Usage>>)
    ensures
        sse::accounted_all(s, replies) == (ScannerView {
            last_usage: sse::accounted_all(s, replies).last_usage,
            ..s
        }),
    decreases replies.len(),
{
    if replies.len() > 0 {
        lemma_accounting_is_separate(s, replies.drop_last());
    }
}

proof fn lemma_accounting_concat(
    s: ScannerView,
    t: ScannerView,
    a: Seq<Option<Usage>>,
    b: Seq<Option<Usage>>,
)
    requires
        t.last_usage == sse::accounted_all(s, a).last_usage,
    ensures
        sse::accounted_all(t, b).last_usage == sse::accounted_all(s, a + b).last_usage,
    decreases b.len(),
{
    if b.len() == 0 {
        assert(a + b == a);
    } else {
        assert((a + b).drop_last() == a + b.drop_last());
        lemma_accounting_concat(s, t, a, b.drop_last());
    }
}

/// The usage that a summary would carry is the last one that was read.
pub proof fn lemma_summary_carries_last_usage(history: Seq<RelayInput>)
    ensures
        after(history).scanner.last_usage == sse::accounted_all(
            sse::fresh_scanner(),
            replies(history),
        ).last_usage,
    decreases history.len(),
{
    if history.len() > 0 {
        let earlier = history.drop_last();
        lemma_summary_carries_last_usage(earlier);
        lemma_end_sends_one_summary(earlier);
        if let RelayEvent::Chunk(chunk) = history.last().event {
            if !ended(earlier) {
                lemma_accounting_concat(
                    sse::fresh_scanner(),
                    sse::scanned(after(earlier).scanner, relay::bytes_content(chunk)),
                    replies(earlier),
                    history.last().replies,
                );
            }
        }
    }
}

/// Every payload in a history was read as `read` says.
pub open spec fn read_by(
    history: Seq<RelayInput>,
    read: spec_fn(Seq<u8>) -> Option<Usage>,
) -> bool
    decreases history.len(),
{
    history.len() == 0 || {
        &&& read_by(history.drop_last(), read)
        &&& history.last().replies == relay::payloads_at(
            after(history.drop_last()),
            history.last().event,
        ).map_values(read)
    }
}

proof fn lemma_replies_follow_payloads(
    history: Seq<RelayInput>,
    read: spec_fn(Seq<u8>) -> Option<Usage>,
    stall_timeout: Duration,
)
    requires
        read_by(history, read),
    ensures
        replies(history) == sse_laws::surfaced_all(
            sse::fresh_scanner(),
            contents(forwarded(history, stall_timeout)),
        ).map_values(read),
    decreases history.len(),
{
    if history.len() > 0 {
        let earlier = history.drop_last();
        lemma_replies_follow_payloads(earlier, read, stall_timeout);
        lemma_end_sends_one_summary(earlier);
        lemma_scanner_sees_what_the_client_sees(earlier, stall_timeout);
        if let RelayEvent::Chunk(chunk) = history.last().event {
            if !ended(earlier) {
                let before = contents(forwarded(earlier, stall_timeout));
                let now = contents(forwarded(history, stall_timeout));
                assert(now == before.push(relay::bytes_content(chunk)));
                assert(now.drop_last() == before);
                let fresh = sse::fresh_scanner();
                let found = sse_laws::surfaced_all(fresh, before);
                let more = sse::surfaced(
                    sse_laws::scanned_all(fresh, before),
                    relay::bytes_content(chunk),
                );
                assert((found + more).map_values(read) == found.map_values(read)
                    + more.map_values(read));
            }
        }
    }
}

/// Usage interception: a summary carries the last usage that stands in the
/// bytes the client got, and says whether `[DONE]` stands in them, however they
/// were cut into chunks. The one exception is a stream in which more than the
/// scanner's bound was waiting, at a cut, for the end of an event.
pub proof fn lemma_summary_tells_of_the_stream(
    history: Seq<RelayInput>,
    read: spec_fn(Seq<u8>) -> Option<Usage>,
    stall_timeout: Duration,
)
    requires
        read_by(history, read),
        ({
            let chunks = contents(forwarded(history, stall_timeout));
            chunks.len() > 0 ==> !sse_laws::scanned_all(
                sse::fresh_scanner(),
                chunks.drop_last(),
            ).overflowed
        }),
    ensures
        ({
            let stream = sse_laws::whole(contents(forwarded(history, stall_timeout)));
            let payloads = sse::usage_payloads(sse::events(stream));
            &&& after(history).scanner.last_usage == sse::accounted_all(
                sse::fresh_scanner(),
                payloads.map_values(read),
            ).last_usage
            &&& after(history).scanner.saw_done == sse::any_done(sse::events(stream))
        }),
{
    let chunks = contents(forwarded(history, stall_timeout));
    lemma_summary_carries_last_usage(history);
    lemma_replies_follow_payloads(history, read, stall_timeout);
    lemma_scanner_sees_what_the_client_sees(history, stall_timeout);
    sse_laws::lemma_chunking_is_immaterial(chunks);
    assert(sse::fresh_scanner().buf + sse_laws::whole(chunks) == sse_laws::whole(chunks));
}

/// What each poll of a live relay comes to, event by event.
pub proof fn lemma_each_poll(
    v: RelayView,
    chunk: Bytes,
    message: String,
    replies: Seq<Option<Usage>>,
    stall_timeout: Duration,
)
    requires
        !v.finished,
    ensures
        relay::step_at(v, RelayEvent::Chunk(chunk), stall_timeout) == RelayStep::Forward(chunk),
        relay::step_at(v, RelayEvent::Failed(message), stall_timeout) == RelayStep::Fail(
            RelayError::Upstream(message),
        ),
        relay::step_at(v, RelayEvent::Ended, stall_timeout) == RelayStep::End,
        relay::step_at(v, RelayEvent::Idle { stalled: true }, stall_timeout) == RelayStep::Fail(
            RelayError::StallTimeout(stall_timeout),
        ),
        relay::step_at(v, RelayEvent::Idle { stalled: false }, stall_timeout) == RelayStep::Wait,
        relay::polled(v, RelayEvent::Idle { stalled: false }, replies) == v,
        relay::payloads_at(v, RelayEvent::Chunk(chunk)) == sse::surfaced(
            v.scanner,
            relay::bytes_content(chunk),
        ),
        relay::polled(v, RelayEvent::Chunk(chunk), replies) == (RelayView {
            scanner: sse::accounted_all(
                sse::scanned(v.scanner, relay::bytes_content(chunk)),
                replies,
            ),
            bytes_relayed: v.bytes_relayed + relay::bytes_content(chunk).len(),
            ..v
        }),
        ({
            let over = RelayView { finished: true, reported: true, ..v };
            &&& relay::polled(v, RelayEvent::Failed(message), replies) == over
            &&& relay::polled(v, RelayEvent::Ended, replies) == over
            &&& relay::polled(v, RelayEvent::Idle { stalled: true }, replies) == over
        }),
        relay::summary_at(v, RelayEvent::Chunk(chunk)) is None,
        relay::summary_at(v, RelayEvent::Idle { stalled: false }) is None,
        !v.reported ==> {
            &&& relay::summary_at(v, RelayEvent::Failed(message)) == Some(
                relay::summary_of(v, RelayOutcome::UpstreamError(message)),
            )
            &&& relay::summary_at(v, RelayEvent::Ended) == Some(
                relay::summary_of(v, RelayOutcome::Completed),
            )
            &&& relay::summary_at(v, RelayEvent::Idle { stalled: true }) == Some(
                relay::summary_of(v, RelayOutcome::Stalled),
            )
        },
{
}

/// A summary gives the outcome, the last usage, whether the terminator was seen,
/// and the bytes that were forwarded.
pub proof fn lemma_what_a_summary_says(v: RelayView, outcome: RelayOutcome)
    requires
        0 <= v.bytes_relayed <= u64::MAX,
    ensures
        relay::summary_of(v, outcome).outcome == outcome,
        relay::summary_of(v, outcome).usage == v.scanner.last_usage,
        relay::summary_of(v, outcome).saw_done == v.scanner.saw_done,
        relay::summary_of(v, outcome).bytes_relayed == v.bytes_relayed,
        v.reported ==> relay::reported_summary(v, outcome) is None,
        !v.reported ==> relay::reported_summary(v, outcome) == Some(
            relay::summary_of(v, outcome),
        ),
{
}

/// A new relay has forwarded nothing and reported nothing. A poll overflows the
/// count exactly if it brings a live relay more bytes than the count can hold.
pub proof fn lemma_new_relay(v: RelayView, event: RelayEvent)
    ensures
        relay::fresh_relay().scanner == sse::fresh_scanner(),
        relay::fresh_relay().bytes_relayed == 0,
        !relay::fresh_relay().finished,
        !relay::fresh_relay().reported,
        relay::overflows_count(v, event) <==> !v.finished && (event matches RelayEvent::Chunk(chunk)
            && v.bytes_relayed + relay::bytes_content(chunk).len() > 0xFFFF_FFFF_FFFF_FFFF),
{
}

/// The summary of a whole stream: the count of all the bytes that the client got,
/// the last usage in them and whether the terminator stands in them.
pub proof fn lemma_summary_of_a_stream(
    history: Seq<RelayInput>,
    read: spec_fn(Seq<u8>) -> Option<Usage>,
    stall_timeout: Duration,
    i: int,
)
    requires
        read_by(history, read),
        ({
            let chunks = contents(forwarded(history, stall_timeout));
            chunks.len() > 0 ==> !sse_laws::scanned_all(
                sse::fresh_scanner(),
                chunks.drop_last(),
            ).overflowed
        }),
        ({
            let payloads = sse::usage_payloads(
                sse::events(sse_laws::whole(contents(forwarded(history, stall_timeout)))),
            );
            &&& 0 <= i < payloads.len()
            &&& read(payloads[i]) is Some
            &&& forall|j: int| i < j < payloads.len() ==> read(#[trigger] payloads[j]) is None
        }),
        sse_laws::whole(contents(forwarded(history, stall_timeout))).len() <= u64::MAX,
    ensures
        ({
            let stream = sse_laws::whole(contents(forwarded(history, stall_timeout)));
            let payloads = sse::usage_payloads(sse::events(stream));
            sent_in_all(history) == seq![
                RelaySummary {
                    outcome: ending(history),
                    usage: read(payloads[i]),
                    saw_done: sse::any_done(sse::events(stream)),
                    bytes_relayed: stream.len() as u64,
                },
            ]
        }),
{
    let stream = sse_laws::whole(contents(forwarded(history, stall_timeout)));
    let payloads = sse::usage_payloads(sse::events(stream));
    let replies = payloads.map_values(read);
    lemma_exactly_one_summary(history);
    lemma_byte_faithful(history, stall_timeout);
    lemma_summary_tells_of_the_stream(history, read, stall_timeout);
    assert forall|j: int| i < j < replies.len() implies replies[j] is None by {
        assert(read(payloads[j]) is None);
    }
    sse_laws::lemma_last_usage_wins(sse::fresh_scanner(), replies, i);
}

}
