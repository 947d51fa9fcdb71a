//! The relay of one upstream byte stream to one client.
//!
//! The relay decides; the transport around it polls the upstream, runs the
//! stall timer and sends. Its contract:
//!
//! - **Byte-faithful.** Every chunk received from the upstream is handed back
//!   for the client as the same `Bytes` value. The scanner reads the chunk and
//!   can never alter what the client sees.
//! - **One summary.** However the stream ends, exactly one [`RelaySummary`]
//!   comes out, also when the client goes away.
//! - **Stalls are bounded.** If the stall timer fires before anything arrives,
//!   the relay ends with an error instead of holding the connection open.
use super::sse;
use super::sse::{ScannerView, Usage, UsageScanner};
use bytes::Bytes;
use std::time::Duration;
use vstd::prelude::*;

verus! {

/// `bytes::Bytes`, a shared immutable byte string.
#[verifier::external_type_specification]
#[verifier::external_body]
pub struct ExBytes(bytes::Bytes);

/// The bytes that a `Bytes` value holds.
pub uninterp spec fn bytes_content(b: Bytes) -> Seq<u8>;

/// `<Bytes as AsRef<[u8]>>::as_ref` gives the held bytes as a slice.
#[verifier::external_body]
fn bytes_slice(b: &Bytes) -> (r: &[u8])
    ensures
        r@ == bytes_content(*b),
{
    b.as_ref()
}

/// How a relayed stream ended.
#[derive(Debug, PartialEq, Eq)]
pub enum RelayOutcome {
    /// Upstream closed the stream normally.
    Completed,
    /// Upstream errored mid-stream (connection reset, decode error, ...).
    UpstreamError(String),
    /// Upstream sent nothing for the configured stall timeout.
    Stalled,
    /// The client stopped consuming before the upstream finished.
    ClientDisconnected,
}

/// End-of-stream accounting record. Exactly one summary is sent per relay,
/// however the stream ends.
#[derive(Debug, PartialEq, Eq)]
pub struct RelaySummary {
    pub outcome: RelayOutcome,
    /// Last usage object seen in the stream, if any.
    pub usage: Option<Usage>,
    /// Whether a `data: [DONE]` terminator was observed.
    pub saw_done: bool,
    /// Total bytes forwarded to the client.
    pub bytes_relayed: u64,
}

impl Clone for RelayOutcome {
    fn clone(&self) -> (r: Self)
        ensures
            r == *self,
    {
        match self {
            RelayOutcome::Completed => RelayOutcome::Completed,
            RelayOutcome::UpstreamError(message) => RelayOutcome::UpstreamError(message.clone()),
            RelayOutcome::Stalled => RelayOutcome::Stalled,
            RelayOutcome::ClientDisconnected => RelayOutcome::ClientDisconnected,
        }
    }
}

impl Clone for RelaySummary {
    fn clone(&self) -> (r: Self)
        ensures
            r == *self,
    {
        RelaySummary {
            outcome: self.outcome.clone(),
            usage: self.usage,
            saw_done: self.saw_done,
            bytes_relayed: self.bytes_relayed,
        }
    }
}

/// Why the client's stream broke off.
#[derive(Debug)]
pub enum RelayError {
    /// The upstream stream failed.
    Upstream(String),
    /// No bytes were received for this long.
    StallTimeout(Duration),
}

/// What one poll of the upstream and of the stall timer found.
pub enum RelayEvent {
    /// The upstream produced a chunk.
    Chunk(Bytes),
    /// The upstream stream failed, with this message.
    Failed(String),
    /// The upstream closed the stream.
    Ended,
    /// The upstream has nothing yet; `stalled` says whether the timer fired.
    Idle { stalled: bool },
}

/// What the client's stream does next.
pub enum RelayStep {
    /// Yield this chunk, and restart the stall timer.
    Forward(Bytes),
    /// Yield this error.
    Fail(RelayError),
    /// End.
    End,
    /// Nothing yet.
    Wait,
}

/// What one poll comes to.
pub struct RelayTurn {
    pub step: RelayStep,
    /// The summary to send, if this poll ended the stream.
    pub summary: Option<RelaySummary>,
}

/// The state of a relay.
pub struct RelayView {
    pub scanner: ScannerView,
    /// Total bytes forwarded to the client.
    pub bytes_relayed: int,
    /// The client's stream has ended.
    pub finished: bool,
    /// The summary is out.
    pub reported: bool,
}

/// A byte-faithful relay of one stream.
pub struct SseRelay {
    scanner: UsageScanner,
    stall_timeout: Duration,
    reported: bool,
    bytes_relayed: u64,
    finished: bool,
}

impl View for SseRelay {
    type V = RelayView;

    closed spec fn view(&self) -> RelayView {
        RelayView {
            scanner: self.scanner@,
            bytes_relayed: self.bytes_relayed as int,
            finished: self.finished,
            reported: self.reported,
        }
    }
}

/// A relay before its first poll.
pub open spec fn fresh_relay() -> RelayView {
    RelayView {
        scanner: sse::fresh_scanner(),
        bytes_relayed: 0,
        finished: false,
        reported: false,
    }
}

/// The relay after a poll, where the payloads that it put up for usage
/// accounting were read as `replies`.
pub open spec fn polled(
    v: RelayView,
    event: RelayEvent,
    replies: Seq<Option<Usage>>,
) -> RelayView {
    if v.finished {
        v
    } else {
        match event {
            RelayEvent::Chunk(chunk) => RelayView {
                scanner: sse::accounted_all(
                    sse::scanned(v.scanner, bytes_content(chunk)),
                    replies,
                ),
                bytes_relayed: v.bytes_relayed + bytes_content(chunk).len(),
                ..v
            },
            RelayEvent::Idle { stalled: false } => v,
            _ => RelayView { finished: true, reported: true, ..v },
        }
    }
}

/// What the client's stream does at a poll.
pub open spec fn step_at(v: RelayView, event: RelayEvent, stall_timeout: Duration) -> RelayStep {
    if v.finished {
        RelayStep::End
    } else {
        match event {
            RelayEvent::Chunk(chunk) => RelayStep::Forward(chunk),
            RelayEvent::Failed(message) => RelayStep::Fail(RelayError::Upstream(message)),
            RelayEvent::Ended => RelayStep::End,
            RelayEvent::Idle { stalled: true } => RelayStep::Fail(
                RelayError::StallTimeout(stall_timeout),
            ),
            RelayEvent::Idle { stalled: false } => RelayStep::Wait,
        }
    }
}

/// The payloads that a poll puts up for usage accounting.
pub open spec fn payloads_at(v: RelayView, event: RelayEvent) -> Seq<Seq<u8>> {
    match event {
        RelayEvent::Chunk(chunk) if !v.finished => sse::surfaced(v.scanner, bytes_content(chunk)),
        _ => Seq::empty(),
    }
}

/// The summary of a relay that ends with `outcome`.
pub open spec fn summary_of(v: RelayView, outcome: RelayOutcome) -> RelaySummary {
    RelaySummary {
        outcome,
        usage: v.scanner.last_usage,
        saw_done: v.scanner.saw_done,
        bytes_relayed: v.bytes_relayed as u64,
    }
}

/// The summary that goes out when `outcome` is reported: none if one is out.
pub open spec fn reported_summary(v: RelayView, outcome: RelayOutcome) -> Option<RelaySummary> {
    if v.reported {
        None
    } else {
        Some(summary_of(v, outcome))
    }
}

/// How a poll ends the stream, if it does.
pub open spec fn outcome_at(v: RelayView, event: RelayEvent) -> Option<RelayOutcome> {
    if v.finished {
        None
    } else {
        match event {
            RelayEvent::Failed(message) => Some(RelayOutcome::UpstreamError(message)),
            RelayEvent::Ended => Some(RelayOutcome::Completed),
            RelayEvent::Idle { stalled: true } => Some(RelayOutcome::Stalled),
            _ => None,
        }
    }
}

/// The summary that a poll sends.
pub open spec fn summary_at(v: RelayView, event: RelayEvent) -> Option<RelaySummary> {
    match outcome_at(v, event) {
        Some(outcome) => reported_summary(v, outcome),
        None => None,
    }
}

/// The chunk that a poll would forward takes the byte count past `u64::MAX`.
pub open spec fn overflows_count(v: RelayView, event: RelayEvent) -> bool {
    !v.finished && (event matches RelayEvent::Chunk(chunk) && v.bytes_relayed + bytes_content(
        chunk,
    ).len() > u64::MAX)
}

impl SseRelay {
    /// The bound on the gap between upstream chunks.
    pub closed spec fn stall_timeout(&self) -> Duration {
        self.stall_timeout
    }

    /// Start relaying. `stall_timeout` bounds the gap between upstream chunks
    /// (including time to the first chunk).
    pub fn new(stall_timeout: Duration) -> (r: Self)
        ensures
            r@ == fresh_relay(),
            r.stall_timeout() == stall_timeout,
    {
        SseRelay {
            scanner: UsageScanner::default(),
            stall_timeout,
            reported: false,
            bytes_relayed: 0,
            finished: false,
        }
    }

    /// Whether the client's stream has ended. The upstream need not be polled
    /// any more.
    pub fn is_finished(&self) -> (r: bool)
        ensures
            r == self@.finished,
    {
        self.finished
    }

    /// Total bytes forwarded to the client so far.
    pub fn bytes_relayed(&self) -> (r: u64)
        ensures
            r == self@.bytes_relayed,
    {
        self.bytes_relayed
    }

    /// Whether an event outgrew the scanner's buffer, so that usage accounting is
    /// off for the rest of this stream. Relaying goes on as before.
    pub fn accounting_disabled(&self) -> (r: bool)
        ensures
            r == self@.scanner.overflowed,
    {
        self.scanner.overflowed
    }

    /// Report how the stream ended: the summary to send, unless one is out.
    pub fn report(&mut self, outcome: RelayOutcome) -> (summary: Option<RelaySummary>)
        ensures
            summary == reported_summary(old(self)@, outcome),
            final(self)@ == (RelayView { reported: true, ..old(self)@ }),
            final(self).stall_timeout() == old(self).stall_timeout(),
    {
        if self.reported {
            return None;
        }
        self.reported = true;
        Some(
            RelaySummary {
                outcome,
                usage: self.scanner.last_usage,
                saw_done: self.scanner.saw_done,
                bytes_relayed: self.bytes_relayed,
            },
        )
    }

    /// Answer one poll of the client's stream. `read` finds the usage in a
    /// payload, if there is one.
    pub fn poll_next<F: Fn(&[u8]) -> Option<Usage>>(&mut self, event: RelayEvent, read: &F) -> (turn:
        RelayTurn)
        requires
            !overflows_count(old(self)@, event),
            forall|bytes: &[u8]| #[trigger] call_requires(*read, (bytes,)),
        ensures
            exists|replies: Seq<Option<Usage>>| #[trigger]
                sse::replied(*read, payloads_at(old(self)@, event), replies) && final(self)@
                    == polled(old(self)@, event, replies),
            final(self).stall_timeout() == old(self).stall_timeout(),
            turn.step == step_at(old(self)@, event, old(self).stall_timeout()),
            turn.summary == summary_at(old(self)@, event),
    {
        let ghost none: Seq<Option<Usage>> = Seq::empty();
        assert(payloads_at(self@, event).len() == 0 ==> sse::replied(
            *read,
            payloads_at(self@, event),
            none,
        ));
        if self.finished {
            return RelayTurn { step: RelayStep::End, summary: None };
        }
        match event {
            RelayEvent::Chunk(chunk) => {
                let bytes = bytes_slice(&chunk);
                self.scanner.feed(bytes, read);
                self.bytes_relayed = self.bytes_relayed + bytes.len() as u64;
                RelayTurn { step: RelayStep::Forward(chunk), summary: None }
            },
            RelayEvent::Failed(message) => {
                self.finished = true;
                let summary = self.report(RelayOutcome::UpstreamError(message.clone()));
                RelayTurn { step: RelayStep::Fail(RelayError::Upstream(message)), summary }
            },
            RelayEvent::Ended => {
                self.finished = true;
                let summary = self.report(RelayOutcome::Completed);
                RelayTurn { step: RelayStep::End, summary }
            },
            RelayEvent::Idle { stalled } => {
                if stalled {
                    self.finished = true;
                    let summary = self.report(RelayOutcome::Stalled);
                    RelayTurn {
                        step: RelayStep::Fail(RelayError::StallTimeout(self.stall_timeout)),
                        summary,
                    }
                } else {
                    RelayTurn { step: RelayStep::Wait, summary: None }
                }
            },
        }
    }

    /// Answer one poll of the client's stream, unless the byte count would
    /// overflow: then there is no answer, and the relay stays as it is.
    pub fn try_poll_next<F: Fn(&[u8]) -> Option<Usage>>(
        &mut self,
        event: RelayEvent,
        read: &F,
    ) -> (turn: Option<RelayTurn>)
        requires
            forall|bytes: &[u8]| #[trigger] call_requires(*read, (bytes,)),
        ensures
            turn is None <==> overflows_count(old(self)@, event),
            turn is None ==> final(self)@ == old(self)@,
            turn is Some ==> exists|replies: Seq<Option<Usage>>| #[trigger]
                sse::replied(*read, payloads_at(old(self)@, event), replies) && final(self)@
                    == polled(old(self)@, event, replies),
            final(self).stall_timeout() == old(self).stall_timeout(),
            turn matches Some(turn) ==> turn.step == step_at(
                old(self)@,
                event,
                old(self).stall_timeout(),
            ) && turn.summary == summary_at(old(self)@, event),
    {
        if !self.finished {
            if let RelayEvent::Chunk(chunk) = &event {
                let n = bytes_slice(chunk).len() as u64;
                if n > u64::MAX - self.bytes_relayed {
                    return None;
                }
            }
        }
        Some(self.poll_next(event, read))
    }

    /// The client's stream is being dropped. If no terminal outcome was
    /// reported, it was still live: the client went away.
    pub fn disconnect(&mut self) -> (summary: Option<RelaySummary>)
        ensures
            summary == reported_summary(old(self)@, RelayOutcome::ClientDisconnected),
            final(self)@ == (RelayView { reported: true, ..old(self)@ }),
            final(self).stall_timeout() == old(self).stall_timeout(),
    {
        self.report(RelayOutcome::ClientDisconnected)
    }
}

}
