//! Scanning and relaying upstream streams, and judging upstream answers.
use bytes::Bytes;
use patchbay::config::{Backend, Privacy, Secret};
use patchbay::upstream::sse::{find_event_boundary, term_at, Term, MAX_EVENT_BUFFER};
use patchbay::upstream::{
    RelayError, RelayEvent, RelayOutcome, RelayStep, RelaySummary, SseRelay, UpstreamClient,
    UpstreamError, Usage, UsageScanner,
};
use std::time::Duration;

/// The usage object of a JSON payload, if it has one.
fn read(data: &[u8]) -> Option<Usage> {
    let payload: serde_json::Value = serde_json::from_slice(data).ok()?;
    let usage = payload.get("usage")?.as_object()?;
    let count = |field: &str| usage.get(field).and_then(|v| v.as_u64()).unwrap_or(0);
    Some(Usage {
        prompt_tokens: count("prompt_tokens"),
        completion_tokens: count("completion_tokens"),
        total_tokens: count("total_tokens"),
    })
}

fn feed_chunks(chunks: &[&[u8]]) -> UsageScanner {
    let mut s = UsageScanner::default();
    for c in chunks {
        s.feed(c, &read);
    }
    s
}

#[test]
fn extracts_usage_from_final_chunk() {
    let s = feed_chunks(&[
        b"data: {\"choices\":[{\"delta\":{\"content\":\"hi\"}}],\"usage\":null}\n\n",
        b"data: {\"choices\":[],\"usage\":{\"prompt_tokens\":7,\"completion_tokens\":42,\"total_tokens\":49}}\n\n",
        b"data: [DONE]\n\n",
    ]);
    assert_eq!(
        s.last_usage,
        Some(Usage {
            prompt_tokens: 7,
            completion_tokens: 42,
            total_tokens: 49
        })
    );
    assert!(s.saw_done);
}

#[test]
fn events_split_at_arbitrary_chunk_boundaries() {
    let s = feed_chunks(&[
        b"data: {\"usage\":{\"prompt_to",
        b"kens\":1,\"completion_tokens\":2,\"tot",
        b"al_tokens\":3}}\n",
        b"\ndata: [D",
        b"ONE]\n\n",
    ]);
    assert_eq!(
        s.last_usage,
        Some(Usage {
            prompt_tokens: 1,
            completion_tokens: 2,
            total_tokens: 3
        })
    );
    assert!(s.saw_done);
}

#[test]
fn crlf_separators_are_understood() {
    let s = feed_chunks(&[
        b"data: {\"usage\":{\"prompt_tokens\":5,\"completion_tokens\":6,\"total_tokens\":11}}\r\n\r\n",
        b"data: [DONE]\r\n\r\n",
    ]);
    assert_eq!(s.last_usage.as_ref().map(|u| u.total_tokens), Some(11));
    assert!(s.saw_done);
}

#[test]
fn cr_split_across_chunks_is_not_a_false_boundary() {
    // "\r\n\r\n" arriving as "...\r" + "\n\r\n..." must still be one separator.
    let s = feed_chunks(&[
        b"data: {\"usage\":{\"total_tokens\":9}}\r",
        b"\n\r\ndata: [DONE]\r\n\r\n",
    ]);
    assert_eq!(s.last_usage.as_ref().map(|u| u.total_tokens), Some(9));
    assert!(s.saw_done);
}

#[test]
fn multiple_data_lines_join_with_newline() {
    // JSON split over two data lines in one event is still one payload.
    let s = feed_chunks(&[b"data: {\"usage\":{\"total_tokens\":\ndata: 4}}\n\n"]);
    // Joined payload contains a '\n' inside the JSON, which is valid
    // whitespace, so usage still parses.
    assert_eq!(s.last_usage.as_ref().map(|u| u.total_tokens), Some(4));
}

#[test]
fn non_json_and_comment_events_are_ignored() {
    let s = feed_chunks(&[
        b": keep-alive\n\n",
        b"event: ping\n\n",
        b"data: not json at all\n\n",
        b"data: {\"usage\":{\"total_tokens\":2}}\n\n",
    ]);
    assert_eq!(s.last_usage.as_ref().map(|u| u.total_tokens), Some(2));
}

#[test]
fn usage_null_is_not_usage() {
    let s = feed_chunks(&[b"data: {\"choices\":[],\"usage\":null}\n\n"]);
    assert_eq!(s.last_usage, None);
}

#[test]
fn last_usage_wins() {
    let s = feed_chunks(&[
        b"data: {\"usage\":{\"total_tokens\":1}}\n\n",
        b"data: {\"usage\":{\"total_tokens\":2}}\n\n",
    ]);
    assert_eq!(s.last_usage.as_ref().map(|u| u.total_tokens), Some(2));
}

#[test]
fn oversized_event_disables_scanning_without_panic() {
    let mut s = UsageScanner::default();
    // A "data:" line that never terminates.
    s.feed(b"data: ", &read);
    let big = vec![b'x'; MAX_EVENT_BUFFER + 1];
    s.feed(&big, &read);
    assert!(s.overflowed);
    // Further feeds are no-ops, not panics.
    s.feed(b"data: {\"usage\":{\"total_tokens\":3}}\n\n", &read);
    assert_eq!(s.last_usage, None);
}

#[test]
fn a_later_payload_without_usage_does_not_undo_it() {
    let s = feed_chunks(&[
        b"data: {\"usage\":{\"total_tokens\":1}}\n\n",
        b"data: {\"usage\":null}\n\n",
        b"data: \"usage\" is not json\n\n",
    ]);
    assert_eq!(s.last_usage.map(|u| u.total_tokens), Some(1));
}

#[test]
fn the_buffer_may_be_full_but_not_fuller() {
    let mut s = UsageScanner::default();
    s.feed(&vec![b'x'; MAX_EVENT_BUFFER], &read);
    assert!(!s.overflowed);
    assert_eq!(s.buf.len(), MAX_EVENT_BUFFER);
    s.feed(b"x", &read);
    assert!(s.overflowed);
    assert!(s.buf.is_empty());
    // What was found before the overflow is kept.
    let mut s = UsageScanner::default();
    s.feed(b"data: {\"usage\":{\"total_tokens\":1}}\n\ndata: [DONE]\n\n", &read);
    s.feed(&vec![b'x'; MAX_EVENT_BUFFER + 1], &read);
    assert!(s.overflowed && s.saw_done);
    assert_eq!(s.last_usage.map(|u| u.total_tokens), Some(1));
}

#[test]
fn a_long_chunk_of_short_events_does_not_overflow() {
    let mut stream: Vec<u8> = Vec::new();
    while stream.len() <= MAX_EVENT_BUFFER {
        stream.extend_from_slice(b"data: ");
        stream.extend_from_slice(&[b'y'; 100000]);
        stream.extend_from_slice(b"\n\n");
    }
    stream.extend_from_slice(b"data: {\"usage\":{\"total_tokens\":8}}\n\n");
    let s = feed_chunks(&[&stream]);
    assert!(!s.overflowed);
    assert_eq!(s.last_usage.map(|u| u.total_tokens), Some(8));
}

#[test]
fn only_payloads_that_mention_usage_surface() {
    let mut s = UsageScanner::default();
    let payloads = s.scan(
        b"data: {\"a\":1}\n\nid: 7\ndata:{\"usage\":1}\n: note\ndata\ndata:  x\n\ndata: \"usage\"\r\rdata: [DONE]\n\ndata: \"usag",
    );
    assert_eq!(
        payloads,
        vec![b"{\"usage\":1}\n\n x".to_vec(), b"\"usage\"".to_vec()]
    );
    assert!(s.saw_done);
    assert_eq!(s.buf, b"data: \"usag");
    assert_eq!(s.scan(b"e\"\n\n"), vec![b"\"usage\"".to_vec()]);
    assert!(s.buf.is_empty());
}

#[test]
fn done_must_stand_alone() {
    for stream in [
        b"data: [DONE] \n\n".as_slice(),
        b"data: [DONE]\ndata:\n\n",
        b"event: [DONE]\n\n",
        b"data: [done]\n\n",
        b"data:  [DONE]\n\n",
        b"data: [DONE]\n",
        b"data: [DONE]\r\r",
    ] {
        assert!(!feed_chunks(&[stream]).saw_done);
    }
    for stream in [
        b"data: [DONE]\n\n".as_slice(),
        b"data:[DONE]\r\n\r\n",
        b"data: [DONE]\r\rx",
        b": bye\nid: 1\ndata: [DONE]\n\n",
    ] {
        assert!(feed_chunks(&[stream]).saw_done);
    }
}

#[test]
fn cutting_a_stream_changes_nothing() {
    let stream: &[u8] = b"data: {\"usage\":{\"total_tokens\":1}}\r\n\r\n: c\r\rdata: {\"usage\":\r\ndata: {\"total_tokens\":2}}\n\ndata: [DONE]\r\n\r\ndata: tail\r";
    let whole = feed_chunks(&[stream]);
    assert_eq!(whole.last_usage.map(|u| u.total_tokens), Some(2));
    assert!(whole.saw_done);
    assert_eq!(whole.buf, b"data: tail\r");
    for i in 0..=stream.len() {
        for j in i..=stream.len() {
            let cut = feed_chunks(&[&stream[..i], &stream[i..j], &stream[j..]]);
            assert_eq!(cut.last_usage, whole.last_usage, "{i} {j}");
            assert_eq!(cut.saw_done, whole.saw_done, "{i} {j}");
            assert_eq!(cut.buf, whole.buf, "{i} {j}");
        }
    }
}

#[test]
fn terminators_and_boundaries_are_exact() {
    assert_eq!(term_at(b"\n", 0), Term::Len(1));
    assert_eq!(term_at(b"\r\n", 0), Term::Len(2));
    assert_eq!(term_at(b"\rx", 0), Term::Len(1));
    assert_eq!(term_at(b"\r", 0), Term::Incomplete);
    assert_eq!(term_at(b"x", 0), Term::Not);
    assert_eq!(term_at(b"x", 1), Term::Not);
    assert_eq!(find_event_boundary(b""), None);
    assert_eq!(find_event_boundary(b"ab\n"), None);
    assert_eq!(find_event_boundary(b"ab\n\n"), Some((2, 4)));
    assert_eq!(find_event_boundary(b"ab\ncd\r\n\r\ne"), Some((5, 9)));
    assert_eq!(find_event_boundary(b"ab\r\n\r"), None);
    assert_eq!(find_event_boundary(b"ab\n\r\n"), Some((2, 5)));
    assert_eq!(find_event_boundary(b"\n\n"), Some((0, 2)));
    // The second half of a pair does not begin a separator.
    assert_eq!(find_event_boundary(b"ab\r\n\n"), Some((2, 5)));
    assert_eq!(find_event_boundary(b"ab\r\r\n"), Some((2, 5)));
}

/// Scripted chunks with deliberately hostile framing: events split mid-line,
/// mid-JSON-key, multi-byte UTF-8 in the payload, a `"usage":null` chunk, a
/// real usage chunk, and a [DONE] terminator.
const SCRIPT_CHUNKS: [&str; 5] = [
    "data: {\"id\":\"c1\",\"choices\":[{\"delta\":{\"content\":\"Hel",
    "lo\"}}],\"usage\":null}\n\nda",
    "ta: {\"id\":\"c1\",\"choices\":[{\"delta\":{\"content\":\" w\u{00f6}rld \u{2728}\"}}]}\n\n",
    "data: {\"id\":\"c1\",\"choices\":[],\"usage\":{\"prompt_tokens\":7,\"completion_tokens\":42,\"total_tokens\":49}}\n\n",
    "data: [DONE]\n\n",
];

/// Poll the relay with a chunk, which must come back as it is.
fn forward(relay: &mut SseRelay, chunk: &Bytes) -> Bytes {
    let turn = relay.poll_next(RelayEvent::Chunk(chunk.clone()), &read);
    assert!(turn.summary.is_none());
    match turn.step {
        RelayStep::Forward(forwarded) => forwarded,
        _ => panic!("the chunk was not forwarded"),
    }
}

#[test]
fn relay_forwards_every_chunk_and_reports_usage() {
    let mut relay = SseRelay::new(Duration::from_secs(5));
    let mut got: Vec<u8> = Vec::new();
    for chunk in SCRIPT_CHUNKS {
        let sent = Bytes::from_static(chunk.as_bytes());
        let forwarded = forward(&mut relay, &sent);
        assert_eq!(forwarded, sent);
        // The very same buffer, not a copy of it.
        assert!(std::ptr::eq(forwarded.as_ptr(), sent.as_ptr()));
        got.extend_from_slice(&forwarded);
    }
    let want: Vec<u8> = SCRIPT_CHUNKS.concat().into_bytes();
    assert_eq!(got, want);
    assert_eq!(relay.bytes_relayed(), want.len() as u64);

    let turn = relay.poll_next(RelayEvent::Ended, &read);
    assert!(matches!(turn.step, RelayStep::End));
    assert_eq!(
        turn.summary,
        Some(RelaySummary {
            outcome: RelayOutcome::Completed,
            usage: Some(Usage {
                prompt_tokens: 7,
                completion_tokens: 42,
                total_tokens: 49
            }),
            saw_done: true,
            bytes_relayed: want.len() as u64,
        })
    );
    // The drop of a finished stream sends nothing more.
    assert!(relay.is_finished());
    assert_eq!(relay.disconnect(), None);
}

#[test]
fn stalled_upstream_ends_the_relay() {
    let mut relay = SseRelay::new(Duration::from_millis(200));
    let first = Bytes::from_static(b"data: {\"choices\":[{\"delta\":{\"content\":\"x\"}}]}\n\n");
    forward(&mut relay, &first);
    let turn = relay.poll_next(RelayEvent::Idle { stalled: false }, &read);
    assert!(matches!(turn.step, RelayStep::Wait));
    assert!(turn.summary.is_none());
    assert!(!relay.is_finished());

    let turn = relay.poll_next(RelayEvent::Idle { stalled: true }, &read);
    match turn.step {
        RelayStep::Fail(RelayError::StallTimeout(timeout)) => {
            assert_eq!(timeout, Duration::from_millis(200));
        }
        _ => panic!("no stall error"),
    }
    let summary = turn.summary.unwrap();
    assert_eq!(summary.outcome, RelayOutcome::Stalled);
    assert_eq!(summary.usage, None);
    assert!(!summary.saw_done);
    assert_eq!(summary.bytes_relayed, first.len() as u64);

    // The stream is fused after the stall error.
    let turn = relay.poll_next(RelayEvent::Chunk(first), &read);
    assert!(matches!(turn.step, RelayStep::End));
    assert!(turn.summary.is_none());
    assert_eq!(relay.disconnect(), None);
}

#[test]
fn failing_upstream_ends_the_relay() {
    let mut relay = SseRelay::new(Duration::from_secs(5));
    let turn = relay.poll_next(RelayEvent::Failed("connection reset".to_string()), &read);
    match turn.step {
        RelayStep::Fail(RelayError::Upstream(message)) => assert_eq!(message, "connection reset"),
        _ => panic!("no upstream error"),
    }
    assert_eq!(
        turn.summary.unwrap().outcome,
        RelayOutcome::UpstreamError("connection reset".to_string())
    );
}

#[test]
fn dropped_relay_still_reports() {
    let mut relay = SseRelay::new(Duration::from_secs(5));
    forward(
        &mut relay,
        &Bytes::from_static(b"data: {\"usage\":{\"total_tokens\":6}}\n\ndata: z"),
    );
    let summary = relay.disconnect().unwrap();
    assert_eq!(summary.outcome, RelayOutcome::ClientDisconnected);
    assert_eq!(summary.usage.map(|u| u.total_tokens), Some(6));
    assert!(!summary.saw_done);
    assert_eq!(relay.disconnect(), None);
    assert_eq!(relay.report(RelayOutcome::Completed), None);
}

#[test]
fn polling_without_a_bound_on_the_count() {
    let mut relay = SseRelay::new(Duration::from_secs(5));
    let chunk = Bytes::from_static(b"data: {\"usage\":{\"total_tokens\":6}}\n\n");
    let turn = relay
        .try_poll_next(RelayEvent::Chunk(chunk.clone()), &read)
        .unwrap();
    assert!(matches!(turn.step, RelayStep::Forward(ref c) if *c == chunk));
    assert_eq!(relay.bytes_relayed(), chunk.len() as u64);
    let turn = relay.try_poll_next(RelayEvent::Ended, &read).unwrap();
    assert_eq!(
        turn.summary.unwrap().usage.map(|u| u.total_tokens),
        Some(6)
    );
}

#[test]
fn an_oversized_event_is_still_relayed() {
    let mut relay = SseRelay::new(Duration::from_secs(5));
    let big = Bytes::from(vec![b'x'; MAX_EVENT_BUFFER + 1]);
    assert!(!relay.accounting_disabled());
    assert_eq!(forward(&mut relay, &big), big);
    assert!(relay.accounting_disabled());
    let after = Bytes::from_static(b"\n\ndata: {\"usage\":{\"total_tokens\":3}}\n\n");
    assert_eq!(forward(&mut relay, &after), after);
    let summary = relay.poll_next(RelayEvent::Ended, &read).summary.unwrap();
    assert_eq!(summary.usage, None);
    assert_eq!(summary.bytes_relayed, (big.len() + after.len()) as u64);
}

fn mock_backend(api_key: Option<Secret>) -> Backend {
    Backend {
        name: "mock".to_string(),
        base_url: "http://127.0.0.1:9".to_string(),
        api_key,
        models: vec!["m".to_string()],
        capability_tags: vec![],
        privacy: Privacy::Local,
    }
}

#[test]
fn request_carries_payload_and_credentials() {
    let client = UpstreamClient::new();
    assert_eq!(client.connect_timeout_secs, 10);
    let body = Bytes::from_static(b"{\"model\":\"m\",\"stream\":true}");
    let backend = mock_backend(Some(Secret::new("test-virtual-key-123")));
    let request = client.open_sse(&backend, "/v1/chat/completions", body.clone());
    assert_eq!(request.url, "http://127.0.0.1:9/v1/chat/completions");
    assert_eq!(request.content_type, "application/json");
    assert_eq!(request.accept, "text/event-stream");
    assert_eq!(request.bearer, Some("test-virtual-key-123".to_string()));
    assert_eq!(request.body, body);

    let request = client.open_sse(&mock_backend(None), "/nope", Bytes::new());
    assert_eq!(request.url, "http://127.0.0.1:9/nope");
    assert_eq!(request.bearer, None);
}

#[test]
fn other_than_2xx_is_an_error_not_a_stream() {
    let client = UpstreamClient::new();
    let backend = mock_backend(None);
    for status in [200, 204, 299] {
        assert!(client.is_success(status));
        assert!(client.check_response(&backend, status, "ignored").is_ok());
    }
    for status in [100, 199, 300, 404, 405, 500] {
        assert!(!client.is_success(status));
        match client.check_response(&backend, status, "not found") {
            Err(UpstreamError::BadStatus {
                backend,
                status: code,
                body,
            }) => {
                assert_eq!(backend, "mock");
                assert_eq!(code, status);
                assert_eq!(body, "not found");
            }
            _ => panic!("no BadStatus for {status}"),
        }
    }
}

#[test]
fn error_bodies_are_cut_by_characters() {
    let client = UpstreamClient::new();
    let kept = |body: &str| match client.check_response(&mock_backend(None), 500, body) {
        Err(UpstreamError::BadStatus { body, .. }) => body,
        _ => panic!("no BadStatus"),
    };
    assert_eq!(kept(""), "");
    assert_eq!(kept(&"a".repeat(2048)), "a".repeat(2048));
    assert_eq!(kept(&"a".repeat(2049)), "a".repeat(2048));
    assert_eq!(kept(&"\u{2728}".repeat(3000)), "\u{2728}".repeat(2048));
}

#[test]
fn a_terminator_is_never_forgotten() {
    let s = feed_chunks(&[
        b"data: [DONE]\n\n",
        b"data: {\"usage\":{\"total_tokens\":5}}\n\n",
        b": later\n\n",
    ]);
    assert!(s.saw_done);
    assert_eq!(s.last_usage.map(|u| u.total_tokens), Some(5));
}
