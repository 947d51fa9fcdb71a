//! Counting and the Prometheus exposition.
use patchbay::metrics::{escape, LabeledCounters, MetricsHandle};
use patchbay::upstream::Usage;

#[test]
fn render_is_empty_before_any_records() {
    let h = MetricsHandle::new();
    assert!(h.render().is_empty());
}

#[test]
fn request_counter_appears_in_output() {
    let mut h = MetricsHandle::new();
    h.record_request("local-llm", "qwen-coder", "2xx");
    h.record_request("local-llm", "qwen-coder", "2xx");
    h.record_request("openai", "gpt-4o", "5xx");

    let out = h.render();
    assert!(out.contains("patchbay_requests_total"));
    assert!(out.contains(r#"backend="local-llm""#));
    assert!(out.contains(r#"model="qwen-coder""#));
    assert!(out.contains(r#"status="2xx"} 2"#));
    assert!(out.contains(r#"status="5xx"} 1"#));
}

#[test]
fn token_counters_accumulate() {
    let mut h = MetricsHandle::new();
    let u = Usage {
        prompt_tokens: 10,
        completion_tokens: 20,
        total_tokens: 30,
    };
    h.record_tokens("dev", &u);
    h.record_tokens("dev", &u);

    let out = h.render();
    assert!(out.contains(r#"kind="prompt"} 20"#));
    assert!(out.contains(r#"kind="completion"} 40"#));
    assert!(out.contains(r#"kind="total"} 60"#));
}

#[test]
fn upstream_error_counter() {
    let mut h = MetricsHandle::new();
    h.record_upstream_error("openai");
    h.record_upstream_error("openai");

    let out = h.render();
    assert!(out.contains("patchbay_upstream_errors_total"));
    assert!(out.contains(r#"backend="openai"} 2"#));
}

#[test]
fn rate_limit_and_budget_rejection_counters() {
    let mut h = MetricsHandle::new();
    h.record_rate_limit_rejection("alice");
    h.record_budget_rejection("bob");

    let out = h.render();
    assert!(out.contains("patchbay_rate_limit_rejections_total"));
    assert!(out.contains(r#"key="alice"} 1"#));
    assert!(out.contains("patchbay_budget_rejections_total"));
    assert!(out.contains(r#"key="bob"} 1"#));
}

#[test]
fn label_values_are_escaped() {
    let mut h = MetricsHandle::new();
    h.record_request(r#"back"end"#, "model\nname", "2xx");
    let out = h.render();
    // Quotes and newlines must be escaped in the output.
    assert!(out.contains(r#"back\"end"#) || out.contains(r#"back\\"end"#));
}

#[test]
fn help_and_type_lines_appear() {
    let mut h = MetricsHandle::new();
    h.record_request("b", "m", "2xx");
    let out = h.render();
    assert!(out.contains("# HELP patchbay_requests_total"));
    assert!(out.contains("# TYPE patchbay_requests_total counter"));
}

#[test]
fn exposition_is_exact() {
    let mut h = MetricsHandle::default();
    h.record_budget_rejection("bob");
    h.record_rate_limit_rejection("alice");
    h.record_upstream_error("openai");
    h.record_tokens(
        "dev",
        &Usage {
            prompt_tokens: 1024,
            completion_tokens: 512,
            total_tokens: 1536,
        },
    );
    h.record_request("openai", "gpt-4o", "5xx");
    h.record_request("local-llm", "qwen-coder", "2xx");
    h.record_request("local-llm", "qwen-coder", "2xx");
    let want = "\
# HELP patchbay_requests_total Total requests received.
# TYPE patchbay_requests_total counter
patchbay_requests_total{backend=\"local-llm\",model=\"qwen-coder\",status=\"2xx\"} 2
patchbay_requests_total{backend=\"openai\",model=\"gpt-4o\",status=\"5xx\"} 1
# HELP patchbay_tokens_total Total tokens consumed.
# TYPE patchbay_tokens_total counter
patchbay_tokens_total{key=\"dev\",kind=\"completion\"} 512
patchbay_tokens_total{key=\"dev\",kind=\"prompt\"} 1024
patchbay_tokens_total{key=\"dev\",kind=\"total\"} 1536
# HELP patchbay_upstream_errors_total Upstream non-2xx or connection errors.
# TYPE patchbay_upstream_errors_total counter
patchbay_upstream_errors_total{backend=\"openai\"} 1
# HELP patchbay_rate_limit_rejections_total Requests rejected by rate limiter.
# TYPE patchbay_rate_limit_rejections_total counter
patchbay_rate_limit_rejections_total{key=\"alice\"} 1
# HELP patchbay_budget_rejections_total Requests rejected by token budget.
# TYPE patchbay_budget_rejections_total counter
patchbay_budget_rejections_total{key=\"bob\"} 1
";
    assert_eq!(h.render(), want);
}

#[test]
fn order_of_recording_does_not_show() {
    let mut a = MetricsHandle::new();
    let mut b = MetricsHandle::new();
    let names = ["b", "a", "ab", "\u{e9}", "z", "\u{1f600}", "a\"", ""];
    for name in names {
        a.record_upstream_error(name);
    }
    for name in names.iter().rev() {
        b.record_upstream_error(name);
    }
    let out = a.render();
    assert_eq!(out, b.render());
    // The samples come in the order of their labels.
    let samples: Vec<&str> = out.lines().skip(2).collect();
    let mut sorted = samples.clone();
    sorted.sort_unstable();
    assert_eq!(samples.len(), names.len());
    assert_eq!(samples, sorted);
}

#[test]
fn escaping_is_exact() {
    assert_eq!(escape("plain"), "plain");
    assert_eq!(escape(""), "");
    assert_eq!(escape("a\\b\"c\nd"), "a\\\\b\\\"c\\nd");
    assert_eq!(escape("\\n"), "\\\\n");
    assert_eq!(escape("\u{e9}\u{1f600}\r\t"), "\u{e9}\u{1f600}\r\t");
}

#[test]
fn values_that_look_alike_unescaped_stay_apart() {
    // Without escaping, both requests would bear one label.
    let mut h = MetricsHandle::new();
    h.record_request("a", "b\",status=\"2xx", "2xx");
    h.record_request("a\",model=\"b", "2xx", "2xx");
    h.record_request("a", "\n", "2xx");
    h.record_request("a", "\\n", "2xx");
    let out = h.render();
    assert_eq!(out.lines().count(), 6);
    assert_eq!(out.lines().filter(|l| l.ends_with("} 1")).count(), 4);
}

#[test]
fn keys_and_kinds_are_counted_apart() {
    let mut h = MetricsHandle::new();
    let one = |n: u64| Usage {
        prompt_tokens: n,
        completion_tokens: 2 * n,
        total_tokens: 3 * n,
    };
    h.record_tokens("a", &one(1));
    h.record_tokens("b", &one(10));
    h.record_tokens("a", &one(100));
    let out = h.render();
    for line in [
        "patchbay_tokens_total{key=\"a\",kind=\"prompt\"} 101",
        "patchbay_tokens_total{key=\"a\",kind=\"completion\"} 202",
        "patchbay_tokens_total{key=\"a\",kind=\"total\"} 303",
        "patchbay_tokens_total{key=\"b\",kind=\"prompt\"} 10",
        "patchbay_tokens_total{key=\"b\",kind=\"completion\"} 20",
        "patchbay_tokens_total{key=\"b\",kind=\"total\"} 30",
    ] {
        assert!(out.lines().any(|l| l == line), "{line}");
    }
}

#[test]
fn numbers_are_written_in_decimal() {
    for n in [0, 1, 9, 10, 11, 99, 100, 1000000, 1234567890123456789, u64::MAX] {
        let mut h = MetricsHandle::new();
        h.record_tokens(
            "k",
            &Usage {
                prompt_tokens: n,
                completion_tokens: 0,
                total_tokens: 0,
            },
        );
        let line = format!("patchbay_tokens_total{{key=\"k\",kind=\"prompt\"}} {n}");
        assert!(h.render().lines().any(|l| l == line), "{line}");
    }
}

#[test]
fn counters_wrap_around() {
    let mut h = MetricsHandle::new();
    let u = |n: u64| Usage {
        prompt_tokens: n,
        completion_tokens: n,
        total_tokens: n,
    };
    h.record_tokens("k", &u(u64::MAX));
    h.record_tokens("k", &u(3));
    assert!(h.render().contains("kind=\"total\"} 2\n"));
}

#[test]
fn a_counter_that_was_touched_appears_even_at_zero() {
    let mut h = MetricsHandle::new();
    h.record_tokens(
        "k",
        &Usage {
            prompt_tokens: 0,
            completion_tokens: 0,
            total_tokens: 0,
        },
    );
    let out = h.render();
    assert_eq!(out.lines().count(), 5);
    assert!(out.contains("kind=\"prompt\"} 0\n"));
}

/// The value on the sample line with this name and label.
fn value(out: &str, sample: &str) -> Option<u64> {
    out.lines()
        .find_map(|l| l.strip_prefix(sample)?.strip_prefix(' ')?.parse().ok())
}

#[test]
fn values_tell_the_history() {
    // A long mixed history, with a plain tally of it beside.
    let mut h = MetricsHandle::new();
    let mut requests = [0u64; 4];
    let mut prompt = [0u64; 3];
    let mut errors = 0u64;
    let mut state = 7u64;
    for _ in 0..500 {
        state = state.wrapping_mul(6364136223846793005).wrapping_add(1442695040888963407);
        let pick = (state >> 33) as usize;
        match pick % 3 {
            0 => {
                let i = (pick / 3) % 4;
                h.record_request(&format!("b{}", i / 2), &format!("m{}", i % 2), "2xx");
                requests[i] += 1;
            }
            1 => {
                let k = (pick / 3) % 3;
                let n = state;
                h.record_tokens(
                    &format!("k{k}"),
                    &Usage {
                        prompt_tokens: n,
                        completion_tokens: 0,
                        total_tokens: 1,
                    },
                );
                prompt[k] = prompt[k].wrapping_add(n);
            }
            _ => {
                h.record_upstream_error("b0");
                errors += 1;
            }
        }
    }
    let out = h.render();
    for (i, n) in requests.iter().enumerate() {
        let sample = format!(
            "patchbay_requests_total{{backend=\"b{}\",model=\"m{}\",status=\"2xx\"}}",
            i / 2,
            i % 2
        );
        assert_eq!(value(&out, &sample), Some(*n));
    }
    for (k, n) in prompt.iter().enumerate() {
        let sample = format!("patchbay_tokens_total{{key=\"k{k}\",kind=\"prompt\"}}");
        assert_eq!(value(&out, &sample), Some(*n));
    }
    assert_eq!(
        value(&out, "patchbay_upstream_errors_total{backend=\"b0\"}"),
        Some(errors)
    );
    // Families that were not recorded to do not appear.
    assert!(!out.contains("rejections"));
    // Rendering changes nothing.
    assert_eq!(h.render(), out);
}

#[test]
fn snapshots_list_what_was_counted() {
    let mut c = LabeledCounters::default();
    assert!(c.snapshot().is_empty());
    // Labels whose order by character and by byte is worth a look.
    let labels = ["b", "a", "", "ab", "\u{7f}", "\u{80}", "\u{ffff}", "\u{10000}", "\u{7ff}", "\u{800}"];
    for (i, label) in labels.iter().enumerate() {
        c.add(label.to_string(), i as u64);
        c.inc(label.to_string());
    }
    c.add("zero".to_string(), 0);
    c.add("wraps".to_string(), u64::MAX);
    c.add("wraps".to_string(), 4);
    let mut want: Vec<(String, u64)> = labels
        .iter()
        .enumerate()
        .map(|(i, label)| (label.to_string(), i as u64 + 1))
        .collect();
    want.push(("zero".to_string(), 0));
    want.push(("wraps".to_string(), 3));
    want.sort();
    assert_eq!(c.snapshot(), want);
    // Taking a snapshot changes nothing.
    assert_eq!(c.snapshot(), want);
    assert!(LabeledCounters::new().snapshot().is_empty());
}
