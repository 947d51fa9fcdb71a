//! Routing: eligibility, policies and the privacy guarantee.
use patchbay::auth::{AuthedKey, KeyStore};
use patchbay::config::{
    default_alpha, default_listen, Backend, EnvTable, GatewayConfig, Privacy, RawBackend,
    RawConfig, RawPolicy, Secret, VirtualKey,
};
use patchbay::router::{
    Candidates, ClassifiedQuery, EwmaLatency, Policy, PrivacyClass, Private, RouteError,
    RouteQuery, Router, Shareable, StaticPriority,
};
use std::sync::Arc;
use std::time::Duration;

fn backend(name: &str, privacy: Privacy, models: &[&str], tags: &[&str]) -> Backend {
    Backend {
        name: name.to_string(),
        base_url: format!("http://{name}.test"),
        api_key: Some(Secret::new(&format!("key-{name}"))),
        models: models.iter().map(|s| s.to_string()).collect(),
        capability_tags: tags.iter().map(|s| s.to_string()).collect(),
        privacy,
    }
}

fn query(model: &str, tags: &[&str]) -> RouteQuery {
    RouteQuery::new(model).with_tags(tags.iter().map(|s| s.to_string()).collect())
}

/// The moving average after one more sample.
fn blend(alpha: u64, sample: u64, average: u64) -> u64 {
    let alpha = f64::from_bits(alpha);
    (alpha * f64::from_bits(sample) + (1.0 - alpha) * f64::from_bits(average)).to_bits()
}

fn observe(ewma: &mut EwmaLatency, name: &str, latency: Duration) {
    ewma.observe(name, (latency.as_secs_f64() * 1000.0).to_bits(), blend);
}

fn ewma(alpha: f64) -> EwmaLatency {
    EwmaLatency::new(alpha.to_bits())
}

fn latency_ms(ewma: &EwmaLatency, name: &str) -> Option<f64> {
    ewma.latency_ms(name).map(f64::from_bits)
}

struct Case {
    name: &'static str,
    backends: Vec<Backend>,
    model: &'static str,
    tags: &'static [&'static str],
    private: bool,
    expect: Result<&'static str, ()>,
}

#[test]
fn static_priority_routing_table() {
    let local = Privacy::Local;
    let external = Privacy::External;
    let cases = vec![
        Case {
            name: "shareable picks first eligible in config order",
            backends: vec![
                backend("ext-a", external, &["m1"], &[]),
                backend("loc-b", local, &["m1"], &[]),
            ],
            model: "m1",
            tags: &[],
            private: false,
            expect: Ok("ext-a"),
        },
        Case {
            name: "private skips earlier external even though higher priority",
            backends: vec![
                backend("ext-a", external, &["m1"], &[]),
                backend("loc-b", local, &["m1"], &[]),
            ],
            model: "m1",
            tags: &[],
            private: true,
            expect: Ok("loc-b"),
        },
        Case {
            name: "private with only external candidates fails closed",
            backends: vec![
                backend("ext-a", external, &["m1"], &[]),
                backend("ext-b", external, &["m1"], &[]),
                backend("loc-c", local, &["other-model"], &[]),
            ],
            model: "m1",
            tags: &[],
            private: true,
            expect: Err(()),
        },
        Case {
            name: "model filter skips non-serving backends",
            backends: vec![
                backend("loc-a", local, &["m2"], &[]),
                backend("loc-b", local, &["m1"], &[]),
            ],
            model: "m1",
            tags: &[],
            private: false,
            expect: Ok("loc-b"),
        },
        Case {
            name: "all required tags must be present",
            backends: vec![
                backend("loc-a", local, &["m1"], &["code"]),
                backend("loc-b", local, &["m1"], &["code", "fast"]),
            ],
            model: "m1",
            tags: &["code", "fast"],
            private: false,
            expect: Ok("loc-b"),
        },
        Case {
            name: "unknown model yields no backend",
            backends: vec![backend("loc-a", local, &["m1"], &[])],
            model: "nope",
            tags: &[],
            private: false,
            expect: Err(()),
        },
        Case {
            name: "empty backend table yields no backend",
            backends: vec![],
            model: "m1",
            tags: &[],
            private: false,
            expect: Err(()),
        },
        Case {
            name: "private + tags + model all constrain together",
            backends: vec![
                backend("ext-a", external, &["m1"], &["code"]),
                backend("loc-b", local, &["m1"], &[]),
                backend("loc-c", local, &["m1"], &["code"]),
            ],
            model: "m1",
            tags: &["code"],
            private: true,
            expect: Ok("loc-c"),
        },
    ];

    for case in cases {
        let router = Router::with_policy(case.backends, Arc::new(StaticPriority));
        let got = router.route(query(case.model, case.tags), case.private);
        match (case.expect, got) {
            (Ok(want), Ok(b)) => assert_eq!(b.name, want, "case: {}", case.name),
            (Err(()), Err(RouteError::NoEligibleBackend { .. })) => {}
            (want, got) => {
                panic!(
                    "case `{}`: want {:?}, got {:?}",
                    case.name,
                    want,
                    got.map(|b| &b.name)
                )
            }
        }
    }
}

fn route_name<Q: Policy + ?Sized>(router: &Router<Q>, private: bool) -> String {
    match router.route(query("m", &[]), private) {
        Ok(b) => b.name.clone(),
        Err(e) => panic!("{e:?}"),
    }
}

#[test]
fn ewma_prefers_lowest_observed_latency() {
    let backends = vec![
        backend("slow", Privacy::Local, &["m"], &[]),
        backend("fast", Privacy::Local, &["m"], &[]),
    ];
    let mut ewma = ewma(0.5);
    observe(&mut ewma, "slow", Duration::from_millis(800));
    observe(&mut ewma, "fast", Duration::from_millis(20));
    let router = Router::with_policy(backends, Arc::new(ewma));
    assert_eq!(route_name(&router, false), "fast");
}

#[test]
fn ewma_unseen_backend_is_probed_first() {
    let backends = vec![
        backend("seen", Privacy::Local, &["m"], &[]),
        backend("cold", Privacy::Local, &["m"], &[]),
    ];
    let mut ewma = ewma(0.5);
    observe(&mut ewma, "seen", Duration::from_millis(5));
    let router = Router::with_policy(backends, Arc::new(ewma));
    // cold has no sample -> scores 0.0 -> chosen over 5ms.
    assert_eq!(route_name(&router, false), "cold");
}

#[test]
fn ewma_blends_with_alpha() {
    let mut ewma = ewma(0.5);
    observe(&mut ewma, "b", Duration::from_millis(100)); // first sample taken as-is
    assert_eq!(latency_ms(&ewma, "b"), Some(100.0));
    observe(&mut ewma, "b", Duration::from_millis(200)); // 0.5*200 + 0.5*100
    assert_eq!(latency_ms(&ewma, "b"), Some(150.0));
    observe(&mut ewma, "b", Duration::from_millis(50)); // 0.5*50 + 0.5*150
    assert_eq!(latency_ms(&ewma, "b"), Some(100.0));
}

#[test]
fn ewma_ties_break_toward_config_order() {
    let backends = vec![
        backend("first", Privacy::Local, &["m"], &[]),
        backend("second", Privacy::Local, &["m"], &[]),
    ];
    let mut ewma = ewma(0.5);
    observe(&mut ewma, "first", Duration::from_millis(10));
    observe(&mut ewma, "second", Duration::from_millis(10));
    let router = Router::with_policy(backends, Arc::new(ewma));
    assert_eq!(route_name(&router, false), "first");
}

#[test]
fn ewma_private_ignores_faster_external() {
    let backends = vec![
        backend("ext-fast", Privacy::External, &["m"], &[]),
        backend("loc-slow", Privacy::Local, &["m"], &[]),
    ];
    let mut ewma = ewma(0.5);
    observe(&mut ewma, "ext-fast", Duration::from_millis(1));
    observe(&mut ewma, "loc-slow", Duration::from_millis(900));
    let router = Router::with_policy(backends, Arc::new(ewma));
    // Shareable traffic follows latency...
    assert_eq!(route_name(&router, false), "ext-fast");
    // ...private traffic structurally cannot see the external backend.
    assert_eq!(route_name(&router, true), "loc-slow");
}

#[test]
fn route_error_carries_context() {
    let router = Router::with_policy(
        vec![backend("ext", Privacy::External, &["m"], &[])],
        Arc::new(StaticPriority),
    );
    let err = match router.route(query("m", &["code"]), true) {
        Ok(_) => panic!("a backend was found"),
        Err(e) => e,
    };
    assert_eq!(
        err,
        RouteError::NoEligibleBackend {
            model: "m".to_string(),
            required_tags: vec!["code".to_string()],
            privacy: "private",
        }
    );
}

fn config(policy: RawPolicy) -> GatewayConfig {
    let raw = RawConfig {
        listen: default_listen(),
        backends: vec![RawBackend {
            name: "b".to_string(),
            base_url_env: "LLM_BASE_URL".to_string(),
            api_key_env: None,
            models: vec!["m".to_string()],
            capability_tags: Vec::new(),
            privacy: Privacy::Local,
        }],
        virtual_keys: Vec::new(),
        policy,
    };
    let mut env = EnvTable::new();
    env.set("LLM_BASE_URL".to_string(), "http://x".to_string());
    GatewayConfig::from_raw(&raw, None, &env).ok().unwrap()
}

#[test]
fn from_config_builds_each_policy() {
    let cfg = config(RawPolicy::EwmaLatency {
        alpha_bits: default_alpha(),
    });
    let router = Router::from_config(&cfg);
    assert_eq!(
        router.route(RouteQuery::new("m"), true).ok().unwrap().name,
        "b"
    );

    let router = Router::from_config(&config(RawPolicy::StaticPriority));
    assert_eq!(
        router.route(RouteQuery::new("m"), true).ok().unwrap().name,
        "b"
    );
    assert_eq!(router.backends().len(), 1);
    assert_eq!(router.backends()[0].base_url, "http://x");
}

#[test]
fn samples_that_are_not_finite_are_ignored() {
    let mut ewma = ewma(1.0);
    for sample in [f64::INFINITY, f64::NEG_INFINITY, f64::NAN] {
        ewma.observe("b", sample.to_bits(), blend);
        assert_eq!(latency_ms(&ewma, "b"), None);
    }
    ewma.observe("b", 7.0f64.to_bits(), blend);
    ewma.observe("b", f64::NAN.to_bits(), blend);
    assert_eq!(latency_ms(&ewma, "b"), Some(7.0));
    assert_eq!(latency_ms(&ewma, "c"), None);
    // With a factor of 1 the latest sample counts alone.
    ewma.observe("b", 9.0f64.to_bits(), blend);
    assert_eq!(latency_ms(&ewma, "b"), Some(9.0));
}

#[test]
fn policies_answer_for_themselves() {
    let a = backend("a", Privacy::Local, &["m"], &[]);
    let b = backend("b", Privacy::Local, &["m"], &[]);
    assert_eq!(StaticPriority.pick(&[]), None);
    assert_eq!(StaticPriority.pick(&[&b, &a]), Some(0));
    let mut policy = ewma(0.5);
    assert_eq!(policy.pick(&[]), None);
    observe(&mut policy, "a", Duration::from_millis(3));
    assert_eq!(policy.pick(&[&a, &b]), Some(1));
    observe(&mut policy, "b", Duration::from_millis(4));
    assert_eq!(policy.pick(&[&a, &b]), Some(0));
    assert_eq!(policy.pick(&[&b, &a]), Some(1));
}

#[test]
fn privacy_classes_admit_by_placement() {
    assert!(Private::admits(Privacy::Local));
    assert!(!Private::admits(Privacy::External));
    assert!(Shareable::admits(Privacy::Local));
    assert!(Shareable::admits(Privacy::External));
    assert_eq!(Private::LABEL, "private");
    assert_eq!(Shareable::LABEL, "shareable");
}

#[test]
fn candidates_keep_config_order() {
    let table = vec![
        backend("ext-a", Privacy::External, &["m"], &["code"]),
        backend("loc-b", Privacy::Local, &["other"], &["code"]),
        backend("loc-c", Privacy::Local, &["m"], &["code", "fast"]),
        backend("loc-d", Privacy::Local, &["m"], &["code"]),
    ];
    let q = match ClassifiedQuery::classify(query("m", &["code"]), true) {
        ClassifiedQuery::Private(q) => q,
        ClassifiedQuery::Shareable(_) => panic!("a private query was classified as shareable"),
    };
    assert_eq!(q.model(), "m");
    assert_eq!(q.required_tags(), ["code".to_string()]);
    let found = Candidates::gather(&q, &table);
    assert_eq!(found.len(), 2);
    assert!(!found.is_empty());
    assert_eq!(found.select(&StaticPriority).unwrap().backend().name, "loc-c");
    let at = |i: Option<usize>| {
        Candidates::gather(&q, &table)
            .at(i)
            .map(|s| s.backend().name.clone())
    };
    assert_eq!(at(Some(1)), Some("loc-d".to_string()));
    assert_eq!(at(Some(2)), None);
    assert_eq!(at(Some(usize::MAX)), None);
    assert_eq!(at(None), None);

    let q = match ClassifiedQuery::classify(query("m", &["code"]), false) {
        ClassifiedQuery::Shareable(q) => q,
        ClassifiedQuery::Private(_) => panic!("a shareable query was classified as private"),
    };
    assert_eq!(Candidates::gather(&q, &table).len(), 3);
    assert!(Candidates::gather(&q, &[]).is_empty());
}

/// A policy that ignores the candidates and returns whatever index it likes,
/// wildly out-of-range ones included.
struct MaliciousPolicy {
    index: usize,
}

impl Policy for MaliciousPolicy {
    fn pick(&self, _candidates: &[&Backend]) -> Option<usize> {
        Some(self.index)
    }
}

/// A small deterministic generator.
struct Numbers(u64);

impl Numbers {
    fn below(&mut self, n: u64) -> u64 {
        self.0 = self
            .0
            .wrapping_mul(6364136223846793005)
            .wrapping_add(1442695040888963407);
        (self.0 >> 33) % n
    }
}

const MODEL_POOL: [&str; 3] = ["alpha", "beta", "gamma"];
const TAG_POOL: [&str; 3] = ["code", "fast", "cheap"];

fn some_of(n: &mut Numbers, pool: &[&'static str]) -> Vec<&'static str> {
    let count = n.below(4);
    (0..count)
        .map(|_| pool[n.below(pool.len() as u64) as usize])
        .collect()
}

fn some_backends(n: &mut Numbers) -> Vec<Backend> {
    let count = n.below(8);
    (0..count)
        .map(|i| {
            let privacy = if n.below(2) == 0 {
                Privacy::Local
            } else {
                Privacy::External
            };
            let models = some_of(n, &MODEL_POOL);
            let tags = some_of(n, &TAG_POOL);
            backend(&format!("b{i}"), privacy, &models, &tags)
        })
        .collect()
}

fn some_query(n: &mut Numbers) -> RouteQuery {
    let model = ["alpha", "beta", "gamma", "missing"][n.below(4) as usize];
    let tags = some_of(n, &TAG_POOL);
    query(model, &tags)
}

fn some_ewma(n: &mut Numbers) -> EwmaLatency {
    let mut policy = ewma((1 + n.below(1000)) as f64 / 1000.0);
    for _ in 0..n.below(16) {
        let name = format!("b{}", n.below(8));
        observe(&mut policy, &name, Duration::from_millis(1 + n.below(5000)));
    }
    policy
}

fn some_policy(n: &mut Numbers) -> Arc<dyn Policy> {
    match n.below(3) {
        0 => Arc::new(StaticPriority),
        1 => Arc::new(some_ewma(n)),
        _ => Arc::new(MaliciousPolicy {
            index: if n.below(2) == 0 {
                n.below(9) as usize
            } else {
                usize::MAX - n.below(9) as usize
            },
        }),
    }
}

#[test]
fn private_never_routes_external() {
    let mut n = Numbers(1);
    for _ in 0..1024 {
        let backends = some_backends(&mut n);
        let q = some_query(&mut n);
        let policy = some_policy(&mut n);
        let router = Router::with_policy(backends, policy);
        match router.route(q.clone(), true) {
            Ok(b) => {
                assert_eq!(b.privacy, Privacy::Local);
                assert!(b.serves_model(&q.model));
                assert!(b.has_capability_tags(&q.required_tags));
            }
            Err(RouteError::NoEligibleBackend { privacy, .. }) => {
                assert_eq!(privacy, "private");
            }
        }
    }
}

#[test]
fn shareable_selection_is_always_eligible() {
    let mut n = Numbers(2);
    for _ in 0..1024 {
        let backends = some_backends(&mut n);
        let q = some_query(&mut n);
        let policy = some_policy(&mut n);
        let router = Router::with_policy(backends, policy);
        if let Ok(b) = router.route(q.clone(), false) {
            assert!(b.serves_model(&q.model));
            assert!(b.has_capability_tags(&q.required_tags));
        }
    }
}

#[test]
fn honest_policies_are_complete() {
    let mut n = Numbers(3);
    for _ in 0..1024 {
        let backends = some_backends(&mut n);
        let q = some_query(&mut n);
        let policy: Arc<dyn Policy> = if n.below(2) == 0 {
            Arc::new(StaticPriority)
        } else {
            Arc::new(some_ewma(&mut n))
        };
        let wanted: Vec<bool> = [false, true]
            .iter()
            .map(|private| {
                backends.iter().any(|b| {
                    (!private || b.privacy == Privacy::Local)
                        && b.serves_model(&q.model)
                        && b.has_capability_tags(&q.required_tags)
                })
            })
            .collect();
        let router = Router::with_policy(backends, policy);
        assert_eq!(router.route(q.clone(), false).is_ok(), wanted[0]);
        assert_eq!(router.route(q.clone(), true).is_ok(), wanted[1]);
    }
}

#[test]
fn a_private_key_keeps_its_traffic_local() {
    let store = KeyStore::from_virtual_keys(&[
        VirtualKey {
            name: "dev".to_string(),
            key: Secret::new("sk-dev"),
            enforce_private: true,
        },
        VirtualKey {
            name: "web".to_string(),
            key: Secret::new("sk-web"),
            enforce_private: false,
        },
    ]);
    let router = Router::with_policy(
        vec![
            backend("ext", Privacy::External, &["m"], &[]),
            backend("loc", Privacy::Local, &["m"], &[]),
        ],
        Arc::new(StaticPriority),
    );
    let served_by = |header: &str, marker: bool| -> String {
        let AuthedKey(id) = AuthedKey::from_request_parts(&store, Some(header)).unwrap();
        route_name(&router, id.enforce_private || marker)
    };
    assert_eq!(served_by("Bearer sk-dev", false), "loc");
    assert_eq!(served_by("Bearer sk-dev", true), "loc");
    assert_eq!(served_by("Bearer sk-web", false), "ext");
    assert_eq!(served_by("Bearer sk-web", true), "loc");
}
