//! Resolution and validation of configurations.
use patchbay::binary64;
use patchbay::config::resolve::{is_valid_base_url, is_valid_env_name};
use patchbay::config::{
    default_alpha, default_listen, ConfigError, EnvTable, GatewayConfig, PolicySelection, Privacy,
    RawBackend, RawConfig, RawPolicy, RawVirtualKey, Secret,
};
use std::cell::RefCell;

fn env(pairs: &[(&str, &str)]) -> EnvTable {
    let mut table = EnvTable::new();
    for (name, value) in pairs {
        table.set(name.to_string(), value.to_string());
    }
    table
}

fn text(table: &toml::Table, field: &str) -> String {
    table[field].as_str().unwrap().to_string()
}

fn texts(table: &toml::Table, field: &str) -> Vec<String> {
    match table.get(field) {
        None => Vec::new(),
        Some(list) => list
            .as_array()
            .unwrap()
            .iter()
            .map(|v| v.as_str().unwrap().to_string())
            .collect(),
    }
}

fn tables(table: &toml::Table, field: &str) -> Vec<toml::Table> {
    match table.get(field) {
        None => Vec::new(),
        Some(list) => list
            .as_array()
            .unwrap()
            .iter()
            .map(|v| v.as_table().unwrap().clone())
            .collect(),
    }
}

/// The raw configuration that a well-formed TOML text spells.
fn raw(source: &str) -> RawConfig {
    let root: toml::Table = toml::from_str(source).unwrap();
    RawConfig {
        listen: match root.get("listen") {
            Some(listen) => listen.as_str().unwrap().to_string(),
            None => default_listen(),
        },
        backends: tables(&root, "backends")
            .iter()
            .map(|b| RawBackend {
                name: text(b, "name"),
                base_url_env: text(b, "base_url_env"),
                api_key_env: b
                    .get("api_key_env")
                    .map(|v| v.as_str().unwrap().to_string()),
                models: texts(b, "models"),
                capability_tags: texts(b, "capability_tags"),
                privacy: match b["privacy"].as_str().unwrap() {
                    "local" => Privacy::Local,
                    "external" => Privacy::External,
                    other => panic!("no such placement: {other}"),
                },
            })
            .collect(),
        virtual_keys: tables(&root, "virtual_keys")
            .iter()
            .map(|k| RawVirtualKey {
                name: text(k, "name"),
                key_env: text(k, "key_env"),
                enforce_private: k
                    .get("enforce_private")
                    .map(|v| v.as_bool().unwrap())
                    .unwrap_or(false),
            })
            .collect(),
        policy: match root.get("policy").map(|p| p.as_table().unwrap()) {
            None => RawPolicy::default(),
            Some(p) => match p["kind"].as_str().unwrap() {
                "static_priority" => RawPolicy::StaticPriority,
                "ewma_latency" => RawPolicy::EwmaLatency {
                    alpha_bits: match p.get("alpha") {
                        Some(alpha) => alpha.as_float().unwrap().to_bits(),
                        None => default_alpha(),
                    },
                },
                other => panic!("no such policy: {other}"),
            },
        },
    }
}

fn resolve(source: &str, pairs: &[(&str, &str)]) -> Result<GatewayConfig, ConfigError> {
    GatewayConfig::from_raw(&raw(source), None, &env(pairs))
}

fn resolve_err(source: &str, pairs: &[(&str, &str)]) -> ConfigError {
    match resolve(source, pairs) {
        Ok(_) => panic!("the configuration resolves"),
        Err(e) => e,
    }
}

fn strings(list: &[&str]) -> Vec<String> {
    list.iter().map(|s| s.to_string()).collect()
}

const FULL: &str = r#"
    listen = "127.0.0.1:9000"

    [policy]
    kind = "ewma_latency"
    alpha = 0.5

    [[backends]]
    name = "local-llm"
    base_url_env = "LLM_BASE_URL"
    models = ["qwen-coder", "qwen-chat"]
    capability_tags = ["code", "fast"]
    privacy = "local"

    [[backends]]
    name = "openai"
    base_url_env = "OPENAI_BASE_URL"
    api_key_env = "OPENAI_API_KEY"
    models = ["gpt-4o"]
    capability_tags = ["general"]
    privacy = "external"

    [[virtual_keys]]
    name = "dev"
    key_env = "PATCHBAY_KEY_DEV"
    enforce_private = true
"#;

const FULL_ENV: &[(&str, &str)] = &[
    ("LLM_BASE_URL", "http://127.0.0.1:8000/"),
    ("OPENAI_BASE_URL", "https://api.example.com"),
    ("OPENAI_API_KEY", "test-key-abc"),
    ("PATCHBAY_KEY_DEV", "vk-dev-123"),
];

#[test]
fn full_config_parses_and_resolves() {
    let cfg = resolve(FULL, FULL_ENV).ok().unwrap();
    assert_eq!(cfg.listen, "127.0.0.1:9000");
    assert_eq!(cfg.backends.len(), 2);

    let local = &cfg.backends[0];
    assert_eq!(local.name, "local-llm");
    // trailing slash normalized away
    assert_eq!(local.base_url, "http://127.0.0.1:8000");
    assert!(local.api_key.is_none());
    assert_eq!(local.privacy, Privacy::Local);
    assert!(local.serves_model("qwen-coder"));
    assert!(!local.serves_model("gpt-4o"));
    assert!(local.has_capability_tags(&strings(&["code"])));
    assert!(local.has_capability_tags(&strings(&["code", "fast"])));
    assert!(!local.has_capability_tags(&strings(&["code", "general"])));

    let ext = &cfg.backends[1];
    assert_eq!(ext.privacy, Privacy::External);
    assert_eq!(ext.api_key.as_ref().unwrap().expose(), "test-key-abc");

    assert_eq!(cfg.virtual_keys.len(), 1);
    assert!(cfg.virtual_keys[0].enforce_private);
    assert_eq!(cfg.virtual_keys[0].key.expose(), "vk-dev-123");

    assert_eq!(
        cfg.policy,
        PolicySelection::EwmaLatency {
            alpha_bits: 0.5f64.to_bits()
        }
    );
}

#[test]
fn policy_defaults_to_static_priority() {
    let toml = r#"
        [[backends]]
        name = "b"
        base_url_env = "LLM_BASE_URL"
        models = ["m"]
        privacy = "local"
    "#;
    let cfg = resolve(toml, &[("LLM_BASE_URL", "http://x")]).ok().unwrap();
    assert_eq!(cfg.policy, PolicySelection::StaticPriority);
    assert!(cfg.virtual_keys.is_empty());
}

#[test]
fn missing_backend_env_is_an_error() {
    let err = resolve_err(FULL, &[]);
    assert!(matches!(
        err,
        ConfigError::MissingEnv { ref var, .. } if var == "LLM_BASE_URL"
    ));
}

#[test]
fn no_backends_is_an_error() {
    let err = resolve_err("listen = \"0.0.0.0:1\"", &[]);
    assert!(matches!(err, ConfigError::NoBackends));
}

#[test]
fn duplicate_backend_names_rejected() {
    let toml = r#"
        [[backends]]
        name = "b"
        base_url_env = "LLM_BASE_URL"
        models = ["m"]
        privacy = "local"

        [[backends]]
        name = "b"
        base_url_env = "LLM_BASE_URL"
        models = ["m"]
        privacy = "external"
    "#;
    let err = resolve_err(toml, &[("LLM_BASE_URL", "http://x")]);
    assert!(matches!(err, ConfigError::DuplicateBackend(ref n) if n == "b"));
}

#[test]
fn non_http_base_url_rejected() {
    let toml = r#"
        [[backends]]
        name = "b"
        base_url_env = "LLM_BASE_URL"
        models = ["m"]
        privacy = "local"
    "#;
    let err = resolve_err(toml, &[("LLM_BASE_URL", "ftp://x")]);
    assert!(matches!(err, ConfigError::InvalidBaseUrl { .. }));
}

#[test]
fn empty_models_rejected() {
    let toml = r#"
        [[backends]]
        name = "b"
        base_url_env = "LLM_BASE_URL"
        models = []
        privacy = "local"
    "#;
    let err = resolve_err(toml, &[("LLM_BASE_URL", "http://x")]);
    assert!(matches!(err, ConfigError::NoModels(_)));
}

#[test]
fn invalid_env_var_name_rejected() {
    let toml = r#"
        [[backends]]
        name = "b"
        base_url_env = "9BAD NAME"
        models = ["m"]
        privacy = "local"
    "#;
    let err = resolve_err(toml, &[]);
    assert!(matches!(
        err,
        ConfigError::InvalidEnvName {
            field: "base_url_env",
            ..
        }
    ));
}

#[test]
fn alpha_out_of_range_rejected() {
    for alpha in ["0.0", "1.5", "-0.2"] {
        let toml = format!(
            r#"
            [policy]
            kind = "ewma_latency"
            alpha = {alpha}

            [[backends]]
            name = "b"
            base_url_env = "LLM_BASE_URL"
            models = ["m"]
            privacy = "local"
        "#
        );
        let err = resolve_err(&toml, &[("LLM_BASE_URL", "http://x")]);
        assert!(matches!(err, ConfigError::InvalidAlpha(_)), "alpha={alpha}");
    }
}

#[test]
fn duplicate_virtual_key_secrets_rejected() {
    let toml = r#"
        [[backends]]
        name = "b"
        base_url_env = "LLM_BASE_URL"
        models = ["m"]
        privacy = "local"

        [[virtual_keys]]
        name = "a"
        key_env = "KEY_A"

        [[virtual_keys]]
        name = "b"
        key_env = "KEY_B"
    "#;
    let err = resolve_err(
        toml,
        &[
            ("LLM_BASE_URL", "http://x"),
            ("KEY_A", "same-secret"),
            ("KEY_B", "same-secret"),
        ],
    );
    assert!(matches!(err, ConfigError::DuplicateVirtualKeySecret(..)));
}

#[test]
fn secret_debug_is_redacted() {
    let s = Secret::new("super-sensitive");
    assert_eq!(s.fmt(), "Secret(<redacted>)");
}

#[test]
fn secrets_compare_and_copy_by_value() {
    let s = Secret::new("abc");
    assert!(s.clone() == s);
    assert!(Secret::new("abd") != s);
    assert_eq!(s.clone().expose(), "abc");
}

fn backend() -> RawBackend {
    RawBackend {
        name: "b".to_string(),
        base_url_env: "URL".to_string(),
        api_key_env: None,
        models: strings(&["m"]),
        capability_tags: Vec::new(),
        privacy: Privacy::Local,
    }
}

fn key(name: &str, var: &str) -> RawVirtualKey {
    RawVirtualKey {
        name: name.to_string(),
        key_env: var.to_string(),
        enforce_private: false,
    }
}

fn config(backends: Vec<RawBackend>, virtual_keys: Vec<RawVirtualKey>) -> RawConfig {
    RawConfig {
        listen: default_listen(),
        backends,
        virtual_keys,
        policy: RawPolicy::default(),
    }
}

fn error_of(raw: &RawConfig, pairs: &[(&str, &str)]) -> ConfigError {
    match GatewayConfig::from_raw(raw, None, &env(pairs)) {
        Ok(_) => panic!("the configuration resolves"),
        Err(e) => e,
    }
}

const URL: (&str, &str) = ("URL", "http://x");

#[test]
fn bad_listen_address_is_reported_first() {
    let mut raw = config(Vec::new(), Vec::new());
    raw.listen = "nowhere".to_string();
    let source = Some("invalid socket address syntax".to_string());
    match GatewayConfig::from_raw(&raw, source, &env(&[])) {
        Err(ConfigError::InvalidListen { addr, source }) => {
            assert_eq!(addr, "nowhere");
            assert_eq!(source, "invalid socket address syntax");
        }
        _ => panic!("no InvalidListen"),
    }
}

#[test]
fn each_backend_error_names_the_backend() {
    let mut b = backend();
    b.name = String::new();
    let err = error_of(&config(vec![b], Vec::new()), &[URL]);
    assert!(matches!(err, ConfigError::EmptyBackendName));

    let mut b = backend();
    b.base_url_env = "1URL".to_string();
    let err = error_of(&config(vec![b], Vec::new()), &[URL]);
    assert!(matches!(
        err,
        ConfigError::InvalidEnvName { ref name, field: "base_url_env", ref value }
            if name == "b" && value == "1URL"
    ));

    let err = error_of(&config(vec![backend()], Vec::new()), &[]);
    assert!(matches!(
        err,
        ConfigError::MissingEnv { ref name, field: "base_url_env", ref var }
            if name == "b" && var == "URL"
    ));

    let err = error_of(&config(vec![backend()], Vec::new()), &[("URL", "HTTP://x")]);
    assert!(matches!(
        err,
        ConfigError::InvalidBaseUrl { ref name, ref url } if name == "b" && url == "HTTP://x"
    ));

    let mut b = backend();
    b.api_key_env = Some("A-B".to_string());
    let err = error_of(&config(vec![b], Vec::new()), &[URL]);
    assert!(matches!(
        err,
        ConfigError::InvalidEnvName { field: "api_key_env", ref value, .. } if value == "A-B"
    ));

    let mut b = backend();
    b.api_key_env = Some("API_KEY".to_string());
    let err = error_of(&config(vec![b], Vec::new()), &[URL]);
    assert!(matches!(
        err,
        ConfigError::MissingEnv { field: "api_key_env", ref var, .. } if var == "API_KEY"
    ));

    let mut b = backend();
    b.models = Vec::new();
    let err = error_of(&config(vec![b], Vec::new()), &[URL]);
    assert!(matches!(err, ConfigError::NoModels(ref n) if n == "b"));

    let mut b = backend();
    b.models = strings(&["m", ""]);
    let err = error_of(&config(vec![b], Vec::new()), &[URL]);
    assert!(matches!(
        err,
        ConfigError::EmptyEntry { ref name, field: "models" } if name == "b"
    ));

    let mut b = backend();
    b.capability_tags = strings(&["", "code"]);
    let err = error_of(&config(vec![b], Vec::new()), &[URL]);
    assert!(matches!(
        err,
        ConfigError::EmptyEntry { field: "capability_tags", .. }
    ));
}

#[test]
fn each_key_error_names_the_key() {
    let with = |keys: Vec<RawVirtualKey>| config(vec![backend()], keys);

    let err = error_of(&with(vec![key("", "K")]), &[URL, ("K", "s")]);
    assert!(matches!(err, ConfigError::EmptyVirtualKeyName));

    let err = error_of(
        &with(vec![key("k", "K"), key("k", "L")]),
        &[URL, ("K", "s"), ("L", "t")],
    );
    assert!(matches!(err, ConfigError::DuplicateVirtualKey(ref n) if n == "k"));

    let err = error_of(&with(vec![key("k", "K K")]), &[URL]);
    assert!(matches!(
        err,
        ConfigError::InvalidKeyEnvName { ref name, ref value } if name == "k" && value == "K K"
    ));

    let err = error_of(&with(vec![key("k", "K")]), &[URL]);
    assert!(matches!(
        err,
        ConfigError::MissingKeyEnv { ref name, ref var } if name == "k" && var == "K"
    ));

    let err = error_of(&with(vec![key("k", "K")]), &[URL, ("K", "")]);
    assert!(matches!(err, ConfigError::EmptyVirtualKey(ref n) if n == "k"));

    let err = error_of(
        &with(vec![key("one", "K"), key("two", "L"), key("three", "M")]),
        &[URL, ("K", "s"), ("L", "t"), ("M", "s")],
    );
    assert!(matches!(
        err,
        ConfigError::DuplicateVirtualKeySecret(ref a, ref b) if a == "one" && b == "three"
    ));
}

#[test]
fn invalid_alpha_carries_its_bits() {
    let mut raw = config(vec![backend()], Vec::new());
    for alpha in [0.0, -0.0, 1.0000000000000002, f64::INFINITY, f64::NAN, -1.0] {
        raw.policy = RawPolicy::EwmaLatency {
            alpha_bits: f64::to_bits(alpha),
        };
        let err = error_of(&raw, &[URL]);
        assert!(matches!(err, ConfigError::InvalidAlpha(bits) if bits == f64::to_bits(alpha)));
    }
    for alpha in [f64::MIN_POSITIVE, 5e-324, 0.3, 1.0] {
        raw.policy = RawPolicy::EwmaLatency {
            alpha_bits: f64::to_bits(alpha),
        };
        let cfg = GatewayConfig::from_raw(&raw, None, &env(&[URL])).ok().unwrap();
        assert_eq!(
            cfg.policy,
            PolicySelection::EwmaLatency {
                alpha_bits: f64::to_bits(alpha)
            }
        );
    }
}

#[test]
fn the_first_broken_rule_decides() {
    // The second backend breaks a rule, and so does a key: the backend is met
    // first.
    let mut second = backend();
    second.name = "c".to_string();
    second.models = Vec::new();
    let err = error_of(
        &config(vec![backend(), second], vec![key("", "K")]),
        &[URL],
    );
    assert!(matches!(err, ConfigError::NoModels(ref n) if n == "c"));
}

#[test]
fn an_empty_api_key_is_kept() {
    let mut b = backend();
    b.api_key_env = Some("API_KEY".to_string());
    let cfg = GatewayConfig::from_raw(
        &config(vec![b], Vec::new()),
        None,
        &env(&[URL, ("API_KEY", "")]),
    )
    .ok()
    .unwrap();
    assert_eq!(cfg.backends[0].api_key.as_ref().unwrap().expose(), "");
}

#[test]
fn malformed_base_urls_are_rejected() {
    for url in [
        "http://", "https://", "http:///", "http:///v1", "https://?q", "http://#f", "http:/x",
        "http://:80", "http://@", "http://@x@:80/y", "http://user@", "https://u:p@/v1", "http://:",
        "http:", "http", "", "x", "ftp://x", "HTTP://x", " http://x", "httpss://x",
    ] {
        let err = error_of(&config(vec![backend()], Vec::new()), &[("URL", url)]);
        assert!(
            matches!(err, ConfigError::InvalidBaseUrl { ref name, url: ref u } if name == "b" && u == url),
            "{url}"
        );
        assert!(!is_valid_base_url(url), "{url}");
    }
    for url in [
        "http://x", "https://x", "http://x:80", "http://[::1]:8000/", "https://a.b/c?d",
        "http://u:p@x", "http://x/@", "http://x?:@", "http://a@b@c:1#d",
    ] {
        assert!(is_valid_base_url(url), "{url}");
    }
}

#[test]
fn variables_are_asked_for_once_per_reference() {
    let asked = RefCell::new(Vec::new());
    let table = env(FULL_ENV);
    let lookup = |var: &str| {
        asked.borrow_mut().push(var.to_string());
        table.get(var)
    };
    let cfg = GatewayConfig::from_raw_env(&raw(FULL), None, &lookup).ok().unwrap();
    assert_eq!(
        asked.into_inner(),
        strings(&["LLM_BASE_URL", "OPENAI_BASE_URL", "OPENAI_API_KEY", "PATCHBAY_KEY_DEV"])
    );
    let whole = resolve(FULL, FULL_ENV).ok().unwrap();
    assert_eq!(cfg.backends[0].base_url, whole.backends[0].base_url);
    assert_eq!(cfg.backends[1].base_url, whole.backends[1].base_url);
    assert!(cfg.backends[1].api_key == whole.backends[1].api_key);
    assert!(cfg.virtual_keys[0].key == whole.virtual_keys[0].key);
}

/// Resolve with an environment whose `n`-th answer to a name is the `n`-th in
/// the list, and say what was asked.
fn ask_in_turn(
    raw: &RawConfig,
    listen_error: Option<&str>,
    replies: &[(&str, &str)],
) -> (Result<GatewayConfig, ConfigError>, Vec<String>) {
    let asked: RefCell<Vec<String>> = RefCell::new(Vec::new());
    let lookup = |var: &str| {
        let before = asked.borrow().iter().filter(|v| *v == var).count();
        asked.borrow_mut().push(var.to_string());
        replies
            .iter()
            .filter(|(name, _)| *name == var)
            .nth(before)
            .map(|(_, value)| value.to_string())
    };
    let r = GatewayConfig::from_raw_env(raw, listen_error.map(|s| s.to_string()), &lookup);
    (r, asked.into_inner())
}

#[test]
fn each_reference_keeps_its_own_answer() {
    let mut second = backend();
    second.name = "c".to_string();
    second.api_key_env = Some("URL".to_string());
    let (cfg, asked) = ask_in_turn(
        &config(vec![backend(), second], vec![key("k", "URL")]),
        None,
        &[("URL", "http://a"), ("URL", "http://b"), ("URL", "s3"), ("URL", "s4")],
    );
    let cfg = cfg.ok().unwrap();
    assert_eq!(cfg.backends[0].base_url, "http://a");
    assert_eq!(cfg.backends[1].base_url, "http://b");
    assert_eq!(cfg.backends[1].api_key.as_ref().unwrap().expose(), "s3");
    assert_eq!(cfg.virtual_keys[0].key.expose(), "s4");
    assert_eq!(asked, strings(&["URL", "URL", "URL", "URL"]));
}

#[test]
fn nothing_is_asked_after_the_first_error() {
    let all = [("URL", "http://a"), ("K", "s"), ("L", "t"), ("API", "p"), ("U2", "ftp://x")];
    let names = |raw: &RawConfig, listen_error: Option<&str>| -> Vec<String> {
        let (r, asked) = ask_in_turn(raw, listen_error, &all);
        assert!(r.is_err());
        asked
    };
    let keys = || vec![key("k", "K"), key("l", "L")];

    assert_eq!(names(&config(vec![backend()], keys()), Some("bad")), strings(&[]));
    assert_eq!(names(&config(Vec::new(), keys()), None), strings(&[]));

    // A URL that is not set, or not well-formed, ends it before the API key.
    for var in ["UNSET", "U2"] {
        let mut b = backend();
        b.base_url_env = var.to_string();
        b.api_key_env = Some("API".to_string());
        assert_eq!(names(&config(vec![b, backend()], keys()), None), strings(&[var]));
    }

    // Names that are not valid are never asked for.
    let mut b = backend();
    b.api_key_env = Some("A B".to_string());
    assert_eq!(names(&config(vec![b], keys()), None), strings(&["URL"]));
    assert_eq!(
        names(&config(vec![backend()], vec![key("k", "9"), key("l", "L")]), None),
        strings(&["URL"])
    );

    // An entry that fails after its lookups was asked about all the same.
    let mut b = backend();
    b.api_key_env = Some("API".to_string());
    b.models = Vec::new();
    assert_eq!(names(&config(vec![b], keys()), None), strings(&["URL", "API"]));
    assert_eq!(
        names(
            &config(vec![backend()], vec![key("k", "UNSET"), key("l", "L")]),
            None
        ),
        strings(&["URL", "UNSET"])
    );

    // The policy is looked at last.
    let mut raw = config(vec![backend()], keys());
    raw.policy = RawPolicy::EwmaLatency { alpha_bits: 0 };
    let (r, asked) = ask_in_turn(&raw, None, &all);
    assert!(matches!(r, Err(ConfigError::InvalidAlpha(0))));
    assert_eq!(asked, strings(&["URL", "K", "L"]));
}

#[test]
fn a_copy_of_a_configuration_says_the_same() {
    let cfg = resolve(FULL, FULL_ENV).ok().unwrap();
    let copy = cfg.clone();
    assert_eq!(copy.listen, cfg.listen);
    assert_eq!(copy.backends.len(), 2);
    assert_eq!(copy.backends[0].models, cfg.backends[0].models);
    assert_eq!(copy.backends[1].name, "openai");
    assert_eq!(copy.virtual_keys.len(), 1);
    assert!(copy.virtual_keys[0].key == cfg.virtual_keys[0].key);
    assert_eq!(copy.policy, cfg.policy);
}

#[test]
fn every_trailing_slash_is_cut() {
    for (given, kept) in [
        ("http://x", "http://x"),
        ("http://x/", "http://x"),
        ("http://x///", "http://x"),
        ("http://x/v1/", "http://x/v1"),
        ("https://host:8443//", "https://host:8443"),
        ("http://x?q=1/", "http://x?q=1"),
    ] {
        let raw = config(vec![backend()], Vec::new());
        let cfg = GatewayConfig::from_raw(&raw, None, &env(&[("URL", given)]))
            .ok()
            .unwrap();
        assert_eq!(cfg.backends[0].base_url, kept);
    }
}

#[test]
fn variables_that_are_not_named_do_not_matter() {
    let raw = config(vec![backend()], vec![key("k", "K")]);
    let few = GatewayConfig::from_raw(&raw, None, &env(&[URL, ("K", "s")]))
        .ok()
        .unwrap();
    let many = GatewayConfig::from_raw(
        &raw,
        None,
        &env(&[("OTHER", "1"), URL, ("K", "s"), ("k", "2"), ("URL2", "3")]),
    )
    .ok()
    .unwrap();
    assert_eq!(few.backends[0].base_url, many.backends[0].base_url);
    assert!(few.virtual_keys[0].key == many.virtual_keys[0].key);
}

#[test]
fn later_settings_of_a_variable_win() {
    let mut table = env(&[("A", "1")]);
    assert_eq!(table.get("A"), Some("1".to_string()));
    table.set("A".to_string(), "2".to_string());
    assert_eq!(table.get("A"), Some("2".to_string()));
    assert_eq!(table.get("a"), None);
}

#[test]
fn env_names_are_posix_like() {
    for name in ["A", "_", "a1", "LLM_BASE_URL", "_9"] {
        assert!(is_valid_env_name(name), "{name}");
    }
    for name in ["", "9", "1A", "A-B", "A B", "A=", "\u{c4}", "A\u{e9}"] {
        assert!(!is_valid_env_name(name), "{name}");
    }
}

#[test]
fn defaults_are_as_documented() {
    assert_eq!(default_listen(), "0.0.0.0:8080");
    assert_eq!(default_alpha(), 0.3f64.to_bits());
    assert_eq!(RawPolicy::default(), RawPolicy::StaticPriority);
}

#[test]
fn copies_of_entries_say_the_same() {
    let cfg = resolve(FULL, FULL_ENV).ok().unwrap();
    let b = cfg.backends[1].clone();
    assert_eq!(b.name, "openai");
    assert_eq!(b.base_url, "https://api.example.com");
    assert_eq!(b.api_key.as_ref().unwrap().expose(), "test-key-abc");
    assert_eq!(b.models, strings(&["gpt-4o"]));
    assert_eq!(b.capability_tags, strings(&["general"]));
    let k = cfg.virtual_keys[0].clone();
    assert_eq!(k.name, "dev");
    assert_eq!(k.key.expose(), "vk-dev-123");
    assert!(k.enforce_private);
}

#[test]
fn bit_patterns_follow_the_numbers() {
    let numbers = [
        f64::NEG_INFINITY,
        -1.5,
        -5e-324,
        -0.0,
        0.0,
        5e-324,
        0.3,
        1.0,
        1.5,
        f64::INFINITY,
        f64::NAN,
    ];
    for a in numbers {
        let bits = a.to_bits();
        assert_eq!(binary64::check_finite(bits), a.is_finite(), "{a}");
        assert_eq!(
            binary64::check_unit_interval(bits),
            a > 0.0 && a <= 1.0,
            "{a}"
        );
        for b in numbers {
            assert_eq!(
                binary64::precedes(bits, b.to_bits()),
                a.total_cmp(&b).is_lt(),
                "{a} {b}"
            );
        }
    }
    assert_eq!(binary64::ZERO, 0.0f64.to_bits());
    assert_eq!(binary64::ONE, 1.0f64.to_bits());
}
