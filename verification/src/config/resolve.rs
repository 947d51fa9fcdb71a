//! Resolution and validation of a raw configuration.
use super::laws;
use super::model;
use super::{
    Backend, BackendView, ConfigError, ConfigErrorView, EnvTable, GatewayConfig, PolicySelection,
    RawBackend, RawBackendView, RawConfig, RawPolicy, RawVirtualKey, RawVirtualKeyView, Secret,
    VirtualKey, VirtualKeyView,
};
use crate::binary64;
use crate::text;
use vstd::hash_map::StringHashMap;
use vstd::hash_set::StringHashSet;
use vstd::prelude::*;

verus! {

/// What a resolution step says.
pub open spec fn outcome<T: View>(r: Result<T, ConfigError>) -> Result<T::V, ConfigErrorView> {
    match r {
        Ok(value) => Ok(value@),
        Err(e) => Err(e@),
    }
}

/// What resolved backends say, backend by backend.
pub open spec fn backend_views(backends: Seq<Backend>) -> Seq<BackendView> {
    backends.map_values(|b: Backend| b@)
}

/// What resolved virtual keys say, key by key.
pub open spec fn key_views(keys: Seq<VirtualKey>) -> Seq<VirtualKeyView> {
    keys.map_values(|k: VirtualKey| k@)
}

/// What backend entries say, entry by entry.
pub open spec fn raw_backend_views(raws: Seq<RawBackend>) -> Seq<RawBackendView> {
    raws.map_values(|b: RawBackend| b@)
}

/// What virtual-key entries say, entry by entry.
pub open spec fn raw_key_views(raws: Seq<RawVirtualKey>) -> Seq<RawVirtualKeyView> {
    raws.map_values(|k: RawVirtualKey| k@)
}

/// POSIX-ish env var name: `[A-Za-z_][A-Za-z0-9_]*`.
pub fn is_valid_env_name(name: &str) -> (r: bool)
    ensures
        r == model::is_env_name(name@),
{
    let chars = text::chars_of(name);
    if chars.len() == 0 {
        return false;
    }
    let first = chars[0];
    if !(('a' <= first && first <= 'z') || ('A' <= first && first <= 'Z') || first == '_') {
        return false;
    }
    for i in 0..chars.len()
        invariant
            chars@ == name@,
            forall|k: int| 0 <= k < i ==> model::continues_env_name(#[trigger] name@[k]),
    {
        let c = chars[i];
        if !(('a' <= c && c <= 'z') || ('A' <= c && c <= 'Z') || ('0' <= c && c <= '9') || c
            == '_') {
            assert(!model::continues_env_name(name@[i as int]));
            return false;
        }
    }
    true
}

/// What a text that may be missing says.
pub open spec fn text_view(text: Option<String>) -> Option<Seq<char>> {
    match text {
        Some(value) => Some(value@),
        None => None,
    }
}

/// `env` may answer `answer` when asked for `name`.
pub open spec fn answers_as<F: Fn(&str) -> Option<String>>(
    env: F,
    name: Seq<char>,
    answer: Option<Seq<char>>,
) -> bool {
    exists|asked: &str, given: Option<String>|
        asked@ == name && text_view(given) == answer && #[trigger] call_ensures(
            env,
            (asked,),
            given,
        )
}

/// `answers` is what `env` says of as many of the names, from the first on, each
/// asked for once, in order.
pub open spec fn answered<F: Fn(&str) -> Option<String>>(
    env: F,
    names: Seq<Seq<char>>,
    answers: Seq<Option<Seq<char>>>,
) -> bool {
    &&& answers.len() <= names.len()
    &&& forall|i: int|
        0 <= i < answers.len() ==> answers_as(env, names[i], #[trigger] answers[i])
}

/// Ask the environment for a variable.
fn ask<F: Fn(&str) -> Option<String>>(env: &F, var: &String) -> (r: Option<String>)
    requires
        forall|name: &str| #[trigger] call_requires(*env, (name,)),
    ensures
        answers_as(*env, var@, text_view(r)),
{
    env(var.as_str())
}

/// Whether what follows the scheme of a URL names a host.
fn names_host(rest: &str) -> (r: bool)
    ensures
        r == model::has_host(rest@),
{
    let chars = text::chars_of(rest);
    let mut end: usize = 0;
    while end < chars.len() && chars[end] != '/' && chars[end] != '?' && chars[end] != '#'
        invariant
            chars@ == rest@,
            end <= chars@.len(),
            forall|i: int| 0 <= i < end ==> !model::ends_authority(#[trigger] rest@[i]),
        decreases chars@.len() - end,
    {
        end = end + 1;
    }
    let mut start: usize = end;
    while start > 0 && chars[start - 1] != '@'
        invariant
            chars@ == rest@,
            start <= end <= chars@.len(),
            forall|i: int| start <= i < end ==> #[trigger] rest@[i] != '@',
        decreases start,
    {
        start = start - 1;
    }
    assert(model::is_authority_end(rest@, end as int));
    assert(model::is_host_start(rest@, start as int, end as int));
    let r = start < end && chars[start] != ':';
    assert(model::has_host(rest@) ==> r) by {
        if model::has_host(rest@) {
            let (s, e) = choose|s: int, e: int| #[trigger]
                model::is_host_start(rest@, s, e) && model::is_authority_end(rest@, e) && s < e
                    && rest@[s] != ':';
            assert(e == end) by {
                if e < end {
                    assert(model::ends_authority(rest@[e]));
                } else if end < e {
                    assert(model::ends_authority(rest@[end as int]));
                }
            }
            assert(s == start) by {
                if s < start {
                    assert(rest@[start - 1] == '@');
                } else if start < s {
                    assert(rest@[s - 1] == '@');
                }
            }
        }
    }
    r
}

/// Whether a URL is `scheme` followed by a host.
fn has_scheme_and_host(url: &str, scheme: &str) -> (r: bool)
    ensures
        r == model::is_url_of(url@, scheme@),
{
    match text::strip_prefix(url, scheme) {
        None => false,
        Some(rest) => names_host(rest.as_str()),
    }
}

/// Whether a base URL starts with `http://` or `https://` and names a host.
pub fn is_valid_base_url(url: &str) -> (r: bool)
    ensures
        r == model::is_http_url(url@),
{
    has_scheme_and_host(url, "http://") || has_scheme_and_host(url, "https://")
}

/// Whether one of the strings is empty.
fn any_empty(list: &Vec<String>) -> (r: bool)
    ensures
        r == model::has_empty(text::texts(list@)),
{
    for i in 0..list.len()
        invariant
            forall|k: int| 0 <= k < i ==> (#[trigger] text::texts(list@)[k]).len() != 0,
    {
        if list[i].as_str().is_empty() {
            assert(text::texts(list@)[i as int].len() == 0);
            return true;
        }
    }
    false
}

/// Resolve one backend entry. `taken` says whether an earlier entry bears its
/// name. The second result is what the environment was asked and said.
fn resolve_backend<F: Fn(&str) -> Option<String>>(
    raw: &RawBackend,
    taken: bool,
    Ghost(earlier): Ghost<Seq<RawBackendView>>,
    env: &F,
) -> (r: (Result<Backend, ConfigError>, Ghost<Seq<Option<Seq<char>>>>))
    requires
        forall|name: &str| #[trigger] call_requires(*env, (name,)),
        taken == model::names_backend(earlier, raw@.name),
    ensures
        r.1@.len() == model::asked_by_backend(raw@, earlier, r.1@[0]),
        r.1@.len() >= 1 ==> answers_as(*env, raw@.base_url_env, r.1@[0]),
        r.1@.len() >= 2 ==> answers_as(*env, raw@.api_key_env->0, r.1@[1]),
        outcome(r.0) == model::resolved_backend(raw@, earlier, r.1@[0], r.1@[1]),
{
    let ghost mut given: Seq<Option<Seq<char>>> = Seq::empty();
    if raw.name.as_str().is_empty() {
        return (Err(ConfigError::EmptyBackendName), Ghost(given));
    }
    if taken {
        return (Err(ConfigError::DuplicateBackend(raw.name.clone())), Ghost(given));
    }
    if !is_valid_env_name(raw.base_url_env.as_str()) {
        return (
            Err(
                ConfigError::InvalidEnvName {
                    name: raw.name.clone(),
                    field: "base_url_env",
                    value: raw.base_url_env.clone(),
                },
            ),
            Ghost(given),
        );
    }
    let url = ask(env, &raw.base_url_env);
    proof {
        given = seq![text_view(url)];
    }
    let base_url = match url {
        None => {
            return (
                Err(
                    ConfigError::MissingEnv {
                        name: raw.name.clone(),
                        field: "base_url_env",
                        var: raw.base_url_env.clone(),
                    },
                ),
                Ghost(given),
            );
        },
        Some(base_url) => base_url,
    };
    if !is_valid_base_url(base_url.as_str()) {
        return (
            Err(ConfigError::InvalidBaseUrl { name: raw.name.clone(), url: base_url }),
            Ghost(given),
        );
    }
    let api_key = match &raw.api_key_env {
        None => None,
        Some(var) => {
            if !is_valid_env_name(var.as_str()) {
                return (
                    Err(
                        ConfigError::InvalidEnvName {
                            name: raw.name.clone(),
                            field: "api_key_env",
                            value: var.clone(),
                        },
                    ),
                    Ghost(given),
                );
            }
            let key = ask(env, var);
            proof {
                given = given.push(text_view(key));
            }
            match key {
                None => {
                    return (
                        Err(
                            ConfigError::MissingEnv {
                                name: raw.name.clone(),
                                field: "api_key_env",
                                var: var.clone(),
                            },
                        ),
                        Ghost(given),
                    );
                },
                Some(key) => Some(Secret::new(key.as_str())),
            }
        },
    };
    if raw.models.len() == 0 {
        return (Err(ConfigError::NoModels(raw.name.clone())), Ghost(given));
    }
    if any_empty(&raw.models) {
        return (
            Err(ConfigError::EmptyEntry { name: raw.name.clone(), field: "models" }),
            Ghost(given),
        );
    }
    if any_empty(&raw.capability_tags) {
        return (
            Err(ConfigError::EmptyEntry { name: raw.name.clone(), field: "capability_tags" }),
            Ghost(given),
        );
    }
    let backend = Backend {
        name: raw.name.clone(),
        base_url: text::trim_end_matches(base_url.as_str(), '/'),
        api_key,
        models: text::copy_strings(raw.models.as_slice()),
        capability_tags: text::copy_strings(raw.capability_tags.as_slice()),
        privacy: raw.privacy,
    };
    (Ok(backend), Ghost(given))
}

/// Resolve the backend entries, in order. The second result is what the
/// environment was asked and said.
fn resolve_backends<F: Fn(&str) -> Option<String>>(raws: &Vec<RawBackend>, env: &F) -> (r: (
    Result<Vec<Backend>, ConfigError>,
    Ghost<Seq<Option<Seq<char>>>>,
))
    requires
        forall|name: &str| #[trigger] call_requires(*env, (name,)),
    ensures
        r.1@.len() == model::asked_by_backends(raw_backend_views(raws@), r.1@),
        answered(*env, model::backend_references(raw_backend_views(raws@)), r.1@),
        match r.0 {
            Ok(backends) => model::resolved_backends(raw_backend_views(raws@), r.1@) == Ok::<
                Seq<BackendView>,
                ConfigErrorView,
            >(backend_views(backends@)),
            Err(e) => model::resolved_backends(raw_backend_views(raws@), r.1@) == Err::<
                Seq<BackendView>,
                ConfigErrorView,
            >(e@),
        },
{
    let ghost entries = raw_backend_views(raws@);
    let ghost refs = model::backend_references(entries);
    let ghost mut given: Seq<Option<Seq<char>>> = Seq::empty();
    let mut names = StringHashSet::new();
    let mut done: Vec<Backend> = Vec::new();
    assert(backend_views(done@) == Seq::<BackendView>::empty());
    for i in 0..raws.len()
        invariant
            forall|name: &str| #[trigger] call_requires(*env, (name,)),
            entries == raw_backend_views(raws@),
            refs == model::backend_references(entries),
            forall|name: Seq<char>|
                #[trigger] names@.contains(name) <==> model::names_backend(
                    entries.take(i as int),
                    name,
                ),
            given.len() == model::backend_references(entries.take(i as int)).len(),
            given.len() == model::asked_by_backends(entries.take(i as int), given),
            answered(*env, refs, given),
            model::resolved_backends(entries.take(i as int), given) == Ok::<
                Seq<BackendView>,
                ConfigErrorView,
            >(backend_views(done@)),
    {
        let raw = &raws[i];
        let ghost earlier = entries.take(i as int);
        let ghost upto = entries.take(i + 1);
        let ghost old_names = names@;
        let taken = !names.insert(raw.name.clone());
        assert(upto.drop_last() == earlier);
        assert(upto.last() == raw@);
        assert forall|name: Seq<char>| #[trigger] names@.contains(name) <==> model::names_backend(
            upto,
            name,
        ) by {
            assert(names@.contains(name) <==> old_names.contains(name) || name == raw@.name);
            if model::names_backend(earlier, name) {
                let k = choose|k: int| 0 <= k < earlier.len() && earlier[k].name == name;
                assert(upto[k].name == name);
            }
            if name == raw@.name {
                assert(upto[i as int].name == name);
            }
            if model::names_backend(upto, name) {
                let k = choose|k: int| 0 <= k < upto.len() && upto[k].name == name;
                if k < i {
                    assert(earlier[k].name == name);
                }
            }
        }
        let (resolved, Ghost(more)) = resolve_backend(raw, taken, Ghost(earlier), env);
        proof {
            let at = given.len() as int;
            let now = given + more;
            laws::lemma_backend_reference_at(entries, i as int);
            laws::lemma_backends_read_asked(earlier, given, now);
            laws::lemma_backend_reads_asked(raw@, earlier, more[0], more[1], now[at], now[at + 1]);
            assert forall|k: int| 0 <= k < now.len() implies answers_as(
                *env,
                refs[k],
                #[trigger] now[k],
            ) by {
                if k < at {
                    assert(now[k] == given[k]);
                } else {
                    assert(now[k] == more[k - at]);
                }
            }
            given = now;
        }
        match resolved {
            Err(e) => {
                proof {
                    lemma_backends_stop(entries, i + 1, given);
                }
                return (Err(e), Ghost(given));
            },
            Ok(backend) => {
                let ghost before = backend_views(done@);
                done.push(backend);
                assert(backend_views(done@) == before.push(backend@));
            },
        }
    }
    assert(entries.take(raws@.len() as int) == entries);
    (Ok(done), Ghost(given))
}

/// An error met while resolving the first `n` entries is the error of the whole,
/// and nothing is asked after it.
pub proof fn lemma_backends_stop(
    entries: Seq<RawBackendView>,
    n: int,
    answers: Seq<Option<Seq<char>>>,
)
    requires
        0 <= n <= entries.len(),
        model::resolved_backends(entries.take(n), answers) is Err,
    ensures
        model::resolved_backends(entries, answers) == model::resolved_backends(
            entries.take(n),
            answers,
        ),
        model::asked_by_backends(entries, answers) == model::asked_by_backends(
            entries.take(n),
            answers,
        ),
    decreases entries.len(),
{
    if n < entries.len() {
        assert(entries.drop_last().take(n) == entries.take(n));
        lemma_backends_stop(entries.drop_last(), n, answers);
    } else {
        assert(entries.take(n) == entries);
    }
}

/// Resolve one virtual-key entry. `taken` says whether an earlier key bears its
/// name; `holders` maps the secrets of the earlier keys to their names. The
/// second result is what the environment was asked and said.
fn resolve_key<F: Fn(&str) -> Option<String>>(
    raw: &RawVirtualKey,
    taken: bool,
    holders: &StringHashMap<String>,
    Ghost(earlier): Ghost<Seq<VirtualKeyView>>,
    env: &F,
) -> (r: (Result<VirtualKey, ConfigError>, Ghost<Seq<Option<Seq<char>>>>))
    requires
        forall|name: &str| #[trigger] call_requires(*env, (name,)),
        taken == model::names_key(earlier, raw@.name),
        holders_match(holders@, earlier),
    ensures
        r.1@.len() == (if model::asks_for_key(raw@, earlier) {
            1int
        } else {
            0int
        }),
        r.1@.len() >= 1 ==> answers_as(*env, raw@.key_env, r.1@[0]),
        outcome(r.0) == model::resolved_key(raw@, earlier, r.1@[0]),
{
    let ghost mut given: Seq<Option<Seq<char>>> = Seq::empty();
    if raw.name.as_str().is_empty() {
        return (Err(ConfigError::EmptyVirtualKeyName), Ghost(given));
    }
    if taken {
        return (Err(ConfigError::DuplicateVirtualKey(raw.name.clone())), Ghost(given));
    }
    if !is_valid_env_name(raw.key_env.as_str()) {
        return (
            Err(
                ConfigError::InvalidKeyEnvName {
                    name: raw.name.clone(),
                    value: raw.key_env.clone(),
                },
            ),
            Ghost(given),
        );
    }
    let answer = ask(env, &raw.key_env);
    proof {
        given = seq![text_view(answer)];
    }
    let key = match answer {
        None => {
            return (
                Err(
                    ConfigError::MissingKeyEnv { name: raw.name.clone(), var: raw.key_env.clone() },
                ),
                Ghost(given),
            );
        },
        Some(key) => key,
    };
    if key.as_str().is_empty() {
        return (Err(ConfigError::EmptyVirtualKey(raw.name.clone())), Ghost(given));
    }
    assert(holders@.contains_key(key@) <==> model::key_holder(earlier, key@) is Some);
    if let Some(holder) = holders.get(key.as_str()) {
        return (
            Err(ConfigError::DuplicateVirtualKeySecret(holder.clone(), raw.name.clone())),
            Ghost(given),
        );
    }
    let resolved = VirtualKey {
        name: raw.name.clone(),
        key: Secret::new(key.as_str()),
        enforce_private: raw.enforce_private,
    };
    (Ok(resolved), Ghost(given))
}

/// `holders` maps each secret of `keys` to the name of the key that holds it.
spec fn holders_match(holders: Map<Seq<char>, String>, keys: Seq<VirtualKeyView>) -> bool {
    forall|key: Seq<char>|
        {
            &&& #[trigger] holders.contains_key(key) <==> model::key_holder(keys, key) is Some
            &&& holders.contains_key(key) ==> model::key_holder(keys, key) == Some(holders[key]@)
        }
}

/// Resolve the virtual-key entries, in order. The second result is what the
/// environment was asked and said.
fn resolve_keys<F: Fn(&str) -> Option<String>>(raws: &Vec<RawVirtualKey>, env: &F) -> (r: (
    Result<Vec<VirtualKey>, ConfigError>,
    Ghost<Seq<Option<Seq<char>>>>,
))
    requires
        forall|name: &str| #[trigger] call_requires(*env, (name,)),
    ensures
        r.1@.len() == model::asked_by_keys(raw_key_views(raws@), r.1@),
        answered(*env, model::key_references(raw_key_views(raws@)), r.1@),
        match r.0 {
            Ok(keys) => model::resolved_keys(raw_key_views(raws@), r.1@) == Ok::<
                Seq<VirtualKeyView>,
                ConfigErrorView,
            >(key_views(keys@)),
            Err(e) => model::resolved_keys(raw_key_views(raws@), r.1@) == Err::<
                Seq<VirtualKeyView>,
                ConfigErrorView,
            >(e@),
        },
{
    let ghost entries = raw_key_views(raws@);
    let ghost refs = model::key_references(entries);
    let ghost mut given: Seq<Option<Seq<char>>> = Seq::empty();
    let mut names = StringHashSet::new();
    let mut holders: StringHashMap<String> = StringHashMap::new();
    let mut done: Vec<VirtualKey> = Vec::new();
    assert(key_views(done@) == Seq::<VirtualKeyView>::empty());
    for i in 0..raws.len()
        invariant
            forall|name: &str| #[trigger] call_requires(*env, (name,)),
            entries == raw_key_views(raws@),
            refs == model::key_references(entries),
            forall|name: Seq<char>| #[trigger]
                names@.contains(name) <==> model::names_key(key_views(done@), name),
            holders_match(holders@, key_views(done@)),
            given.len() == i,
            given.len() == model::asked_by_keys(entries.take(i as int), given),
            answered(*env, refs, given),
            model::resolved_keys(entries.take(i as int), given) == Ok::<
                Seq<VirtualKeyView>,
                ConfigErrorView,
            >(key_views(done@)),
    {
        let raw = &raws[i];
        let ghost earlier = key_views(done@);
        let ghost upto = entries.take(i + 1);
        let ghost old_names = names@;
        let ghost old_holders = holders@;
        let taken = !names.insert(raw.name.clone());
        assert(upto.drop_last() == entries.take(i as int));
        assert(upto.last() == raw@);
        let (resolved, Ghost(more)) = resolve_key(raw, taken, &holders, Ghost(earlier), env);
        proof {
            let now = given + more;
            laws::lemma_keys_read_asked(entries.take(i as int), given, now);
            assert(more.len() > 0 ==> now[i as int] == more[0]);
            assert(outcome(resolved) == model::resolved_key(raw@, earlier, now[i as int]));
            assert forall|k: int| 0 <= k < now.len() implies answers_as(
                *env,
                refs[k],
                #[trigger] now[k],
            ) by {
                if k < i {
                    assert(now[k] == given[k]);
                } else {
                    assert(now[k] == more[0]);
                }
            }
            given = now;
        }
        match resolved {
            Err(e) => {
                proof {
                    lemma_keys_stop(entries, i + 1, given);
                }
                return (Err(e), Ghost(given));
            },
            Ok(key) => {
                holders.insert(key.key.expose().to_owned(), key.name.clone());
                done.push(key);
                proof {
                    let now = key_views(done@);
                    assert(now == earlier.push(key@));
                    assert(now.drop_last() == earlier);
                    assert forall|name: Seq<char>| #[trigger]
                        names@.contains(name) <==> model::names_key(now, name) by {
                        assert(names@.contains(name) <==> old_names.contains(name) || name
                            == raw@.name);
                        if old_names.contains(name) {
                            let k = choose|k: int|
                                0 <= k < earlier.len() && (#[trigger] earlier[k]).name == name;
                            assert(now[k].name == name);
                        }
                        if name == raw@.name {
                            assert(now[now.len() - 1].name == name);
                        }
                        if model::names_key(now, name) {
                            let k = choose|k: int|
                                0 <= k < now.len() && (#[trigger] now[k]).name == name;
                            if k < earlier.len() {
                                assert(earlier[k].name == name);
                            }
                        }
                    }
                    assert forall|secret: Seq<char>|
                        {
                            &&& #[trigger] holders@.contains_key(secret) <==> model::key_holder(
                                now,
                                secret,
                            ) is Some
                            &&& holders@.contains_key(secret) ==> model::key_holder(now, secret)
                                == Some(holders@[secret]@)
                        } by {
                        assert(old_holders.contains_key(secret) <==> model::key_holder(
                            earlier,
                            secret,
                        ) is Some);
                    }
                }
            },
        }
    }
    assert(entries.take(raws@.len() as int) == entries);
    (Ok(done), Ghost(given))
}

/// An error met while resolving the first `n` entries is the error of the whole,
/// and nothing is asked after it.
pub proof fn lemma_keys_stop(
    entries: Seq<RawVirtualKeyView>,
    n: int,
    answers: Seq<Option<Seq<char>>>,
)
    requires
        0 <= n <= entries.len(),
        model::resolved_keys(entries.take(n), answers) is Err,
    ensures
        model::resolved_keys(entries, answers) == model::resolved_keys(entries.take(n), answers),
        model::asked_by_keys(entries, answers) == model::asked_by_keys(entries.take(n), answers),
    decreases entries.len(),
{
    if n < entries.len() {
        assert(entries.drop_last().take(n) == entries.take(n));
        lemma_keys_stop(entries.drop_last(), n, answers);
    } else {
        assert(entries.take(n) == entries);
    }
}

/// Resolve the policy table.
fn resolve_policy(raw: RawPolicy) -> (r: Result<PolicySelection, ConfigError>)
    ensures
        match r {
            Ok(policy) => model::resolved_policy(raw) == Ok::<PolicySelection, ConfigErrorView>(
                policy,
            ),
            Err(e) => model::resolved_policy(raw) == Err::<PolicySelection, ConfigErrorView>(e@),
        },
{
    match raw {
        RawPolicy::StaticPriority => Ok(PolicySelection::StaticPriority),
        RawPolicy::EwmaLatency { alpha_bits } => if binary64::check_unit_interval(alpha_bits) {
            Ok(PolicySelection::EwmaLatency { alpha_bits })
        } else {
            Err(ConfigError::InvalidAlpha(alpha_bits))
        },
    }
}

impl GatewayConfig {
    /// Resolve and validate a raw configuration, asking `env` for the variables
    /// that it names.
    ///
    /// `listen_error` is what the reader of `raw.listen` as a socket address
    /// had to object to, if anything. The first rule that is broken decides
    /// the error: the listen address, then the backends in order, then the
    /// virtual keys in order, then the policy. Each reference to a variable is
    /// asked for once, when its turn comes, and answered for itself; after the
    /// first error nothing is asked any more.
    pub fn from_raw_env<F: Fn(&str) -> Option<String>>(
        raw: &RawConfig,
        listen_error: Option<String>,
        env: &F,
    ) -> (r: Result<Self, ConfigError>)
        requires
            forall|name: &str| #[trigger] call_requires(*env, (name,)),
        ensures
            exists|answers: Seq<Option<Seq<char>>>| #[trigger]
                answered(*env, model::references(raw@), answers) && answers.len() == model::asked(
                    raw@,
                    text_view(listen_error),
                    answers,
                ) && outcome(r) == model::resolved_config(raw@, text_view(listen_error), answers),
    {
        let ghost refs = model::references(raw@);
        let ghost mut answers: Seq<Option<Seq<char>>> = Seq::empty();
        assert(answered(*env, refs, answers));
        if let Some(source) = listen_error {
            return Err(ConfigError::InvalidListen { addr: raw.listen.clone(), source });
        }
        if raw.backends.len() == 0 {
            return Err(ConfigError::NoBackends);
        }
        let (resolved, Ghost(given)) = resolve_backends(&raw.backends, env);
        proof {
            answers = given;
            assert(answered(*env, refs, answers));
        }
        let backends = match resolved {
            Err(e) => {
                return Err(e);
            },
            Ok(backends) => backends,
        };
        let (resolved, Ghost(more)) = resolve_keys(&raw.virtual_keys, env);
        proof {
            laws::lemma_backends_asked(raw@.backends, given);
            answers = given + more;
            laws::lemma_backends_read_asked(raw@.backends, given, answers);
            assert(model::key_answers(raw@, answers) == more);
            assert forall|k: int| 0 <= k < answers.len() implies answers_as(
                *env,
                refs[k],
                #[trigger] answers[k],
            ) by {
                if k < given.len() {
                    assert(answers[k] == given[k]);
                } else {
                    assert(answers[k] == more[k - given.len()]);
                }
            }
            assert(answered(*env, refs, answers));
        }
        let virtual_keys = match resolved {
            Err(e) => {
                return Err(e);
            },
            Ok(virtual_keys) => virtual_keys,
        };
        let policy = match resolve_policy(raw.policy) {
            Err(e) => {
                return Err(e);
            },
            Ok(policy) => policy,
        };
        Ok(GatewayConfig { listen: raw.listen.clone(), backends, virtual_keys, policy })
    }

    /// Resolve and validate a raw configuration against a fixed environment, as
    /// [`GatewayConfig::from_raw_env`] does.
    pub fn from_raw(raw: &RawConfig, listen_error: Option<String>, env: &EnvTable) -> (r: Result<
        Self,
        ConfigError,
    >)
        ensures
            outcome(r) == model::resolved_in(raw@, text_view(listen_error), env@),
    {
        let lookup = |name: &str| -> (answer: Option<String>)
            ensures
                text_view(answer) == model::value_in(env@, name@),
            { env.get(name) };
        let r = Self::from_raw_env(raw, listen_error, &lookup);
        proof {
            let refs = model::references(raw@);
            let answers = choose|answers: Seq<Option<Seq<char>>>| #[trigger]
                answered(lookup, refs, answers) && answers.len() == model::asked(
                    raw@,
                    text_view(listen_error),
                    answers,
                ) && outcome(r) == model::resolved_config(raw@, text_view(listen_error), answers);
            assert forall|i: int| 0 <= i < answers.len() implies #[trigger] answers[i]
                == model::value_in(env@, refs[i]) by {
                assert(answers_as(lookup, refs[i], answers[i]));
            }
            laws::lemma_fixed_environment(raw@, text_view(listen_error), env@, answers);
        }
        r
    }
}

}
