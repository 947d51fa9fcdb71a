//! What configurations mean: the views of the configuration types, and the
//! rules by which a raw configuration resolves.
use super::{PolicySelection, Privacy, RawPolicy};
use crate::binary64;
use crate::text;
use vstd::prelude::*;

verus! {

pub struct BackendView {
    pub name: Seq<char>,
    pub base_url: Seq<char>,
    pub api_key: Option<Seq<char>>,
    pub models: Seq<Seq<char>>,
    pub capability_tags: Seq<Seq<char>>,
    pub privacy: Privacy,
}

impl BackendView {
    /// `model` is one of the models that the backend lists.
    pub open spec fn serves(self, model: Seq<char>) -> bool {
        self.models.contains(model)
    }

    /// Every required tag is among the backend's capabilities.
    pub open spec fn has_tags(self, required: Seq<Seq<char>>) -> bool {
        forall|i: int|
            0 <= i < required.len() ==> self.capability_tags.contains(#[trigger] required[i])
    }
}

pub struct VirtualKeyView {
    pub name: Seq<char>,
    pub key: Seq<char>,
    pub enforce_private: bool,
}

pub struct GatewayConfigView {
    pub listen: Seq<char>,
    pub backends: Seq<BackendView>,
    pub virtual_keys: Seq<VirtualKeyView>,
    pub policy: PolicySelection,
}

pub struct RawBackendView {
    pub name: Seq<char>,
    pub base_url_env: Seq<char>,
    pub api_key_env: Option<Seq<char>>,
    pub models: Seq<Seq<char>>,
    pub capability_tags: Seq<Seq<char>>,
    pub privacy: Privacy,
}

pub struct RawVirtualKeyView {
    pub name: Seq<char>,
    pub key_env: Seq<char>,
    pub enforce_private: bool,
}

pub struct RawConfigView {
    pub listen: Seq<char>,
    pub backends: Seq<RawBackendView>,
    pub virtual_keys: Seq<RawVirtualKeyView>,
    pub policy: RawPolicy,
}

pub enum ConfigErrorView {
    NotFound(Seq<char>),
    Io { path: Seq<char>, source: Seq<char> },
    Parse(Seq<char>),
    InvalidListen { addr: Seq<char>, source: Seq<char> },
    NoBackends,
    EmptyBackendName,
    DuplicateBackend(Seq<char>),
    InvalidEnvName { name: Seq<char>, field: Seq<char>, value: Seq<char> },
    MissingEnv { name: Seq<char>, field: Seq<char>, var: Seq<char> },
    InvalidBaseUrl { name: Seq<char>, url: Seq<char> },
    NoModels(Seq<char>),
    EmptyEntry { name: Seq<char>, field: Seq<char> },
    EmptyVirtualKeyName,
    DuplicateVirtualKey(Seq<char>),
    InvalidKeyEnvName { name: Seq<char>, value: Seq<char> },
    MissingKeyEnv { name: Seq<char>, var: Seq<char> },
    EmptyVirtualKey(Seq<char>),
    DuplicateVirtualKeySecret(Seq<char>, Seq<char>),
    InvalidAlpha(u64),
}

/// An ASCII letter or an underscore.
pub open spec fn starts_env_name(c: char) -> bool {
    'a' <= c <= 'z' || 'A' <= c <= 'Z' || c == '_'
}

/// An ASCII letter, a digit or an underscore.
pub open spec fn continues_env_name(c: char) -> bool {
    starts_env_name(c) || '0' <= c <= '9'
}

/// POSIX-ish environment variable name: `[A-Za-z_][A-Za-z0-9_]*`.
pub open spec fn is_env_name(name: Seq<char>) -> bool {
    &&& name.len() > 0
    &&& starts_env_name(name[0])
    &&& forall|i: int| 0 <= i < name.len() ==> continues_env_name(#[trigger] name[i])
}

/// The character ends the authority part of a URL.
pub open spec fn ends_authority(c: char) -> bool {
    c == '/' || c == '?' || c == '#'
}

/// In what follows the scheme of a URL, the authority part ends before `end`.
pub open spec fn is_authority_end(rest: Seq<char>, end: int) -> bool {
    &&& 0 <= end <= rest.len()
    &&& forall|i: int| 0 <= i < end ==> !ends_authority(#[trigger] rest[i])
    &&& end < rest.len() ==> ends_authority(rest[end])
}

/// In an authority part that ends before `end`, user information ends before
/// `start`: what is left from there on holds no `@`.
pub open spec fn is_host_start(rest: Seq<char>, start: int, end: int) -> bool {
    &&& 0 <= start <= end
    &&& forall|i: int| start <= i < end ==> #[trigger] rest[i] != '@'
    &&& start > 0 ==> rest[start - 1] == '@'
}

/// What follows the scheme of a URL names a host: the authority part, less user
/// information, is not empty and does not begin with the colon of a port.
pub open spec fn has_host(rest: Seq<char>) -> bool {
    exists|start: int, end: int| #[trigger]
        is_host_start(rest, start, end) && is_authority_end(rest, end) && start < end
            && rest[start] != ':'
}

/// The URL is `scheme` followed by a host.
pub open spec fn is_url_of(url: Seq<char>, scheme: Seq<char>) -> bool {
    text::begins_with(url, scheme) && has_host(url.skip(scheme.len() as int))
}

/// The URL has a scheme that the gateway speaks, and a host.
pub open spec fn is_http_url(url: Seq<char>) -> bool {
    is_url_of(url, "http://"@) || is_url_of(url, "https://"@)
}

/// One of the strings is empty.
pub open spec fn has_empty(list: Seq<Seq<char>>) -> bool {
    exists|i: int| 0 <= i < list.len() && (#[trigger] list[i]).len() == 0
}

/// One of the backends bears this name.
pub open spec fn names_backend(raws: Seq<RawBackendView>, name: Seq<char>) -> bool {
    exists|i: int| 0 <= i < raws.len() && (#[trigger] raws[i]).name == name
}

/// The variables that backend entries refer to, one for each reference, in
/// order: the base URL of an entry, then its API key, if it has one.
pub open spec fn backend_references(raws: Seq<RawBackendView>) -> Seq<Seq<char>>
    decreases raws.len(),
{
    if raws.len() == 0 {
        Seq::empty()
    } else {
        let earlier = backend_references(raws.drop_last()).push(raws.last().base_url_env);
        match raws.last().api_key_env {
            None => earlier,
            Some(var) => earlier.push(var),
        }
    }
}

/// The variables that virtual-key entries refer to, one for each, in order.
pub open spec fn key_references(raws: Seq<RawVirtualKeyView>) -> Seq<Seq<char>> {
    raws.map_values(|k: RawVirtualKeyView| k.key_env)
}

/// The variables that a configuration refers to, one for each reference, in
/// order: those of its backends, then those of its virtual keys.
pub open spec fn references(raw: RawConfigView) -> Seq<Seq<char>> {
    backend_references(raw.backends) + key_references(raw.virtual_keys)
}

/// What the `api_key_env` of a backend resolves to, where `answer` is what the
/// environment says of it.
pub open spec fn resolved_api_key(
    raw: RawBackendView,
    answer: Option<Seq<char>>,
) -> Result<Option<Seq<char>>, ConfigErrorView> {
    match raw.api_key_env {
        None => Ok(None),
        Some(var) => if !is_env_name(var) {
            Err(
                ConfigErrorView::InvalidEnvName {
                    name: raw.name,
                    field: "api_key_env"@,
                    value: var,
                },
            )
        } else {
            match answer {
                None => Err(
                    ConfigErrorView::MissingEnv { name: raw.name, field: "api_key_env"@, var },
                ),
                Some(key) => Ok(Some(key)),
            }
        },
    }
}

/// The environment is asked for the base URL of an entry, where `earlier` are
/// the entries before it.
pub open spec fn asks_for_url(raw: RawBackendView, earlier: Seq<RawBackendView>) -> bool {
    raw.name.len() > 0 && !names_backend(earlier, raw.name) && is_env_name(raw.base_url_env)
}

/// The environment is asked for the API key of an entry, where `url` is what it
/// says of the base URL.
pub open spec fn asks_for_api_key(
    raw: RawBackendView,
    earlier: Seq<RawBackendView>,
    url: Option<Seq<char>>,
) -> bool {
    &&& asks_for_url(raw, earlier)
    &&& url is Some && is_http_url(url->0)
    &&& raw.api_key_env is Some && is_env_name(raw.api_key_env->0)
}

/// How many variables the environment is asked for on account of an entry.
pub open spec fn asked_by_backend(
    raw: RawBackendView,
    earlier: Seq<RawBackendView>,
    url: Option<Seq<char>>,
) -> nat {
    if asks_for_api_key(raw, earlier, url) {
        2
    } else if asks_for_url(raw, earlier) {
        1
    } else {
        0
    }
}

/// What a backend entry resolves to, where `earlier` are the entries before it,
/// and `url` and `key` are what the environment says of its variables.
pub open spec fn resolved_backend(
    raw: RawBackendView,
    earlier: Seq<RawBackendView>,
    url: Option<Seq<char>>,
    key: Option<Seq<char>>,
) -> Result<BackendView, ConfigErrorView> {
    let name = raw.name;
    let var = raw.base_url_env;
    if name.len() == 0 {
        Err(ConfigErrorView::EmptyBackendName)
    } else if names_backend(earlier, name) {
        Err(ConfigErrorView::DuplicateBackend(name))
    } else if !is_env_name(var) {
        Err(ConfigErrorView::InvalidEnvName { name, field: "base_url_env"@, value: var })
    } else if url is None {
        Err(ConfigErrorView::MissingEnv { name, field: "base_url_env"@, var })
    } else if !is_http_url(url->0) {
        Err(ConfigErrorView::InvalidBaseUrl { name, url: url->0 })
    } else {
        match resolved_api_key(raw, key) {
            Err(e) => Err(e),
            Ok(api_key) => if raw.models.len() == 0 {
                Err(ConfigErrorView::NoModels(name))
            } else if has_empty(raw.models) {
                Err(ConfigErrorView::EmptyEntry { name, field: "models"@ })
            } else if has_empty(raw.capability_tags) {
                Err(ConfigErrorView::EmptyEntry { name, field: "capability_tags"@ })
            } else {
                Ok(
                    BackendView {
                        name,
                        base_url: text::trim_end(url->0, '/'),
                        api_key,
                        models: raw.models,
                        capability_tags: raw.capability_tags,
                        privacy: raw.privacy,
                    },
                )
            },
        }
    }
}

/// What the backend entries resolve to: all of them, in order, or the error of
/// the first entry that does not resolve. `answers` is what the environment
/// says, reference by reference.
pub open spec fn resolved_backends(
    raws: Seq<RawBackendView>,
    answers: Seq<Option<Seq<char>>>,
) -> Result<Seq<BackendView>, ConfigErrorView>
    decreases raws.len(),
{
    if raws.len() == 0 {
        Ok(Seq::empty())
    } else {
        let earlier = raws.drop_last();
        let at = backend_references(earlier).len() as int;
        match resolved_backends(earlier, answers) {
            Err(e) => Err(e),
            Ok(done) => match resolved_backend(
                raws.last(),
                earlier,
                answers[at],
                answers[at + 1],
            ) {
                Err(e) => Err(e),
                Ok(b) => Ok(done.push(b)),
            },
        }
    }
}

/// How many variables the environment is asked for on account of the backend
/// entries. Nothing is asked after the first entry that does not resolve.
pub open spec fn asked_by_backends(
    raws: Seq<RawBackendView>,
    answers: Seq<Option<Seq<char>>>,
) -> nat
    decreases raws.len(),
{
    if raws.len() == 0 {
        0
    } else {
        let earlier = raws.drop_last();
        let at = backend_references(earlier).len() as int;
        if resolved_backends(earlier, answers) is Err {
            asked_by_backends(earlier, answers)
        } else {
            asked_by_backends(earlier, answers) + asked_by_backend(
                raws.last(),
                earlier,
                answers[at],
            )
        }
    }
}

/// One of the virtual keys bears this name.
pub open spec fn names_key(keys: Seq<VirtualKeyView>, name: Seq<char>) -> bool {
    exists|i: int| 0 <= i < keys.len() && (#[trigger] keys[i]).name == name
}

/// The environment is asked for the secret of an entry, where `earlier` are the
/// resolved keys before it.
pub open spec fn asks_for_key(raw: RawVirtualKeyView, earlier: Seq<VirtualKeyView>) -> bool {
    raw.name.len() > 0 && !names_key(earlier, raw.name) && is_env_name(raw.key_env)
}

/// What a virtual-key entry resolves to, where `earlier` are the resolved keys
/// before it, and `answer` is what the environment says of its variable.
pub open spec fn resolved_key(
    raw: RawVirtualKeyView,
    earlier: Seq<VirtualKeyView>,
    answer: Option<Seq<char>>,
) -> Result<VirtualKeyView, ConfigErrorView> {
    let name = raw.name;
    let var = raw.key_env;
    if name.len() == 0 {
        Err(ConfigErrorView::EmptyVirtualKeyName)
    } else if names_key(earlier, name) {
        Err(ConfigErrorView::DuplicateVirtualKey(name))
    } else if !is_env_name(var) {
        Err(ConfigErrorView::InvalidKeyEnvName { name, value: var })
    } else {
        match answer {
            None => Err(ConfigErrorView::MissingKeyEnv { name, var }),
            Some(key) => if key.len() == 0 {
                Err(ConfigErrorView::EmptyVirtualKey(name))
            } else {
                match key_holder(earlier, key) {
                    Some(holder) => Err(
                        ConfigErrorView::DuplicateVirtualKeySecret(holder, name),
                    ),
                    None => Ok(
                        VirtualKeyView { name, key, enforce_private: raw.enforce_private },
                    ),
                }
            },
        }
    }
}

/// The name of the virtual key (of several, the last) whose secret is `key`.
pub open spec fn key_holder(keys: Seq<VirtualKeyView>, key: Seq<char>) -> Option<Seq<char>>
    decreases keys.len(),
{
    if keys.len() == 0 {
        None
    } else if keys.last().key == key {
        Some(keys.last().name)
    } else {
        key_holder(keys.drop_last(), key)
    }
}

/// What the virtual-key entries resolve to: all of them, in order, or the error
/// of the first entry that does not resolve. `answers` is what the environment
/// says, entry by entry.
pub open spec fn resolved_keys(
    raws: Seq<RawVirtualKeyView>,
    answers: Seq<Option<Seq<char>>>,
) -> Result<Seq<VirtualKeyView>, ConfigErrorView>
    decreases raws.len(),
{
    if raws.len() == 0 {
        Ok(Seq::empty())
    } else {
        match resolved_keys(raws.drop_last(), answers) {
            Err(e) => Err(e),
            Ok(done) => match resolved_key(raws.last(), done, answers[raws.len() - 1]) {
                Err(e) => Err(e),
                Ok(k) => Ok(done.push(k)),
            },
        }
    }
}

/// How many variables the environment is asked for on account of the virtual-key
/// entries. Nothing is asked after the first entry that does not resolve.
pub open spec fn asked_by_keys(
    raws: Seq<RawVirtualKeyView>,
    answers: Seq<Option<Seq<char>>>,
) -> nat
    decreases raws.len(),
{
    if raws.len() == 0 {
        0
    } else {
        let before = asked_by_keys(raws.drop_last(), answers);
        match resolved_keys(raws.drop_last(), answers) {
            Err(_) => before,
            Ok(done) => if asks_for_key(raws.last(), done) {
                before + 1
            } else {
                before
            },
        }
    }
}

/// What the policy table resolves to.
pub open spec fn resolved_policy(raw: RawPolicy) -> Result<PolicySelection, ConfigErrorView> {
    match raw {
        RawPolicy::StaticPriority => Ok(PolicySelection::StaticPriority),
        RawPolicy::EwmaLatency { alpha_bits } => if binary64::in_unit_interval(alpha_bits) {
            Ok(PolicySelection::EwmaLatency { alpha_bits })
        } else {
            Err(ConfigErrorView::InvalidAlpha(alpha_bits))
        },
    }
}

/// The answers that concern the virtual keys: those after the references of the
/// backends.
pub open spec fn key_answers(
    raw: RawConfigView,
    answers: Seq<Option<Seq<char>>>,
) -> Seq<Option<Seq<char>>> {
    answers.skip(backend_references(raw.backends).len() as int)
}

/// What a raw configuration resolves to. `listen_error` says what is wrong with
/// its listen address, if anything is; `answers` is what the environment says,
/// each answer at the place of its reference.
pub open spec fn resolved_config(
    raw: RawConfigView,
    listen_error: Option<Seq<char>>,
    answers: Seq<Option<Seq<char>>>,
) -> Result<GatewayConfigView, ConfigErrorView> {
    if listen_error is Some {
        Err(ConfigErrorView::InvalidListen { addr: raw.listen, source: listen_error->0 })
    } else if raw.backends.len() == 0 {
        Err(ConfigErrorView::NoBackends)
    } else {
        match resolved_backends(raw.backends, answers) {
            Err(e) => Err(e),
            Ok(backends) => match resolved_keys(raw.virtual_keys, key_answers(raw, answers)) {
                Err(e) => Err(e),
                Ok(virtual_keys) => match resolved_policy(raw.policy) {
                    Err(e) => Err(e),
                    Ok(policy) => Ok(
                        GatewayConfigView { listen: raw.listen, backends, virtual_keys, policy },
                    ),
                },
            },
        }
    }
}

/// How many of its references, from the first on, a configuration asks the
/// environment for. Nothing is asked after the first error.
pub open spec fn asked(
    raw: RawConfigView,
    listen_error: Option<Seq<char>>,
    answers: Seq<Option<Seq<char>>>,
) -> nat {
    if listen_error is Some || raw.backends.len() == 0 {
        0
    } else if resolved_backends(raw.backends, answers) is Err {
        asked_by_backends(raw.backends, answers)
    } else {
        asked_by_backends(raw.backends, answers) + asked_by_keys(
            raw.virtual_keys,
            key_answers(raw, answers),
        )
    }
}

/// What an environment says of a variable.
pub open spec fn value_in(env: Map<Seq<char>, Seq<char>>, var: Seq<char>) -> Option<Seq<char>> {
    if env.contains_key(var) {
        Some(env[var])
    } else {
        None
    }
}

/// What an environment says of the references of a configuration.
pub open spec fn answers_in(
    raw: RawConfigView,
    env: Map<Seq<char>, Seq<char>>,
) -> Seq<Option<Seq<char>>> {
    references(raw).map_values(|var: Seq<char>| value_in(env, var))
}

/// What a raw configuration resolves to in an environment that stays as it is.
pub open spec fn resolved_in(
    raw: RawConfigView,
    listen_error: Option<Seq<char>>,
    env: Map<Seq<char>, Seq<char>>,
) -> Result<GatewayConfigView, ConfigErrorView> {
    resolved_config(raw, listen_error, answers_in(raw, env))
}

}
