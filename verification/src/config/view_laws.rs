//! What configuration values say: nothing of a value is left out of its view,
//! and nothing is added.
use super::model;
use super::resolve;
use super::{
    Backend, ConfigError, ConfigErrorView, GatewayConfig, GatewayConfigView, RawBackend, RawConfig,
    RawVirtualKey, VirtualKey,
};
use vstd::prelude::*;

verus! {

/// The view lists the strings of a list, one for one.
pub open spec fn lists_all(view: Seq<Seq<char>>, list: Seq<String>) -> bool {
    &&& view.len() == list.len()
    &&& forall|i: int| 0 <= i < list.len() ==> #[trigger] view[i] == list[i]@
}

/// A backend's view says all of it.
pub proof fn lemma_backend_view(b: Backend)
    ensures
        b@.name == b.name@,
        b@.base_url == b.base_url@,
        b@.api_key is Some <==> b.api_key is Some,
        b.api_key matches Some(key) ==> b@.api_key == Some(key@),
        lists_all(b@.models, b.models@),
        lists_all(b@.capability_tags, b.capability_tags@),
        b@.privacy == b.privacy,
{
}

/// A virtual key's view says all of it.
pub proof fn lemma_virtual_key_view(k: VirtualKey)
    ensures
        k@.name == k.name@,
        k@.key == k.key@,
        k@.enforce_private == k.enforce_private,
{
}

/// A configuration's view says all of it.
pub proof fn lemma_config_view(cfg: GatewayConfig)
    ensures
        cfg@.listen == cfg.listen@,
        cfg@.policy == cfg.policy,
        cfg@.backends.len() == cfg.backends@.len(),
        forall|i: int|
            0 <= i < cfg.backends@.len() ==> #[trigger] cfg@.backends[i] == cfg.backends@[i]@,
        cfg@.virtual_keys.len() == cfg.virtual_keys@.len(),
        forall|i: int|
            0 <= i < cfg.virtual_keys@.len() ==> #[trigger] cfg@.virtual_keys[i]
                == cfg.virtual_keys@[i]@,
{
}

/// A backend entry's view says all of it.
pub proof fn lemma_raw_backend_view(b: RawBackend)
    ensures
        b@.name == b.name@,
        b@.base_url_env == b.base_url_env@,
        b@.api_key_env is Some <==> b.api_key_env is Some,
        b.api_key_env matches Some(var) ==> b@.api_key_env == Some(var@),
        lists_all(b@.models, b.models@),
        lists_all(b@.capability_tags, b.capability_tags@),
        b@.privacy == b.privacy,
{
}

/// A virtual-key entry's view says all of it.
pub proof fn lemma_raw_key_view(k: RawVirtualKey)
    ensures
        k@.name == k.name@,
        k@.key_env == k.key_env@,
        k@.enforce_private == k.enforce_private,
{
}

/// A raw configuration's view says all of it.
pub proof fn lemma_raw_config_view(raw: RawConfig)
    ensures
        raw@.listen == raw.listen@,
        raw@.policy == raw.policy,
        raw@.backends.len() == raw.backends@.len(),
        forall|i: int|
            0 <= i < raw.backends@.len() ==> #[trigger] raw@.backends[i] == raw.backends@[i]@,
        raw@.virtual_keys.len() == raw.virtual_keys@.len(),
        forall|i: int|
            0 <= i < raw.virtual_keys@.len() ==> #[trigger] raw@.virtual_keys[i]
                == raw.virtual_keys@[i]@,
{
}

/// Lists of backends and keys are viewed one for one.
pub proof fn lemma_list_views(backends: Seq<Backend>, keys: Seq<VirtualKey>)
    ensures
        resolve::backend_views(backends).len() == backends.len(),
        forall|i: int|
            0 <= i < backends.len() ==> #[trigger] resolve::backend_views(backends)[i]
                == backends[i]@,
        resolve::key_views(keys).len() == keys.len(),
        forall|i: int| 0 <= i < keys.len() ==> #[trigger] resolve::key_views(keys)[i] == keys[i]@,
{
}

/// An error's view names the same error, with the same particulars.
pub proof fn lemma_error_view(e: ConfigError)
    ensures
        match e {
            ConfigError::NotFound(path) => e@ == ConfigErrorView::NotFound(path@),
            ConfigError::Io { path, source } => e@ == (ConfigErrorView::Io {
                path: path@,
                source: source@,
            }),
            ConfigError::Parse(source) => e@ == ConfigErrorView::Parse(source@),
            ConfigError::InvalidListen { addr, source } => e@ == (ConfigErrorView::InvalidListen {
                addr: addr@,
                source: source@,
            }),
            ConfigError::NoBackends => e@ == ConfigErrorView::NoBackends,
            ConfigError::EmptyBackendName => e@ == ConfigErrorView::EmptyBackendName,
            ConfigError::DuplicateBackend(name) => e@ == ConfigErrorView::DuplicateBackend(name@),
            ConfigError::InvalidEnvName { name, field, value } => e@
                == (ConfigErrorView::InvalidEnvName {
                name: name@,
                field: field@,
                value: value@,
            }),
            ConfigError::MissingEnv { name, field, var } => e@ == (ConfigErrorView::MissingEnv {
                name: name@,
                field: field@,
                var: var@,
            }),
            ConfigError::InvalidBaseUrl { name, url } => e@ == (ConfigErrorView::InvalidBaseUrl {
                name: name@,
                url: url@,
            }),
            ConfigError::NoModels(name) => e@ == ConfigErrorView::NoModels(name@),
            ConfigError::EmptyEntry { name, field } => e@ == (ConfigErrorView::EmptyEntry {
                name: name@,
                field: field@,
            }),
            ConfigError::EmptyVirtualKeyName => e@ == ConfigErrorView::EmptyVirtualKeyName,
            ConfigError::DuplicateVirtualKey(name) => e@ == ConfigErrorView::DuplicateVirtualKey(
                name@,
            ),
            ConfigError::InvalidKeyEnvName { name, value } => e@
                == (ConfigErrorView::InvalidKeyEnvName { name: name@, value: value@ }),
            ConfigError::MissingKeyEnv { name, var } => e@ == (ConfigErrorView::MissingKeyEnv {
                name: name@,
                var: var@,
            }),
            ConfigError::EmptyVirtualKey(name) => e@ == ConfigErrorView::EmptyVirtualKey(name@),
            ConfigError::DuplicateVirtualKeySecret(holder, name) => e@
                == ConfigErrorView::DuplicateVirtualKeySecret(holder@, name@),
            ConfigError::InvalidAlpha(bits) => e@ == ConfigErrorView::InvalidAlpha(bits),
        },
{
}

/// The outcome of a resolution tells success from failure, and says what it came
/// to.
pub proof fn lemma_outcome(cfg: GatewayConfig, e: ConfigError)
    ensures
        resolve::outcome(Ok::<GatewayConfig, ConfigError>(cfg)) == Ok::<
            GatewayConfigView,
            ConfigErrorView,
        >(cfg@),
        resolve::outcome(Err::<GatewayConfig, ConfigError>(e)) == Err::<
            GatewayConfigView,
            ConfigErrorView,
        >(e@),
{
}

/// What may be missing is viewed as it is.
pub proof fn lemma_optional_text_view(value: String)
    ensures
        resolve::text_view(Some(value)) == Some(value@),
        resolve::text_view(None::<String>) is None,
{
}

/// Each answer in a list of answers is one that the environment gave when asked
/// for the name at the same place.
pub proof fn lemma_answers_come_from_the_environment<F: Fn(&str) -> Option<String>>(
    env: F,
    names: Seq<Seq<char>>,
    answers: Seq<Option<Seq<char>>>,
    i: int,
)
    requires
        resolve::answered(env, names, answers),
        0 <= i < answers.len(),
    ensures
        i < names.len(),
        exists|asked: &str, given: Option<String>|
            asked@ == names[i] && #[trigger] call_ensures(env, (asked,), given) && (match given {
                Some(value) => answers[i] == Some(value@),
                None => answers[i] is None,
            }),
{
    assert(resolve::answers_as(env, names[i], answers[i]));
}

/// What a fixed environment says of the references of a configuration, one for
/// one: the value of each variable that is set.
pub proof fn lemma_fixed_answers(raw: RawConfig, env: Map<Seq<char>, Seq<char>>, i: int)
    requires
        0 <= i < model::references(raw@).len(),
    ensures
        ({
            let var = model::references(raw@)[i];
            let answers = model::answers_in(raw@, env);
            &&& answers.len() == model::references(raw@).len()
            &&& env.contains_key(var) ==> answers[i] == Some(env[var])
            &&& !env.contains_key(var) ==> answers[i] is None
        }),
{
}

/// Resolving in a fixed environment is resolving by its answers.
pub proof fn lemma_fixed_resolution(
    raw: RawConfig,
    listen_error: Option<Seq<char>>,
    env: Map<Seq<char>, Seq<char>>,
)
    ensures
        model::resolved_in(raw@, listen_error, env) == model::resolved_config(
            raw@,
            listen_error,
            model::answers_in(raw@, env),
        ),
{
}

}
