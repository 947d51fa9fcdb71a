//! Gateway configuration.
//!
//! Secrets never live in the configuration file. Backends name *environment
//! variables* (`base_url_env`, `api_key_env`) and virtual keys name `key_env`;
//! [`GatewayConfig::from_raw_env`] resolves all of them, each reference exactly
//! once. A resolved [`GatewayConfig`] is fully validated (duplicate
//! names, empty model lists, malformed URLs, bad policy parameters and missing
//! environment variables are all errors), so a gateway that boots has a coherent
//! routing table.
pub mod laws;
pub mod model;
pub mod resolve;
pub mod rules;
pub mod view_laws;

use crate::text;
use vstd::hash_map::StringHashMap;
use vstd::prelude::*;

pub use model::{
    BackendView, ConfigErrorView, GatewayConfigView, RawBackendView, RawConfigView,
    RawVirtualKeyView, VirtualKeyView,
};

verus! {

/// Data-placement class of a backend.
///
/// `Local` backends are allowed to see private traffic; `External` backends
/// never are.
#[derive(Debug, Clone, Copy, PartialEq, Eq, Hash, Structural)]
pub enum Privacy {
    /// Runs on infrastructure the operator controls; may serve private traffic.
    Local,
    /// Third-party hosted; must never see traffic marked private.
    External,
}

/// A secret resolved from the environment (API key, virtual key).
///
/// The type has no `Debug` and no `Display`, so a secret cannot leak through
/// them into a log; access requires an explicit [`Secret::expose`] call.
#[derive(PartialEq, Eq)]
pub struct Secret(String);

impl View for Secret {
    type V = Seq<char>;

    closed spec fn view(&self) -> Seq<char> {
        self.0@
    }
}

impl Secret {
    pub fn new(value: &str) -> (r: Self)
        ensures
            r@ == value@,
    {
        Secret(value.to_owned())
    }

    /// Deliberately explicit accessor: look for `expose()` to audit usage.
    pub fn expose(&self) -> (r: &str)
        ensures
            r@ == self@,
    {
        self.0.as_str()
    }

    /// The text that stands for this secret in logs. It is the same for every
    /// secret.
    pub fn fmt(&self) -> (r: String)
        ensures
            r@ == "Secret(<redacted>)"@,
    {
        "Secret(<redacted>)".to_owned()
    }
}

impl Clone for Secret {
    fn clone(&self) -> (r: Self)
        ensures
            r == *self,
    {
        Secret(self.0.clone())
    }
}

/// A fully resolved upstream backend.
pub struct Backend {
    pub name: String,
    /// Resolved from `base_url_env`, normalized without a trailing slash.
    pub base_url: String,
    /// Resolved from `api_key_env`; `None` for keyless (e.g. LAN) backends.
    pub api_key: Option<Secret>,
    /// Model identifiers this backend serves (exact match).
    pub models: Vec<String>,
    /// Capabilities used for tag-constrained routing (e.g. `code`, `fast`).
    pub capability_tags: Vec<String>,
    pub privacy: Privacy,
}

impl View for Backend {
    type V = BackendView;

    open spec fn view(&self) -> BackendView {
        BackendView {
            name: self.name@,
            base_url: self.base_url@,
            api_key: match self.api_key {
                Some(key) => Some(key@),
                None => None,
            },
            models: text::texts(self.models@),
            capability_tags: text::texts(self.capability_tags@),
            privacy: self.privacy,
        }
    }
}

impl Clone for Backend {
    fn clone(&self) -> (r: Self)
        ensures
            r@ == self@,
    {
        let r = Backend {
            name: self.name.clone(),
            base_url: self.base_url.clone(),
            api_key: match &self.api_key {
                Some(key) => Some(key.clone()),
                None => None,
            },
            models: text::copy_strings(self.models.as_slice()),
            capability_tags: text::copy_strings(self.capability_tags.as_slice()),
            privacy: self.privacy,
        };
        r
    }
}

/// Whether `wanted` is one of the strings of `list`.
fn lists(list: &Vec<String>, wanted: &String) -> (r: bool)
    ensures
        r == text::texts(list@).contains(wanted@),
{
    for i in 0..list.len()
        invariant
            forall|k: int| 0 <= k < i ==> list@[k]@ != wanted@,
    {
        if list[i] == *wanted {
            assert(text::texts(list@)[i as int] == wanted@);
            return true;
        }
    }
    false
}

impl Backend {
    /// True if this backend serves `model`, by exact match.
    pub fn serves_model(&self, model: &str) -> (r: bool)
        ensures
            r == self@.serves(model@),
    {
        lists(&self.models, &model.to_owned())
    }

    /// True if every required tag is present in this backend's capabilities.
    pub fn has_capability_tags(&self, required: &[String]) -> (r: bool)
        ensures
            r == self@.has_tags(text::texts(required@)),
    {
        for i in 0..required.len()
            invariant
                forall|k: int| 0 <= k < i ==> self@.capability_tags.contains(
                    #[trigger] text::texts(required@)[k],
                ),
        {
            if !lists(&self.capability_tags, &required[i]) {
                assert(!self@.capability_tags.contains(text::texts(required@)[i as int]));
                return false;
            }
        }
        true
    }
}

/// A client-facing key the gateway accepts, resolved from the environment.
pub struct VirtualKey {
    pub name: String,
    pub key: Secret,
    /// When set, every request authenticated with this key is routed as
    /// private (local-only), regardless of per-request markers.
    pub enforce_private: bool,
}

impl View for VirtualKey {
    type V = VirtualKeyView;

    open spec fn view(&self) -> VirtualKeyView {
        VirtualKeyView {
            name: self.name@,
            key: self.key@,
            enforce_private: self.enforce_private,
        }
    }
}

impl Clone for VirtualKey {
    fn clone(&self) -> (r: Self)
        ensures
            r == *self,
    {
        VirtualKey {
            name: self.name.clone(),
            key: self.key.clone(),
            enforce_private: self.enforce_private,
        }
    }
}

/// Which routing policy the gateway runs with.
#[derive(Debug, Clone, Copy, PartialEq, Eq, Structural)]
pub enum PolicySelection {
    /// Pick the first eligible backend in config order.
    StaticPriority,
    /// Pick the eligible backend with the lowest EWMA latency. The blending
    /// factor is given by its `f64` bit pattern.
    EwmaLatency { alpha_bits: u64 },
}

/// The validated, fully resolved gateway configuration.
pub struct GatewayConfig {
    /// The socket address to listen on, as the configuration writes it.
    pub listen: String,
    pub backends: Vec<Backend>,
    pub virtual_keys: Vec<VirtualKey>,
    pub policy: PolicySelection,
}

impl View for GatewayConfig {
    type V = GatewayConfigView;

    open spec fn view(&self) -> GatewayConfigView {
        GatewayConfigView {
            listen: self.listen@,
            backends: self.backends@.map_values(|b: Backend| b@),
            virtual_keys: self.virtual_keys@.map_values(|k: VirtualKey| k@),
            policy: self.policy,
        }
    }
}

impl Clone for GatewayConfig {
    fn clone(&self) -> (r: Self)
        ensures
            r@ == self@,
    {
        let mut backends: Vec<Backend> = Vec::new();
        for i in 0..self.backends.len()
            invariant
                backends.len() == i,
                forall|k: int| 0 <= k < i ==> (#[trigger] backends@[k])@ == self.backends@[k]@,
        {
            backends.push(self.backends[i].clone());
        }
        let mut virtual_keys: Vec<VirtualKey> = Vec::new();
        for i in 0..self.virtual_keys.len()
            invariant
                virtual_keys.len() == i,
                forall|k: int|
                    0 <= k < i ==> (#[trigger] virtual_keys@[k]) == self.virtual_keys@[k],
        {
            virtual_keys.push(self.virtual_keys[i].clone());
        }
        let r = GatewayConfig {
            listen: self.listen.clone(),
            backends,
            virtual_keys,
            policy: self.policy,
        };
        assert(r@.backends == self@.backends);
        assert(r@.virtual_keys == self@.virtual_keys);
        r
    }
}

/// Why a configuration was rejected.
#[derive(Debug)]
pub enum ConfigError {
    /// There is no file at this path.
    NotFound(String),
    /// The file cannot be read.
    Io { path: String, source: String },
    /// The text is not a configuration.
    Parse(String),
    /// The listen address is not a socket address.
    InvalidListen { addr: String, source: String },
    /// At least one backend is required.
    NoBackends,
    EmptyBackendName,
    DuplicateBackend(String),
    /// `field` does not hold the name of an environment variable.
    InvalidEnvName { name: String, field: &'static str, value: String },
    /// The variable that `field` names is not set.
    MissingEnv { name: String, field: &'static str, var: String },
    /// The base URL must start with `http://` or `https://` and name a host.
    InvalidBaseUrl { name: String, url: String },
    /// A backend lists no model.
    NoModels(String),
    /// A list of a backend holds an empty string.
    EmptyEntry { name: String, field: &'static str },
    EmptyVirtualKeyName,
    DuplicateVirtualKey(String),
    /// `key_env` does not hold the name of an environment variable.
    InvalidKeyEnvName { name: String, value: String },
    /// The variable that `key_env` names is not set.
    MissingKeyEnv { name: String, var: String },
    /// The resolved key is empty.
    EmptyVirtualKey(String),
    /// Two virtual keys resolve to the same secret.
    DuplicateVirtualKeySecret(String, String),
    /// The blending factor (an `f64` bit pattern) is outside `(0, 1]`.
    InvalidAlpha(u64),
}

impl View for ConfigError {
    type V = ConfigErrorView;

    open spec fn view(&self) -> ConfigErrorView {
        match *self {
            ConfigError::NotFound(path) => ConfigErrorView::NotFound(path@),
            ConfigError::Io { path, source } => ConfigErrorView::Io {
                path: path@,
                source: source@,
            },
            ConfigError::Parse(source) => ConfigErrorView::Parse(source@),
            ConfigError::InvalidListen { addr, source } => ConfigErrorView::InvalidListen {
                addr: addr@,
                source: source@,
            },
            ConfigError::NoBackends => ConfigErrorView::NoBackends,
            ConfigError::EmptyBackendName => ConfigErrorView::EmptyBackendName,
            ConfigError::DuplicateBackend(name) => ConfigErrorView::DuplicateBackend(name@),
            ConfigError::InvalidEnvName { name, field, value } => ConfigErrorView::InvalidEnvName {
                name: name@,
                field: field@,
                value: value@,
            },
            ConfigError::MissingEnv { name, field, var } => ConfigErrorView::MissingEnv {
                name: name@,
                field: field@,
                var: var@,
            },
            ConfigError::InvalidBaseUrl { name, url } => ConfigErrorView::InvalidBaseUrl {
                name: name@,
                url: url@,
            },
            ConfigError::NoModels(name) => ConfigErrorView::NoModels(name@),
            ConfigError::EmptyEntry { name, field } => ConfigErrorView::EmptyEntry {
                name: name@,
                field: field@,
            },
            ConfigError::EmptyVirtualKeyName => ConfigErrorView::EmptyVirtualKeyName,
            ConfigError::DuplicateVirtualKey(name) => ConfigErrorView::DuplicateVirtualKey(name@),
            ConfigError::InvalidKeyEnvName { name, value } => ConfigErrorView::InvalidKeyEnvName {
                name: name@,
                value: value@,
            },
            ConfigError::MissingKeyEnv { name, var } => ConfigErrorView::MissingKeyEnv {
                name: name@,
                var: var@,
            },
            ConfigError::EmptyVirtualKey(name) => ConfigErrorView::EmptyVirtualKey(name@),
            ConfigError::DuplicateVirtualKeySecret(holder, name) =>
                ConfigErrorView::DuplicateVirtualKeySecret(holder@, name@),
            ConfigError::InvalidAlpha(bits) => ConfigErrorView::InvalidAlpha(bits),
        }
    }
}

/// A configuration as its file spells it, before resolution.
pub struct RawConfig {
    pub listen: String,
    pub backends: Vec<RawBackend>,
    pub virtual_keys: Vec<RawVirtualKey>,
    pub policy: RawPolicy,
}

impl View for RawConfig {
    type V = RawConfigView;

    open spec fn view(&self) -> RawConfigView {
        RawConfigView {
            listen: self.listen@,
            backends: self.backends@.map_values(|b: RawBackend| b@),
            virtual_keys: self.virtual_keys@.map_values(|k: RawVirtualKey| k@),
            policy: self.policy,
        }
    }
}

/// A `[[backends]]` entry.
pub struct RawBackend {
    pub name: String,
    pub base_url_env: String,
    pub api_key_env: Option<String>,
    pub models: Vec<String>,
    pub capability_tags: Vec<String>,
    pub privacy: Privacy,
}

impl View for RawBackend {
    type V = RawBackendView;

    open spec fn view(&self) -> RawBackendView {
        RawBackendView {
            name: self.name@,
            base_url_env: self.base_url_env@,
            api_key_env: match self.api_key_env {
                Some(var) => Some(var@),
                None => None,
            },
            models: text::texts(self.models@),
            capability_tags: text::texts(self.capability_tags@),
            privacy: self.privacy,
        }
    }
}

/// A `[[virtual_keys]]` entry.
pub struct RawVirtualKey {
    pub name: String,
    pub key_env: String,
    pub enforce_private: bool,
}

impl View for RawVirtualKey {
    type V = RawVirtualKeyView;

    open spec fn view(&self) -> RawVirtualKeyView {
        RawVirtualKeyView {
            name: self.name@,
            key_env: self.key_env@,
            enforce_private: self.enforce_private,
        }
    }
}

/// The `[policy]` table. Blending factors are `f64` bit patterns.
#[derive(Debug, Clone, Copy, PartialEq, Eq, Structural)]
pub enum RawPolicy {
    StaticPriority,
    EwmaLatency { alpha_bits: u64 },
}

impl Default for RawPolicy {
    fn default() -> (r: Self)
        ensures
            r == RawPolicy::StaticPriority,
    {
        RawPolicy::StaticPriority
    }
}

/// Where the gateway listens if the configuration does not say.
pub fn default_listen() -> (r: String)
    ensures
        r@ == "0.0.0.0:8080"@,
{
    "0.0.0.0:8080".to_owned()
}

/// The bit pattern of 0.3, the blending factor used if the configuration does
/// not give one.
pub fn default_alpha() -> (r: u64)
    ensures
        r == 0x3FD3_3333_3333_3333,
{
    0x3FD3_3333_3333_3333
}

/// A fixed environment, for [`GatewayConfig::from_raw`].
pub struct EnvTable {
    vars: StringHashMap<String>,
}

impl View for EnvTable {
    type V = Map<Seq<char>, Seq<char>>;

    closed spec fn view(&self) -> Map<Seq<char>, Seq<char>> {
        self.vars@.map_values(|value: String| value@)
    }
}

impl EnvTable {
    /// The table in which no variable is set.
    pub fn new() -> (r: Self)
        ensures
            r@ == Map::<Seq<char>, Seq<char>>::empty(),
    {
        let r = EnvTable { vars: StringHashMap::new() };
        assert(r@ =~= Map::<Seq<char>, Seq<char>>::empty());
        r
    }

    /// Set `name` to `value`.
    pub fn set(&mut self, name: String, value: String)
        ensures
            final(self)@ == old(self)@.insert(name@, value@),
    {
        self.vars.insert(name, value);
        assert(self@ =~= old(self)@.insert(name@, value@));
    }

    /// The value of `name`, if it is set.
    pub fn get(&self, name: &str) -> (r: Option<String>)
        ensures
            r is Some <==> self@.contains_key(name@),
            r matches Some(value) ==> value@ == self@[name@],
    {
        match self.vars.get(name) {
            Some(value) => Some(value.clone()),
            None => None,
        }
    }
}

}
