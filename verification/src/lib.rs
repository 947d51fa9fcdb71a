//! patchbay, an OpenAI-compatible LLM gateway/router.
//!
//! - [`config`]: resolution and validation of the configuration, with secrets
//!   taken from the environment.
//! - [`auth`]: virtual keys and Bearer tokens.
//! - [`router`]: policy-driven backend selection with **type-enforced privacy
//!   routing**: a request classified as private cannot reach an `External`
//!   backend.
//! - [`upstream`]: the byte-faithful SSE relay, with usage interception for
//!   accounting, stall detection and client disconnects.
//! - [`metrics`]: counters and their Prometheus exposition.
//!
//! What the functions do is stated in their contracts; what holds of the
//! library as a whole is stated and proved in modules of its own:
//! [`config::laws`], [`config::rules`] and [`config::view_laws`];
//! [`router_laws`]; [`upstream::sse_grammar`], [`upstream::sse_laws`] and
//! [`upstream::relay_laws`]; [`metrics_laws`], [`metrics_text`] and
//! [`metrics_history`]; [`text_laws`] and [`binary64_laws`]. Those of [`auth`]
//! and of [`upstream::client`] stand in them.
pub mod auth;
pub mod binary64;
pub mod binary64_laws;
pub mod config;
pub mod metrics;
pub mod metrics_history;
pub mod metrics_laws;
pub mod metrics_text;
pub mod router;
pub mod router_laws;
mod sealed;
pub mod text;
pub mod text_laws;
pub mod text_order;
pub mod upstream;
