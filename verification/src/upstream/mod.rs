//! Talking to upstream model servers.
pub mod client;
pub mod relay;
pub mod relay_laws;
pub mod sse;
pub mod sse_grammar;
pub mod sse_laws;

pub use client::{UpstreamClient, UpstreamError, UpstreamRequest};
pub use relay::{
    RelayError, RelayEvent, RelayOutcome, RelayStep, RelaySummary, RelayTurn, SseRelay,
};
pub use sse::{Usage, UsageScanner};
