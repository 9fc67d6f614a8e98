//! Health scoring for a set of monitored HTTP endpoints.
//!
//! Each endpoint is probed in cycles; a strategy turns each probe's result
//! into the endpoint's next score, a store keeps one score per URL, and the
//! store names the best URL. Sending the probes is left to the caller, which
//! hands each cycle's outcomes to `Service::update`.

pub mod client;
pub mod request;
pub mod score;
pub mod service;
pub mod store;
pub mod strategy;

pub use request::{Request, RequestError};
pub use score::Score;
pub use service::{ProbeOutcome, Service};
