//! Self-describing API keys, short-lived signed access tokens and
//! per-identifier admission control, with machine-checked contracts.
//!
//! * [`security`] issues API keys and checks them: six fields divided by
//!   `_`, the last of them a checksum over the others.
//! * [`token`] issues and checks access tokens: signed claims that hold for
//!   one hour.
//! * [`rate_limit`] decides whether a request is admitted: a cap on the
//!   requests of each identifier in each window of time, by policy, and a
//!   registry of policies by request category.
//! * [`routing`] tells under which category and for which client a request
//!   is limited, and what a client is told that was turned away.
//! * [`text`] holds the notations and text operations that the others are
//!   built on.
//! * [`primitives`] holds what is taken on trust from other crates and from
//!   the operating system: digests, base 32, signatures, randomness and
//!   clocks.
//!
//! Every function that reads a clock has a twin that takes the reading from
//! its caller, so that what the library does can be stated, proved and
//! tested for any moment in time.

pub mod errors;
mod keyed;
pub mod models;
pub mod primitives;
pub mod rate_limit;
pub mod routing;
pub mod security;
pub mod text;
pub mod token;

pub use errors::ApiError;
pub use models::ApiKey;
pub use rate_limit::{RateLimitConfig, RateLimitManager, RateLimiter};
pub use security::ApiKeyService;
pub use token::{Claims, TokenService};
