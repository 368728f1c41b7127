//! What a CORS-bypass GET proxy decides.
//!
//! [`exchange`] follows a request from its arrival to its answer; the other modules hold
//! what that takes: target URLs and header forwarding ([`proxy`]), allow and deny lists
//! ([`matcher`]), CORS ([`cors`]), limits ([`limit`]) and the response cache ([`cache`]).
//! Input and output are left to the caller.

pub mod cache;
pub mod clock;
pub mod config;
pub mod cors;
pub mod error;
pub mod exchange;
pub mod extractors;
pub mod freshness;
pub mod headers;
pub mod limit;
pub mod matcher;
pub mod pattern;
pub mod proxy;
pub mod rates;
pub mod rules;
pub mod state;
pub mod store;
pub mod text;
pub mod urls;
pub mod variants;
