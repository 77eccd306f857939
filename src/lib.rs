//! Request-time authorization: a Basic credential extractor, a per-request
//! context that carries the resolved identity, an in-process policy engine
//! with transitive roles and a pluggable object matcher, and the middleware
//! that runs them in order.

pub mod identity;
pub mod policy;
pub mod extract;
pub mod middleware;
pub mod roles;
pub mod rule_source;
