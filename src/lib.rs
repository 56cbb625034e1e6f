//! Per-client request tallying: a counter store keyed by client address,
//! the ranked textual report drawn from it, and the decision logic of the
//! periodic reporter and of the shutdown coordinator.

pub mod address;
pub mod store;
pub mod report;
pub mod text;
pub mod shutdown;
pub mod reporter;
pub mod interceptor;
