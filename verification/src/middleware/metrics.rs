//! The request-metrics middleware's data.  Counter registration and
//! observation live with the routing layer outside the core.

use vstd::prelude::*;

verus! {

/// The metrics layer's marker.
#[derive(Debug, Clone, PartialEq, Eq, Structural)]
pub struct Metrics;

/// The metrics layer wrapped around an inner service.
pub struct MetricsMiddleware<S> {
    pub service: S,
}

} // verus!
