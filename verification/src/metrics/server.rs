//! What the operator serves over HTTP besides its metrics.

use vstd::prelude::*;

verus! {

/// The content type of the exposition.
pub const OPENMETRICS: &'static str =
    "application/openmetrics-text; version=1.0.0; charset=utf-8";

/// The answer to the question whether the operator is ready: once pods have been
/// listed, for then the cluster is known to answer. Status and text.
pub fn readiness(polled: bool) -> (r: (u16, &'static str))
    ensures
        r.0 == (if polled {
            200u16
        } else {
            503
        }),
        r.1@ == (if polled {
            "ok"@
        } else {
            "waiting for the first pod poll"@
        }),
{
    if polled {
        (200, "ok")
    } else {
        (503, "waiting for the first pod poll")
    }
}

} // verus!
