//! What is measured: the replies of Redis servers, and the series made of them.

use vstd::prelude::*;

pub mod catalogue;
pub mod collector;
pub mod info;
pub mod resp;
pub mod server;

verus! {

/// How the outcome of a reconciliation is named in its counter.
pub fn result_label(ok: bool) -> (s: &'static str)
    ensures
        s@ == (if ok {
            "success"@
        } else {
            "error"@
        }),
{
    if ok {
        "success"
    } else {
        "error"
    }
}

} // verus!
