//! Keeps the A / AAAA records of a managed DNS zone in step with the
//! caller's current public IP address.
//!
//! The crate holds the reconciliation core: given a snapshot of the zone's
//! records, the configured record names and the observed public addresses,
//! it computes the minimal plan of create / replace operations and drives
//! their execution step by step.  The HTTP transport, configuration loading
//! and logging live outside the library and hand it plain values.

pub mod engine;
pub mod ip;
pub mod plan;
pub mod record;

use vstd::prelude::*;

verus! {

/// An HTTP status code counts as success exactly when it lies in the 2xx range.
pub fn http_success(status: u16) -> (r: bool)
    ensures
        r == (200 <= status < 300),
{
    200 <= status && status < 300
}

} // verus!
