//! Device support: built-in soft device types and the outcome of a read.
use vstd::prelude::*;
use crate::text::str_eq;

verus! {

/// Whether a DTYP names a built-in soft device support (or is empty).
pub open spec fn soft_dtyp(d: Seq<char>) -> bool {
    ||| d.len() == 0
    ||| d == "Soft Channel"@
    ||| d == "Raw Soft Channel"@
    ||| d == "Async Soft Channel"@
    ||| d == "Soft Timestamp"@
    ||| d == "Sec Past Epoch"@
}

/// Check if a DTYP string represents a soft/built-in device support
/// that doesn't require an explicit device support registration.
/// Matches C EPICS built-in soft device support names.
pub fn is_soft_dtyp(dtyp: &str) -> (r: bool)
    ensures
        r == soft_dtyp(dtyp@),
{
    dtyp.is_empty()
        || str_eq(dtyp, "Soft Channel")
        || str_eq(dtyp, "Raw Soft Channel")
        || str_eq(dtyp, "Async Soft Channel")
        || str_eq(dtyp, "Soft Timestamp")
        || str_eq(dtyp, "Sec Past Epoch")
}

/// Result of a device support `read()` call.
///
/// - `ok()` (C `read_ai()` returns 0): device support wrote RVAL; the
///   record's `process()` runs its conversion to produce VAL.
/// - `computed()` (C `read_ai()` returns 2): device support wrote VAL
///   directly; the record's conversion is skipped.
///
/// `A` is the type of the side-effect actions (link writes, delayed
/// reprocess) that the framework executes after `process()`.
pub struct DeviceReadOutcome<A> {
    /// Actions for the framework to execute, in order.
    pub actions: Vec<A>,
    /// If true, the record's built-in conversion (e.g. ai RVAL→VAL) is
    /// skipped. Set this when device support writes VAL directly.
    pub did_compute: bool,
}

impl<A> DeviceReadOutcome<A> {
    /// Device support wrote RVAL; record will run its conversion to produce VAL.
    pub fn ok() -> (r: Self)
        ensures
            r.actions@.len() == 0,
            !r.did_compute,
    {
        DeviceReadOutcome { actions: Vec::new(), did_compute: false }
    }

    /// Device support wrote VAL directly; record will skip conversion.
    pub fn computed() -> (r: Self)
        ensures
            r.actions@.len() == 0,
            r.did_compute,
    {
        DeviceReadOutcome { actions: Vec::new(), did_compute: true }
    }

    /// Shorthand for a computed read with actions.
    pub fn computed_with(actions: Vec<A>) -> (r: Self)
        ensures
            r.actions@ == actions@,
            r.did_compute,
    {
        DeviceReadOutcome { actions, did_compute: true }
    }
}

} // verus!
