//! Alarm status codes matching EPICS base.
use vstd::prelude::*;

verus! {

pub const NO_ALARM: u16 = 0;
pub const HIGH_ALARM: u16 = 1;
pub const LOW_ALARM: u16 = 2;
pub const HIHI_ALARM: u16 = 3;
pub const LOLO_ALARM: u16 = 4;
pub const STATE_ALARM: u16 = 5;
pub const COS_ALARM: u16 = 6;
pub const READ_ALARM: u16 = 7;
pub const WRITE_ALARM: u16 = 8;
pub const COMM_ALARM: u16 = 9;
pub const TIMEOUT_ALARM: u16 = 10;
pub const HW_LIMIT_ALARM: u16 = 11;
pub const SCAN_ALARM: u16 = 12;
pub const LINK_ALARM: u16 = 13;
pub const DISABLE_ALARM: u16 = 14;
pub const SIMM_ALARM: u16 = 15;
pub const SOFT_ALARM: u16 = 16;
pub const UDF_ALARM: u16 = 17;
pub const CALC_ALARM: u16 = 18;

} // verus!
