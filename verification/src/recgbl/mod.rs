//! Record-global alarm bookkeeping (recGbl*) and monitor event masks.
use vstd::prelude::*;
use crate::record::{AlarmSeverity, CommonFields, severity_code, severity_of};
use crate::recgbl::alarm_status::{NO_ALARM, STATE_ALARM, UDF_ALARM};

pub mod alarm_status;

verus! {

/// Event mask bits for monitor posting (matches EPICS DBE_*).
#[derive(Clone, Copy, Debug, Default, PartialEq, Eq, Structural)]
pub struct EventMask(pub u16);

impl EventMask {
    /// No event.
    pub fn none() -> (r: Self)
        ensures
            r.0 == 0,
    {
        EventMask(0)
    }

    /// A value change (DBE_VALUE).
    pub fn value() -> (r: Self)
        ensures
            r.0 == 0x01,
    {
        EventMask(0x01)
    }

    /// An archive (log) change (DBE_LOG).
    pub fn log() -> (r: Self)
        ensures
            r.0 == 0x02,
    {
        EventMask(0x02)
    }

    /// An alarm change (DBE_ALARM).
    pub fn alarm() -> (r: Self)
        ensures
            r.0 == 0x04,
    {
        EventMask(0x04)
    }

    /// A property change (DBE_PROPERTY).
    pub fn property() -> (r: Self)
        ensures
            r.0 == 0x08,
    {
        EventMask(0x08)
    }

    pub fn is_empty(self) -> (r: bool)
        ensures
            r == (self.0 == 0),
    {
        self.0 == 0
    }

    /// Whether every bit of `other` is set here.
    pub fn contains(self, other: Self) -> (r: bool)
        ensures
            r == (self.0 & other.0 == other.0),
    {
        (self.0 & other.0) == other.0
    }

    /// Whether some bit is set in both.
    pub fn intersects(self, other: Self) -> (r: bool)
        ensures
            r == (self.0 & other.0 != 0),
    {
        (self.0 & other.0) != 0
    }

    pub fn bits(self) -> (r: u16)
        ensures
            r == self.0,
    {
        self.0
    }

    pub fn from_bits(bits: u16) -> (r: Self)
        ensures
            r.0 == bits,
    {
        EventMask(bits)
    }
}

impl std::ops::BitOr for EventMask {
    type Output = Self;

    fn bitor(self, rhs: Self) -> (r: Self) {
        EventMask(self.0 | rhs.0)
    }
}

impl vstd::std_specs::ops::BitOrSpecImpl for EventMask {
    open spec fn obeys_bitor_spec() -> bool {
        true
    }

    open spec fn bitor_req(self, rhs: Self) -> bool {
        true
    }

    open spec fn bitor_spec(self, rhs: Self) -> Self {
        EventMask(self.0 | rhs.0)
    }
}

impl std::ops::BitAnd for EventMask {
    type Output = Self;

    fn bitand(self, rhs: Self) -> (r: Self) {
        EventMask(self.0 & rhs.0)
    }
}

impl vstd::std_specs::ops::BitAndSpecImpl for EventMask {
    open spec fn obeys_bitand_spec() -> bool {
        true
    }

    open spec fn bitand_req(self, rhs: Self) -> bool {
        true
    }

    open spec fn bitand_spec(self, rhs: Self) -> Self {
        EventMask(self.0 & rhs.0)
    }
}

/// Result of rec_gbl_reset_alarms: whether alarm state changed.
pub struct AlarmResetResult {
    pub alarm_changed: bool,
    pub prev_sevr: AlarmSeverity,
    pub prev_stat: u16,
}

/// The fields after raising the pending alarm to `sevr` with status `stat`:
/// only a strictly higher severity replaces the pending one.
pub open spec fn raised(c: CommonFields, stat: u16, sevr: AlarmSeverity) -> CommonFields {
    if severity_code(sevr) > severity_code(c.nsev) {
        CommonFields { nsta: stat, nsev: sevr, ..c }
    } else {
        c
    }
}

/// The fields after the pending alarm is made current and cleared.
pub open spec fn after_reset(c: CommonFields) -> CommonFields {
    CommonFields { sevr: c.nsev, stat: c.nsta, nsev: AlarmSeverity::NoAlarm, nsta: NO_ALARM, ..c }
}

/// The fields after the undefined-value check.
pub open spec fn after_udf_check(c: CommonFields) -> CommonFields {
    if c.udf {
        raised(c, UDF_ALARM, c.udfs)
    } else {
        c
    }
}

/// Set new alarm severity if it's higher than current nsta/nsev.
/// Matches EPICS recGblSetSevr: only raises alarm, never lowers.
pub fn rec_gbl_set_sevr(common: &mut CommonFields, stat: u16, sevr: AlarmSeverity)
    ensures
        *final(common) == raised(*old(common), stat, sevr),
{
    if sevr.code() > common.nsev.code() {
        common.nsta = stat;
        common.nsev = sevr;
    }
}

/// Transfer nsta/nsev to stat/sevr, detect alarm change, reset nsta/nsev.
/// Matches EPICS recGblResetAlarms. Call at end of process cycle.
pub fn rec_gbl_reset_alarms(common: &mut CommonFields) -> (r: AlarmResetResult)
    ensures
        *final(common) == after_reset(*old(common)),
        r.prev_sevr == old(common).sevr,
        r.prev_stat == old(common).stat,
        r.alarm_changed == (old(common).nsev != old(common).sevr || old(common).nsta != old(common).stat),
{
    let prev_sevr = common.sevr;
    let prev_stat = common.stat;

    common.sevr = common.nsev;
    common.stat = common.nsta;

    common.nsev = AlarmSeverity::NoAlarm;
    common.nsta = NO_ALARM;

    let alarm_changed = common.sevr != prev_sevr || common.stat != prev_stat;

    AlarmResetResult { alarm_changed, prev_sevr, prev_stat }
}

/// Check UDF alarm: if record is still undefined, raise UDF_ALARM with UDFS severity.
pub fn rec_gbl_check_udf(common: &mut CommonFields)
    ensures
        *final(common) == after_udf_check(*old(common)),
{
    if common.udf {
        let udfs = common.udfs;
        rec_gbl_set_sevr(common, UDF_ALARM, udfs);
    }
}

/// Raising never lowers the pending severity, and after any two raises the
/// pending severity is the highest of the three, whatever their order.
#[verifier::spinoff_prover]
pub proof fn raise_keeps_highest(
    c: CommonFields,
    s1: u16,
    v1: AlarmSeverity,
    s2: u16,
    v2: AlarmSeverity,
)
    ensures
        severity_code(raised(c, s1, v1).nsev) >= severity_code(c.nsev),
        severity_code(raised(c, s1, v1).nsev) >= severity_code(v1),
        raised(raised(c, s1, v1), s2, v2).nsev == raised(raised(c, s2, v2), s1, v1).nsev,
        severity_code(raised(raised(c, s1, v1), s2, v2).nsev) == vstd::math::max(
            severity_code(c.nsev) as int,
            vstd::math::max(severity_code(v1) as int, severity_code(v2) as int),
        ),
{
    let a = c.nsev;
    let m1 = if severity_code(v1) > severity_code(a) { v1 } else { a };
    assert(raised(c, s1, v1).nsev == m1);
    let m12 = if severity_code(v2) > severity_code(m1) { v2 } else { m1 };
    assert(raised(raised(c, s1, v1), s2, v2).nsev == m12);
    let m2 = if severity_code(v2) > severity_code(a) { v2 } else { a };
    assert(raised(c, s2, v2).nsev == m2);
    let m21 = if severity_code(v1) > severity_code(m2) { v1 } else { m2 };
    assert(raised(raised(c, s2, v2), s1, v1).nsev == m21);
    assert(severity_code(m12) == severity_code(m21));
    severity_code_injective(m12, m21);
}

/// Different severities have different numbers.
proof fn severity_code_injective(x: AlarmSeverity, y: AlarmSeverity)
    requires
        severity_code(x) == severity_code(y),
    ensures
        x == y,
{
    match x {
        AlarmSeverity::NoAlarm => {},
        AlarmSeverity::Minor => {},
        AlarmSeverity::Major => {},
        AlarmSeverity::Invalid => {},
    }
}

/// Raising changes nothing but the pending alarm.
pub proof fn raise_touches_only_pending(c: CommonFields, stat: u16, sevr: AlarmSeverity)
    ensures
        raised(c, stat, sevr).sevr == c.sevr,
        raised(c, stat, sevr).stat == c.stat,
        raised(c, stat, sevr) == (CommonFields {
            nsev: raised(c, stat, sevr).nsev,
            nsta: raised(c, stat, sevr).nsta,
            ..c
        }),
{
}

/// A cycle in which nothing raises an alarm clears the current alarm, and a
/// reset reports a change exactly when the alarm it makes current differs
/// from the one before.
pub proof fn quiet_cycle_clears(c: CommonFields)
    ensures
        after_reset(after_reset(c)).sevr == AlarmSeverity::NoAlarm,
        after_reset(after_reset(c)).stat == NO_ALARM,
        after_reset(c).nsev == AlarmSeverity::NoAlarm,
        after_reset(c).nsta == NO_ALARM,
{
}

/// A raise followed by a reset makes the raised alarm current when it is
/// higher than anything pending.
pub proof fn raise_then_reset(c: CommonFields, stat: u16, sevr: AlarmSeverity)
    requires
        severity_code(sevr) > severity_code(c.nsev),
    ensures
        after_reset(raised(c, stat, sevr)).sevr == sevr,
        after_reset(raised(c, stat, sevr)).stat == stat,
{
}

/// The higher of two severities (the first when they are equal).
pub open spec fn higher(a: AlarmSeverity, b: AlarmSeverity) -> AlarmSeverity {
    if severity_code(b) > severity_code(a) { b } else { a }
}

/// The severity of a state alarm: the state's severity field or the
/// change-of-state severity, whichever is higher.
pub open spec fn state_severity(state_sev: i16, cosv: i16) -> AlarmSeverity {
    higher(severity_of(state_sev as u16), severity_of(cosv as u16))
}

/// The fields after a state alarm check of a binary or multi-bit record
/// whose current state has severity field `state_sev`.
pub open spec fn after_state_check(c: CommonFields, state_sev: i16, cosv: i16) -> CommonFields {
    if state_severity(state_sev, cosv) != AlarmSeverity::NoAlarm {
        raised(c, STATE_ALARM, state_severity(state_sev, cosv))
    } else {
        c
    }
}

/// Raise a STATE_ALARM for the current state of a binary or multi-bit
/// record: `state_sev` is the severity field of the state (ZSV/OSV, or the
/// ZRSV..FFSV field, or UNSV for an unknown state) and `cosv` the
/// change-of-state severity.
pub fn raise_state_alarm(common: &mut CommonFields, state_sev: i16, cosv: i16)
    ensures
        *final(common) == after_state_check(*old(common), state_sev, cosv),
{
    let sev = AlarmSeverity::from_u16(state_sev as u16);
    let cos_sev = AlarmSeverity::from_u16(cosv as u16);
    let final_sev = if cos_sev.code() > sev.code() { cos_sev } else { sev };
    if final_sev != AlarmSeverity::NoAlarm {
        rec_gbl_set_sevr(common, STATE_ALARM, final_sev);
    }
}

/// The severity field of a binary record's state: ZSV for state 0, OSV
/// otherwise.
pub fn binary_state_sev(val: u16, zsv: i16, osv: i16) -> (r: i16)
    ensures
        r == (if val == 0 { zsv } else { osv }),
{
    if val == 0 { zsv } else { osv }
}

/// The severity field of a multi-bit record's state: the field of the
/// state among the sixteen (`None` where the record has none), else UNSV.
pub fn multibit_state_sev(val: u16, state_sevs: &Vec<Option<i16>>, unsv: i16) -> (r: i16)
    ensures
        r == (if val < 16 && (val as int) < state_sevs@.len() && state_sevs@[val as int] is Some {
            state_sevs@[val as int]->0
        } else {
            unsv
        }),
{
    if val < 16 && (val as usize) < state_sevs.len() {
        match state_sevs[val as usize] {
            Some(s) => s,
            None => unsv,
        }
    } else {
        unsv
    }
}

} // verus!
