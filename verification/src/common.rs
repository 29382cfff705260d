//! Reading and writing the common fields of a record by field name, for the
//! integer and string fields.  The timestamp, hysteresis and analog alarm
//! limits are floating-point and are served beside these functions.
use vstd::prelude::*;
use crate::record::{
    scan_named, scan_of, scan_code, severity_code, severity_of, AlarmSeverity, CommonFieldPutResult,
    AnalogSeverities, CommonFields, FieldValue, ScanType,
};
use crate::text::{chars_of, push_all, push_str, seq_ascii_upper, str_eq, string_of_vec, to_ascii_upper, trim, trim_vec};

verus! {

/// Why a write to a common field was refused.
#[derive(Debug, Clone, PartialEq, Eq)]
pub enum PutFieldError {
    /// The value names no scan type.
    InvalidValue(String),
    /// The field may not be written.
    ReadOnlyField(String),
}

/// Spec-level counterpart of [`PutFieldError`].
pub enum PutFail {
    InvalidValue(Seq<char>),
    ReadOnlyField(Seq<char>),
}

impl PutFieldError {
    pub open spec fn model(&self) -> PutFail {
        match self {
            PutFieldError::InvalidValue(m) => PutFail::InvalidValue(m@),
            PutFieldError::ReadOnlyField(f) => PutFail::ReadOnlyField(f@),
        }
    }
}

/// The scan type a value selects: a menu index (as `Short` or `Enum`) or a
/// menu string; `None` for other kinds.
pub open spec fn scan_value(v: FieldValue) -> Option<Result<ScanType, PutFail>> {
    match v {
        FieldValue::Short(n) => Some(Ok(scan_of(n as u16))),
        FieldValue::Enum(n) => Some(Ok(scan_of(n))),
        FieldValue::String(s) => Some(match scan_named(s@) {
            Some(t) => Ok(t),
            None => Err(PutFail::InvalidValue("unknown scan type: '"@ + trim(s@) + "'"@)),
        }),
        _ => None,
    }
}

/// The common fields that can be written by name.
#[derive(Debug, Clone, Copy, PartialEq, Eq, Structural)]
pub enum CommonSlot {
    Sevr, Stat, Nsev, Nsta, Acks, Ackt, Udf, Udfs, Scan, Sscn, Pini, Tpro, Bkpt,
    Flnk, Inp, Out, Dtyp, Tse, Tsel, Asg, Desc, Phas, Evnt, Prio, Disv, Disa,
    Sdis, Diss, Lcnt, Disp, Putf, Pact, Rpro, Proc, Hhsv, Hsv, Lsv, Llsv, Other,
}

/// The slot an upper-case field name selects.
pub open spec fn slot_named(n: Seq<char>) -> CommonSlot {
    if n == "SEVR"@ { CommonSlot::Sevr }
    else if n == "STAT"@ { CommonSlot::Stat }
    else if n == "NSEV"@ { CommonSlot::Nsev }
    else if n == "NSTA"@ { CommonSlot::Nsta }
    else if n == "ACKS"@ { CommonSlot::Acks }
    else if n == "ACKT"@ { CommonSlot::Ackt }
    else if n == "UDF"@ { CommonSlot::Udf }
    else if n == "UDFS"@ { CommonSlot::Udfs }
    else if n == "SCAN"@ { CommonSlot::Scan }
    else if n == "SSCN"@ { CommonSlot::Sscn }
    else if n == "PINI"@ { CommonSlot::Pini }
    else if n == "TPRO"@ { CommonSlot::Tpro }
    else if n == "BKPT"@ { CommonSlot::Bkpt }
    else if n == "FLNK"@ { CommonSlot::Flnk }
    else if n == "INP"@ { CommonSlot::Inp }
    else if n == "OUT"@ { CommonSlot::Out }
    else if n == "DTYP"@ { CommonSlot::Dtyp }
    else if n == "TSE"@ { CommonSlot::Tse }
    else if n == "TSEL"@ { CommonSlot::Tsel }
    else if n == "ASG"@ { CommonSlot::Asg }
    else if n == "DESC"@ { CommonSlot::Desc }
    else if n == "PHAS"@ { CommonSlot::Phas }
    else if n == "EVNT"@ { CommonSlot::Evnt }
    else if n == "PRIO"@ { CommonSlot::Prio }
    else if n == "DISV"@ { CommonSlot::Disv }
    else if n == "DISA"@ { CommonSlot::Disa }
    else if n == "SDIS"@ { CommonSlot::Sdis }
    else if n == "DISS"@ { CommonSlot::Diss }
    else if n == "LCNT"@ { CommonSlot::Lcnt }
    else if n == "DISP"@ { CommonSlot::Disp }
    else if n == "PUTF"@ { CommonSlot::Putf }
    else if n == "PACT"@ { CommonSlot::Pact }
    else if n == "RPRO"@ { CommonSlot::Rpro }
    else if n == "PROC"@ { CommonSlot::Proc }
    else if n == "HHSV"@ { CommonSlot::Hhsv }
    else if n == "HSV"@ { CommonSlot::Hsv }
    else if n == "LSV"@ { CommonSlot::Lsv }
    else if n == "LLSV"@ { CommonSlot::Llsv }
    else { CommonSlot::Other }
}

/// The slot a field name, in any case, selects.
pub fn common_slot(name: &str) -> (r: CommonSlot)
    ensures
        r == slot_named(seq_ascii_upper(name@)),
{
    let u = to_ascii_upper(&chars_of(name));
    let n = string_of_vec(&u);
    let n = n.as_str();
    if str_eq(n, "SEVR") { CommonSlot::Sevr }
    else if str_eq(n, "STAT") { CommonSlot::Stat }
    else if str_eq(n, "NSEV") { CommonSlot::Nsev }
    else if str_eq(n, "NSTA") { CommonSlot::Nsta }
    else if str_eq(n, "ACKS") { CommonSlot::Acks }
    else if str_eq(n, "ACKT") { CommonSlot::Ackt }
    else if str_eq(n, "UDF") { CommonSlot::Udf }
    else if str_eq(n, "UDFS") { CommonSlot::Udfs }
    else if str_eq(n, "SCAN") { CommonSlot::Scan }
    else if str_eq(n, "SSCN") { CommonSlot::Sscn }
    else if str_eq(n, "PINI") { CommonSlot::Pini }
    else if str_eq(n, "TPRO") { CommonSlot::Tpro }
    else if str_eq(n, "BKPT") { CommonSlot::Bkpt }
    else if str_eq(n, "FLNK") { CommonSlot::Flnk }
    else if str_eq(n, "INP") { CommonSlot::Inp }
    else if str_eq(n, "OUT") { CommonSlot::Out }
    else if str_eq(n, "DTYP") { CommonSlot::Dtyp }
    else if str_eq(n, "TSE") { CommonSlot::Tse }
    else if str_eq(n, "TSEL") { CommonSlot::Tsel }
    else if str_eq(n, "ASG") { CommonSlot::Asg }
    else if str_eq(n, "DESC") { CommonSlot::Desc }
    else if str_eq(n, "PHAS") { CommonSlot::Phas }
    else if str_eq(n, "EVNT") { CommonSlot::Evnt }
    else if str_eq(n, "PRIO") { CommonSlot::Prio }
    else if str_eq(n, "DISV") { CommonSlot::Disv }
    else if str_eq(n, "DISA") { CommonSlot::Disa }
    else if str_eq(n, "SDIS") { CommonSlot::Sdis }
    else if str_eq(n, "DISS") { CommonSlot::Diss }
    else if str_eq(n, "LCNT") { CommonSlot::Lcnt }
    else if str_eq(n, "DISP") { CommonSlot::Disp }
    else if str_eq(n, "PUTF") { CommonSlot::Putf }
    else if str_eq(n, "PACT") { CommonSlot::Pact }
    else if str_eq(n, "RPRO") { CommonSlot::Rpro }
    else if str_eq(n, "PROC") { CommonSlot::Proc }
    else if str_eq(n, "HHSV") { CommonSlot::Hhsv }
    else if str_eq(n, "HSV") { CommonSlot::Hsv }
    else if str_eq(n, "LSV") { CommonSlot::Lsv }
    else if str_eq(n, "LLSV") { CommonSlot::Llsv }
    else { CommonSlot::Other }
}

/// The common fields after writing `v` to the field in `slot`, and the scan
/// index update it calls for.  A value of a kind the field does not take
/// changes nothing.
pub open spec fn put_slot(c: CommonFields, slot: CommonSlot, v: FieldValue) -> Result<(CommonFields, CommonFieldPutResult), PutFail> {
    let same = Ok((c, CommonFieldPutResult::NoChange));
    match slot {
        CommonSlot::Sevr => if let FieldValue::Short(x) = v { Ok((CommonFields { sevr: severity_of(x as u16), ..c }, CommonFieldPutResult::NoChange)) } else { same },
        CommonSlot::Stat => if let FieldValue::Short(x) = v { Ok((CommonFields { stat: x as u16, ..c }, CommonFieldPutResult::NoChange)) } else { same },
        CommonSlot::Nsev => if let FieldValue::Short(x) = v { Ok((CommonFields { nsev: severity_of(x as u16), ..c }, CommonFieldPutResult::NoChange)) } else { same },
        CommonSlot::Nsta => if let FieldValue::Short(x) = v { Ok((CommonFields { nsta: x as u16, ..c }, CommonFieldPutResult::NoChange)) } else { same },
        CommonSlot::Acks => if let FieldValue::Short(x) = v { Ok((CommonFields { acks: severity_of(x as u16), ..c }, CommonFieldPutResult::NoChange)) } else { same },
        CommonSlot::Ackt => if let FieldValue::Char(x) = v { Ok((CommonFields { ackt: x != 0, ..c }, CommonFieldPutResult::NoChange)) } else { same },
        CommonSlot::Udf => if let FieldValue::Char(x) = v { Ok((CommonFields { udf: x != 0, ..c }, CommonFieldPutResult::NoChange)) } else { same },
        CommonSlot::Udfs => if let FieldValue::Short(x) = v { Ok((CommonFields { udfs: severity_of(x as u16), ..c }, CommonFieldPutResult::NoChange)) } else { same },
        CommonSlot::Scan => match scan_value(v) {
            None => same,
            Some(Err(f)) => Err(f),
            Some(Ok(t)) => if t != c.scan {
                Ok((CommonFields { scan: t, ..c }, CommonFieldPutResult::ScanChanged { old_scan: c.scan, new_scan: t, phas: c.phas }))
            } else {
                same
            },
        },
        CommonSlot::Sscn => match scan_value(v) {
            None => same,
            Some(Err(f)) => Err(f),
            Some(Ok(t)) => Ok((CommonFields { sscn: t, ..c }, CommonFieldPutResult::NoChange)),
        },
        CommonSlot::Pini => match v {
            FieldValue::Char(x) => Ok((CommonFields { pini: x != 0, ..c }, CommonFieldPutResult::NoChange)),
            FieldValue::String(s) => Ok((CommonFields { pini: s@ == "YES"@ || s@ == "1"@ || s@ == "true"@, ..c }, CommonFieldPutResult::NoChange)),
            _ => same,
        },
        CommonSlot::Tpro => if let FieldValue::Char(x) = v { Ok((CommonFields { tpro: x != 0, ..c }, CommonFieldPutResult::NoChange)) } else { same },
        CommonSlot::Bkpt => if let FieldValue::Char(x) = v { Ok((CommonFields { bkpt: x, ..c }, CommonFieldPutResult::NoChange)) } else { same },
        CommonSlot::Flnk => if let FieldValue::String(s) = v { Ok((CommonFields { flnk: s, ..c }, CommonFieldPutResult::NoChange)) } else { same },
        CommonSlot::Inp => if let FieldValue::String(s) = v { Ok((CommonFields { inp: s, ..c }, CommonFieldPutResult::NoChange)) } else { same },
        CommonSlot::Out => if let FieldValue::String(s) = v { Ok((CommonFields { out: s, ..c }, CommonFieldPutResult::NoChange)) } else { same },
        CommonSlot::Dtyp => if let FieldValue::String(s) = v { Ok((CommonFields { dtyp: s, ..c }, CommonFieldPutResult::NoChange)) } else { same },
        CommonSlot::Tse => if let FieldValue::Short(x) = v { Ok((CommonFields { tse: x, ..c }, CommonFieldPutResult::NoChange)) } else { same },
        CommonSlot::Tsel => if let FieldValue::String(s) = v { Ok((CommonFields { tsel: s, ..c }, CommonFieldPutResult::NoChange)) } else { same },
        CommonSlot::Asg => if let FieldValue::String(s) = v { Ok((CommonFields { asg: s, ..c }, CommonFieldPutResult::NoChange)) } else { same },
        CommonSlot::Desc => if let FieldValue::String(s) = v { Ok((CommonFields { desc: s, ..c }, CommonFieldPutResult::NoChange)) } else { same },
        CommonSlot::Phas => if let FieldValue::Short(x) = v {
            if c.phas != x && c.scan != ScanType::Passive {
                Ok((CommonFields { phas: x, ..c }, CommonFieldPutResult::PhasChanged { scan: c.scan, old_phas: c.phas, new_phas: x }))
            } else {
                Ok((CommonFields { phas: x, ..c }, CommonFieldPutResult::NoChange))
            }
        } else {
            same
        },
        CommonSlot::Evnt => if let FieldValue::Short(x) = v { Ok((CommonFields { evnt: x, ..c }, CommonFieldPutResult::NoChange)) } else { same },
        CommonSlot::Prio => if let FieldValue::Short(x) = v { Ok((CommonFields { prio: x, ..c }, CommonFieldPutResult::NoChange)) } else { same },
        CommonSlot::Disv => if let FieldValue::Short(x) = v { Ok((CommonFields { disv: x, ..c }, CommonFieldPutResult::NoChange)) } else { same },
        CommonSlot::Disa => if let FieldValue::Short(x) = v { Ok((CommonFields { disa: x, ..c }, CommonFieldPutResult::NoChange)) } else { same },
        CommonSlot::Sdis => if let FieldValue::String(s) = v { Ok((CommonFields { sdis: s, ..c }, CommonFieldPutResult::NoChange)) } else { same },
        CommonSlot::Diss => if let FieldValue::Short(x) = v { Ok((CommonFields { diss: severity_of(x as u16), ..c }, CommonFieldPutResult::NoChange)) } else { same },
        CommonSlot::Lcnt => if let FieldValue::Short(x) = v { Ok((CommonFields { lcnt: x, ..c }, CommonFieldPutResult::NoChange)) } else { same },
        CommonSlot::Disp => match v {
            FieldValue::Char(x) => Ok((CommonFields { disp: x != 0, ..c }, CommonFieldPutResult::NoChange)),
            FieldValue::Short(x) => Ok((CommonFields { disp: x != 0, ..c }, CommonFieldPutResult::NoChange)),
            _ => same,
        },
        CommonSlot::Putf => Err(PutFail::ReadOnlyField("PUTF"@)),
        CommonSlot::Pact => Err(PutFail::ReadOnlyField("PACT"@)),
        CommonSlot::Rpro => if let FieldValue::Char(x) = v { Ok((CommonFields { rpro: x != 0, ..c }, CommonFieldPutResult::NoChange)) } else { same },
        CommonSlot::Proc => same,
        CommonSlot::Hhsv | CommonSlot::Hsv | CommonSlot::Lsv | CommonSlot::Llsv => match (c.analog_sevs, v) {
            (Some(a), FieldValue::Short(x)) => Ok((CommonFields { analog_sevs: Some(with_analog_sev(a, slot, severity_of(x as u16))), ..c }, CommonFieldPutResult::NoChange)),
            _ => same,
        },
        CommonSlot::Other => same,
    }
}

/// The analog severities with the one of `slot` set to `s`.
pub open spec fn with_analog_sev(a: AnalogSeverities, slot: CommonSlot, s: AlarmSeverity) -> AnalogSeverities {
    match slot {
        CommonSlot::Hhsv => AnalogSeverities { hhsv: s, ..a },
        CommonSlot::Hsv => AnalogSeverities { hsv: s, ..a },
        CommonSlot::Lsv => AnalogSeverities { lsv: s, ..a },
        _ => AnalogSeverities { llsv: s, ..a },
    }
}

/// The analog severity in `slot`.
pub open spec fn analog_sev(a: AnalogSeverities, slot: CommonSlot) -> AlarmSeverity {
    match slot {
        CommonSlot::Hhsv => a.hhsv,
        CommonSlot::Hsv => a.hsv,
        CommonSlot::Lsv => a.lsv,
        _ => a.llsv,
    }
}

/// The common fields after writing `v` to the field named `n` (upper-case).
pub open spec fn put_common(c: CommonFields, n: Seq<char>, v: FieldValue) -> Result<(CommonFields, CommonFieldPutResult), PutFail> {
    put_slot(c, slot_named(n), v)
}

/// Parses a scan value; `None` for kinds that select no scan type.
fn scan_from_value(v: &FieldValue) -> (r: Option<Result<ScanType, PutFieldError>>)
    ensures
        match r {
            None => scan_value(*v) is None,
            Some(Ok(t)) => scan_value(*v) == Some(Ok::<ScanType, PutFail>(t)),
            Some(Err(e)) => scan_value(*v) == Some(Err::<ScanType, PutFail>(e.model())),
        },
{
    match v {
        FieldValue::Short(n) => Some(Ok(ScanType::from_u16(*n as u16))),
        FieldValue::Enum(n) => Some(Ok(ScanType::from_u16(*n))),
        FieldValue::String(s) => match ScanType::from_str(s.as_str()) {
            Ok(t) => Some(Ok(t)),
            Err(u) => {
                let mut m: Vec<char> = Vec::new();
                push_str(&mut m, "unknown scan type: '");
                push_all(&mut m, &chars_of(u.text.as_str()));
                push_str(&mut m, "'");
                Some(Err(PutFieldError::InvalidValue(string_of_vec(&m))))
            },
        },
        _ => None,
    }
}

/// Set a common field value (the name in any case).  Returns what scan
/// index changes are needed.
pub fn put_common_field(common: &mut CommonFields, name: &str, value: FieldValue) -> (r: Result<CommonFieldPutResult, PutFieldError>)
    ensures
        match r {
            Ok(k) => put_common(*old(common), seq_ascii_upper(name@), value) == Ok::<(CommonFields, CommonFieldPutResult), PutFail>((*final(common), k)),
            Err(e) => put_common(*old(common), seq_ascii_upper(name@), value) == Err::<(CommonFields, CommonFieldPutResult), PutFail>(e.model())
                && *final(common) == *old(common),
        },
{
    let slot = common_slot(name);
    put_slot_x(common, slot, value)
}

fn put_slot_x(common: &mut CommonFields, slot: CommonSlot, value: FieldValue) -> (r: Result<CommonFieldPutResult, PutFieldError>)
    ensures
        match r {
            Ok(k) => put_slot(*old(common), slot, value) == Ok::<(CommonFields, CommonFieldPutResult), PutFail>((*final(common), k)),
            Err(e) => put_slot(*old(common), slot, value) == Err::<(CommonFields, CommonFieldPutResult), PutFail>(e.model())
                && *final(common) == *old(common),
        },
{
    match slot {
        CommonSlot::Sevr => put_alarm_slot(common, slot, value),
        CommonSlot::Stat => put_alarm_slot(common, slot, value),
        CommonSlot::Nsev => put_alarm_slot(common, slot, value),
        CommonSlot::Nsta => put_alarm_slot(common, slot, value),
        CommonSlot::Acks => put_alarm_slot(common, slot, value),
        CommonSlot::Ackt => put_alarm_slot(common, slot, value),
        CommonSlot::Udf => put_alarm_slot(common, slot, value),
        CommonSlot::Udfs => put_alarm_slot(common, slot, value),
        CommonSlot::Scan => put_scan_slot(common, slot, value),
        CommonSlot::Sscn => put_scan_slot(common, slot, value),
        CommonSlot::Phas => put_scan_slot(common, slot, value),
        CommonSlot::Pini => put_scan_slot(common, slot, value),
        CommonSlot::Tpro => put_scan_slot(common, slot, value),
        CommonSlot::Bkpt => put_scan_slot(common, slot, value),
        CommonSlot::Flnk => put_text_slot(common, slot, value),
        CommonSlot::Inp => put_text_slot(common, slot, value),
        CommonSlot::Out => put_text_slot(common, slot, value),
        CommonSlot::Dtyp => put_text_slot(common, slot, value),
        CommonSlot::Tsel => put_text_slot(common, slot, value),
        CommonSlot::Asg => put_text_slot(common, slot, value),
        CommonSlot::Desc => put_text_slot(common, slot, value),
        CommonSlot::Sdis => put_text_slot(common, slot, value),
        CommonSlot::Tse => put_number_slot(common, slot, value),
        CommonSlot::Evnt => put_number_slot(common, slot, value),
        CommonSlot::Prio => put_number_slot(common, slot, value),
        CommonSlot::Disv => put_number_slot(common, slot, value),
        CommonSlot::Disa => put_number_slot(common, slot, value),
        CommonSlot::Diss => put_number_slot(common, slot, value),
        CommonSlot::Lcnt => put_number_slot(common, slot, value),
        CommonSlot::Disp => put_number_slot(common, slot, value),
        CommonSlot::Putf => put_number_slot(common, slot, value),
        CommonSlot::Pact => put_number_slot(common, slot, value),
        CommonSlot::Rpro => put_number_slot(common, slot, value),
        CommonSlot::Proc => put_number_slot(common, slot, value),
        CommonSlot::Hhsv => put_analog_slot(common, slot, value),
        CommonSlot::Hsv => put_analog_slot(common, slot, value),
        CommonSlot::Lsv => put_analog_slot(common, slot, value),
        CommonSlot::Llsv => put_analog_slot(common, slot, value),
        CommonSlot::Other => put_number_slot(common, slot, value),
    }
}

/// Writes an analog alarm severity; a record without analog alarms keeps
/// none.
fn put_analog_slot(common: &mut CommonFields, slot: CommonSlot, value: FieldValue) -> (r: Result<CommonFieldPutResult, PutFieldError>)
    requires
        slot is Hhsv || slot is Hsv || slot is Lsv || slot is Llsv,
    ensures
        match r {
            Ok(k) => put_slot(*old(common), slot, value) == Ok::<(CommonFields, CommonFieldPutResult), PutFail>((*final(common), k)),
            Err(e) => put_slot(*old(common), slot, value) == Err::<(CommonFields, CommonFieldPutResult), PutFail>(e.model())
                && *final(common) == *old(common),
        },
{
    match (common.analog_sevs, value) {
        (Some(a), FieldValue::Short(x)) => {
            let s = AlarmSeverity::from_u16(x as u16);
            let b = match slot {
                CommonSlot::Hhsv => AnalogSeverities { hhsv: s, ..a },
                CommonSlot::Hsv => AnalogSeverities { hsv: s, ..a },
                CommonSlot::Lsv => AnalogSeverities { lsv: s, ..a },
                _ => AnalogSeverities { llsv: s, ..a },
            };
            common.analog_sevs = Some(b);
        },
        _ => {},
    }
    Ok(CommonFieldPutResult::NoChange)
}

/// Writes an alarm field.
fn put_alarm_slot(common: &mut CommonFields, slot: CommonSlot, value: FieldValue) -> (r: Result<CommonFieldPutResult, PutFieldError>)
    requires
        slot is Sevr || slot is Stat || slot is Nsev || slot is Nsta || slot is Acks || slot is Ackt || slot is Udf || slot is Udfs,
    ensures
        match r {
            Ok(k) => put_slot(*old(common), slot, value) == Ok::<(CommonFields, CommonFieldPutResult), PutFail>((*final(common), k)),
            Err(e) => put_slot(*old(common), slot, value) == Err::<(CommonFields, CommonFieldPutResult), PutFail>(e.model())
                && *final(common) == *old(common),
        },
{
    match slot {
        CommonSlot::Sevr => if let FieldValue::Short(x) = value { common.sevr = AlarmSeverity::from_u16(x as u16); },
        CommonSlot::Stat => if let FieldValue::Short(x) = value { common.stat = x as u16; },
        CommonSlot::Nsev => if let FieldValue::Short(x) = value { common.nsev = AlarmSeverity::from_u16(x as u16); },
        CommonSlot::Nsta => if let FieldValue::Short(x) = value { common.nsta = x as u16; },
        CommonSlot::Acks => if let FieldValue::Short(x) = value { common.acks = AlarmSeverity::from_u16(x as u16); },
        CommonSlot::Ackt => if let FieldValue::Char(x) = value { common.ackt = x != 0; },
        CommonSlot::Udf => if let FieldValue::Char(x) = value { common.udf = x != 0; },
        CommonSlot::Udfs => if let FieldValue::Short(x) = value { common.udfs = AlarmSeverity::from_u16(x as u16); },
        _ => {},
    }
    Ok(CommonFieldPutResult::NoChange)
}

/// Writes a scanning field.
fn put_scan_slot(common: &mut CommonFields, slot: CommonSlot, value: FieldValue) -> (r: Result<CommonFieldPutResult, PutFieldError>)
    requires
        slot is Scan || slot is Sscn || slot is Phas || slot is Pini || slot is Tpro || slot is Bkpt,
    ensures
        match r {
            Ok(k) => put_slot(*old(common), slot, value) == Ok::<(CommonFields, CommonFieldPutResult), PutFail>((*final(common), k)),
            Err(e) => put_slot(*old(common), slot, value) == Err::<(CommonFields, CommonFieldPutResult), PutFail>(e.model())
                && *final(common) == *old(common),
        },
{
    match slot {
        CommonSlot::Scan => match scan_from_value(&value) {
            None => {},
            Some(Err(e)) => return Err(e),
            Some(Ok(t)) => {
                let old_scan = common.scan;
                common.scan = t;
                if old_scan != t {
                    return Ok(CommonFieldPutResult::ScanChanged { old_scan, new_scan: t, phas: common.phas });
                }
            },
        },
        CommonSlot::Sscn => match scan_from_value(&value) {
            None => {},
            Some(Err(e)) => return Err(e),
            Some(Ok(t)) => { common.sscn = t; },
        },
        CommonSlot::Phas => if let FieldValue::Short(x) = value {
            let old_phas = common.phas;
            common.phas = x;
            if old_phas != x && common.scan != ScanType::Passive {
                return Ok(CommonFieldPutResult::PhasChanged { scan: common.scan, old_phas, new_phas: x });
            }
        },
        CommonSlot::Pini => match value {
            FieldValue::Char(x) => { common.pini = x != 0; },
            FieldValue::String(s) => {
                common.pini = str_eq(s.as_str(), "YES") || str_eq(s.as_str(), "1") || str_eq(s.as_str(), "true");
            },
            _ => {},
        },
        CommonSlot::Tpro => if let FieldValue::Char(x) = value { common.tpro = x != 0; },
        CommonSlot::Bkpt => if let FieldValue::Char(x) = value { common.bkpt = x; },
        _ => {},
    }
    Ok(CommonFieldPutResult::NoChange)
}

/// Writes a link or text field.
fn put_text_slot(common: &mut CommonFields, slot: CommonSlot, value: FieldValue) -> (r: Result<CommonFieldPutResult, PutFieldError>)
    requires
        slot is Flnk || slot is Inp || slot is Out || slot is Dtyp || slot is Tsel || slot is Asg || slot is Desc || slot is Sdis,
    ensures
        match r {
            Ok(k) => put_slot(*old(common), slot, value) == Ok::<(CommonFields, CommonFieldPutResult), PutFail>((*final(common), k)),
            Err(e) => put_slot(*old(common), slot, value) == Err::<(CommonFields, CommonFieldPutResult), PutFail>(e.model())
                && *final(common) == *old(common),
        },
{
    match slot {
        CommonSlot::Flnk => if let FieldValue::String(s) = value { common.flnk = s; },
        CommonSlot::Inp => if let FieldValue::String(s) = value { common.inp = s; },
        CommonSlot::Out => if let FieldValue::String(s) = value { common.out = s; },
        CommonSlot::Dtyp => if let FieldValue::String(s) = value { common.dtyp = s; },
        CommonSlot::Tsel => if let FieldValue::String(s) = value { common.tsel = s; },
        CommonSlot::Asg => if let FieldValue::String(s) = value { common.asg = s; },
        CommonSlot::Desc => if let FieldValue::String(s) = value { common.desc = s; },
        CommonSlot::Sdis => if let FieldValue::String(s) = value { common.sdis = s; },
        _ => {},
    }
    Ok(CommonFieldPutResult::NoChange)
}

/// Writes a numeric or flag field.
fn put_number_slot(common: &mut CommonFields, slot: CommonSlot, value: FieldValue) -> (r: Result<CommonFieldPutResult, PutFieldError>)
    requires
        slot is Tse || slot is Evnt || slot is Prio || slot is Disv || slot is Disa || slot is Diss || slot is Lcnt || slot is Disp || slot is Putf || slot is Pact || slot is Rpro || slot is Proc || slot is Other,
    ensures
        match r {
            Ok(k) => put_slot(*old(common), slot, value) == Ok::<(CommonFields, CommonFieldPutResult), PutFail>((*final(common), k)),
            Err(e) => put_slot(*old(common), slot, value) == Err::<(CommonFields, CommonFieldPutResult), PutFail>(e.model())
                && *final(common) == *old(common),
        },
{
    match slot {
        CommonSlot::Tse => if let FieldValue::Short(x) = value { common.tse = x; },
        CommonSlot::Evnt => if let FieldValue::Short(x) = value { common.evnt = x; },
        CommonSlot::Prio => if let FieldValue::Short(x) = value { common.prio = x; },
        CommonSlot::Disv => if let FieldValue::Short(x) = value { common.disv = x; },
        CommonSlot::Disa => if let FieldValue::Short(x) = value { common.disa = x; },
        CommonSlot::Diss => if let FieldValue::Short(x) = value { common.diss = AlarmSeverity::from_u16(x as u16); },
        CommonSlot::Lcnt => if let FieldValue::Short(x) = value { common.lcnt = x; },
        CommonSlot::Disp => match value {
            FieldValue::Char(x) => { common.disp = x != 0; },
            FieldValue::Short(x) => { common.disp = x != 0; },
            _ => {},
        },
        CommonSlot::Putf => return Err(PutFieldError::ReadOnlyField("PUTF".to_owned())),
        CommonSlot::Pact => return Err(PutFieldError::ReadOnlyField("PACT".to_owned())),
        CommonSlot::Rpro => if let FieldValue::Char(x) = value { common.rpro = x != 0; },
        CommonSlot::Other => {},
        CommonSlot::Proc => {},
        _ => {},
    }
    Ok(CommonFieldPutResult::NoChange)
}

/// A flag as the character 0 or 1.
pub open spec fn flag(b: bool) -> u8 {
    if b { 1 } else { 0 }
}

/// The value of the field in `slot`; `None` for names that are no common
/// integer or string field.
pub open spec fn get_slot(c: CommonFields, slot: CommonSlot) -> Option<FieldValue> {
    match slot {
        CommonSlot::Sevr => Some(FieldValue::Short(severity_code(c.sevr) as i16)),
        CommonSlot::Stat => Some(FieldValue::Short(c.stat as i16)),
        CommonSlot::Nsev => Some(FieldValue::Short(severity_code(c.nsev) as i16)),
        CommonSlot::Nsta => Some(FieldValue::Short(c.nsta as i16)),
        CommonSlot::Acks => Some(FieldValue::Short(severity_code(c.acks) as i16)),
        CommonSlot::Ackt => Some(FieldValue::Char(flag(c.ackt))),
        CommonSlot::Udf => Some(FieldValue::Char(flag(c.udf))),
        CommonSlot::Udfs => Some(FieldValue::Short(severity_code(c.udfs) as i16)),
        CommonSlot::Scan => Some(FieldValue::Enum(scan_code(c.scan))),
        CommonSlot::Sscn => Some(FieldValue::Enum(scan_code(c.sscn))),
        CommonSlot::Pini => Some(FieldValue::Char(flag(c.pini))),
        CommonSlot::Tpro => Some(FieldValue::Char(flag(c.tpro))),
        CommonSlot::Bkpt => Some(FieldValue::Char(c.bkpt)),
        CommonSlot::Flnk => Some(FieldValue::String(c.flnk)),
        CommonSlot::Inp => Some(FieldValue::String(c.inp)),
        CommonSlot::Out => Some(FieldValue::String(c.out)),
        CommonSlot::Dtyp => Some(FieldValue::String(c.dtyp)),
        CommonSlot::Tse => Some(FieldValue::Short(c.tse)),
        CommonSlot::Tsel => Some(FieldValue::String(c.tsel)),
        CommonSlot::Asg => Some(FieldValue::String(c.asg)),
        CommonSlot::Desc => Some(FieldValue::String(c.desc)),
        CommonSlot::Phas => Some(FieldValue::Short(c.phas)),
        CommonSlot::Evnt => Some(FieldValue::Short(c.evnt)),
        CommonSlot::Prio => Some(FieldValue::Short(c.prio)),
        CommonSlot::Disv => Some(FieldValue::Short(c.disv)),
        CommonSlot::Disa => Some(FieldValue::Short(c.disa)),
        CommonSlot::Sdis => Some(FieldValue::String(c.sdis)),
        CommonSlot::Diss => Some(FieldValue::Short(severity_code(c.diss) as i16)),
        CommonSlot::Lcnt => Some(FieldValue::Short(c.lcnt)),
        CommonSlot::Disp => Some(FieldValue::Char(flag(c.disp))),
        CommonSlot::Putf => Some(FieldValue::Char(flag(c.putf))),
        CommonSlot::Rpro => Some(FieldValue::Char(flag(c.rpro))),
        CommonSlot::Proc => Some(FieldValue::Char(0)),
        CommonSlot::Hhsv | CommonSlot::Hsv | CommonSlot::Lsv | CommonSlot::Llsv => match c.analog_sevs {
            Some(a) => Some(FieldValue::Short(severity_code(analog_sev(a, slot)) as i16)),
            None => None,
        },
        _ => None,
    }
}

fn flag_x(b: bool) -> (r: u8)
    ensures
        r == flag(b),
{
    if b { 1 } else { 0 }
}

/// Get a common field value (the name in any case).
pub fn get_common_field(common: &CommonFields, name: &str) -> (r: Option<FieldValue>)
    ensures
        r == get_slot(*common, slot_named(seq_ascii_upper(name@))),
{
    match common_slot(name) {
        CommonSlot::Sevr => Some(FieldValue::Short(common.sevr.code() as i16)),
        CommonSlot::Stat => Some(FieldValue::Short(common.stat as i16)),
        CommonSlot::Nsev => Some(FieldValue::Short(common.nsev.code() as i16)),
        CommonSlot::Nsta => Some(FieldValue::Short(common.nsta as i16)),
        CommonSlot::Acks => Some(FieldValue::Short(common.acks.code() as i16)),
        CommonSlot::Ackt => Some(FieldValue::Char(flag_x(common.ackt))),
        CommonSlot::Udf => Some(FieldValue::Char(flag_x(common.udf))),
        CommonSlot::Udfs => Some(FieldValue::Short(common.udfs.code() as i16)),
        CommonSlot::Scan => Some(FieldValue::Enum(common.scan.code())),
        CommonSlot::Sscn => Some(FieldValue::Enum(common.sscn.code())),
        CommonSlot::Pini => Some(FieldValue::Char(flag_x(common.pini))),
        CommonSlot::Tpro => Some(FieldValue::Char(flag_x(common.tpro))),
        CommonSlot::Bkpt => Some(FieldValue::Char(common.bkpt)),
        CommonSlot::Flnk => Some(FieldValue::String(common.flnk.clone())),
        CommonSlot::Inp => Some(FieldValue::String(common.inp.clone())),
        CommonSlot::Out => Some(FieldValue::String(common.out.clone())),
        CommonSlot::Dtyp => Some(FieldValue::String(common.dtyp.clone())),
        CommonSlot::Tse => Some(FieldValue::Short(common.tse)),
        CommonSlot::Tsel => Some(FieldValue::String(common.tsel.clone())),
        CommonSlot::Asg => Some(FieldValue::String(common.asg.clone())),
        CommonSlot::Desc => Some(FieldValue::String(common.desc.clone())),
        CommonSlot::Phas => Some(FieldValue::Short(common.phas)),
        CommonSlot::Evnt => Some(FieldValue::Short(common.evnt)),
        CommonSlot::Prio => Some(FieldValue::Short(common.prio)),
        CommonSlot::Disv => Some(FieldValue::Short(common.disv)),
        CommonSlot::Disa => Some(FieldValue::Short(common.disa)),
        CommonSlot::Sdis => Some(FieldValue::String(common.sdis.clone())),
        CommonSlot::Diss => Some(FieldValue::Short(common.diss.code() as i16)),
        CommonSlot::Lcnt => Some(FieldValue::Short(common.lcnt)),
        CommonSlot::Disp => Some(FieldValue::Char(flag_x(common.disp))),
        CommonSlot::Putf => Some(FieldValue::Char(flag_x(common.putf))),
        CommonSlot::Rpro => Some(FieldValue::Char(flag_x(common.rpro))),
        CommonSlot::Proc => Some(FieldValue::Char(0)),
        CommonSlot::Hhsv => match common.analog_sevs { Some(a) => Some(FieldValue::Short(a.hhsv.code() as i16)), None => None },
        CommonSlot::Hsv => match common.analog_sevs { Some(a) => Some(FieldValue::Short(a.hsv.code() as i16)), None => None },
        CommonSlot::Lsv => match common.analog_sevs { Some(a) => Some(FieldValue::Short(a.lsv.code() as i16)), None => None },
        CommonSlot::Llsv => match common.analog_sevs { Some(a) => Some(FieldValue::Short(a.llsv.code() as i16)), None => None },
        _ => None,
    }
}

/// Whether `v` is a value the field in `slot` holds exactly: text for the
/// link and text fields, any number for the plain numeric fields, a
/// severity number (0 to 3), a scan menu index (0 to 9) or a flag (0 or 1)
/// for the others.
pub open spec fn holds_exactly(slot: CommonSlot, v: FieldValue) -> bool {
    match slot {
        CommonSlot::Flnk | CommonSlot::Inp | CommonSlot::Out | CommonSlot::Dtyp | CommonSlot::Tsel
        | CommonSlot::Asg | CommonSlot::Desc | CommonSlot::Sdis => v is String,
        CommonSlot::Tse | CommonSlot::Phas | CommonSlot::Evnt | CommonSlot::Prio | CommonSlot::Disv
        | CommonSlot::Disa | CommonSlot::Lcnt | CommonSlot::Stat | CommonSlot::Nsta => v is Short,
        CommonSlot::Sevr | CommonSlot::Nsev | CommonSlot::Acks | CommonSlot::Udfs | CommonSlot::Diss =>
            v matches FieldValue::Short(x) && 0 <= x <= 3,
        CommonSlot::Scan | CommonSlot::Sscn => v matches FieldValue::Enum(x) && x <= 9,
        CommonSlot::Bkpt => v is Char,
        CommonSlot::Ackt | CommonSlot::Udf | CommonSlot::Pini | CommonSlot::Tpro | CommonSlot::Disp
        | CommonSlot::Rpro => v matches FieldValue::Char(x) && x <= 1,
        _ => false,
    }
}

/// Reading a common field back after writing a value it holds exactly
/// gives that value.
pub proof fn put_then_get(c: CommonFields, slot: CommonSlot, v: FieldValue)
    requires
        holds_exactly(slot, v),
    ensures
        put_slot(c, slot, v) is Ok,
        get_slot(put_slot(c, slot, v)->Ok_0.0, slot) == Some(v),
{
    match v {
        FieldValue::Short(x) => {
            assert((x as u16) as i16 == x) by (bit_vector);
            if 0 <= x <= 3 {
                assert(severity_code(severity_of(x as u16)) as i16 == x);
            }
        },
        FieldValue::Enum(x) => {
            if x <= 9 {
                assert(scan_code(scan_of(x)) == x);
            }
        },
        _ => {},
    }
    put_then_get_slot(c, slot, v);
}

/// On a record with analog alarms, reading an analog alarm severity back
/// after writing a severity number gives that number; a record without
/// analog alarms has none to read.
pub proof fn analog_severity_put_then_get(c: CommonFields, slot: CommonSlot, x: i16)
    requires
        slot is Hhsv || slot is Hsv || slot is Lsv || slot is Llsv,
        0 <= x <= 3,
    ensures
        put_slot(c, slot, FieldValue::Short(x)) is Ok,
        c.analog_sevs is Some ==> get_slot(put_slot(c, slot, FieldValue::Short(x))->Ok_0.0, slot) == Some(FieldValue::Short(x)),
        c.analog_sevs is None ==> get_slot(put_slot(c, slot, FieldValue::Short(x))->Ok_0.0, slot) is None,
{
    assert(severity_code(severity_of(x as u16)) as i16 == x);
}

#[verifier::rlimit(50)]
proof fn put_then_get_slot(c: CommonFields, slot: CommonSlot, v: FieldValue)
    requires
        holds_exactly(slot, v),
        v matches FieldValue::Short(x) ==> (x as u16) as i16 == x,
        v matches FieldValue::Short(x) ==> (0 <= x <= 3 ==> severity_code(severity_of(x as u16)) as i16 == x),
        v matches FieldValue::Enum(x) ==> (x <= 9 ==> scan_code(scan_of(x)) == x),
    ensures
        put_slot(c, slot, v) is Ok,
        get_slot(put_slot(c, slot, v)->Ok_0.0, slot) == Some(v),
{
    match slot {
        CommonSlot::Sevr => {
            assert(get_slot(put_slot(c, CommonSlot::Sevr, v)->Ok_0.0, CommonSlot::Sevr) == Some(v));
        },
        CommonSlot::Stat => {
            assert(get_slot(put_slot(c, CommonSlot::Stat, v)->Ok_0.0, CommonSlot::Stat) == Some(v));
        },
        CommonSlot::Nsev => {
            assert(get_slot(put_slot(c, CommonSlot::Nsev, v)->Ok_0.0, CommonSlot::Nsev) == Some(v));
        },
        CommonSlot::Nsta => {
            assert(get_slot(put_slot(c, CommonSlot::Nsta, v)->Ok_0.0, CommonSlot::Nsta) == Some(v));
        },
        CommonSlot::Acks => {
            assert(get_slot(put_slot(c, CommonSlot::Acks, v)->Ok_0.0, CommonSlot::Acks) == Some(v));
        },
        CommonSlot::Ackt => {
            assert(get_slot(put_slot(c, CommonSlot::Ackt, v)->Ok_0.0, CommonSlot::Ackt) == Some(v));
        },
        CommonSlot::Udf => {
            assert(get_slot(put_slot(c, CommonSlot::Udf, v)->Ok_0.0, CommonSlot::Udf) == Some(v));
        },
        CommonSlot::Udfs => {
            assert(get_slot(put_slot(c, CommonSlot::Udfs, v)->Ok_0.0, CommonSlot::Udfs) == Some(v));
        },
        CommonSlot::Scan => {
            assert(get_slot(put_slot(c, CommonSlot::Scan, v)->Ok_0.0, CommonSlot::Scan) == Some(v));
        },
        CommonSlot::Sscn => {
            assert(get_slot(put_slot(c, CommonSlot::Sscn, v)->Ok_0.0, CommonSlot::Sscn) == Some(v));
        },
        CommonSlot::Pini => {
            assert(get_slot(put_slot(c, CommonSlot::Pini, v)->Ok_0.0, CommonSlot::Pini) == Some(v));
        },
        CommonSlot::Tpro => {
            assert(get_slot(put_slot(c, CommonSlot::Tpro, v)->Ok_0.0, CommonSlot::Tpro) == Some(v));
        },
        CommonSlot::Bkpt => {
            assert(get_slot(put_slot(c, CommonSlot::Bkpt, v)->Ok_0.0, CommonSlot::Bkpt) == Some(v));
        },
        CommonSlot::Flnk => {
            assert(get_slot(put_slot(c, CommonSlot::Flnk, v)->Ok_0.0, CommonSlot::Flnk) == Some(v));
        },
        CommonSlot::Inp => {
            assert(get_slot(put_slot(c, CommonSlot::Inp, v)->Ok_0.0, CommonSlot::Inp) == Some(v));
        },
        CommonSlot::Out => {
            assert(get_slot(put_slot(c, CommonSlot::Out, v)->Ok_0.0, CommonSlot::Out) == Some(v));
        },
        CommonSlot::Dtyp => {
            assert(get_slot(put_slot(c, CommonSlot::Dtyp, v)->Ok_0.0, CommonSlot::Dtyp) == Some(v));
        },
        CommonSlot::Tse => {
            assert(get_slot(put_slot(c, CommonSlot::Tse, v)->Ok_0.0, CommonSlot::Tse) == Some(v));
        },
        CommonSlot::Tsel => {
            assert(get_slot(put_slot(c, CommonSlot::Tsel, v)->Ok_0.0, CommonSlot::Tsel) == Some(v));
        },
        CommonSlot::Asg => {
            assert(get_slot(put_slot(c, CommonSlot::Asg, v)->Ok_0.0, CommonSlot::Asg) == Some(v));
        },
        CommonSlot::Desc => {
            assert(get_slot(put_slot(c, CommonSlot::Desc, v)->Ok_0.0, CommonSlot::Desc) == Some(v));
        },
        CommonSlot::Phas => {
            assert(get_slot(put_slot(c, CommonSlot::Phas, v)->Ok_0.0, CommonSlot::Phas) == Some(v));
        },
        CommonSlot::Evnt => {
            assert(get_slot(put_slot(c, CommonSlot::Evnt, v)->Ok_0.0, CommonSlot::Evnt) == Some(v));
        },
        CommonSlot::Prio => {
            assert(get_slot(put_slot(c, CommonSlot::Prio, v)->Ok_0.0, CommonSlot::Prio) == Some(v));
        },
        CommonSlot::Disv => {
            assert(get_slot(put_slot(c, CommonSlot::Disv, v)->Ok_0.0, CommonSlot::Disv) == Some(v));
        },
        CommonSlot::Disa => {
            assert(get_slot(put_slot(c, CommonSlot::Disa, v)->Ok_0.0, CommonSlot::Disa) == Some(v));
        },
        CommonSlot::Sdis => {
            assert(get_slot(put_slot(c, CommonSlot::Sdis, v)->Ok_0.0, CommonSlot::Sdis) == Some(v));
        },
        CommonSlot::Diss => {
            assert(get_slot(put_slot(c, CommonSlot::Diss, v)->Ok_0.0, CommonSlot::Diss) == Some(v));
        },
        CommonSlot::Lcnt => {
            assert(get_slot(put_slot(c, CommonSlot::Lcnt, v)->Ok_0.0, CommonSlot::Lcnt) == Some(v));
        },
        CommonSlot::Disp => {
            assert(get_slot(put_slot(c, CommonSlot::Disp, v)->Ok_0.0, CommonSlot::Disp) == Some(v));
        },
        CommonSlot::Putf => {},
        CommonSlot::Pact => {},
        CommonSlot::Rpro => {
            assert(get_slot(put_slot(c, CommonSlot::Rpro, v)->Ok_0.0, CommonSlot::Rpro) == Some(v));
        },
        CommonSlot::Proc => {},
        CommonSlot::Hhsv | CommonSlot::Hsv | CommonSlot::Lsv | CommonSlot::Llsv => {},
        CommonSlot::Other => {},
    }
}

} // verus!
