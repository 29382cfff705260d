//! The decisions of record processing: whether a record is entered in a
//! link chain, whether it is disabled, how simulation mode and an INVALID
//! output are handled, where its output goes, which monitor events it posts
//! and which record its forward link processes. Reading and writing the
//! linked PVs, locking and notifying are left to the caller, which feeds
//! the values it read back into these functions.
use vstd::prelude::*;
use crate::database::pv_name_parts;
use crate::record::{
    last_dot, lemma_last_dot, link_meaning, parse_link_v2, AlarmSeverity, CommonFields, DbLink,
    LinkModel, LinkProcessPolicy, ParsedLink, ScanType, severity_of,
};
use crate::recgbl::alarm_status::{DISABLE_ALARM, LINK_ALARM, READ_ALARM, SCAN_ALARM, SIMM_ALARM};
use crate::recgbl::{raised, rec_gbl_set_sevr, EventMask};
use crate::text::{chars_of, push_str, str_eq, string_of_vec, string_views};

verus! {

/// How deep a chain of processing links may nest.
pub const MAX_LINK_DEPTH: usize = 16;

/// How many records one processing chain may touch.
pub const MAX_LINK_OPS: usize = 256;

/// What happens when a link chain reaches a record.
#[derive(Clone, Copy, Debug, PartialEq, Eq, Structural)]
pub enum ChainStep {
    /// The chain is nested too deeply; the record is not processed.
    DepthLimit,
    /// The chain has touched too many records; the record is not processed.
    OpsBudget,
    /// The record was already processed in this chain.
    Cycle,
    /// The record is processed.
    Enter,
}

/// The step a chain that has visited `visited` takes at `name`.
pub open spec fn entry_step(visited: Seq<Seq<char>>, name: Seq<char>, depth: int) -> ChainStep {
    if depth >= MAX_LINK_DEPTH {
        ChainStep::DepthLimit
    } else if visited.len() >= MAX_LINK_OPS {
        ChainStep::OpsBudget
    } else if visited.contains(name) {
        ChainStep::Cycle
    } else {
        ChainStep::Enter
    }
}

/// The records a chain has visited after reaching `name`.
pub open spec fn chain_after(visited: Seq<Seq<char>>, name: Seq<char>, depth: int) -> Seq<Seq<char>> {
    if entry_step(visited, name, depth) == ChainStep::Enter {
        visited.push(name)
    } else {
        visited
    }
}

/// Decides whether the record `name` is processed by a link chain at
/// nesting `depth` that has visited `visited`, and records the visit.
pub fn enter_chain(visited: &mut Vec<String>, name: &str, depth: usize) -> (r: ChainStep)
    ensures
        r == entry_step(string_views(old(visited)@), name@, depth as int),
        string_views(final(visited)@) == chain_after(string_views(old(visited)@), name@, depth as int),
{
    let ghost v0 = string_views(visited@);
    if depth >= MAX_LINK_DEPTH {
        return ChainStep::DepthLimit;
    }
    if visited.len() >= MAX_LINK_OPS {
        return ChainStep::OpsBudget;
    }
    let mut i: usize = 0;
    let mut found = false;
    while i < visited.len()
        invariant
            i <= visited@.len(),
            v0 == string_views(visited@),
            found ==> v0.contains(name@),
            !found ==> forall|k: int| 0 <= k < i ==> #[trigger] v0[k] != name@,
        decreases visited.len() - i + (if found { 0int } else { 1int }),
    {
        if found {
            i = visited.len();
        } else {
            if str_eq(visited[i].as_str(), name) {
                assert(v0[i as int] == name@);
                found = true;
            } else {
                i = i + 1;
            }
        }
    }
    if found {
        return ChainStep::Cycle;
    }
    assert(!v0.contains(name@)) by {
        if v0.contains(name@) {
            let k = choose|k: int| 0 <= k < v0.len() && v0[k] == name@;
            assert(v0[k] != name@);
        }
    }
    visited.push(name.to_string());
    assert(string_views(visited@) =~= v0.push(name@));
    ChainStep::Enter
}

/// A processing chain never visits a record twice and never holds more than
/// its budget of records.
pub proof fn chain_stays_bounded(visited: Seq<Seq<char>>, name: Seq<char>, depth: int)
    requires
        visited.no_duplicates(),
        visited.len() <= MAX_LINK_OPS,
    ensures
        chain_after(visited, name, depth).no_duplicates(),
        chain_after(visited, name, depth).len() <= MAX_LINK_OPS,
        chain_after(visited, name, depth).len() <= visited.len() + 1,
{
    if entry_step(visited, name, depth) == ChainStep::Enter {
        let w = visited.push(name);
        assert forall|i: int, j: int| 0 <= i < w.len() && 0 <= j < w.len() && i != j implies w[i] != w[j] by {
            if i < visited.len() && j < visited.len() {
                assert(w[i] == visited[i] && w[j] == visited[j]);
            } else if i == visited.len() {
                assert(w[j] == visited[j]);
            } else {
                assert(w[i] == visited[i]);
            }
        }
    }
}

/// The PV a database link reads or writes: the record name for `VAL`,
/// `RECORD.FIELD` otherwise.
pub open spec fn link_pv(record: Seq<char>, field: Seq<char>) -> Seq<char> {
    if field == "VAL"@ {
        record
    } else {
        record + "."@ + field
    }
}

/// The PV name a database link points at.
pub fn link_pv_name(link: &DbLink) -> (r: String)
    ensures
        r@ == link_pv(link.record@, link.field@),
{
    if str_eq(link.field.as_str(), "VAL") {
        link.record.clone()
    } else {
        let mut v = chars_of(link.record.as_str());
        push_str(&mut v, ".");
        push_str(&mut v, link.field.as_str());
        string_of_vec(&v)
    }
}

/// The PV name of a link reads back as the link's record and field, for a
/// field without `.` and, when the field is `VAL`, a record without `.`.
pub proof fn link_pv_reads_back(record: Seq<char>, field: Seq<char>)
    requires
        forall|k: int| 0 <= k < field.len() ==> field[k] != '.',
        field == "VAL"@ ==> forall|k: int| 0 <= k < record.len() ==> record[k] != '.',
    ensures
        pv_name_parts(link_pv(record, field)) == (record, field),
{
    let p = link_pv(record, field);
    lemma_last_dot(p);
    if field == "VAL"@ {
        if last_dot(p) >= 0 {
            assert(p[last_dot(p)] == '.');
        }
    } else {
        reveal_strlit(".");
        let d = record.len() as int;
        assert(p[d] == '.');
        assert forall|k: int| d < k < p.len() implies p[k] != '.' by {
            assert(p[k] == field[k - d - 1]);
        }
        if last_dot(p) != d {
            if last_dot(p) < d {
                assert(p[d] != '.');
            }
        }
        assert(p.subrange(0, d) =~= record);
        assert(p.subrange(d + 1, p.len() as int) =~= field);
    }
}

/// The alarm state of a record found disabled: the pending alarm is
/// dropped and the record shows the disable severity with a DISABLE
/// status.
pub open spec fn disabled(c: CommonFields) -> CommonFields {
    CommonFields { nsta: 0, nsev: AlarmSeverity::NoAlarm, sevr: c.diss, stat: DISABLE_ALARM, ..c }
}

/// Checks the disable fields of a record about to be processed (`DISA`
/// already read from `SDIS`). A disabled record is not processed; the
/// result then tells whether its alarm state changed, which is posted.
pub fn check_disabled(common: &mut CommonFields) -> (r: Option<bool>)
    ensures
        old(common).disa == old(common).disv ==> *final(common) == disabled(*old(common)) && r == Some(
            old(common).sevr != old(common).diss || old(common).stat != DISABLE_ALARM,
        ),
        old(common).disa != old(common).disv ==> *final(common) == *old(common) && r is None,
{
    if common.disa != common.disv {
        return None;
    }
    let prev_sevr = common.sevr;
    let prev_stat = common.stat;
    common.nsta = 0;
    common.nsev = AlarmSeverity::NoAlarm;
    common.sevr = common.diss;
    common.stat = DISABLE_ALARM;
    Some(common.sevr != prev_sevr || common.stat != prev_stat)
}

/// The PV a link reads from or writes to, when it is a database link.
pub open spec fn db_link_pv(m: LinkModel) -> Option<Seq<char>> {
    match m {
        LinkModel::Db(record, field, _) => Some(link_pv(record, field)),
        _ => None,
    }
}

/// The PV name a parsed link points at, when it is a database link (the
/// links `SDIS`, `TSEL`, `SIML` and `SIOL` are read only then).
pub fn db_link_target(link: &ParsedLink) -> (r: Option<String>)
    ensures
        match r {
            Some(n) => db_link_pv(link.model()) == Some(n@),
            None => db_link_pv(link.model()) is None,
        },
{
    match link {
        ParsedLink::Db(d) => Some(link_pv_name(d)),
        _ => None,
    }
}

/// The simulation links of a record: `None` when neither `SIML` nor `SIOL`
/// is set, and simulation is not configured; otherwise the PV that `SIMM`
/// is read from (when `SIML` is a database link) and the parsed `SIOL`.
pub fn simulation_links(siml: &str, siol: &str) -> (r: Option<(Option<String>, ParsedLink)>)
    ensures
        r is None <==> (siml@.len() == 0 && siol@.len() == 0),
        r matches Some(p) ==> (p.1.model() == link_meaning(siol@) && match p.0 {
            Some(n) => db_link_pv(link_meaning(siml@)) == Some(n@),
            None => db_link_pv(link_meaning(siml@)) is None,
        }),
{
    if siml.is_empty() && siol.is_empty() {
        return None;
    }
    let siml_link = parse_link_v2(siml);
    let siol_link = parse_link_v2(siol);
    Some((db_link_target(&siml_link), siol_link))
}

/// The record types whose simulation reads `VAL` from `SIOL`; the others
/// write `VAL` to it.
pub open spec fn simulates_input(rtype: Seq<char>) -> bool {
    rtype == "ai"@ || rtype == "bi"@ || rtype == "longin"@ || rtype == "stringin"@
}

/// What a record in simulation mode does in place of processing.
#[derive(Clone, Debug)]
pub enum SimulationAction {
    /// `SIMM` is 0: the record is processed normally.
    Off,
    /// Read `VAL` from the PV.
    ReadInput(String),
    /// Write `VAL` to the PV.
    WriteOutput(String),
    /// Simulation is on but `SIOL` is no database link: nothing is moved.
    NoTarget,
}

/// Decides what a record of type `rtype` does with simulation mode `simm`
/// and the simulation link `siol`.
pub fn simulation_action(simm: i16, siol: &ParsedLink, rtype: &str) -> (r: SimulationAction)
    ensures
        simm == 0 <==> r is Off,
        simm != 0 ==> match db_link_pv(siol.model()) {
            Some(p) => if simulates_input(rtype@) {
                r matches SimulationAction::ReadInput(n) && n@ == p
            } else {
                r matches SimulationAction::WriteOutput(n) && n@ == p
            },
            None => r is NoTarget,
        },
{
    if simm == 0 {
        return SimulationAction::Off;
    }
    match db_link_target(siol) {
        Some(pv) => {
            let input = str_eq(rtype, "ai") || str_eq(rtype, "bi") || str_eq(rtype, "longin")
                || str_eq(rtype, "stringin");
            if input {
                SimulationAction::ReadInput(pv)
            } else {
                SimulationAction::WriteOutput(pv)
            }
        },
        None => SimulationAction::NoTarget,
    }
}

/// The record after a simulated cycle: defined, and in alarm with status
/// SIMM when the simulation severity `SIMS` is one.
pub open spec fn after_simulation(c: CommonFields, sims: i16) -> CommonFields {
    let sev = severity_of(sims as u16);
    if sev != AlarmSeverity::NoAlarm {
        CommonFields { udf: false, sevr: sev, stat: SIMM_ALARM, ..c }
    } else {
        CommonFields { udf: false, ..c }
    }
}

/// Applies the end of a simulated cycle to the record's alarm state.
pub fn finish_simulation(common: &mut CommonFields, sims: i16)
    ensures
        *final(common) == after_simulation(*old(common), sims),
{
    common.udf = false;
    let sev = AlarmSeverity::from_u16(sims as u16);
    if sev != AlarmSeverity::NoAlarm {
        common.sevr = sev;
        common.stat = SIMM_ALARM;
    }
}

/// What an output record does with an INVALID alarm (`IVOA`).
#[derive(Clone, Copy, Debug, PartialEq, Eq, Structural)]
pub enum InvalidOutputAction {
    /// Write the output as usual.
    Continue,
    /// Do not drive the output.
    SkipOutput,
    /// Set the output value to `IVOV`, then write it.
    SetIvov,
}

/// Decides the output action for severity `sevr` and `IVOA` setting `ivoa`.
pub fn invalid_output_action(sevr: AlarmSeverity, ivoa: i16) -> (r: InvalidOutputAction)
    ensures
        r == (if sevr == AlarmSeverity::Invalid && ivoa == 1 {
            InvalidOutputAction::SkipOutput
        } else if sevr == AlarmSeverity::Invalid && ivoa == 2 {
            InvalidOutputAction::SetIvov
        } else {
            InvalidOutputAction::Continue
        }),
{
    if sevr != AlarmSeverity::Invalid {
        InvalidOutputAction::Continue
    } else if ivoa == 1 {
        InvalidOutputAction::SkipOutput
    } else if ivoa == 2 {
        InvalidOutputAction::SetIvov
    } else {
        InvalidOutputAction::Continue
    }
}

/// The field that receives `IVOV`: `OVAL` for a calcout record, `VAL`
/// otherwise.
pub fn ivov_target(rtype: &str) -> (r: &'static str)
    ensures
        r@ == (if rtype@ == "calcout"@ { "OVAL"@ } else { "VAL"@ }),
{
    if str_eq(rtype, "calcout") {
        "OVAL"
    } else {
        "VAL"
    }
}

/// Where the output of a processed record goes.
#[derive(Clone, Copy, Debug, PartialEq, Eq, Structural)]
pub enum OutRoute {
    /// Nothing is written.
    NoOutput,
    /// The value is put to the database link in `OUT`.
    SoftLink,
    /// Device support writes the value.
    Device,
}

/// Decides the output stage: a skipped output writes nothing; a record
/// that cannot drive a device writes to a database `OUT` link when it says
/// it should output; a soft output record writes to a database `OUT` link;
/// any other output record hands the value to its device support.
pub fn out_route(skip_out: bool, can_device_write: bool, soft_out: bool, should_output: bool, out: &ParsedLink) -> (r: OutRoute)
    ensures
        r == (if skip_out {
            OutRoute::NoOutput
        } else if !can_device_write {
            if should_output && out.model() is Db { OutRoute::SoftLink } else { OutRoute::NoOutput }
        } else if soft_out {
            if out.model() is Db { OutRoute::SoftLink } else { OutRoute::NoOutput }
        } else {
            OutRoute::Device
        }),
{
    let out_is_db = out.is_db();
    if skip_out {
        OutRoute::NoOutput
    } else if !can_device_write {
        if should_output && out_is_db { OutRoute::SoftLink } else { OutRoute::NoOutput }
    } else if soft_out {
        if out_is_db { OutRoute::SoftLink } else { OutRoute::NoOutput }
    } else {
        OutRoute::Device
    }
}

/// The monitor events of a processed record: a value event when `VAL`
/// passed its deadband or another monitored field changed, a log event
/// when `VAL` passed its archive deadband, an alarm event when the alarm
/// state changed.
pub fn process_event_mask(value_changed: bool, archive_changed: bool, alarm_changed: bool, other_fields_changed: bool) -> (r: EventMask)
    ensures
        r.0 == (if value_changed || other_fields_changed { 0x01int } else { 0 })
            + (if archive_changed { 0x02int } else { 0 }) + (if alarm_changed { 0x04int } else { 0 }),
        r.0 == 0 <==> !(value_changed || other_fields_changed || archive_changed || alarm_changed),
{
    let mut bits: u16 = 0;
    if value_changed || other_fields_changed {
        bits = bits + 0x01;
    }
    if archive_changed {
        bits = bits + 0x02;
    }
    if alarm_changed {
        bits = bits + 0x04;
    }
    EventMask(bits)
}

/// The record a forward link processes: the record of a database `FLNK`
/// when the record fires its forward link.
pub fn forward_link_target(fires: bool, flnk: &ParsedLink) -> (r: Option<String>)
    ensures
        match r {
            Some(n) => fires && (flnk.model() matches LinkModel::Db(rec, _, _) && n@ == rec),
            None => !fires || !(flnk.model() is Db),
        },
{
    if !fires {
        return None;
    }
    match flnk {
        ParsedLink::Db(d) => Some(d.record.clone()),
        _ => None,
    }
}

/// How many re-entrant processing attempts raise a SCAN alarm.
pub const LCNT_ALARM_THRESHOLD: i16 = 10;

/// The record after a processing attempt while it was still processing:
/// `LCNT` counts up (saturating) and from the threshold on the record is
/// INVALID with a SCAN alarm.
pub open spec fn after_reentry(c: CommonFields) -> CommonFields {
    let lcnt: i16 = if c.lcnt < i16::MAX { (c.lcnt + 1) as i16 } else { c.lcnt };
    if lcnt >= LCNT_ALARM_THRESHOLD {
        CommonFields { lcnt: lcnt, sevr: AlarmSeverity::Invalid, stat: SCAN_ALARM, ..c }
    } else {
        CommonFields { lcnt: lcnt, ..c }
    }
}

/// Decides whether a record is processed: not while it is `busy` with an
/// earlier cycle, which counts as a re-entry; otherwise `LCNT` is reset
/// and it is processed.
#[verifier::spinoff_prover]
pub fn enter_processing(common: &mut CommonFields, busy: bool) -> (r: bool)
    ensures
        r == !busy,
        busy ==> *final(common) == after_reentry(*old(common)),
        !busy ==> *final(common) == (CommonFields { lcnt: 0, ..*old(common) }),
{
    if busy {
        count_reentry(common);
        false
    } else {
        common.lcnt = 0;
        true
    }
}

fn count_reentry(common: &mut CommonFields)
    ensures
        *final(common) == after_reentry(*old(common)),
{
    let lcnt: i16 = if common.lcnt < i16::MAX { common.lcnt + 1 } else { common.lcnt };
    common.lcnt = lcnt;
    if lcnt >= LCNT_ALARM_THRESHOLD {
        common.sevr = AlarmSeverity::Invalid;
        common.stat = SCAN_ALARM;
    }
}

/// What a put from a Channel Access client to a field does.
#[derive(Clone, Copy, Debug, PartialEq, Eq, Structural)]
pub enum CaPutStep {
    /// The field is read-only to clients (`PACT`, `LCNT`, `PUTF`).
    ReadOnly,
    /// A put to `PROC` processes the record (when the value is non-zero).
    Process,
    /// The record has `DISP` set: only `DISP` itself can be written.
    Disabled,
    /// The value is written to the field.
    Put,
}

/// Decides a client put to `field` (upper case) of a record with `DISP`
/// set to `disp`.
pub fn ca_put_step(field: &str, disp: bool) -> (r: CaPutStep)
    ensures
        r == (if field@ == "PACT"@ || field@ == "LCNT"@ || field@ == "PUTF"@ {
            CaPutStep::ReadOnly
        } else if field@ == "PROC"@ {
            CaPutStep::Process
        } else if disp && field@ != "DISP"@ {
            CaPutStep::Disabled
        } else {
            CaPutStep::Put
        }),
{
    if str_eq(field, "PACT") || str_eq(field, "LCNT") || str_eq(field, "PUTF") {
        CaPutStep::ReadOnly
    } else if str_eq(field, "PROC") {
        CaPutStep::Process
    } else if disp && !str_eq(field, "DISP") {
        CaPutStep::Disabled
    } else {
        CaPutStep::Put
    }
}

/// The record a link text watches as a channel-process (`CP`) link.
pub open spec fn cp_source(t: Seq<char>) -> Option<Seq<char>> {
    match link_meaning(t) {
        LinkModel::Db(record, _, policy) => if policy == LinkProcessPolicy::ChannelProcess {
            Some(record)
        } else {
            None
        },
        _ => None,
    }
}

/// The `(source, target)` pairs that the input links `links` of record
/// `target` register: one for each `CP` link, in order.
pub open spec fn cp_pairs(target: Seq<char>, links: Seq<Seq<char>>) -> Seq<(Seq<char>, Seq<char>)>
    decreases links.len(),
{
    if links.len() == 0 {
        seq![]
    } else {
        let rest = cp_pairs(target, links.drop_last());
        match cp_source(links.last()) {
            Some(src) => rest.push((src, target)),
            None => rest,
        }
    }
}

pub open spec fn pair_views(v: Seq<(String, String)>) -> Seq<(Seq<char>, Seq<char>)> {
    Seq::new(v.len(), |i: int| (v[i].0@, v[i].1@))
}

/// Collects the channel-process links among the input link texts of the
/// record `target`, as `(source record, target record)` pairs: when the
/// source changes, the target is processed.
pub fn cp_registrations(target: &str, links: &Vec<String>) -> (r: Vec<(String, String)>)
    ensures
        pair_views(r@) == cp_pairs(target@, string_views(links@)),
{
    let mut r: Vec<(String, String)> = Vec::new();
    let mut i: usize = 0;
    while i < links.len()
        invariant
            i <= links@.len(),
            pair_views(r@) == cp_pairs(target@, string_views(links@).subrange(0, i as int)),
        decreases links.len() - i,
    {
        let parsed = parse_link_v2(links[i].as_str());
        let ghost pre = string_views(links@).subrange(0, i as int);
        proof {
            let next = string_views(links@).subrange(0, i + 1);
            assert(next.drop_last() =~= pre);
            assert(next.last() == links@[i as int]@);
        }
        match parsed {
            ParsedLink::Db(d) => {
                if d.policy == LinkProcessPolicy::ChannelProcess {
                    r.push((d.record, target.to_string()));
                    assert(pair_views(r@) =~= pair_views(r@.drop_last()).push((r@.last().0@, r@.last().1@)));
                }
            },
            _ => {},
        }
        i = i + 1;
    }
    assert(string_views(links@).subrange(0, i as int) =~= string_views(links@));
    r
}

/// Whether a write through a database link processes its target record:
/// only a process-passive (`PP`) link does, and only to a passive record.
pub fn write_processes_target(policy: LinkProcessPolicy, target_scan: ScanType) -> (r: bool)
    ensures
        r == (policy == LinkProcessPolicy::ProcessPassive && target_scan == ScanType::Passive),
{
    policy == LinkProcessPolicy::ProcessPassive && target_scan == ScanType::Passive
}

/// Raises the alarm that device support reported for its last operation,
/// `(status, severity number)`, on a record that is not soft.
pub fn apply_device_alarm(common: &mut CommonFields, device_alarm: Option<(u16, u16)>)
    ensures
        *final(common) == match device_alarm {
            Some((stat, sevr)) => raised(*old(common), stat, severity_of(sevr)),
            None => *old(common),
        },
{
    if let Some((stat, sevr)) = device_alarm {
        rec_gbl_set_sevr(common, stat, AlarmSeverity::from_u16(sevr));
    }
}

/// Raises the INVALID read alarm of a failed device read.
pub fn device_read_failed(common: &mut CommonFields)
    ensures
        *final(common) == raised(*old(common), READ_ALARM, AlarmSeverity::Invalid),
{
    rec_gbl_set_sevr(common, READ_ALARM, AlarmSeverity::Invalid);
}

/// Where the timestamp of a processed record comes from (`TSE`).
#[derive(Clone, Copy, Debug, PartialEq, Eq, Structural)]
pub enum TimeSource {
    /// The current time.
    Current,
    /// The time of the numbered event.
    Event(i32),
    /// The record keeps the time it has.
    Keep,
}

/// The timestamp source for `TSE` value `tse`; `time_unset` tells whether
/// the record's time is still the epoch (device support did not set it).
pub fn time_source(tse: i16, time_unset: bool) -> (r: TimeSource)
    ensures
        r == (if tse == 0 {
            TimeSource::Current
        } else if tse == -1 {
            if time_unset { TimeSource::Event(-1i32) } else { TimeSource::Keep }
        } else if tse == -2 {
            TimeSource::Keep
        } else {
            TimeSource::Event(tse as i32)
        }),
{
    if tse == 0 {
        TimeSource::Current
    } else if tse == -1 {
        if time_unset { TimeSource::Event(-1) } else { TimeSource::Keep }
    } else if tse == -2 {
        TimeSource::Keep
    } else {
        TimeSource::Event(tse as i32)
    }
}

/// Raises the INVALID link alarm of a record whose external link gave no
/// value (no backend, and no resolver, had one).
pub fn link_unavailable(common: &mut CommonFields)
    ensures
        *final(common) == raised(*old(common), LINK_ALARM, AlarmSeverity::Invalid),
{
    rec_gbl_set_sevr(common, LINK_ALARM, AlarmSeverity::Invalid);
}

} // verus!
