use epics_base_rs::database::parse_pv_name;
use epics_base_rs::database::processing::{
    apply_device_alarm, check_disabled, cp_registrations, link_unavailable, device_read_failed, db_link_target, enter_chain, enter_processing, ca_put_step, CaPutStep, finish_simulation, forward_link_target,
    invalid_output_action, ivov_target, link_pv_name, out_route, process_event_mask,
    simulation_action, simulation_links, time_source, write_processes_target, TimeSource, ChainStep, InvalidOutputAction, OutRoute,
    SimulationAction, MAX_LINK_DEPTH, MAX_LINK_OPS,
};
use epics_base_rs::recgbl::alarm_status::{DISABLE_ALARM, READ_ALARM, SIMM_ALARM};
use epics_base_rs::record::{parse_link_v2, AlarmSeverity, CommonFields, DbLink, LinkProcessPolicy, ParsedLink, ScanType};

fn db(record: &str, field: &str) -> DbLink {
    DbLink { record: record.to_string(), field: field.to_string(), policy: LinkProcessPolicy::NoProcess }
}

#[test]
fn chain_enters_each_record_once() {
    let mut visited: Vec<String> = Vec::new();
    assert_eq!(enter_chain(&mut visited, "a", 0), ChainStep::Enter);
    assert_eq!(enter_chain(&mut visited, "b", 1), ChainStep::Enter);
    assert_eq!(enter_chain(&mut visited, "a", 2), ChainStep::Cycle);
    assert_eq!(visited, vec!["a".to_string(), "b".to_string()]);
}

#[test]
fn chain_depth_and_budget_limits() {
    let mut visited: Vec<String> = Vec::new();
    assert_eq!(enter_chain(&mut visited, "deep", MAX_LINK_DEPTH), ChainStep::DepthLimit);
    assert!(visited.is_empty());
    assert_eq!(enter_chain(&mut visited, "ok", MAX_LINK_DEPTH - 1), ChainStep::Enter);
    let mut full: Vec<String> = (0..MAX_LINK_OPS).map(|i| format!("r{}", i)).collect();
    assert_eq!(enter_chain(&mut full, "one_more", 0), ChainStep::OpsBudget);
    assert_eq!(full.len(), MAX_LINK_OPS);
}

#[test]
fn link_pv_names() {
    assert_eq!(link_pv_name(&db("temp", "VAL")), "temp");
    assert_eq!(link_pv_name(&db("temp", "HIHI")), "temp.HIHI");
    let name = link_pv_name(&db("temp", "EGU"));
    assert_eq!(parse_pv_name(&name), ("temp", "EGU"));
    assert_eq!(db_link_target(&parse_link_v2("src.SEVR NPP")), Some("src.SEVR".to_string()));
    assert_eq!(db_link_target(&parse_link_v2("3.5")), None);
    assert_eq!(db_link_target(&ParsedLink::NoLink), None);
}

#[test]
fn disabled_record_takes_disable_alarm() {
    let mut c = CommonFields::default();
    c.disa = 1;
    c.disv = 1;
    c.diss = AlarmSeverity::Major;
    c.nsta = 3;
    c.nsev = AlarmSeverity::Minor;
    assert_eq!(check_disabled(&mut c), Some(true));
    assert_eq!(c.sevr, AlarmSeverity::Major);
    assert_eq!(c.stat, DISABLE_ALARM);
    assert_eq!(c.nsta, 0);
    assert_eq!(c.nsev, AlarmSeverity::NoAlarm);
    assert_eq!(check_disabled(&mut c), Some(false));
    let mut e = CommonFields::default();
    assert_eq!(check_disabled(&mut e), None);
    assert_eq!(e.stat, 0);
}

#[test]
fn simulation_decisions() {
    assert!(simulation_links("", "").is_none());
    let (simm_pv, siol) = simulation_links("sw.VAL", "sim:in").unwrap();
    assert_eq!(simm_pv, Some("sw".to_string()));
    assert!(matches!(simulation_action(0, &siol, "ai"), SimulationAction::Off));
    match simulation_action(1, &siol, "ai") {
        SimulationAction::ReadInput(pv) => assert_eq!(pv, "sim:in"),
        other => panic!("unexpected {:?}", other),
    }
    match simulation_action(1, &siol, "ao") {
        SimulationAction::WriteOutput(pv) => assert_eq!(pv, "sim:in"),
        other => panic!("unexpected {:?}", other),
    }
    let (_, constant) = simulation_links("", "5").unwrap();
    assert!(matches!(simulation_action(1, &constant, "ai"), SimulationAction::NoTarget));
    assert!(matches!(simulation_action(0, &constant, "ai"), SimulationAction::Off));

    let mut c = CommonFields::default();
    finish_simulation(&mut c, 2);
    assert!(!c.udf);
    assert_eq!(c.sevr, AlarmSeverity::Major);
    assert_eq!(c.stat, SIMM_ALARM);
    let mut quiet = CommonFields::default();
    finish_simulation(&mut quiet, 0);
    assert!(!quiet.udf);
    assert_eq!(quiet.stat, 0);
}

#[test]
fn invalid_output_actions() {
    assert_eq!(invalid_output_action(AlarmSeverity::Invalid, 1), InvalidOutputAction::SkipOutput);
    assert_eq!(invalid_output_action(AlarmSeverity::Invalid, 2), InvalidOutputAction::SetIvov);
    assert_eq!(invalid_output_action(AlarmSeverity::Invalid, 0), InvalidOutputAction::Continue);
    assert_eq!(invalid_output_action(AlarmSeverity::Major, 1), InvalidOutputAction::Continue);
    assert_eq!(ivov_target("calcout"), "OVAL");
    assert_eq!(ivov_target("ao"), "VAL");
}

#[test]
fn output_routes() {
    let out = parse_link_v2("target.VAL PP");
    let none = ParsedLink::NoLink;
    assert_eq!(out_route(true, true, true, true, &out), OutRoute::NoOutput);
    assert_eq!(out_route(false, false, true, true, &out), OutRoute::SoftLink);
    assert_eq!(out_route(false, false, true, false, &out), OutRoute::NoOutput);
    assert_eq!(out_route(false, true, true, false, &out), OutRoute::SoftLink);
    assert_eq!(out_route(false, true, true, true, &none), OutRoute::NoOutput);
    assert_eq!(out_route(false, true, false, false, &none), OutRoute::Device);
}

#[test]
fn event_masks() {
    assert_eq!(process_event_mask(false, false, false, false).0, 0);
    assert_eq!(process_event_mask(true, false, false, false).0, 0x01);
    assert_eq!(process_event_mask(false, true, true, false).0, 0x06);
    assert_eq!(process_event_mask(false, false, false, true).0, 0x01);
    assert_eq!(process_event_mask(true, true, true, true).0, 0x07);
}

#[test]
fn forward_links() {
    let flnk = parse_link_v2("next");
    assert_eq!(forward_link_target(true, &flnk), Some("next".to_string()));
    assert_eq!(forward_link_target(false, &flnk), None);
    assert_eq!(forward_link_target(true, &parse_link_v2("")), None);
}

#[test]
fn test_lcnt_zero_after_process() {
    let mut c = CommonFields::default();
    c.lcnt = 5;
    assert!(enter_processing(&mut c, false));
    assert_eq!(c.lcnt, 0);
}

#[test]
fn test_lcnt_increments_on_reentrance() {
    let mut c = CommonFields::default();
    assert!(!enter_processing(&mut c, true));
    assert_eq!(c.lcnt, 1);
    assert!(!enter_processing(&mut c, true));
    assert_eq!(c.lcnt, 2);
}

#[test]
fn test_lcnt_alarm_threshold() {
    let mut c = CommonFields::default();
    for _ in 0..10 {
        let _ = enter_processing(&mut c, true);
    }
    assert!(c.lcnt >= 10);
    assert_eq!(c.sevr, AlarmSeverity::Invalid);
    assert_eq!(c.stat, 12);
}

#[test]
fn test_lcnt_reset_on_success() {
    let mut c = CommonFields::default();
    c.lcnt = 5;
    assert!(enter_processing(&mut c, false));
    assert_eq!(c.lcnt, 0);
}

#[test]
fn lcnt_below_threshold_keeps_alarm_and_saturates() {
    let mut c = CommonFields::default();
    for _ in 0..9 {
        let _ = enter_processing(&mut c, true);
    }
    assert_eq!(c.lcnt, 9);
    assert_eq!(c.sevr, AlarmSeverity::NoAlarm);
    c.lcnt = i16::MAX;
    let _ = enter_processing(&mut c, true);
    assert_eq!(c.lcnt, i16::MAX);
}

#[test]
fn client_put_gate() {
    assert_eq!(ca_put_step("PACT", false), CaPutStep::ReadOnly);
    assert_eq!(ca_put_step("LCNT", true), CaPutStep::ReadOnly);
    assert_eq!(ca_put_step("PUTF", false), CaPutStep::ReadOnly);
    assert_eq!(ca_put_step("PROC", true), CaPutStep::Process);
    assert_eq!(ca_put_step("VAL", true), CaPutStep::Disabled);
    assert_eq!(ca_put_step("DISP", true), CaPutStep::Put);
    assert_eq!(ca_put_step("VAL", false), CaPutStep::Put);
}

#[test]
fn channel_process_links_register_their_source() {
    let links = vec![
        "src1 CP".to_string(),
        "".to_string(),
        "src2.VAL NPP".to_string(),
        "3.14".to_string(),
        "other.SEVR CP MS".to_string(),
    ];
    let pairs = cp_registrations("calc1", &links);
    assert_eq!(
        pairs,
        vec![("src1".to_string(), "calc1".to_string()), ("other".to_string(), "calc1".to_string())]
    );
    assert!(cp_registrations("x", &vec![]).is_empty());
}

#[test]
fn link_writes_process_passive_targets_only() {
    assert!(write_processes_target(LinkProcessPolicy::ProcessPassive, ScanType::Passive));
    assert!(!write_processes_target(LinkProcessPolicy::ProcessPassive, ScanType::Sec1));
    assert!(!write_processes_target(LinkProcessPolicy::NoProcess, ScanType::Passive));
    assert!(!write_processes_target(LinkProcessPolicy::ChannelProcess, ScanType::Passive));
}

#[test]
fn device_alarms_raise_pending_alarm() {
    let mut c = CommonFields::default();
    apply_device_alarm(&mut c, None);
    assert_eq!(c.nsev, AlarmSeverity::NoAlarm);
    apply_device_alarm(&mut c, Some((9, 2)));
    assert_eq!((c.nsta, c.nsev), (9, AlarmSeverity::Major));
    apply_device_alarm(&mut c, Some((3, 1)));
    assert_eq!((c.nsta, c.nsev), (9, AlarmSeverity::Major));
    device_read_failed(&mut c);
    assert_eq!((c.nsta, c.nsev), (READ_ALARM, AlarmSeverity::Invalid));
}

#[test]
fn timestamp_sources() {
    assert_eq!(time_source(0, true), TimeSource::Current);
    assert_eq!(time_source(-1, true), TimeSource::Event(-1));
    assert_eq!(time_source(-1, false), TimeSource::Keep);
    assert_eq!(time_source(-2, true), TimeSource::Keep);
    assert_eq!(time_source(5, false), TimeSource::Event(5));
}

#[test]
fn unavailable_link_raises_invalid_link_alarm() {
    let mut c = CommonFields::default();
    link_unavailable(&mut c);
    assert_eq!((c.nsta, c.nsev), (13, AlarmSeverity::Invalid));
}
