use std::time::Duration;
use epics_base_rs::recgbl::alarm_status;
use epics_base_rs::recgbl::{
    rec_gbl_check_udf, rec_gbl_reset_alarms, rec_gbl_set_sevr, EventMask,
};
use epics_base_rs::record::{AlarmSeverity, CommonFields, ScanType};

#[test]
fn test_set_sevr_raises() {
    let mut common = CommonFields::default();
    assert_eq!(common.nsev, AlarmSeverity::NoAlarm);

    rec_gbl_set_sevr(&mut common, alarm_status::HIGH_ALARM, AlarmSeverity::Minor);
    assert_eq!(common.nsev, AlarmSeverity::Minor);
    assert_eq!(common.nsta, alarm_status::HIGH_ALARM);
}

#[test]
fn test_set_sevr_only_raises() {
    let mut common = CommonFields::default();
    rec_gbl_set_sevr(&mut common, alarm_status::HIHI_ALARM, AlarmSeverity::Major);
    rec_gbl_set_sevr(&mut common, alarm_status::HIGH_ALARM, AlarmSeverity::Minor);
    assert_eq!(common.nsev, AlarmSeverity::Major);
    assert_eq!(common.nsta, alarm_status::HIHI_ALARM);
}

#[test]
fn test_reset_alarms_transfers() {
    let mut common = CommonFields::default();
    rec_gbl_set_sevr(&mut common, alarm_status::HIHI_ALARM, AlarmSeverity::Major);

    let result = rec_gbl_reset_alarms(&mut common);
    assert!(result.alarm_changed);
    assert_eq!(result.prev_sevr, AlarmSeverity::NoAlarm);
    assert_eq!(common.sevr, AlarmSeverity::Major);
    assert_eq!(common.stat, alarm_status::HIHI_ALARM);
    assert_eq!(common.nsev, AlarmSeverity::NoAlarm);
    assert_eq!(common.nsta, alarm_status::NO_ALARM);
}

#[test]
fn test_reset_alarms_no_change() {
    let mut common = CommonFields::default();
    let result = rec_gbl_reset_alarms(&mut common);
    assert!(!result.alarm_changed);
}

#[test]
fn test_reset_alarms_clears() {
    let mut common = CommonFields::default();
    common.sevr = AlarmSeverity::Major;
    common.stat = alarm_status::HIHI_ALARM;
    let result = rec_gbl_reset_alarms(&mut common);
    assert!(result.alarm_changed);
    assert_eq!(result.prev_sevr, AlarmSeverity::Major);
    assert_eq!(common.sevr, AlarmSeverity::NoAlarm);
}

#[test]
fn test_check_udf() {
    let mut common = CommonFields::default();
    assert!(common.udf);
    rec_gbl_check_udf(&mut common);
    assert_eq!(common.nsev, AlarmSeverity::Invalid);
    assert_eq!(common.nsta, alarm_status::UDF_ALARM);
}

#[test]
fn test_check_udf_uses_udfs() {
    let mut common = CommonFields::default();
    assert!(common.udf);
    common.udfs = AlarmSeverity::Minor;
    rec_gbl_check_udf(&mut common);
    assert_eq!(common.nsev, AlarmSeverity::Minor);
    assert_eq!(common.nsta, alarm_status::UDF_ALARM);
}

#[test]
fn test_check_udf_default_udfs_is_invalid() {
    let common = CommonFields::default();
    assert_eq!(common.udfs, AlarmSeverity::Invalid);
}

#[test]
fn test_event_mask_ops() {
    let mask = EventMask::value() | EventMask::alarm();
    assert!(mask.contains(EventMask::value()));
    assert!(mask.contains(EventMask::alarm()));
    assert!(!mask.contains(EventMask::log()));
    assert!(mask.intersects(EventMask::value()));
    assert!(!mask.intersects(EventMask::property()));
    assert!(!mask.is_empty());
    assert!(EventMask::none().is_empty());
}

#[test]
fn event_mask_bits_and_intersection() {
    let mask = EventMask::value() | EventMask::log() | EventMask::property();
    assert_eq!(mask.bits(), 0x0b);
    assert_eq!(EventMask::from_bits(0x0b), mask);
    assert_eq!((mask & EventMask::from_bits(0x06)).bits(), 0x02);
    assert!(EventMask::none().contains(EventMask::none()));
}

#[test]
fn raise_order_does_not_matter() {
    let mut a = CommonFields::default();
    rec_gbl_set_sevr(&mut a, alarm_status::LOW_ALARM, AlarmSeverity::Minor);
    rec_gbl_set_sevr(&mut a, alarm_status::LOLO_ALARM, AlarmSeverity::Major);
    let mut b = CommonFields::default();
    rec_gbl_set_sevr(&mut b, alarm_status::LOLO_ALARM, AlarmSeverity::Major);
    rec_gbl_set_sevr(&mut b, alarm_status::LOW_ALARM, AlarmSeverity::Minor);
    assert_eq!(a.nsev, AlarmSeverity::Major);
    assert_eq!(a.nsev, b.nsev);
    assert_eq!(a.nsta, alarm_status::LOLO_ALARM);
    // An equal severity does not replace the pending status.
    rec_gbl_set_sevr(&mut a, alarm_status::HIHI_ALARM, AlarmSeverity::Major);
    assert_eq!(a.nsta, alarm_status::LOLO_ALARM);
}

#[test]
fn quiet_cycle_clears_alarm() {
    let mut common = CommonFields::default();
    rec_gbl_set_sevr(&mut common, alarm_status::READ_ALARM, AlarmSeverity::Invalid);
    rec_gbl_reset_alarms(&mut common);
    assert_eq!(common.sevr, AlarmSeverity::Invalid);
    let second = rec_gbl_reset_alarms(&mut common);
    assert!(second.alarm_changed);
    assert_eq!(second.prev_stat, alarm_status::READ_ALARM);
    assert_eq!(common.sevr, AlarmSeverity::NoAlarm);
    assert_eq!(common.stat, alarm_status::NO_ALARM);
}

#[test]
fn check_udf_skips_defined_record() {
    let mut common = CommonFields::default();
    common.udf = false;
    rec_gbl_check_udf(&mut common);
    assert_eq!(common.nsev, AlarmSeverity::NoAlarm);
    assert_eq!(common.nsta, alarm_status::NO_ALARM);
}

#[test]
fn common_defaults() {
    let common = CommonFields::default();
    assert_eq!(common.asg, "DEFAULT");
    assert_eq!(common.disv, 1);
    assert!(common.ackt);
    assert_eq!(common.scan, ScanType::Passive);
}

#[test]
fn scan_intervals() {
    assert_eq!(ScanType::Sec10.interval(), Some(Duration::from_secs(10)));
    assert_eq!(ScanType::Sec05.interval(), Some(Duration::from_millis(500)));
    assert_eq!(ScanType::Sec01.interval(), Some(Duration::from_millis(100)));
    assert_eq!(ScanType::Passive.interval(), None);
    assert_eq!(ScanType::IoIntr.interval(), None);
}
