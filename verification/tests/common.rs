use epics_base_rs::common::{get_common_field, put_common_field, PutFieldError};
use epics_base_rs::record::{AlarmSeverity, AnalogSeverities, CommonFieldPutResult, CommonFields, FieldValue, ScanType};

#[test]
fn put_and_get_text_and_numbers() {
    let mut c = CommonFields::default();
    assert_eq!(put_common_field(&mut c, "desc", FieldValue::String("Temp".into())), Ok(CommonFieldPutResult::NoChange));
    assert_eq!(c.desc, "Temp");
    assert_eq!(get_common_field(&c, "DESC"), Some(FieldValue::String("Temp".into())));
    put_common_field(&mut c, "STAT", FieldValue::Short(-1)).unwrap();
    assert_eq!(c.stat, 65535);
    assert_eq!(get_common_field(&c, "STAT"), Some(FieldValue::Short(-1)));
    put_common_field(&mut c, "SEVR", FieldValue::Short(2)).unwrap();
    assert_eq!(c.sevr, AlarmSeverity::Major);
    assert_eq!(get_common_field(&c, "sevr"), Some(FieldValue::Short(2)));
    put_common_field(&mut c, "SEVR", FieldValue::Short(9)).unwrap();
    assert_eq!(c.sevr, AlarmSeverity::Invalid);
    // A value of another kind changes nothing.
    put_common_field(&mut c, "DESC", FieldValue::Short(1)).unwrap();
    assert_eq!(c.desc, "Temp");
    assert_eq!(get_common_field(&c, "UDF"), Some(FieldValue::Char(1)));
    assert_eq!(get_common_field(&c, "PROC"), Some(FieldValue::Char(0)));
    assert_eq!(get_common_field(&c, "VAL"), None);
}

#[test]
fn scan_and_phase_changes() {
    let mut c = CommonFields::default();
    let r = put_common_field(&mut c, "SCAN", FieldValue::String("1 second".into())).unwrap();
    assert_eq!(r, CommonFieldPutResult::ScanChanged { old_scan: ScanType::Passive, new_scan: ScanType::Sec1, phas: 0 });
    assert_eq!(get_common_field(&c, "SCAN"), Some(FieldValue::Enum(6)));
    // Same scan again: no change to report.
    let r = put_common_field(&mut c, "SCAN", FieldValue::Enum(6)).unwrap();
    assert_eq!(r, CommonFieldPutResult::NoChange);
    let r = put_common_field(&mut c, "PHAS", FieldValue::Short(3)).unwrap();
    assert_eq!(r, CommonFieldPutResult::PhasChanged { scan: ScanType::Sec1, old_phas: 0, new_phas: 3 });
    let r = put_common_field(&mut c, "SSCN", FieldValue::Short(1)).unwrap();
    assert_eq!(r, CommonFieldPutResult::NoChange);
    assert_eq!(c.sscn, ScanType::Event);
    // PHAS of a passive record reports nothing.
    let mut p = CommonFields::default();
    assert_eq!(put_common_field(&mut p, "PHAS", FieldValue::Short(2)), Ok(CommonFieldPutResult::NoChange));
    assert_eq!(p.phas, 2);
}

#[test]
fn refused_writes() {
    let mut c = CommonFields::default();
    assert_eq!(
        put_common_field(&mut c, "SCAN", FieldValue::String(" often ".into())),
        Err(PutFieldError::InvalidValue("unknown scan type: 'often'".into()))
    );
    assert_eq!(c.scan, ScanType::Passive);
    assert_eq!(
        put_common_field(&mut c, "putf", FieldValue::Char(1)),
        Err(PutFieldError::ReadOnlyField("PUTF".into()))
    );
    assert_eq!(
        put_common_field(&mut c, "PACT", FieldValue::Char(1)),
        Err(PutFieldError::ReadOnlyField("PACT".into()))
    );
}

#[test]
fn flags() {
    let mut c = CommonFields::default();
    put_common_field(&mut c, "PINI", FieldValue::String("YES".into())).unwrap();
    assert!(c.pini);
    put_common_field(&mut c, "PINI", FieldValue::String("no".into())).unwrap();
    assert!(!c.pini);
    put_common_field(&mut c, "DISP", FieldValue::Short(5)).unwrap();
    assert!(c.disp);
    assert_eq!(get_common_field(&c, "DISP"), Some(FieldValue::Char(1)));
    put_common_field(&mut c, "BKPT", FieldValue::Char(7)).unwrap();
    assert_eq!(get_common_field(&c, "BKPT"), Some(FieldValue::Char(7)));
}

#[test]
fn test_pact_write_rejected() {
    let mut c = CommonFields::default();
    let result = put_common_field(&mut c, "PACT", FieldValue::Char(1));
    assert!(matches!(result, Err(PutFieldError::ReadOnlyField(_))));
}

#[test]
fn test_proc_reads_zero() {
    let c = CommonFields::default();
    match get_common_field(&c, "PROC") {
        Some(FieldValue::Char(0)) => {}
        other => panic!("expected Char(0), got {:?}", other),
    }
}

#[test]
fn test_disp_get_put() {
    let mut c = CommonFields::default();
    match get_common_field(&c, "DISP") {
        Some(FieldValue::Char(0)) => {}
        other => panic!("expected Char(0), got {:?}", other),
    }
    put_common_field(&mut c, "DISP", FieldValue::Char(1)).unwrap();
    assert!(c.disp);
    match get_common_field(&c, "DISP") {
        Some(FieldValue::Char(1)) => {}
        other => panic!("expected Char(1), got {:?}", other),
    }
}

#[test]
fn test_phas_change_returns_result() {
    let mut c = CommonFields::default();
    put_common_field(&mut c, "SCAN", FieldValue::String("1 second".into())).unwrap();
    let result = put_common_field(&mut c, "PHAS", FieldValue::Short(5)).unwrap();
    assert!(matches!(result, CommonFieldPutResult::PhasChanged { old_phas: 0, new_phas: 5, .. }));
}

#[test]
fn test_phas_change_passive_no_result() {
    let mut c = CommonFields::default();
    let result = put_common_field(&mut c, "PHAS", FieldValue::Short(5)).unwrap();
    assert_eq!(result, CommonFieldPutResult::NoChange);
}

#[test]
fn test_scan_change_includes_phas() {
    let mut c = CommonFields::default();
    put_common_field(&mut c, "PHAS", FieldValue::Short(3)).unwrap();
    let result = put_common_field(&mut c, "SCAN", FieldValue::String("1 second".into())).unwrap();
    match result {
        CommonFieldPutResult::ScanChanged { phas, .. } => assert_eq!(phas, 3),
        other => panic!("expected ScanChanged, got {:?}", other),
    }
}

#[test]
fn analog_alarm_severities() {
    let mut plain = CommonFields::default();
    assert_eq!(put_common_field(&mut plain, "HHSV", FieldValue::Short(2)), Ok(CommonFieldPutResult::NoChange));
    assert_eq!(plain.analog_sevs, None);
    assert_eq!(get_common_field(&plain, "HHSV"), None);

    let mut c = CommonFields::default();
    c.analog_sevs = Some(AnalogSeverities {
        hhsv: AlarmSeverity::NoAlarm,
        hsv: AlarmSeverity::NoAlarm,
        lsv: AlarmSeverity::NoAlarm,
        llsv: AlarmSeverity::NoAlarm,
    });
    put_common_field(&mut c, "hhsv", FieldValue::Short(3)).unwrap();
    put_common_field(&mut c, "LSV", FieldValue::Short(1)).unwrap();
    assert_eq!(get_common_field(&c, "HHSV"), Some(FieldValue::Short(3)));
    assert_eq!(get_common_field(&c, "HSV"), Some(FieldValue::Short(0)));
    assert_eq!(get_common_field(&c, "LSV"), Some(FieldValue::Short(1)));
    assert_eq!(c.analog_sevs.unwrap().hhsv, AlarmSeverity::Invalid);
    put_common_field(&mut c, "LLSV", FieldValue::String("MAJOR".into())).unwrap();
    assert_eq!(get_common_field(&c, "LLSV"), Some(FieldValue::Short(0)));
}
