use epics_base_rs::record::{
    parse_link, parse_link_v2, AlarmSeverity, ConstantValue, DbLink, LinkProcessPolicy,
    ParsedLink, ScanType,
};

#[test]
fn test_parse_link() {
    assert!(parse_link("").is_none());

    let link = parse_link("TEMP").unwrap();
    assert_eq!(link.record, "TEMP");
    assert_eq!(link.field, "VAL");

    let link = parse_link("TEMP.EGU").unwrap();
    assert_eq!(link.record, "TEMP");
    assert_eq!(link.field, "EGU");

    let link = parse_link("TEMP.VAL PP").unwrap();
    assert_eq!(link.record, "TEMP");
    assert_eq!(link.field, "VAL");
    assert_eq!(link.policy, LinkProcessPolicy::ProcessPassive);

    let link = parse_link("TEMP.VAL NPP").unwrap();
    assert_eq!(link.policy, LinkProcessPolicy::NoProcess);
}

#[test]
fn test_parse_link_v2() {
    assert_eq!(parse_link_v2(""), ParsedLink::NoLink);
    assert_eq!(parse_link_v2("  "), ParsedLink::NoLink);

    assert_eq!(parse_link_v2("42"), ParsedLink::Constant("42".to_string()));

    assert_eq!(parse_link_v2("3.14"), ParsedLink::Constant("3.14".to_string()));
    assert_eq!(parse_link_v2("-1.5"), ParsedLink::Constant("-1.5".to_string()));

    assert_eq!(
        parse_link_v2("TEMP"),
        ParsedLink::Db(DbLink {
            record: "TEMP".into(),
            field: "VAL".into(),
            policy: LinkProcessPolicy::ProcessPassive,
        })
    );

    assert_eq!(
        parse_link_v2("TEMP.EGU"),
        ParsedLink::Db(DbLink {
            record: "TEMP".into(),
            field: "EGU".into(),
            policy: LinkProcessPolicy::ProcessPassive,
        })
    );

    assert_eq!(
        parse_link_v2("TEMP.EGU NPP"),
        ParsedLink::Db(DbLink {
            record: "TEMP".into(),
            field: "EGU".into(),
            policy: LinkProcessPolicy::NoProcess,
        })
    );

    assert_eq!(parse_link_v2("ca://PV:NAME"), ParsedLink::Ca("PV:NAME".to_string()));
    assert_eq!(parse_link_v2("pva://PV:NAME"), ParsedLink::Pva("PV:NAME".to_string()));

    assert_eq!(parse_link_v2("\"hello\""), ParsedLink::Constant("hello".to_string()));

    // Constant value extraction: a numeric constant keeps its text, which
    // reads as the number.
    let c = parse_link_v2("3.14");
    match c.constant_value() {
        Some(ConstantValue::Number(t)) => assert_eq!(t.parse::<f64>().unwrap(), 3.14),
        other => panic!("expected a number, got {:?}", other),
    }
    let c = parse_link_v2("\"hello\"");
    assert_eq!(c.constant_value(), Some(ConstantValue::Text("hello".into())));
    assert_eq!(parse_link_v2("TEMP").constant_value(), None);
}

#[test]
fn link_modifiers_and_fields() {
    assert_eq!(
        parse_link_v2("SRC.b CP MS"),
        ParsedLink::Db(DbLink {
            record: "SRC".into(),
            field: "B".into(),
            policy: LinkProcessPolicy::ChannelProcess,
        })
    );
    // A field part that is not 1-4 letters keeps the whole text as record.
    assert_eq!(
        parse_link_v2("A.B.LONGER NPP"),
        ParsedLink::Db(DbLink {
            record: "A.B.LONGER".into(),
            field: "VAL".into(),
            policy: LinkProcessPolicy::NoProcess,
        })
    );
    assert_eq!(parse_link_v2("1e3"), ParsedLink::Constant("1e3".into()));
    assert_eq!(parse_link_v2("inf"), ParsedLink::Constant("inf".into()));
    assert_eq!(parse_link_v2(".5"), ParsedLink::Constant(".5".into()));
    assert!(parse_link_v2("1e").is_db());
    assert!(parse_link_v2(".").is_db());
}

#[test]
fn scan_type_names() {
    assert_eq!(ScanType::from_str(" 1 Second ").unwrap(), ScanType::Sec1);
    assert_eq!(ScanType::from_str("I/O Intr").unwrap(), ScanType::IoIntr);
    assert_eq!(ScanType::from_str("0.1 second").unwrap(), ScanType::Sec01);
    assert_eq!(ScanType::from_str("4").unwrap(), ScanType::Sec5);
    assert_eq!(ScanType::from_str("99").unwrap(), ScanType::Passive);
    assert_eq!(ScanType::from_str(" bogus ").unwrap_err().text, "bogus");
    assert_eq!(ScanType::Sec05.interval_ms(), Some(500));
    assert_eq!(ScanType::Event.interval_ms(), None);
    assert_eq!(ScanType::from_u16(ScanType::Sec2.code()), ScanType::Sec2);
    assert_eq!(AlarmSeverity::from_u16(7), AlarmSeverity::Invalid);
    assert_eq!(AlarmSeverity::from_u16(2).code(), 2);
}

#[test]
fn scan_menu_texts_and_numbers_read_back() {
    let all = [
        ScanType::Passive, ScanType::Event, ScanType::IoIntr, ScanType::Sec10, ScanType::Sec5,
        ScanType::Sec2, ScanType::Sec1, ScanType::Sec05, ScanType::Sec02, ScanType::Sec01,
    ];
    for t in all {
        assert_eq!(ScanType::from_str(t.menu_text()).unwrap(), t);
        assert_eq!(ScanType::from_str(&t.code().to_string()).unwrap(), t);
    }
    assert_eq!(ScanType::IoIntr.menu_text(), "I/O Intr");
    assert_eq!(ScanType::Sec05.menu_text(), ".5 second");
}
