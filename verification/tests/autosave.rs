use epics_base_rs::autosave::error::AutosaveError;
use epics_base_rs::autosave::macros::MacroContext;
use epics_base_rs::autosave::parse_request_file;
use epics_base_rs::autosave::request::{
    dedup_entries, parse_file_directive, parse_request_string, pv_names, RequestEntry,
};
use epics_base_rs::autosave::save_file::{
    has_end_marker, parse_c_array_elements, parse_save_content, parse_save_value,
    value_to_save_str, SaveEntry,
};
use epics_base_rs::record::FieldValue;
use epics_base_rs::autosave::verify::{format_verify_report, verify_entry, MatchResult, VerifyEntry};
use epics_base_rs::name_map::NameMap;

fn map_of(pairs: &[(&str, &str)]) -> NameMap<String> {
    let mut m = NameMap::new();
    for (k, v) in pairs {
        m.insert(k.to_string(), v.to_string());
    }
    m
}

fn no_env() -> NameMap<String> {
    NameMap::new()
}

#[test]
fn test_simple_expand() {
    let ctx = MacroContext::from_map(map_of(&[("P", "IOC:")]));
    assert_eq!(ctx.expand("$(P)temp", "test", 1, &no_env()).unwrap(), "IOC:temp");
}

#[test]
fn test_default_value() {
    let ctx = MacroContext::new();
    assert_eq!(ctx.expand("$(P=DEFAULT)", "test", 1, &no_env()).unwrap(), "DEFAULT");
}

#[test]
fn test_undefined_error() {
    let ctx = MacroContext::new();
    let err = ctx.expand("$(UNDEF)", "test.req", 5, &no_env()).unwrap_err();
    match err {
        AutosaveError::UndefinedMacro { key, source, line } => {
            assert_eq!(key, "UNDEF");
            assert_eq!(source, "test.req");
            assert_eq!(line, 5);
        }
        _ => panic!("expected UndefinedMacro"),
    }
}

#[test]
fn test_parse_inline() {
    let map = MacroContext::parse_inline("P=IOC:,M=m1");
    assert_eq!(map.get("P").unwrap(), "IOC:");
    assert_eq!(map.get("M").unwrap(), "m1");
}

#[test]
fn test_dollar_literal() {
    let ctx = MacroContext::new();
    assert_eq!(ctx.expand("$$100", "test", 1, &no_env()).unwrap(), "$100");
}

#[test]
fn test_both_pv_and_path() {
    let ctx = MacroContext::from_map(map_of(&[("P", "IOC:"), ("FILE", "settings")]));
    assert_eq!(
        ctx.expand("${FILE}/$(P)temp", "test", 1, &no_env()).unwrap(),
        "settings/IOC:temp"
    );
}

#[test]
fn expand_environment_fallback_and_nesting() {
    let ctx = MacroContext::from_map(map_of(&[("P", "IOC:")]));
    let env = map_of(&[("HOME_DIR", "/home/x"), ("P", "ignored")]);
    assert_eq!(ctx.expand("$(HOME_DIR)/$(P)", "s", 1, &env).unwrap(), "/home/x/IOC:");
    // Unmatched delimiters pass through; a lone `$` stays.
    assert_eq!(ctx.expand("$(P", "s", 1, &env).unwrap(), "$(P");
    assert_eq!(ctx.expand("a$b$", "s", 1, &env).unwrap(), "a$b$");
    // Nested parentheses belong to the key.
    assert_eq!(ctx.expand("$(A(B)=x)", "s", 1, &env).unwrap(), "x");
}

#[test]
fn with_overrides_child_wins() {
    let parent = MacroContext::from_map(map_of(&[("P", "A"), ("R", "B")]));
    let child = parent.with_overrides(&map_of(&[("R", "C"), ("S", "D")]));
    assert_eq!(child.get("P"), Some("A"));
    assert_eq!(child.get("R"), Some("C"));
    assert_eq!(child.get("S"), Some("D"));
    assert_eq!(parent.get("R"), Some("B"));
}

#[test]
fn parse_inline_edge_cases() {
    let map = MacroContext::parse_inline("  ");
    assert!(map.is_empty());
    let map = MacroContext::parse_inline(" A = 1 , =2, B, A=3 ");
    assert_eq!(map.get("A").unwrap(), "3");
    assert_eq!(map.len(), 1);
}

#[test]
fn test_parse_file_directive_quoted_with_comma() {
    let (path, macros) = parse_file_directive("\"ADBase_settings.req\", P=$(P), R=$(R)");
    assert_eq!(path, "ADBase_settings.req");
    assert_eq!(macros, "P=$(P), R=$(R)");
}

#[test]
fn test_parse_file_directive_unquoted_with_comma() {
    let (path, macros) = parse_file_directive("NDFile_settings.req,      P=$(P), R=netCDF1:");
    assert_eq!(path, "NDFile_settings.req");
    assert_eq!(macros, "P=$(P), R=netCDF1:");
}

#[test]
fn test_parse_file_directive_quoted_no_macros() {
    let (path, macros) = parse_file_directive("\"foo.req\"");
    assert_eq!(path, "foo.req");
    assert_eq!(macros, "");
}

#[test]
fn test_parse_file_directive_unquoted_space_separated() {
    let (path, macros) = parse_file_directive("foo.req P=X");
    assert_eq!(path, "foo.req");
    assert_eq!(macros, "P=X");
}

#[test]
fn request_string_entries() {
    let ctx = MacroContext::from_map(map_of(&[("P", "IOC:")]));
    let text = "# header\n$(P)a\n\n  plain  \r\n$(P)a\n";
    let entries = parse_request_string(text, &ctx, "x.req", &no_env()).unwrap();
    assert_eq!(entries.len(), 3);
    assert_eq!(entries[0].pv_name, "IOC:a");
    assert_eq!(entries[0].line_no, 2);
    assert_eq!(entries[0].expanded_from.as_deref(), Some("$(P)a"));
    assert_eq!(entries[1].pv_name, "plain");
    assert_eq!(entries[1].expanded_from, None);
    assert_eq!(entries[1].source_file, "x.req");
    assert_eq!(pv_names(&entries), vec!["IOC:a", "plain", "IOC:a"]);
    let deduped = dedup_entries(entries);
    assert_eq!(pv_names(&deduped), vec!["plain", "IOC:a"]);
    assert_eq!(deduped[1].line_no, 5);
}

#[test]
fn request_string_errors() {
    let ctx = MacroContext::new();
    match parse_request_string("a\nfile other.req\n", &ctx, "x.req", &no_env()).unwrap_err() {
        AutosaveError::RequestFile { path, message } => {
            assert_eq!(path, "x.req");
            assert_eq!(
                message,
                "file include not supported in parse_request_string at line 2"
            );
        }
        _ => panic!("expected RequestFile"),
    }
    match parse_request_string("a\n\n$(Q)\n", &ctx, "x.req", &no_env()).unwrap_err() {
        AutosaveError::UndefinedMacro { key, line, .. } => {
            assert_eq!(key, "Q");
            assert_eq!(line, 3);
        }
        _ => panic!("expected UndefinedMacro"),
    }
}

#[test]
fn dedup_keeps_last_of_each() {
    let e = |n: &str, l: usize| RequestEntry {
        pv_name: n.to_string(),
        source_file: String::new(),
        line_no: l,
        expanded_from: None,
    };
    let out = dedup_entries(vec![e("a", 1), e("b", 2), e("a", 3), e("c", 4), e("b", 5)]);
    let lines: Vec<usize> = out.iter().map(|x| x.line_no).collect();
    assert_eq!(lines, vec![3, 4, 5]);
}

#[test]
fn request_file_plain_names() {
    let names = parse_request_file("A\n  # c\n\n B \nC");
    assert_eq!(names, vec!["A", "B", "C"]);
}

#[test]
fn end_marker_detection() {
    assert!(has_end_marker("a 1\n<END>\n\n"));
    assert!(has_end_marker("  <END>  "));
    assert!(!has_end_marker("a 1\n"));
    assert!(!has_end_marker("<END>\nmore\n"));
    assert!(!has_end_marker(""));
}

#[test]
fn save_content_lines() {
    let text = "# autosave-rs V1.0\t2024\nPV1 1.5\n#PV2\t(not connected)\nPV3 @array@ { \"a b\" \"c\\\"d\" }\nPV4 @array@ { 1 2 3 }\nlonely\n<END>\nAFTER 1\n";
    let entries = parse_save_content(text);
    assert_eq!(entries.len(), 4);
    assert_eq!(entries[0].pv_name, "PV1");
    assert_eq!(entries[0].value, "1.5");
    assert!(entries[0].connected);
    assert_eq!(entries[1].pv_name, "PV2");
    assert!(!entries[1].connected);
    assert_eq!(entries[2].value, "[a b,c\"d]");
    assert_eq!(entries[3].value, "[1,2,3]");
}

#[test]
fn c_array_elements() {
    assert_eq!(parse_c_array_elements(r#""e1" "e\\2"  3.5 "#), vec!["e1", "e\\2", "3.5"]);
    assert!(parse_c_array_elements("   ").is_empty());
}

#[test]
fn save_value_round_trips() {
    let s = FieldValue::String("say \"hi\" \\ ok".to_string());
    let text = value_to_save_str(&s);
    assert_eq!(text, "\"say \\\"hi\\\" \\\\ ok\"");
    assert_eq!(parse_save_value(&text, &s), Some(s.clone()));
    assert_eq!(value_to_save_str(&FieldValue::Short(-12)), "-12");
    assert_eq!(value_to_save_str(&FieldValue::LongArray(vec![1, -2, 3])), "[1,-2,3]");
    assert_eq!(value_to_save_str(&FieldValue::CharArray(vec![])), "[]");
    assert_eq!(
        parse_save_value(" [1, 2 ,3] ", &FieldValue::EnumArray(vec![])),
        Some(FieldValue::EnumArray(vec![1, 2, 3]))
    );
    assert_eq!(parse_save_value("[]", &FieldValue::LongArray(vec![])), Some(FieldValue::LongArray(vec![])));
    assert_eq!(parse_save_value("[1,x]", &FieldValue::LongArray(vec![])), None);
    assert_eq!(parse_save_value("70000", &FieldValue::Short(0)), None);
    assert_eq!(parse_save_value("+7", &FieldValue::Enum(0)), Some(FieldValue::Enum(7)));
    assert_eq!(parse_save_value("-7", &FieldValue::Enum(0)), None);
    assert_eq!(parse_save_value("unquoted", &FieldValue::String(String::new())), Some(FieldValue::String("unquoted".into())));
}

#[test]
fn every_kind_of_value_reads_back() {
    let values = vec![
        FieldValue::String("a\\\"b\"\\".to_string()),
        FieldValue::String(String::new()),
        FieldValue::Short(-32768),
        FieldValue::Long(2147483647),
        FieldValue::Enum(65535),
        FieldValue::Char(0),
        FieldValue::ShortArray(vec![-1, 0, 32767]),
        FieldValue::LongArray(vec![-2147483648]),
        FieldValue::EnumArray(vec![]),
        FieldValue::CharArray(vec![255, 7]),
    ];
    for v in values {
        let text = value_to_save_str(&v);
        assert_eq!(parse_save_value(&text, &v), Some(v.clone()), "{}", text);
    }
}

#[test]
fn verify_report_format() {
    let e = |n: &str, r: MatchResult| VerifyEntry {
        pv_name: n.to_string(),
        saved_value: "5".to_string(),
        live_value: None,
        result: r,
    };
    let report = format_verify_report(&[
        e("A", MatchResult::Match),
        e("B", MatchResult::Mismatch { saved: "1".into(), live: "2".into() }),
        e("C", MatchResult::PvNotFound),
        e("D", MatchResult::ParseError),
    ]);
    assert_eq!(
        report,
        "MISMATCH: B saved=1 live=2\nNOT_FOUND: C\nPARSE_ERROR: D saved=5\n\nSummary: 1 match, 1 mismatch, 1 not found, 1 parse errors\n"
    );
}

#[test]
fn verify_entries_against_live_values() {
    let entry = |name: &str, value: &str, connected: bool| SaveEntry {
        pv_name: name.to_string(),
        value: value.to_string(),
        connected,
    };
    assert!(verify_entry(&entry("off", "", false), &Some(FieldValue::Short(1))).is_none());

    let gone = verify_entry(&entry("gone", "5", true), &None).unwrap();
    assert!(matches!(gone.result, MatchResult::PvNotFound));
    assert_eq!(gone.live_value, None);

    let same = verify_entry(&entry("same", " 5 ", true), &Some(FieldValue::Short(5))).unwrap();
    assert!(matches!(same.result, MatchResult::Match));
    assert_eq!(same.live_value, Some("5".to_string()));

    let arr = verify_entry(&entry("arr", "[1,2]", true), &Some(FieldValue::LongArray(vec![1, 2]))).unwrap();
    assert!(matches!(arr.result, MatchResult::Match));

    let differs = verify_entry(&entry("differs", "4", true), &Some(FieldValue::Short(5))).unwrap();
    match differs.result {
        MatchResult::Mismatch { saved, live } => {
            assert_eq!(saved, "4");
            assert_eq!(live, "5");
        }
        other => panic!("unexpected {:?}", other),
    }

    let bad = verify_entry(&entry("bad", "abc", true), &Some(FieldValue::Short(5))).unwrap();
    assert!(matches!(bad.result, MatchResult::ParseError));
    assert_eq!(bad.saved_value, "abc");
    assert_eq!(bad.live_value, Some("5".to_string()));

    let text = FieldValue::String("a \"b\"".to_string());
    let saved = value_to_save_str(&text);
    let round = verify_entry(&entry("text", &saved, true), &Some(text.clone())).unwrap();
    assert!(matches!(round.result, MatchResult::Match));
}
