use epics_base_rs::db_loader::includes::{
    apply_substitute, check_include, classify_db_line, override_dtyp, parse_include_directive,
    parse_substitute_directive, DbLine, DbLoadConfig,
};
use epics_base_rs::db_loader::{parse_db, substitute_macros, DbRecordDef};
use epics_base_rs::error::CaError;
use epics_base_rs::name_map::NameMap;

fn no_macros() -> NameMap<String> {
    NameMap::new()
}

#[test]
fn test_parse_simple_db() {
    let input = r#"
    record(ai, "TEMP") {
    field(DESC, "Temperature")
    field(SCAN, "1 second")
    field(HOPR, "100")
    field(LOPR, "0")
    }
    "#;
    let records = parse_db(input, &no_macros()).unwrap();
    assert_eq!(records.len(), 1);
    assert_eq!(records[0].record_type, "ai");
    assert_eq!(records[0].name, "TEMP");
    assert_eq!(records[0].fields.len(), 4);
    assert_eq!(records[0].fields[0], ("DESC".into(), "Temperature".into()));
}

#[test]
fn test_macro_substitution() {
    let input = r#"
    record(ai, "$(P)TEMP") {
    field(DESC, "$(D=Default Desc)")
    }
    "#;
    let mut macros = NameMap::new();
    macros.insert("P".to_string(), "IOC:".to_string());

    let records = parse_db(input, &macros).unwrap();
    assert_eq!(records[0].name, "IOC:TEMP");
    assert_eq!(records[0].fields[0].1, "Default Desc");
}

#[test]
fn test_multiple_records() {
    let input = r#"
    record(ai, "TEMP1") {
    field(VAL, "25.0")
    }
    record(bo, "SWITCH") {
    field(VAL, "1")
    field(ZNAM, "Off")
    field(ONAM, "On")
    }
    "#;
    let records = parse_db(input, &no_macros()).unwrap();
    assert_eq!(records.len(), 2);
    assert_eq!(records[0].record_type, "ai");
    assert_eq!(records[1].record_type, "bo");
}

#[test]
fn test_comments() {
    let input = r#"
    # This is a comment
    record(ai, "TEMP") {
    # Another comment
    field(VAL, "25.0")
    }
    "#;
    let records = parse_db(input, &no_macros()).unwrap();
    assert_eq!(records.len(), 1);
}

#[test]
fn test_quoted_string_escape() {
    let input = r#"
    record(stringin, "TEST") {
    field(VAL, "hello \"world\"")
    }
    "#;
    let records = parse_db(input, &no_macros()).unwrap();
    assert_eq!(records[0].fields[0].1, "hello \"world\"");
}

#[test]
fn test_macro_with_quoted_default_in_string() {
    let input = r#"
    record(longout, "$(P)$(R)PositionXLink") {
    field(DOL, "$(XPOS="") CP MS")
    }
    "#;
    let mut macros = NameMap::new();
    macros.insert("P".to_string(), "SIM1:".to_string());
    macros.insert("R".to_string(), "Over1:1:".to_string());
    macros.insert("XPOS".to_string(), "SIM1:ROI1:MinX_RBV".to_string());
    let records = parse_db(input, &macros).unwrap();
    assert_eq!(records[0].fields[0].1, "SIM1:ROI1:MinX_RBV CP MS");
}

#[test]
fn test_macro_with_quoted_default_unset() {
    let input = r#"
    record(longout, "TEST:Link") {
    field(DOL, "$(XPOS="") CP MS")
    }
    "#;
    let macros = NameMap::new();
    let records = parse_db(input, &macros).unwrap();
    assert!(records[0].fields[0].1.contains("CP MS"));
}

#[test]
fn test_recursive_macro_default() {
    let input = r#"
    record(stringin, "TEST") {
    field(VAL, "$(TS_PORT=$(PORT)_TS)")
    }
    "#;
    let mut macros = NameMap::new();
    macros.insert("PORT".to_string(), "ATTR1".to_string());
    let records = parse_db(input, &macros).unwrap();
    assert_eq!(records[0].fields[0].1, "ATTR1_TS");
}

#[test]
fn test_empty_string_numeric_parse() {
    let input = r#"
    record(longin, "TEST:Int") {
    field(VAL, "")
    }
    "#;
    let records = parse_db(input, &no_macros()).unwrap();
    assert_eq!(records.len(), 1);
}

#[test]
fn test_parse_include_directive() {
    assert_eq!(
        parse_include_directive(r#"include "foo.template""#),
        Some("foo.template".to_string())
    );
    assert_eq!(
        parse_include_directive(r#"  include "bar.db""#),
        Some("bar.db".to_string())
    );
    assert_eq!(
        parse_include_directive(r#"include "baz.template" # a comment"#),
        Some("baz.template".to_string())
    );
    assert_eq!(parse_include_directive("include something"), None);
    assert_eq!(parse_include_directive(r#"# include "ignored.db""#), None);
    assert_eq!(parse_include_directive("record(ai, \"X\") {"), None);
    assert_eq!(parse_include_directive(r#"includes "nope.db""#), None);
}

#[test]
fn test_commented_include_ignored() {
    assert_eq!(parse_include_directive(r#"# include "file.db""#), None);
    assert_eq!(parse_include_directive(r#"  # include "file.db""#), None);
}

#[test]
fn test_dtyp_override_existing_only() {
    let mut records = vec![
        DbRecordDef {
            record_type: "ai".to_string(),
            name: "REC_WITH_DTYP".to_string(),
            fields: vec![
                ("DTYP".to_string(), "oldDtyp".to_string()),
                ("VAL".to_string(), "0".to_string()),
            ],
        },
        DbRecordDef {
            record_type: "ao".to_string(),
            name: "REC_WITHOUT_DTYP".to_string(),
            fields: vec![("VAL".to_string(), "1".to_string())],
        },
    ];

    override_dtyp(&mut records, "newDtyp");

    assert_eq!(records[0].fields[0], ("DTYP".to_string(), "newDtyp".to_string()));
    assert_eq!(records[0].fields[1], ("VAL".to_string(), "0".to_string()));
    assert_eq!(records[1].fields.len(), 1);
    assert!(!records[1].fields.iter().any(|(n, _)| n == "DTYP"));
}

#[test]
fn parse_errors_carry_position() {
    let err = parse_db("record(ai \"X\") {}", &no_macros()).err().unwrap();
    assert_eq!(
        err,
        CaError::DbParseError { line: 1, column: 11, message: "expected ',', got '\"'".to_string() }
    );
    let err = parse_db("\n  foo(ai, \"X\")", &no_macros()).err().unwrap();
    assert_eq!(
        err,
        CaError::DbParseError { line: 2, column: 6, message: "expected 'record', got 'foo'".to_string() }
    );
    let err = parse_db("record(ai, \"X\") {\n field(VAL, 1)\n", &no_macros()).err().unwrap();
    assert_eq!(
        err,
        CaError::DbParseError { line: 3, column: 1, message: "unexpected end of file in record body".to_string() }
    );
    let err = parse_db("record(ai, \"X\") { value(VAL, 1) }", &no_macros()).err().unwrap();
    assert_eq!(
        err,
        CaError::DbParseError { line: 1, column: 24, message: "expected 'field', got 'value'".to_string() }
    );
    let err = parse_db("record(ai, \"X", &no_macros()).err().unwrap();
    assert_eq!(
        err,
        CaError::DbParseError { line: 1, column: 14, message: "unterminated string".to_string() }
    );
    let err = parse_db("record(ai, X)", &no_macros()).err().unwrap();
    assert_eq!(
        err,
        CaError::DbParseError { line: 1, column: 12, message: "expected '\"'".to_string() }
    );
    let err = parse_db("record(ai, \"X\"", &no_macros()).err().unwrap();
    assert_eq!(
        err,
        CaError::DbParseError { line: 1, column: 15, message: "expected ')', got 'EOF'".to_string() }
    );
}

#[test]
fn info_alias_grecord_and_unquoted_values() {
    let input = "grecord(calc, \"C\") {\n info(autosaveFields, \"VAL (x)\")\n alias(\"C2\")\n field(CALC,  A+B  )\n field(INPA, \"x\\ty\\\\z\\n\")\n}";
    let records = parse_db(input, &no_macros()).unwrap();
    assert_eq!(records.len(), 1);
    assert_eq!(records[0].record_type, "calc");
    assert_eq!(records[0].fields.len(), 2);
    assert_eq!(records[0].fields[0], ("CALC".to_string(), "A+B".to_string()));
    assert_eq!(records[0].fields[1].1, "x\\ty\\z\n");
    // Stray characters between records are passed over.
    let records = parse_db("; record(ai, \"A\") {} ;", &no_macros()).unwrap();
    assert_eq!(records.len(), 1);
    assert_eq!(records[0].name, "A");
}

#[test]
fn macro_substitution_forms() {
    let mut macros = NameMap::new();
    macros.insert("A".to_string(), "1".to_string());
    macros.insert("B".to_string(), "two".to_string());
    assert_eq!(substitute_macros("$(A)-${B}", &macros), "1-two");
    assert_eq!(substitute_macros("$(C)", &macros), "$(C)");
    assert_eq!(substitute_macros("${C}", &macros), "$(C)");
    assert_eq!(substitute_macros("$(C=x)", &macros), "x");
    assert_eq!(substitute_macros("$(C=\"q\")", &macros), "q");
    assert_eq!(substitute_macros("$(A", &macros), "$(A");
    assert_eq!(substitute_macros("$$(A)", &macros), "$1");
    assert_eq!(substitute_macros("$(C=$(D=$(A)))", &macros), "1");
    assert_eq!(substitute_macros("no refs", &macros), "no refs");
}

#[test]
fn substitute_directives() {
    assert_eq!(
        parse_substitute_directive(r#"substitute "R=A:,ADDR=0""#),
        Some("R=A:,ADDR=0".to_string())
    );
    assert_eq!(parse_substitute_directive("# substitute \"R=A\""), None);
    let mut local = NameMap::new();
    local.insert("P".to_string(), "IOC:".to_string());
    apply_substitute(&mut local, " R = $(P)A: , ADDR=0,junk");
    assert_eq!(local.get("R"), Some(&"IOC:A:".to_string()));
    assert_eq!(local.get("ADDR"), Some(&"0".to_string()));
    assert_eq!(local.get("junk"), None);
}

#[test]
fn classify_lines_and_checks() {
    let mut macros = NameMap::new();
    macros.insert("F".to_string(), "child".to_string());
    assert_eq!(
        classify_db_line("include \"$(F).db\"", &macros),
        DbLine::Include("child.db".to_string())
    );
    assert_eq!(
        classify_db_line("substitute \"X=1\"", &macros),
        DbLine::Substitute("X=1".to_string())
    );
    assert_eq!(
        classify_db_line("field(X, \"$(F)\")", &macros),
        DbLine::Text("field(X, \"child\")".to_string())
    );
    let stack = vec!["/a.db".to_string(), "/b.db".to_string()];
    assert!(check_include(&stack, "/c.db", 32).is_ok());
    assert_eq!(
        check_include(&stack, "/a.db", 32),
        Err(CaError::DbParseError {
            line: 0,
            column: 0,
            message: "circular include: /a.db -> /b.db -> /a.db".to_string()
        })
    );
    assert_eq!(
        check_include(&stack, "/c.db", 2),
        Err(CaError::DbParseError {
            line: 0,
            column: 0,
            message: "include depth limit (2) exceeded at '/c.db'".to_string()
        })
    );
    let config = DbLoadConfig::default();
    assert_eq!(config.max_include_depth, 32);
    assert!(config.include_paths.is_empty());
}
