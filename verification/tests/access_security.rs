use epics_base_rs::access_security::{acf_scan_completes, parse_acf, AccessLevel, AcfError};

#[test]
fn test_parse_acf_basic() {
    let acf = r#"
UAG(admins) { user1, user2 }
HAG(operators) { host1, host2 }
ASG(DEFAULT) {
    RULE(1, WRITE) { UAG(admins) HAG(operators) }
    RULE(1, READ)
}
"#;
    let config = parse_acf(acf).unwrap();
    assert_eq!(config.uag.get("admins").unwrap(), &["user1", "user2"]);
    assert_eq!(config.hag.get("operators").unwrap(), &["host1", "host2"]);
    assert!(config.asg.contains_key("DEFAULT"));
    assert_eq!(config.asg.get("DEFAULT").unwrap().rules.len(), 2);
}

#[test]
fn test_parse_acf_hag_uag() {
    let acf = r#"
UAG(ops) { alice, bob }
HAG(lab) { lab-pc1 }
ASG(SECURE) {
    RULE(1, WRITE) { UAG(ops) HAG(lab) }
    RULE(1, READ)
}
"#;
    let config = parse_acf(acf).unwrap();
    assert_eq!(config.uag.get("ops").unwrap(), &vec!["alice", "bob"]);
    assert_eq!(config.hag.get("lab").unwrap(), &vec!["lab-pc1"]);
}

#[test]
fn test_check_access_default_rw() {
    let acf = "ASG(DEFAULT) { RULE(1, WRITE) RULE(1, READ) }";
    let config = parse_acf(acf).unwrap();
    assert_eq!(
        config.check_access("DEFAULT", "host1", "user1"),
        AccessLevel::ReadWrite
    );
}

#[test]
fn test_check_access_read_only() {
    let acf = r#"
UAG(admins) { admin1 }
ASG(READONLY) {
    RULE(1, READ)
    RULE(1, WRITE) { UAG(admins) }
}
"#;
    let config = parse_acf(acf).unwrap();
    assert_eq!(
        config.check_access("READONLY", "host1", "admin1"),
        AccessLevel::ReadWrite
    );
    assert_eq!(
        config.check_access("READONLY", "host1", "regular"),
        AccessLevel::Read
    );
}

#[test]
fn test_check_access_hag_uag_match() {
    let acf = r#"
UAG(ops) { alice }
HAG(lab) { lab-pc1 }
ASG(CONTROLLED) {
    RULE(1, WRITE) { UAG(ops) HAG(lab) }
    RULE(1, READ)
}
"#;
    let config = parse_acf(acf).unwrap();
    assert_eq!(
        config.check_access("CONTROLLED", "lab-pc1", "alice"),
        AccessLevel::ReadWrite
    );
    assert_eq!(
        config.check_access("CONTROLLED", "other-host", "alice"),
        AccessLevel::Read
    );
    assert_eq!(
        config.check_access("CONTROLLED", "lab-pc1", "bob"),
        AccessLevel::Read
    );
}

#[test]
fn test_check_access_unknown_user() {
    let acf = r#"
ASG(DEFAULT) {
    RULE(1, WRITE)
    RULE(1, READ)
}
"#;
    let config = parse_acf(acf).unwrap();
    assert_eq!(config.check_access("DEFAULT", "", ""), AccessLevel::Read);
}

#[test]
fn acf_rule_levels_and_comments() {
    let acf = "# comment\nASG(A) { RULE(7, write) RULE(300, READ) RULE(, READ) }";
    let config = parse_acf(acf).unwrap();
    let rules = &config.asg.get("A").unwrap().rules;
    assert_eq!(rules.len(), 3);
    assert_eq!(rules[0].level, 7);
    assert!(rules[0].write);
    assert_eq!(rules[1].level, 1);
    assert!(!rules[1].write);
    assert_eq!(rules[2].level, 1);
}

#[test]
fn acf_errors() {
    assert_eq!(
        parse_acf("FOO(x)").unwrap_err(),
        AcfError::UnexpectedKeyword("FOO".to_string())
    );
    assert_eq!(parse_acf("UAG x").unwrap_err(), AcfError::ExpectedParen);
    assert_eq!(parse_acf("UAG(x) y").unwrap_err(), AcfError::ExpectedBrace);
    assert_eq!(parse_acf("UAG(x) { a, b").unwrap_err(), AcfError::UnterminatedList);
    assert_eq!(parse_acf("ASG(x) RULE").unwrap_err(), AcfError::ExpectedAsgBrace);
    assert_eq!(parse_acf("ASG(x) { RULE(1,READ)").unwrap_err(), AcfError::UnterminatedAsg);
    assert_eq!(parse_acf("ASG(x) { RULE 1 }").unwrap_err(), AcfError::ExpectedRuleParen);
}

#[test]
fn acf_later_group_replaces_earlier() {
    let config = parse_acf("UAG(g) { a } UAG(g) { b, c }").unwrap();
    assert_eq!(config.uag.get("g").unwrap(), &["b", "c"]);
    assert_eq!(config.uag.len(), 1);
}

#[test]
fn check_access_fallbacks() {
    let config = parse_acf("ASG(DEFAULT) { RULE(1, READ) { UAG(nobody) } }").unwrap();
    // Unknown ASG falls back to DEFAULT; user not in the group gets nothing.
    assert_eq!(config.check_access("OTHER", "h", "u"), AccessLevel::NoAccess);
    let empty = parse_acf("").unwrap();
    assert_eq!(empty.check_access("ANY", "h", "u"), AccessLevel::ReadWrite);
    let no_rules = parse_acf("ASG(X) { }").unwrap();
    assert_eq!(no_rules.check_access("X", "h", "u"), AccessLevel::ReadWrite);
}

#[test]
fn acf_scan_check_and_messages() {
    assert!(!acf_scan_completes("ASG(DEFAULT) { RULE(1,READ) { - } }"));
    assert!(acf_scan_completes("ASG(DEFAULT) { RULE(1,READ) { UAG(ops) } }"));
    assert!(acf_scan_completes("FOO"));
    assert_eq!(parse_acf("FOO").unwrap_err().message(), "ACF: unexpected keyword 'FOO'");
    assert_eq!(parse_acf("UAG x").unwrap_err().message(), "ACF: expected '('");
    assert_eq!(parse_acf("UAG(x) y").unwrap_err().message(), "ACF: expected '{'");
    assert_eq!(parse_acf("UAG(x) { a, b").unwrap_err().message(), "ACF: unterminated '{'");
    assert_eq!(parse_acf("ASG(x) RULE").unwrap_err().message(), "ACF: expected '{' after ASG name");
    assert_eq!(parse_acf("ASG(x) { RULE(1,READ)").unwrap_err().message(), "ACF: unterminated ASG");
    assert_eq!(parse_acf("ASG(x) { RULE 1 }").unwrap_err().message(), "ACF: expected '(' after RULE");
}
