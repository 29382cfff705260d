use epics_base_rs::iocsh::commands::{common_field_dbf_type, glob_match, parse_macro_string};
use epics_base_rs::iocsh::parse_redirect;
use epics_base_rs::iocsh::registry::{parse_args, substitute_env_vars, tokenize, ArgDesc, ArgType, ParsedArg};
use epics_base_rs::name_map::NameMap;
use epics_base_rs::record::DbFieldType;

fn no_env() -> NameMap<String> {
    NameMap::new()
}

fn tok(line: &str) -> Vec<String> {
    tokenize(line, &no_env())
}

#[test]
fn test_tokenize_simple() {
    assert_eq!(tok("dbl"), vec!["dbl"]);
    assert_eq!(tok("dbgf TEMP.VAL"), vec!["dbgf", "TEMP.VAL"]);
}

#[test]
fn test_tokenize_quoted() {
    assert_eq!(tok(r#"dbpf TEMP "42.0""#), vec!["dbpf", "TEMP", "42.0"]);
}

#[test]
fn test_tokenize_escaped_quotes() {
    assert_eq!(tok(r#"cmd "hello \"world\"""#), vec!["cmd", r#"hello "world""#]);
}

#[test]
fn test_tokenize_escaped_backslash() {
    assert_eq!(tok(r#"cmd "a\\b""#), vec!["cmd", r#"a\b"#]);
}

#[test]
fn test_tokenize_empty() {
    assert!(tok("").is_empty());
    assert!(tok("   ").is_empty());
}

#[test]
fn test_tokenize_trailing_whitespace() {
    assert_eq!(tok("dbl   "), vec!["dbl"]);
}

#[test]
fn test_tokenize_cpp_basic() {
    assert_eq!(
        tok(r#"epicsEnvSet("PREFIX", "SIM1:")"#),
        vec!["epicsEnvSet", "PREFIX", "SIM1:"]
    );
}

#[test]
fn test_tokenize_cpp_mixed_types() {
    assert_eq!(
        tok(r#"simDetectorConfig("SIM1", 256, 256, 50000000)"#),
        vec!["simDetectorConfig", "SIM1", "256", "256", "50000000"]
    );
}

#[test]
fn test_tokenize_cpp_no_args() {
    assert_eq!(tok("iocInit()"), vec!["iocInit"]);
}

#[test]
fn test_tokenize_cpp_spaces_around_commas() {
    assert_eq!(tok(r#"cmd( "a" , "b" , 3 )"#), vec!["cmd", "a", "b", "3"]);
}

#[test]
fn test_tokenize_cpp_env_var() {
    let mut env = NameMap::new();
    env.insert("_TEST_TOK_VAR".to_string(), "HELLO".to_string());
    assert_eq!(
        tokenize(r#"cmd("$(_TEST_TOK_VAR)", $(_TEST_TOK_VAR))"#, &env),
        vec!["cmd", "HELLO", "HELLO"]
    );
}

#[test]
fn test_tokenize_cpp_env_var_unset() {
    assert_eq!(tok(r#"cmd($(UNLIKELY_VAR_XYZ))"#), vec!["cmd", "$(UNLIKELY_VAR_XYZ)"]);
}

#[test]
fn test_tokenize_cpp_dbloadrecords() {
    assert_eq!(
        tok(r#"dbLoadRecords("path/to/file.db","P=SIM1:,R=cam1:")"#),
        vec!["dbLoadRecords", "path/to/file.db", "P=SIM1:,R=cam1:"]
    );
}

#[test]
fn test_tokenize_cpp_quoted_with_parens_inside() {
    assert_eq!(tok(r#"cmd("hello(world)")"#), vec!["cmd", "hello(world)"]);
}

#[test]
fn tokenize_edges() {
    // A leading empty argument is dropped, later empty ones are kept.
    assert_eq!(tok("cmd(, a, , b)"), vec!["cmd", "a", "", "b"]);
    // Without a closing parenthesis the rest of the line is the list.
    assert_eq!(tok("cmd(a, b"), vec!["cmd", "a", "b"]);
    // A macro reference inside the list does not close it.
    assert_eq!(tok("cmd($(X=a)b, c)"), vec!["cmd", "ab", "c"]);
    // A line that starts with a parenthesis has no command.
    assert!(tok("(a)").is_empty());
    assert_eq!(tok("a\t\"b c\"  d"), vec!["a", "b c", "d"]);
}

#[test]
fn env_substitution() {
    let mut env = NameMap::new();
    env.insert("TOP".to_string(), "/ioc".to_string());
    assert_eq!(substitute_env_vars("$(TOP)/db", &env), "/ioc/db");
    assert_eq!(substitute_env_vars("$(NOPE=x)/db", &env), "x/db");
    assert_eq!(substitute_env_vars("$(NOPE)", &env), "$(NOPE)");
    assert_eq!(substitute_env_vars("$(TOP", &env), "$(TOP");
    assert_eq!(substitute_env_vars("${TOP}", &env), "${TOP}");
}

#[test]
fn test_parse_redirect() {
    let env = no_env();
    let (cmd, redir) = parse_redirect("dbl > /tmp/out.txt", &env);
    assert_eq!(cmd, "dbl");
    let r = redir.unwrap();
    assert_eq!(r.path, "/tmp/out.txt");
    assert!(!r.append);

    let (cmd, redir) = parse_redirect("dbl >> /tmp/out.txt", &env);
    assert_eq!(cmd, "dbl");
    assert!(redir.unwrap().append);

    let (cmd, redir) = parse_redirect("dbl", &env);
    assert_eq!(cmd, "dbl");
    assert!(redir.is_none());
}

#[test]
fn redirect_edges() {
    let mut env = NameMap::new();
    env.insert("LOG".to_string(), "/var/log".to_string());
    let (cmd, redir) = parse_redirect("dbpf X \"a>b\" > $(LOG)/x ", &env);
    assert_eq!(cmd, "dbpf X \"a>b\"");
    assert_eq!(redir.unwrap().path, "/var/log/x");
    let (cmd, redir) = parse_redirect("dbl >   ", &env);
    assert_eq!(cmd, "dbl >   ");
    assert!(redir.is_none());
}

#[test]
fn test_parse_macro_string() {
    let env = no_env();
    let macros = parse_macro_string("P=IOC:,R=TEMP", &env);
    assert_eq!(macros.get("P").unwrap(), "IOC:");
    assert_eq!(macros.get("R").unwrap(), "TEMP");

    let empty = parse_macro_string("", &env);
    assert!(empty.is_empty());
}

#[test]
fn macro_string_edges() {
    let mut env = NameMap::new();
    env.insert("HOME".to_string(), "/h".to_string());
    let m = parse_macro_string(" A = 1 ,B,A=2,D=$(HOME)/x", &env);
    assert_eq!(m.len(), 2);
    assert_eq!(m.get("A").unwrap(), "2");
    assert_eq!(m.get("D").unwrap(), "/h/x");
    assert!(m.get("B").is_none());
}

#[test]
fn glob_patterns() {
    assert!(glob_match("*", "anything"));
    assert!(glob_match("*", ""));
    assert!(glob_match("TEMP*", "TEMP:1"));
    assert!(glob_match("*:1", "TEMP:1"));
    assert!(glob_match("T?MP", "TEMP"));
    assert!(!glob_match("T?MP", "TMP"));
    assert!(glob_match("a*b*c", "aXXbYYc"));
    assert!(!glob_match("a*b*c", "aXXbYY"));
    assert!(glob_match("TEMP", "TEMP"));
    assert!(!glob_match("TEMP", "TEMP1"));
    assert!(glob_match("", ""));
    assert!(!glob_match("", "x"));
}

#[test]
fn common_field_types() {
    assert_eq!(common_field_dbf_type("SCAN"), Some(DbFieldType::String));
    assert_eq!(common_field_dbf_type("FLNK"), Some(DbFieldType::String));
    assert_eq!(common_field_dbf_type("SEVR"), Some(DbFieldType::Short));
    assert_eq!(common_field_dbf_type("LLSV"), Some(DbFieldType::Short));
    assert_eq!(common_field_dbf_type("PINI"), Some(DbFieldType::Char));
    assert_eq!(common_field_dbf_type("LOLO"), Some(DbFieldType::Double));
    assert_eq!(common_field_dbf_type("VAL"), None);
}

#[test]
fn test_parse_args_required() {
    let descs = vec![ArgDesc {
        name: "name",
        arg_type: ArgType::String,
        optional: false,
    }];
    let tokens = vec!["TEMP".to_string()];
    let result = parse_args(&tokens, &descs).unwrap();
    assert!(matches!(&result[0], ParsedArg::Text(s) if s == "TEMP"));
}

#[test]
fn test_parse_args_optional_missing() {
    let descs = vec![ArgDesc {
        name: "type",
        arg_type: ArgType::String,
        optional: true,
    }];
    let result = parse_args(&[], &descs).unwrap();
    assert!(matches!(&result[0], ParsedArg::Missing));
}

#[test]
fn test_parse_args_missing_required() {
    let descs = vec![ArgDesc {
        name: "name",
        arg_type: ArgType::String,
        optional: false,
    }];
    let result = parse_args(&[], &descs);
    assert!(result.is_err());
}

#[test]
fn test_parse_args_int() {
    let descs = vec![ArgDesc {
        name: "level",
        arg_type: ArgType::Int,
        optional: false,
    }];
    let tokens = vec!["42".to_string()];
    let result = parse_args(&tokens, &descs).unwrap();
    assert!(matches!(&result[0], ParsedArg::Int(42)));
}

#[test]
fn test_parse_args_int_invalid() {
    let descs = vec![ArgDesc {
        name: "level",
        arg_type: ArgType::Int,
        optional: false,
    }];
    let tokens = vec!["abc".to_string()];
    assert!(parse_args(&tokens, &descs).is_err());
}

#[test]
fn test_parse_args_double() {
    let descs = vec![ArgDesc {
        name: "value",
        arg_type: ArgType::Double,
        optional: false,
    }];
    let tokens = vec!["3.14".to_string()];
    let result = parse_args(&tokens, &descs).unwrap();
    match &result[0] {
        ParsedArg::Number(v) => assert!((v.parse::<f64>().unwrap() - 3.14).abs() < 1e-10),
        other => panic!("expected Double, got {:?}", other),
    }
}

#[test]
fn argument_errors_name_the_argument() {
    let descs = vec![
        ArgDesc { name: "rec", arg_type: ArgType::String, optional: false },
        ArgDesc { name: "level", arg_type: ArgType::Int, optional: true },
        ArgDesc { name: "gain", arg_type: ArgType::Double, optional: true },
    ];
    let ok = parse_args(&["r1".to_string(), "-9223372036854775808".to_string(), "-1e-3".to_string()], &descs).unwrap();
    assert_eq!(
        ok,
        vec![ParsedArg::Text("r1".into()), ParsedArg::Int(i64::MIN), ParsedArg::Number("-1e-3".into())]
    );
    assert_eq!(
        parse_args(&["r1".to_string(), "9223372036854775808".to_string()], &descs),
        Err("argument 'level': expected integer, got '9223372036854775808'".to_string())
    );
    assert_eq!(
        parse_args(&["r1".to_string(), "+7".to_string(), "x1".to_string()], &descs),
        Err("argument 'gain': expected number, got 'x1'".to_string())
    );
    assert_eq!(
        parse_args(&["r1".to_string()], &descs),
        Ok(vec![ParsedArg::Text("r1".into()), ParsedArg::Missing, ParsedArg::Missing])
    );
    assert_eq!(parse_args(&[], &descs), Err("missing required argument 'rec'".to_string()));
}
