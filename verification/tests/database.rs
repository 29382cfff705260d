use epics_base_rs::database::link_set::{external_lookups, first_answer, resolve_external_value, split_link_scheme, LinkSet, LinkSetRegistry};
use epics_base_rs::database::{parse_pv_name, select_link_indices};
use epics_base_rs::device_support::{is_soft_dtyp, DeviceReadOutcome};
use std::sync::Arc;

#[test]
fn test_parse_pv_name() {
    assert_eq!(parse_pv_name("TEMP"), ("TEMP", "VAL"));
    assert_eq!(parse_pv_name("TEMP.EGU"), ("TEMP", "EGU"));
    assert_eq!(parse_pv_name("TEMP.HOPR"), ("TEMP", "HOPR"));
    assert_eq!(parse_pv_name("A.B.C"), ("A.B", "C"));
}

#[test]
fn parse_pv_name_edges() {
    assert_eq!(parse_pv_name(""), ("", "VAL"));
    assert_eq!(parse_pv_name("REC."), ("REC", ""));
    assert_eq!(parse_pv_name(".VAL"), ("", "VAL"));
    assert_eq!(parse_pv_name("tempé.DESC"), ("tempé", "DESC"));
}

#[test]
fn mod_test_select_link_indices() {
    assert_eq!(select_link_indices(0, 0, 6), vec![0, 1, 2, 3, 4, 5]);
    assert_eq!(select_link_indices(1, 2, 6), vec![2]);
    assert_eq!(select_link_indices(1, 10, 6), Vec::<usize>::new());
    assert_eq!(select_link_indices(2, 5, 6), vec![0, 2]);
}

#[test]
fn select_link_indices_edges() {
    assert_eq!(select_link_indices(1, -1, 6), Vec::<usize>::new());
    assert_eq!(select_link_indices(7, 3, 3), vec![0, 1, 2]);
    assert_eq!(select_link_indices(2, -1, 16), (0..16).collect::<Vec<usize>>());
    assert_eq!(select_link_indices(2, 0x40, 6), Vec::<usize>::new());
    assert_eq!(select_link_indices(0, 0, 0), Vec::<usize>::new());
}

struct StubLset;

impl LinkSet for StubLset {
    type Value = i64;
    fn is_connected(&self, _: &str) -> bool {
        true
    }
    fn get_value(&self, _: &str) -> Option<i64> {
        Some(42)
    }
}

#[test]
fn register_and_lookup() {
    let mut reg: LinkSetRegistry<Arc<dyn LinkSet<Value = i64>>> = LinkSetRegistry::new();
    assert!(reg.is_empty());
    reg.register("pva", Arc::new(StubLset));
    assert_eq!(reg.len(), 1);
    let lset = reg.get("pva").expect("registered");
    assert!(lset.is_connected("anything"));
    assert_eq!(lset.get_value("anything"), Some(42));
}

#[test]
fn unknown_scheme_returns_none() {
    let reg: LinkSetRegistry<Arc<dyn LinkSet<Value = i64>>> = LinkSetRegistry::new();
    assert!(reg.get("missing").is_none());
}

#[test]
fn register_replaces_and_lists_schemes() {
    let mut reg: LinkSetRegistry<u32> = LinkSetRegistry::new();
    reg.register("pva", 1);
    reg.register("ca", 2);
    reg.register("pva", 3);
    assert_eq!(reg.len(), 2);
    assert_eq!(reg.get("pva"), Some(&3));
    assert_eq!(reg.get("ca"), Some(&2));
    assert_eq!(reg.schemes(), vec!["pva".to_string(), "ca".to_string()]);
}

#[test]
fn link_set_defaults() {
    let s = StubLset;
    assert_eq!(s.put_value("x", 1), Err("link set is read-only".to_string()));
    assert_eq!(s.alarm_message("x"), None);
    assert_eq!(s.time_stamp("x"), None);
    assert!(s.link_names().is_empty());
}

#[test]
fn soft_device_types() {
    assert!(is_soft_dtyp(""));
    assert!(is_soft_dtyp("Soft Channel"));
    assert!(is_soft_dtyp("Raw Soft Channel"));
    assert!(is_soft_dtyp("Async Soft Channel"));
    assert!(is_soft_dtyp("Soft Timestamp"));
    assert!(is_soft_dtyp("Sec Past Epoch"));
    assert!(!is_soft_dtyp("asynInt32"));
    assert!(!is_soft_dtyp("soft channel"));
}

#[test]
fn device_read_outcomes() {
    let ok: DeviceReadOutcome<u8> = DeviceReadOutcome::ok();
    assert!(!ok.did_compute);
    assert!(ok.actions.is_empty());
    let c: DeviceReadOutcome<u8> = DeviceReadOutcome::computed();
    assert!(c.did_compute);
    assert!(c.actions.is_empty());
    let w = DeviceReadOutcome::computed_with(vec![1u8, 2]);
    assert!(w.did_compute);
    assert_eq!(w.actions, vec![1, 2]);
}

/// A backend that knows the PVs whose names start with its prefix and
/// reads them as the length of the name.
struct PrefixLset(&'static str);

impl LinkSet for PrefixLset {
    type Value = usize;
    fn is_connected(&self, name: &str) -> bool {
        name.starts_with(self.0)
    }
    fn get_value(&self, name: &str) -> Option<usize> {
        if name.starts_with(self.0) { Some(name.len()) } else { None }
    }
}

#[test]
fn scheme_prefixes_split() {
    assert_eq!(split_link_scheme("pva://a:b"), Some(("pva".to_string(), "a:b".to_string())));
    assert_eq!(split_link_scheme("ca://x"), Some(("ca".to_string(), "x".to_string())));
    assert_eq!(split_link_scheme("ca:/x"), None);
    assert_eq!(split_link_scheme("plain"), None);
}

#[test]
fn external_values_resolve_through_backends() {
    let mut reg: LinkSetRegistry<PrefixLset> = LinkSetRegistry::new();
    assert_eq!(resolve_external_value(&reg, "pva://p:1"), None);
    reg.register("pva", PrefixLset("p:"));
    reg.register("ca", PrefixLset("c:"));
    assert_eq!(resolve_external_value(&reg, "pva://p:1"), Some(3));
    assert_eq!(resolve_external_value(&reg, "pva://c:1"), None);
    assert_eq!(resolve_external_value(&reg, "c:long"), Some(6));
    assert_eq!(resolve_external_value(&reg, "zzz"), None);
    let empty_ca: LinkSetRegistry<PrefixLset> = LinkSetRegistry::new();
    assert_eq!(resolve_external_value(&empty_ca, "ca://c:1"), None);
}

#[test]
fn external_lookup_plans() {
    let mut reg: LinkSetRegistry<PrefixLset> = LinkSetRegistry::new();
    assert!(external_lookups(&reg, "p:1").is_empty());
    reg.register("pva", PrefixLset("p:"));
    reg.register("ca", PrefixLset("c:"));
    let s = |a: &str, b: &str| (a.to_string(), b.to_string());
    assert_eq!(external_lookups(&reg, "pva://p:1"), vec![s("pva", "p:1")]);
    assert_eq!(external_lookups(&reg, "x"), vec![s("pva", "x"), s("ca", "x")]);
    let mut only_ca: LinkSetRegistry<PrefixLset> = LinkSetRegistry::new();
    only_ca.register("ca", PrefixLset("c:"));
    assert!(external_lookups(&only_ca, "pva://p:1").is_empty());
}

#[test]
fn first_backend_with_a_value_wins() {
    assert_eq!(first_answer::<i32>(vec![]), None);
    assert_eq!(first_answer(vec![None, Some(2), Some(3)]), Some(2));
    assert_eq!(first_answer::<i32>(vec![None, None]), None);
}
