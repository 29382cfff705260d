use epics_base_rs::database::chain::Dispatch;
use epics_base_rs::database::multi_output::{dfanout_dispatch, fanout_dispatch, output_links_dispatch, seq_dispatch, sseq_dispatch};

fn strings(v: &[&str]) -> Vec<String> {
    v.iter().map(|s| s.to_string()).collect()
}

fn describe(v: &[Dispatch]) -> Vec<String> {
    v.iter()
        .map(|d| match d {
            Dispatch::Process(r) => format!("process {}", r),
            Dispatch::Write(l) => format!("write {}.{} {:?}", l.record, l.field, l.policy),
            Dispatch::ReadWrite(d, l) => format!("read {} write {}.{}", d, l.record, l.field),
        })
        .collect()
}

#[test]
fn fanout_processes_the_selected_database_links() {
    let links = strings(&["a", "", "b CP", "ca://x", "c"]);
    assert_eq!(describe(&fanout_dispatch(0, 0, &links)), vec!["process a", "process b", "process c"]);
    // SELM 1: only the link SELN.
    assert_eq!(describe(&fanout_dispatch(1, 2, &links)), vec!["process b"]);
    assert!(fanout_dispatch(1, 3, &links).is_empty());
    assert!(fanout_dispatch(1, 9, &links).is_empty());
    // SELM 2: the links whose bit is set in SELN.
    assert_eq!(describe(&fanout_dispatch(2, 0b10101, &links)), vec!["process a", "process b", "process c"]);
    assert_eq!(describe(&fanout_dispatch(2, 0b00100, &links)), vec!["process b"]);
}

#[test]
fn dfanout_writes_its_value_through_the_selected_links() {
    let links = strings(&["x PP", "y.DESC", "", "z NPP"]);
    assert_eq!(
        describe(&dfanout_dispatch(0, 0, &links, true)),
        vec!["write x.VAL ProcessPassive", "write y.DESC ProcessPassive", "write z.VAL NoProcess"]
    );
    assert_eq!(describe(&dfanout_dispatch(1, 1, &links, true)), vec!["write y.DESC ProcessPassive"]);
    // Without a value nothing is written; a plain link processes passively.
    assert!(dfanout_dispatch(0, 0, &links, false).is_empty());
}

#[test]
fn output_links_write_only_valued_database_links() {
    let links = strings(&["a PP", "b", "", "c.B"]);
    let has_value = vec![true, false, true, true];
    assert_eq!(
        describe(&output_links_dispatch(&links, &has_value)),
        vec!["write a.VAL ProcessPassive", "write c.B ProcessPassive"]
    );
}

#[test]
fn seq_reads_each_dol_and_writes_its_lnk() {
    let dols = strings(&["src1", "", "src3", "src4"]);
    let lnks = strings(&["t1", "t2", "", "ca://t4"]);
    assert_eq!(describe(&seq_dispatch(0, 0, &dols, &lnks)), vec!["read src1 write t1.VAL"]);
    let lnks = strings(&["t1", "t2", "t3.B", "t4"]);
    assert_eq!(
        describe(&seq_dispatch(2, 0b1101, &dols, &lnks)),
        vec!["read src1 write t1.VAL", "read src3 write t3.B", "read src4 write t4.VAL"]
    );
    // An sseq pair without a DOL writes the record's own STR/DO value.
    assert_eq!(
        describe(&sseq_dispatch(0, 0, &dols, &lnks)),
        vec!["read src1 write t1.VAL", "write t2.VAL ProcessPassive", "read src3 write t3.B", "read src4 write t4.VAL"]
    );
    assert_eq!(describe(&sseq_dispatch(1, 1, &dols, &lnks)), vec!["write t2.VAL ProcessPassive"]);
}
