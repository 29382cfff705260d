use epics_base_rs::database::chain::{chain_step, ChainAction, ChainEvent, ChainState, Dispatch};
use epics_base_rs::database::processing::ChainStep;
use epics_base_rs::database::record_db::{Record, RecordDb, RecordSlot};
use epics_base_rs::record::{CommonFields, DbLink, LinkProcessPolicy, ScanType};

struct Plain;

impl Record for Plain {
    fn record_type(&self) -> &str {
        "plain"
    }
    fn can_device_write(&self) -> bool {
        false
    }
    fn should_output(&self) -> bool {
        true
    }
    fn should_fire_forward_link(&self) -> bool {
        true
    }
    fn clears_udf(&self) -> bool {
        true
    }
}

fn slot(flnk: &str, scan: ScanType) -> RecordSlot<Plain> {
    let mut common = CommonFields::default();
    common.flnk = flnk.to_string();
    common.scan = scan;
    RecordSlot { common, record: Plain }
}

fn link(record: &str, policy: LinkProcessPolicy) -> DbLink {
    DbLink { record: record.to_string(), field: "VAL".to_string(), policy }
}

fn step(db: &RecordDb<Plain>, state: ChainState, event: ChainEvent) -> (ChainState, ChainAction) {
    chain_step(db, state, event)
}

fn name(s: &str) -> String {
    s.to_string()
}

#[test]
fn chain_runs_input_process_output_forward_cp() {
    let mut db: RecordDb<Plain> = RecordDb::new();
    db.add_record("a", slot("b", ScanType::Passive));
    db.add_record("b", slot("", ScanType::Passive));
    db.add_record("c", slot("", ScanType::Passive));
    db.register_cp("a", "e");
    db.register_cp("a", "c");

    let (s, a) = step(&db, ChainState::new(), ChainEvent::Start(name("a")));
    assert_eq!(a, ChainAction::Prepare(name("a")));
    let (s, a) = step(&db, s, ChainEvent::Prepared { skip: false });
    assert_eq!(a, ChainAction::ReadInput(name("a")));
    let (s, a) = step(&db, s, ChainEvent::InputRead);
    assert_eq!(a, ChainAction::Process(name("a")));
    let (s, a) = step(
        &db,
        s,
        ChainEvent::Processed { pending: false, fires_forward: true, out: Some(link("c", LinkProcessPolicy::ProcessPassive)), dispatch: vec![] },
    );
    assert_eq!(a, ChainAction::WriteOutput(name("c")));
    // The PP output target is passive: it is processed one link deeper.
    let (s, a) = step(&db, s, ChainEvent::OutputWritten);
    assert_eq!(a, ChainAction::Prepare(name("c")));
    assert_eq!(s.frames.len(), 2);
    assert_eq!(s.frames[1].depth, 1);
    let (s, a) = step(&db, s, ChainEvent::Prepared { skip: false });
    assert_eq!(a, ChainAction::ReadInput(name("c")));
    let (s, a) = step(&db, s, ChainEvent::InputRead);
    assert_eq!(a, ChainAction::Process(name("c")));
    let (s, a) = step(&db, s, ChainEvent::Processed { pending: false, fires_forward: true, out: None, dispatch: vec![] });
    assert_eq!(a, ChainAction::Finished(name("c")));
    // Back at `a`: its forward link goes to the passive `b`.
    let (s, a) = step(&db, s, ChainEvent::Continue);
    assert_eq!(a, ChainAction::Prepare(name("b")));
    let (s, a) = step(&db, s, ChainEvent::Prepared { skip: true });
    assert_eq!(a, ChainAction::Finished(name("b")));
    // Then the CP targets of `a`: `e` does not exist, `c` was processed.
    let (s, a) = step(&db, s, ChainEvent::Continue);
    assert_eq!(a, ChainAction::Missing(name("e")));
    let (s, a) = step(&db, s, ChainEvent::Continue);
    assert_eq!(a, ChainAction::Skip(name("c"), ChainStep::Cycle));
    let (s, a) = step(&db, s, ChainEvent::Continue);
    assert_eq!(a, ChainAction::Finished(name("a")));
    let (s, a) = step(&db, s, ChainEvent::Continue);
    assert_eq!(a, ChainAction::Done);
    assert_eq!(s.visited, vec![name("a"), name("c"), name("b"), name("e")]);
}

#[test]
fn forward_link_skips_scanned_targets() {
    let mut db: RecordDb<Plain> = RecordDb::new();
    db.add_record("a", slot("periodic", ScanType::Passive));
    db.add_record("periodic", slot("", ScanType::Sec1));
    let (s, _) = step(&db, ChainState::new(), ChainEvent::Start(name("a")));
    let (s, _) = step(&db, s, ChainEvent::Prepared { skip: false });
    let (s, _) = step(&db, s, ChainEvent::InputRead);
    let (s, a) = step(&db, s, ChainEvent::Processed { pending: false, fires_forward: true, out: None, dispatch: vec![] });
    assert_eq!(a, ChainAction::Finished(name("a")));
    let (_, a) = step(&db, s, ChainEvent::Continue);
    assert_eq!(a, ChainAction::Done);
}

#[test]
fn output_without_pp_and_pending_records() {
    let mut db: RecordDb<Plain> = RecordDb::new();
    db.add_record("a", slot("", ScanType::Passive));
    db.add_record("t", slot("", ScanType::Passive));
    let (s, _) = step(&db, ChainState::new(), ChainEvent::Start(name("a")));
    let (s, _) = step(&db, s, ChainEvent::Prepared { skip: false });
    let (s, _) = step(&db, s, ChainEvent::InputRead);
    let (s, a) = step(&db, s, ChainEvent::Processed { pending: false, fires_forward: false, out: Some(link("t", LinkProcessPolicy::NoProcess)), dispatch: vec![] });
    assert_eq!(a, ChainAction::WriteOutput(name("t")));
    let (s, a) = step(&db, s, ChainEvent::OutputWritten);
    assert_eq!(a, ChainAction::Finished(name("a")));
    // An event that does not fit changes nothing.
    let (s, a) = step(&db, s, ChainEvent::InputRead);
    assert_eq!(a, ChainAction::Idle);
    let (_, a) = step(&db, s, ChainEvent::Continue);
    assert_eq!(a, ChainAction::Done);

    let (s, _) = step(&db, ChainState::new(), ChainEvent::Start(name("a")));
    let (s, _) = step(&db, s, ChainEvent::Prepared { skip: false });
    let (s, _) = step(&db, s, ChainEvent::InputRead);
    let (_, a) = step(&db, s, ChainEvent::Processed { pending: true, fires_forward: true, out: None, dispatch: vec![] });
    assert_eq!(a, ChainAction::Finished(name("a")));
}

#[test]
fn chain_depth_limit_stops_a_forward_loop_of_new_records() {
    let mut db: RecordDb<Plain> = RecordDb::new();
    for i in 0..20 {
        db.add_record(&format!("r{}", i), slot(&format!("r{}", i + 1), ScanType::Passive));
    }
    let (mut s, mut a) = step(&db, ChainState::new(), ChainEvent::Start(name("r0")));
    let mut processed = 0;
    loop {
        let event = match &a {
            ChainAction::Prepare(_) => ChainEvent::Prepared { skip: false },
            ChainAction::ReadInput(_) => ChainEvent::InputRead,
            ChainAction::Process(_) => {
                processed += 1;
                ChainEvent::Processed { pending: false, fires_forward: true, out: None, dispatch: vec![] }
            }
            ChainAction::Skip(n, why) => {
                assert_eq!((n.as_str(), *why), ("r16", ChainStep::DepthLimit));
                ChainEvent::Continue
            }
            ChainAction::Done => break,
            _ => ChainEvent::Continue,
        };
        let (s2, a2) = step(&db, s, event);
        s = s2;
        a = a2;
    }
    assert_eq!(processed, 16);
}

#[test]
fn multi_output_dispatch_processes_and_writes_in_order() {
    let mut db: RecordDb<Plain> = RecordDb::new();
    db.add_record("a", slot("", ScanType::Passive));
    db.add_record("f1", slot("", ScanType::Passive));
    db.add_record("w", slot("", ScanType::Passive));
    db.add_record("w2", slot("", ScanType::Sec1));
    let (s, _) = step(&db, ChainState::new(), ChainEvent::Start(name("a")));
    let (s, _) = step(&db, s, ChainEvent::Prepared { skip: false });
    let (s, _) = step(&db, s, ChainEvent::InputRead);
    let dispatch = vec![
        Dispatch::Process(name("f1")),
        Dispatch::Write(link("w", LinkProcessPolicy::ProcessPassive)),
        Dispatch::Write(link("w2", LinkProcessPolicy::ProcessPassive)),
        Dispatch::Process(name("nope")),
    ];
    let (s, a) = step(&db, s, ChainEvent::Processed { pending: false, fires_forward: false, out: None, dispatch });
    // A fanout target is processed one link deeper.
    assert_eq!(a, ChainAction::Prepare(name("f1")));
    assert_eq!(s.frames.len(), 2);
    assert_eq!(s.frames[1].depth, 1);
    let (s, a) = step(&db, s, ChainEvent::Prepared { skip: true });
    assert_eq!(a, ChainAction::Finished(name("f1")));
    // A dfanout value is written; its passive PP target is processed.
    let (s, a) = step(&db, s, ChainEvent::Continue);
    assert_eq!(a, ChainAction::WriteOutput(name("w")));
    let (s, a) = step(&db, s, ChainEvent::OutputWritten);
    assert_eq!(a, ChainAction::Prepare(name("w")));
    let (s, a) = step(&db, s, ChainEvent::Prepared { skip: true });
    assert_eq!(a, ChainAction::Finished(name("w")));
    // A scanned PP target is written but not processed.
    let (s, a) = step(&db, s, ChainEvent::Continue);
    assert_eq!(a, ChainAction::WriteOutput(name("w2")));
    let (s, a) = step(&db, s, ChainEvent::OutputWritten);
    assert_eq!(a, ChainAction::Missing(name("nope")));
    let (s, a) = step(&db, s, ChainEvent::Continue);
    assert_eq!(a, ChainAction::Finished(name("a")));
    let (s, a) = step(&db, s, ChainEvent::Continue);
    assert_eq!(a, ChainAction::Done);
    assert_eq!(s.visited, vec![name("a"), name("f1"), name("w"), name("nope")]);
}

#[test]
fn rpro_processes_the_record_once_more() {
    let mut db: RecordDb<Plain> = RecordDb::new();
    let mut first = slot("", ScanType::Passive);
    first.common.rpro = true;
    db.add_record("a", first);
    let (s, _) = step(&db, ChainState::new(), ChainEvent::Start(name("a")));
    let (s, _) = step(&db, s, ChainEvent::Prepared { skip: false });
    let (s, _) = step(&db, s, ChainEvent::InputRead);
    let (s, a) = step(&db, s, ChainEvent::Processed { pending: false, fires_forward: false, out: None, dispatch: vec![] });
    assert_eq!(a, ChainAction::Reprocess(name("a")));
    // The caller clears RPRO, then the record is processed again one level deeper.
    let mut taken = db.take_record("a").unwrap();
    assert!(db.record("a").is_none());
    taken.common.rpro = false;
    db.add_record("a", taken);
    let (s, a) = step(&db, s, ChainEvent::Reprocessing);
    assert_eq!(a, ChainAction::Prepare(name("a")));
    assert_eq!(s.frames.len(), 2);
    assert_eq!(s.frames[1].depth, 1);
    let (s, _) = step(&db, s, ChainEvent::Prepared { skip: false });
    let (s, _) = step(&db, s, ChainEvent::InputRead);
    let (s, a) = step(&db, s, ChainEvent::Processed { pending: false, fires_forward: false, out: None, dispatch: vec![] });
    assert_eq!(a, ChainAction::Finished(name("a")));
    // Then the first processing of the record finishes.
    let (s, a) = step(&db, s, ChainEvent::Continue);
    assert_eq!(a, ChainAction::Finished(name("a")));
    let (s, a) = step(&db, s, ChainEvent::Continue);
    assert_eq!(a, ChainAction::Done);
    assert_eq!(s.visited, vec![name("a")]);
}

#[test]
fn async_completion_writes_output_then_forward_and_cp_links() {
    let mut db: RecordDb<Plain> = RecordDb::new();
    db.add_record("a", slot("b", ScanType::Passive));
    db.add_record("b", slot("", ScanType::Passive));
    db.add_record("c", slot("", ScanType::Passive));
    db.add_record("t", slot("", ScanType::Passive));
    db.register_cp("a", "c");
    let (s, a) = step(
        &db,
        ChainState::new(),
        ChainEvent::Complete {
            record: name("a"),
            fires_forward: true,
            out: Some(link("t", LinkProcessPolicy::ProcessPassive)),
            dispatch: vec![],
        },
    );
    assert_eq!(a, ChainAction::WriteOutput(name("t")));
    let (s, a) = step(&db, s, ChainEvent::OutputWritten);
    assert_eq!(a, ChainAction::Prepare(name("t")));
    assert_eq!(s.frames[1].depth, 1);
    let (s, a) = step(&db, s, ChainEvent::Prepared { skip: true });
    assert_eq!(a, ChainAction::Finished(name("t")));
    let (s, a) = step(&db, s, ChainEvent::Continue);
    assert_eq!(a, ChainAction::Prepare(name("b")));
    let (s, _) = step(&db, s, ChainEvent::Prepared { skip: true });
    let (s, a) = step(&db, s, ChainEvent::Continue);
    assert_eq!(a, ChainAction::Prepare(name("c")));
    let (s, _) = step(&db, s, ChainEvent::Prepared { skip: true });
    let (s, a) = step(&db, s, ChainEvent::Continue);
    assert_eq!(a, ChainAction::Completed(name("a")));
    let (s, a) = step(&db, s, ChainEvent::Continue);
    assert_eq!(a, ChainAction::Done);
    assert_eq!(s.visited, vec![name("t"), name("b"), name("c")]);

    let (_, a) = step(
        &db,
        ChainState::new(),
        ChainEvent::Complete { record: name("zz"), fires_forward: false, out: None, dispatch: vec![] },
    );
    assert_eq!(a, ChainAction::Missing(name("zz")));
}

#[test]
fn seq_dispatch_reads_then_writes() {
    let mut db: RecordDb<Plain> = RecordDb::new();
    db.add_record("s", slot("", ScanType::Passive));
    db.add_record("t", slot("", ScanType::Passive));
    db.add_record("u", slot("", ScanType::Passive));
    let (s, _) = step(&db, ChainState::new(), ChainEvent::Start(name("s")));
    let (s, _) = step(&db, s, ChainEvent::Prepared { skip: false });
    let (s, _) = step(&db, s, ChainEvent::InputRead);
    let dispatch = vec![
        Dispatch::ReadWrite(name("src1"), link("t", LinkProcessPolicy::NoProcess)),
        Dispatch::ReadWrite(name("src2"), link("u", LinkProcessPolicy::ProcessPassive)),
        Dispatch::ReadWrite(name("src3"), link("u", LinkProcessPolicy::NoProcess)),
    ];
    let (s, a) = step(&db, s, ChainEvent::Processed { pending: false, fires_forward: false, out: None, dispatch });
    assert_eq!(a, ChainAction::ReadValue(name("src1")));
    // The first DOL gives no value: nothing is written through its LNK.
    let (s, a) = step(&db, s, ChainEvent::ValueRead { present: false });
    assert_eq!(a, ChainAction::ReadValue(name("src2")));
    let (s, a) = step(&db, s, ChainEvent::ValueRead { present: true });
    assert_eq!(a, ChainAction::WriteOutput(name("u")));
    let (s, a) = step(&db, s, ChainEvent::OutputWritten);
    assert_eq!(a, ChainAction::Prepare(name("u")));
    let (s, a) = step(&db, s, ChainEvent::Prepared { skip: true });
    assert_eq!(a, ChainAction::Finished(name("u")));
    let (s, a) = step(&db, s, ChainEvent::Continue);
    assert_eq!(a, ChainAction::ReadValue(name("src3")));
    let (s, a) = step(&db, s, ChainEvent::ValueRead { present: true });
    assert_eq!(a, ChainAction::WriteOutput(name("u")));
    let (s, a) = step(&db, s, ChainEvent::OutputWritten);
    assert_eq!(a, ChainAction::Finished(name("s")));
    // A read reported when none was asked for changes nothing.
    let (s, a) = step(&db, s, ChainEvent::ValueRead { present: true });
    assert_eq!(a, ChainAction::Idle);
    let (_, a) = step(&db, s, ChainEvent::Continue);
    assert_eq!(a, ChainAction::Done);
}

#[test]
fn cp_targets_are_registered_once() {
    let mut db: RecordDb<Plain> = RecordDb::new();
    db.register_cp("a", "b");
    db.register_cp("a", "c");
    db.register_cp("a", "b");
    assert_eq!(db.cp_targets("a"), vec![name("b"), name("c")]);
    assert!(db.cp_targets("b").is_empty());
}
