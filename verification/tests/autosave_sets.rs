use epics_base_rs::autosave::backup::{
    advance_seq, mark_dated, plan_rotation, restore_extensions, seq_extension, BackupConfig,
    BackupState, RotationPlan,
};
use epics_base_rs::autosave::save_file::{has_end_marker, parse_save_content, save_file_text, SaveEntry};
use epics_base_rs::autosave::save_set::{
    count_connected, trigger_step, PvRestoreError, RestoreResult, RestoreStep, SaveSetStatus,
    TriggerMode, TriggerState,
};
use std::time::{Duration, Instant};

#[test]
fn backup_defaults_and_extensions() {
    let config = BackupConfig::default();
    assert!(config.enable_savb);
    assert_eq!(config.num_seq_files, 3);
    assert_eq!(config.seq_period, Duration::from_secs(60));
    assert!(!config.enable_dated);
    assert_eq!(config.dated_interval, Duration::from_secs(3600));
    assert_eq!(restore_extensions(&config), vec!["savB", "sav0", "sav1", "sav2"]);
    let mut c2 = config.clone();
    c2.enable_savb = false;
    c2.num_seq_files = 0;
    assert!(restore_extensions(&c2).is_empty());
    assert_eq!(seq_extension(12), "sav12");
}

#[test]
fn rotation_plan_and_sequence() {
    let config = BackupConfig::default();
    let mut state = BackupState::default();
    assert_eq!(
        plan_rotation(&config, &state, true, true),
        RotationPlan { copy_savb: true, seq_copy: Some(0), dated: false }
    );
    assert_eq!(
        plan_rotation(&config, &state, false, true),
        RotationPlan { copy_savb: true, seq_copy: None, dated: false }
    );
    let now = Instant::now();
    for expected in [1, 2, 0, 1] {
        advance_seq(&mut state, &config, now);
        assert_eq!(state.seq_index, expected);
    }
    assert_eq!(state.last_seq_time, Some(now));
    assert!(state.last_dated_time.is_none());
    mark_dated(&mut state, now);
    assert_eq!(state.last_dated_time, Some(now));
    let mut dated = config.clone();
    dated.enable_dated = true;
    dated.num_seq_files = 0;
    assert_eq!(
        plan_rotation(&dated, &state, true, true),
        RotationPlan { copy_savb: true, seq_copy: None, dated: true }
    );
}

#[test]
fn restore_bookkeeping() {
    let mut r = RestoreResult::new("/tmp/x.sav".to_string());
    r.record("A", RestoreStep::Restored);
    r.record("B", RestoreStep::NotFound);
    r.record("C", RestoreStep::Disconnected);
    r.record("D", RestoreStep::ParseFailed);
    r.record("E", RestoreStep::PutFailed("denied".to_string()));
    r.record("F", RestoreStep::Restored);
    assert_eq!(r.restored, 2);
    assert_eq!(r.not_found, vec!["B"]);
    assert_eq!(r.disconnected_skipped, vec!["C"]);
    assert_eq!(r.parse_failed, vec!["D"]);
    assert_eq!(
        r.failed_puts,
        vec![PvRestoreError { pv_name: "E".to_string(), error: "denied".to_string() }]
    );
    assert_eq!(r.source_file, "/tmp/x.sav");
}

#[test]
fn connected_entries_are_counted() {
    let entries = vec![
        SaveEntry { pv_name: "A".into(), value: "1".into(), connected: true },
        SaveEntry { pv_name: "B".into(), value: "".into(), connected: false },
        SaveEntry { pv_name: "C".into(), value: "x".into(), connected: true },
    ];
    assert_eq!(count_connected(&entries), 2);
    assert_eq!(count_connected(&Vec::new()), 0);
}

#[test]
fn any_change_trigger() {
    let mut st = TriggerState::new();
    assert!(!trigger_step(&mut st, TriggerMode::AnyChange, Some("0".into()), false));
    assert!(!trigger_step(&mut st, TriggerMode::AnyChange, Some("0".into()), false));
    assert!(trigger_step(&mut st, TriggerMode::AnyChange, Some("1".into()), true));
    assert!(trigger_step(&mut st, TriggerMode::AnyChange, None, false));
    assert!(!trigger_step(&mut st, TriggerMode::AnyChange, Some("1".into()), true));
}

#[test]
fn nonzero_trigger_saves_once_per_rising_edge() {
    let mut st = TriggerState::new();
    // First poll never saves, even when non-zero.
    assert!(!trigger_step(&mut st, TriggerMode::NonZero, Some("1".into()), true));
    assert!(trigger_step(&mut st, TriggerMode::NonZero, Some("1".into()), true));
    assert!(!trigger_step(&mut st, TriggerMode::NonZero, Some("2".into()), true));
    assert!(!trigger_step(&mut st, TriggerMode::NonZero, Some("0".into()), false));
    assert!(trigger_step(&mut st, TriggerMode::NonZero, Some("3".into()), true));
}

#[test]
fn status_texts() {
    assert_eq!(SaveSetStatus::Idle.list_text(), "idle");
    assert_eq!(SaveSetStatus::Saving.list_text(), "saving");
    assert_eq!(SaveSetStatus::Error("disk full".into()).list_text(), "error: disk full");
    assert_eq!(SaveSetStatus::Idle.status_word(), "OK");
    assert_eq!(SaveSetStatus::Saving.status_word(), "SAVING");
    assert_eq!(SaveSetStatus::Error("x".into()).status_word(), "ERROR");
}

#[test]
fn written_save_file_reads_back() {
    let entries = vec![
        SaveEntry { pv_name: "IOC:A".into(), value: "12".into(), connected: true },
        SaveEntry { pv_name: "IOC:B".into(), value: "\"two words\"".into(), connected: true },
        SaveEntry { pv_name: "IOC:C".into(), value: "ignored".into(), connected: false },
    ];
    let text = save_file_text("2024-01-02 03:04:05", &entries);
    assert_eq!(
        text,
        "# autosave-rs V1.0\t2024-01-02 03:04:05\nIOC:A 12\nIOC:B \"two words\"\n#IOC:C\t(not connected)\n<END>\n"
    );
    assert!(has_end_marker(&text));
    let back = parse_save_content(&text);
    assert_eq!(back.len(), 3);
    assert_eq!((back[0].pv_name.as_str(), back[0].value.as_str(), back[0].connected), ("IOC:A", "12", true));
    assert_eq!(back[1].value, "\"two words\"");
    assert_eq!((back[2].pv_name.as_str(), back[2].value.as_str(), back[2].connected), ("IOC:C", "", false));
}
