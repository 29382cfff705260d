use epics_base_rs::database::scan_index::ScanIndex;
use epics_base_rs::record::ScanType;

#[test]
fn records_come_out_by_phase_then_name() {
    let mut idx = ScanIndex::new();
    idx.update("B", ScanType::Passive, ScanType::Sec1, 0, 0);
    idx.update("A", ScanType::Passive, ScanType::Sec1, 0, 0);
    idx.update("C", ScanType::Passive, ScanType::Sec1, 0, -1);
    idx.update("D", ScanType::Passive, ScanType::Event, 0, 2);
    assert_eq!(idx.records_for_scan(ScanType::Sec1), vec!["C", "A", "B"]);
    assert_eq!(idx.records_for_scan(ScanType::Event), vec!["D"]);
    assert!(idx.records_for_scan(ScanType::Passive).is_empty());
}

#[test]
fn update_moves_records() {
    let mut idx = ScanIndex::new();
    idx.update("X", ScanType::Passive, ScanType::Sec1, 0, 0);
    idx.update("X", ScanType::Sec1, ScanType::Sec2, 0, 5);
    assert!(idx.records_for_scan(ScanType::Sec1).is_empty());
    assert_eq!(idx.records_for_scan(ScanType::Sec2), vec!["X"]);
    // A phase change within the same scan type re-sorts.
    idx.update("Y", ScanType::Passive, ScanType::Sec2, 0, 1);
    assert_eq!(idx.records_for_scan(ScanType::Sec2), vec!["Y", "X"]);
    idx.update("X", ScanType::Sec2, ScanType::Sec2, 5, 0);
    assert_eq!(idx.records_for_scan(ScanType::Sec2), vec!["X", "Y"]);
    // Adding twice lists once; becoming passive removes.
    idx.update("Y", ScanType::Passive, ScanType::Sec2, 0, 1);
    assert_eq!(idx.records_for_scan(ScanType::Sec2), vec!["X", "Y"]);
    idx.update("Y", ScanType::Sec2, ScanType::Passive, 1, 1);
    assert_eq!(idx.records_for_scan(ScanType::Sec2), vec!["X"]);
    // Removing an entry that is not there changes nothing.
    idx.update("Z", ScanType::Sec2, ScanType::Passive, 0, 0);
    assert_eq!(idx.records_for_scan(ScanType::Sec2), vec!["X"]);
}

#[test]
fn names_order_by_code_point() {
    let mut idx = ScanIndex::new();
    for n in ["b", "B", "a1", "a", "é", "A"] {
        idx.update(n, ScanType::Passive, ScanType::IoIntr, 0, 0);
    }
    assert_eq!(idx.records_for_scan(ScanType::IoIntr), vec!["A", "B", "a", "a1", "b", "é"]);
}
