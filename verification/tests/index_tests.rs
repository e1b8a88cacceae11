use blame_index::ids::{parse_commit_id, CommitId};
use blame_index::index::{build_index_from_log, LogEntry};

fn id_from_byte(b: u8) -> CommitId {
    CommitId::from_bytes(vec![b; 20]).unwrap()
}

fn hex_a1() -> String {
    "aa11aa11aa11aa11aa11aa11aa11aa11aa11aa11".to_string()
}

fn hex_a2() -> String {
    "aa22aa22aa22aa22aa22aa22aa22aa22aa22aa22".to_string()
}

fn entry(blame_byte: u8, message: &str) -> LogEntry {
    LogEntry { blame_id: id_from_byte(blame_byte), message: message.to_string() }
}

#[test]
fn empty_log_builds_empty_index() {
    let outcome = build_index_from_log(&Vec::new());
    assert_eq!(outcome.index.forward_len(), 0);
    assert_eq!(outcome.index.revision_len(), 0);
    assert_eq!(outcome.skipped, 0);
    assert!(outcome.index.blame_commit_for(&id_from_byte(1)).is_none());
    assert!(outcome.index.external_revision_for(&id_from_byte(1)).is_none());
}

#[test]
fn three_commit_history() {
    // Newest first: one full entry, one without a revision, one malformed.
    let log = vec![
        entry(1, &format!("blame {} rev r1", hex_a1())),
        entry(2, &format!("blame {}", hex_a2())),
        entry(3, "blame"),
    ];
    let outcome = build_index_from_log(&log);
    assert_eq!(outcome.index.forward_len(), 2);
    assert_eq!(outcome.index.revision_len(), 1);
    assert_eq!(outcome.skipped, 1);

    let a1 = parse_commit_id(&hex_a1()).unwrap();
    let a2 = parse_commit_id(&hex_a2()).unwrap();
    assert_eq!(outcome.index.blame_commit_for(&a1), Some(&id_from_byte(1)));
    assert_eq!(outcome.index.blame_commit_for(&a2), Some(&id_from_byte(2)));
    assert_eq!(
        outcome.index.external_revision_for(&a1),
        Some(&"r1".to_string())
    );
    assert!(outcome.index.external_revision_for(&a2).is_none());
}

#[test]
fn duplicate_original_keeps_newest() {
    // Both commits name the same original id; the first entry is the most
    // recent one in a newest-first log, and it wins.
    let log = vec![
        entry(1, &format!("blame {} rev r_new", hex_a1())),
        entry(2, &format!("blame {} rev r_old", hex_a1())),
    ];
    let outcome = build_index_from_log(&log);
    let a1 = parse_commit_id(&hex_a1()).unwrap();
    assert_eq!(outcome.index.forward_len(), 1);
    assert_eq!(outcome.index.blame_commit_for(&a1), Some(&id_from_byte(1)));
    assert_eq!(
        outcome.index.external_revision_for(&a1),
        Some(&"r_new".to_string())
    );
}

#[test]
fn duplicate_revision_survives_newer_entry_without_one() {
    // The newest mention of the original id has no revision; each table
    // keeps its own first binding, so the older revision still shows.
    let log = vec![
        entry(1, &format!("blame {}", hex_a1())),
        entry(2, &format!("blame {} rev r_old", hex_a1())),
    ];
    let outcome = build_index_from_log(&log);
    let a1 = parse_commit_id(&hex_a1()).unwrap();
    assert_eq!(outcome.index.blame_commit_for(&a1), Some(&id_from_byte(1)));
    assert_eq!(
        outcome.index.external_revision_for(&a1),
        Some(&"r_old".to_string())
    );
}

#[test]
fn building_twice_yields_identical_tables() {
    let log = vec![
        entry(1, &format!("blame {} rev r1", hex_a1())),
        entry(2, &format!("blame {}", hex_a2())),
        entry(3, "noise"),
    ];
    let first = build_index_from_log(&log);
    let second = build_index_from_log(&log);
    assert_eq!(first.index.forward_len(), second.index.forward_len());
    assert_eq!(first.index.revision_len(), second.index.revision_len());
    assert_eq!(first.skipped, second.skipped);
    for hex in [hex_a1(), hex_a2()] {
        let id = parse_commit_id(&hex).unwrap();
        assert_eq!(
            first.index.blame_commit_for(&id),
            second.index.blame_commit_for(&id)
        );
        assert_eq!(
            first.index.external_revision_for(&id),
            second.index.external_revision_for(&id)
        );
    }
}

#[test]
fn skipped_counts_every_failure() {
    let log = vec![
        entry(1, ""),
        entry(2, "blame zz"),
        entry(3, &format!("blame {}", hex_a1())),
        entry(4, "blame short rev r"),
    ];
    let outcome = build_index_from_log(&log);
    // Two malformed-or-invalid identifier fields and one too-short message.
    assert_eq!(outcome.skipped, 3);
    assert_eq!(outcome.index.forward_len(), 1);
}
