use toroidal_tql::backup::{
    classify_line, header_line, newest_first, node_line, BackupEntry, BackupLine, BackupManager, SECONDS_PER_DAY,
};

fn entry(id: &str, created_at: u64) -> BackupEntry {
    BackupEntry { id: id.to_string(), created_at, size_bytes: 0, node_count: 0, metadata: "{}".to_string() }
}

#[test]
fn backup_ids_and_paths() {
    let m = BackupManager::new("/var/backups", 7);
    assert_eq!(BackupManager::backup_id(1700000000), "backup_1700000000");
    assert_eq!(BackupManager::backup_id(0), "backup_0");
    assert_eq!(m.backup_path("backup_5"), "/var/backups/backup_5.jsonl");
}

#[test]
fn backup_lines_round_trip() {
    let h = header_line("{\"version\":\"1.0\"}");
    assert_eq!(h, "HEADER:{\"version\":\"1.0\"}");
    match classify_line(&h) {
        BackupLine::Header(t) => assert_eq!(t, "{\"version\":\"1.0\"}"),
        _ => panic!("expected a header"),
    }
    match classify_line(&node_line("{\"id\":1}")) {
        BackupLine::Node(t) => assert_eq!(t, "{\"id\":1}"),
        _ => panic!("expected a node"),
    }
    assert!(matches!(classify_line(""), BackupLine::Other));
    assert!(matches!(classify_line("NODE"), BackupLine::Other));
    assert!(matches!(classify_line(" NODE:{}"), BackupLine::Other));
}

#[test]
fn backup_listing_is_newest_first_and_stable() {
    let sorted = newest_first(vec![entry("a", 5), entry("b", 9), entry("c", 5), entry("d", 1), entry("e", 9)]);
    let ids: Vec<&str> = sorted.iter().map(|e| e.id.as_str()).collect();
    assert_eq!(ids, vec!["b", "e", "a", "c", "d"]);
    assert!(newest_first(Vec::new()).is_empty());
}

#[test]
fn backup_retention() {
    let m = BackupManager::new("/b", 2);
    let now = 10 * SECONDS_PER_DAY;
    let cutoff = m.retention_cutoff(now);
    assert_eq!(cutoff, 8 * SECONDS_PER_DAY);
    let entries = vec![entry("old", cutoff - 1), entry("edge", cutoff), entry("new", now), entry("older", 3)];
    assert_eq!(BackupManager::expired_backups(&entries, cutoff), vec!["old".to_string(), "older".to_string()]);
}
