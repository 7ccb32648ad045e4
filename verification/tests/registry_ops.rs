use decruft::registry::Registry;
use decruft::scanner::{CruftDirectory, CruftyReason};
use decruft::session::apply_delete_outcome;

fn entry(path: &str, size: u64) -> CruftDirectory {
    CruftDirectory {
        path: String::from(path),
        size,
        crufty_reason: CruftyReason::BuildDir,
        newest_file_age_days: Some(1),
    }
}

#[test]
fn new_registry_is_empty() {
    let reg = Registry::new();
    assert_eq!(reg.entry_count(), 0);
    assert_eq!(reg.scanned_count(), 0);
    assert!(!reg.is_complete());
    assert!(reg.snapshot().is_empty());
}

#[test]
fn append_and_snapshot_keep_order() {
    let mut reg = Registry::new();
    reg.append(entry("/a", 1));
    reg.append(entry("/b", 2));
    reg.append(entry("/c", 3));
    let snap = reg.snapshot();
    let paths: Vec<&str> = snap.iter().map(|e| e.path.as_str()).collect();
    assert_eq!(paths, vec!["/a", "/b", "/c"]);
    assert!(reg.contains_path(&String::from("/b")));
    assert!(!reg.contains_path(&String::from("/d")));
}

#[test]
fn remove_drops_exactly_one_entry() {
    let mut reg = Registry::new();
    reg.append(entry("/a", 1));
    reg.append(entry("/b", 2));
    reg.append(entry("/c", 3));
    assert!(reg.remove(&String::from("/b")));
    let paths: Vec<String> = reg.snapshot().iter().map(|e| e.path.clone()).collect();
    assert_eq!(paths, vec![String::from("/a"), String::from("/c")]);
    // Removing a path that is not there reports so and changes nothing.
    assert!(!reg.remove(&String::from("/b")));
    assert_eq!(reg.entry_count(), 2);
}

#[test]
fn progress_counters_tally_and_saturate() {
    let mut reg = Registry::new();
    reg.add_scanned(10);
    reg.add_scanned(5);
    assert_eq!(reg.scanned_count(), 15);
    reg.add_scanned(u64::MAX);
    assert_eq!(reg.scanned_count(), u64::MAX);
    reg.mark_complete();
    assert!(reg.is_complete());
}

#[test]
fn failed_deletion_keeps_the_entry() {
    let mut reg = Registry::new();
    reg.append(entry("/gone", 7));
    // The filesystem removal failed (the path may already be gone from
    // disk): the registry entry must survive so the operator can retry.
    let removed = apply_delete_outcome(&mut reg, &String::from("/gone"), false);
    assert!(!removed);
    assert_eq!(reg.entry_count(), 1);
    assert!(reg.contains_path(&String::from("/gone")));
}

#[test]
fn successful_deletion_drops_the_entry() {
    let mut reg = Registry::new();
    reg.append(entry("/junk", 7));
    let removed = apply_delete_outcome(&mut reg, &String::from("/junk"), true);
    assert!(removed);
    assert_eq!(reg.entry_count(), 0);
}
