use linkd::protocol::SyncEntry;
use linkd::sync::{next_baseline, reconcile, safe_rel, scan, BaseRecord, Baseline, FoundFile};

fn e(path: &str, size: u64, mtime: i64) -> SyncEntry {
    SyncEntry { path: path.to_string(), size, mtime }
}

fn base(path: &str, size: u64, pc: i64, phone: i64) -> BaseRecord {
    BaseRecord { path: path.to_string(), size, pc_mtime: pc, phone_mtime: phone }
}

fn paths(v: &[SyncEntry]) -> Vec<String> {
    v.iter().map(|e| e.path.clone()).collect()
}

#[test]
fn new_files_flow_to_the_other_side() {
    let pc = vec![e("a.txt", 1, 10)];
    let phone = vec![e("b.txt", 2, 20)];
    let plan = reconcile(&pc, &phone, &Baseline { files: vec![] });
    assert_eq!(paths(&plan.push), vec!["a.txt"]);
    assert_eq!(plan.pull, vec!["b.txt"]);
    assert!(plan.del_pc.is_empty());
    assert!(plan.del_phone.is_empty());
}

#[test]
fn deletions_propagate_when_the_other_side_is_unchanged() {
    let b = Baseline { files: vec![base("gone-on-phone", 5, 1, 2), base("gone-on-pc", 5, 3, 4)] };
    let pc = vec![e("gone-on-phone", 5, 1)];
    let phone = vec![e("gone-on-pc", 5, 4)];
    let plan = reconcile(&pc, &phone, &b);
    assert_eq!(plan.del_pc, vec!["gone-on-phone"]);
    assert_eq!(plan.del_phone, vec!["gone-on-pc"]);
    assert!(plan.push.is_empty());
    assert!(plan.pull.is_empty());
}

#[test]
fn a_changed_copy_wins_over_a_deletion() {
    let b = Baseline { files: vec![base("f", 5, 1, 2)] };
    let pc = vec![e("f", 6, 9)];
    let plan = reconcile(&pc, &[], &b);
    assert_eq!(paths(&plan.push), vec!["f"]);
    assert!(plan.del_pc.is_empty());
}

#[test]
fn conflicts_go_to_the_newer_copy_and_ties_to_the_pc() {
    let b = Baseline { files: vec![base("x", 1, 1, 1), base("y", 1, 1, 1), base("z", 1, 1, 1)] };
    let pc = vec![e("x", 2, 50), e("y", 2, 10), e("z", 2, 30)];
    let phone = vec![e("x", 3, 40), e("y", 3, 20), e("z", 3, 30)];
    let plan = reconcile(&pc, &phone, &b);
    assert_eq!(paths(&plan.push), vec!["x", "z"]);
    assert_eq!(plan.pull, vec!["y"]);
}

#[test]
fn plans_list_paths_in_order_and_once() {
    let pc = vec![e("c", 1, 1), e("a", 1, 1), e("c", 1, 2)];
    let phone = vec![e("b", 1, 1)];
    let plan = reconcile(&pc, &phone, &Baseline { files: vec![] });
    assert_eq!(paths(&plan.push), vec!["a", "c"]);
    assert_eq!(plan.push[1].mtime, 2);
    assert_eq!(plan.pull, vec!["b"]);
}

#[test]
fn a_completed_sync_leaves_nothing_to_do() {
    let pc = vec![e("a", 1, 10), e("b/c", 7, 11)];
    let phone = vec![e("b/c", 7, 99), e("a", 1, 5)];
    let b = next_baseline(&pc, &phone);
    assert_eq!(b.files.len(), 2);
    assert_eq!(b.files[1].phone_mtime, 99);
    let plan = reconcile(&pc, &phone, &b);
    assert!(plan.push.is_empty() && plan.pull.is_empty());
    assert!(plan.del_pc.is_empty() && plan.del_phone.is_empty());
}

#[test]
fn baseline_keeps_only_paths_on_both_sides() {
    let b = next_baseline(&[e("a", 1, 1), e("b", 2, 2)], &[e("b", 2, 3)]);
    assert_eq!(b.files.len(), 1);
    assert_eq!(b.files[0].path, "b");
    assert_eq!((b.files[0].size, b.files[0].pc_mtime, b.files[0].phone_mtime), (2, 2, 3));
}

#[test]
fn relative_paths_must_stay_inside() {
    assert!(safe_rel("a/b.txt"));
    assert!(safe_rel("x"));
    assert!(!safe_rel(""));
    assert!(!safe_rel("/etc/passwd"));
    assert!(!safe_rel("a/../b"));
    assert!(!safe_rel("./a"));
    assert!(!safe_rel(".."));
}

#[test]
fn scan_makes_paths_relative() {
    let found = vec![
        FoundFile { path: "/root/dir/a.txt".to_string(), size: 3, mtime: 7 },
        FoundFile { path: "/root/dir/sub\\b".to_string(), size: 4, mtime: 8 },
    ];
    let entries = scan("/root/dir", &found);
    assert_eq!(entries.len(), 2);
    assert_eq!(entries[0].path, "a.txt");
    assert_eq!(entries[1].path, "sub/b");
    assert_eq!((entries[1].size, entries[1].mtime), (4, 8));
}
