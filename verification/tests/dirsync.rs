use std::collections::HashSet;

use dirsync::dir_diff::{bytes_equal, compare_dirs, simple_comparison, Comparison};
use dirsync::dir_organize::generate_organize_operations;
use dirsync::dir_sync::{generate_sync_operations, SyncOp, SyncStrategy};
use dirsync::dir_tree::{map_get, names_contain, DirTree, File};

fn dir(path: &str) -> DirTree {
    DirTree { path: path.to_string(), files: Vec::new(), subdirs: Vec::new() }
}

fn with_file(mut t: DirTree, name: &str, content: &str) -> DirTree {
    let path = format!("{}/{}", t.path, name);
    t.files.push((name.to_string(), File { path, content: content.as_bytes().to_vec() }));
    t
}

fn with_subdir(mut t: DirTree, name: &str, sub: DirTree) -> DirTree {
    t.subdirs.push((name.to_string(), sub));
    t
}

fn names(v: &Vec<String>) -> HashSet<String> {
    v.iter().cloned().collect()
}

fn set(items: &[&str]) -> HashSet<String> {
    items.iter().map(|s| s.to_string()).collect()
}

fn strings(items: &[&str]) -> Vec<String> {
    items.iter().map(|s| s.to_string()).collect()
}

fn copy(src: &str, dest: &str) -> SyncOp {
    SyncOp::Copy { src: src.to_string(), dest: dest.to_string() }
}

fn remove(path: &str) -> SyncOp {
    SyncOp::Remove { path: path.to_string() }
}

fn keep(path: &str) -> SyncOp {
    SyncOp::Keep { path: path.to_string() }
}

#[test]
fn identical_snapshots_compare_unchanged() {
    let base = with_subdir(
        with_file(dir("base"), "top.txt", "T"),
        "a",
        with_file(with_file(dir("base/a"), "f1", "X"), "f2", "Y"),
    );
    // Same entry names and contents, different root paths and file paths:
    // only names and contents matter.
    let target = with_subdir(
        with_file(dir("target"), "top.txt", "T"),
        "a",
        with_file(with_file(dir("target/a"), "f1", "X"), "f2", "Y"),
    );
    let d = compare_dirs(&base, &target);
    assert!(d.unchanged());
    assert!(d.file_comparison.unchanged());
    assert!(d.subdir_comparison.unchanged());
    assert!(d.changed_subdirs.is_empty());
    assert_eq!(names(&d.file_comparison.same), set(&["top.txt"]));
}

#[test]
fn partition_categories_disjoint_and_complete() {
    let base = strings(&["a", "b", "c"]);
    let target = strings(&["b", "c", "d"]);
    let c = simple_comparison(&base, &target);
    let missing = names(&c.missing);
    let new = names(&c.new);
    let changed = names(&c.changed);
    let same = names(&c.same);
    assert!(missing.is_disjoint(&new));
    assert!(missing.is_disjoint(&changed));
    assert!(missing.is_disjoint(&same));
    assert!(new.is_disjoint(&changed));
    assert!(new.is_disjoint(&same));
    assert!(changed.is_disjoint(&same));
    let mut union = HashSet::new();
    union.extend(missing);
    union.extend(new);
    union.extend(changed);
    union.extend(same);
    assert_eq!(union, set(&["a", "b", "c", "d"]));
}

#[test]
fn simple_comparison_exact_sets() {
    let base = strings(&["a", "b"]);
    let target = strings(&["b", "c"]);
    let c = simple_comparison(&base, &target);
    assert_eq!(names(&c.missing), set(&["a"]));
    assert_eq!(names(&c.new), set(&["c"]));
    assert_eq!(names(&c.same), set(&["b"]));
    assert!(c.changed.is_empty());
}

#[test]
fn file_classification_by_content() {
    let base = with_file(
        with_file(with_file(dir("base"), "only_base", "X"), "shared_same", "S"),
        "shared_diff",
        "AA",
    );
    let target = with_file(
        with_file(with_file(dir("target"), "shared_same", "S"), "shared_diff", "AB"),
        "only_target",
        "Y",
    );
    let d = compare_dirs(&base, &target);
    let files = &d.file_comparison;
    assert_eq!(names(&files.missing), set(&["only_base"]));
    assert_eq!(names(&files.new), set(&["only_target"]));
    // Equal bytes under different absolute paths are `same`; equal-length
    // different bytes are `changed`: the check is byte-for-byte content.
    assert_eq!(names(&files.same), set(&["shared_same"]));
    assert_eq!(names(&files.changed), set(&["shared_diff"]));
}

#[test]
fn unchanged_ignores_same_entries() {
    let c = Comparison::<String> {
        changed: Vec::new(),
        missing: Vec::new(),
        new: Vec::new(),
        same: strings(&["kept"]),
    };
    assert!(c.unchanged());
    let c2 = Comparison::<String> {
        changed: strings(&["x"]),
        missing: Vec::new(),
        new: Vec::new(),
        same: Vec::new(),
    };
    assert!(!c2.unchanged());
}

#[test]
fn nested_change_surfaces_at_every_ancestor() {
    // base and target differ only in a/b/f, two levels down.
    let base = with_subdir(
        dir("base"),
        "a",
        with_subdir(dir("base/a"), "b", with_file(dir("base/a/b"), "f", "old")),
    );
    let target = with_subdir(
        dir("target"),
        "a",
        with_subdir(dir("target/a"), "b", with_file(dir("target/a/b"), "f", "new")),
    );
    let d = compare_dirs(&base, &target);
    assert!(!d.unchanged());
    assert_eq!(names(&d.subdir_comparison.changed), set(&["a"]));
    assert_eq!(d.changed_subdirs.len(), 1);
    let (name_a, diff_a) = &d.changed_subdirs[0];
    assert_eq!(name_a, "a");
    assert!(!diff_a.unchanged());
    assert_eq!(names(&diff_a.subdir_comparison.changed), set(&["b"]));
    assert_eq!(diff_a.changed_subdirs.len(), 1);
    let (name_b, diff_b) = &diff_a.changed_subdirs[0];
    assert_eq!(name_b, "b");
    assert!(!diff_b.unchanged());
    assert_eq!(names(&diff_b.file_comparison.changed), set(&["f"]));
}

#[test]
fn strategy_governs_only_new_items() {
    let base = with_file(dir("base"), "keep.txt", "K");
    let target = with_file(with_file(dir("target"), "keep.txt", "K"), "extra.txt", "E");
    let d = compare_dirs(&base, &target);
    let full = generate_sync_operations(&d, &SyncStrategy::Full, &"base".to_string(), &"target".to_string());
    let patch = generate_sync_operations(&d, &SyncStrategy::Patch, &"base".to_string(), &"target".to_string());
    let full_removes: Vec<&SyncOp> =
        full.iter().filter(|op| matches!(op, SyncOp::Remove { .. })).collect();
    assert_eq!(full_removes, vec![&remove("target/extra.txt")]);
    let patch_keeps_extra: Vec<&SyncOp> = patch
        .iter()
        .filter(|op| **op == keep("target/extra.txt"))
        .collect();
    assert_eq!(patch_keeps_extra.len(), 1);
    assert!(!patch.iter().any(|op| matches!(op, SyncOp::Remove { .. })));
    // The plans line up: same length, and the only position that differs
    // holds the Remove under Full and the Keep of the same path under Patch.
    assert_eq!(full.len(), patch.len());
    for (f, p) in full.iter().zip(patch.iter()) {
        match (f, p) {
            (SyncOp::Remove { path: fp }, SyncOp::Keep { path: pp }) => {
                assert_eq!(fp, pp);
                assert_eq!(fp, "target/extra.txt");
            }
            _ => assert_eq!(f, p),
        }
    }
}

#[test]
fn full_plan_for_missing_changed_new_same() {
    let base = with_file(with_file(dir("base"), "m.txt", "M"), "c.txt", "C1");
    let target = with_file(with_file(dir("target"), "c.txt", "C2"), "n.txt", "N");
    let d = compare_dirs(&base, &target);
    let ops = generate_sync_operations(&d, &SyncStrategy::Full, &"base".to_string(), &"target".to_string());
    assert_eq!(
        ops,
        vec![
            copy("base/m.txt", "target/m.txt"),
            copy("base/c.txt", "target/c.txt"),
            remove("target/n.txt"),
        ]
    );
}

#[test]
fn end_to_end_full_sync() {
    // base has a/f1 ("X") and a/f2 ("Y"); target has a/f1 ("X") and a/f3 ("Z").
    let base = with_subdir(
        dir("base"),
        "a",
        with_file(with_file(dir("base/a"), "f1", "X"), "f2", "Y"),
    );
    let target = with_subdir(
        dir("target"),
        "a",
        with_file(with_file(dir("target/a"), "f1", "X"), "f3", "Z"),
    );
    let d = compare_dirs(&base, &target);
    let diff_a = &d.changed_subdirs[0].1;
    assert_eq!(names(&diff_a.file_comparison.missing), set(&["f2"]));
    assert_eq!(names(&diff_a.file_comparison.new), set(&["f3"]));
    assert_eq!(names(&diff_a.file_comparison.same), set(&["f1"]));
    let ops = generate_sync_operations(&d, &SyncStrategy::Full, &"base".to_string(), &"target".to_string());
    assert_eq!(
        ops,
        vec![
            copy("base/a/f2", "target/a/f2"),
            remove("target/a/f3"),
            keep("target/a/f1"),
        ]
    );
    // The state those three operations leave behind: target/a holds exactly
    // f1 (untouched) and f2 (byte-copied from the base).
    let synced = with_subdir(
        dir("target"),
        "a",
        with_file(with_file(dir("target/a"), "f1", "X"), "f2", "Y"),
    );
    let rediff = compare_dirs(&base, &synced);
    assert!(rediff.unchanged());
}

#[test]
fn end_to_end_changed_file() {
    // base and target each have b/g1 with differing content.
    let base = with_subdir(dir("base"), "b", with_file(dir("base/b"), "g1", "one"));
    let target = with_subdir(dir("target"), "b", with_file(dir("target/b"), "g1", "two"));
    let d = compare_dirs(&base, &target);
    let diff_b = &d.changed_subdirs[0].1;
    assert_eq!(names(&diff_b.file_comparison.changed), set(&["g1"]));
    let expected = vec![copy("base/b/g1", "target/b/g1")];
    let full = generate_sync_operations(&d, &SyncStrategy::Full, &"base".to_string(), &"target".to_string());
    let patch = generate_sync_operations(&d, &SyncStrategy::Patch, &"base".to_string(), &"target".to_string());
    assert_eq!(full, expected);
    assert_eq!(patch, expected);
    // After the copy, target's b/g1 byte-equals base's.
    let synced = with_subdir(dir("target"), "b", with_file(dir("target/b"), "g1", "one"));
    assert!(compare_dirs(&base, &synced).unchanged());
}

#[test]
fn patch_sync_leaves_only_new_items() {
    let base = with_file(dir("base"), "x.txt", "A");
    let target = with_file(with_file(dir("target"), "x.txt", "B"), "extra.txt", "C");
    let d = compare_dirs(&base, &target);
    let ops = generate_sync_operations(&d, &SyncStrategy::Patch, &"base".to_string(), &"target".to_string());
    assert_eq!(ops, vec![copy("base/x.txt", "target/x.txt"), keep("target/extra.txt")]);
    // The state after executing the patch plan: x.txt copied from base,
    // extra.txt kept. A rediff reports only `new`, holding exactly the kept
    // item.
    let synced = with_file(with_file(dir("target"), "x.txt", "A"), "extra.txt", "C");
    let rediff = compare_dirs(&base, &synced);
    assert!(rediff.file_comparison.missing.is_empty());
    assert!(rediff.file_comparison.changed.is_empty());
    assert_eq!(names(&rediff.file_comparison.new), set(&["extra.txt"]));
    assert!(rediff.subdir_comparison.unchanged());
}

#[test]
fn missing_and_new_subdirs_get_blanket_operations() {
    let base = with_subdir(dir("base"), "gone", with_file(dir("base/gone"), "f", "F"));
    let target = with_subdir(dir("target"), "added", with_file(dir("target/added"), "g", "G"));
    let d = compare_dirs(&base, &target);
    assert_eq!(names(&d.subdir_comparison.missing), set(&["gone"]));
    assert_eq!(names(&d.subdir_comparison.new), set(&["added"]));
    let full = generate_sync_operations(&d, &SyncStrategy::Full, &"base".to_string(), &"target".to_string());
    assert_eq!(full, vec![copy("base/gone", "target/gone"), remove("target/added")]);
    let patch = generate_sync_operations(&d, &SyncStrategy::Patch, &"base".to_string(), &"target".to_string());
    assert_eq!(patch, vec![copy("base/gone", "target/gone"), keep("target/added")]);
}

#[test]
fn empty_snapshots_compare_unchanged() {
    let d = compare_dirs(&dir("base"), &dir("target"));
    assert!(d.unchanged());
    let ops = generate_sync_operations(&d, &SyncStrategy::Full, &"base".to_string(), &"target".to_string());
    assert!(ops.is_empty());
}

#[test]
fn file_and_subdir_partitions_are_independent() {
    // The name "x" is a file in base and a subdirectory in target: the file
    // partition sees it as missing, the subdirectory partition as new.
    let base = with_file(dir("base"), "x", "F");
    let target = with_subdir(dir("target"), "x", with_file(dir("target/x"), "inner", "I"));
    let d = compare_dirs(&base, &target);
    assert_eq!(names(&d.file_comparison.missing), set(&["x"]));
    assert_eq!(names(&d.subdir_comparison.new), set(&["x"]));
    assert!(d.changed_subdirs.is_empty());
}

#[test]
fn organize_operations_are_empty() {
    let t = with_file(dir("somewhere"), "f", "F");
    let ops = generate_organize_operations(&t);
    assert!(ops.is_empty());
}

#[test]
fn bytes_equal_is_byte_exact() {
    assert!(bytes_equal(&vec![1u8, 2, 3], &vec![1u8, 2, 3]));
    assert!(!bytes_equal(&vec![1u8, 2, 3], &vec![1u8, 2, 4]));
    assert!(!bytes_equal(&vec![1u8, 2], &vec![1u8, 2, 3]));
    assert!(bytes_equal(&Vec::new(), &Vec::new()));
}

#[test]
fn lookup_helpers_find_entries() {
    let t = with_file(with_file(dir("base"), "a", "A"), "b", "B");
    let found = map_get(&t.files, &"b".to_string());
    assert_eq!(found.map(|f| f.content.clone()), Some("B".as_bytes().to_vec()));
    assert!(map_get(&t.files, &"z".to_string()).is_none());
    let list = strings(&["x", "y"]);
    assert!(names_contain(&list, &"y".to_string()));
    assert!(!names_contain(&list, &"q".to_string()));
}
