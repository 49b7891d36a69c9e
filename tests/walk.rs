use slimcopy::copy::{decide_copy, file_outcome, CopyPlan, DestInfo};
use slimcopy::rules::IgnoreFile;
use slimcopy::stats::{CopyOutcome, TypeCounter};
use slimcopy::walk::{collect_dir_counts, collect_dir_info, traverse_tree, Entry, Step};

fn file(name: &str) -> Entry {
    Entry::File { name: name.to_string() }
}

fn dir(name: &str, children: Vec<Entry>) -> Entry {
    Entry::Dir { name: name.to_string(), children }
}

fn link(name: &str) -> Entry {
    Entry::Symlink { name: name.to_string() }
}

fn paths(steps: &[Step]) -> Vec<String> {
    steps
        .iter()
        .map(|s| match s {
            Step::Skip { path, .. } | Step::Symlink { path } | Step::File { path } => path.clone(),
        })
        .collect()
}

fn missing() -> DestInfo {
    DestInfo { exists: false, modified: None, readonly: false }
}

#[test]
fn ignored_directory_is_not_entered() {
    let root = dir(
        "",
        vec![dir("temp", vec![dir("deep", vec![file("secret.txt")])]), file("keep.txt")],
    );
    let f = IgnoreFile::parse("temp/").unwrap();
    let steps = traverse_tree(&root, &f);
    assert_eq!(steps.len(), 2);
    match &steps[0] {
        Step::Skip { path, count } => {
            assert_eq!(path, "temp");
            assert_eq!(*count, 1);
        }
        other => panic!("unexpected {:?}", other),
    }
    assert!(paths(&steps).iter().all(|p| !p.starts_with("temp/")));
    assert!(matches!(&steps[1], Step::File { path } if path == "keep.txt"));
}

#[test]
fn mixed_tree() {
    let root = dir(
        "",
        vec![file("a.tmp"), file("keep.tmp"), dir("sub", vec![file("x.tmp"), file("y.txt")])],
    );
    let f = IgnoreFile::parse("*.tmp\n!keep.tmp").unwrap();
    let steps = traverse_tree(&root, &f);
    assert_eq!(paths(&steps), vec!["a.tmp", "keep.tmp", "sub/x.tmp", "sub/y.txt"]);
    assert!(matches!(&steps[0], Step::Skip { count: 1, .. }));
    assert!(matches!(&steps[1], Step::File { .. }));
    assert!(matches!(&steps[2], Step::Skip { count: 1, .. }));
    assert!(matches!(&steps[3], Step::File { .. }));
}

#[test]
fn mixed_tree_counts() {
    let root = dir("", vec![file("a.tmp"), file("keep.tmp"), dir("sub", vec![])]);
    let f = IgnoreFile::parse("*.tmp\n!keep.tmp").unwrap();
    let steps = traverse_tree(&root, &f);
    let mut outcomes = Vec::new();
    for s in &steps {
        match s {
            Step::Skip { count, .. } => outcomes.push(CopyOutcome::Skipped { count: *count, bytes: 3 }),
            Step::Symlink { .. } => outcomes.push(CopyOutcome::SymlinkSkipped),
            Step::File { .. } => {
                let plan = decide_copy(Some(10), &missing(), false);
                outcomes.push(file_outcome(plan, 7, 7));
            }
        }
    }
    let c = TypeCounter::tally(&outcomes).unwrap();
    assert_eq!(c.copied, 1);
    assert_eq!(c.copied_size, 7);
    assert_eq!(c.skipped, 1);
    assert_eq!(c.skipped_size, 3);
    assert_eq!(c.no_update, 0);
    assert_eq!(c.symlink, 0);
}

#[test]
fn symlink_is_reported_and_not_copied() {
    let root = dir("", vec![link("shortcut")]);
    let f = IgnoreFile::parse("").unwrap();
    let steps = traverse_tree(&root, &f);
    assert_eq!(steps.len(), 1);
    assert!(matches!(&steps[0], Step::Symlink { path } if path == "shortcut"));
    let c = TypeCounter::tally(&[CopyOutcome::SymlinkSkipped]).unwrap();
    assert_eq!(c.symlink, 1);
    assert_eq!(c.copied, 0);
}

#[test]
fn collect_counts_files_not_links() {
    let root = dir("", vec![file("a"), link("b"), dir("c", vec![file("d"), file("e"), dir("f", vec![])])]);
    assert_eq!(collect_dir_info(&root), Some(3));
    assert_eq!(collect_dir_info(&file("x")), Some(1));
    assert_eq!(collect_dir_info(&link("y")), Some(0));
}

#[test]
fn nested_paths_are_joined() {
    let root = dir("", vec![dir("a", vec![dir("b", vec![file("c.txt")])])]);
    let f = IgnoreFile::parse("").unwrap();
    assert_eq!(paths(&traverse_tree(&root, &f)), vec!["a/b/c.txt"]);
}

#[test]
fn ignored_file_under_kept_directory() {
    let root = dir("", vec![dir("src", vec![file("main.rs"), file("main.o")])]);
    let f = IgnoreFile::parse("*.o").unwrap();
    let steps = traverse_tree(&root, &f);
    assert!(matches!(&steps[0], Step::File { path } if path == "src/main.rs"));
    assert!(matches!(&steps[1], Step::Skip { path, count: 1 } if path == "src/main.o"));
}

#[test]
fn force_overwrites_newer_destination() {
    let dest = DestInfo { exists: true, modified: Some(200), readonly: false };
    let plan = decide_copy(Some(100), &dest, true);
    assert_eq!(plan, CopyPlan::Overwrite { clear_readonly: false });
    assert!(matches!(file_outcome(plan, 5, 5), CopyOutcome::Copied { bytes: 5 }));
}

#[test]
fn newer_destination_is_kept_without_force() {
    let dest = DestInfo { exists: true, modified: Some(200), readonly: false };
    let plan = decide_copy(Some(100), &dest, false);
    assert_eq!(plan, CopyPlan::Keep);
    assert!(matches!(file_outcome(plan, 0, 9), CopyOutcome::NotModified { bytes: 9 }));
}

#[test]
fn equal_times_do_not_copy() {
    let dest = DestInfo { exists: true, modified: Some(100), readonly: false };
    assert_eq!(decide_copy(Some(100), &dest, false), CopyPlan::Keep);
}

#[test]
fn unknown_times_do_not_copy() {
    let dest = DestInfo { exists: true, modified: None, readonly: false };
    assert_eq!(decide_copy(Some(100), &dest, false), CopyPlan::Keep);
    let dest = DestInfo { exists: true, modified: Some(1), readonly: false };
    assert_eq!(decide_copy(None, &dest, false), CopyPlan::Keep);
}

#[test]
fn read_only_destination_is_cleared_before_overwrite() {
    let dest = DestInfo { exists: true, modified: Some(100), readonly: true };
    assert_eq!(decide_copy(Some(200), &dest, false), CopyPlan::Overwrite { clear_readonly: true });
}

#[test]
fn missing_destination_is_created() {
    assert_eq!(decide_copy(None, &missing(), false), CopyPlan::CreateAndCopy);
}

#[test]
fn second_run_copies_nothing() {
    // after a copy the destination is no older than its source
    let dest = DestInfo { exists: true, modified: Some(500), readonly: false };
    let outcomes: Vec<CopyOutcome> = [100i128, 500]
        .iter()
        .map(|t| file_outcome(decide_copy(Some(*t), &dest, false), 1, 1))
        .collect();
    let c = TypeCounter::tally(&outcomes).unwrap();
    assert_eq!(c.copied, 0);
    assert_eq!(c.no_update, 2);
}

#[test]
fn dir_counts_cover_each_subtree() {
    let root = dir(
        "",
        vec![
            file("a"),
            link("l"),
            dir("c", vec![file("d"), dir("e", vec![file("f"), file("g")]), dir("h", vec![])]),
            dir("z", vec![link("m")]),
        ],
    );
    let counts = collect_dir_counts(&root);
    let expected: Vec<(String, u64)> = vec![
        ("".to_string(), 4),
        ("c".to_string(), 3),
        ("c/e".to_string(), 2),
        ("c/h".to_string(), 0),
        ("z".to_string(), 0),
    ];
    assert_eq!(counts, expected);
}
