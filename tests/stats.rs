use slimcopy::options::{
    check_dest, check_ignore_file, check_source, default_ignore_file, ConfigError, DestAction,
    PathFacts,
};
use slimcopy::progress::WorkingIndicator;
use slimcopy::stats::{decimal_of, CopyOutcome, TypeCounter};
use slimcopy::type_counter::TypeCounter as Counts;

fn outcomes() -> Vec<CopyOutcome> {
    vec![
        CopyOutcome::Copied { bytes: 10 },
        CopyOutcome::NotModified { bytes: 4 },
        CopyOutcome::Skipped { count: 3, bytes: 30 },
        CopyOutcome::SymlinkSkipped,
        CopyOutcome::Copied { bytes: 1 },
    ]
}

fn same(a: &TypeCounter, b: &TypeCounter) -> bool {
    (a.copied, a.skipped, a.symlink, a.no_update, a.copied_size, a.skipped_size, a.no_update_size)
        == (b.copied, b.skipped, b.symlink, b.no_update, b.copied_size, b.skipped_size, b.no_update_size)
}

#[test]
fn merge_of_parts_equals_whole() {
    let all = outcomes();
    let whole = TypeCounter::tally(&all).unwrap();
    for cut in 0..=all.len() {
        let left = TypeCounter::tally(&all[..cut]).unwrap();
        let right = TypeCounter::tally(&all[cut..]).unwrap();
        assert!(same(&left.add(&right), &whole));
        assert!(same(&right.add(&left), &whole));
        assert!(same(&TypeCounter::sum(&[left, right]), &whole));
    }
    let mut rev = all.clone();
    rev.reverse();
    assert!(same(&TypeCounter::tally(&rev).unwrap(), &whole));
}

#[test]
fn tally_exact_values() {
    let c = TypeCounter::tally(&outcomes()).unwrap();
    assert_eq!((c.copied, c.copied_size), (2, 11));
    assert_eq!((c.no_update, c.no_update_size), (1, 4));
    assert_eq!((c.skipped, c.skipped_size), (3, 30));
    assert_eq!(c.symlink, 1);
}

#[test]
fn identity_and_counting() {
    let z = TypeCounter::new();
    let c = z.count_copied(5).count_no_update(6).count_skipped(2, 7).count_symlink();
    assert!(same(&c.add(&z), &c));
    assert_eq!((c.copied, c.copied_size, c.no_update, c.no_update_size), (1, 5, 1, 6));
    assert_eq!((c.skipped, c.skipped_size, c.symlink), (2, 7, 1));
    assert!(same(&TypeCounter::sum(&[]), &z));
}

#[test]
fn tally_overflow_is_none() {
    let os = [
        CopyOutcome::Copied { bytes: u64::MAX },
        CopyOutcome::Copied { bytes: 1 },
    ];
    assert!(TypeCounter::tally(&os).is_none());
    assert!(TypeCounter::tally(&os[..1]).is_some());
}

#[test]
fn report_text() {
    let c = TypeCounter::new()
        .count_copied(2048)
        .count_no_update(678)
        .count_skipped(12, 3 * 1024 * 1024);
    assert_eq!(
        c.report(),
        "     1 file(s) copied,      size = 2.0KiB\n     1 file(s) not updated, size = 678B\n    12 item(s) skipped,     size = 3.0MiB\n     0 symbolic link(s)"
    );
}

#[test]
fn decimal_digits() {
    assert_eq!(decimal_of(0), vec!['0']);
    assert_eq!(decimal_of(1200), vec!['1', '2', '0', '0']);
    assert_eq!(decimal_of(u64::MAX).len(), 20);
}

#[test]
fn progress_percentages() {
    let mut w = WorkingIndicator::new(8);
    assert_eq!(w.last_percentage, 0);
    assert!(!w.update(0));
    assert!(w.update(1));
    assert_eq!(w.last_percentage, 12);
    assert!(w.update(3));
    assert_eq!(w.last_percentage, 50);
    assert!(!w.update(0));
    assert!(w.update(4));
    assert_eq!(w.last_percentage, 100);
    assert_eq!(w.step, 8);
}

#[test]
fn progress_past_total_keeps_counting() {
    let mut w = WorkingIndicator::new(1);
    assert!(w.update(1));
    assert_eq!(w.last_percentage, 100);
    assert!(w.update(1));
    assert_eq!(w.last_percentage, 200);
}

#[test]
fn progress_throttles_unchanged_percentage() {
    let mut w = WorkingIndicator::new(1000);
    assert!(!w.update(5));
    assert_eq!(w.last_percentage, 0);
    assert!(w.update(5));
    assert_eq!(w.last_percentage, 1);
}

#[test]
fn progress_without_total() {
    let mut w = WorkingIndicator::new(0);
    assert!(w.update(5));
    assert_eq!(w.last_percentage, 0);
    assert_eq!(w.frame(), 1);
    assert!(w.update(1));
    assert_eq!(w.frame(), 2);
    assert!(!w.update(0));
    assert_eq!(WorkingIndicator::percentage_of(u64::MAX - 1, u64::MAX), 99);
    assert!(!WorkingIndicator::new(1).can_advance(u64::MAX));
    assert!(WorkingIndicator::new(100).can_advance(u64::MAX));
}

#[test]
fn legacy_counter() {
    let c = Counts::new().count_copied().count_skipped().count_skipped().count_symlink().count_no_update();
    let d = c.add(c);
    assert_eq!((d.copied, d.skipped, d.symlink, d.no_update), (2, 4, 2, 2));
}

fn facts(exists: bool, is_dir: bool, is_file: bool, parent_exists: bool) -> PathFacts {
    PathFacts { exists, is_dir, is_file, parent_exists }
}

#[test]
fn configuration_checks() {
    assert_eq!(check_source(facts(false, false, false, true)), Err(ConfigError::SourceMissing));
    assert_eq!(check_source(facts(true, false, true, true)), Err(ConfigError::SourceNotDirectory));
    assert_eq!(check_source(facts(true, true, false, true)), Ok(()));
    assert_eq!(check_dest(facts(false, false, false, true)), Ok(DestAction::Create));
    assert_eq!(check_dest(facts(false, false, false, false)), Err(ConfigError::DestinationMissing));
    assert_eq!(check_dest(facts(true, false, true, true)), Err(ConfigError::DestinationNotDirectory));
    assert_eq!(check_dest(facts(true, true, false, true)), Ok(DestAction::UseExisting));
    assert_eq!(check_ignore_file(facts(true, false, true, true)), Ok(()));
    assert_eq!(check_ignore_file(facts(true, true, false, true)), Err(ConfigError::IgnoreFileMissing));
}

#[test]
fn default_rules_path() {
    assert_eq!(default_ignore_file("/home/me/src"), "/home/me/src/.slimcopy_rules");
    assert_eq!(default_ignore_file("/"), "/.slimcopy_rules");
}

#[test]
fn report_size_prefixes() {
    let line = |n: u64| {
        let r = TypeCounter::new().count_copied(n).report();
        r.lines().next().unwrap().to_string()
    };
    assert_eq!(line(0), "     1 file(s) copied,      size = 0B");
    assert_eq!(line(1023), "     1 file(s) copied,      size = 1023B");
    assert_eq!(line(1024), "     1 file(s) copied,      size = 1.0KiB");
    assert_eq!(line(1536), "     1 file(s) copied,      size = 1.5KiB");
    assert_eq!(line(1024 * 1024 - 1), "     1 file(s) copied,      size = 1023.9KiB");
    assert_eq!(line(u64::MAX), "     1 file(s) copied,      size = 15.9EiB");
}
