use slimcopy::rules::{IgnoreFile, MatchVerdict};

fn rules(text: &str) -> IgnoreFile {
    IgnoreFile::parse(text).expect("valid ignore-file")
}

#[test]
fn negated_rule_reincludes() {
    let f = rules("*.log\n!important.log");
    assert_eq!(f.classify("important.log", false), MatchVerdict::NotIgnored);
    assert_eq!(f.classify("debug.log", false), MatchVerdict::Ignored);
}

#[test]
fn later_rule_wins() {
    let f = rules("!important.log\n*.log");
    assert_eq!(f.classify("important.log", false), MatchVerdict::Ignored);
}

#[test]
fn anchored_rule_matches_from_base_only() {
    let f = rules("/build");
    assert_eq!(f.classify("build", true), MatchVerdict::Ignored);
    assert_eq!(f.classify("src/build", true), MatchVerdict::NotIgnored);
}

#[test]
fn unanchored_rule_matches_at_any_depth() {
    let f = rules("build");
    assert_eq!(f.classify("build", true), MatchVerdict::Ignored);
    assert_eq!(f.classify("src/build", true), MatchVerdict::Ignored);
    assert_eq!(f.classify("src/rebuild", true), MatchVerdict::NotIgnored);
}

#[test]
fn pattern_with_slash_matches_path_suffix() {
    let f = rules("doc/*.txt");
    assert!(f.is_ignored("doc/a.txt", false));
    assert!(f.is_ignored("x/doc/a.txt", false));
    assert!(!f.is_ignored("doc/sub/a.txt", false));
}

#[test]
fn directory_only_rule_skips_files() {
    let f = rules("temp/");
    assert_eq!(f.classify("temp", true), MatchVerdict::Ignored);
    assert_eq!(f.classify("temp", false), MatchVerdict::NotIgnored);
}

#[test]
fn no_rule_means_not_ignored() {
    let f = rules("");
    assert_eq!(f.rules.len(), 0);
    assert_eq!(f.classify("anything", false), MatchVerdict::NotIgnored);
}

#[test]
fn comments_and_blank_lines_are_skipped() {
    let f = rules("# a comment\n\n   \n  # indented comment\n*.o\r\n");
    assert_eq!(f.rules.len(), 1);
    assert_eq!(f.rules[0].source_line, 5);
    assert!(f.is_ignored("main.o", false));
}

#[test]
fn escaped_hash_is_a_pattern() {
    let f = rules("\\#notes");
    assert_eq!(f.rules.len(), 1);
    assert!(f.is_ignored("#notes", false));
}

#[test]
fn rule_flags_are_parsed() {
    let f = rules("!/out/");
    let r = &f.rules[0];
    assert!(r.negated);
    assert!(r.anchored);
    assert!(r.directory_only);
    assert_eq!(r.pattern, vec!['o', 'u', 't']);
    assert_eq!(r.source_line, 1);
}

#[test]
fn star_stops_at_separator() {
    let f = rules("/a*c");
    assert!(f.is_ignored("abc", false));
    assert!(f.is_ignored("ac", false));
    assert!(!f.is_ignored("ab/c", false));
}

#[test]
fn double_star_crosses_separators() {
    let f = rules("/a/**/z");
    assert!(f.is_ignored("a/b/c/z", false));
    assert!(f.is_ignored("a/b/z", false));
    assert!(!f.is_ignored("b/a/z", false));
}

#[test]
fn question_mark_matches_one_character() {
    let f = rules("/file?.txt");
    assert!(f.is_ignored("file1.txt", false));
    assert!(!f.is_ignored("file.txt", false));
    assert!(!f.is_ignored("file12.txt", false));
}

#[test]
fn bracket_classes() {
    let f = rules("/[a-c]x\n/[!0-9]y\n/[]]z");
    assert!(f.is_ignored("bx", false));
    assert!(!f.is_ignored("dx", false));
    assert!(f.is_ignored("qy", false));
    assert!(!f.is_ignored("5y", false));
    assert!(f.is_ignored("]z", false));
}

#[test]
fn unclosed_bracket_is_a_syntax_error() {
    let e = IgnoreFile::parse("*.log\n[abc\n").unwrap_err();
    assert_eq!(e.line, 2);
    assert_eq!(e.text, "[abc");
}

#[test]
fn reversed_range_is_a_syntax_error() {
    let e = IgnoreFile::parse("/[z-a]").unwrap_err();
    assert_eq!(e.line, 1);
}

#[test]
fn dangling_escape_is_a_syntax_error() {
    let e = IgnoreFile::parse("ok\n\nbad\\").unwrap_err();
    assert_eq!(e.line, 3);
    assert_eq!(e.text, "bad\\");
}

#[test]
fn empty_pattern_is_a_syntax_error() {
    let e = IgnoreFile::parse("!").unwrap_err();
    assert_eq!(e.line, 1);
    let e = IgnoreFile::parse("a\n/").unwrap_err();
    assert_eq!(e.line, 2);
}
