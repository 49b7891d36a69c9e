use vstd::prelude::*;
use crate::glob::{glob_match, glob_match_from, glob_valid, is_valid_glob, match_suffixes};
use crate::text::{chars_of, lines_of, slice_of, split_lines, string_of};

verus! {

/// Mathematical value of a rule of an ignore-file.
pub struct RuleView {
    pub pattern: Seq<char>,
    pub negated: bool,
    pub anchored: bool,
    pub directory_only: bool,
    pub source_line: nat,
}

/// One compiled rule of an ignore-file.
#[derive(Debug)]
pub struct Rule {
    pub pattern: Vec<char>,
    pub negated: bool,
    pub anchored: bool,
    pub directory_only: bool,
    pub source_line: usize,
}

impl View for Rule {
    type V = RuleView;

    open spec fn view(&self) -> RuleView {
        RuleView {
            pattern: self.pattern@,
            negated: self.negated,
            anchored: self.anchored,
            directory_only: self.directory_only,
            source_line: self.source_line as nat,
        }
    }
}

pub open spec fn is_blank_char(c: char) -> bool {
    c == ' ' || c == '\t' || c == '\r'
}

/// Index of the first character of `l` at or after `k` that is not blank.
pub open spec fn trim_lo(l: Seq<char>, k: int) -> int
    decreases l.len() - k,
{
    if 0 <= k < l.len() && is_blank_char(l[k]) {
        trim_lo(l, k + 1)
    } else {
        k
    }
}

/// End of `l[lo..k]` once the blank characters at its end are removed.
pub open spec fn trim_hi(l: Seq<char>, lo: int, k: int) -> int
    decreases k - lo,
{
    if lo < k && k <= l.len() && is_blank_char(l[k - 1]) {
        trim_hi(l, lo, k - 1)
    } else {
        k
    }
}

/// `l` without the blank characters at either end.
pub open spec fn trimmed(l: Seq<char>) -> Seq<char> {
    let lo = trim_lo(l, 0);
    l.subrange(lo, trim_hi(l, lo, l.len() as int))
}

/// What one line of an ignore-file says: `Ok(None)` for a blank or comment line,
/// `Ok(Some(rule))` for a rule, `Err(())` for a malformed one.
pub open spec fn parse_line(l: Seq<char>, line_no: nat) -> Result<Option<RuleView>, ()> {
    let t = trimmed(l);
    if t.len() == 0 || t[0] == '#' {
        Ok(None)
    } else {
        let negated = t[0] == '!';
        let t1 = if negated { t.drop_first() } else { t };
        let anchored = t1.len() > 0 && t1[0] == '/';
        let t2 = if anchored { t1.drop_first() } else { t1 };
        let directory_only = t2.len() > 0 && t2.last() == '/' && !(t2.len() > 1 && t2[t2.len() - 2]
            == '\\');
        let t3 = if directory_only { t2.drop_last() } else { t2 };
        if t3.len() == 0 || !glob_valid(t3) {
            Err(())
        } else {
            Ok(
                Some(
                    RuleView {
                        pattern: t3,
                        negated,
                        anchored,
                        directory_only,
                        source_line: line_no,
                    },
                ),
            )
        }
    }
}

/// The rules of the lines `ls`, the first of which is line number `first`, in order; or the
/// number of the first malformed line.
pub open spec fn parse_lines(ls: Seq<Seq<char>>, first: nat) -> Result<Seq<RuleView>, nat>
    decreases ls.len(),
{
    if ls.len() == 0 {
        Ok(Seq::empty())
    } else {
        match parse_line(ls[0], first) {
            Err(_) => Err(first),
            Ok(head) => match parse_lines(ls.drop_first(), first + 1) {
                Err(e) => Err(e),
                Ok(rest) => Ok(
                    match head {
                        Some(r) => seq![r] + rest,
                        None => rest,
                    },
                ),
            },
        }
    }
}

/// The rules of an ignore-file's text, or the number of its first malformed line.
pub open spec fn parse_text(text: Seq<char>) -> Result<Seq<RuleView>, nat> {
    parse_lines(split_lines(text), 1)
}

spec fn prepend(acc: Seq<RuleView>, r: Result<Seq<RuleView>, nat>) -> Result<Seq<RuleView>, nat> {
    match r {
        Ok(rs) => Ok(acc + rs),
        Err(e) => Err(e),
    }
}

fn is_blank(c: char) -> (r: bool)
    ensures
        r == is_blank_char(c),
{
    c == ' ' || c == '\t' || c == '\r'
}

/// Parses one line of an ignore-file.
pub fn parse_rule_line(l: &Vec<char>, line_no: usize) -> (r: Result<Option<Rule>, ()>)
    ensures
        parse_line(l@, line_no as nat) == (match r {
            Ok(Some(rule)) => Ok(Some(rule@)),
            Ok(None) => Ok(None),
            Err(_) => Err(()),
        }),
{
    let n = l.len();
    let mut a: usize = 0;
    while a < n && is_blank(l[a])
        invariant
            a <= n == l.len(),
            trim_lo(l@, 0) == trim_lo(l@, a as int),
        decreases n - a,
    {
        a = a + 1;
    }
    let mut b: usize = n;
    while b > a && is_blank(l[b - 1])
        invariant
            a <= b <= n == l.len(),
            trim_lo(l@, 0) == a,
            trim_hi(l@, a as int, n as int) == trim_hi(l@, a as int, b as int),
        decreases b - a,
    {
        b = b - 1;
    }
    let ghost t = trimmed(l@);
    assert(t =~= l@.subrange(a as int, b as int));
    if a == b || l[a] == '#' {
        return Ok(None);
    }
    let negated = l[a] == '!';
    let a1 = if negated { a + 1 } else { a };
    let ghost t1 = if negated { t.drop_first() } else { t };
    assert(t1 =~= l@.subrange(a1 as int, b as int));
    let anchored = a1 < b && l[a1] == '/';
    let a2 = if anchored { a1 + 1 } else { a1 };
    let ghost t2 = if anchored { t1.drop_first() } else { t1 };
    assert(t2 =~= l@.subrange(a2 as int, b as int));
    let directory_only = b > a2 && l[b - 1] == '/' && !(b - a2 > 1 && l[b - 2] == '\\');
    let b3 = if directory_only { b - 1 } else { b };
    let ghost t3 = if directory_only { t2.drop_last() } else { t2 };
    assert(t3 =~= l@.subrange(a2 as int, b3 as int));
    if a2 == b3 {
        return Err(());
    }
    let pattern = slice_of(l, a2, b3);
    if !is_valid_glob(&pattern) {
        return Err(());
    }
    Ok(Some(Rule { pattern, negated, anchored, directory_only, source_line: line_no }))
}

/// A malformed line of an ignore-file: its number, counted from 1, and its text.
#[derive(Debug)]
pub struct SyntaxError {
    pub line: usize,
    pub text: String,
}

/// Whether a path is excluded from the copy.
#[derive(Debug, Clone, Copy, PartialEq, Eq, Structural)]
pub enum MatchVerdict {
    Ignored,
    NotIgnored,
}

/// Whether rule `r` matches the path `path` (relative to the ignore-file's directory, with `/`
/// between segments). An anchored rule's glob must match the whole path; another one's must
/// match the path from its start or from just after some `/`. A directory-only rule matches
/// directories alone.
pub open spec fn rule_applies(r: RuleView, path: Seq<char>, is_dir: bool) -> bool {
    &&& (!r.directory_only || is_dir)
    &&& if r.anchored {
        glob_match(r.pattern, path)
    } else {
        exists|j: int|
            0 <= j <= path.len() && (j == 0 || path[j - 1] == '/') && #[trigger] glob_match_from(
                r.pattern,
                path,
                0,
                j,
            )
    }
}

/// The verdict of the last rule that matches, or `NotIgnored` when none does.
pub open spec fn verdict_of(rules: Seq<RuleView>, path: Seq<char>, is_dir: bool) -> MatchVerdict
    decreases rules.len(),
{
    if rules.len() == 0 {
        MatchVerdict::NotIgnored
    } else if rule_applies(rules.last(), path, is_dir) {
        if rules.last().negated {
            MatchVerdict::NotIgnored
        } else {
            MatchVerdict::Ignored
        }
    } else {
        verdict_of(rules.drop_last(), path, is_dir)
    }
}

/// Whether `rule` matches `path`.
pub fn rule_matches(rule: &Rule, path: &Vec<char>, is_dir: bool) -> (r: bool)
    requires
        path.len() < usize::MAX,
    ensures
        r == rule_applies(rule@, path@, is_dir),
{
    if rule.directory_only && !is_dir {
        return false;
    }
    let row = match_suffixes(&rule.pattern, path);
    if rule.anchored {
        return row[0];
    }
    let mut j: usize = 0;
    while j <= path.len()
        invariant
            path.len() < usize::MAX,
            !rule.anchored,
            !rule.directory_only || is_dir,
            row.len() == path.len() + 1,
            forall|jj: int|
                0 <= jj <= path.len() ==> row@[jj] == glob_match_from(rule@.pattern, path@, 0, jj),
            forall|jj: int|
                0 <= jj < j && (jj == 0 || path@[jj - 1] == '/') ==> !#[trigger] glob_match_from(
                    rule@.pattern,
                    path@,
                    0,
                    jj,
                ),
        decreases path.len() + 1 - j,
    {
        if (j == 0 || path[j - 1] == '/') && row[j] {
            assert(glob_match_from(rule@.pattern, path@, 0, j as int));
            return true;
        }
        j = j + 1;
    }
    false
}

/// An ordered set of rules, read from one ignore-file.
#[derive(Debug)]
pub struct IgnoreFile {
    pub rules: Vec<Rule>,
}

impl View for IgnoreFile {
    type V = Seq<RuleView>;

    open spec fn view(&self) -> Seq<RuleView> {
        self.rules@.map_values(|r: Rule| r@)
    }
}

impl IgnoreFile {
    /// Compiles the text of an ignore-file: one rule per line, in file order. Fails on the
    /// first malformed line.
    pub fn parse(text: &str) -> (r: Result<IgnoreFile, SyntaxError>)
        ensures
            match r {
                Ok(f) => parse_text(text@) == Ok::<Seq<RuleView>, nat>(f@),
                Err(e) => parse_text(text@) == Err::<Seq<RuleView>, nat>(e.line as nat) && 1
                    <= e.line <= split_lines(text@).len() && e.text@ == split_lines(text@)[e.line
                    - 1],
            },
    {
        let chars = chars_of(text);
        let lines = lines_of(&chars);
        let ghost ls = split_lines(text@);
        let mut rules: Vec<Rule> = Vec::new();
        let mut i: usize = 0;
        assert(ls.subrange(0, ls.len() as int) =~= ls);
        while i < lines.len()
            invariant
                ls == split_lines(text@),
                lines.len() == ls.len(),
                forall|k: int| 0 <= k < lines.len() ==> #[trigger] lines@[k]@ == ls[k],
                i <= lines.len(),
                parse_text(text@) == prepend(
                    rules@.map_values(|r: Rule| r@),
                    parse_lines(ls.subrange(i as int, ls.len() as int), (i + 1) as nat),
                ),
            decreases lines.len() - i,
        {
            let ghost rest = ls.subrange(i as int, ls.len() as int);
            assert(rest.drop_first() =~= ls.subrange(i + 1, ls.len() as int));
            assert(rest[0] == lines@[i as int]@);
            match parse_rule_line(&lines[i], i + 1) {
                Err(_) => {
                    return Err(SyntaxError { line: i + 1, text: string_of(&lines[i]) });
                },
                Ok(None) => {},
                Ok(Some(rule)) => {
                    let ghost before = rules@.map_values(|r: Rule| r@);
                    let ghost rv = rule@;
                    rules.push(rule);
                    assert(rules@.map_values(|r: Rule| r@) =~= before.push(rv));
                    assert forall|rs: Seq<RuleView>| #[trigger] (before + (seq![rv] + rs)) =~= (
                    before.push(rv) + rs) by {}
                },
            }
            i = i + 1;
        }
        assert(ls.subrange(i as int, ls.len() as int) =~= Seq::<Seq<char>>::empty());
        assert(rules@.map_values(|r: Rule| r@) + Seq::<RuleView>::empty() =~= rules@.map_values(
            |r: Rule| r@,
        ));
        Ok(IgnoreFile { rules })
    }

    /// The verdict on `path` (relative to the ignore-file's directory, `/` between segments):
    /// that of the last rule that matches it, `NotIgnored` when none does.
    pub fn classify(&self, path: &str, is_dir: bool) -> (r: MatchVerdict)
        ensures
            r == verdict_of(self@, path@, is_dir),
    {
        let p = chars_of(path);
        let mut v = MatchVerdict::NotIgnored;
        let mut i: usize = 0;
        while i < self.rules.len()
            invariant
                p@ == path@,
                p.len() < usize::MAX,
                i <= self.rules.len(),
                v == verdict_of(self@.subrange(0, i as int), path@, is_dir),
            decreases self.rules.len() - i,
        {
            assert(self@.subrange(0, i + 1).drop_last() =~= self@.subrange(0, i as int));
            let rule = &self.rules[i];
            if rule_matches(rule, &p, is_dir) {
                v = if rule.negated {
                    MatchVerdict::NotIgnored
                } else {
                    MatchVerdict::Ignored
                };
            }
            i = i + 1;
        }
        assert(self@.subrange(0, i as int) =~= self@);
        v
    }

    /// Whether `path` is excluded from the copy.
    pub fn is_ignored(&self, path: &str, is_dir: bool) -> (r: bool)
        ensures
            r == (verdict_of(self@, path@, is_dir) == MatchVerdict::Ignored),
    {
        self.classify(path, is_dir) == MatchVerdict::Ignored
    }
}

} // verus!
