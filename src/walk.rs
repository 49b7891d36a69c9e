use vstd::prelude::*;
use crate::rules::{verdict_of, IgnoreFile, MatchVerdict, RuleView};
use crate::text::{chars_of, string_of};

verus! {

/// One entry of a snapshot of the source tree. A symbolic link is never followed.
#[derive(Debug)]
pub enum Entry {
    File { name: String },
    Symlink { name: String },
    Dir { name: String, children: Vec<Entry> },
}

impl Entry {
    pub open spec fn name_of(&self) -> Seq<char> {
        match self {
            Entry::File { name } => name@,
            Entry::Symlink { name } => name@,
            Entry::Dir { name, .. } => name@,
        }
    }
}

/// `prefix/name`, or `name` at the top.
pub open spec fn join(prefix: Seq<char>, name: Seq<char>) -> Seq<char> {
    if prefix.len() == 0 {
        name
    } else {
        prefix + seq!['/'] + name
    }
}

/// The number of regular files in `e`'s first `k` children (all of `e` itself when `e` is not
/// a directory): a file counts one, a symbolic link none.
pub open spec fn count_upto(e: Entry, k: int) -> nat
    decreases e, k,
{
    match e {
        Entry::File { .. } => 1,
        Entry::Symlink { .. } => 0,
        Entry::Dir { children, .. } => if k <= 0 || k > children.len() {
            0
        } else {
            count_upto(e, k - 1) + match children@[k - 1] {
                Entry::Dir { children: cc, .. } => count_upto(children@[k - 1], cc.len() as int),
                Entry::File { .. } => 1nat,
                Entry::Symlink { .. } => 0nat,
            }
        },
    }
}

/// The number of regular files in `e`, at any depth.
pub open spec fn file_count(e: Entry) -> nat {
    match e {
        Entry::Dir { children, .. } => count_upto(e, children.len() as int),
        _ => count_upto(e, 0),
    }
}

/// Mathematical value of a step of the walk.
pub enum StepView {
    Skip { path: Seq<char>, count: nat },
    Symlink { path: Seq<char> },
    File { path: Seq<char> },
}

/// One decision of the walk over the source tree, at a path relative to its root.
#[derive(Debug)]
pub enum Step {
    /// An ignored entry: a file (count 1), a symbolic link (count 1) or a whole directory
    /// (the number of files below it), never entered.
    Skip { path: String, count: u64 },
    /// A symbolic link, left alone.
    Symlink { path: String },
    /// A regular file, to be copied when newer.
    File { path: String },
}

impl View for Step {
    type V = StepView;

    open spec fn view(&self) -> StepView {
        match self {
            Step::Skip { path, count } => StepView::Skip { path: path@, count: *count as nat },
            Step::Symlink { path } => StepView::Symlink { path: path@ },
            Step::File { path } => StepView::File { path: path@ },
        }
    }
}

/// The step of a non-directory child at `path`.
pub open spec fn leaf_step(rules: Seq<RuleView>, c: Entry, path: Seq<char>) -> StepView {
    if verdict_of(rules, path, false) == MatchVerdict::Ignored {
        StepView::Skip { path, count: 1 }
    } else {
        match c {
            Entry::Symlink { .. } => StepView::Symlink { path },
            _ => StepView::File { path },
        }
    }
}

/// The steps of the walk over the first `k` children of directory `e`, found at `path`, in
/// order. Each child is classified at its own path; an ignored directory yields one `Skip`
/// and is not entered, any other directory is walked in turn.
pub open spec fn steps_upto(rules: Seq<RuleView>, e: Entry, path: Seq<char>, k: int) -> Seq<
    StepView,
>
    decreases e, k,
{
    match e {
        Entry::Dir { children, .. } => if k <= 0 || k > children.len() {
            Seq::empty()
        } else {
            let c = children@[k - 1];
            let cp = join(path, c.name_of());
            steps_upto(rules, e, path, k - 1) + match c {
                Entry::Dir { children: cc, .. } => if verdict_of(rules, cp, true)
                    == MatchVerdict::Ignored {
                    seq![StepView::Skip { path: cp, count: file_count(c) }]
                } else {
                    steps_upto(rules, c, cp, cc.len() as int)
                },
                _ => seq![leaf_step(rules, c, cp)],
            }
        },
        _ => Seq::empty(),
    }
}

/// The steps of the walk over the tree whose root directory is `root`. The root itself is
/// always entered.
pub open spec fn walk_steps(rules: Seq<RuleView>, root: Entry) -> Seq<StepView> {
    match root {
        Entry::Dir { children, .. } => steps_upto(rules, root, Seq::empty(), children.len() as int),
        _ => Seq::empty(),
    }
}

/// Whether no entry name among `e`'s first `k` children, at any depth, holds a `/`, as on
/// every file system.
pub open spec fn names_plain_upto(e: Entry, k: int) -> bool
    decreases e, k,
{
    match e {
        Entry::Dir { children, .. } => if k <= 0 || k > children.len() {
            true
        } else {
            names_plain_upto(e, k - 1) && !children@[k - 1].name_of().contains('/') && match children@[
                k - 1] {
                Entry::Dir { children: cc, .. } => names_plain_upto(children@[k - 1], cc.len() as int),
                _ => true,
            }
        },
        _ => true,
    }
}

pub open spec fn step_path(s: StepView) -> Seq<char> {
    match s {
        StepView::Skip { path, .. } => path,
        StepView::Symlink { path } => path,
        StepView::File { path } => path,
    }
}

/// Whether no directory above `q` (a prefix of `q` that a `/` ends) is classified `Ignored`.
pub open spec fn no_ignored_ancestor(rules: Seq<RuleView>, q: Seq<char>) -> bool {
    forall|j: int|
        0 < j < q.len() && q[j] == '/' ==> verdict_of(rules, #[trigger] q.subrange(0, j), true)
            != MatchVerdict::Ignored
}

proof fn lemma_join_ancestors(rules: Seq<RuleView>, path: Seq<char>, name: Seq<char>)
    requires
        no_ignored_ancestor(rules, path),
        path.len() == 0 || verdict_of(rules, path, true) != MatchVerdict::Ignored,
        !name.contains('/'),
    ensures
        no_ignored_ancestor(rules, join(path, name)),
{
    let q = join(path, name);
    assert forall|j: int|
        0 < j < q.len() && q[j] == '/' implies verdict_of(rules, #[trigger] q.subrange(0, j), true)
        != MatchVerdict::Ignored by {
        if path.len() == 0 {
            assert(q[j] == name[j]);
        } else if j < path.len() {
            assert(q.subrange(0, j) =~= path.subrange(0, j));
        } else if j == path.len() {
            assert(q.subrange(0, j) =~= path);
        } else {
            assert(q[j] == name[j - path.len() - 1]);
        }
    }
}

proof fn lemma_steps_ancestors(rules: Seq<RuleView>, e: Entry, path: Seq<char>, k: int)
    requires
        e is Dir,
        0 <= k <= e->Dir_children.len(),
        names_plain_upto(e, k),
        no_ignored_ancestor(rules, path),
        path.len() == 0 || verdict_of(rules, path, true) != MatchVerdict::Ignored,
    ensures
        forall|i: int|
            0 <= i < steps_upto(rules, e, path, k).len() ==> no_ignored_ancestor(
                rules,
                step_path(#[trigger] steps_upto(rules, e, path, k)[i]),
            ),
    decreases e, k,
{
    if k > 0 {
        let children = e->Dir_children;
        let c = children@[k - 1];
        let cp = join(path, c.name_of());
        lemma_steps_ancestors(rules, e, path, k - 1);
        lemma_join_ancestors(rules, path, c.name_of());
        let prev = steps_upto(rules, e, path, k - 1);
        let all = steps_upto(rules, e, path, k);
        match c {
            Entry::Dir { children: cc, .. } => {
                if verdict_of(rules, cp, true) != MatchVerdict::Ignored {
                    lemma_steps_ancestors(rules, c, cp, cc.len() as int);
                }
            },
            _ => {},
        }
        let part = match c {
            Entry::Dir { children: cc, .. } => if verdict_of(rules, cp, true)
                == MatchVerdict::Ignored {
                seq![StepView::Skip { path: cp, count: file_count(c) }]
            } else {
                steps_upto(rules, c, cp, cc.len() as int)
            },
            _ => seq![leaf_step(rules, c, cp)],
        };
        assert(all == prev + part);
        assert forall|i: int| 0 <= i < part.len() implies no_ignored_ancestor(
            rules,
            step_path(#[trigger] part[i]),
        ) by {
            match c {
                Entry::Dir { .. } => {},
                _ => {
                    assert(step_path(leaf_step(rules, c, cp)) == cp);
                },
            }
        }
        assert forall|i: int| 0 <= i < all.len() implies no_ignored_ancestor(
            rules,
            step_path(#[trigger] all[i]),
        ) by {
            if i < prev.len() {
                assert(all[i] == prev[i]);
            } else {
                assert(all[i] == part[i - prev.len()]);
            }
        }
    }
}

/// The walk never reaches an entry inside an ignored directory: for every step, no directory
/// above its path is classified `Ignored` (entry names holding no `/`).
pub proof fn lemma_walk_skips_ignored_subtrees(rules: Seq<RuleView>, root: Entry)
    requires
        root is Dir,
        names_plain_upto(root, root->Dir_children.len() as int),
    ensures
        forall|i: int|
            0 <= i < walk_steps(rules, root).len() ==> no_ignored_ancestor(
                rules,
                step_path(#[trigger] walk_steps(rules, root)[i]),
            ),
{
    lemma_steps_ancestors(rules, root, Seq::empty(), root->Dir_children.len() as int);
}

/// The directories below the first `k` children of directory `e`, found at `path`, each with
/// its path and the number of regular files in its whole subtree, in walk order. Symbolic
/// links are not followed.
pub open spec fn dir_counts_upto(e: Entry, path: Seq<char>, k: int) -> Seq<(Seq<char>, nat)>
    decreases e, k,
{
    match e {
        Entry::Dir { children, .. } => if k <= 0 || k > children.len() {
            Seq::empty()
        } else {
            let c = children@[k - 1];
            let cp = join(path, c.name_of());
            dir_counts_upto(e, path, k - 1) + match c {
                Entry::Dir { children: cc, .. } => seq![(cp, file_count(c))] + dir_counts_upto(
                    c,
                    cp,
                    cc.len() as int,
                ),
                _ => Seq::empty(),
            }
        },
        _ => Seq::empty(),
    }
}

/// Every directory of the tree under the root directory `root` (the root first, at the empty
/// path), each with the number of regular files in its subtree.
pub open spec fn dir_counts(root: Entry) -> Seq<(Seq<char>, nat)> {
    match root {
        Entry::Dir { children, .. } => seq![(Seq::<char>::empty(), file_count(root))]
            + dir_counts_upto(root, Seq::empty(), children.len() as int),
        _ => Seq::empty(),
    }
}

proof fn lemma_count_grows(e: Entry, k: int, n: int)
    requires
        e is Dir,
        0 <= k <= n <= e->Dir_children.len(),
    ensures
        count_upto(e, k) <= count_upto(e, n),
    decreases n - k,
{
    if k < n {
        lemma_count_grows(e, k, n - 1);
    }
}

/// The number of regular files in the tree `e` (the pre-pass that sizes the progress
/// estimate), or `None` when it does not fit in a `u64`.
pub fn collect_dir_info(e: &Entry) -> (r: Option<u64>)
    ensures
        r is Some <==> file_count(*e) <= u64::MAX,
        r matches Some(n) ==> n == file_count(*e),
    decreases e,
{
    match e {
        Entry::File { .. } => Some(1),
        Entry::Symlink { .. } => Some(0),
        Entry::Dir { children, .. } => {
            let mut total: u64 = 0;
            let mut i: usize = 0;
            while i < children.len()
                invariant
                    *e is Dir,
                    children == e->Dir_children,
                    i <= children.len(),
                    total == count_upto(*e, i as int),
                decreases children.len() - i,
            {
                let c = &children[i];
                let add: u64 = match c {
                    Entry::Dir { .. } => match collect_dir_info(c) {
                        Some(n) => n,
                        None => {
                            proof {
                                lemma_count_grows(*e, i + 1, children.len() as int);
                            }
                            return None;
                        },
                    },
                    Entry::File { .. } => 1,
                    Entry::Symlink { .. } => 0,
                };
                if total > u64::MAX - add {
                    proof {
                        lemma_count_grows(*e, i + 1, children.len() as int);
                    }
                    return None;
                }
                total = total + add;
                i = i + 1;
            }
            Some(total)
        },
    }
}

fn join_path(prefix: &Vec<char>, name: &String) -> (r: Vec<char>)
    ensures
        r@ == join(prefix@, name@),
{
    let n = chars_of(name.as_str());
    let mut r: Vec<char> = Vec::new();
    let mut i: usize = 0;
    while i < prefix.len()
        invariant
            i <= prefix.len(),
            r@ == prefix@.subrange(0, i as int),
        decreases prefix.len() - i,
    {
        r.push(prefix[i]);
        i = i + 1;
        assert(r@ =~= prefix@.subrange(0, i as int));
    }
    if prefix.len() > 0 {
        r.push('/');
    }
    let ghost head = r@;
    let mut j: usize = 0;
    while j < n.len()
        invariant
            j <= n.len(),
            r@ == head + n@.subrange(0, j as int),
        decreases n.len() - j,
    {
        r.push(n[j]);
        j = j + 1;
        assert(r@ =~= head + n@.subrange(0, j as int));
    }
    assert(prefix@.subrange(0, prefix.len() as int) =~= prefix@);
    assert(n@.subrange(0, n.len() as int) =~= n@);
    r
}

fn entry_name(e: &Entry) -> (r: &String)
    ensures
        r@ == e.name_of(),
{
    match e {
        Entry::File { name } => name,
        Entry::Symlink { name } => name,
        Entry::Dir { name, .. } => name,
    }
}

fn walk_dir(rules: &IgnoreFile, e: &Entry, path: &Vec<char>, out: &mut Vec<Step>)
    requires
        *e is Dir,
        file_count(*e) <= u64::MAX,
    ensures
        final(out)@.map_values(|s: Step| s@) == old(out)@.map_values(|s: Step| s@) + steps_upto(
            rules@,
            *e,
            path@,
            e->Dir_children.len() as int,
        ),
    decreases e,
{
    let children = match e {
        Entry::Dir { children, .. } => children,
        _ => {
            return;
        },
    };
    let ghost start = old(out)@.map_values(|s: Step| s@);
    let mut i: usize = 0;
    while i < children.len()
        invariant
            *e is Dir,
            children == e->Dir_children,
            file_count(*e) <= u64::MAX,
            i <= children.len(),
            out@.map_values(|s: Step| s@) == start + steps_upto(rules@, *e, path@, i as int),
        decreases children.len() - i,
    {
        let c = &children[i];
        let cp = join_path(path, entry_name(c));
        let ghost before = out@.map_values(|s: Step| s@);
        proof {
            lemma_count_grows(*e, i + 1, children.len() as int);
        }
        match c {
            Entry::Dir { .. } => {
                if rules.is_ignored(string_of(&cp).as_str(), true) {
                    let count = match collect_dir_info(c) {
                        Some(n) => n,
                        None => 0,
                    };
                    out.push(Step::Skip { path: string_of(&cp), count });
                    assert(out@.map_values(|s: Step| s@) =~= before.push(
                        StepView::Skip { path: cp@, count: file_count(*c) },
                    ));
                } else {
                    walk_dir(rules, c, &cp, out);
                }
            },
            _ => {
                let step = if rules.is_ignored(string_of(&cp).as_str(), false) {
                    Step::Skip { path: string_of(&cp), count: 1 }
                } else {
                    match c {
                        Entry::Symlink { .. } => Step::Symlink { path: string_of(&cp) },
                        _ => Step::File { path: string_of(&cp) },
                    }
                };
                assert(step@ == leaf_step(rules@, *c, cp@));
                out.push(step);
                assert(out@.map_values(|s: Step| s@) =~= before.push(step@));
            },
        }
        i = i + 1;
        assert(out@.map_values(|s: Step| s@) =~= start + steps_upto(rules@, *e, path@, i as int));
    }
}

/// The walk over the tree under the root directory `root`: one step per entry, in the order
/// of the snapshot, with ignored directories reported once and never entered.
pub fn traverse_tree(root: &Entry, rules: &IgnoreFile) -> (r: Vec<Step>)
    requires
        *root is Dir,
        file_count(*root) <= u64::MAX,
    ensures
        r@.map_values(|s: Step| s@) == walk_steps(rules@, *root),
{
    let mut out: Vec<Step> = Vec::new();
    let top: Vec<char> = Vec::new();
    walk_dir(rules, root, &top, &mut out);
    assert(out@.map_values(|s: Step| s@) =~= walk_steps(rules@, *root));
    out
}

fn counts_dir(e: &Entry, path: &Vec<char>, out: &mut Vec<(String, u64)>)
    requires
        *e is Dir,
        file_count(*e) <= u64::MAX,
    ensures
        final(out)@.map_values(|d: (String, u64)| (d.0@, d.1 as nat)) == old(out)@.map_values(
            |d: (String, u64)| (d.0@, d.1 as nat),
        ) + dir_counts_upto(*e, path@, e->Dir_children.len() as int),
    decreases e,
{
    let children = match e {
        Entry::Dir { children, .. } => children,
        _ => {
            return;
        },
    };
    let ghost start = old(out)@.map_values(|d: (String, u64)| (d.0@, d.1 as nat));
    let mut i: usize = 0;
    while i < children.len()
        invariant
            *e is Dir,
            children == e->Dir_children,
            file_count(*e) <= u64::MAX,
            i <= children.len(),
            out@.map_values(|d: (String, u64)| (d.0@, d.1 as nat)) == start + dir_counts_upto(
                *e,
                path@,
                i as int,
            ),
        decreases children.len() - i,
    {
        let c = &children[i];
        proof {
            lemma_count_grows(*e, i + 1, children.len() as int);
        }
        match c {
            Entry::Dir { .. } => {
                let cp = join_path(path, entry_name(c));
                let count = match collect_dir_info(c) {
                    Some(n) => n,
                    None => 0,
                };
                let ghost before = out@.map_values(|d: (String, u64)| (d.0@, d.1 as nat));
                out.push((string_of(&cp), count));
                assert(out@.map_values(|d: (String, u64)| (d.0@, d.1 as nat)) =~= before.push(
                    (cp@, file_count(*c)),
                ));
                counts_dir(c, &cp, out);
            },
            _ => {},
        }
        i = i + 1;
        assert(out@.map_values(|d: (String, u64)| (d.0@, d.1 as nat)) =~= start + dir_counts_upto(
            *e,
            path@,
            i as int,
        ));
    }
}

/// The pre-pass over the tree under the root directory `root`: every directory, by its path
/// relative to the root (the root itself at the empty path), with the number of regular files
/// in its whole subtree.
pub fn collect_dir_counts(root: &Entry) -> (r: Vec<(String, u64)>)
    requires
        *root is Dir,
        file_count(*root) <= u64::MAX,
    ensures
        r@.map_values(|d: (String, u64)| (d.0@, d.1 as nat)) == dir_counts(*root),
{
    let mut out: Vec<(String, u64)> = Vec::new();
    let top: Vec<char> = Vec::new();
    let total = match collect_dir_info(root) {
        Some(n) => n,
        None => 0,
    };
    out.push((string_of(&top), total));
    assert(out@.map_values(|d: (String, u64)| (d.0@, d.1 as nat)) =~= seq![
        (Seq::<char>::empty(), file_count(*root)),
    ]);
    counts_dir(root, &top, &mut out);
    out
}

} // verus!
