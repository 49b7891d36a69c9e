use vstd::prelude::*;

verus! {

/// Index of the first `c` in `p` at or after `k`, or -1 when there is none.
pub open spec fn find_from(p: Seq<char>, k: int, c: char) -> int
    decreases p.len() - k,
{
    if k < 0 || k >= p.len() {
        -1
    } else if p[k] == c {
        k
    } else {
        find_from(p, k + 1, c)
    }
}

/// Whether the bracket expression opening at `i` is negated (`[!...]` or `[^...]`).
pub open spec fn class_negated(p: Seq<char>, i: int) -> bool {
    i + 1 < p.len() && (p[i + 1] == '!' || p[i + 1] == '^')
}

/// Index of the first item of the bracket expression opening at `i`.
pub open spec fn class_start(p: Seq<char>, i: int) -> int {
    if class_negated(p, i) {
        i + 2
    } else {
        i + 1
    }
}

/// Index of the `]` that closes the bracket expression opening at `i` (which holds at least
/// one item, so a `]` right after the opening is an item), or -1 when it is not closed.
pub open spec fn class_close(p: Seq<char>, i: int) -> int {
    find_from(p, class_start(p, i) + 1, ']')
}

/// Whether `c` is one of the items of `p[k..end]`: single characters and ranges `a-z`.
pub open spec fn class_has(p: Seq<char>, k: int, end: int, c: char) -> bool
    decreases end - k,
{
    if k < 0 || k >= end || end > p.len() {
        false
    } else if k + 2 < end && p[k + 1] == '-' {
        (p[k] <= c && c <= p[k + 2]) || class_has(p, k + 3, end, c)
    } else {
        p[k] == c || class_has(p, k + 1, end, c)
    }
}

/// Whether every range among the items of `p[k..end]` has its bounds in order.
pub open spec fn class_items_ok(p: Seq<char>, k: int, end: int) -> bool
    decreases end - k,
{
    if k < 0 || k >= end || end > p.len() {
        true
    } else if k + 2 < end && p[k + 1] == '-' {
        p[k] <= p[k + 2] && class_items_ok(p, k + 3, end)
    } else {
        class_items_ok(p, k + 1, end)
    }
}

/// Whether the glob `p[i..]` is well formed: every escape is followed by a character and
/// every bracket expression is closed and holds ordered ranges.
pub open spec fn glob_valid_from(p: Seq<char>, i: int) -> bool
    decreases p.len() - i,
{
    if i < 0 || i >= p.len() {
        true
    } else if p[i] == '\\' {
        i + 1 < p.len() && glob_valid_from(p, i + 2)
    } else if p[i] == '[' {
        let close = class_close(p, i);
        i < close < p.len() && class_items_ok(p, class_start(p, i), close) && glob_valid_from(
            p,
            close + 1,
        )
    } else {
        glob_valid_from(p, i + 1)
    }
}

pub open spec fn glob_valid(p: Seq<char>) -> bool {
    glob_valid_from(p, 0)
}

/// Whether the glob `p[i..]` matches the text `s[j..]` exactly. `**` matches any run of
/// characters, `*` any run without `/`, `?` one character, `[...]` one character of the
/// class, `\x` the character `x`, and any other character itself.
pub open spec fn glob_match_from(p: Seq<char>, s: Seq<char>, i: int, j: int) -> bool
    decreases p.len() - i, s.len() - j,
{
    if i < 0 || j < 0 || j > s.len() {
        false
    } else if i >= p.len() {
        j == s.len()
    } else if p[i] == '*' {
        if i + 1 < p.len() && p[i + 1] == '*' {
            glob_match_from(p, s, i + 2, j) || (j < s.len() && glob_match_from(p, s, i, j + 1))
        } else {
            glob_match_from(p, s, i + 1, j) || (j < s.len() && s[j] != '/' && glob_match_from(
                p,
                s,
                i,
                j + 1,
            ))
        }
    } else if j >= s.len() {
        false
    } else if p[i] == '?' {
        glob_match_from(p, s, i + 1, j + 1)
    } else if p[i] == '[' && i < class_close(p, i) < p.len() {
        let close = class_close(p, i);
        (class_has(p, class_start(p, i), close, s[j]) != class_negated(p, i)) && glob_match_from(
            p,
            s,
            close + 1,
            j + 1,
        )
    } else if p[i] == '\\' && i + 1 < p.len() {
        s[j] == p[i + 1] && glob_match_from(p, s, i + 2, j + 1)
    } else {
        s[j] == p[i] && glob_match_from(p, s, i + 1, j + 1)
    }
}

/// Whether the glob `p` matches the whole text `s`.
pub open spec fn glob_match(p: Seq<char>, s: Seq<char>) -> bool {
    glob_match_from(p, s, 0, 0)
}

fn find_char_from(p: &Vec<char>, k: usize, c: char) -> (r: Option<usize>)
    ensures
        find_from(p@, k as int, c) == (match r {
            Some(x) => x as int,
            None => -1,
        }),
        r matches Some(x) ==> k <= x < p.len(),
{
    let mut i = k;
    while i < p.len()
        invariant
            k <= i,
            find_from(p@, k as int, c) == find_from(p@, i as int, c),
        decreases p.len() - i,
    {
        if p[i] == c {
            return Some(i);
        }
        i = i + 1;
    }
    None
}

spec fn class_close_of_spec(p: Seq<char>, i: int) -> Option<usize> {
    if class_close(p, i) < 0 {
        None
    } else {
        Some(class_close(p, i) as usize)
    }
}

fn class_close_of(p: &Vec<char>, i: usize) -> (r: Option<usize>)
    requires
        i < p.len(),
    ensures
        class_close(p@, i as int) == (match r {
            Some(x) => x as int,
            None => -1,
        }),
        r == class_close_of_spec(p@, i as int),
        r matches Some(x) ==> i < x < p.len() && class_start(p@, i as int) < x,
{
    let start = class_start_of(p, i);
    if start >= p.len() {
        return None;
    }
    find_char_from(p, start + 1, ']')
}

fn class_start_of(p: &Vec<char>, i: usize) -> (r: usize)
    requires
        i < p.len(),
    ensures
        r == class_start(p@, i as int),
        r <= p.len(),
{
    if i + 1 < p.len() && (p[i + 1] == '!' || p[i + 1] == '^') {
        i + 2
    } else {
        i + 1
    }
}

fn class_has_exec(p: &Vec<char>, start: usize, end: usize, c: char) -> (r: bool)
    requires
        start <= end <= p.len(),
    ensures
        r == class_has(p@, start as int, end as int, c),
{
    let mut k = start;
    while k < end
        invariant
            start <= k,
            end <= p.len(),
            class_has(p@, start as int, end as int, c) == class_has(p@, k as int, end as int, c),
        decreases end - k,
    {
        if end - k > 2 && p[k + 1] == '-' {
            if p[k] <= c && c <= p[k + 2] {
                return true;
            }
            k = k + 3;
        } else {
            if p[k] == c {
                return true;
            }
            k = k + 1;
        }
    }
    false
}

fn class_items_ok_exec(p: &Vec<char>, start: usize, end: usize) -> (r: bool)
    requires
        start <= end <= p.len(),
    ensures
        r == class_items_ok(p@, start as int, end as int),
{
    let mut k = start;
    while k < end
        invariant
            start <= k,
            end <= p.len(),
            class_items_ok(p@, start as int, end as int) == class_items_ok(
                p@,
                k as int,
                end as int,
            ),
        decreases end - k,
    {
        if end - k > 2 && p[k + 1] == '-' {
            if p[k] > p[k + 2] {
                return false;
            }
            k = k + 3;
        } else {
            k = k + 1;
        }
    }
    true
}

/// Whether `p` is a well-formed glob.
pub fn is_valid_glob(p: &Vec<char>) -> (r: bool)
    ensures
        r == glob_valid(p@),
{
    let mut i: usize = 0;
    while i < p.len()
        invariant
            glob_valid(p@) == glob_valid_from(p@, i as int),
        decreases p.len() - i,
    {
        if p[i] == '\\' {
            if i + 1 >= p.len() {
                return false;
            }
            i = i + 2;
        } else if p[i] == '[' {
            match class_close_of(p, i) {
                None => {
                    return false;
                },
                Some(close) => {
                    let start = class_start_of(p, i);
                    if !class_items_ok_exec(p, start, close) {
                        return false;
                    }
                    i = close + 1;
                },
            }
        } else {
            i = i + 1;
        }
    }
    true
}

/// For each start `j` in `0..=s.len()`, whether the glob `p` matches the text `s[j..]`.
pub fn match_suffixes(p: &Vec<char>, s: &Vec<char>) -> (row: Vec<bool>)
    requires
        s.len() < usize::MAX,
    ensures
        row.len() == s.len() + 1,
        forall|j: int| 0 <= j <= s.len() ==> row@[j] == glob_match_from(p@, s@, 0, j),
{
    let n = p.len();
    let m = s.len();
    // table[n - i] holds the row of pattern position i, for the positions done so far
    let mut table: Vec<Vec<bool>> = Vec::new();
    let mut last: Vec<bool> = Vec::new();
    let mut j: usize = 0;
    while j < m
        invariant
            m == s.len(),
            n == p.len(),
            j <= m,
            last.len() == j,
            forall|jj: int| 0 <= jj < j ==> last@[jj] == glob_match_from(p@, s@, n as int, jj),
        decreases m - j,
    {
        last.push(false);
        j = j + 1;
    }
    last.push(true);
    table.push(last);
    let mut i: usize = n;
    while i > 0
        invariant
            n == p.len(),
            m == s.len(),
            m < usize::MAX,
            i <= n,
            table.len() == n - i + 1,
            forall|k: int| 0 <= k < table.len() ==> #[trigger] table@[k]@.len() == m + 1,
            forall|k: int, jj: int|
                0 <= k < table.len() && 0 <= jj <= m ==> #[trigger] table@[k]@[jj]
                    == glob_match_from(p@, s@, n - k, jj),
        decreases i,
    {
        i = i - 1;
        let c = p[i];
        let close = if c == '[' {
            class_close_of(p, i)
        } else {
            None
        };
        let mut cur: Vec<bool> = vec![false; m + 1];
        let mut k: usize = m + 1;
        while k > 0
            invariant
                n == p.len(),
                m == s.len(),
                m < usize::MAX,
                i < n,
                c == p@[i as int],
                close == (if c == '[' { class_close_of_spec(p@, i as int) } else { None }),
                close matches Some(x) ==> i < x < n && class_start(p@, i as int) < x && x
                    == class_close(p@, i as int),
                c == '[' && close is None ==> class_close(p@, i as int) == -1,
                cur.len() == m + 1,
                k <= m + 1,
                table.len() == n - i,
                forall|kk: int| 0 <= kk < table.len() ==> #[trigger] table@[kk]@.len() == m + 1,
                forall|kk: int, jj: int|
                    0 <= kk < table.len() && 0 <= jj <= m ==> #[trigger] table@[kk]@[jj]
                        == glob_match_from(p@, s@, n - kk, jj),
                forall|jj: int|
                    k <= jj <= m ==> #[trigger] cur@[jj] == glob_match_from(p@, s@, i as int, jj),
            decreases k,
        {
            k = k - 1;
            let j = k;
            let v: bool = if c == '*' {
                if i + 1 < n && p[i + 1] == '*' {
                    assert(table@[n - i - 2]@[j as int] == glob_match_from(p@, s@, i + 2, j as int));
                    table[n - i - 2][j] || (j < m && cur[j + 1])
                } else {
                    assert(table@[n - i - 1]@[j as int] == glob_match_from(p@, s@, i + 1, j as int));
                    table[n - i - 1][j] || (j < m && s[j] != '/' && cur[j + 1])
                }
            } else if j >= m {
                false
            } else if c == '?' {
                assert(table@[n - i - 1]@[j + 1] == glob_match_from(p@, s@, i + 1, j + 1));
                table[n - i - 1][j + 1]
            } else if c == '[' && close.is_some() {
                let e = close.unwrap();
                let start = class_start_of(p, i);
                let neg = i + 1 < n && (p[i + 1] == '!' || p[i + 1] == '^');
                assert(table@[n - e - 1]@[j + 1] == glob_match_from(p@, s@, e + 1, j + 1));
                (class_has_exec(p, start, e, s[j]) != neg) && table[n - e - 1][j + 1]
            } else if c == '\\' && i + 1 < n {
                assert(table@[n - i - 2]@[j + 1] == glob_match_from(p@, s@, i + 2, j + 1));
                s[j] == p[i + 1] && table[n - i - 2][j + 1]
            } else {
                assert(table@[n - i - 1]@[j + 1] == glob_match_from(p@, s@, i + 1, j + 1));
                s[j] == p[i] && table[n - i - 1][j + 1]
            };
            cur.set(j, v);
        }
        table.push(cur);
    }
    let row = table.pop().unwrap();
    row
}

} // verus!
