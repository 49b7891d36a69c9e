use vstd::prelude::*;

verus! {

/// Relies on `str::chars`: the characters of the string, in order. A `Vec` never holds more
/// than `isize::MAX` bytes, so fewer than `isize::MAX` characters.
#[verifier::external_body]
pub(crate) fn chars_of(s: &str) -> (r: Vec<char>)
    ensures
        r@ == s@,
        r@.len() < isize::MAX,
{
    s.chars().collect()
}

/// Relies on `FromIterator<char>` for `String`: the characters, in order.
#[verifier::external_body]
pub(crate) fn string_of(v: &Vec<char>) -> (r: String)
    ensures
        r@ == v@,
{
    v.iter().collect()
}

/// Index of the first `c` in `s` at or after `k`, or -1 when there is none.
pub open spec fn index_from(s: Seq<char>, k: int, c: char) -> int
    decreases s.len() - k,
{
    if k < 0 || k >= s.len() {
        -1
    } else if s[k] == c {
        k
    } else {
        index_from(s, k + 1, c)
    }
}

/// The lines of `s`: the pieces between newline characters, in order.
pub open spec fn split_lines(s: Seq<char>) -> Seq<Seq<char>>
    decreases s.len(),
{
    let k = index_from(s, 0, '\n');
    if 0 <= k < s.len() {
        seq![s.subrange(0, k)] + split_lines(s.subrange(k + 1, s.len() as int))
    } else {
        seq![s]
    }
}

proof fn lemma_index_shift(s: Seq<char>, pos: int, k: int, c: char)
    requires
        0 <= pos <= k <= s.len(),
    ensures
        index_from(s.subrange(pos, s.len() as int), k - pos, c) == (if index_from(s, k, c)
            < 0 {
            -1
        } else {
            index_from(s, k, c) - pos
        }),
    decreases s.len() - k,
{
    if k < s.len() {
        lemma_index_shift(s, pos, k + 1, c);
    }
}

proof fn lemma_index_range(s: Seq<char>, k: int, c: char)
    ensures
        index_from(s, k, c) == -1 || (k <= index_from(s, k, c) < s.len() && s[index_from(s, k, c)]
            == c && 0 <= k),
        forall|x: int| 0 <= k <= x < index_from(s, k, c) ==> s[x] != c,
        index_from(s, k, c) == -1 ==> forall|x: int| 0 <= k <= x < s.len() ==> s[x] != c,
    decreases s.len() - k,
{
    if 0 <= k < s.len() {
        lemma_index_range(s, k + 1, c);
    }
}

/// Copies `s[lo..hi]`.
pub fn slice_of(s: &Vec<char>, lo: usize, hi: usize) -> (r: Vec<char>)
    requires
        lo <= hi <= s.len(),
    ensures
        r@ == s@.subrange(lo as int, hi as int),
{
    let mut r: Vec<char> = Vec::new();
    let mut i = lo;
    while i < hi
        invariant
            lo <= i <= hi <= s.len(),
            r@ == s@.subrange(lo as int, i as int),
        decreases hi - i,
    {
        r.push(s[i]);
        i = i + 1;
        assert(r@ =~= s@.subrange(lo as int, i as int));
    }
    r
}

/// Splits `s` into its lines.
pub fn lines_of(s: &Vec<char>) -> (r: Vec<Vec<char>>)
    ensures
        r.len() == split_lines(s@).len(),
        forall|i: int| 0 <= i < r.len() ==> #[trigger] r@[i]@ == split_lines(s@)[i],
{
    let mut r: Vec<Vec<char>> = Vec::new();
    let mut pos: usize = 0;
    let ghost n = s@.len() as int;
    assert(s@.subrange(0, n) =~= s@);
    loop
        invariant
            pos <= s.len(),
            n == s@.len(),
            split_lines(s@) =~= r@.map_values(|v: Vec<char>| v@) + split_lines(
                s@.subrange(pos as int, n),
            ),
        decreases s.len() - pos,
    {
        let ghost rest = s@.subrange(pos as int, n);
        let mut k = pos;
        while k < s.len() && s[k] != '\n'
            invariant
                pos <= k <= s.len(),
                forall|x: int| pos <= x < k ==> s@[x] != '\n',
            decreases s.len() - k,
        {
            k = k + 1;
        }
        proof {
            lemma_index_range(rest, 0, '\n');
            lemma_index_range(s@, pos as int, '\n');
            lemma_index_shift(s@, pos as int, pos as int, '\n');
            if k < s.len() {
                let x = index_from(s@, pos as int, '\n');
                assert(s@[k as int] == '\n');
                if x == -1 {
                    assert(false);
                } else if x < k {
                    assert(s@[x] != '\n');
                }
            } else {
                assert(index_from(s@, pos as int, '\n') == -1) by {
                    if index_from(s@, pos as int, '\n') != -1 {
                        let x = index_from(s@, pos as int, '\n');
                        assert(s@[x] == '\n');
                    }
                };
            }
        }
        let line = slice_of(s, pos, k);
        let ghost before = r@;
        r.push(line);
        assert(r@.map_values(|v: Vec<char>| v@) =~= before.map_values(|v: Vec<char>| v@).push(
            line@,
        ));
        if k >= s.len() {
            assert(rest.subrange(0, rest.len() as int) =~= rest);
            assert(split_lines(rest) == seq![rest]);
            assert(line@ =~= rest);
            return r;
        }
        assert(rest.subrange(0, k - pos) =~= line@);
        assert(rest.subrange(k - pos + 1, rest.len() as int) =~= s@.subrange(k + 1, n));
        pos = k + 1;
    }
}

} // verus!
