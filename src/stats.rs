use vstd::prelude::*;
use crate::text::{chars_of, string_of};
use size_format::SizeFormatterBinary;

verus! {

/// The outcome of one decision of the walk.
#[derive(Debug, Clone, Copy, PartialEq, Eq, Structural)]
pub enum CopyOutcome {
    Copied { bytes: u64 },
    NotModified { bytes: u64 },
    Skipped { count: u64, bytes: u64 },
    SymlinkSkipped,
}

/// Mathematical value of a counter: unbounded tallies per outcome kind.
pub struct Tally {
    pub copied: nat,
    pub skipped: nat,
    pub symlink: nat,
    pub no_update: nat,
    pub copied_size: nat,
    pub skipped_size: nat,
    pub no_update_size: nat,
}

pub open spec fn zero_tally() -> Tally {
    Tally {
        copied: 0,
        skipped: 0,
        symlink: 0,
        no_update: 0,
        copied_size: 0,
        skipped_size: 0,
        no_update_size: 0,
    }
}

/// Field-wise addition of two tallies.
pub open spec fn merge(a: Tally, b: Tally) -> Tally {
    Tally {
        copied: a.copied + b.copied,
        skipped: a.skipped + b.skipped,
        symlink: a.symlink + b.symlink,
        no_update: a.no_update + b.no_update,
        copied_size: a.copied_size + b.copied_size,
        skipped_size: a.skipped_size + b.skipped_size,
        no_update_size: a.no_update_size + b.no_update_size,
    }
}

/// The tally that a single outcome contributes.
pub open spec fn outcome_tally(o: CopyOutcome) -> Tally {
    match o {
        CopyOutcome::Copied { bytes } => Tally { copied: 1, copied_size: bytes as nat, ..zero_tally() },
        CopyOutcome::NotModified { bytes } => Tally {
            no_update: 1,
            no_update_size: bytes as nat,
            ..zero_tally()
        },
        CopyOutcome::Skipped { count, bytes } => Tally {
            skipped: count as nat,
            skipped_size: bytes as nat,
            ..zero_tally()
        },
        CopyOutcome::SymlinkSkipped => Tally { symlink: 1, ..zero_tally() },
    }
}

/// The tally of a sequence of outcomes, taken in order.
pub open spec fn tally_of(os: Seq<CopyOutcome>) -> Tally
    decreases os.len(),
{
    if os.len() == 0 {
        zero_tally()
    } else {
        merge(tally_of(os.drop_last()), outcome_tally(os.last()))
    }
}

/// The merge of a sequence of tallies, taken in order.
pub open spec fn merge_all(ts: Seq<Tally>) -> Tally
    decreases ts.len(),
{
    if ts.len() == 0 {
        zero_tally()
    } else {
        merge(merge_all(ts.drop_last()), ts.last())
    }
}

/// Every field of the tally fits in a `u64`.
pub open spec fn fits(t: Tally) -> bool {
    &&& t.copied <= u64::MAX
    &&& t.skipped <= u64::MAX
    &&& t.symlink <= u64::MAX
    &&& t.no_update <= u64::MAX
    &&& t.copied_size <= u64::MAX
    &&& t.skipped_size <= u64::MAX
    &&& t.no_update_size <= u64::MAX
}

/// Every field of `a` is at most the same field of `b`.
pub open spec fn below(a: Tally, b: Tally) -> bool {
    &&& a.copied <= b.copied
    &&& a.skipped <= b.skipped
    &&& a.symlink <= b.symlink
    &&& a.no_update <= b.no_update
    &&& a.copied_size <= b.copied_size
    &&& a.skipped_size <= b.skipped_size
    &&& a.no_update_size <= b.no_update_size
}

/// Merging is associative.
pub proof fn lemma_merge_associative(a: Tally, b: Tally, c: Tally)
    ensures
        merge(merge(a, b), c) == merge(a, merge(b, c)),
{
}

/// Merging is commutative.
pub proof fn lemma_merge_commutative(a: Tally, b: Tally)
    ensures
        merge(a, b) == merge(b, a),
{
}

/// The all-zero tally is the identity of merging.
pub proof fn lemma_merge_identity(a: Tally)
    ensures
        merge(a, zero_tally()) == a,
        merge(zero_tally(), a) == a,
{
}

/// The tally of two walks done one after the other is the merge of their tallies.
pub proof fn lemma_tally_append(a: Seq<CopyOutcome>, b: Seq<CopyOutcome>)
    ensures
        tally_of(a + b) == merge(tally_of(a), tally_of(b)),
    decreases b.len(),
{
    if b.len() == 0 {
        assert(a + b =~= a);
    } else {
        assert((a + b).drop_last() =~= a + b.drop_last());
        lemma_tally_append(a, b.drop_last());
    }
}

/// For any partition of a walk into consecutive parts, merging the parts' tallies gives the
/// tally of the whole walk.
pub proof fn lemma_tally_partition(parts: Seq<Seq<CopyOutcome>>)
    ensures
        tally_of(parts.flatten()) == merge_all(parts.map_values(|p: Seq<CopyOutcome>| tally_of(p))),
    decreases parts.len(),
{
    let ts = parts.map_values(|p: Seq<CopyOutcome>| tally_of(p));
    if parts.len() == 0 {
        assert(parts.flatten() =~= Seq::<CopyOutcome>::empty());
    } else {
        parts.lemma_flatten_and_flatten_alt_are_equivalent();
        parts.drop_last().lemma_flatten_and_flatten_alt_are_equivalent();
        assert(parts.flatten() =~= parts.drop_last().flatten() + parts.last());
        lemma_tally_append(parts.drop_last().flatten(), parts.last());
        lemma_tally_partition(parts.drop_last());
        assert(ts.drop_last() =~= parts.drop_last().map_values(|p: Seq<CopyOutcome>| tally_of(p)));
    }
}

/// The final tally does not depend on the order of the outcomes: any permutation of a walk
/// has the same tally.
pub proof fn lemma_tally_permutation(a: Seq<CopyOutcome>, b: Seq<CopyOutcome>)
    requires
        a.to_multiset() == b.to_multiset(),
    ensures
        tally_of(a) == tally_of(b),
    decreases a.len(),
{
    broadcast use vstd::seq_lib::group_to_multiset_ensures, vstd::multiset::group_multiset_axioms;

    if a.len() == 0 {
        assert(a.to_multiset().len() == a.len());
        assert(b.to_multiset().len() == b.len());
        assert(b =~= a);
    } else {
        let x = a.last();
        let a1 = a.drop_last();
        assert(a1.push(x) =~= a);
        assert(b.to_multiset().count(x) > 0);
        let k = choose|k: int| 0 <= k < b.len() && b[k] == x;
        let b1 = b.remove(k);
        assert(b1.to_multiset() =~= a1.to_multiset());
        lemma_tally_permutation(a1, b1);
        let front = b.subrange(0, k);
        let back = b.subrange(k + 1, b.len() as int);
        assert(b =~= (front + seq![x]) + back);
        assert(b1 =~= front + back);
        lemma_tally_append(front + seq![x], back);
        lemma_tally_append(front, seq![x]);
        lemma_tally_append(front, back);
        assert(seq![x].drop_last() =~= Seq::<CopyOutcome>::empty());
        assert(tally_of(Seq::<CopyOutcome>::empty()) == zero_tally());
        assert(tally_of(seq![x]) == outcome_tally(x));
        assert(tally_of(a) == merge(tally_of(a1), outcome_tally(x)));
    }
}

/// Counts and byte totals per outcome kind of a run.
#[derive(Debug, Clone, Copy)]
pub struct TypeCounter {
    pub copied: u64,
    pub skipped: u64,
    pub symlink: u64,
    pub no_update: u64,
    pub copied_size: u64,
    pub skipped_size: u64,
    pub no_update_size: u64,
}

impl View for TypeCounter {
    type V = Tally;

    open spec fn view(&self) -> Tally {
        Tally {
            copied: self.copied as nat,
            skipped: self.skipped as nat,
            symlink: self.symlink as nat,
            no_update: self.no_update as nat,
            copied_size: self.copied_size as nat,
            skipped_size: self.skipped_size as nat,
            no_update_size: self.no_update_size as nat,
        }
    }
}

impl TypeCounter {
    /// The all-zero counter.
    pub fn new() -> (r: Self)
        ensures
            r@ == zero_tally(),
    {
        TypeCounter {
            copied: 0,
            skipped: 0,
            symlink: 0,
            no_update: 0,
            copied_size: 0,
            skipped_size: 0,
            no_update_size: 0,
        }
    }

    /// Counts one copied file of `size` bytes.
    pub fn count_copied(self, size: u64) -> (r: Self)
        requires
            fits(merge(self@, outcome_tally(CopyOutcome::Copied { bytes: size }))),
        ensures
            r@ == merge(self@, outcome_tally(CopyOutcome::Copied { bytes: size })),
    {
        Self { copied: self.copied + 1, copied_size: self.copied_size + size, ..self }
    }

    /// Counts `count` skipped entries holding `size` bytes.
    pub fn count_skipped(self, count: u64, size: u64) -> (r: Self)
        requires
            fits(merge(self@, outcome_tally(CopyOutcome::Skipped { count, bytes: size }))),
        ensures
            r@ == merge(self@, outcome_tally(CopyOutcome::Skipped { count, bytes: size })),
    {
        Self { skipped: self.skipped + count, skipped_size: self.skipped_size + size, ..self }
    }

    /// Counts one symbolic link that was left alone.
    pub fn count_symlink(self) -> (r: Self)
        requires
            fits(merge(self@, outcome_tally(CopyOutcome::SymlinkSkipped))),
        ensures
            r@ == merge(self@, outcome_tally(CopyOutcome::SymlinkSkipped)),
    {
        Self { symlink: self.symlink + 1, ..self }
    }

    /// Counts one file of `size` bytes whose destination was already current.
    pub fn count_no_update(self, size: u64) -> (r: Self)
        requires
            fits(merge(self@, outcome_tally(CopyOutcome::NotModified { bytes: size }))),
        ensures
            r@ == merge(self@, outcome_tally(CopyOutcome::NotModified { bytes: size })),
    {
        Self { no_update: self.no_update + 1, no_update_size: self.no_update_size + size, ..self }
    }

    /// Counts one outcome of the walk.
    pub fn record(self, o: CopyOutcome) -> (r: Self)
        requires
            fits(merge(self@, outcome_tally(o))),
        ensures
            r@ == merge(self@, outcome_tally(o)),
    {
        match o {
            CopyOutcome::Copied { bytes } => self.count_copied(bytes),
            CopyOutcome::NotModified { bytes } => self.count_no_update(bytes),
            CopyOutcome::Skipped { count, bytes } => self.count_skipped(count, bytes),
            CopyOutcome::SymlinkSkipped => self.count_symlink(),
        }
    }

    /// Field-wise sum of two counters.
    pub fn add(self, other: &TypeCounter) -> (r: Self)
        requires
            fits(merge(self@, other@)),
        ensures
            r@ == merge(self@, other@),
    {
        Self {
            copied: self.copied + other.copied,
            skipped: self.skipped + other.skipped,
            symlink: self.symlink + other.symlink,
            no_update: self.no_update + other.no_update,
            copied_size: self.copied_size + other.copied_size,
            skipped_size: self.skipped_size + other.skipped_size,
            no_update_size: self.no_update_size + other.no_update_size,
        }
    }

    /// Field-wise sum of all the counters, in order.
    pub fn sum(items: &[TypeCounter]) -> (r: Self)
        requires
            fits(merge_all(items@.map_values(|c: TypeCounter| c@))),
        ensures
            r@ == merge_all(items@.map_values(|c: TypeCounter| c@)),
    {
        let ghost all = items@.map_values(|c: TypeCounter| c@);
        let mut acc = TypeCounter::new();
        let mut i: usize = 0;
        while i < items.len()
            invariant
                0 <= i <= items.len(),
                all == items@.map_values(|c: TypeCounter| c@),
                fits(merge_all(all)),
                acc@ == merge_all(all.subrange(0, i as int)),
            decreases items.len() - i,
        {
            proof {
                assert(all.subrange(0, i + 1).drop_last() =~= all.subrange(0, i as int));
                lemma_merge_all_prefix_below(all, i + 1);
            }
            acc = acc.add(&items[i]);
            i = i + 1;
        }
        assert(all.subrange(0, i as int) =~= all);
        acc
    }

    /// The counter of a whole walk, or `None` when some total does not fit in a `u64`.
    pub fn tally(outcomes: &[CopyOutcome]) -> (r: Option<Self>)
        ensures
            r is Some <==> fits(tally_of(outcomes@)),
            r matches Some(c) ==> c@ == tally_of(outcomes@),
    {
        let mut acc = TypeCounter::new();
        let mut i: usize = 0;
        while i < outcomes.len()
            invariant
                0 <= i <= outcomes.len(),
                acc@ == tally_of(outcomes@.subrange(0, i as int)),
            decreases outcomes.len() - i,
        {
            let o = outcomes[i];
            proof {
                assert(outcomes@.subrange(0, i + 1).drop_last() =~= outcomes@.subrange(0, i as int));
            }
            if !acc.can_record(o) {
                proof {
                    lemma_tally_prefix_below(outcomes@, i + 1);
                }
                return None;
            }
            acc = acc.record(o);
            i = i + 1;
        }
        assert(outcomes@.subrange(0, i as int) =~= outcomes@);
        Some(acc)
    }

    /// The human-readable summary of the counter.
    pub fn report(&self) -> (r: String)
        ensures
            r@ == report_text(*self),
    {
        let mut v: Vec<char> = Vec::new();
        push_padded(&mut v, self.copied, 6);
        push_str(&mut v, " file(s) copied,      size = ");
        push_string(&mut v, &binary_size(self.copied_size));
        push_str(&mut v, "B\n");
        push_padded(&mut v, self.no_update, 6);
        push_str(&mut v, " file(s) not updated, size = ");
        push_string(&mut v, &binary_size(self.no_update_size));
        push_str(&mut v, "B\n");
        push_padded(&mut v, self.skipped, 6);
        push_str(&mut v, " item(s) skipped,     size = ");
        push_string(&mut v, &binary_size(self.skipped_size));
        push_str(&mut v, "B\n");
        push_padded(&mut v, self.symlink, 6);
        push_str(&mut v, " symbolic link(s)");
        string_of(&v)
    }

    /// Whether counting `o` keeps every total within a `u64`.
    pub fn can_record(&self, o: CopyOutcome) -> (r: bool)
        ensures
            r == fits(merge(self@, outcome_tally(o))),
    {
        match o {
            CopyOutcome::Copied { bytes } => self.copied < u64::MAX && self.copied_size
                <= u64::MAX - bytes,
            CopyOutcome::NotModified { bytes } => self.no_update < u64::MAX && self.no_update_size
                <= u64::MAX - bytes,
            CopyOutcome::Skipped { count, bytes } => self.skipped <= u64::MAX - count
                && self.skipped_size <= u64::MAX - bytes,
            CopyOutcome::SymlinkSkipped => self.symlink < u64::MAX,
        }
    }
}

/// `1024` to the power `k`.
pub open spec fn pow1024(k: nat) -> nat
    decreases k,
{
    if k == 0 {
        1
    } else {
        1024 * pow1024((k - 1) as nat)
    }
}

/// How many times `n` can be divided by 1024 before it falls below 1024.
pub open spec fn size_divisions(n: nat) -> nat
    decreases n,
{
    if n >= 1024 {
        1 + size_divisions(n / 1024)
    } else {
        0
    }
}

/// The binary prefix of the `k`-th power of 1024.
pub open spec fn binary_prefix(k: nat) -> Seq<char> {
    if k == 1 {
        "Ki"@
    } else if k == 2 {
        "Mi"@
    } else if k == 3 {
        "Gi"@
    } else if k == 4 {
        "Ti"@
    } else if k == 5 {
        "Pi"@
    } else if k == 6 {
        "Ei"@
    } else if k == 7 {
        "Zi"@
    } else if k == 8 {
        "Yi"@
    } else {
        Seq::empty()
    }
}

/// A byte count with a binary prefix, without the unit letter: below 1024 the plain number;
/// else the whole number of the largest prefix, a `.`, one more digit rounded down, and the
/// prefix (`678`, `1.5Ki`, `15.9Ei`).
pub open spec fn binary_size_text(n: u64) -> Seq<char> {
    let d = size_divisions(n as nat);
    let k = if d > 8 { 8 } else { d };
    if k == 0 {
        decimal(n as nat)
    } else {
        let p = pow1024(k);
        decimal(n as nat / p) + seq!['.', digit_char(((n as nat % p) * 10) / p)] + binary_prefix(k)
    }
}

/// Relies on size_format's `SizeFormatterBinary` and its `Display` at the default precision:
/// the whole part of `n / 1024^k`, a `.` and one digit of the fraction rounded down, then the
/// prefix, where `k` counts the divisions by 1024 (no `.` when `k` is 0).
#[verifier::external_body]
fn binary_size(n: u64) -> (r: String)
    ensures
        r@ == binary_size_text(n),
{
    format!("{}", SizeFormatterBinary::new(n))
}

pub open spec fn digit_char(d: nat) -> char {
    if d == 0 {
        '0'
    } else if d == 1 {
        '1'
    } else if d == 2 {
        '2'
    } else if d == 3 {
        '3'
    } else if d == 4 {
        '4'
    } else if d == 5 {
        '5'
    } else if d == 6 {
        '6'
    } else if d == 7 {
        '7'
    } else if d == 8 {
        '8'
    } else {
        '9'
    }
}

/// The decimal digits of `n`, most significant first, without leading zeros.
pub open spec fn decimal(n: nat) -> Seq<char>
    decreases n,
{
    if n < 10 {
        seq![digit_char(n)]
    } else {
        decimal(n / 10).push(digit_char(n % 10))
    }
}

/// `s` right-aligned in a field of `width` characters.
pub open spec fn pad_left(s: Seq<char>, width: nat) -> Seq<char> {
    if s.len() >= width {
        s
    } else {
        Seq::new((width - s.len()) as nat, |i: int| ' ') + s
    }
}

/// The summary of a run: counts right-aligned in six columns, sizes with binary prefixes.
pub open spec fn report_text(c: TypeCounter) -> Seq<char> {
    pad_left(decimal(c.copied as nat), 6) + " file(s) copied,      size = "@ + binary_size_text(
        c.copied_size,
    ) + "B\n"@ + pad_left(decimal(c.no_update as nat), 6) + " file(s) not updated, size = "@
        + binary_size_text(c.no_update_size) + "B\n"@ + pad_left(decimal(c.skipped as nat), 6)
        + " item(s) skipped,     size = "@ + binary_size_text(c.skipped_size) + "B\n"@
        + pad_left(decimal(c.symlink as nat), 6) + " symbolic link(s)"@
}

fn digit_of(d: u64) -> (r: char)
    requires
        d < 10,
    ensures
        r == digit_char(d as nat),
{
    if d == 0 {
        '0'
    } else if d == 1 {
        '1'
    } else if d == 2 {
        '2'
    } else if d == 3 {
        '3'
    } else if d == 4 {
        '4'
    } else if d == 5 {
        '5'
    } else if d == 6 {
        '6'
    } else if d == 7 {
        '7'
    } else if d == 8 {
        '8'
    } else {
        '9'
    }
}

/// The decimal digits of `n`.
pub fn decimal_of(n: u64) -> (r: Vec<char>)
    ensures
        r@ == decimal(n as nat),
    decreases n,
{
    if n < 10 {
        let mut v: Vec<char> = Vec::new();
        v.push(digit_of(n));
        assert(v@ =~= seq![digit_char(n as nat)]);
        v
    } else {
        let mut v = decimal_of(n / 10);
        v.push(digit_of(n % 10));
        v
    }
}

fn push_str(v: &mut Vec<char>, s: &str)
    ensures
        final(v)@ == old(v)@ + s@,
{
    let cs = chars_of(s);
    let ghost head = v@;
    let mut i: usize = 0;
    while i < cs.len()
        invariant
            i <= cs.len(),
            v@ == head + cs@.subrange(0, i as int),
        decreases cs.len() - i,
    {
        v.push(cs[i]);
        i = i + 1;
        assert(v@ =~= head + cs@.subrange(0, i as int));
    }
    assert(cs@.subrange(0, i as int) =~= cs@);
}

fn push_padded(v: &mut Vec<char>, n: u64, width: usize)
    ensures
        final(v)@ == old(v)@ + pad_left(decimal(n as nat), width as nat),
{
    let d = decimal_of(n);
    let ghost head = v@;
    let mut k: usize = d.len();
    while k < width
        invariant
            d.len() <= k <= width || width <= d.len() == k,
            v@ == head + Seq::new((k - d.len()) as nat, |i: int| ' '),
        decreases width - k,
    {
        v.push(' ');
        k = k + 1;
        assert(v@ =~= head + Seq::new((k - d.len()) as nat, |i: int| ' '));
    }
    let ghost mid = v@;
    let mut j: usize = 0;
    while j < d.len()
        invariant
            j <= d.len(),
            v@ == mid + d@.subrange(0, j as int),
        decreases d.len() - j,
    {
        v.push(d[j]);
        j = j + 1;
        assert(v@ =~= mid + d@.subrange(0, j as int));
    }
    assert(d@.subrange(0, j as int) =~= d@);
    if d.len() >= width {
        assert(mid =~= head);
    }
}

fn push_string(v: &mut Vec<char>, s: &String)
    ensures
        final(v)@ == old(v)@ + s@,
{
    push_str(v, s.as_str());
}

proof fn lemma_merge_all_prefix_below(ts: Seq<Tally>, k: int)
    requires
        0 <= k <= ts.len(),
    ensures
        below(merge_all(ts.subrange(0, k)), merge_all(ts)),
    decreases ts.len(),
{
    if k < ts.len() {
        assert(ts.drop_last().subrange(0, k) =~= ts.subrange(0, k));
        lemma_merge_all_prefix_below(ts.drop_last(), k);
    } else {
        assert(ts.subrange(0, k) =~= ts);
    }
}

proof fn lemma_tally_prefix_below(os: Seq<CopyOutcome>, k: int)
    requires
        0 <= k <= os.len(),
    ensures
        below(tally_of(os.subrange(0, k)), tally_of(os)),
    decreases os.len(),
{
    if k < os.len() {
        assert(os.drop_last().subrange(0, k) =~= os.subrange(0, k));
        lemma_tally_prefix_below(os.drop_last(), k);
    } else {
        assert(os.subrange(0, k) =~= os);
    }
}

} // verus!
