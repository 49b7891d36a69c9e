use vstd::prelude::*;

verus! {

/// Mathematical value of a count-only counter.
pub struct Counts {
    pub copied: nat,
    pub skipped: nat,
    pub symlink: nat,
    pub no_update: nat,
}

/// Numbers of entries per outcome kind, without byte totals.
#[derive(Debug, Clone, Copy)]
pub struct TypeCounter {
    pub copied: u64,
    pub skipped: u64,
    pub symlink: u64,
    pub no_update: u64,
}

impl View for TypeCounter {
    type V = Counts;

    open spec fn view(&self) -> Counts {
        Counts {
            copied: self.copied as nat,
            skipped: self.skipped as nat,
            symlink: self.symlink as nat,
            no_update: self.no_update as nat,
        }
    }
}

impl TypeCounter {
    /// All counts zero.
    pub fn new() -> (r: Self)
        ensures
            r@ == (Counts { copied: 0, skipped: 0, symlink: 0, no_update: 0 }),
    {
        TypeCounter { copied: 0, skipped: 0, symlink: 0, no_update: 0 }
    }

    /// One more copied file.
    pub fn count_copied(self) -> (r: Self)
        requires
            self.copied < u64::MAX,
        ensures
            r@ == (Counts { copied: self@.copied + 1, ..self@ }),
    {
        Self { copied: self.copied + 1, ..self }
    }

    /// One more skipped entry.
    pub fn count_skipped(self) -> (r: Self)
        requires
            self.skipped < u64::MAX,
        ensures
            r@ == (Counts { skipped: self@.skipped + 1, ..self@ }),
    {
        Self { skipped: self.skipped + 1, ..self }
    }

    /// One more symbolic link left alone.
    pub fn count_symlink(self) -> (r: Self)
        requires
            self.symlink < u64::MAX,
        ensures
            r@ == (Counts { symlink: self@.symlink + 1, ..self@ }),
    {
        Self { symlink: self.symlink + 1, ..self }
    }

    /// One more file found current.
    pub fn count_no_update(self) -> (r: Self)
        requires
            self.no_update < u64::MAX,
        ensures
            r@ == (Counts { no_update: self@.no_update + 1, ..self@ }),
    {
        Self { no_update: self.no_update + 1, ..self }
    }

    /// Field-wise sum of two counters.
    pub fn add(self, other: Self) -> (r: Self)
        requires
            self.copied + other.copied <= u64::MAX,
            self.skipped + other.skipped <= u64::MAX,
            self.symlink + other.symlink <= u64::MAX,
            self.no_update + other.no_update <= u64::MAX,
        ensures
            r@ == (Counts {
                copied: self@.copied + other@.copied,
                skipped: self@.skipped + other@.skipped,
                symlink: self@.symlink + other@.symlink,
                no_update: self@.no_update + other@.no_update,
            }),
    {
        Self {
            copied: self.copied + other.copied,
            skipped: self.skipped + other.skipped,
            symlink: self.symlink + other.symlink,
            no_update: self.no_update + other.no_update,
        }
    }
}

} // verus!
