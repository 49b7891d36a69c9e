use vstd::prelude::*;
use crate::stats::{lemma_tally_append, tally_of, CopyOutcome};

verus! {

/// What is known of a file's destination before it is copied. Times are nanoseconds since the
/// Unix epoch; `None` where the platform could not tell.
#[derive(Debug, Clone, Copy, PartialEq, Eq, Structural)]
pub struct DestInfo {
    pub exists: bool,
    pub modified: Option<i128>,
    pub readonly: bool,
}

/// What to do with one regular file of the source.
#[derive(Debug, Clone, Copy, PartialEq, Eq, Structural)]
pub enum CopyPlan {
    /// The destination does not exist: create its missing parent directories, then copy.
    CreateAndCopy,
    /// The destination exists and is replaced, after its read-only flag is cleared if set.
    Overwrite { clear_readonly: bool },
    /// The destination is current: leave it.
    Keep,
}

/// Whether the source is strictly newer than the destination; unknown times never are.
pub open spec fn is_newer(src_modified: Option<i128>, dest_modified: Option<i128>) -> bool {
    match (src_modified, dest_modified) {
        (Some(s), Some(d)) => s > d,
        _ => false,
    }
}

pub open spec fn copy_plan(src_modified: Option<i128>, dest: DestInfo, force: bool) -> CopyPlan {
    if !dest.exists {
        CopyPlan::CreateAndCopy
    } else if !force && !is_newer(src_modified, dest.modified) {
        CopyPlan::Keep
    } else {
        CopyPlan::Overwrite { clear_readonly: dest.readonly }
    }
}

/// Decides what to do with a source file last modified at `src_modified`: copy it when the
/// destination is missing, when `force` is set, or when the source is strictly newer (a tie
/// does not copy); an existing read-only destination has that flag cleared first.
pub fn decide_copy(src_modified: Option<i128>, dest: &DestInfo, force: bool) -> (r: CopyPlan)
    ensures
        r == copy_plan(src_modified, *dest, force),
{
    if !dest.exists {
        return CopyPlan::CreateAndCopy;
    }
    if !force {
        let newer = match (src_modified, dest.modified) {
            (Some(s), Some(d)) => s > d,
            _ => false,
        };
        if !newer {
            return CopyPlan::Keep;
        }
    }
    CopyPlan::Overwrite { clear_readonly: dest.readonly }
}

pub open spec fn file_outcome_of(plan: CopyPlan, copied_bytes: u64, src_size: u64) -> CopyOutcome {
    match plan {
        CopyPlan::Keep => CopyOutcome::NotModified { bytes: src_size },
        _ => CopyOutcome::Copied { bytes: copied_bytes },
    }
}

/// The outcome of a file handled by `plan`: `NotModified` with the source's size when it was
/// kept, else `Copied` with the bytes that the copy wrote.
pub fn file_outcome(plan: CopyPlan, copied_bytes: u64, src_size: u64) -> (r: CopyOutcome)
    ensures
        r == file_outcome_of(plan, copied_bytes, src_size),
{
    match plan {
        CopyPlan::Keep => CopyOutcome::NotModified { bytes: src_size },
        _ => CopyOutcome::Copied { bytes: copied_bytes },
    }
}

/// A destination that exists and is at least as recent as its source is kept unless the copy
/// is forced. A copy leaves its destination modified no earlier than its source, so a second
/// run with no change to the source finds every file current.
pub proof fn lemma_current_destination_is_kept(src_modified: i128, dest: DestInfo)
    requires
        dest.exists,
        dest.modified matches Some(d) && d >= src_modified,
    ensures
        copy_plan(Some(src_modified), dest, false) == CopyPlan::Keep,
{
}

/// A second run with no change to the source copies nothing: when every file's destination
/// exists and is no older than its source (as a copy leaves it), and the copy is not forced,
/// the tally of the run counts no copy, counts every file as not modified, and keeps the skip
/// and link counts of its other outcomes (which hold no copy).
pub proof fn lemma_rerun_copies_nothing(
    src_times: Seq<i128>,
    dests: Seq<DestInfo>,
    copied: Seq<u64>,
    sizes: Seq<u64>,
    others: Seq<CopyOutcome>,
)
    requires
        dests.len() == src_times.len(),
        copied.len() == src_times.len(),
        sizes.len() == src_times.len(),
        forall|i: int|
            0 <= i < src_times.len() ==> #[trigger] dests[i].exists && (dests[i].modified matches Some(
                d,
            ) && d >= src_times[i]),
        forall|i: int| 0 <= i < others.len() ==> !(#[trigger] others[i] is Copied),
    ensures
        tally_of(
            others + Seq::new(
                src_times.len(),
                |i: int| file_outcome_of(copy_plan(Some(src_times[i]), dests[i], false), copied[i], sizes[i]),
            ),
        ).copied == 0,
        tally_of(
            others + Seq::new(
                src_times.len(),
                |i: int| file_outcome_of(copy_plan(Some(src_times[i]), dests[i], false), copied[i], sizes[i]),
            ),
        ).no_update == tally_of(others).no_update + src_times.len(),
        tally_of(
            others + Seq::new(
                src_times.len(),
                |i: int| file_outcome_of(copy_plan(Some(src_times[i]), dests[i], false), copied[i], sizes[i]),
            ),
        ).skipped == tally_of(others).skipped,
        tally_of(
            others + Seq::new(
                src_times.len(),
                |i: int| file_outcome_of(copy_plan(Some(src_times[i]), dests[i], false), copied[i], sizes[i]),
            ),
        ).symlink == tally_of(others).symlink,
{
    let files = Seq::new(
        src_times.len(),
        |i: int| file_outcome_of(copy_plan(Some(src_times[i]), dests[i], false), copied[i], sizes[i]),
    );
    assert forall|i: int| 0 <= i < files.len() implies !(#[trigger] files[i] is Copied) by {
        lemma_current_destination_is_kept(src_times[i], dests[i]);
    }
    assert forall|i: int| 0 <= i < files.len() implies #[trigger] files[i] is NotModified by {
        lemma_current_destination_is_kept(src_times[i], dests[i]);
    }
    let os = others + files;
    assert forall|i: int| 0 <= i < os.len() implies !(#[trigger] os[i] is Copied) by {
        if i >= others.len() {
            assert(os[i] == files[i - others.len()]);
        }
    }
    lemma_no_copy_tally(os);
    lemma_tally_append(others, files);
    lemma_kept_tally(files);
}

proof fn lemma_kept_tally(os: Seq<CopyOutcome>)
    requires
        forall|i: int| 0 <= i < os.len() ==> #[trigger] os[i] is NotModified,
    ensures
        tally_of(os).no_update == os.len(),
        tally_of(os).skipped == 0,
        tally_of(os).symlink == 0,
    decreases os.len(),
{
    if os.len() > 0 {
        lemma_kept_tally(os.drop_last());
    }
}

proof fn lemma_no_copy_tally(os: Seq<CopyOutcome>)
    requires
        forall|i: int| 0 <= i < os.len() ==> !(os[i] is Copied),
    ensures
        tally_of(os).copied == 0,
    decreases os.len(),
{
    if os.len() > 0 {
        lemma_no_copy_tally(os.drop_last());
    }
}

} // verus!
