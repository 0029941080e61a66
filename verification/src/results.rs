//! Diff report data: the kinds of breaking change, per-entry breakage
//! records, and the issue tally that decides the process exit status.

use vstd::prelude::*;

verus! {

/// How a public export was broken: definitely gone, or gone under the
/// queried name (it may still exist under another).
#[derive(Clone, Copy, PartialEq, Eq, Structural, Debug)]
pub enum BreakType {
    Removed,
    RemovedOrRenamed,
}

/// The class of manifest entry a broken entry belonged to.
#[derive(Clone, Copy, PartialEq, Eq, Structural, Debug)]
pub enum PkgEntryType {
    Main,
    Bin,
    Browser,
    Exports,
}

/// One broken export inside an entry: its human-readable label and the kind
/// of breakage.
pub struct BrokenExport {
    pub label: String,
    pub break_type: BreakType,
}

/// One broken entry: either the entry vanished (`is_missing`), or it still
/// exists and `broken_exports` lists what it lost.
pub struct BrokenEntryResult {
    pub kind: PkgEntryType,
    pub name: String,
    pub is_missing: bool,
    pub broken_exports: Vec<BrokenExport>,
}

impl BrokenEntryResult {
    /// A missing entry counts as one issue; otherwise each broken export is
    /// one issue.
    pub open spec fn spec_issue_count(&self) -> nat {
        if self.is_missing {
            1
        } else {
            self.broken_exports@.len()
        }
    }

    /// A well-formed record never pairs `is_missing` with broken exports.
    pub open spec fn wf(&self) -> bool {
        self.is_missing ==> self.broken_exports@.len() == 0
    }

    pub fn issue_count(&self) -> (r: usize)
        ensures
            r == self.spec_issue_count(),
    {
        if self.is_missing {
            1
        } else {
            self.broken_exports.len()
        }
    }
}

/// The full diff report between a previous and a current package version.
pub struct DiffResults {
    pub removed_assets: Vec<String>,
    pub broken_entries: Vec<BrokenEntryResult>,
}

/// Total issues contributed by a prefix of the broken-entry list.
pub open spec fn spec_entries_issue_count(entries: Seq<BrokenEntryResult>) -> nat
    decreases entries.len(),
{
    if entries.len() == 0 {
        0
    } else {
        spec_entries_issue_count(entries.drop_last()) + entries.last().spec_issue_count()
    }
}

impl DiffResults {
    /// Total issues: one per removed asset, plus each entry's issues.
    pub open spec fn spec_issue_count(&self) -> nat {
        self.removed_assets@.len() + spec_entries_issue_count(self.broken_entries@)
    }

    pub fn new() -> (r: DiffResults)
        ensures
            r.removed_assets@.len() == 0,
            r.broken_entries@.len() == 0,
            r.spec_issue_count() == 0,
    {
        let r = DiffResults { removed_assets: Vec::new(), broken_entries: Vec::new() };
        proof {
            assert(spec_entries_issue_count(r.broken_entries@) == 0);
        }
        r
    }

    /// The exact issue tally, saturating at `usize::MAX` (unreachable in
    /// practice, but the tally is then still nonzero exactly when issues
    /// exist).
    pub fn issue_count(&self) -> (r: usize)
        ensures
            self.spec_issue_count() <= usize::MAX ==> r == self.spec_issue_count(),
            self.spec_issue_count() > usize::MAX ==> r == usize::MAX,
            (r == 0) <==> (self.spec_issue_count() == 0),
    {
        let mut total: usize = self.removed_assets.len();
        let mut i: usize = 0;
        proof {
            assert(self.broken_entries@.take(0int) =~= Seq::<BrokenEntryResult>::empty());
        }
        while i < self.broken_entries.len()
            invariant
                i <= self.broken_entries@.len(),
                self.removed_assets@.len() + spec_entries_issue_count(
                    self.broken_entries@.take(i as int),
                ) <= usize::MAX ==> total == self.removed_assets@.len()
                    + spec_entries_issue_count(self.broken_entries@.take(i as int)),
                self.removed_assets@.len() + spec_entries_issue_count(
                    self.broken_entries@.take(i as int),
                ) > usize::MAX ==> total == usize::MAX,
            decreases self.broken_entries@.len() - i,
        {
            let c = self.broken_entries[i].issue_count();
            if total <= usize::MAX - c {
                total = total + c;
            } else {
                total = usize::MAX;
            }
            proof {
                assert(self.broken_entries@.take(i + 1int).drop_last() =~= self.broken_entries@
                    .take(i as int));
                assert(self.broken_entries@.take(i + 1int).last() == self.broken_entries@[i as int]);
            }
            i = i + 1;
        }
        proof {
            assert(self.broken_entries@.take(self.broken_entries@.len() as int)
                =~= self.broken_entries@);
        }
        total
    }
}

/// The process exit status the diff report calls for: success exactly when
/// no breaking change was found.
pub fn exit_code(results: &DiffResults) -> (r: u8)
    ensures
        (r == 0) <==> (results.spec_issue_count() == 0),
{
    let issues = results.issue_count();
    if issues == 0 {
        0
    } else {
        1
    }
}

} // verus!
