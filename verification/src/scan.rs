//! Scanning the working directory for changes.
//!
//! Every path of the working directory is classified against the last
//! committed tree and the ignore list; every committed path that is gone
//! from the working directory yields a deletion record. Paths left in
//! conflict by an earlier failed merge abort the scan: the engine never
//! resolves a conflict on its own.

use vstd::prelude::*;

use crate::errors::SyncError;
use crate::fileset::FileEntry;
use crate::fileset::FileSet;
use crate::fileset::lemma_entries_map_contains;
use crate::fileset::lemma_entries_map_index;
use crate::repo::World;

verus! {

/// How one path stands relative to the last committed snapshot.
#[derive(Clone, Copy, PartialEq, Eq, Structural, Debug)]
pub enum ChangeStatus {
    New,
    Modified,
    Deleted,
    Unmodified,
    Ignored,
    Conflicted,
}

/// One scanned path and its classification.
pub struct ChangeRecord {
    pub path: String,
    pub status: ChangeStatus,
}

impl ChangeStatus {
    /// Whether this status takes part in staging and in the change count.
    pub open spec fn spec_is_change(&self) -> bool {
        self is New || self is Modified || self is Deleted
    }

    /// Whether this status takes part in staging and in the change count.
    #[verifier::when_used_as_spec(spec_is_change)]
    pub fn is_change(&self) -> (r: bool)
        ensures
            r == self.spec_is_change(),
    {
        match self {
            ChangeStatus::New => true,
            ChangeStatus::Modified => true,
            ChangeStatus::Deleted => true,
            _ => false,
        }
    }
}

/// Whether a path is on the ignore list.
pub open spec fn ignored_spec(ig: Seq<String>, p: Seq<char>) -> bool {
    exists|i: int| 0 <= i < ig.len() && ig[i]@ == p
}

/// The classification of one working-directory path: tracked paths compare
/// content against the last commit; untracked paths are new unless ignored.
pub open spec fn status_for(
    head: Map<Seq<char>, Seq<char>>,
    ig: Seq<String>,
    p: Seq<char>,
    c: Seq<char>,
) -> ChangeStatus {
    if head.contains_key(p) {
        if head[p] == c {
            ChangeStatus::Unmodified
        } else {
            ChangeStatus::Modified
        }
    } else if ignored_spec(ig, p) {
        ChangeStatus::Ignored
    } else {
        ChangeStatus::New
    }
}

/// The records for the working-directory files, in directory order.
pub open spec fn work_records(
    head: Map<Seq<char>, Seq<char>>,
    ig: Seq<String>,
    ws: Seq<FileEntry>,
) -> Seq<ChangeRecord> {
    ws.map(
        |i: int, e: FileEntry|
            ChangeRecord { path: e.path, status: status_for(head, ig, e.path@, e.content@) },
    )
}

/// The deletion records: committed paths that are gone from the working
/// directory, in tree order.
pub open spec fn deleted_records(work: Map<Seq<char>, Seq<char>>, ts: Seq<FileEntry>) -> Seq<
    ChangeRecord,
>
    decreases ts.len(),
{
    if ts.len() == 0 {
        Seq::empty()
    } else {
        let rest = deleted_records(work, ts.drop_last());
        if work.contains_key(ts.last().path@) {
            rest
        } else {
            rest.push(ChangeRecord { path: ts.last().path, status: ChangeStatus::Deleted })
        }
    }
}

/// The committed tree's entries, in tree order; empty when there is no
/// commit yet.
pub open spec fn head_entries(w: World) -> Seq<FileEntry> {
    match w.tip {
        Some(t) => w.commits@[t as int].tree.entries@,
        None => Seq::empty(),
    }
}

/// Everything one scan reports, in a fixed order: the working directory
/// first, then the deletions.
pub open spec fn scan_records(w: World) -> Seq<ChangeRecord> {
    work_records(w.head_tree(), w.ignored@, w.work.entries@) + deleted_records(
        w.work@,
        head_entries(w),
    )
}

/// How many records stage a change.
pub open spec fn change_count(rs: Seq<ChangeRecord>) -> nat
    decreases rs.len(),
{
    if rs.len() == 0 {
        0
    } else {
        change_count(rs.drop_last()) + if rs.last().status.spec_is_change() {
            1nat
        } else {
            0nat
        }
    }
}

/// Whether a string equal to `p` occurs in `v`.
pub fn contains_string(v: &Vec<String>, p: &String) -> (r: bool)
    ensures
        r == ignored_spec(v@, p@),
{
    let n = v.len();
    let mut i: usize = 0;
    while i < n
        invariant
            n == v@.len(),
            0 <= i <= n,
            forall|k: int| 0 <= k < i ==> v@[k]@ != p@,
        decreases n - i,
    {
        if v[i] == *p {
            return true;
        }
        i = i + 1;
    }
    false
}

/// An owned copy of a vector of strings.
pub fn clone_strings(v: &Vec<String>) -> (r: Vec<String>)
    ensures
        r@ == v@,
{
    let n = v.len();
    let mut out: Vec<String> = Vec::new();
    let mut i: usize = 0;
    while i < n
        invariant
            n == v@.len(),
            0 <= i <= n,
            out@ =~= v@.take(i as int),
        decreases n - i,
    {
        out.push(v[i].clone());
        proof {
            assert(out@ =~= v@.take(i as int + 1));
        }
        i = i + 1;
    }
    proof {
        assert(out@ =~= v@);
    }
    out
}

/// Walk the working directory and classify every path, or refuse to work
/// while conflicted paths remain.
pub fn scan(w: &World) -> (r: Result<Vec<ChangeRecord>, SyncError>)
    requires
        w.wf(),
    ensures
        match r {
            Ok(recs) => w.conflicts@.len() == 0 && recs@ == scan_records(*w),
            Err(e) => w.conflicts@.len() > 0 && (match e {
                SyncError::UnresolvedConflict(ps) => ps@ == w.conflicts@,
                _ => false,
            }),
        },
{
    if w.conflicts.len() > 0 {
        return Err(SyncError::UnresolvedConflict(clone_strings(&w.conflicts)));
    }
    let head: Option<&FileSet> = match &w.tip {
        Some(t) => {
            let total = w.commits.len();
            let tu: usize = *t as usize;
            assert(tu as int == *t as int);
            Some(&w.commits[tu].tree)
        },
        None => None,
    };
    proof {
        match head {
            Some(fs) => {
                assert(fs.entries@ == head_entries(*w));
                assert(fs@ == w.head_tree());
            },
            None => {
                assert(head_entries(*w) =~= Seq::<FileEntry>::empty());
                assert(w.head_tree() =~= Map::<Seq<char>, Seq<char>>::empty());
            },
        }
    }
    let mut recs: Vec<ChangeRecord> = Vec::new();
    let wn = w.work.entries.len();
    let mut i: usize = 0;
    while i < wn
        invariant
            w.wf(),
            wn == w.work.entries@.len(),
            0 <= i <= wn,
            match head {
                Some(fs) => fs.entries@ == head_entries(*w) && fs@ == w.head_tree() && fs.wf(),
                None => w.head_tree() == Map::<Seq<char>, Seq<char>>::empty(),
            },
            recs@ =~= work_records(w.head_tree(), w.ignored@, w.work.entries@.take(i as int)),
        decreases wn - i,
    {
        let e = &w.work.entries[i];
        let looked: Option<&String> = match head {
            Some(fs) => fs.get(&e.path),
            None => None,
        };
        let status: ChangeStatus = match looked {
            Some(c) => if *c == e.content {
                ChangeStatus::Unmodified
            } else {
                ChangeStatus::Modified
            },
            None => if contains_string(&w.ignored, &e.path) {
                ChangeStatus::Ignored
            } else {
                ChangeStatus::New
            },
        };
        proof {
            assert(status == status_for(w.head_tree(), w.ignored@, e.path@, e.content@));
        }
        recs.push(ChangeRecord { path: e.path.clone(), status });
        proof {
            assert(recs@ =~= work_records(
                w.head_tree(),
                w.ignored@,
                w.work.entries@.take(i as int + 1),
            ));
        }
        i = i + 1;
    }
    proof {
        assert(w.work.entries@.take(wn as int) =~= w.work.entries@);
    }
    let ghost work_part = work_records(w.head_tree(), w.ignored@, w.work.entries@);
    if let Some(fs) = head {
        let tn = fs.entries.len();
        let mut j: usize = 0;
        while j < tn
            invariant
                w.wf(),
                w.work.wf(),
                tn == fs.entries@.len(),
                0 <= j <= tn,
                recs@ =~= work_part + deleted_records(w.work@, fs.entries@.take(j as int)),
            decreases tn - j,
        {
            let te = &fs.entries[j];
            if !w.work.contains_path(&te.path) {
                recs.push(ChangeRecord { path: te.path.clone(), status: ChangeStatus::Deleted });
            }
            proof {
                assert(fs.entries@.take(j as int + 1).drop_last() =~= fs.entries@.take(j as int));
                assert(recs@ =~= work_part + deleted_records(
                    w.work@,
                    fs.entries@.take(j as int + 1),
                ));
            }
            j = j + 1;
        }
        proof {
            assert(fs.entries@.take(tn as int) =~= fs.entries@);
            assert(recs@ =~= scan_records(*w));
        }
    } else {
        proof {
            assert(deleted_records(w.work@, head_entries(*w)) =~= Seq::<ChangeRecord>::empty());
            assert(recs@ =~= scan_records(*w));
        }
    }
    Ok(recs)
}

} // verus!
