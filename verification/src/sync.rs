//! The orchestrator: one synchronization run.
//!
//! A run opens (or initializes) the store, scans the working directory,
//! stages and commits what changed, then fetches, integrates and pushes.
//! The first failing stage aborts the rest and its failure is surfaced
//! unchanged; on success the run reports how many entries changed locally.

use vstd::prelude::*;

use crate::errors::SyncError;
use crate::remote::SyncConfig;
use crate::remote::remote_post;
use crate::remote::sync_with_remote;
use crate::repo::World;
use crate::scan::change_count;
use crate::scan::scan_records;
use crate::scan::scan;
use crate::stage::message_spec;
use crate::stage::stage_and_commit;
use crate::stage::staged_tree;
use crate::stage::tip_seq;

verus! {

/// The store as `run` sees it after opening: on the very first run the
/// metadata is created in place, so opening never fails.
pub open spec fn opened(w: World) -> World {
    World { initialized: true, ..w }
}

/// How the local commit phase relates the opened store `w1` to the store
/// `wm` it leaves behind: the scanned change count decides whether a
/// commit is recorded, and nothing but index, store and tip ever moves.
pub open spec fn commit_post(w1: World, wm: World) -> bool {
    let n = change_count(scan_records(w1));
    &&& wm.wf()
    &&& wm.clean_index()
    &&& wm.work == w1.work
    &&& wm.ignored == w1.ignored
    &&& wm.conflicts == w1.conflicts
    &&& wm.remote == w1.remote
    &&& wm.initialized == w1.initialized
    &&& (n == 0 ==> wm == w1)
    &&& (n > 0 ==> {
        &&& wm.index@ == staged_tree(w1)
        &&& wm.commits@ == w1.commits@.push(wm.commits@.last())
        &&& wm.commits@.last().parents@ == tip_seq(w1.tip)
        &&& wm.commits@.last().tree.entries@ == wm.index.entries@
        &&& wm.commits@.last().message@ == message_spec(n)
        &&& wm.tip == Some(w1.commits@.len() as u64)
    })
}

/// Everything `run` guarantees: how the store it leaves behind and its
/// outcome follow from the store it was given.
pub open spec fn run_post(
    w: World,
    c: SyncConfig,
    w2: World,
    r: Result<usize, SyncError>,
) -> bool {
    let w1 = opened(w);
    if w.conflicts@.len() > 0 {
        w2 == w1 && (match r {
            Err(SyncError::UnresolvedConflict(ps)) => ps@ == w.conflicts@,
            _ => false,
        })
    } else {
        let n = change_count(scan_records(w1));
        exists|wm: World|
            {
                &&& #[trigger] commit_post(w1, wm)
                &&& match r {
                    Ok(k) => k == n && remote_post(wm, c, w2, Ok(())),
                    Err(e) => remote_post(wm, c, w2, Err(e)),
                }
            }
    }
}

/// One synchronization run over the store rooted at the journal directory:
/// open or initialize, scan, stage and commit, fetch, integrate, push.
/// Any stage's failure aborts the rest and is surfaced unchanged; on
/// success the locally changed entry count is returned, 0 when only the
/// remote moved.
pub fn run(w: &mut World, cfg: &SyncConfig) -> (r: Result<usize, SyncError>)
    requires
        old(w).wf(),
        old(w).clean_index(),
    ensures
        final(w).wf(),
        final(w).clean_index(),
        run_post(*old(w), *cfg, *final(w), r),
{
    w.initialized = true;
    proof {
        assert(*w == opened(*old(w)));
    }
    let recs = match scan(w) {
        Ok(recs) => recs,
        Err(e) => {
            return Err(e);
        },
    };
    let n = stage_and_commit(w, &recs);
    let ghost wm = *w;
    match sync_with_remote(w, cfg) {
        Ok(()) => {
            proof {
                assert(commit_post(opened(*old(w)), wm));
            }
            Ok(n)
        },
        Err(e) => {
            proof {
                assert(commit_post(opened(*old(w)), wm));
            }
            Err(e)
        },
    }
}

} // verus!
