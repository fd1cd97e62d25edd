//! What holds of every synchronization run.
//!
//! Each law is stated against `run_post`, the full contract of `run`, so it
//! holds of every store and configuration the engine accepts.

use vstd::prelude::*;

use crate::errors::SyncError;
use crate::fileset::entries_map;
use crate::fileset::lemma_entries_map_contains;
use crate::fileset::lemma_entries_map_index;
use crate::remote::IntegCase;
use crate::remote::SyncConfig;
use crate::remote::integ_case;
use crate::remote::remote_found;
use crate::repo::World;
use crate::scan::ChangeRecord;
use crate::scan::change_count;
use crate::scan::deleted_records;
use crate::scan::head_entries;
use crate::scan::ignored_spec;
use crate::scan::scan_records;
use crate::scan::work_records;
use crate::stage::lemma_deleted_records_props;
use crate::stage::staged_tree;
use crate::stage::tip_seq;
use crate::sync::commit_post;
use crate::sync::opened;
use crate::sync::run_post;

verus! {

/// A zero change count means no single record staged anything.
pub proof fn lemma_count_zero_all(rs: Seq<ChangeRecord>)
    requires
        change_count(rs) == 0,
    ensures
        forall|k: int| 0 <= k < rs.len() ==> !(#[trigger] rs[k]).status.spec_is_change(),
    decreases rs.len(),
{
    if rs.len() > 0 {
        lemma_count_zero_all(rs.drop_last());
        assert forall|k: int| 0 <= k < rs.len() implies !(#[trigger] rs[k]).status.spec_is_change()
            by {
            if k < rs.len() - 1 {
                assert(rs.drop_last()[k] == rs[k]);
            } else {
                assert(rs[k] == rs.last());
            }
        }
    }
}

/// When no record stages anything, the change count is zero.
pub proof fn lemma_all_nonchange_count_zero(rs: Seq<ChangeRecord>)
    requires
        forall|k: int| 0 <= k < rs.len() ==> !(#[trigger] rs[k]).status.spec_is_change(),
    ensures
        change_count(rs) == 0,
    decreases rs.len(),
{
    if rs.len() > 0 {
        assert(rs[rs.len() - 1] == rs.last());
        assert forall|k: int|
            0 <= k < rs.drop_last().len() implies !(#[trigger] rs.drop_last()[k]).status.spec_is_change() by {
            assert(rs.drop_last()[k] == rs[k]);
        }
        lemma_all_nonchange_count_zero(rs.drop_last());
    }
}

/// A store whose working directory already agrees with its last commit,
/// up to ignored untracked files, scans to a zero change count.
pub proof fn lemma_scan_zero(w: World)
    requires
        w.wf(),
        forall|p: Seq<char>| #[trigger] w.head_tree().contains_key(p) ==> w.work@.contains_key(p),
        forall|p: Seq<char>| #[trigger] w.work@.contains_key(p) ==> (w.head_tree().contains_key(p)
            && w.head_tree()[p] == w.work@[p]) || (!w.head_tree().contains_key(p) && ignored_spec(
            w.ignored@,
            p,
        )),
    ensures
        change_count(scan_records(w)) == 0,
{
    let rs = scan_records(w);
    let ws = w.work.entries@;
    let ts = head_entries(w);
    let wr = work_records(w.head_tree(), w.ignored@, ws);
    let dr = deleted_records(w.work@, ts);
    lemma_deleted_records_props(w.work@, ts);
    assert(w.head_tree() == entries_map(ts)) by {
        match w.tip {
            Some(t) => {},
            None => {
                assert(entries_map(ts) =~= Map::<Seq<char>, Seq<char>>::empty());
            },
        }
    }
    assert(dr.len() == 0) by {
        if dr.len() > 0 {
            let r0 = dr[0];
            lemma_entries_map_contains(ts, r0.path@);
        }
    }
    assert forall|k: int| 0 <= k < rs.len() implies !(#[trigger] rs[k]).status.spec_is_change()
        by {
        assert(rs[k] == wr[k]);
        let e = ws[k];
        lemma_entries_map_contains(ws, e.path@);
        lemma_entries_map_index(ws, k);
        assert(w.work@.contains_key(e.path@));
    }
    lemma_all_nonchange_count_zero(rs);
}

/// Two stores that agree on history, tip, working directory and ignore
/// list scan identically.
pub proof fn lemma_scan_same(a: World, b: World)
    requires
        a.commits == b.commits,
        a.tip == b.tip,
        a.work == b.work,
        a.ignored == b.ignored,
    ensures
        scan_records(a) == scan_records(b),
        a.head_tree() == b.head_tree(),
{
    assert(a.head_tree() == b.head_tree());
    assert(head_entries(a) == head_entries(b));
}

/// With no local deltas and a remote that has not diverged, a successful
/// run reports zero changes and records no commit at all.
pub proof fn lemma_quiet_run_adds_no_commit(
    w: World,
    c: SyncConfig,
    w2: World,
    r: Result<usize, SyncError>,
)
    requires
        run_post(w, c, w2, r),
        w.conflicts@.len() == 0,
        change_count(scan_records(opened(w))) == 0,
        r is Ok,
        match w.remote {
            Some(rm) => integ_case(w.commits@, w.tip, rm.tip) != IntegCase::Merge,
            None => true,
        },
    ensures
        r == Ok::<usize, SyncError>(0),
        w2.commits == w.commits,
        w2.tip == w.tip || (match w.remote {
            Some(rm) => w2.tip == rm.tip,
            None => false,
        }),
{
    let w1 = opened(w);
    let wm = choose|wm: World|
        {
            &&& #[trigger] commit_post(w1, wm)
            &&& match r {
                Ok(k) => k == change_count(scan_records(w1)) && crate::remote::remote_post(
                    wm,
                    c,
                    w2,
                    Ok(()),
                ),
                Err(e) => crate::remote::remote_post(wm, c, w2, Err(e)),
            }
        };
    assert(wm == w1);
}

/// With local changes, no conflicts and no remote configured, a run
/// reports the scanned change count and records exactly one commit whose
/// parent is the prior tip.
pub proof fn lemma_local_commit_extends_tip(
    w: World,
    c: SyncConfig,
    w2: World,
    r: Result<usize, SyncError>,
)
    requires
        run_post(w, c, w2, r),
        w.conflicts@.len() == 0,
        change_count(scan_records(opened(w))) > 0,
        !remote_found(opened(w), c),
    ensures
        r == Ok::<usize, SyncError>(change_count(scan_records(opened(w))) as usize) || !(r is Ok),
        r is Ok ==> {
            &&& w2.commits@.len() == w.commits@.len() + 1
            &&& w2.commits@.last().parents@ == tip_seq(w.tip)
            &&& w2.tip == Some(w.commits@.len() as u64)
            &&& w2.index@ == staged_tree(opened(w))
        },
{
    let w1 = opened(w);
    if r is Ok {
        let wm = choose|wm: World|
            {
                &&& #[trigger] commit_post(w1, wm)
                &&& match r {
                    Ok(k) => k == change_count(scan_records(w1)) && crate::remote::remote_post(
                        wm,
                        c,
                        w2,
                        Ok(()),
                    ),
                    Err(e) => crate::remote::remote_post(wm, c, w2, Err(e)),
                }
            };
        assert(!remote_found(wm, c));
        assert(w2 == wm);
    }
}

/// After the commit phase the working directory agrees with the new head,
/// up to ignored untracked files.
pub proof fn lemma_post_commit_coherent(w1: World, wm: World)
    requires
        w1.wf(),
        w1.clean_index(),
        commit_post(w1, wm),
    ensures
        forall|p: Seq<char>| #[trigger] wm.head_tree().contains_key(p) ==> wm.work@.contains_key(
            p,
        ),
        forall|p: Seq<char>| #[trigger] wm.work@.contains_key(p) ==> (
        wm.head_tree().contains_key(p) && wm.head_tree()[p] == wm.work@[p]) || (
        !wm.head_tree().contains_key(p) && ignored_spec(wm.ignored@, p)),
{
    let n = change_count(scan_records(w1));
    let rs = scan_records(w1);
    let ws = w1.work.entries@;
    let ts = head_entries(w1);
    let wr = work_records(w1.head_tree(), w1.ignored@, ws);
    let dr = deleted_records(w1.work@, ts);
    assert(w1.head_tree() == entries_map(ts)) by {
        match w1.tip {
            Some(t) => {},
            None => {
                assert(entries_map(ts) =~= Map::<Seq<char>, Seq<char>>::empty());
            },
        }
    }
    if n == 0 {
        lemma_count_zero_all(rs);
        assert forall|p: Seq<char>| #[trigger] wm.head_tree().contains_key(
            p,
        ) implies wm.work@.contains_key(p) by {
            if !w1.work@.contains_key(p) {
                lemma_entries_map_contains(ts, p);
                let j = choose|j: int| 0 <= j < ts.len() && ts[j].path@ == p;
                crate::stage::lemma_deleted_records_covers(w1.work@, ts, j);
                lemma_deleted_records_props(w1.work@, ts);
                let kk = choose|kk: int| 0 <= kk < dr.len() && dr[kk].path@ == p;
                assert(rs[wr.len() + kk] == dr[kk]);
            }
        }
        assert forall|p: Seq<char>| #[trigger] wm.work@.contains_key(p) implies (
        wm.head_tree().contains_key(p) && wm.head_tree()[p] == wm.work@[p]) || (
        !wm.head_tree().contains_key(p) && ignored_spec(wm.ignored@, p)) by {
            lemma_entries_map_contains(ws, p);
            let i = choose|i: int| 0 <= i < ws.len() && ws[i].path@ == p;
            lemma_entries_map_index(ws, i);
            assert(rs[i] == wr[i]);
        }
    } else {
        assert(wm.head_tree() == wm.index@);
        assert(wm.index@ == staged_tree(w1));
        assert forall|p: Seq<char>| #[trigger] wm.work@.contains_key(p) implies (
        wm.head_tree().contains_key(p) && wm.head_tree()[p] == wm.work@[p]) || (
        !wm.head_tree().contains_key(p) && ignored_spec(wm.ignored@, p)) by {
            if w1.head_tree().contains_key(p) || !ignored_spec(w1.ignored@, p) {
                assert(staged_tree(w1).contains_key(p));
            } else {
                assert(!staged_tree(w1).contains_key(p));
            }
        }
    }
}

/// The working directory a successful run leaves behind scans to zero
/// changes: running again without touching the journal stages nothing and
/// commits nothing.
pub proof fn lemma_run_idempotent(w: World, c: SyncConfig, w2: World, k: usize)
    requires
        w.wf(),
        w.clean_index(),
        w2.wf(),
        run_post(w, c, w2, Ok::<usize, SyncError>(k)),
    ensures
        w2.conflicts@.len() == 0,
        change_count(scan_records(opened(w2))) == 0,
{
    let w1 = opened(w);
    let r = Ok::<usize, SyncError>(k);
    assert(w.conflicts@.len() == 0);
    let wm = choose|wm: World|
        {
            &&& #[trigger] commit_post(w1, wm)
            &&& match r {
                Ok(kk) => kk == change_count(scan_records(w1)) && crate::remote::remote_post(
                    wm,
                    c,
                    w2,
                    Ok(()),
                ),
                Err(e) => crate::remote::remote_post(wm, c, w2, Err(e)),
            }
        };
    assert(w1.wf() && w1.clean_index());
    lemma_post_commit_coherent(w1, wm);
    let o2 = opened(w2);
    assert(o2.wf());
    assert(o2.head_tree() == w2.head_tree());
    assert(scan_records(o2) == scan_records(w2));
    if !remote_found(wm, c) {
        assert(w2 == wm);
        lemma_scan_same(o2, wm);
        lemma_scan_zero(o2);
    } else {
        match wm.remote {
            None => {
                assert(false);
            },
            Some(rm0) => {
                let observed = rm0.tip;
                let cs = wm.commits@;
                match integ_case(cs, wm.tip, observed) {
                    IntegCase::Keep => {
                        lemma_scan_same(o2, wm);
                        lemma_scan_zero(o2);
                    },
                    IntegCase::FastForward => {
                        let rt = observed->0;
                        let t2 = crate::repo::tree_at(cs, observed);
                        let cur = crate::repo::tree_at(cs, wm.tip);
                        assert(cur == wm.head_tree());
                        assert(o2.head_tree() == t2);
                        assert(w2.work@ == crate::remote::checkout_spec(cur, t2, wm.work@));
                        assert forall|p: Seq<char>| #[trigger] o2.head_tree().contains_key(
                            p,
                        ) implies o2.work@.contains_key(p) by {}
                        assert forall|p: Seq<char>| #[trigger] o2.work@.contains_key(p) implies (
                        o2.head_tree().contains_key(p) && o2.head_tree()[p] == o2.work@[p]) || (
                        !o2.head_tree().contains_key(p) && ignored_spec(o2.ignored@, p)) by {
                            if !t2.contains_key(p) {
                                assert(wm.work@.contains_key(p) && !cur.contains_key(p));
                            }
                        }
                        lemma_scan_zero(o2);
                    },
                    IntegCase::Merge => {
                        let lt = wm.tip->0;
                        let rt = observed->0;
                        let bm = crate::remote::base_tree(cs, lt, rt);
                        let lm = crate::repo::tree_at(cs, wm.tip);
                        let rmm = crate::repo::tree_at(cs, observed);
                        let cps = crate::remote::merge_conflicts(
                            bm,
                            lm,
                            rmm,
                            cs[lt as int].tree.entries@,
                            cs[rt as int].tree.entries@,
                        );
                        assert(cps.len() == 0);
                        let mm = crate::remote::merged_map(bm, lm, rmm);
                        assert(lm == wm.head_tree());
                        vstd::std_specs::vec::axiom_spec_len(&wm.commits);
                        assert((cs.len() as u64) as int == cs.len() as int);
                        assert(w2.commits@[cs.len() as int] == w2.commits@.last());
                        assert(o2.head_tree() == entries_map(w2.commits@.last().tree.entries@));
                        assert(o2.head_tree() == w2.index@);
                        assert(o2.head_tree() == mm);
                        assert(w2.work@ == crate::remote::checkout_spec(lm, mm, wm.work@));
                        assert forall|p: Seq<char>| #[trigger] o2.head_tree().contains_key(
                            p,
                        ) implies o2.work@.contains_key(p) by {}
                        assert forall|p: Seq<char>| #[trigger] o2.work@.contains_key(p) implies (
                        o2.head_tree().contains_key(p) && o2.head_tree()[p] == o2.work@[p]) || (
                        !o2.head_tree().contains_key(p) && ignored_spec(o2.ignored@, p)) by {
                            if !mm.contains_key(p) {
                                assert(wm.work@.contains_key(p) && !lm.contains_key(p));
                            }
                        }
                        lemma_scan_zero(o2);
                    },
                }
            },
        }
    }
}

/// Pre-existing conflicts stop a run before it stages anything: the index,
/// the history and the tip are exactly as they were, and the failure lists
/// the conflicted paths.
pub proof fn lemma_conflicts_block_everything(
    w: World,
    c: SyncConfig,
    w2: World,
    r: Result<usize, SyncError>,
)
    requires
        run_post(w, c, w2, r),
        w.conflicts@.len() > 0,
    ensures
        match r {
            Err(SyncError::UnresolvedConflict(ps)) => ps@ == w.conflicts@,
            _ => false,
        },
        w2.index == w.index,
        w2.commits == w.commits,
        w2.tip == w.tip,
        w2.work == w.work,
{
}

/// With no remote configured, a run succeeds on the local commit alone and
/// touches no remote state.
pub proof fn lemma_no_remote_is_local_success(
    w: World,
    c: SyncConfig,
    w2: World,
    r: Result<usize, SyncError>,
)
    requires
        run_post(w, c, w2, r),
        w.conflicts@.len() == 0,
        !remote_found(opened(w), c),
    ensures
        r == Ok::<usize, SyncError>(change_count(scan_records(opened(w))) as usize),
        w2.remote == w.remote,
{
    let w1 = opened(w);
    let wm = choose|wm: World|
        {
            &&& #[trigger] commit_post(w1, wm)
            &&& match r {
                Ok(k) => k == change_count(scan_records(w1)) && crate::remote::remote_post(
                    wm,
                    c,
                    w2,
                    Ok(()),
                ),
                Err(e) => crate::remote::remote_post(wm, c, w2, Err(e)),
            }
        };
    assert(!remote_found(wm, c));
    match r {
        Ok(k) => {
            assert(w2 == wm);
        },
        Err(e) => {
            assert(false);
        },
    }
}

} // verus!
