//! Staging scanned changes and committing them.
//!
//! Every new or modified path is written into the index, every deleted path
//! is taken out, and nothing else is touched. When at least one change was
//! staged, the index is frozen into an immutable snapshot and recorded as a
//! commit whose parent is the current branch tip; the tip then advances.
//! With nothing to stage the store is left exactly as it was.

use vstd::prelude::*;

use crate::digits::dec_spec;
use crate::digits::to_decimal;
use crate::fileset::FileEntry;
use crate::fileset::entries_map;
use crate::fileset::lemma_entries_map_contains;
use crate::fileset::lemma_entries_map_index;
use crate::repo::CommitData;
use crate::repo::World;
use crate::repo::store_ok;
use crate::repo::tip_ok;
use crate::scan::ChangeRecord;
use crate::scan::ChangeStatus;
use crate::scan::change_count;
use crate::scan::deleted_records;
use crate::scan::head_entries;
use crate::scan::ignored_spec;
use crate::scan::scan_records;
use crate::scan::status_for;
use crate::scan::work_records;

verus! {

/// The tree that staging the scanned changes leaves in the index: the
/// working directory, without untracked ignored files.
pub open spec fn staged_tree(w: World) -> Map<Seq<char>, Seq<char>> {
    Map::new(
        |p: Seq<char>|
            w.work@.contains_key(p) && (w.head_tree().contains_key(p) || !ignored_spec(
                w.ignored@,
                p,
            )),
        |p: Seq<char>| w.work@[p],
    )
}

/// What one record does to the index.
pub open spec fn apply_one(
    m: Map<Seq<char>, Seq<char>>,
    work: Map<Seq<char>, Seq<char>>,
    r: ChangeRecord,
) -> Map<Seq<char>, Seq<char>> {
    if r.status is New || r.status is Modified {
        m.insert(r.path@, work[r.path@])
    } else if r.status is Deleted {
        m.remove(r.path@)
    } else {
        m
    }
}

/// What a sequence of records does to the index, applied left to right.
pub open spec fn apply_records(
    m: Map<Seq<char>, Seq<char>>,
    work: Map<Seq<char>, Seq<char>>,
    rs: Seq<ChangeRecord>,
) -> Map<Seq<char>, Seq<char>>
    decreases rs.len(),
{
    if rs.len() == 0 {
        m
    } else {
        apply_one(apply_records(m, work, rs.drop_last()), work, rs.last())
    }
}

/// A path no changing record names is left exactly as it was.
pub proof fn lemma_apply_untouched(
    m: Map<Seq<char>, Seq<char>>,
    work: Map<Seq<char>, Seq<char>>,
    rs: Seq<ChangeRecord>,
    p: Seq<char>,
)
    requires
        forall|k: int|
            0 <= k < rs.len() ==> !((#[trigger] rs[k]).path@ == p && rs[k].status.spec_is_change()),
    ensures
        apply_records(m, work, rs).contains_key(p) == m.contains_key(p),
        m.contains_key(p) ==> apply_records(m, work, rs)[p] == m[p],
    decreases rs.len(),
{
    if rs.len() > 0 {
        assert(rs[rs.len() - 1] == rs.last());
        lemma_apply_untouched(m, work, rs.drop_last(), p);
    }
}

/// The last changing record that names a path decides what the index holds
/// there afterwards.
pub proof fn lemma_apply_touched(
    m: Map<Seq<char>, Seq<char>>,
    work: Map<Seq<char>, Seq<char>>,
    rs: Seq<ChangeRecord>,
    p: Seq<char>,
    k: int,
)
    requires
        0 <= k < rs.len(),
        rs[k].path@ == p,
        rs[k].status.spec_is_change(),
        forall|k2: int| k < k2 < rs.len() ==> (#[trigger] rs[k2]).path@ != p,
    ensures
        (rs[k].status is New || rs[k].status is Modified) ==> apply_records(
            m,
            work,
            rs,
        ).contains_key(p) && apply_records(m, work, rs)[p] == work[p],
        rs[k].status is Deleted ==> !apply_records(m, work, rs).contains_key(p),
    decreases rs.len(),
{
    if k == rs.len() - 1 {
        assert(rs.last() == rs[k]);
    } else {
        assert(rs.last() == rs[rs.len() - 1]);
        assert(rs[rs.len() - 1].path@ != p);
        assert forall|k2: int| k < k2 < rs.drop_last().len() implies (#[trigger] rs.drop_last()[k2]).path@
            != p by {
            assert(rs.drop_last()[k2] == rs[k2]);
        }
        assert(rs.drop_last()[k] == rs[k]);
        lemma_apply_touched(m, work, rs.drop_last(), p, k);
    }
}

/// Every deletion record stands for a committed path that is gone from the
/// working directory.
pub proof fn lemma_deleted_records_props(
    work: Map<Seq<char>, Seq<char>>,
    ts: Seq<FileEntry>,
)
    ensures
        forall|k: int|
            0 <= k < deleted_records(work, ts).len() ==> {
                let r = #[trigger] deleted_records(work, ts)[k];
                r.status is Deleted && !work.contains_key(r.path@) && exists|j: int|
                    0 <= j < ts.len() && ts[j].path@ == r.path@
            },
    decreases ts.len(),
{
    if ts.len() > 0 {
        lemma_deleted_records_props(work, ts.drop_last());
        let dr = deleted_records(work, ts);
        let rest = deleted_records(work, ts.drop_last());
        assert forall|k: int| 0 <= k < dr.len() implies {
            let r = #[trigger] dr[k];
            r.status is Deleted && !work.contains_key(r.path@) && exists|j: int|
                0 <= j < ts.len() && ts[j].path@ == r.path@
        } by {
            if k < rest.len() {
                assert(dr[k] == rest[k]);
                let j = choose|j: int| 0 <= j < ts.drop_last().len() && ts.drop_last()[j].path@
                    == rest[k].path@;
                assert(ts[j].path@ == dr[k].path@);
            } else {
                assert(!work.contains_key(ts.last().path@));
                assert(ts[ts.len() - 1].path@ == dr[k].path@);
            }
        }
    }
}

/// Every committed path that is gone from the working directory has a
/// deletion record.
pub proof fn lemma_deleted_records_covers(
    work: Map<Seq<char>, Seq<char>>,
    ts: Seq<FileEntry>,
    j: int,
)
    requires
        0 <= j < ts.len(),
        !work.contains_key(ts[j].path@),
    ensures
        exists|k: int|
            0 <= k < deleted_records(work, ts).len() && (#[trigger] deleted_records(work, ts)[k]).path@
                == ts[j].path@,
    decreases ts.len(),
{
    let dr = deleted_records(work, ts);
    let rest = deleted_records(work, ts.drop_last());
    if j == ts.len() - 1 {
        assert(dr[dr.len() - 1].path@ == ts[j].path@);
    } else {
        assert(ts.drop_last()[j] == ts[j]);
        lemma_deleted_records_covers(work, ts.drop_last(), j);
        let k = choose|k: int| 0 <= k < rest.len() && rest[k].path@ == ts[j].path@;
        assert(dr[k].path@ == ts[j].path@);
    }
}

/// Staging the scan's records on a clean index yields exactly the staged
/// tree.
pub proof fn lemma_apply_scan(w: World)
    requires
        w.wf(),
        w.clean_index(),
    ensures
        apply_records(w.index@, w.work@, scan_records(w)) == staged_tree(w),
{
    let rs = scan_records(w);
    let ws = w.work.entries@;
    let ts = head_entries(w);
    let head = w.head_tree();
    let wr = work_records(head, w.ignored@, ws);
    let dr = deleted_records(w.work@, ts);
    let out = apply_records(w.index@, w.work@, rs);
    lemma_deleted_records_props(w.work@, ts);
    assert(head == entries_map(ts)) by {
        match w.tip {
            Some(t) => {},
            None => {
                assert(entries_map(ts) =~= Map::<Seq<char>, Seq<char>>::empty());
            },
        }
    }
    assert forall|p: Seq<char>|
        #![trigger out.contains_key(p)]
        #![trigger staged_tree(w).contains_key(p)]
        (out.contains_key(p) == staged_tree(w).contains_key(p)) && (out.contains_key(p)
            ==> out[p] == staged_tree(w)[p]) by {
        lemma_entries_map_contains(ws, p);
        lemma_entries_map_contains(ts, p);
        if w.work@.contains_key(p) {
            let i = choose|i: int| 0 <= i < ws.len() && ws[i].path@ == p;
            lemma_entries_map_index(ws, i);
            assert(rs[i] == wr[i]);
            assert(rs[i].path@ == p);
            assert(rs[i].status == status_for(head, w.ignored@, p, ws[i].content@));
            assert forall|k2: int| i < k2 < rs.len() implies (#[trigger] rs[k2]).path@ != p by {
                if k2 < wr.len() {
                    assert(rs[k2] == wr[k2]);
                    assert(ws[k2].path@ != p);
                } else {
                    assert(rs[k2] == dr[k2 - wr.len()]);
                }
            }
            if rs[i].status.spec_is_change() {
                lemma_apply_touched(w.index@, w.work@, rs, p, i);
            } else {
                assert forall|k: int|
                    0 <= k < rs.len() implies !((#[trigger] rs[k]).path@ == p
                    && rs[k].status.spec_is_change()) by {
                    if k < wr.len() {
                        assert(rs[k] == wr[k]);
                        if ws[k].path@ == p {
                            assert(k == i);
                        }
                    } else {
                        assert(rs[k] == dr[k - wr.len()]);
                    }
                }
                lemma_apply_untouched(w.index@, w.work@, rs, p);
            }
        } else {
            if head.contains_key(p) {
                let j = choose|j: int| 0 <= j < ts.len() && ts[j].path@ == p;
                lemma_deleted_records_covers(w.work@, ts, j);
                let k = choose|k: int| 0 <= k < dr.len() && dr[k].path@ == p;
                let ki = wr.len() + k;
                assert(rs[ki] == dr[k]);
                assert forall|k2: int| ki < k2 < rs.len() implies (#[trigger] rs[k2]).path@
                    != p by {
                    assert(rs[k2] == dr[k2 - wr.len()]);
                    let r2 = dr[k2 - wr.len()];
                    let j1 = choose|j1: int| 0 <= j1 < ts.len() && ts[j1].path@ == dr[k].path@;
                    if r2.path@ == p {
                        lemma_deleted_same_source(w.work@, ts, k, k2 - wr.len());
                    }
                }
                lemma_apply_touched(w.index@, w.work@, rs, p, ki as int);
            } else {
                assert forall|k: int|
                    0 <= k < rs.len() implies !((#[trigger] rs[k]).path@ == p
                    && rs[k].status.spec_is_change()) by {
                    if k < wr.len() {
                        assert(rs[k] == wr[k]);
                        assert(ws[k].path@ != p);
                    } else {
                        assert(rs[k] == dr[k - wr.len()]);
                    }
                }
                lemma_apply_untouched(w.index@, w.work@, rs, p);
            }
        }
    }
    assert(out =~= staged_tree(w));
}

/// The summary recorded with each commit.
pub open spec fn message_spec(n: nat) -> Seq<char> {
    "Add/update "@ + dec_spec(n) + " files"@
}

/// The human-readable summary for a commit that stages `n` changes.
pub fn commit_message(n: usize) -> (r: String)
    ensures
        r@ == message_spec(n as nat),
{
    proof {
        reveal_strlit("Add/update ");
        reveal_strlit(" files");
    }
    let d = to_decimal(n);
    String::from_str("Add/update ").concat(d.as_str()).concat(" files")
}

/// The parent list a new commit gets from the current tip.
pub open spec fn tip_seq(t: Option<u64>) -> Seq<u64> {
    match t {
        Some(c) => seq![c],
        None => Seq::empty(),
    }
}

/// Stage every change the scan reported and, if there was at least one,
/// record the snapshot as a new commit and advance the branch tip. With
/// nothing staged the store is untouched. On the model store, staging and
/// committing cannot fail; a driver of a real backend reports its own
/// failures as `StageError` or `CommitError`.
pub fn stage_and_commit(w: &mut World, recs: &Vec<ChangeRecord>) -> (n: usize)
    requires
        old(w).wf(),
        old(w).clean_index(),
        recs@ == scan_records(*old(w)),
    ensures
        n == change_count(scan_records(*old(w))),
        final(w).wf(),
        final(w).clean_index(),
        final(w).work == old(w).work,
        final(w).ignored == old(w).ignored,
        final(w).conflicts == old(w).conflicts,
        final(w).remote == old(w).remote,
        final(w).initialized == old(w).initialized,
        n == 0 ==> *final(w) == *old(w),
        n > 0 ==> {
            &&& final(w).index@ == staged_tree(*old(w))
            &&& final(w).commits@ == old(w).commits@.push(final(w).commits@.last())
            &&& final(w).commits@.last().parents@ == tip_seq(old(w).tip)
            &&& final(w).commits@.last().tree.entries@ == final(w).index.entries@
            &&& final(w).commits@.last().message@ == message_spec(n as nat)
            &&& final(w).tip == Some(old(w).commits@.len() as u64)
        },
{
    let total = recs.len();
    let mut count: usize = 0;
    let mut i: usize = 0;
    while i < total
        invariant
            old(w).wf(),
            old(w).clean_index(),
            recs@ == scan_records(*old(w)),
            total == recs@.len(),
            0 <= i <= total,
            count <= i,
            count as int == change_count(recs@.take(i as int)),
            count == 0 ==> w.index == old(w).index,
            w.index.wf(),
            w.index@ == apply_records(old(w).index@, old(w).work@, recs@.take(i as int)),
            *w == (World { index: w.index, ..*old(w) }),
        decreases total - i,
    {
        let r = &recs[i];
        proof {
            assert(recs@.take(i as int + 1).drop_last() =~= recs@.take(i as int));
            assert(recs@.take(i as int + 1).last() == recs@[i as int]);
        }
        if r.status.is_change() {
            match r.status {
                ChangeStatus::Deleted => {
                    w.index.remove(&r.path);
                },
                _ => {
                    proof {
                        lemma_changing_in_work(*old(w), i as int);
                    }
                    let c: String = match w.work.get(&r.path) {
                        Some(c) => c.clone(),
                        None => String::new(),
                    };
                    w.index.set(r.path.clone(), c);
                },
            }
            count = count + 1;
        }
        i = i + 1;
    }
    proof {
        assert(recs@.take(total as int) =~= recs@);
        lemma_apply_scan(*old(w));
    }
    if count == 0 {
        proof {
            assert(*w == *old(w));
        }
        return 0;
    }
    let parents: Vec<u64> = match w.tip {
        Some(t) => vec![t],
        None => Vec::new(),
    };
    let tree = w.index.snapshot();
    let message = commit_message(count);
    let new_id: u64 = w.commits.len() as u64;
    proof {
        assert(parents@ == tip_seq(old(w).tip));
    }
    w.commits.push(CommitData { parents, tree, message });
    w.tip = Some(new_id);
    proof {
        assert(w.commits@.last().tree.entries@ == w.index.entries@);
        assert(store_ok(w.commits@));
        assert(w.head_tree() == entries_map(w.index.entries@));
    }
    count
}

/// A new or modified record always names a working-directory path.
pub proof fn lemma_changing_in_work(w: World, i: int)
    requires
        w.wf(),
        0 <= i < scan_records(w).len(),
        scan_records(w)[i].status is New || scan_records(w)[i].status is Modified,
    ensures
        w.work@.contains_key(scan_records(w)[i].path@),
{
    let rs = scan_records(w);
    let wr = work_records(w.head_tree(), w.ignored@, w.work.entries@);
    let dr = deleted_records(w.work@, head_entries(w));
    lemma_deleted_records_props(w.work@, head_entries(w));
    if i < wr.len() {
        assert(rs[i] == wr[i]);
        lemma_entries_map_contains(w.work.entries@, w.work.entries@[i].path@);
    } else {
        assert(rs[i] == dr[i - wr.len()]);
    }
}

/// Two distinct deletion records never name the same path.
pub proof fn lemma_deleted_same_source(
    work: Map<Seq<char>, Seq<char>>,
    ts: Seq<FileEntry>,
    k1: int,
    k2: int,
)
    requires
        crate::fileset::distinct_paths(ts),
        0 <= k1 < k2 < deleted_records(work, ts).len(),
    ensures
        deleted_records(work, ts)[k1].path@ != deleted_records(work, ts)[k2].path@,
    decreases ts.len(),
{
    let dr = deleted_records(work, ts);
    let rest = deleted_records(work, ts.drop_last());
    lemma_deleted_records_props(work, ts.drop_last());
    if k2 < rest.len() {
        lemma_deleted_same_source(work, ts.drop_last(), k1, k2);
    } else {
        assert(dr[k2].path@ == ts[ts.len() - 1].path@);
        assert(dr[k1] == rest[k1]);
        let j = choose|j: int| 0 <= j < ts.drop_last().len() && ts.drop_last()[j].path@
            == rest[k1].path@;
        assert(ts[j].path@ == dr[k1].path@);
    }
}

} // verus!
