//! Integrating remote history and pushing.
//!
//! After the local commit, the engine fetches the remote branch tip, relates
//! it to the local tip, and either does nothing (remote behind or equal),
//! fast-forwards, or three-way merges against the best common ancestor. The
//! merge is whole-file: a path both sides changed since the base, and not to
//! the same content, is a conflict, reported for manual resolution and never
//! resolved by guessing. A clean integration is pushed; a push the remote
//! rejects because it advanced after our fetch is reported as retryable.

use vstd::prelude::*;

use crate::fileset::FileEntry;
use crate::fileset::FileSet;
use crate::fileset::distinct_paths;
use crate::fileset::entries_map;
use crate::errors::SyncError;
use crate::fileset::lemma_entries_map_contains;
use crate::fileset::lemma_entries_map_index;
use crate::repo::CommitData;
use crate::repo::RemoteModel;
use crate::repo::World;
use crate::repo::is_ancestor;
use crate::repo::is_ancestor_of;
use crate::repo::merge_base;
use crate::repo::spec_merge_base;
use crate::repo::store_ok;
use crate::repo::tree_at;
use crate::scan::clone_strings;

verus! {

/// The defaults a run is configured with: which branch to synchronize,
/// which remote to use, and whether key material could be resolved.
pub struct SyncConfig {
    pub branch: String,
    pub remote_name: String,
    pub has_credentials: bool,
}

/// What a map holds at a path, if anything.
pub open spec fn opt_at(m: Map<Seq<char>, Seq<char>>, p: Seq<char>) -> Option<Seq<char>> {
    if m.contains_key(p) {
        Some(m[p])
    } else {
        None
    }
}

/// The three-way rule for one path: agreement wins, a side that did not
/// change since the base yields to the other, and two different changes
/// are a conflict (`None`).
pub open spec fn merge_cell(
    b: Option<Seq<char>>,
    l: Option<Seq<char>>,
    r: Option<Seq<char>>,
) -> Option<Option<Seq<char>>> {
    if l == r {
        Some(l)
    } else if l == b {
        Some(r)
    } else if r == b {
        Some(l)
    } else {
        None
    }
}

/// Whether the three-way rule reports a conflict at `p`.
pub open spec fn conflict_at(
    bm: Map<Seq<char>, Seq<char>>,
    lm: Map<Seq<char>, Seq<char>>,
    rm: Map<Seq<char>, Seq<char>>,
    p: Seq<char>,
) -> bool {
    merge_cell(opt_at(bm, p), opt_at(lm, p), opt_at(rm, p)) is None
}

/// The content the three-way rule leaves at `p`, when it does not conflict.
pub open spec fn cell_result(
    bm: Map<Seq<char>, Seq<char>>,
    lm: Map<Seq<char>, Seq<char>>,
    rm: Map<Seq<char>, Seq<char>>,
    p: Seq<char>,
) -> Option<Seq<char>> {
    match merge_cell(opt_at(bm, p), opt_at(lm, p), opt_at(rm, p)) {
        Some(v) => v,
        None => None,
    }
}

/// The conflict-free part of the merge, as a map.
pub open spec fn merged_map(
    bm: Map<Seq<char>, Seq<char>>,
    lm: Map<Seq<char>, Seq<char>>,
    rm: Map<Seq<char>, Seq<char>>,
) -> Map<Seq<char>, Seq<char>> {
    Map::new(
        |p: Seq<char>|
            (lm.contains_key(p) || rm.contains_key(p)) && !conflict_at(bm, lm, rm, p)
                && cell_result(bm, lm, rm, p) is Some,
        |p: Seq<char>|
            match cell_result(bm, lm, rm, p) {
                Some(c) => c,
                None => Seq::empty(),
            },
    )
}

/// The conflicting paths found while walking the local tree.
pub open spec fn conflicts_l(
    bm: Map<Seq<char>, Seq<char>>,
    lm: Map<Seq<char>, Seq<char>>,
    rm: Map<Seq<char>, Seq<char>>,
    ls: Seq<FileEntry>,
) -> Seq<String>
    decreases ls.len(),
{
    if ls.len() == 0 {
        Seq::empty()
    } else {
        let rest = conflicts_l(bm, lm, rm, ls.drop_last());
        if conflict_at(bm, lm, rm, ls.last().path@) {
            rest.push(ls.last().path)
        } else {
            rest
        }
    }
}

/// The conflicting paths found only in the remote tree.
pub open spec fn conflicts_r(
    bm: Map<Seq<char>, Seq<char>>,
    lm: Map<Seq<char>, Seq<char>>,
    rm: Map<Seq<char>, Seq<char>>,
    rs: Seq<FileEntry>,
) -> Seq<String>
    decreases rs.len(),
{
    if rs.len() == 0 {
        Seq::empty()
    } else {
        let rest = conflicts_r(bm, lm, rm, rs.drop_last());
        if !lm.contains_key(rs.last().path@) && conflict_at(bm, lm, rm, rs.last().path@) {
            rest.push(rs.last().path)
        } else {
            rest
        }
    }
}

/// Every conflicting path, local tree first, then the remote-only ones.
pub open spec fn merge_conflicts(
    bm: Map<Seq<char>, Seq<char>>,
    lm: Map<Seq<char>, Seq<char>>,
    rm: Map<Seq<char>, Seq<char>>,
    ls: Seq<FileEntry>,
    rs: Seq<FileEntry>,
) -> Seq<String> {
    conflicts_l(bm, lm, rm, ls) + conflicts_r(bm, lm, rm, rs)
}

/// The merge entries gathered while walking the local tree.
pub open spec fn merged_l_part(
    bm: Map<Seq<char>, Seq<char>>,
    rm: Map<Seq<char>, Seq<char>>,
    ls: Seq<FileEntry>,
) -> Map<Seq<char>, Seq<char>>
    decreases ls.len(),
{
    if ls.len() == 0 {
        Map::empty()
    } else {
        let m = merged_l_part(bm, rm, ls.drop_last());
        let p = ls.last().path@;
        match merge_cell(opt_at(bm, p), Some(ls.last().content@), opt_at(rm, p)) {
            Some(Some(c)) => m.insert(p, c),
            _ => m,
        }
    }
}

/// The merge entries gathered while walking the remote-only part, laid over
/// what the local walk produced.
pub open spec fn merged_r_over(
    m0: Map<Seq<char>, Seq<char>>,
    bm: Map<Seq<char>, Seq<char>>,
    lm: Map<Seq<char>, Seq<char>>,
    rs: Seq<FileEntry>,
) -> Map<Seq<char>, Seq<char>>
    decreases rs.len(),
{
    if rs.len() == 0 {
        m0
    } else {
        let m = merged_r_over(m0, bm, lm, rs.drop_last());
        let p = rs.last().path@;
        if !lm.contains_key(p) {
            match merge_cell(opt_at(bm, p), None, Some(rs.last().content@)) {
                Some(Some(c)) => m.insert(p, c),
                _ => m,
            }
        } else {
            m
        }
    }
}

/// What the local walk leaves at one path.
pub proof fn lemma_merged_l_at(
    bm: Map<Seq<char>, Seq<char>>,
    rm: Map<Seq<char>, Seq<char>>,
    ls: Seq<FileEntry>,
    p: Seq<char>,
)
    requires
        distinct_paths(ls),
    ensures
        (exists|i: int| 0 <= i < ls.len() && ls[i].path@ == p) ==> {
            let i = choose|i: int| 0 <= i < ls.len() && ls[i].path@ == p;
            match merge_cell(opt_at(bm, p), Some(ls[i].content@), opt_at(rm, p)) {
                Some(Some(c)) => merged_l_part(bm, rm, ls).contains_key(p) && merged_l_part(
                    bm,
                    rm,
                    ls,
                )[p] == c,
                _ => !merged_l_part(bm, rm, ls).contains_key(p),
            }
        },
        !(exists|i: int| 0 <= i < ls.len() && ls[i].path@ == p) ==> !merged_l_part(
            bm,
            rm,
            ls,
        ).contains_key(p),
    decreases ls.len(),
{
    if ls.len() > 0 {
        lemma_merged_l_at(bm, rm, ls.drop_last(), p);
        if ls.last().path@ == p {
            assert(ls[ls.len() - 1].path@ == p);
            assert forall|i: int| 0 <= i < ls.len() && ls[i].path@ == p implies i == ls.len()
                - 1 by {
                if i < ls.len() - 1 {
                    assert(ls[i].path@ != ls[ls.len() - 1].path@);
                }
            }
            assert(!(exists|i: int|
                0 <= i < ls.drop_last().len() && ls.drop_last()[i].path@ == p)) by {
                if exists|i: int| 0 <= i < ls.drop_last().len() && ls.drop_last()[i].path@ == p {
                    let i = choose|i: int|
                        0 <= i < ls.drop_last().len() && ls.drop_last()[i].path@ == p;
                    assert(ls[i].path@ == p);
                }
            }
        } else {
            if exists|i: int| 0 <= i < ls.len() && ls[i].path@ == p {
                let i = choose|i: int| 0 <= i < ls.len() && ls[i].path@ == p;
                assert(ls.drop_last()[i] == ls[i]);
            } else {
                assert(!(exists|i: int|
                    0 <= i < ls.drop_last().len() && ls.drop_last()[i].path@ == p)) by {
                    if exists|i: int|
                        0 <= i < ls.drop_last().len() && ls.drop_last()[i].path@ == p {
                        let i = choose|i: int|
                            0 <= i < ls.drop_last().len() && ls.drop_last()[i].path@ == p;
                        assert(ls[i].path@ == p);
                    }
                }
            }
        }
    }
}

/// What the remote-only walk leaves at one path.
pub proof fn lemma_merged_r_at(
    m0: Map<Seq<char>, Seq<char>>,
    bm: Map<Seq<char>, Seq<char>>,
    lm: Map<Seq<char>, Seq<char>>,
    rs: Seq<FileEntry>,
    p: Seq<char>,
)
    requires
        distinct_paths(rs),
    ensures
        (exists|i: int| 0 <= i < rs.len() && rs[i].path@ == p) && !lm.contains_key(p) ==> {
            let i = choose|i: int| 0 <= i < rs.len() && rs[i].path@ == p;
            match merge_cell(opt_at(bm, p), None, Some(rs[i].content@)) {
                Some(Some(c)) => merged_r_over(m0, bm, lm, rs).contains_key(p) && merged_r_over(
                    m0,
                    bm,
                    lm,
                    rs,
                )[p] == c,
                _ => merged_r_over(m0, bm, lm, rs).contains_key(p) == m0.contains_key(p) && (
                m0.contains_key(p) ==> merged_r_over(m0, bm, lm, rs)[p] == m0[p]),
            }
        },
        !((exists|i: int| 0 <= i < rs.len() && rs[i].path@ == p) && !lm.contains_key(p)) ==> (
        merged_r_over(m0, bm, lm, rs).contains_key(p) == m0.contains_key(p) && (m0.contains_key(p)
            ==> merged_r_over(m0, bm, lm, rs)[p] == m0[p])),
    decreases rs.len(),
{
    if rs.len() > 0 {
        lemma_merged_r_at(m0, bm, lm, rs.drop_last(), p);
        if rs.last().path@ == p {
            assert(rs[rs.len() - 1].path@ == p);
            assert forall|i: int| 0 <= i < rs.len() && rs[i].path@ == p implies i == rs.len()
                - 1 by {
                if i < rs.len() - 1 {
                    assert(rs[i].path@ != rs[rs.len() - 1].path@);
                }
            }
            assert(!(exists|i: int|
                0 <= i < rs.drop_last().len() && rs.drop_last()[i].path@ == p)) by {
                if exists|i: int| 0 <= i < rs.drop_last().len() && rs.drop_last()[i].path@ == p {
                    let i = choose|i: int|
                        0 <= i < rs.drop_last().len() && rs.drop_last()[i].path@ == p;
                    assert(rs[i].path@ == p);
                }
            }
        } else {
            if exists|i: int| 0 <= i < rs.len() && rs[i].path@ == p {
                let i = choose|i: int| 0 <= i < rs.len() && rs[i].path@ == p;
                assert(rs.drop_last()[i] == rs[i]);
            } else {
                assert(!(exists|i: int|
                    0 <= i < rs.drop_last().len() && rs.drop_last()[i].path@ == p)) by {
                    if exists|i: int|
                        0 <= i < rs.drop_last().len() && rs.drop_last()[i].path@ == p {
                        let i = choose|i: int|
                            0 <= i < rs.drop_last().len() && rs.drop_last()[i].path@ == p;
                        assert(rs[i].path@ == p);
                    }
                }
            }
        }
    }
}

/// The two walks together compute exactly the conflict-free merge.
pub proof fn lemma_merge_build(
    bm: Map<Seq<char>, Seq<char>>,
    ls: Seq<FileEntry>,
    rs: Seq<FileEntry>,
)
    requires
        distinct_paths(ls),
        distinct_paths(rs),
    ensures
        merged_r_over(merged_l_part(bm, entries_map(rs), ls), bm, entries_map(ls), rs)
            == merged_map(bm, entries_map(ls), entries_map(rs)),
{
    let lm = entries_map(ls);
    let rm = entries_map(rs);
    let m0 = merged_l_part(bm, rm, ls);
    let out = merged_r_over(m0, bm, lm, rs);
    let goal = merged_map(bm, lm, rm);
    assert forall|p: Seq<char>|
        #![trigger out.contains_key(p)]
        #![trigger goal.contains_key(p)]
        (out.contains_key(p) == goal.contains_key(p)) && (out.contains_key(p) ==> out[p]
            == goal[p]) by {
        lemma_entries_map_contains(ls, p);
        lemma_entries_map_contains(rs, p);
        lemma_merged_l_at(bm, rm, ls, p);
        lemma_merged_r_at(m0, bm, lm, rs, p);
        if lm.contains_key(p) {
            let i = choose|i: int| 0 <= i < ls.len() && ls[i].path@ == p;
            lemma_entries_map_index(ls, i);
            assert(opt_at(lm, p) == Some(ls[i].content@));
        } else if rm.contains_key(p) {
            let i = choose|i: int| 0 <= i < rs.len() && rs[i].path@ == p;
            lemma_entries_map_index(rs, i);
            assert(opt_at(rm, p) == Some(rs[i].content@));
            assert(opt_at(lm, p) is None);
        } else {
            assert(opt_at(lm, p) is None);
            assert(opt_at(rm, p) is None);
        }
    }
    assert(out =~= goal);
}

/// A conflicting path somewhere yields an entry in the conflict list.
pub proof fn lemma_conflicts_complete(
    bm: Map<Seq<char>, Seq<char>>,
    lm: Map<Seq<char>, Seq<char>>,
    rm: Map<Seq<char>, Seq<char>>,
    ls: Seq<FileEntry>,
    rs: Seq<FileEntry>,
    p: Seq<char>,
)
    requires
        lm == entries_map(ls),
        rm == entries_map(rs),
        conflict_at(bm, lm, rm, p),
        lm.contains_key(p) || rm.contains_key(p),
    ensures
        exists|k: int|
            0 <= k < merge_conflicts(bm, lm, rm, ls, rs).len() && (#[trigger] merge_conflicts(
                bm,
                lm,
                rm,
                ls,
                rs,
            )[k])@ == p,
{
    let cs = merge_conflicts(bm, lm, rm, ls, rs);
    if lm.contains_key(p) {
        lemma_entries_map_contains(ls, p);
        let i = choose|i: int| 0 <= i < ls.len() && ls[i].path@ == p;
        lemma_conflicts_l_covers(bm, lm, rm, ls, i);
        let k = choose|k: int|
            0 <= k < conflicts_l(bm, lm, rm, ls).len() && (#[trigger] conflicts_l(
                bm,
                lm,
                rm,
                ls,
            )[k])@ == p;
        assert(cs[k]@ == p);
    } else {
        lemma_entries_map_contains(rs, p);
        let i = choose|i: int| 0 <= i < rs.len() && rs[i].path@ == p;
        lemma_conflicts_r_covers(bm, lm, rm, rs, i);
        let k = choose|k: int|
            0 <= k < conflicts_r(bm, lm, rm, rs).len() && (#[trigger] conflicts_r(
                bm,
                lm,
                rm,
                rs,
            )[k])@ == p;
        assert(cs[conflicts_l(bm, lm, rm, ls).len() + k]@ == p);
    }
}

/// A conflicting local-tree path appears among the local conflicts.
pub proof fn lemma_conflicts_l_covers(
    bm: Map<Seq<char>, Seq<char>>,
    lm: Map<Seq<char>, Seq<char>>,
    rm: Map<Seq<char>, Seq<char>>,
    ls: Seq<FileEntry>,
    i: int,
)
    requires
        0 <= i < ls.len(),
        conflict_at(bm, lm, rm, ls[i].path@),
    ensures
        exists|k: int|
            0 <= k < conflicts_l(bm, lm, rm, ls).len() && (#[trigger] conflicts_l(
                bm,
                lm,
                rm,
                ls,
            )[k])@ == ls[i].path@,
    decreases ls.len(),
{
    let cl = conflicts_l(bm, lm, rm, ls);
    if i == ls.len() - 1 {
        assert(cl[cl.len() - 1]@ == ls[i].path@);
    } else {
        assert(ls.drop_last()[i] == ls[i]);
        lemma_conflicts_l_covers(bm, lm, rm, ls.drop_last(), i);
        let rest = conflicts_l(bm, lm, rm, ls.drop_last());
        let k = choose|k: int| 0 <= k < rest.len() && (#[trigger] rest[k])@ == ls[i].path@;
        assert(cl[k]@ == ls[i].path@);
    }
}

/// A conflicting remote-only path appears among the remote conflicts.
pub proof fn lemma_conflicts_r_covers(
    bm: Map<Seq<char>, Seq<char>>,
    lm: Map<Seq<char>, Seq<char>>,
    rm: Map<Seq<char>, Seq<char>>,
    rs: Seq<FileEntry>,
    i: int,
)
    requires
        0 <= i < rs.len(),
        !lm.contains_key(rs[i].path@),
        conflict_at(bm, lm, rm, rs[i].path@),
    ensures
        exists|k: int|
            0 <= k < conflicts_r(bm, lm, rm, rs).len() && (#[trigger] conflicts_r(
                bm,
                lm,
                rm,
                rs,
            )[k])@ == rs[i].path@,
    decreases rs.len(),
{
    let cr = conflicts_r(bm, lm, rm, rs);
    if i == rs.len() - 1 {
        assert(cr[cr.len() - 1]@ == rs[i].path@);
    } else {
        assert(rs.drop_last()[i] == rs[i]);
        lemma_conflicts_r_covers(bm, lm, rm, rs.drop_last(), i);
        let rest = conflicts_r(bm, lm, rm, rs.drop_last());
        let k = choose|k: int| 0 <= k < rest.len() && (#[trigger] rest[k])@ == rs[i].path@;
        assert(cr[k]@ == rs[i].path@);
    }
}

/// Every listed conflict is a real one.
pub proof fn lemma_conflicts_sound(
    bm: Map<Seq<char>, Seq<char>>,
    lm: Map<Seq<char>, Seq<char>>,
    rm: Map<Seq<char>, Seq<char>>,
    ls: Seq<FileEntry>,
    rs: Seq<FileEntry>,
)
    ensures
        forall|k: int|
            0 <= k < merge_conflicts(bm, lm, rm, ls, rs).len() ==> conflict_at(
                bm,
                lm,
                rm,
                (#[trigger] merge_conflicts(bm, lm, rm, ls, rs)[k])@,
            ),
{
    lemma_conflicts_l_sound(bm, lm, rm, ls);
    lemma_conflicts_r_sound(bm, lm, rm, rs);
    let cl = conflicts_l(bm, lm, rm, ls);
    let cr = conflicts_r(bm, lm, rm, rs);
    assert forall|k: int| 0 <= k < merge_conflicts(bm, lm, rm, ls, rs).len() implies conflict_at(
        bm,
        lm,
        rm,
        (#[trigger] merge_conflicts(bm, lm, rm, ls, rs)[k])@,
    ) by {
        if k < cl.len() {
            assert(merge_conflicts(bm, lm, rm, ls, rs)[k] == cl[k]);
        } else {
            assert(merge_conflicts(bm, lm, rm, ls, rs)[k] == cr[k - cl.len()]);
        }
    }
}

/// Three-way merge of whole files: walk the local tree, then the
/// remote-only paths, deciding each path by the three-way rule; collect
/// the conflicting paths in walk order.
pub fn merge_trees(base: &FileSet, l: &FileSet, r: &FileSet) -> (out: (FileSet, Vec<String>))
    requires
        base.wf(),
        l.wf(),
        r.wf(),
    ensures
        out.1@ == merge_conflicts(base@, l@, r@, l.entries@, r.entries@),
        out.0.wf(),
        out.0@ == merged_map(base@, l@, r@),
{
    let ghost bm = base@;
    let ghost lm = l@;
    let ghost rm = r@;
    let mut merged = FileSet::new();
    let mut confl: Vec<String> = Vec::new();
    let ln = l.entries.len();
    let mut i: usize = 0;
    while i < ln
        invariant
            base.wf(),
            l.wf(),
            r.wf(),
            bm == base@,
            lm == l@,
            rm == r@,
            ln == l.entries@.len(),
            0 <= i <= ln,
            merged.wf(),
            merged@ == merged_l_part(bm, rm, l.entries@.take(i as int)),
            confl@ == conflicts_l(bm, lm, rm, l.entries@.take(i as int)),
        decreases ln - i,
    {
        let e = &l.entries[i];
        let ghost p = e.path@;
        proof {
            lemma_entries_map_index(l.entries@, i as int);
            assert(opt_at(lm, p) == Some(e.content@));
            assert(l.entries@.take(i as int + 1).drop_last() =~= l.entries@.take(i as int));
            assert(l.entries@.take(i as int + 1).last() == l.entries@[i as int]);
        }
        let ro = r.get(&e.path);
        let bo = base.get(&e.path);
        proof {
            match ro {
                Some(rc) => assert(opt_at(rm, p) == Some(rc@)),
                None => assert(opt_at(rm, p) is None),
            }
            match bo {
                Some(bc) => assert(opt_at(bm, p) == Some(bc@)),
                None => assert(opt_at(bm, p) is None),
            }
        }
        let lr_eq = match ro {
            Some(rc) => *rc == e.content,
            None => false,
        };
        let lb_eq = match bo {
            Some(bc) => *bc == e.content,
            None => false,
        };
        let rb_eq = match (ro, bo) {
            (Some(rc), Some(bc)) => *rc == *bc,
            (None, None) => true,
            _ => false,
        };
        let ghost cell = merge_cell(opt_at(bm, p), Some(e.content@), opt_at(rm, p));
        if lr_eq {
            proof {
                assert(cell == Some(Some(e.content@)));
            }
            merged.set(e.path.clone(), e.content.clone());
        } else if lb_eq {
            match ro {
                Some(rc) => {
                    proof {
                        assert(cell == Some(Some(rc@)));
                    }
                    merged.set(e.path.clone(), rc.clone());
                },
                None => {
                    proof {
                        assert(cell == Some(Option::<Seq<char>>::None));
                    }
                },
            }
        } else if rb_eq {
            proof {
                assert(cell == Some(Some(e.content@)));
            }
            merged.set(e.path.clone(), e.content.clone());
        } else {
            proof {
                assert(cell is None);
            }
            confl.push(e.path.clone());
            proof {
                assert(confl@ =~= conflicts_l(bm, lm, rm, l.entries@.take(i as int + 1)));
            }
        }
        i = i + 1;
    }
    proof {
        assert(l.entries@.take(ln as int) =~= l.entries@);
    }
    let ghost part_l = merged_l_part(bm, rm, l.entries@);
    let ghost confl_l = conflicts_l(bm, lm, rm, l.entries@);
    let rn = r.entries.len();
    let mut j: usize = 0;
    while j < rn
        invariant
            base.wf(),
            l.wf(),
            r.wf(),
            bm == base@,
            lm == l@,
            rm == r@,
            rn == r.entries@.len(),
            0 <= j <= rn,
            merged.wf(),
            merged@ == merged_r_over(part_l, bm, lm, r.entries@.take(j as int)),
            confl@ == confl_l + conflicts_r(bm, lm, rm, r.entries@.take(j as int)),
        decreases rn - j,
    {
        let e = &r.entries[j];
        let ghost p = e.path@;
        proof {
            lemma_entries_map_index(r.entries@, j as int);
            assert(r.entries@.take(j as int + 1).drop_last() =~= r.entries@.take(j as int));
            assert(r.entries@.take(j as int + 1).last() == r.entries@[j as int]);
        }
        if !l.contains_path(&e.path) {
            let bo = base.get(&e.path);
            proof {
                match bo {
                    Some(bc) => assert(opt_at(bm, p) == Some(bc@)),
                    None => assert(opt_at(bm, p) is None),
                }
            }
            let ghost cell = merge_cell(opt_at(bm, p), None, Some(e.content@));
            let rb_eq = match bo {
                Some(bc) => *bc == e.content,
                None => false,
            };
            if bo.is_none() {
                proof {
                    assert(cell == Some(Some(e.content@)));
                }
                merged.set(e.path.clone(), e.content.clone());
            } else if rb_eq {
                proof {
                    assert(cell == Some(Option::<Seq<char>>::None));
                }
            } else {
                proof {
                    assert(cell is None);
                }
                confl.push(e.path.clone());
                proof {
                    assert(confl@ =~= confl_l + conflicts_r(
                        bm,
                        lm,
                        rm,
                        r.entries@.take(j as int + 1),
                    ));
                }
            }
        }
        j = j + 1;
    }
    proof {
        assert(r.entries@.take(rn as int) =~= r.entries@);
        lemma_merge_build(bm, l.entries@, r.entries@);
    }
    (merged, confl)
}

/// What the working directory looks like after the branch moves to a new
/// tree: every tracked path takes the new tree's content, a path only the
/// old tree held disappears, and untracked files are left alone.
pub open spec fn checkout_spec(
    cur: Map<Seq<char>, Seq<char>>,
    newt: Map<Seq<char>, Seq<char>>,
    work: Map<Seq<char>, Seq<char>>,
) -> Map<Seq<char>, Seq<char>> {
    Map::new(
        |p: Seq<char>|
            newt.contains_key(p) || (work.contains_key(p) && !cur.contains_key(p)),
        |p: Seq<char>|
            if newt.contains_key(p) {
                newt[p]
            } else {
                work[p]
            },
    )
}

/// The untracked leftovers laid over the new tree.
pub open spec fn co_over(
    m0: Map<Seq<char>, Seq<char>>,
    cur: Map<Seq<char>, Seq<char>>,
    newt: Map<Seq<char>, Seq<char>>,
    ws: Seq<FileEntry>,
) -> Map<Seq<char>, Seq<char>>
    decreases ws.len(),
{
    if ws.len() == 0 {
        m0
    } else {
        let m = co_over(m0, cur, newt, ws.drop_last());
        let p = ws.last().path@;
        if !newt.contains_key(p) && !cur.contains_key(p) {
            m.insert(p, ws.last().content@)
        } else {
            m
        }
    }
}

/// Laying the leftovers of a well-formed working directory over the new
/// tree computes the checkout.
pub proof fn lemma_co_build(
    cur: Map<Seq<char>, Seq<char>>,
    newt: Map<Seq<char>, Seq<char>>,
    ws: Seq<FileEntry>,
)
    requires
        distinct_paths(ws),
    ensures
        co_over(newt, cur, newt, ws) == checkout_spec(cur, newt, entries_map(ws)),
    decreases ws.len(),
{
    let work = entries_map(ws);
    let out = co_over(newt, cur, newt, ws);
    let goal = checkout_spec(cur, newt, work);
    assert forall|p: Seq<char>|
        #![trigger out.contains_key(p)]
        #![trigger goal.contains_key(p)]
        (out.contains_key(p) == goal.contains_key(p)) && (out.contains_key(p) ==> out[p]
            == goal[p]) by {
        lemma_entries_map_contains(ws, p);
        lemma_co_at(newt, cur, newt, ws, p);
        if work.contains_key(p) {
            let i = choose|i: int| 0 <= i < ws.len() && ws[i].path@ == p;
            lemma_entries_map_index(ws, i);
        }
    }
    assert(out =~= goal);
}

/// What laying the leftovers leaves at one path.
pub proof fn lemma_co_at(
    m0: Map<Seq<char>, Seq<char>>,
    cur: Map<Seq<char>, Seq<char>>,
    newt: Map<Seq<char>, Seq<char>>,
    ws: Seq<FileEntry>,
    p: Seq<char>,
)
    requires
        distinct_paths(ws),
    ensures
        (exists|i: int| 0 <= i < ws.len() && ws[i].path@ == p) && !newt.contains_key(p)
            && !cur.contains_key(p) ==> {
            let i = choose|i: int| 0 <= i < ws.len() && ws[i].path@ == p;
            co_over(m0, cur, newt, ws).contains_key(p) && co_over(m0, cur, newt, ws)[p]
                == ws[i].content@
        },
        !((exists|i: int| 0 <= i < ws.len() && ws[i].path@ == p) && !newt.contains_key(p)
            && !cur.contains_key(p)) ==> (co_over(m0, cur, newt, ws).contains_key(p)
            == m0.contains_key(p) && (m0.contains_key(p) ==> co_over(m0, cur, newt, ws)[p]
            == m0[p])),
    decreases ws.len(),
{
    if ws.len() > 0 {
        lemma_co_at(m0, cur, newt, ws.drop_last(), p);
        if ws.last().path@ == p {
            assert(ws[ws.len() - 1].path@ == p);
            assert forall|i: int| 0 <= i < ws.len() && ws[i].path@ == p implies i == ws.len()
                - 1 by {
                if i < ws.len() - 1 {
                    assert(ws[i].path@ != ws[ws.len() - 1].path@);
                }
            }
            assert(!(exists|i: int|
                0 <= i < ws.drop_last().len() && ws.drop_last()[i].path@ == p)) by {
                if exists|i: int| 0 <= i < ws.drop_last().len() && ws.drop_last()[i].path@ == p {
                    let i = choose|i: int|
                        0 <= i < ws.drop_last().len() && ws.drop_last()[i].path@ == p;
                    assert(ws[i].path@ == p);
                }
            }
        } else {
            if exists|i: int| 0 <= i < ws.len() && ws[i].path@ == p {
                let i = choose|i: int| 0 <= i < ws.len() && ws[i].path@ == p;
                assert(ws.drop_last()[i] == ws[i]);
            } else {
                assert(!(exists|i: int|
                    0 <= i < ws.drop_last().len() && ws.drop_last()[i].path@ == p)) by {
                    if exists|i: int|
                        0 <= i < ws.drop_last().len() && ws.drop_last()[i].path@ == p {
                        let i = choose|i: int|
                            0 <= i < ws.drop_last().len() && ws.drop_last()[i].path@ == p;
                        assert(ws[i].path@ == p);
                    }
                }
            }
        }
    }
}

/// Move the working directory onto a new tree, keeping untracked files.
pub fn checkout(newt: &FileSet, cur: &FileSet, work: &FileSet) -> (out: FileSet)
    requires
        newt.wf(),
        cur.wf(),
        work.wf(),
    ensures
        out.wf(),
        out@ == checkout_spec(cur@, newt@, work@),
{
    let mut out = FileSet::new();
    let nn = newt.entries.len();
    let mut i: usize = 0;
    while i < nn
        invariant
            newt.wf(),
            nn == newt.entries@.len(),
            0 <= i <= nn,
            out.wf(),
            out@ == entries_map(newt.entries@.take(i as int)),
        decreases nn - i,
    {
        let e = &newt.entries[i];
        proof {
            assert(newt.entries@.take(i as int + 1).drop_last() =~= newt.entries@.take(i as int));
            assert(newt.entries@.take(i as int + 1).last() == newt.entries@[i as int]);
        }
        out.set(e.path.clone(), e.content.clone());
        i = i + 1;
    }
    proof {
        assert(newt.entries@.take(nn as int) =~= newt.entries@);
    }
    let wn = work.entries.len();
    let mut j: usize = 0;
    while j < wn
        invariant
            newt.wf(),
            cur.wf(),
            work.wf(),
            wn == work.entries@.len(),
            0 <= j <= wn,
            out.wf(),
            out@ == co_over(newt@, cur@, newt@, work.entries@.take(j as int)),
        decreases wn - j,
    {
        let e = &work.entries[j];
        proof {
            assert(work.entries@.take(j as int + 1).drop_last() =~= work.entries@.take(j as int));
            assert(work.entries@.take(j as int + 1).last() == work.entries@[j as int]);
        }
        if !newt.contains_path(&e.path) && !cur.contains_path(&e.path) {
            out.set(e.path.clone(), e.content.clone());
        }
        j = j + 1;
    }
    proof {
        assert(work.entries@.take(wn as int) =~= work.entries@);
        lemma_co_build(cur@, newt@, work.entries@);
    }
    out
}

/// Whether a remote with the configured name exists.
pub open spec fn remote_found(w: World, c: SyncConfig) -> bool {
    match w.remote {
        Some(rm) => rm.name@ == c.remote_name@,
        None => false,
    }
}

/// What the integration step does, given how the two tips relate.
#[derive(Clone, Copy, PartialEq, Eq, Structural, Debug)]
pub enum IntegCase {
    /// The remote is behind or equal, or has nothing: keep the local tip.
    Keep,
    /// The local tip is an ancestor of the remote tip: fast-forward.
    FastForward,
    /// The histories diverged: a three-way merge is needed.
    Merge,
}

/// Relate the local and the fetched remote tip.
pub open spec fn integ_case(cs: Seq<CommitData>, l: Option<u64>, r: Option<u64>) -> IntegCase {
    match r {
        None => IntegCase::Keep,
        Some(rt) => match l {
            None => IntegCase::FastForward,
            Some(lt) => if is_ancestor(cs, rt as int, lt as int) {
                IntegCase::Keep
            } else if is_ancestor(cs, lt as int, rt as int) {
                IntegCase::FastForward
            } else {
                IntegCase::Merge
            },
        },
    }
}

/// The remote tip as it stands right after our fetch: the concurrent
/// commit, if one was about to land, has landed.
pub open spec fn fetched_tip(rm: RemoteModel) -> Option<u64> {
    match rm.incoming {
        Some(x) => Some(x),
        None => rm.tip,
    }
}

/// Whether the remote accepts a push of tip `t` while it stands at `rtip`.
pub open spec fn push_ok(cs: Seq<CommitData>, rtip: Option<u64>, t: Option<u64>) -> bool {
    match rtip {
        None => true,
        Some(rt2) => match t {
            Some(tt) => is_ancestor(cs, rt2 as int, tt as int),
            None => false,
        },
    }
}

/// The tree of the merge base of two commits; disjoint histories merge
/// against the empty tree.
pub open spec fn base_tree(cs: Seq<CommitData>, lt: u64, rt: u64) -> Map<Seq<char>, Seq<char>> {
    match spec_merge_base(cs, lt as int, rt as int) {
        Some(k) => entries_map(cs[k].tree.entries@),
        None => Map::<Seq<char>, Seq<char>>::empty(),
    }
}

/// The summary recorded with a merge commit.
pub open spec fn merge_message_spec() -> Seq<char> {
    "Merge remote history"@
}

/// The summary recorded with a merge commit.
pub fn merge_message() -> (r: String)
    ensures
        r@ == merge_message_spec(),
{
    proof {
        reveal_strlit("Merge remote history");
    }
    String::from_str("Merge remote history")
}

/// How the remote phase relates the store before it (`w0`, already
/// committed locally) to the store after it (`w2`) and its outcome.
pub open spec fn remote_post(w0: World, c: SyncConfig, w2: World, r: Result<(), SyncError>) -> bool {
    if !remote_found(w0, c) {
        w2 == w0 && r == Ok::<(), SyncError>(())
    } else {
        match w0.remote {
            None => false,
            Some(rm0) => if !rm0.reachable {
                w2 == w0 && r == Err::<(), SyncError>(SyncError::NetworkError)
            } else if rm0.needs_key && !c.has_credentials {
                w2 == w0 && r == Err::<(), SyncError>(SyncError::AuthError)
            } else {
                let observed = rm0.tip;
                let rtip = fetched_tip(rm0);
                let cs = w0.commits@;
                match integ_case(cs, w0.tip, observed) {
                    IntegCase::Keep => {
                        &&& w2.commits == w0.commits
                        &&& w2.tip == w0.tip
                        &&& w2.index == w0.index
                        &&& w2.work == w0.work
                        &&& w2.ignored == w0.ignored
                        &&& w2.conflicts == w0.conflicts
                        &&& w2.initialized == w0.initialized
                        &&& pushed_post(cs, rm0, rtip, w0.tip, w2.remote, r)
                    },
                    IntegCase::FastForward => match observed {
                        None => false,
                        Some(rt) => {
                            &&& w2.commits == w0.commits
                            &&& w2.tip == observed
                            &&& w2.index.entries@ == cs[rt as int].tree.entries@
                            &&& w2.work.wf()
                            &&& w2.work@ == checkout_spec(
                                tree_at(cs, w0.tip),
                                tree_at(cs, observed),
                                w0.work@,
                            )
                            &&& w2.ignored == w0.ignored
                            &&& w2.conflicts == w0.conflicts
                            &&& w2.initialized == w0.initialized
                            &&& pushed_post(cs, rm0, rtip, observed, w2.remote, r)
                        },
                    },
                    IntegCase::Merge => match (w0.tip, observed) {
                        (Some(lt), Some(rt)) => {
                            let bm = base_tree(cs, lt, rt);
                            let lm = tree_at(cs, w0.tip);
                            let rmm = tree_at(cs, observed);
                            let cps = merge_conflicts(
                                bm,
                                lm,
                                rmm,
                                cs[lt as int].tree.entries@,
                                cs[rt as int].tree.entries@,
                            );
                            if cps.len() > 0 {
                                &&& (match r {
                                    Err(SyncError::MergeConflict(ps)) => ps@ == cps,
                                    _ => false,
                                })
                                &&& w2.conflicts@ == cps
                                &&& w2.commits == w0.commits
                                &&& w2.tip == w0.tip
                                &&& w2.index == w0.index
                                &&& w2.work == w0.work
                                &&& w2.ignored == w0.ignored
                                &&& w2.initialized == w0.initialized
                                &&& w2.remote == Some(
                                    RemoteModel { tip: rtip, incoming: None, ..rm0 },
                                )
                            } else {
                                &&& w2.commits@ == cs.push(w2.commits@.last())
                                &&& w2.commits@.last().parents@ == seq![lt, rt]
                                &&& w2.commits@.last().tree.entries@ == w2.index.entries@
                                &&& w2.commits@.last().message@ == merge_message_spec()
                                &&& w2.tip == Some(cs.len() as u64)
                                &&& w2.index@ == merged_map(bm, lm, rmm)
                                &&& w2.index.wf()
                                &&& w2.work.wf()
                                &&& w2.work@ == checkout_spec(lm, merged_map(bm, lm, rmm), w0.work@)
                                &&& w2.ignored == w0.ignored
                                &&& w2.conflicts == w0.conflicts
                                &&& w2.initialized == w0.initialized
                                &&& pushed_post(
                                    w2.commits@,
                                    rm0,
                                    rtip,
                                    Some(cs.len() as u64),
                                    w2.remote,
                                    r,
                                )
                            }
                        },
                        _ => false,
                    },
                }
            },
        }
    }
}

/// How the push step ends: accepted, the remote now holds our tip; or
/// rejected because the remote advanced after our fetch.
pub open spec fn pushed_post(
    cs: Seq<CommitData>,
    rm0: RemoteModel,
    rtip: Option<u64>,
    t: Option<u64>,
    remote2: Option<RemoteModel>,
    r: Result<(), SyncError>,
) -> bool {
    if push_ok(cs, rtip, t) {
        r == Ok::<(), SyncError>(()) && remote2 == Some(
            RemoteModel { tip: t, incoming: None, ..rm0 },
        )
    } else {
        r == Err::<(), SyncError>(SyncError::NonFastForward) && remote2 == Some(
            RemoteModel { tip: rtip, incoming: None, ..rm0 },
        )
    }
}

/// Fetch from the configured remote if it exists, integrate what it holds,
/// and push the result. Skipping a missing remote is success, not failure.
pub fn sync_with_remote(w: &mut World, cfg: &SyncConfig) -> (r: Result<(), SyncError>)
    requires
        old(w).wf(),
    ensures
        final(w).wf(),
        remote_post(*old(w), *cfg, *final(w), r),
        old(w).clean_index() ==> final(w).clean_index(),
{
    let found: bool = match &w.remote {
        Some(rm) => rm.name == cfg.remote_name,
        None => false,
    };
    if !found {
        return Ok(());
    }
    let (observed, incoming, reachable, needs_key): (Option<u64>, Option<u64>, bool, bool) =
        match &w.remote {
        Some(rm) => (rm.tip, rm.incoming, rm.reachable, rm.needs_key),
        None => (None, None, false, false),
    };
    if !reachable {
        return Err(SyncError::NetworkError);
    }
    if needs_key && !cfg.has_credentials {
        return Err(SyncError::AuthError);
    }
    let rtip: Option<u64> = match incoming {
        Some(x) => Some(x),
        None => observed,
    };
    match &mut w.remote {
        Some(rm) => {
            rm.tip = rtip;
            rm.incoming = None;
        },
        None => {},
    }
    let empty = FileSet::new();
    match observed {
        None => {},
        Some(rt) => {
            let total = w.commits.len();
            let rtu: usize = rt as usize;
            assert(rtu as int == rt as int);
            match w.tip {
                None => {
                    let new_index = w.commits[rtu].tree.snapshot();
                    let new_work = checkout(&w.commits[rtu].tree, &empty, &w.work);
                    w.index = new_index;
                    w.work = new_work;
                    w.tip = Some(rt);
                },
                Some(lt) => {
                    let ltu: usize = lt as usize;
                    assert(ltu as int == lt as int);
                    if is_ancestor_of(&w.commits, rt, lt) {
                        // remote behind or equal: keep
                    } else if is_ancestor_of(&w.commits, lt, rt) {
                        let new_index = w.commits[rtu].tree.snapshot();
                        let new_work = checkout(
                            &w.commits[rtu].tree,
                            &w.commits[ltu].tree,
                            &w.work,
                        );
                        w.index = new_index;
                        w.work = new_work;
                        w.tip = Some(rt);
                    } else {
                        let base_opt = merge_base(&w.commits, lt, rt);
                        let base_fs: &FileSet = match &base_opt {
                            Some(k) => {
                                let ku: usize = *k as usize;
                                assert(ku as int == *k as int);
                                &w.commits[ku].tree
                            },
                            None => &empty,
                        };
                        let (merged, confl) = merge_trees(
                            base_fs,
                            &w.commits[ltu].tree,
                            &w.commits[rtu].tree,
                        );
                        if confl.len() > 0 {
                            let ps = clone_strings(&confl);
                            w.conflicts = confl;
                            return Err(SyncError::MergeConflict(ps));
                        }
                        let new_work = checkout(&merged, &w.commits[ltu].tree, &w.work);
                        let tree = merged.snapshot();
                        let message = merge_message();
                        let parents: Vec<u64> = vec![lt, rt];
                        let new_id: u64 = w.commits.len() as u64;
                        w.commits.push(CommitData { parents, tree, message });
                        w.tip = Some(new_id);
                        w.index = merged;
                        w.work = new_work;
                    }
                },
            }
        },
    }
    let t = w.tip;
    let ok: bool = match rtip {
        None => true,
        Some(rt2) => match t {
            Some(tt) => {
                let total = w.commits.len();
                is_ancestor_of(&w.commits, rt2, tt)
            },
            None => false,
        },
    };
    if ok {
        match &mut w.remote {
            Some(rm) => {
                rm.tip = t;
            },
            None => {},
        }
        Ok(())
    } else {
        Err(SyncError::NonFastForward)
    }
}

proof fn lemma_conflicts_l_sound(
    bm: Map<Seq<char>, Seq<char>>,
    lm: Map<Seq<char>, Seq<char>>,
    rm: Map<Seq<char>, Seq<char>>,
    ls: Seq<FileEntry>,
)
    ensures
        forall|k: int|
            0 <= k < conflicts_l(bm, lm, rm, ls).len() ==> conflict_at(
                bm,
                lm,
                rm,
                (#[trigger] conflicts_l(bm, lm, rm, ls)[k])@,
            ),
    decreases ls.len(),
{
    if ls.len() > 0 {
        lemma_conflicts_l_sound(bm, lm, rm, ls.drop_last());
        let cl = conflicts_l(bm, lm, rm, ls);
        let rest = conflicts_l(bm, lm, rm, ls.drop_last());
        assert forall|k: int| 0 <= k < cl.len() implies conflict_at(
            bm,
            lm,
            rm,
            (#[trigger] cl[k])@,
        ) by {
            if k < rest.len() {
                assert(cl[k] == rest[k]);
            } else {
                assert(cl[k] == ls.last().path);
            }
        }
    }
}

proof fn lemma_conflicts_r_sound(
    bm: Map<Seq<char>, Seq<char>>,
    lm: Map<Seq<char>, Seq<char>>,
    rm: Map<Seq<char>, Seq<char>>,
    rs: Seq<FileEntry>,
)
    ensures
        forall|k: int|
            0 <= k < conflicts_r(bm, lm, rm, rs).len() ==> conflict_at(
                bm,
                lm,
                rm,
                (#[trigger] conflicts_r(bm, lm, rm, rs)[k])@,
            ),
    decreases rs.len(),
{
    if rs.len() > 0 {
        lemma_conflicts_r_sound(bm, lm, rm, rs.drop_last());
        let cr = conflicts_r(bm, lm, rm, rs);
        let rest = conflicts_r(bm, lm, rm, rs.drop_last());
        assert forall|k: int| 0 <= k < cr.len() implies conflict_at(
            bm,
            lm,
            rm,
            (#[trigger] cr[k])@,
        ) by {
            if k < rest.len() {
                assert(cr[k] == rest[k]);
            } else {
                assert(cr[k] == rs.last().path);
            }
        }
    }
}

} // verus!
