//! Turning classified records into staging instructions.
//!
//! A driver of a real backend gets its path classifications from the
//! backend, hands them in as records, and receives back exactly what to
//! stage: which paths to add, which to remove, and the change count — or
//! the refusal to proceed while any path is conflicted.

use vstd::prelude::*;

use crate::errors::SyncError;
use crate::scan::ChangeRecord;
use crate::scan::ChangeStatus;
use crate::scan::change_count;

verus! {

/// What staging must do, in record order.
pub struct StagingPlan {
    /// Paths whose working-directory content goes into the index.
    pub adds: Vec<String>,
    /// Paths that leave the index.
    pub removes: Vec<String>,
    /// How many records staged anything.
    pub count: usize,
}

/// The conflicted paths among the records, in record order.
pub open spec fn conflicted_paths(rs: Seq<ChangeRecord>) -> Seq<String>
    decreases rs.len(),
{
    if rs.len() == 0 {
        Seq::empty()
    } else {
        let rest = conflicted_paths(rs.drop_last());
        if rs.last().status is Conflicted {
            rest.push(rs.last().path)
        } else {
            rest
        }
    }
}

/// The new and modified paths among the records, in record order.
pub open spec fn add_paths(rs: Seq<ChangeRecord>) -> Seq<String>
    decreases rs.len(),
{
    if rs.len() == 0 {
        Seq::empty()
    } else {
        let rest = add_paths(rs.drop_last());
        if rs.last().status is New || rs.last().status is Modified {
            rest.push(rs.last().path)
        } else {
            rest
        }
    }
}

/// The deleted paths among the records, in record order.
pub open spec fn remove_paths(rs: Seq<ChangeRecord>) -> Seq<String>
    decreases rs.len(),
{
    if rs.len() == 0 {
        Seq::empty()
    } else {
        let rest = remove_paths(rs.drop_last());
        if rs.last().status is Deleted {
            rest.push(rs.last().path)
        } else {
            rest
        }
    }
}

/// Decide what to stage: refuse to work while any path is conflicted,
/// otherwise list the additions and removals and count the changes.
pub fn plan_changes(records: &Vec<ChangeRecord>) -> (r: Result<StagingPlan, SyncError>)
    ensures
        match r {
            Ok(p) => {
                &&& conflicted_paths(records@).len() == 0
                &&& p.adds@ == add_paths(records@)
                &&& p.removes@ == remove_paths(records@)
                &&& p.count == change_count(records@)
            },
            Err(e) => match e {
                SyncError::UnresolvedConflict(ps) => ps@ == conflicted_paths(records@)
                    && ps@.len() > 0,
                _ => false,
            },
        },
{
    let n = records.len();
    let mut adds: Vec<String> = Vec::new();
    let mut removes: Vec<String> = Vec::new();
    let mut confl: Vec<String> = Vec::new();
    let mut count: usize = 0;
    let mut i: usize = 0;
    while i < n
        invariant
            n == records@.len(),
            0 <= i <= n,
            count <= i,
            adds@ == add_paths(records@.take(i as int)),
            removes@ == remove_paths(records@.take(i as int)),
            confl@ == conflicted_paths(records@.take(i as int)),
            count as int == change_count(records@.take(i as int)),
        decreases n - i,
    {
        let rec = &records[i];
        proof {
            assert(records@.take(i as int + 1).drop_last() =~= records@.take(i as int));
            assert(records@.take(i as int + 1).last() == records@[i as int]);
        }
        match rec.status {
            ChangeStatus::New => {
                adds.push(rec.path.clone());
                count = count + 1;
            },
            ChangeStatus::Modified => {
                adds.push(rec.path.clone());
                count = count + 1;
            },
            ChangeStatus::Deleted => {
                removes.push(rec.path.clone());
                count = count + 1;
            },
            ChangeStatus::Conflicted => {
                confl.push(rec.path.clone());
            },
            _ => {},
        }
        i = i + 1;
    }
    proof {
        assert(records@.take(n as int) =~= records@);
    }
    if confl.len() > 0 {
        return Err(SyncError::UnresolvedConflict(confl));
    }
    Ok(StagingPlan { adds, removes, count })
}

} // verus!
