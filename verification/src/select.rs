//! Choosing which entries to show.
//!
//! The directory listing arrives oldest first; the log shows the newest
//! entries first, the search keeps listing order and stops at the limit.

use vstd::prelude::*;

use crate::entry::Entry;
use crate::entry::matches_any;

verus! {

/// The entries that match any of the terms, in listing order.
pub open spec fn filter_matching(s: Seq<Entry>, terms: Seq<String>) -> Seq<Entry>
    decreases s.len(),
{
    if s.len() == 0 {
        Seq::empty()
    } else {
        let rest = filter_matching(s.drop_last(), terms);
        if matches_any(s.last(), terms) {
            rest.push(s.last())
        } else {
            rest
        }
    }
}

/// A sequence cut off at a limit, whole when it is short enough.
pub open spec fn take_at_most(s: Seq<Entry>, l: int) -> Seq<Entry> {
    if l < s.len() {
        s.take(l)
    } else {
        s
    }
}

/// The newest `limit` entries of an oldest-first listing, newest first.
pub fn select_recent(entries: &Vec<Entry>, limit: usize) -> (r: Vec<Entry>)
    ensures
        r@.len() == if (limit as int) < entries@.len() {
            limit as int
        } else {
            entries@.len() as int
        },
        forall|k: int| 0 <= k < r@.len() ==> r@[k] == entries@[entries@.len() - 1 - k],
{
    let n = entries.len();
    let count = if limit < n {
        limit
    } else {
        n
    };
    let mut out: Vec<Entry> = Vec::new();
    let mut k: usize = 0;
    while k < count
        invariant
            n == entries@.len(),
            count <= n,
            0 <= k <= count,
            out@.len() == k,
            forall|j: int| 0 <= j < k ==> out@[j] == entries@[n - 1 - j],
        decreases count - k,
    {
        out.push(entries[n - 1 - k].duplicate());
        k = k + 1;
    }
    out
}

/// The first `limit` entries that match any of the terms, in listing
/// order.
pub fn select_matching(entries: &Vec<Entry>, terms: &Vec<String>, limit: usize) -> (r: Vec<Entry>)
    ensures
        r@ == take_at_most(filter_matching(entries@, terms@), limit as int),
{
    let n = entries.len();
    let mut out: Vec<Entry> = Vec::new();
    let mut i: usize = 0;
    while i < n
        invariant
            n == entries@.len(),
            0 <= i <= n,
            out@.len() <= limit,
            out@ == take_at_most(filter_matching(entries@.take(i as int), terms@), limit as int),
        decreases n - i,
    {
        let ghost fi = filter_matching(entries@.take(i as int), terms@);
        let ghost fi1 = filter_matching(entries@.take(i as int + 1), terms@);
        proof {
            assert(entries@.take(i as int + 1).drop_last() =~= entries@.take(i as int));
            assert(entries@.take(i as int + 1).last() == entries@[i as int]);
        }
        if entries[i].contains_any(terms) {
            if out.len() < limit {
                proof {
                    assert(out@ == fi);
                    assert(fi1 == fi.push(entries@[i as int]));
                    if fi1.len() <= limit {
                        assert(take_at_most(fi1, limit as int) == fi1);
                    }
                }
                out.push(entries[i].duplicate());
            } else {
                proof {
                    assert(fi.len() >= limit);
                    assert(fi1.take(limit as int) =~= fi.take(limit as int));
                }
            }
        }
        i = i + 1;
    }
    proof {
        assert(entries@.take(n as int) =~= entries@);
    }
    out
}

} // verus!
