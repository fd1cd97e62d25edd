use jrn::errors::SyncError;
use jrn::fileset::FileEntry;
use jrn::fileset::FileSet;
use jrn::remote::SyncConfig;
use jrn::repo::CommitData;
use jrn::repo::RemoteModel;
use jrn::repo::World;
use jrn::sync::run;

fn fs(pairs: &[(&str, &str)]) -> FileSet {
    FileSet {
        entries: pairs
            .iter()
            .map(|(p, c)| FileEntry { path: p.to_string(), content: c.to_string() })
            .collect(),
    }
}

fn commit(parents: Vec<u64>, pairs: &[(&str, &str)]) -> CommitData {
    CommitData { parents, tree: fs(pairs), message: "history".to_string() }
}

fn cfg() -> SyncConfig {
    SyncConfig {
        branch: "master".to_string(),
        remote_name: "origin".to_string(),
        has_credentials: true,
    }
}

fn origin(tip: Option<u64>) -> RemoteModel {
    RemoteModel {
        name: "origin".to_string(),
        tip,
        incoming: None,
        reachable: true,
        needs_key: false,
    }
}

fn world(
    commits: Vec<CommitData>,
    tip: Option<u64>,
    work: FileSet,
    remote: Option<RemoteModel>,
) -> World {
    let index = match tip {
        Some(t) => commits[t as usize].tree.snapshot(),
        None => FileSet::new(),
    };
    World {
        initialized: true,
        commits,
        tip,
        index,
        work,
        ignored: Vec::new(),
        conflicts: Vec::new(),
        remote,
    }
}

#[test]
fn remote_ahead_fast_forwards_with_zero_changes() {
    let c0 = commit(vec![], &[("a.md", "one")]);
    let c1 = commit(vec![0], &[("a.md", "two")]);
    let mut w = world(vec![c0, c1], Some(0), fs(&[("a.md", "one")]), Some(origin(Some(1))));
    let r = run(&mut w, &cfg());
    assert_eq!(r.unwrap(), 0);
    assert_eq!(w.tip, Some(1));
    assert_eq!(w.commits.len(), 2);
    assert_eq!(w.work.get(&"a.md".to_string()).unwrap(), "two");
    assert_eq!(w.remote.as_ref().unwrap().tip, Some(1));
}

#[test]
fn remote_behind_gets_our_tip_pushed() {
    let c0 = commit(vec![], &[("a.md", "one")]);
    let c1 = commit(vec![0], &[("a.md", "two")]);
    let mut w = world(vec![c0, c1], Some(1), fs(&[("a.md", "two")]), Some(origin(Some(0))));
    let r = run(&mut w, &cfg());
    assert_eq!(r.unwrap(), 0);
    assert_eq!(w.tip, Some(1));
    assert_eq!(w.remote.as_ref().unwrap().tip, Some(1));
}

#[test]
fn overlapping_edits_are_a_merge_conflict_and_keep_the_local_tip() {
    let c0 = commit(vec![], &[("a.md", "base")]);
    let c1 = commit(vec![0], &[("a.md", "ours")]);
    let c2 = commit(vec![0], &[("a.md", "theirs")]);
    let mut w = world(
        vec![c0, c1, c2],
        Some(1),
        fs(&[("a.md", "ours")]),
        Some(origin(Some(2))),
    );
    let r = run(&mut w, &cfg());
    match r {
        Err(SyncError::MergeConflict(ps)) => assert_eq!(ps, vec!["a.md".to_string()]),
        _ => panic!("expected a merge conflict"),
    }
    // no partial merge commit; the tip stays at our commit
    assert_eq!(w.tip, Some(1));
    assert_eq!(w.commits.len(), 3);
    assert_eq!(w.conflicts, vec!["a.md".to_string()]);

    // the conflict blocks the next run until resolved by hand
    let r2 = run(&mut w, &cfg());
    assert!(matches!(r2, Err(SyncError::UnresolvedConflict(_))));
}

#[test]
fn disjoint_edits_merge_cleanly_and_push() {
    let c0 = commit(vec![], &[("a.md", "base"), ("b.md", "base")]);
    let c1 = commit(vec![0], &[("a.md", "ours"), ("b.md", "base")]);
    let c2 = commit(vec![0], &[("a.md", "base"), ("b.md", "theirs")]);
    let mut w = world(
        vec![c0, c1, c2],
        Some(1),
        fs(&[("a.md", "ours"), ("b.md", "base")]),
        Some(origin(Some(2))),
    );
    let r = run(&mut w, &cfg());
    assert_eq!(r.unwrap(), 0);
    assert_eq!(w.commits.len(), 4);
    assert_eq!(w.tip, Some(3));
    assert_eq!(w.commits[3].parents, vec![1, 2]);
    assert_eq!(w.commits[3].message, "Merge remote history");
    assert_eq!(w.work.get(&"a.md".to_string()).unwrap(), "ours");
    assert_eq!(w.work.get(&"b.md".to_string()).unwrap(), "theirs");
    assert_eq!(w.remote.as_ref().unwrap().tip, Some(3));
}

#[test]
fn deleting_what_the_remote_edited_is_a_conflict() {
    let c0 = commit(vec![], &[("a.md", "keep"), ("b.md", "base")]);
    let c1 = commit(vec![0], &[("a.md", "keep")]);  // we deleted b.md
    let c2 = commit(vec![0], &[("a.md", "keep"), ("b.md", "theirs")]);  // they edited it
    let mut w = world(
        vec![c0, c1, c2],
        Some(1),
        fs(&[("a.md", "keep")]),
        Some(origin(Some(2))),
    );
    let r = run(&mut w, &cfg());
    match r {
        Err(SyncError::MergeConflict(ps)) => assert_eq!(ps, vec!["b.md".to_string()]),
        _ => panic!("expected a merge conflict"),
    }
    assert_eq!(w.tip, Some(1));
}

#[test]
fn deleting_what_the_remote_left_alone_merges_cleanly() {
    let c0 = commit(vec![], &[("a.md", "base"), ("b.md", "base")]);
    let c1 = commit(vec![0], &[("a.md", "base")]);  // we deleted b.md
    let c2 = commit(vec![0], &[("a.md", "base"), ("b.md", "base"), ("c.md", "new")]);
    let mut w = world(
        vec![c0, c1, c2],
        Some(1),
        fs(&[("a.md", "base")]),
        Some(origin(Some(2))),
    );
    let r = run(&mut w, &cfg());
    assert_eq!(r.unwrap(), 0);
    assert_eq!(w.tip, Some(3));
    let tree = &w.commits[3].tree;
    assert!(tree.get(&"b.md".to_string()).is_none());
    assert_eq!(tree.get(&"c.md".to_string()).unwrap(), "new");
}

#[test]
fn resolving_the_conflict_by_hand_unblocks_the_next_run() {
    let c0 = commit(vec![], &[("a.md", "base")]);
    let c1 = commit(vec![0], &[("a.md", "ours")]);
    let c2 = commit(vec![0], &[("a.md", "theirs")]);
    let mut w = world(
        vec![c0, c1, c2],
        Some(1),
        fs(&[("a.md", "ours")]),
        Some(origin(Some(2))),
    );
    assert!(matches!(run(&mut w, &cfg()), Err(SyncError::MergeConflict(_))));

    // the operator resolves by hand, taking the remote's content, and
    // clears the marker; the next run commits the resolution and the
    // histories now merge cleanly
    w.conflicts = Vec::new();
    w.work = fs(&[("a.md", "theirs")]);
    let r = run(&mut w, &cfg());
    assert_eq!(r.unwrap(), 1);
    assert_eq!(w.commits.len(), 5);  // the resolution commit and the merge
    assert_eq!(w.work.get(&"a.md".to_string()).unwrap(), "theirs");
}

#[test]
fn push_rejected_after_remote_advanced_then_retry_succeeds() {
    // the remote adopts c1 right after our fetch; our push is rejected
    let c0 = commit(vec![], &[("a.md", "one")]);
    let c1 = commit(vec![0], &[("a.md", "one"), ("b.md", "remote news")]);
    let mut w = world(
        vec![c0, c1],
        Some(0),
        fs(&[("a.md", "local edit")]),
        Some(RemoteModel {
            name: "origin".to_string(),
            tip: Some(0),
            incoming: Some(1),
            reachable: true,
            needs_key: false,
        }),
    );
    let r = run(&mut w, &cfg());
    assert!(matches!(r, Err(SyncError::NonFastForward)));
    // our commit was still recorded locally
    assert_eq!(w.commits.len(), 3);
    assert_eq!(w.tip, Some(2));
    assert_eq!(w.remote.as_ref().unwrap().tip, Some(1));

    // running again re-fetches, merges the disjoint histories and pushes
    let r2 = run(&mut w, &cfg());
    assert_eq!(r2.unwrap(), 0);
    assert_eq!(w.commits.len(), 4);
    assert_eq!(w.tip, Some(3));
    assert_eq!(w.remote.as_ref().unwrap().tip, Some(3));
    assert_eq!(w.work.get(&"a.md".to_string()).unwrap(), "local edit");
    assert_eq!(w.work.get(&"b.md".to_string()).unwrap(), "remote news");
}

#[test]
fn unreachable_remote_is_a_network_error() {
    let mut w = world(Vec::new(), None, fs(&[("a.md", "one")]), Some(RemoteModel {
        name: "origin".to_string(),
        tip: None,
        incoming: None,
        reachable: false,
        needs_key: false,
    }));
    let r = run(&mut w, &cfg());
    assert!(matches!(r, Err(SyncError::NetworkError)));
    // the local commit already happened; only the remote phase failed
    assert_eq!(w.commits.len(), 1);
}

#[test]
fn missing_credentials_are_an_auth_error() {
    let mut w = world(Vec::new(), None, fs(&[("a.md", "one")]), Some(RemoteModel {
        name: "origin".to_string(),
        tip: None,
        incoming: None,
        reachable: true,
        needs_key: true,
    }));
    let mut c = cfg();
    c.has_credentials = false;
    let r = run(&mut w, &c);
    assert!(matches!(r, Err(SyncError::AuthError)));
}

#[test]
fn a_remote_under_another_name_is_skipped() {
    let mut w = world(Vec::new(), None, fs(&[("a.md", "one")]), Some(RemoteModel {
        name: "backup".to_string(),
        tip: None,
        incoming: None,
        reachable: false,
        needs_key: true,
    }));
    let r = run(&mut w, &cfg());
    assert_eq!(r.unwrap(), 1);
    assert_eq!(w.remote.as_ref().unwrap().tip, None);
}

#[test]
fn empty_remote_accepts_the_first_push() {
    let mut w = world(Vec::new(), None, fs(&[("a.md", "one")]), Some(origin(None)));
    let r = run(&mut w, &cfg());
    assert_eq!(r.unwrap(), 1);
    assert_eq!(w.remote.as_ref().unwrap().tip, Some(0));
}
