use jrn::errors::SyncError;
use jrn::fileset::FileEntry;
use jrn::fileset::FileSet;
use jrn::remote::SyncConfig;
use jrn::repo::CommitData;
use jrn::repo::World;
use jrn::sync::run;

fn fs(pairs: &[(&str, &str)]) -> FileSet {
    FileSet {
        entries: pairs
            .iter()
            .map(|(p, c)| FileEntry { path: p.to_string(), content: c.to_string() })
            .collect(),
    }
}

fn commit(parents: Vec<u64>, pairs: &[(&str, &str)]) -> CommitData {
    CommitData { parents, tree: fs(pairs), message: "history".to_string() }
}

fn cfg() -> SyncConfig {
    SyncConfig {
        branch: "master".to_string(),
        remote_name: "origin".to_string(),
        has_credentials: true,
    }
}

fn local_world(commits: Vec<CommitData>, tip: Option<u64>, work: FileSet) -> World {
    let index = match tip {
        Some(t) => commits[t as usize].tree.snapshot(),
        None => FileSet::new(),
    };
    World {
        initialized: tip.is_some(),
        commits,
        tip,
        index,
        work,
        ignored: Vec::new(),
        conflicts: Vec::new(),
        remote: None,
    }
}

#[test]
fn quiet_directory_changes_nothing() {
    let c0 = commit(vec![], &[("a.md", "one")]);
    let mut w = local_world(vec![c0], Some(0), fs(&[("a.md", "one")]));
    let r = run(&mut w, &cfg());
    assert_eq!(r.unwrap(), 0);
    assert_eq!(w.commits.len(), 1);
    assert_eq!(w.tip, Some(0));
}

#[test]
fn new_files_are_counted_and_committed_on_the_prior_tip() {
    let mut w = local_world(Vec::new(), None, fs(&[("a.md", "one"), ("b.md", "two")]));
    let r = run(&mut w, &cfg());
    assert_eq!(r.unwrap(), 2);
    assert_eq!(w.commits.len(), 1);
    assert_eq!(w.tip, Some(0));
    assert!(w.commits[0].parents.is_empty());
    assert_eq!(w.commits[0].message, "Add/update 2 files");

    // one more file on top: the new commit's parent is the prior tip
    w.work = fs(&[("a.md", "one"), ("b.md", "two"), ("c.md", "three")]);
    let r2 = run(&mut w, &cfg());
    assert_eq!(r2.unwrap(), 1);
    assert_eq!(w.commits.len(), 2);
    assert_eq!(w.tip, Some(1));
    assert_eq!(w.commits[1].parents, vec![0]);
    assert_eq!(w.commits[1].message, "Add/update 1 files");
}

#[test]
fn modified_and_deleted_files_count_too() {
    let c0 = commit(vec![], &[("a.md", "one"), ("b.md", "two")]);
    let mut w = local_world(vec![c0], Some(0), fs(&[("a.md", "changed")]));
    let r = run(&mut w, &cfg());
    assert_eq!(r.unwrap(), 2);  // one modified, one deleted
    assert_eq!(w.commits.len(), 2);
    let tree = &w.commits[1].tree;
    assert_eq!(tree.get(&"a.md".to_string()).unwrap(), "changed");
    assert!(tree.get(&"b.md".to_string()).is_none());
}

#[test]
fn second_run_stages_nothing() {
    let mut w = local_world(Vec::new(), None, fs(&[("a.md", "one")]));
    assert_eq!(run(&mut w, &cfg()).unwrap(), 1);
    let r2 = run(&mut w, &cfg());
    assert_eq!(r2.unwrap(), 0);
    assert_eq!(w.commits.len(), 1);
}

#[test]
fn preexisting_conflicts_block_the_run() {
    let c0 = commit(vec![], &[("a.md", "one")]);
    let mut w = local_world(vec![c0], Some(0), fs(&[("a.md", "local edit")]));
    w.conflicts = vec!["a.md".to_string()];
    let before_commits = w.commits.len();
    let r = run(&mut w, &cfg());
    match r {
        Err(SyncError::UnresolvedConflict(ps)) => assert_eq!(ps, vec!["a.md".to_string()]),
        _ => panic!("expected an unresolved conflict"),
    }
    // nothing was staged or committed
    assert_eq!(w.commits.len(), before_commits);
    assert_eq!(w.tip, Some(0));
    assert!(w.index.get(&"a.md".to_string()).unwrap() == "one");
}

#[test]
fn ignored_files_are_not_counted_nor_staged() {
    let mut w = local_world(Vec::new(), None, fs(&[("a.md", "one"), ("scratch.tmp", "x")]));
    w.ignored = vec!["scratch.tmp".to_string()];
    let r = run(&mut w, &cfg());
    assert_eq!(r.unwrap(), 1);
    let tree = &w.commits[0].tree;
    assert!(tree.get(&"a.md".to_string()).is_some());
    assert!(tree.get(&"scratch.tmp".to_string()).is_none());
}

#[test]
fn no_remote_is_still_success() {
    let mut w = local_world(Vec::new(), None, fs(&[("a.md", "one")]));
    assert!(w.remote.is_none());
    let r = run(&mut w, &cfg());
    assert_eq!(r.unwrap(), 1);
    assert!(w.remote.is_none());
}

#[test]
fn first_run_initializes_the_store() {
    let mut w = local_world(Vec::new(), None, fs(&[]));
    assert!(!w.initialized);
    let r = run(&mut w, &cfg());
    assert_eq!(r.unwrap(), 0);
    assert!(w.initialized);
    assert_eq!(w.commits.len(), 0);
}
