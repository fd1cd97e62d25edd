use jrn::entry::Entry;
use jrn::errors::SyncError;
use jrn::fileset::FileEntry;
use jrn::fileset::FileSet;
use jrn::plan::plan_changes;
use jrn::scan::ChangeRecord;
use jrn::scan::ChangeStatus;
use jrn::scan::scan;
use jrn::select::select_matching;
use jrn::select::select_recent;
use jrn::repo::CommitData;
use jrn::repo::World;

fn fs(pairs: &[(&str, &str)]) -> FileSet {
    FileSet {
        entries: pairs
            .iter()
            .map(|(p, c)| FileEntry { path: p.to_string(), content: c.to_string() })
            .collect(),
    }
}

fn rec(path: &str, status: ChangeStatus) -> ChangeRecord {
    ChangeRecord { path: path.to_string(), status }
}

#[test]
fn fileset_set_get_remove_round_trip() {
    let mut s = FileSet::new();
    s.set("a.md".to_string(), "one".to_string());
    s.set("b.md".to_string(), "two".to_string());
    s.set("a.md".to_string(), "three".to_string());
    assert_eq!(s.get(&"a.md".to_string()).unwrap(), "three");
    assert_eq!(s.get(&"b.md".to_string()).unwrap(), "two");
    assert!(s.contains_path(&"a.md".to_string()));
    s.remove(&"a.md".to_string());
    assert!(s.get(&"a.md".to_string()).is_none());
    assert!(!s.contains_path(&"a.md".to_string()));
}

#[test]
fn scan_classifies_every_path() {
    let c0 = CommitData {
        parents: vec![],
        tree: fs(&[("kept.md", "same"), ("edited.md", "old"), ("gone.md", "x")]),
        message: "history".to_string(),
    };
    let work = fs(&[
        ("kept.md", "same"),
        ("edited.md", "new"),
        ("fresh.md", "hello"),
        ("scratch.tmp", "junk"),
    ]);
    let index = c0.tree.snapshot();
    let w = World {
        initialized: true,
        commits: vec![c0],
        tip: Some(0),
        index,
        work,
        ignored: vec!["scratch.tmp".to_string()],
        conflicts: Vec::new(),
        remote: None,
    };
    let recs = scan(&w).unwrap();
    let find = |p: &str| -> ChangeStatus {
        recs.iter().find(|r| r.path == p).expect("path scanned").status
    };
    assert_eq!(find("kept.md"), ChangeStatus::Unmodified);
    assert_eq!(find("edited.md"), ChangeStatus::Modified);
    assert_eq!(find("fresh.md"), ChangeStatus::New);
    assert_eq!(find("scratch.tmp"), ChangeStatus::Ignored);
    assert_eq!(find("gone.md"), ChangeStatus::Deleted);
    assert_eq!(recs.len(), 5);
}

#[test]
fn scan_refuses_conflicted_stores() {
    let w = World {
        initialized: true,
        commits: Vec::new(),
        tip: None,
        index: FileSet::new(),
        work: fs(&[("a.md", "x")]),
        ignored: Vec::new(),
        conflicts: vec!["a.md".to_string()],
        remote: None,
    };
    match scan(&w) {
        Err(SyncError::UnresolvedConflict(ps)) => assert_eq!(ps, vec!["a.md".to_string()]),
        _ => panic!("expected an unresolved conflict"),
    }
}

#[test]
fn plan_changes_sorts_records_into_adds_and_removes() {
    let records = vec![
        rec("new.md", ChangeStatus::New),
        rec("same.md", ChangeStatus::Unmodified),
        rec("edit.md", ChangeStatus::Modified),
        rec("junk.tmp", ChangeStatus::Ignored),
        rec("gone.md", ChangeStatus::Deleted),
    ];
    let p = plan_changes(&records).unwrap();
    assert_eq!(p.adds, vec!["new.md".to_string(), "edit.md".to_string()]);
    assert_eq!(p.removes, vec!["gone.md".to_string()]);
    assert_eq!(p.count, 3);
}

#[test]
fn plan_changes_refuses_conflicted_records() {
    let records = vec![
        rec("a.md", ChangeStatus::New),
        rec("b.md", ChangeStatus::Conflicted),
    ];
    match plan_changes(&records) {
        Err(SyncError::UnresolvedConflict(ps)) => assert_eq!(ps, vec!["b.md".to_string()]),
        _ => panic!("expected an unresolved conflict"),
    }
}

fn entries(names: &[(&str, &str)]) -> Vec<Entry> {
    names
        .iter()
        .map(|(n, c)| Entry { name: n.to_string(), content: c.to_string() })
        .collect()
}

#[test]
fn select_recent_reverses_and_limits() {
    let es = entries(&[("1.md", "a"), ("2.md", "b"), ("3.md", "c")]);
    let picked = select_recent(&es, 2);
    assert_eq!(picked.len(), 2);
    assert_eq!(picked[0].name, "3.md");
    assert_eq!(picked[1].name, "2.md");
    let all = select_recent(&es, 10);
    assert_eq!(all.len(), 3);
    assert_eq!(all[2].name, "1.md");
}

#[test]
fn select_matching_keeps_order_and_stops_at_the_limit() {
    let es = entries(&[
        ("1.md", "tea in the garden"),
        ("2.md", "meeting notes"),
        ("3.md", "GARDEN plans"),
        ("4.md", "more garden work"),
    ]);
    let terms = vec!["garden".to_string()];
    let picked = select_matching(&es, &terms, 2);
    assert_eq!(picked.len(), 2);
    assert_eq!(picked[0].name, "1.md");
    assert_eq!(picked[1].name, "3.md");
    let none = select_matching(&es, &vec!["ocean".to_string()], 5);
    assert!(none.is_empty());
}
