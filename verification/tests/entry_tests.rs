use jrn::entry::Entry;
use jrn::entry::EntryError;

fn entry(name: &str, content: &str) -> Entry {
    Entry { name: name.to_string(), content: content.to_string() }
}

#[test]
fn entry_getters_return_fields() {
    let e = entry("2021-03-07.md", "wrote some thoughts");
    assert_eq!(e.name(), "2021-03-07.md");
    assert_eq!(e.content(), "wrote some thoughts");
}

#[test]
fn entry_contains_is_case_insensitive() {
    let e = entry("a.md", "Wrote THOUGHTS today");
    assert!(e.contains("thoughts"));
    assert!(e.contains("WROTE"));
    assert!(e.contains("Today"));
    assert!(!e.contains("tomorrow"));
}

#[test]
fn entry_contains_empty_term_matches_everything() {
    assert!(entry("a.md", "anything").contains(""));
    assert!(entry("a.md", "").contains(""));
}

#[test]
fn entry_contains_any_finds_one_match() {
    let e = entry("a.md", "ideas about gardens");
    let terms = vec!["work".to_string(), "GARDENS".to_string()];
    assert!(e.contains_any(&terms));
    let other = vec!["work".to_string(), "kitchen".to_string()];
    assert!(!e.contains_any(&other));
    let empty: Vec<String> = Vec::new();
    assert!(!e.contains_any(&empty));
}

#[test]
fn entry_render_frames_name_and_content() {
    let e = entry("a.md", "body");
    assert_eq!(e.render(), "---a.md---\nbody\n");
}

#[test]
fn entry_from_parts_rejects_directories() {
    let r = Entry::from_parts(true, false, Some("d".to_string()), Ok("x".to_string()));
    assert!(matches!(r, Err(EntryError::IsDir)));
}

#[test]
fn entry_from_parts_rejects_symlinks() {
    let r = Entry::from_parts(false, true, Some("s".to_string()), Ok("x".to_string()));
    assert!(matches!(r, Err(EntryError::IsSymlink)));
}

#[test]
fn entry_from_parts_rejects_unreadable_names() {
    let r = Entry::from_parts(false, false, None, Ok("x".to_string()));
    match r {
        Err(EntryError::Other(m)) => assert_eq!(m, "Unable to convert name of file"),
        _ => panic!("expected a name failure"),
    }
}

#[test]
fn entry_from_parts_passes_read_errors_through() {
    let r = Entry::from_parts(
        false,
        false,
        Some("a.md".to_string()),
        Err("permission denied".to_string()),
    );
    match r {
        Err(EntryError::Other(m)) => assert_eq!(m, "permission denied"),
        _ => panic!("expected a read failure"),
    }
}

#[test]
fn entry_from_parts_builds_the_entry() {
    let r = Entry::from_parts(false, false, Some("a.md".to_string()), Ok("text".to_string()));
    match r {
        Ok(e) => {
            assert_eq!(e.name, "a.md");
            assert_eq!(e.content, "text");
        },
        Err(_) => panic!("expected an entry"),
    }
}

#[test]
fn entry_duplicate_copies_both_fields() {
    let e = entry("a.md", "text");
    let d = e.duplicate();
    assert_eq!(d.name, "a.md");
    assert_eq!(d.content, "text");
}
