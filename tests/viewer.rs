use archive_viewer::{
    decode, entries_from_registry, id_less, ArchiveEntry, Session, ViewerState, HEADER_LEN,
    NOT_AN_ARCHIVE,
};
use std::io::Cursor;
use vach::builder::{dump, BuilderConfig, Leaf};

fn archive(entries: &[(&str, &'static [u8], u8)]) -> Vec<u8> {
    let mut leaves: Vec<Leaf<&'static [u8]>> = entries
        .iter()
        .map(|(id, data, version)| Leaf::new(*data, *id).version(*version))
        .collect();
    let mut target = Cursor::new(Vec::new());
    dump(&mut target, &mut leaves, &BuilderConfig::default(), None).unwrap();
    target.into_inner()
}

fn shown(rows: &[ArchiveEntry]) -> Vec<(String, u64, u8)> {
    rows.iter().map(|e| (e.identifier.clone(), e.offset, e.content_version)).collect()
}

fn row(id: &str, offset: u64, version: u8) -> (String, u64, u8) {
    (id.to_string(), offset, version)
}

#[test]
fn round_trip_two_entries_to_rows() {
    let bytes = archive(&[("a", b"", 1), ("b", b"0123456789", 2)]);
    let mut state = ViewerState::new();
    assert!(state.update(Some(bytes)));
    let rows = state.rows();
    assert_eq!(rows.len(), 2);
    assert_eq!(shown(&rows), vec![row("a", 0, 1), row("b", 10, 2)]);
    assert_eq!(state.status_line(), "File loaded successfully");
}

#[test]
fn decoding_twice_gives_the_same_entries() {
    let bytes = archive(&[("x", b"abc", 3), ("y", b"de", 4), ("z", b"", 0)]);
    let first = decode(bytes.clone()).unwrap();
    let second = decode(bytes.clone()).unwrap();
    assert_eq!(shown(&first), shown(&second));
    let mut x = ViewerState::new();
    x.update(Some(archive(&[("other", b"zz", 1)])));
    let mut y = ViewerState::new();
    x.update(Some(bytes.clone()));
    y.update(Some(bytes));
    assert_eq!(shown(&x.rows()), shown(&y.rows()));
    assert_eq!(shown(&x.rows()), shown(&first));
    assert_eq!(shown(&first), vec![row("x", 3, 3), row("y", 2, 4), row("z", 0, 0)]);
}

#[test]
fn empty_buffer_fails() {
    let mut state = ViewerState::new();
    assert!(state.update(Some(Vec::new())));
    assert!(matches!(state, ViewerState::Failed(_)));
    assert!(state.rows().is_empty());
    assert!(decode(Vec::new()).is_err());
}

#[test]
fn short_buffer_fails() {
    let bytes = archive(&[("a", b"1", 1)]);
    let short = bytes[..HEADER_LEN - 1].to_vec();
    assert!(decode(short).is_err());
}

#[test]
fn foreign_bytes_fail() {
    let mut state = ViewerState::new();
    assert!(state.update(Some(b"this is plainly not an archive at all".to_vec())));
    match &state {
        ViewerState::Failed(reason) => {
            assert_eq!(reason, NOT_AN_ARCHIVE);
            assert_eq!(
                state.status_line(),
                "Could not load the file: The chosen file is not an archive this viewer can read."
            );
        }
        _ => panic!("expected a failed state"),
    }
}

#[test]
fn dismissed_selection_changes_nothing() {
    let mut state = ViewerState::new();
    assert!(!state.update(None));
    assert!(matches!(state, ViewerState::Empty));
    assert_eq!(state.status_line(), "Pending file\u{2026}");

    assert!(state.update(Some(archive(&[("a", b"12", 5)]))));
    assert!(!state.update(None));
    assert_eq!(shown(&state.rows()), vec![row("a", 2, 5)]);
}

#[test]
fn load_fail_reload_scenario() {
    let mut state = ViewerState::new();
    assert!(state.update(Some(archive(&[("one", b"1", 1), ("two", b"22", 2), ("three", b"333", 3)]))));
    assert!(matches!(state, ViewerState::Loaded(_)));
    assert_eq!(state.rows().len(), 3);

    assert!(state.update(Some(vec![0xde, 0xad, 0xbe, 0xef, 0, 1, 2, 3, 4, 5, 6, 7, 8, 9, 10])));
    assert!(matches!(state, ViewerState::Failed(_)));
    assert!(state.rows().is_empty());

    assert!(state.update(Some(archive(&[("only", b"abcd", 9)]))));
    assert!(matches!(state, ViewerState::Loaded(_)));
    assert_eq!(shown(&state.rows()), vec![row("only", 4, 9)]);
}

#[test]
fn last_successful_selection_wins() {
    let mut state = ViewerState::new();
    state.update(Some(archive(&[("a", b"1", 1)])));
    state.update(Some(archive(&[("b", b"22", 2), ("c", b"", 7)])));
    state.update(None);
    state.update(Some(archive(&[("d", b"4444", 4)])));
    assert_eq!(shown(&state.rows()), vec![row("d", 4, 4)]);
}

#[test]
fn apply_follows_the_outcome() {
    let mut state = ViewerState::new();
    assert!(!state.apply(None));
    assert!(matches!(state, ViewerState::Empty));
    assert!(state.apply(Some(Err("bad magic".to_string()))));
    assert_eq!(state.status_line(), "Could not load the file: bad magic");
    assert!(state.apply(Some(Ok(vec![ArchiveEntry::new("k".to_string(), 20, 8, 1)]))));
    assert_eq!(shown(&state.rows()), vec![row("k", 8, 1)]);
}

#[test]
fn registry_records_are_put_in_display_order() {
    let raw = Some(vec![
        ("b".to_string(), 40, 1, 2),
        ("a".to_string(), 40, 3, 4),
        ("c".to_string(), 13, 5, 6),
    ]);
    let entries = entries_from_registry(raw).unwrap();
    let got: Vec<(String, u64, u64, u8)> = entries
        .iter()
        .map(|e| (e.identifier.clone(), e.location, e.offset, e.content_version))
        .collect();
    assert_eq!(
        got,
        vec![
            ("c".to_string(), 13, 5, 6),
            ("a".to_string(), 40, 3, 4),
            ("b".to_string(), 40, 1, 2)
        ]
    );
    assert_eq!(entries_from_registry(None).err(), Some(NOT_AN_ARCHIVE.to_string()));
}

#[test]
fn identifiers_compare_by_characters() {
    let s = |t: &str| t.to_string();
    assert!(id_less(&s("a"), &s("b")));
    assert!(!id_less(&s("b"), &s("a")));
    assert!(id_less(&s("ab"), &s("abc")));
    assert!(!id_less(&s("abc"), &s("abc")));
    assert!(id_less(&s(""), &s("x")));
    assert!(id_less(&s("Z"), &s("a")));
    assert!(id_less(&s("\u{e9}"), &s("\u{2026}")));
}

#[test]
fn archive_order_is_kept() {
    let bytes = archive(&[("zeta", b"123", 1), ("alpha", b"45", 2), ("mid", b"6789", 3)]);
    let entries = decode(bytes).unwrap();
    assert_eq!(shown(&entries), vec![row("zeta", 3, 1), row("alpha", 2, 2), row("mid", 4, 3)]);
}

#[test]
fn later_started_read_wins_when_it_completes_last() {
    let mut session = Session::new();
    let first = session.begin_read();
    let second = session.begin_read();
    assert!(!session.complete(first, Some(archive(&[("f1", b"1", 1)]))));
    assert!(session.complete(second, Some(archive(&[("f2", b"22", 2)]))));
    assert_eq!(shown(&session.state().rows()), vec![row("f2", 2, 2)]);
}

#[test]
fn later_started_read_wins_when_it_completes_first() {
    let mut session = Session::new();
    let first = session.begin_read();
    let second = session.begin_read();
    assert!(session.complete(second, Some(archive(&[("f2", b"22", 2)]))));
    assert!(!session.complete(first, Some(archive(&[("f1", b"1", 1)]))));
    assert_eq!(shown(&session.state().rows()), vec![row("f2", 2, 2)]);
    assert_eq!(session.latest(), second);
}

#[test]
fn session_starts_empty_and_hands_out_fresh_tickets() {
    let mut session = Session::new();
    assert!(matches!(session.state(), ViewerState::Empty));
    assert_eq!(session.latest(), 0);
    assert!(session.can_begin());
    assert_eq!(session.begin_read(), 1);
    assert_eq!(session.begin_read(), 2);
    assert!(!session.complete(1, None));
    assert!(!session.complete(2, None));
    assert!(matches!(session.state(), ViewerState::Empty));
}

#[test]
fn entry_duplicate_keeps_fields() {
    let e = ArchiveEntry::new("id".to_string(), 99, 42, 7);
    let d = e.duplicate();
    assert_eq!((d.identifier.as_str(), d.location, d.offset, d.content_version), ("id", 99, 42, 7));
    assert!(ArchiveEntry::new("b".to_string(), 1, 0, 0).precedes(&ArchiveEntry::new("a".to_string(), 2, 0, 0)));
    assert!(ArchiveEntry::new("a".to_string(), 2, 0, 0).precedes(&ArchiveEntry::new("b".to_string(), 2, 0, 0)));
    assert!(!ArchiveEntry::new("b".to_string(), 2, 0, 0).precedes(&ArchiveEntry::new("a".to_string(), 2, 0, 0)));
}
