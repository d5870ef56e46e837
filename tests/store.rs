use noteapp::error::NoteError;
use noteapp::excerpt::excerpt;
use noteapp::search::{highlight_segments, Segment};
use noteapp::store::{Link, NoteDb, NoteRow, TagRow};
use noteapp::tags::split_tag_list;

fn links_of(db: &NoteDb, note_id: u64) -> usize {
    db.links.iter().filter(|l| l.note_id == note_id).count()
}

fn segs(v: &[Segment]) -> Vec<(String, bool)> {
    v.iter().map(|s| (s.text.clone(), s.highlighted)).collect()
}

#[test]
fn resolve_tag_twice_gives_one_tag() {
    let mut db = NoteDb::new();
    let a = db.resolve_tag("work", 10);
    let b = db.resolve_tag("work", 20);
    assert_eq!(a.id, b.id);
    assert_eq!(b.created_at, 10);
    assert_eq!(db.tags.iter().filter(|t| t.name == "work").count(), 1);
    assert_eq!(db.next_tag_id, 2);
}

#[test]
fn resolve_tag_empty_name_is_kept() {
    let mut db = NoteDb::new();
    let t = db.resolve_tag("", 5);
    assert_eq!(t.name, "");
    assert_eq!(db.tags.len(), 1);
}

#[test]
fn repeated_tag_in_list_is_attached_once() {
    let mut db = NoteDb::new();
    let id = db.create_note("text", "a,a,b", 1).unwrap();
    assert_eq!(links_of(&db, id), 2);
    assert_eq!(db.tags.len(), 2);
    let names: Vec<&str> = db.tags.iter().map(|t| t.name.as_str()).collect();
    assert_eq!(names, vec!["a", "b"]);
}

#[test]
fn empty_note_is_rejected() {
    let mut db = NoteDb::new();
    db.resolve_tag("keep", 1);
    assert_eq!(db.create_note("", "a,b", 2), Err(NoteError::EmptyInput));
    assert_eq!(db.notes.len(), 0);
    assert_eq!(db.links.len(), 0);
    assert_eq!(db.tags.len(), 1);
    assert_eq!(db.next_note_id, 1);
}

#[test]
fn delete_then_get_is_not_found() {
    let mut db = NoteDb::new();
    let id = db.create_note("first", "x,y", 1).unwrap();
    let other = db.create_note("second", "x", 2).unwrap();
    db.delete_note(id);
    assert!(matches!(db.get_note(id), Err(NoteError::NotFound)));
    assert_eq!(links_of(&db, id), 0);
    assert_eq!(links_of(&db, other), 1);
    assert_eq!(db.tags.len(), 2);
}

#[test]
fn delete_missing_note_changes_nothing() {
    let mut db = NoteDb::new();
    db.create_note("first", "x", 1).unwrap();
    db.delete_note(42);
    assert_eq!(db.notes.len(), 1);
    assert_eq!(db.links.len(), 1);
}

#[test]
fn new_tag_is_counted_zero() {
    let mut db = NoteDb::new();
    db.create_note("n", "a", 1).unwrap();
    db.resolve_tag("fresh", 2);
    let counts = db.list_tags_with_counts();
    let got: Vec<(String, u64)> = counts.iter().map(|c| (c.name.clone(), c.count)).collect();
    assert_eq!(got, vec![("a".to_string(), 1), ("fresh".to_string(), 0)]);
}

#[test]
fn counts_follow_deletion() {
    let mut db = NoteDb::new();
    let a = db.create_note("one", "t", 1).unwrap();
    db.create_note("two", "t,u", 2).unwrap();
    db.delete_note(a);
    let counts = db.list_tags_with_counts();
    let got: Vec<(String, u64)> = counts.iter().map(|c| (c.name.clone(), c.count)).collect();
    assert_eq!(got, vec![("t".to_string(), 1), ("u".to_string(), 1)]);
}

#[test]
fn create_then_get_round_trip() {
    let mut db = NoteDb::new();
    let id = db.create_note("hello world", "x", 7).unwrap();
    let n = db.get_note(id).unwrap();
    assert_eq!(n.id, id);
    assert_eq!(n.text, "hello world");
    assert_eq!(n.created_at, 7);
    assert_eq!(n.last_edited, 7);
    assert_eq!(n.tags.len(), 1);
    assert_eq!(n.tags[0].name, "x");
}

#[test]
fn get_note_lists_tags_by_id() {
    let mut db = NoteDb::new();
    db.resolve_tag("z", 1);
    let id = db.create_note("body", "q,z", 2).unwrap();
    let n = db.get_note(id).unwrap();
    let names: Vec<&str> = n.tags.iter().map(|t| t.name.as_str()).collect();
    assert_eq!(names, vec!["z", "q"]);
}

#[test]
fn list_notes_by_tag_gives_excerpts() {
    let mut db = NoteDb::new();
    let a = db.create_note("first line\nsecond line of a long note", "t", 1).unwrap();
    db.create_note("other", "u", 2).unwrap();
    let c = db.create_note("third", "t,u", 3).unwrap();
    let got = db.list_notes_by_tag("t");
    assert_eq!(got.len(), 2);
    assert_eq!(got[0].id, a);
    assert_eq!(got[0].preview, "first line second line of a lo");
    assert_eq!(got[1].id, c);
    assert_eq!(got[1].preview, "third");
    assert!(db.list_notes_by_tag("none").is_empty());
}

#[test]
fn search_highlights_match_inside_excerpt() {
    let mut db = NoteDb::new();
    let id = db.create_note("line one\nline two needle here", "s", 1).unwrap();
    db.create_note("nothing to see", "s", 2).unwrap();
    let hits = db.search("needle").unwrap();
    assert_eq!(hits.len(), 1);
    assert_eq!(hits[0].note_id, id);
    assert_eq!(
        segs(&hits[0].segments),
        vec![
            ("line one line two ".to_string(), false),
            ("needle".to_string(), true),
            (" here".to_string(), false),
            ("".to_string(), true),
        ]
    );
}

#[test]
fn search_match_beyond_excerpt_is_not_highlighted() {
    let mut db = NoteDb::new();
    let id = db.create_note("0123456789012345678901234567890123 needle", "s", 1).unwrap();
    let hits = db.search("needle").unwrap();
    assert_eq!(hits.len(), 1);
    assert_eq!(hits[0].note_id, id);
    assert_eq!(
        segs(&hits[0].segments),
        vec![("012345678901234567890123456789".to_string(), false)]
    );
}

#[test]
fn search_with_capture_group() {
    let mut db = NoteDb::new();
    db.create_note("ab12cd", "s", 1).unwrap();
    let hits = db.search("([0-9])[0-9]").unwrap();
    assert_eq!(
        segs(&hits[0].segments),
        vec![
            ("ab".to_string(), false),
            ("12".to_string(), true),
            ("cd".to_string(), false),
            ("1".to_string(), true),
        ]
    );
}

#[test]
fn invalid_pattern_fails_search() {
    let mut db = NoteDb::new();
    db.create_note("text", "s", 1).unwrap();
    assert!(matches!(db.search("(unclosed"), Err(NoteError::InvalidPattern)));
}

#[test]
fn split_tag_list_keeps_empty_pieces() {
    assert_eq!(split_tag_list("a,b"), vec!["a", "b"]);
    assert_eq!(split_tag_list(""), vec![""]);
    assert_eq!(split_tag_list("a,,b,"), vec!["a", "", "b", ""]);
}

#[test]
fn excerpt_flattens_then_truncates() {
    assert_eq!(excerpt("a\nb"), "a b");
    assert_eq!(excerpt("\u{e9}\u{e9}\u{e9}\u{e9}\u{e9}\u{e9}\u{e9}\u{e9}\u{e9}\u{e9}\u{e9}\u{e9}\u{e9}\u{e9}\u{e9}\u{e9}\u{e9}\u{e9}\u{e9}\u{e9}\u{e9}\u{e9}\u{e9}\u{e9}\u{e9}\u{e9}\u{e9}\u{e9}\u{e9}\u{e9}xyz").chars().count(), 30);
    assert_eq!(excerpt(""), "");
}

#[test]
fn highlight_segments_interleaves() {
    let frags = vec!["x".to_string(), "y".to_string(), "z".to_string()];
    let groups = Some(vec![Some("M".to_string()), None]);
    let got = highlight_segments("xMy", &frags, &groups);
    assert_eq!(
        segs(&got),
        vec![
            ("x".to_string(), false),
            ("M".to_string(), true),
            ("y".to_string(), false),
            ("".to_string(), true),
            ("z".to_string(), false),
            ("".to_string(), true),
        ]
    );
    let none = highlight_segments("plain", &frags, &None);
    assert_eq!(segs(&none), vec![("plain".to_string(), false)]);
}

#[test]
fn from_rows_checks_the_invariant() {
    let note = |id: u64| NoteRow { id, created_at: 0, last_edited: 0, text: "t".to_string() };
    let tag = |id: u64, name: &str| TagRow { id, created_at: 0, last_edited: 0, name: name.to_string() };
    let ok = NoteDb::from_rows(
        vec![note(1), note(3)],
        vec![tag(1, "a"), tag(2, "b")],
        vec![Link { note_id: 3, tag_id: 2 }],
        4,
        3,
    );
    assert!(ok.is_some());
    let dup_name = NoteDb::from_rows(vec![note(1)], vec![tag(1, "a"), tag(2, "a")], vec![], 2, 3);
    assert!(dup_name.is_none());
    let dangling = NoteDb::from_rows(vec![note(1)], vec![tag(1, "a")], vec![Link { note_id: 2, tag_id: 1 }], 2, 2);
    assert!(dangling.is_none());
    let unordered = NoteDb::from_rows(vec![note(2), note(1)], vec![], vec![], 3, 1);
    assert!(unordered.is_none());
    let dup_link = NoteDb::from_rows(
        vec![note(1)],
        vec![tag(1, "a")],
        vec![Link { note_id: 1, tag_id: 1 }, Link { note_id: 1, tag_id: 1 }],
        2,
        2,
    );
    assert!(dup_link.is_none());
}

#[test]
fn add_stamps_with_current_time() {
    let mut db = NoteDb::new();
    let id = db.add("note", "t").unwrap();
    let n = db.get_note(id).unwrap();
    assert!(n.created_at > 1_600_000_000);
    assert_eq!(n.created_at, n.last_edited);
    assert_eq!(db.add("", "t"), Err(NoteError::EmptyInput));
}
