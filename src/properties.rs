//! Laws that relate the operations of the store to one another.
use vstd::prelude::*;
use crate::error::NoteError;
use crate::store::{
    create_note_post, delete_note_post, get_note_post, has_note, has_tag_named,
    link_count, named_among, resolve_tag_post, tag_counts_post, Link, Note, NoteDb, NoteRow, TagCount,
    TagRow,
};
use crate::tags::split_on_commas;

verus! {

/// A tag id that no association row carries has count zero.
proof fn lemma_link_count_absent(links: Seq<Link>, tag_id: u64)
    requires
        forall|i: int| 0 <= i < links.len() ==> links[i].tag_id != tag_id,
    ensures
        link_count(links, tag_id) == 0,
    decreases links.len(),
{
    if links.len() > 0 {
        lemma_link_count_absent(links.drop_last(), tag_id);
    }
}

/// Resolving the same name twice returns the same tag both times, the
/// second call changes nothing, and afterwards exactly one tag has that name.
pub proof fn resolve_tag_twice(
    db0: NoteDb,
    db1: NoteDb,
    db2: NoteDb,
    name: Seq<char>,
    now1: i64,
    now2: i64,
    t1: TagRow,
    t2: TagRow,
)
    requires
        db0.wf(),
        db1.wf(),
        resolve_tag_post(db0, db1, name, now1, t1),
        resolve_tag_post(db1, db2, name, now2, t2),
    ensures
        t1.id == t2.id,
        db2 == db1,
        has_tag_named(db2.tags@, name),
        forall|i: int, j: int|
            0 <= i < db2.tags@.len() && 0 <= j < db2.tags@.len() && db2.tags@[i].name@ == name
                && db2.tags@[j].name@ == name ==> i == j,
{
    let k: int = if has_tag_named(db0.tags@, name) {
        choose|i: int| 0 <= i < db0.tags@.len() && db0.tags@[i] == t1
    } else {
        db0.tags@.len() as int
    };
    assert(db1.tags@[k] == t1);
    assert(has_tag_named(db1.tags@, name));
    let m = choose|i: int| 0 <= i < db1.tags@.len() && db1.tags@[i] == t2;
    if m != k {
        assert(db1.tags@[m].name@ == db1.tags@[k].name@);
        if m < k {
        } else {
        }
    }
}

/// Deleting a note and then fetching it gives `NotFound`, and no association
/// row refers to it any more.
pub proof fn delete_then_get(db0: NoteDb, db1: NoteDb, id: u64, r: Result<Note, NoteError>)
    requires
        db0.wf(),
        delete_note_post(db0, db1, id),
        get_note_post(db1, id, r),
    ensures
        r == Err::<Note, NoteError>(NoteError::NotFound),
        forall|i: int| 0 <= i < db1.links@.len() ==> db1.links@[i].note_id != id,
{
    assert forall|i: int| 0 <= i < db1.links@.len() implies db1.links@[i].note_id != id by {
        assert(db1.links@.contains(db1.links@[i]));
    }
}

/// A tag that resolving a name has just created is listed with count zero.
pub proof fn new_tag_has_no_notes(
    db0: NoteDb,
    db1: NoteDb,
    name: Seq<char>,
    now: i64,
    t: TagRow,
    counts: Seq<TagCount>,
)
    requires
        db0.wf(),
        !has_tag_named(db0.tags@, name),
        resolve_tag_post(db0, db1, name, now, t),
        tag_counts_post(db1, counts),
    ensures
        exists|i: int| 0 <= i < counts.len() && counts[i].name@ == name && counts[i].count == 0,
{
    let i = db0.tags@.len() as int;
    assert(db1.tags@[i] == t);
    assert forall|a: int| 0 <= a < db1.links@.len() implies db1.links@[a].tag_id != t.id by {
        assert(has_note(db0.notes@, db0.links@[a].note_id));
        let k = choose|k: int| 0 <= k < db0.tags@.len() && db0.tags@[k].id == db0.links@[a].tag_id;
    }
    lemma_link_count_absent(db1.links@, t.id);
    assert(counts[i].name@ == name && counts[i].count == 0);
}

/// Fetching a note right after creating it gives back its text, and its tags
/// are exactly the distinct names of the tag list it was created with.
pub proof fn create_then_get(
    db0: NoteDb,
    db1: NoteDb,
    text: Seq<char>,
    csv: Seq<char>,
    now: i64,
    r: Result<u64, NoteError>,
    g: Result<Note, NoteError>,
)
    requires
        db0.wf(),
        db1.wf(),
        text.len() > 0,
        create_note_post(db0, db1, text, csv, now, r),
        get_note_post(db1, db0.next_note_id, g),
    ensures
        r == Ok::<u64, NoteError>(db0.next_note_id),
        g matches Ok(n) && n.text@ == text && n.id == db0.next_note_id,
        g matches Ok(n) ==> forall|t: TagRow| #[trigger] n.tags@.contains(t) ==> split_on_commas(csv).contains(t.name@),
        g matches Ok(n) ==> forall|k: int|
            0 <= k < split_on_commas(csv).len() ==> has_tag_named(n.tags@, #[trigger] split_on_commas(csv)[k]),
{
    let id = db0.next_note_id;
    let names = split_on_commas(csv);
    assert(db1.notes@[db1.notes@.len() - 1].id == id);
    assert(has_note(db1.notes@, id));
    let n = g->Ok_0;
    let w = choose|i: int| 0 <= i < db1.notes@.len() && db1.notes@[i] == (NoteRow {
        id,
        created_at: n.created_at,
        last_edited: n.last_edited,
        text: n.text,
    });
    if w != db1.notes@.len() - 1 {
        assert(db1.notes@[w].id < db1.notes@[db1.notes@.len() - 1].id);
    }
    assert forall|t: TagRow| #[trigger] n.tags@.contains(t) implies names.contains(t.name@) by {
        assert(db1.links@.contains(Link { note_id: id, tag_id: t.id }));
        if db0.links@.contains(Link { note_id: id, tag_id: t.id }) {
            let a = choose|a: int| 0 <= a < db0.links@.len() && db0.links@[a] == Link { note_id: id, tag_id: t.id };
            assert(has_note(db0.notes@, db0.links@[a].note_id));
        }
        let j = choose|j: int| 0 <= j < db1.tags@.len() && db1.tags@[j].id == t.id && names.contains(db1.tags@[j].name@);
        let q = choose|q: int| 0 <= q < db1.tags@.len() && db1.tags@[q] == t;
        if q != j {
            if q < j {
            } else {
            }
        }
    }
    assert forall|k: int| 0 <= k < names.len() implies has_tag_named(n.tags@, #[trigger] names[k]) by {
        assert(has_tag_named(db1.tags@, names[k]));
        let j = choose|j: int| 0 <= j < db1.tags@.len() && db1.tags@[j].name@ == names[k];
        let t = db1.tags@[j];
        assert(names.contains(t.name@)) by {
            assert(names[k] == t.name@);
        }
        assert(named_among(db1.tags@, names, t.id));
        assert(db1.links@.contains(Link { note_id: id, tag_id: t.id }));
        assert(db1.tags@.contains(t));
        assert(n.tags@.contains(t));
        let v = choose|v: int| 0 <= v < n.tags@.len() && n.tags@[v] == t;
        assert(n.tags@[v].name@ == names[k]);
    }
}

} // verus!
