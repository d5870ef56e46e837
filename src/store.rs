//! The relational model: notes, tags and the note-tag association.
use vstd::prelude::*;
use crate::error::NoteError;
use crate::excerpt::{excerpt, excerpt_of};
use crate::tags::{split_on_commas, split_tag_list, lemma_split_len};

verus! {

/// A stored note. Timestamps are seconds since the Unix epoch, UTC.
pub struct NoteRow {
    pub id: u64,
    pub created_at: i64,
    pub last_edited: i64,
    pub text: String,
}

/// A tag; its name is unique among all tags.
pub struct TagRow {
    pub id: u64,
    pub created_at: i64,
    pub last_edited: i64,
    pub name: String,
}

/// One association row: the tag `tag_id` is attached to the note `note_id`.
#[derive(Clone, Copy, Debug, PartialEq, Eq, Structural)]
pub struct Link {
    pub note_id: u64,
    pub tag_id: u64,
}

/// A note together with the tags attached to it, in ascending id order.
pub struct Note {
    pub id: u64,
    pub created_at: i64,
    pub last_edited: i64,
    pub text: String,
    pub tags: Vec<TagRow>,
}

/// A tag name with the number of notes that carry the tag.
pub struct TagCount {
    pub name: String,
    pub count: u64,
}

/// A note listed by id, with the excerpt of its text.
pub struct NoteSummary {
    pub id: u64,
    pub created_at: i64,
    pub last_edited: i64,
    pub preview: String,
}

/// The three relations, with the ids that the next inserted rows receive.
pub struct NoteDb {
    pub notes: Vec<NoteRow>,
    pub tags: Vec<TagRow>,
    pub links: Vec<Link>,
    pub next_note_id: u64,
    pub next_tag_id: u64,
}

/// Some note of `notes` has the id `id`.
pub open spec fn has_note(notes: Seq<NoteRow>, id: u64) -> bool {
    exists|i: int| 0 <= i < notes.len() && notes[i].id == id
}

/// Some tag of `tags` has the id `id`.
pub open spec fn has_tag(tags: Seq<TagRow>, id: u64) -> bool {
    exists|i: int| 0 <= i < tags.len() && tags[i].id == id
}

/// Some tag of `tags` has the name `name`.
pub open spec fn has_tag_named(tags: Seq<TagRow>, name: Seq<char>) -> bool {
    exists|i: int| 0 <= i < tags.len() && tags[i].name@ == name
}

/// The association row of `note_id` and `tag_id` is among `links`.
pub open spec fn has_link(links: Seq<Link>, note_id: u64, tag_id: u64) -> bool {
    links.contains(Link { note_id, tag_id })
}

/// The number of association rows that carry the tag `tag_id`.
pub open spec fn link_count(links: Seq<Link>, tag_id: u64) -> nat
    decreases links.len(),
{
    if links.len() == 0 {
        0
    } else {
        link_count(links.drop_last(), tag_id) + if links.last().tag_id == tag_id {
            1nat
        } else {
            0nat
        }
    }
}

/// The note `note_id` carries a tag named `name`.
pub open spec fn tagged_by_name(tags: Seq<TagRow>, links: Seq<Link>, note_id: u64, name: Seq<char>) -> bool {
    exists|j: int| 0 <= j < tags.len() && tags[j].name@ == name && has_link(links, note_id, tags[j].id)
}

/// Ids ascend along `s`.
pub open spec fn tags_ascending(s: Seq<TagRow>) -> bool {
    forall|a: int, b: int| 0 <= a < b < s.len() ==> s[a].id < s[b].id
}

/// `s` lists the note row `n`.
pub open spec fn summarizes(s: NoteSummary, n: NoteRow) -> bool {
    &&& s.id == n.id
    &&& s.created_at == n.created_at
    &&& s.last_edited == n.last_edited
    &&& s.preview@ == excerpt_of(n.text@)
}

/// The notes of `notes`, in order, whose id satisfies `keep`.
pub open spec fn notes_where(notes: Seq<NoteRow>, keep: spec_fn(u64) -> bool) -> Seq<NoteRow>
    decreases notes.len(),
{
    if notes.len() == 0 {
        Seq::empty()
    } else {
        let prev = notes_where(notes.drop_last(), keep);
        if keep(notes.last().id) {
            prev.push(notes.last())
        } else {
            prev
        }
    }
}

/// `r` holds one summary for each row of `rows`, in the same order.
pub open spec fn summaries_of(r: Seq<NoteSummary>, rows: Seq<NoteRow>) -> bool {
    &&& r.len() == rows.len()
    &&& forall|a: int| 0 <= a < r.len() ==> summarizes(#[trigger] r[a], rows[a])
}

/// Two filters that agree on every id select the same notes.
proof fn lemma_notes_where_agree(notes: Seq<NoteRow>, p: spec_fn(u64) -> bool, q: spec_fn(u64) -> bool)
    requires
        forall|x: u64| #[trigger] p(x) == q(x),
    ensures
        notes_where(notes, p) == notes_where(notes, q),
    decreases notes.len(),
{
    if notes.len() > 0 {
        lemma_notes_where_agree(notes.drop_last(), p, q);
    }
}

/// A filter that keeps nothing selects nothing.
proof fn lemma_notes_where_none(notes: Seq<NoteRow>)
    ensures
        notes_where(notes, |nid: u64| false).len() == 0,
    decreases notes.len(),
{
    if notes.len() > 0 {
        lemma_notes_where_none(notes.drop_last());
    }
}

/// A copy of a tag row.
fn copy_tag(t: &TagRow) -> (r: TagRow)
    ensures
        r == *t,
{
    TagRow { id: t.id, created_at: t.created_at, last_edited: t.last_edited, name: t.name.clone() }
}

/// A copy of a note row.
fn copy_note(n: &NoteRow) -> (r: NoteRow)
    ensures
        r == *n,
{
    NoteRow { id: n.id, created_at: n.created_at, last_edited: n.last_edited, text: n.text.clone() }
}

/// What resolving the tag name `name` at time `now` does to the store `pre`,
/// leaving `post` and returning `r`: an existing tag of that name is
/// returned and nothing changes; otherwise a tag of that name is appended
/// under the next tag id, with both timestamps `now`.
pub open spec fn resolve_tag_post(pre: NoteDb, post: NoteDb, name: Seq<char>, now: i64, r: TagRow) -> bool {
    &&& r.name@ == name
    &&& has_tag_named(pre.tags@, name) ==> {
        &&& post == pre
        &&& exists|i: int| 0 <= i < pre.tags@.len() && pre.tags@[i] == r
    }
    &&& !has_tag_named(pre.tags@, name) ==> {
        &&& post.tags@ == pre.tags@.push(r)
        &&& r.id == pre.next_tag_id
        &&& r.created_at == now
        &&& r.last_edited == now
        &&& post.next_tag_id == pre.next_tag_id + 1
        &&& post.notes@ == pre.notes@
        &&& post.links@ == pre.links@
        &&& post.next_note_id == pre.next_note_id
    }
}

/// What fetching the note `id` from `db` returns: `NotFound` exactly when
/// no note has that id; otherwise the note row with the tags attached to it,
/// in ascending id order.
pub open spec fn get_note_post(db: NoteDb, id: u64, r: Result<Note, NoteError>) -> bool {
    &&& r is Err <==> !has_note(db.notes@, id)
    &&& r is Err ==> r == Err::<Note, NoteError>(NoteError::NotFound)
    &&& r matches Ok(n) ==> {
        &&& n.id == id
        &&& exists|i: int|
            0 <= i < db.notes@.len() && db.notes@[i] == (NoteRow {
                id,
                created_at: n.created_at,
                last_edited: n.last_edited,
                text: n.text,
            })
        &&& tags_ascending(n.tags@)
        &&& forall|t: TagRow| #[trigger] n.tags@.contains(t) <==> (db.tags@.contains(t) && has_link(db.links@, id, t.id))
    }
}

/// What deleting the note `id` does to `pre`, leaving `post`: the note and
/// its association rows go, every other row stays, and so do all tags.
pub open spec fn delete_note_post(pre: NoteDb, post: NoteDb, id: u64) -> bool {
    &&& post.tags@ == pre.tags@
    &&& post.next_note_id == pre.next_note_id
    &&& post.next_tag_id == pre.next_tag_id
    &&& forall|a: int| 0 <= a < post.notes@.len() ==> pre.notes@.contains(#[trigger] post.notes@[a])
    &&& forall|x: u64| has_note(post.notes@, x) <==> (has_note(pre.notes@, x) && x != id)
    &&& forall|l: Link| #[trigger] post.links@.contains(l) <==> (pre.links@.contains(l) && l.note_id != id)
}

/// `r` lists every tag of `db` in stored order with the number of its
/// association rows.
pub open spec fn tag_counts_post(db: NoteDb, r: Seq<TagCount>) -> bool {
    &&& r.len() == db.tags@.len()
    &&& forall|i: int|
        0 <= i < r.len() ==> (#[trigger] r[i]).name@ == db.tags@[i].name@ && r[i].count == link_count(
            db.links@,
            db.tags@[i].id,
        )
}

/// Some tag of `tags` with id `tag_id` has one of `names` as its name.
pub open spec fn named_among(tags: Seq<TagRow>, names: Seq<Seq<char>>, tag_id: u64) -> bool {
    exists|j: int| 0 <= j < tags.len() && tags[j].id == tag_id && names.contains(tags[j].name@)
}

/// What creating a note with `text` and the tag list `csv` at time `now` does
/// to the store `pre`, leaving `post` and returning `r`: empty text is
/// rejected and changes nothing; otherwise the note is stored under the next
/// note id, each listed tag name is resolved, and the note is attached once to
/// each distinct listed tag.
pub open spec fn create_note_post(
    pre: NoteDb,
    post: NoteDb,
    text: Seq<char>,
    csv: Seq<char>,
    now: i64,
    r: Result<u64, NoteError>,
) -> bool {
    let names = split_on_commas(csv);
    let id = pre.next_note_id;
    if text.len() == 0 {
        r == Err::<u64, NoteError>(NoteError::EmptyInput) && post == pre
    } else {
        &&& r == Ok::<u64, NoteError>(id)
        &&& post.next_note_id == id + 1
        &&& post.notes@.len() == pre.notes@.len() + 1
        &&& post.notes@.drop_last() == pre.notes@
        &&& post.notes@.last().id == id
        &&& post.notes@.last().text@ == text
        &&& post.notes@.last().created_at == now
        &&& post.notes@.last().last_edited == now
        &&& pre.tags@.len() <= post.tags@.len() <= pre.tags@.len() + names.len()
        &&& post.next_tag_id == pre.next_tag_id + (post.tags@.len() - pre.tags@.len())
        &&& post.tags@.subrange(0, pre.tags@.len() as int) == pre.tags@
        &&& forall|k: int| 0 <= k < names.len() ==> has_tag_named(post.tags@, #[trigger] names[k])
        &&& forall|j: int|
            pre.tags@.len() <= j < post.tags@.len() ==> names.contains(#[trigger] post.tags@[j].name@)
                && post.tags@[j].created_at == now && post.tags@[j].last_edited == now
        &&& forall|l: Link|
            #[trigger] post.links@.contains(l) <==> (pre.links@.contains(l) || (l.note_id == id
                && named_among(post.tags@, names, l.tag_id)))
    }
}

impl NoteDb {
    /// The invariant of the store: ids ascend in each relation and lie below
    /// the next id to assign, tag names are unique, no association row is
    /// repeated, and every association row refers to an existing note and tag.
    pub open spec fn wf(&self) -> bool {
        let notes = self.notes@;
        let tags = self.tags@;
        let links = self.links@;
        &&& forall|i: int, j: int| 0 <= i < j < notes.len() ==> notes[i].id < notes[j].id
        &&& forall|i: int| 0 <= i < notes.len() ==> notes[i].id < self.next_note_id
        &&& forall|i: int, j: int| 0 <= i < j < tags.len() ==> tags[i].id < tags[j].id
        &&& forall|i: int| 0 <= i < tags.len() ==> tags[i].id < self.next_tag_id
        &&& forall|i: int, j: int|
            0 <= i < j < tags.len() ==> tags[i].name@ != tags[j].name@
        &&& forall|i: int, j: int| 0 <= i < j < links.len() ==> links[i] != links[j]
        &&& forall|i: int|
            0 <= i < links.len() ==> has_note(notes, #[trigger] links[i].note_id) && has_tag(
                tags,
                links[i].tag_id,
            )
    }

    /// An empty store.
    pub fn new() -> (r: NoteDb)
        ensures
            r.wf(),
            r.notes@.len() == 0,
            r.tags@.len() == 0,
            r.links@.len() == 0,
            r.next_note_id == 1,
            r.next_tag_id == 1,
    {
        NoteDb { notes: Vec::new(), tags: Vec::new(), links: Vec::new(), next_note_id: 1, next_tag_id: 1 }
    }

    /// The position of the tag named `name`, if there is one.
    fn tag_position(&self, name: &String) -> (r: Option<usize>)
        ensures
            match r {
                Some(i) => i < self.tags@.len() && self.tags@[i as int].name@ == name@,
                None => !has_tag_named(self.tags@, name@),
            },
    {
        let mut i: usize = 0;
        while i < self.tags.len()
            invariant
                i <= self.tags@.len(),
                forall|k: int| 0 <= k < i ==> self.tags@[k].name@ != name@,
            decreases self.tags@.len() - i,
        {
            if self.tags[i].name == *name {
                return Some(i);
            }
            i = i + 1;
        }
        None
    }

    /// Returns the tag named `name`, creating it with both timestamps set to
    /// `now` when no tag has that name. An existing tag is returned unchanged.
    pub fn resolve_tag(&mut self, name: &str, now: i64) -> (r: TagRow)
        requires
            old(self).wf(),
            old(self).next_tag_id < u64::MAX,
        ensures
            final(self).wf(),
            resolve_tag_post(*old(self), *final(self), name@, now, r),
            final(self).tags@[final(self).tags@.len() - 1] == r || has_tag_named(old(self).tags@, name@),
    {
        let key = String::from_str(name);
        match self.tag_position(&key) {
            Some(i) => {
                let t = &self.tags[i];
                TagRow { id: t.id, created_at: t.created_at, last_edited: t.last_edited, name: t.name.clone() }
            },
            None => {
                let id = self.next_tag_id;
                let row = TagRow { id, created_at: now, last_edited: now, name: key.clone() };
                self.tags.push(TagRow { id, created_at: now, last_edited: now, name: key });
                self.next_tag_id = id + 1;
                proof {
                    let links = self.links@;
                    assert forall|i: int| 0 <= i < links.len() implies has_note(self.notes@, #[trigger] links[i].note_id) && has_tag(self.tags@, links[i].tag_id) by {
                        assert(has_note(old(self).notes@, old(self).links@[i].note_id));
                        let k = choose|k: int| 0 <= k < old(self).tags@.len() && old(self).tags@[k].id == links[i].tag_id;
                        assert(self.tags@[k] == old(self).tags@[k]);
                    }
                }
                row
            },
        }
    }

    /// Attaches the tag `tag_id` to the note `note_id`; attaching a pair that
    /// is already attached changes nothing.
    fn attach(&mut self, note_id: u64, tag_id: u64)
        requires
            old(self).wf(),
            has_note(old(self).notes@, note_id),
            has_tag(old(self).tags@, tag_id),
        ensures
            final(self).wf(),
            final(self).notes@ == old(self).notes@,
            final(self).tags@ == old(self).tags@,
            final(self).next_note_id == old(self).next_note_id,
            final(self).next_tag_id == old(self).next_tag_id,
            forall|l: Link|
                #[trigger] final(self).links@.contains(l) <==> (old(self).links@.contains(l) || l == Link {
                    note_id,
                    tag_id,
                }),
    {
        let link = Link { note_id, tag_id };
        let mut i: usize = 0;
        let mut found = false;
        while i < self.links.len()
            invariant
                i <= self.links@.len(),
                found ==> self.links@.contains(link),
                !found ==> forall|k: int| 0 <= k < i ==> self.links@[k] != link,
            decreases self.links@.len() - i,
        {
            if self.links[i] == link {
                assert(self.links@[i as int] == link);
                found = true;
            }
            i = i + 1;
        }
        if found {
            assert(forall|l: Link| l == link ==> self.links@.contains(l));
            return;
        }
        self.links.push(link);
        proof {
            let links = self.links@;
            assert forall|l: Link| #[trigger] links.contains(l) <==> (old(self).links@.contains(l) || l == link) by {
                if links.contains(l) {
                    let k = choose|k: int| 0 <= k < links.len() && links[k] == l;
                    if k < links.len() - 1 {
                        assert(old(self).links@[k] == l);
                    }
                }
                if old(self).links@.contains(l) {
                    let k = choose|k: int| 0 <= k < old(self).links@.len() && old(self).links@[k] == l;
                    assert(links[k] == l);
                }
                assert(links[links.len() - 1] == link);
            }
            assert forall|a: int| 0 <= a < links.len() implies has_note(self.notes@, #[trigger] links[a].note_id) && has_tag(self.tags@, links[a].tag_id) by {
                if a < links.len() - 1 {
                    assert(has_note(old(self).notes@, old(self).links@[a].note_id));
                }
            }
        }
    }

    /// Stores a note with `text`, created and last edited at `now`, and
    /// attaches to it each tag named in the comma-separated list `tags_csv`,
    /// creating the tags that do not exist yet. A name that is listed twice
    /// is attached once. Empty text is rejected and leaves the store as it
    /// was. Returns the id of the new note.
    pub fn create_note(&mut self, text: &str, tags_csv: &str, now: i64) -> (r: Result<u64, NoteError>)
        requires
            old(self).wf(),
            old(self).next_note_id < u64::MAX,
            old(self).next_tag_id + tags_csv@.len() + 1 < u64::MAX,
        ensures
            final(self).wf(),
            create_note_post(*old(self), *final(self), text@, tags_csv@, now, r),
    {
        if text.unicode_len() == 0 {
            return Err(NoteError::EmptyInput);
        }
        let names = split_tag_list(tags_csv);
        let ghost nv = names@.map_values(|p: String| p@);
        proof {
            lemma_split_len(tags_csv@);
        }
        let id = self.next_note_id;
        self.notes.push(NoteRow { id, created_at: now, last_edited: now, text: String::from_str(text) });
        self.next_note_id = id + 1;
        let ghost pre = *old(self);
        let ghost mid = *self;
        proof {
            let links = self.links@;
            assert forall|a: int| 0 <= a < links.len() implies has_note(self.notes@, #[trigger] links[a].note_id) && has_tag(self.tags@, links[a].tag_id) by {
                assert(has_note(pre.notes@, pre.links@[a].note_id));
                let k = choose|k: int| 0 <= k < pre.notes@.len() && pre.notes@[k].id == links[a].note_id;
                assert(self.notes@[k] == pre.notes@[k]);
            }
            assert(self.notes@.drop_last() =~= pre.notes@);
            assert(self.notes@[self.notes@.len() - 1].id == id);
        }
        let mut k: usize = 0;
        while k < names.len()
            invariant
                self.wf(),
                nv == names@.map_values(|p: String| p@),
                nv == split_on_commas(tags_csv@),
                nv.len() <= tags_csv@.len() + 1,
                k <= names@.len(),
                self.notes@ == mid.notes@,
                self.next_note_id == mid.next_note_id,
                has_note(self.notes@, id),
                self.next_tag_id <= pre.next_tag_id + k,
                self.next_tag_id == pre.next_tag_id + (self.tags@.len() - pre.tags@.len()),
                self.tags@.len() <= pre.tags@.len() + k,
                pre.next_tag_id + tags_csv@.len() + 1 < u64::MAX,
                self.tags@.len() >= pre.tags@.len(),
                self.tags@.subrange(0, pre.tags@.len() as int) == pre.tags@,
                forall|kk: int| 0 <= kk < k ==> has_tag_named(self.tags@, #[trigger] nv[kk]),
                forall|j: int|
                    pre.tags@.len() <= j < self.tags@.len() ==> nv.take(k as int).contains(#[trigger] self.tags@[j].name@)
                        && self.tags@[j].created_at == now && self.tags@[j].last_edited == now,
                forall|l: Link|
                    #[trigger] self.links@.contains(l) <==> (pre.links@.contains(l) || (l.note_id == id
                        && named_among(self.tags@, nv.take(k as int), l.tag_id))),
            decreases names@.len() - k,
        {
            let ghost before = *self;
            let tag = self.resolve_tag(names[k].as_str(), now);
            let ghost resolved = *self;
            proof {
                assert(nv[k as int] == names@[k as int]@);
            }
            let ghost ti: int = if has_tag_named(before.tags@, nv[k as int]) {
                choose|i: int| 0 <= i < before.tags@.len() && before.tags@[i] == tag
            } else {
                resolved.tags@.len() - 1
            };
            assert(0 <= ti < resolved.tags@.len() && resolved.tags@[ti] == tag);
            assert(has_tag(self.tags@, tag.id));
            self.attach(id, tag.id);
            proof {
                let kk1 = (k + 1) as int;
                let nk = nv.take(kk1);
                let np = nv.take(k as int);
                let tags = self.tags@;
                assert(nk =~= np.push(nv[k as int]));
                assert(resolved.tags@.len() <= before.tags@.len() + 1);
                assert(tags.len() > before.tags@.len() ==> tags[tags.len() - 1] == tag
                    && ti == before.tags@.len());
                assert forall|i: int| 0 <= i < before.tags@.len() implies tags[i] == before.tags@[i] by {
                }
                assert(nk.contains(nv[k as int])) by {
                    assert(nk[k as int] == nv[k as int]);
                }
                assert forall|x: Seq<char>| np.contains(x) implies nk.contains(x) by {
                    let w = choose|w: int| 0 <= w < np.len() && np[w] == x;
                    assert(nk[w] == x);
                }
                assert forall|x: Seq<char>| nk.contains(x) implies np.contains(x) || x == nv[k as int] by {
                    let w = choose|w: int| 0 <= w < nk.len() && nk[w] == x;
                    if w < k {
                        assert(np[w] == x);
                    }
                }
                assert forall|kk: int| 0 <= kk < kk1 implies has_tag_named(tags, #[trigger] nv[kk]) by {
                    if kk < k {
                        assert(has_tag_named(before.tags@, nv[kk]));
                        let w = choose|w: int| 0 <= w < before.tags@.len() && before.tags@[w].name@ == nv[kk];
                        assert(tags[w] == before.tags@[w]);
                    } else {
                        assert(tags[ti].name@ == nv[kk]);
                    }
                }
                assert forall|j: int| pre.tags@.len() <= j < tags.len() implies nk.contains(#[trigger] tags[j].name@)
                    && tags[j].created_at == now && tags[j].last_edited == now by {
                    if j < before.tags@.len() {
                        assert(tags[j] == before.tags@[j]);
                        assert(np.contains(before.tags@[j].name@));
                    } else {
                        assert(tags[j] == tag);
                    }
                }
                assert forall|l: Link| #[trigger] self.links@.contains(l) <==> (pre.links@.contains(l) || (
                    l.note_id == id && named_among(tags, nk, l.tag_id))) by {
                    let t = l.tag_id;
                    if named_among(before.tags@, np, t) {
                        let w = choose|w: int| 0 <= w < before.tags@.len() && before.tags@[w].id == t && np.contains(before.tags@[w].name@);
                        assert(tags[w] == before.tags@[w]);
                        assert(named_among(tags, nk, t));
                    }
                    if t == tag.id {
                        assert(tags[ti] == tag);
                        assert(named_among(tags, nk, t));
                    }
                    if named_among(tags, nk, t) {
                        let w = choose|w: int| 0 <= w < tags.len() && tags[w].id == t && nk.contains(tags[w].name@);
                        if tags[w].name@ == nv[k as int] {
                            assert(tags[ti].name@ == nv[k as int]);
                            assert(w == ti);
                        } else if w < before.tags@.len() {
                            assert(tags[w] == before.tags@[w]);
                            assert(named_among(before.tags@, np, t));
                        } else {
                            assert(tags[w] == tag);
                        }
                    }
                }
            }
            k = k + 1;
        }
        proof {
            assert(nv.take(k as int) =~= nv);
        }
        Ok(id)
    }

    /// Whether the association row `link` is stored.
    fn has_link_row(&self, link: Link) -> (r: bool)
        ensures
            r == self.links@.contains(link),
    {
        let mut i: usize = 0;
        while i < self.links.len()
            invariant
                i <= self.links@.len(),
                forall|k: int| 0 <= k < i ==> self.links@[k] != link,
            decreases self.links@.len() - i,
        {
            if self.links[i] == link {
                assert(self.links@[i as int] == link);
                return true;
            }
            i = i + 1;
        }
        false
    }

    /// The position of the note `id`, if it is stored.
    fn note_position(&self, id: u64) -> (r: Option<usize>)
        ensures
            match r {
                Some(i) => i < self.notes@.len() && self.notes@[i as int].id == id,
                None => !has_note(self.notes@, id),
            },
    {
        let mut i: usize = 0;
        while i < self.notes.len()
            invariant
                i <= self.notes@.len(),
                forall|k: int| 0 <= k < i ==> self.notes@[k].id != id,
            decreases self.notes@.len() - i,
        {
            if self.notes[i].id == id {
                return Some(i);
            }
            i = i + 1;
        }
        None
    }

    /// The tags attached to the note `note_id`, in ascending id order.
    fn tags_of(&self, note_id: u64) -> (r: Vec<TagRow>)
        requires
            self.wf(),
        ensures
            tags_ascending(r@),
            forall|t: TagRow| r@.contains(t) <==> (self.tags@.contains(t) && has_link(self.links@, note_id, t.id)),
    {
        let mut out: Vec<TagRow> = Vec::new();
        let mut i: usize = 0;
        while i < self.tags.len()
            invariant
                self.wf(),
                i <= self.tags@.len(),
                forall|a: int, b: int| 0 <= a < b < out@.len() ==> out@[a].id < out@[b].id,
                forall|a: int| 0 <= a < out@.len() ==> exists|b: int| 0 <= b < i && #[trigger] out@[a] == #[trigger] self.tags@[b],
                forall|t: TagRow| out@.contains(t) <==> (self.tags@.take(i as int).contains(t) && has_link(self.links@, note_id, t.id)),
            decreases self.tags@.len() - i,
        {
            let ghost before = out@;
            let ghost tags = self.tags@;
            let ghost tk0 = tags.take(i as int);
            let ghost tk1 = tags.take(i + 1);
            if self.has_link_row(Link { note_id, tag_id: self.tags[i].id }) {
                out.push(copy_tag(&self.tags[i]));
                assert forall|a: int| 0 <= a < out@.len() implies exists|b: int| 0 <= b < i + 1 && #[trigger] out@[a] == #[trigger] tags[b] by {
                    if a < before.len() {
                        assert(out@[a] == before[a]);
                    } else {
                        assert(out@[a] == tags[i as int]);
                    }
                }
                assert forall|a: int, b: int| 0 <= a < b < out@.len() implies out@[a].id < out@[b].id by {
                    if b == before.len() {
                        let w = choose|w: int| 0 <= w < i && before[a] == tags[w];
                        assert(out@[a] == before[a]);
                    } else {
                        assert(out@[a] == before[a] && out@[b] == before[b]);
                    }
                }
                assert forall|t: TagRow| out@.contains(t) <==> (tk1.contains(t) && has_link(self.links@, note_id, t.id)) by {
                    if out@.contains(t) {
                        let w = choose|w: int| 0 <= w < out@.len() && out@[w] == t;
                        if w < before.len() {
                            assert(before[w] == t);
                            assert(before.contains(t));
                            let v = choose|v: int| 0 <= v < i && tk0[v] == t;
                            assert(tk1[v] == t);
                        } else {
                            assert(tk1[i as int] == t);
                        }
                    }
                    if tk1.contains(t) && has_link(self.links@, note_id, t.id) {
                        let v = choose|v: int| 0 <= v < i + 1 && tk1[v] == t;
                        if v < i {
                            assert(tk0[v] == t);
                            assert(before.contains(t));
                            let w = choose|w: int| 0 <= w < before.len() && before[w] == t;
                            assert(out@[w] == t);
                        } else {
                            assert(out@[before.len() as int] == t);
                        }
                    }
                }
            } else {
                assert forall|t: TagRow| out@.contains(t) <==> (tk1.contains(t) && has_link(self.links@, note_id, t.id)) by {
                    if out@.contains(t) {
                        let v = choose|v: int| 0 <= v < i && tk0[v] == t;
                        assert(tk1[v] == t);
                    }
                    if tk1.contains(t) && has_link(self.links@, note_id, t.id) {
                        let v = choose|v: int| 0 <= v < i + 1 && tk1[v] == t;
                        if v < i {
                            assert(tk0[v] == t);
                        } else {
                            assert(t == tags[i as int]);
                        }
                    }
                }
            }
            i = i + 1;
        }
        assert(self.tags@.take(i as int) =~= self.tags@);
        out
    }

    /// The note `id` with its tags, or `NotFound` when no note has that id.
    pub fn get_note(&self, id: u64) -> (r: Result<Note, NoteError>)
        requires
            self.wf(),
        ensures
            get_note_post(*self, id, r),
    {
        match self.note_position(id) {
            None => Err(NoteError::NotFound),
            Some(i) => {
                let row = copy_note(&self.notes[i]);
                let tags = self.tags_of(id);
                assert(self.notes@[i as int] == row);
                Ok(Note { id: row.id, created_at: row.created_at, last_edited: row.last_edited, text: row.text, tags })
            },
        }
    }

    /// The notes other than `id`, in their stored order.
    fn notes_without(&self, id: u64) -> (r: Vec<NoteRow>)
        requires
            self.wf(),
        ensures
            forall|a: int, b: int| 0 <= a < b < r@.len() ==> r@[a].id < r@[b].id,
            forall|a: int| 0 <= a < r@.len() ==> self.notes@.contains(#[trigger] r@[a]),
            forall|x: u64| has_note(r@, x) <==> (has_note(self.notes@, x) && x != id),
    {
        let mut out: Vec<NoteRow> = Vec::new();
        let mut i: usize = 0;
        while i < self.notes.len()
            invariant
                self.wf(),
                i <= self.notes@.len(),
                forall|a: int, b: int| 0 <= a < b < out@.len() ==> out@[a].id < out@[b].id,
                forall|a: int| 0 <= a < out@.len() ==> exists|b: int| 0 <= b < i && #[trigger] out@[a] == #[trigger] self.notes@[b],
                forall|x: u64| has_note(out@, x) <==> (has_note(self.notes@.take(i as int), x) && x != id),
            decreases self.notes@.len() - i,
        {
            let ghost before = out@;
            let ghost notes = self.notes@;
            let ghost tk0 = notes.take(i as int);
            let ghost tk1 = notes.take(i + 1);
            if self.notes[i].id != id {
                out.push(copy_note(&self.notes[i]));
                assert forall|a: int| 0 <= a < out@.len() implies exists|b: int| 0 <= b < i + 1 && #[trigger] out@[a] == #[trigger] notes[b] by {
                    if a < before.len() {
                        assert(out@[a] == before[a]);
                    } else {
                        assert(out@[a] == notes[i as int]);
                    }
                }
                assert forall|a: int, b: int| 0 <= a < b < out@.len() implies out@[a].id < out@[b].id by {
                    if b == before.len() {
                        let w = choose|w: int| 0 <= w < i && before[a] == notes[w];
                        assert(out@[a] == before[a]);
                    } else {
                        assert(out@[a] == before[a] && out@[b] == before[b]);
                    }
                }
            }
            assert forall|x: u64| has_note(out@, x) <==> (has_note(tk1, x) && x != id) by {
                if has_note(out@, x) {
                    let w = choose|w: int| 0 <= w < out@.len() && out@[w].id == x;
                    if w < before.len() {
                        assert(before[w].id == x);
                        assert(has_note(before, x));
                        let v = choose|v: int| 0 <= v < i && tk0[v].id == x;
                        assert(tk1[v].id == x);
                    } else {
                        assert(tk1[i as int].id == x);
                    }
                }
                if has_note(tk1, x) && x != id {
                    let v = choose|v: int| 0 <= v < i + 1 && tk1[v].id == x;
                    if v < i {
                        assert(tk0[v].id == x);
                        assert(has_note(before, x));
                        let w = choose|w: int| 0 <= w < before.len() && before[w].id == x;
                        assert(out@[w].id == x);
                    } else {
                        assert(out@[before.len() as int].id == x);
                    }
                }
            }
            i = i + 1;
        }
        assert(self.notes@.take(i as int) =~= self.notes@);
        assert forall|a: int| 0 <= a < out@.len() implies self.notes@.contains(#[trigger] out@[a]) by {
            let b = choose|b: int| 0 <= b < i && out@[a] == self.notes@[b];
        }
        out
    }

    /// The association rows of notes other than `id`.
    fn links_without(&self, id: u64) -> (r: Vec<Link>)
        requires
            self.wf(),
        ensures
            forall|a: int, b: int| 0 <= a < b < r@.len() ==> r@[a] != r@[b],
            forall|l: Link| #[trigger] r@.contains(l) <==> (self.links@.contains(l) && l.note_id != id),
    {
        let mut out: Vec<Link> = Vec::new();
        let mut i: usize = 0;
        while i < self.links.len()
            invariant
                self.wf(),
                i <= self.links@.len(),
                forall|a: int, b: int| 0 <= a < b < out@.len() ==> out@[a] != out@[b],
                forall|a: int| 0 <= a < out@.len() ==> exists|b: int| 0 <= b < i && #[trigger] out@[a] == #[trigger] self.links@[b],
                forall|l: Link| #[trigger] out@.contains(l) <==> (self.links@.take(i as int).contains(l) && l.note_id != id),
            decreases self.links@.len() - i,
        {
            let ghost before = out@;
            let ghost links = self.links@;
            let ghost tk0 = links.take(i as int);
            let ghost tk1 = links.take(i + 1);
            let link = self.links[i];
            if link.note_id != id {
                out.push(link);
                assert forall|a: int| 0 <= a < out@.len() implies exists|b: int| 0 <= b < i + 1 && #[trigger] out@[a] == #[trigger] links[b] by {
                    if a < before.len() {
                        assert(out@[a] == before[a]);
                    } else {
                        assert(out@[a] == links[i as int]);
                    }
                }
                assert forall|a: int, b: int| 0 <= a < b < out@.len() implies out@[a] != out@[b] by {
                    if b == before.len() {
                        let w = choose|w: int| 0 <= w < i && before[a] == links[w];
                        assert(out@[a] == before[a]);
                    } else {
                        assert(out@[a] == before[a] && out@[b] == before[b]);
                    }
                }
            }
            assert forall|l: Link| #[trigger] out@.contains(l) <==> (tk1.contains(l) && l.note_id != id) by {
                if out@.contains(l) {
                    let w = choose|w: int| 0 <= w < out@.len() && out@[w] == l;
                    if w < before.len() {
                        assert(before[w] == l);
                        assert(before.contains(l));
                        let v = choose|v: int| 0 <= v < i && tk0[v] == l;
                        assert(tk1[v] == l);
                    } else {
                        assert(tk1[i as int] == l);
                    }
                }
                if tk1.contains(l) && l.note_id != id {
                    let v = choose|v: int| 0 <= v < i + 1 && tk1[v] == l;
                    if v < i {
                        assert(tk0[v] == l);
                        assert(before.contains(l));
                        let w = choose|w: int| 0 <= w < before.len() && before[w] == l;
                        assert(out@[w] == l);
                    } else {
                        assert(out@[before.len() as int] == l);
                    }
                }
            }
            i = i + 1;
        }
        assert(self.links@.take(i as int) =~= self.links@);
        out
    }

    /// Deletes the note `id` together with every association row of it. The
    /// tags stay, also those that no note carries any more. Deleting an id
    /// that is not stored changes nothing.
    pub fn delete_note(&mut self, id: u64)
        requires
            old(self).wf(),
        ensures
            final(self).wf(),
            delete_note_post(*old(self), *final(self), id),
    {
        let notes = self.notes_without(id);
        let links = self.links_without(id);
        let ghost pre = *self;
        self.notes = notes;
        self.links = links;
        proof {
            assert forall|a: int| 0 <= a < self.notes@.len() implies self.notes@[a].id < self.next_note_id by {
                assert(pre.notes@.contains(self.notes@[a]));
            }
            assert forall|a: int| 0 <= a < self.links@.len() implies has_note(self.notes@, #[trigger] self.links@[a].note_id) && has_tag(self.tags@, self.links@[a].tag_id) by {
                let l = self.links@[a];
                assert(self.links@.contains(l));
                let w = choose|w: int| 0 <= w < pre.links@.len() && pre.links@[w] == l;
                assert(has_note(pre.notes@, pre.links@[w].note_id));
            }
        }
    }

    /// The number of association rows that carry the tag `tag_id`.
    fn count_links(&self, tag_id: u64) -> (r: u64)
        ensures
            r == link_count(self.links@, tag_id),
    {
        let mut count: u64 = 0;
        let mut i: usize = 0;
        while i < self.links.len()
            invariant
                i <= self.links@.len(),
                count <= i,
                count == link_count(self.links@.take(i as int), tag_id),
            decreases self.links@.len() - i,
        {
            assert(self.links@.take(i + 1).drop_last() =~= self.links@.take(i as int));
            if self.links[i].tag_id == tag_id {
                count = count + 1;
            }
            i = i + 1;
        }
        assert(self.links@.take(i as int) =~= self.links@);
        count
    }

    /// Every tag, in ascending id order, with the number of notes that carry
    /// it; a tag that no note carries is listed with count 0.
    pub fn list_tags_with_counts(&self) -> (r: Vec<TagCount>)
        requires
            self.wf(),
        ensures
            tag_counts_post(*self, r@),
    {
        let mut out: Vec<TagCount> = Vec::new();
        let mut i: usize = 0;
        while i < self.tags.len()
            invariant
                i <= self.tags@.len(),
                out@.len() == i,
                forall|k: int|
                    0 <= k < i ==> (#[trigger] out@[k]).name@ == self.tags@[k].name@ && out@[k].count
                        == link_count(self.links@, self.tags@[k].id),
            decreases self.tags@.len() - i,
        {
            let count = self.count_links(self.tags[i].id);
            out.push(TagCount { name: self.tags[i].name.clone(), count });
            i = i + 1;
        }
        out
    }

    /// The notes attached to the tag `tid`, in stored order, as summaries.
    fn notes_with_tag_id(&self, tid: u64) -> (r: Vec<NoteSummary>)
        ensures
            summaries_of(r@, notes_where(self.notes@, |nid: u64| has_link(self.links@, nid, tid))),
    {
        let ghost keep = |nid: u64| has_link(self.links@, nid, tid);
        let mut out: Vec<NoteSummary> = Vec::new();
        let mut i: usize = 0;
        while i < self.notes.len()
            invariant
                i <= self.notes@.len(),
                keep == (|nid: u64| has_link(self.links@, nid, tid)),
                summaries_of(out@, notes_where(self.notes@.take(i as int), keep)),
            decreases self.notes@.len() - i,
        {
            let ghost before = out@;
            assert(self.notes@.take(i + 1).drop_last() =~= self.notes@.take(i as int));
            let nid = self.notes[i].id;
            if self.has_link_row(Link { note_id: nid, tag_id: tid }) {
                let preview = excerpt(self.notes[i].text.as_str());
                out.push(NoteSummary {
                    id: nid,
                    created_at: self.notes[i].created_at,
                    last_edited: self.notes[i].last_edited,
                    preview,
                });
                assert forall|a: int| 0 <= a < before.len() implies out@[a] == before[a] by {}
            }
            i = i + 1;
        }
        assert(self.notes@.take(i as int) =~= self.notes@);
        out
    }

    /// The notes that carry the tag named `name`, in ascending id order, each
    /// with the excerpt of its text. Empty when no tag has that name.
    pub fn list_notes_by_tag(&self, name: &str) -> (r: Vec<NoteSummary>)
        requires
            self.wf(),
        ensures
            summaries_of(r@, notes_where(self.notes@, |nid: u64| tagged_by_name(self.tags@, self.links@, nid, name@))),
    {
        let key = String::from_str(name);
        let ti = match self.tag_position(&key) {
            Some(ti) => ti,
            None => {
                proof {
                lemma_notes_where_agree(
                    self.notes@,
                    |nid: u64| tagged_by_name(self.tags@, self.links@, nid, name@),
                    |nid: u64| false,
                );
                lemma_notes_where_none(self.notes@);
            }
            return Vec::new();
            },
        };
        let tid = self.tags[ti].id;
        let ghost tags = self.tags@;
        let ghost links = self.links@;
        assert forall|nid: u64| tagged_by_name(tags, links, nid, name@) <==> has_link(links, nid, tid) by {
            if tagged_by_name(tags, links, nid, name@) {
                let j = choose|j: int| 0 <= j < tags.len() && tags[j].name@ == name@ && has_link(links, nid, tags[j].id);
                if j != ti {
                    assert(tags[j].name@ == tags[ti as int].name@);
                }
            }
            if has_link(links, nid, tid) {
                assert(tags[ti as int].name@ == name@);
            }
        }
        let r = self.notes_with_tag_id(tid);
        proof {
            lemma_notes_where_agree(
                self.notes@,
                |nid: u64| tagged_by_name(tags, links, nid, name@),
                |nid: u64| has_link(links, nid, tid),
            );
        }
        r
    }

    /// Whether some tag has the id `id`.
    fn has_tag_id(&self, id: u64) -> (r: bool)
        ensures
            r == has_tag(self.tags@, id),
    {
        let mut j: usize = 0;
        while j < self.tags.len()
            invariant
                j <= self.tags@.len(),
                forall|k: int| 0 <= k < j ==> self.tags@[k].id != id,
            decreases self.tags@.len() - j,
        {
            if self.tags[j].id == id {
                return true;
            }
            j = j + 1;
        }
        false
    }

    /// Whether every association row refers to a stored note and tag.
    fn links_resolve(&self) -> (r: bool)
        ensures
            r == forall|i: int|
                0 <= i < self.links@.len() ==> has_note(self.notes@, #[trigger] self.links@[i].note_id) && has_tag(
                    self.tags@,
                    self.links@[i].tag_id,
                ),
    {
        let mut i: usize = 0;
        while i < self.links.len()
            invariant
                i <= self.links@.len(),
                forall|k: int|
                    #![trigger self.links@[k]]
                    0 <= k < i ==> has_note(self.notes@, self.links@[k].note_id) && has_tag(
                        self.tags@,
                        self.links@[k].tag_id,
                    ),
            decreases self.links@.len() - i,
        {
            let l = self.links[i];
            match self.note_position(l.note_id) {
                None => {
                    return false;
                },
                Some(p) => {
                    assert(self.notes@[p as int].id == l.note_id);
                    assert(has_note(self.notes@, l.note_id));
                },
            }
            let found = self.has_tag_id(l.tag_id);
            if !found {
                return false;
            }
            assert(self.links@[i as int] == l);
            i = i + 1;
        }
        true
    }

    /// Whether the rows are distinct where the invariant asks for it: no tag
    /// name and no association row occurs twice.
    fn rows_distinct(&self) -> (r: bool)
        ensures
            r == ((forall|i: int, j: int|
                0 <= i < j < self.tags@.len() ==> self.tags@[i].name@ != self.tags@[j].name@)
                && (forall|i: int, j: int| 0 <= i < j < self.links@.len() ==> self.links@[i] != self.links@[j])),
    {
        let mut i: usize = 0;
        while i < self.tags.len()
            invariant
                i <= self.tags@.len(),
                forall|a: int, b: int| 0 <= a < b < self.tags@.len() && a < i ==> self.tags@[a].name@ != self.tags@[b].name@,
            decreases self.tags@.len() - i,
        {
            let mut j: usize = i + 1;
            while j < self.tags.len()
                invariant
                    i < self.tags@.len(),
                    i + 1 <= j <= self.tags@.len(),
                    forall|a: int, b: int| 0 <= a < b < self.tags@.len() && a < i ==> self.tags@[a].name@ != self.tags@[b].name@,
                    forall|b: int| i < b < j ==> self.tags@[i as int].name@ != self.tags@[b].name@,
                decreases self.tags@.len() - j,
            {
                if self.tags[i].name == self.tags[j].name {
                    return false;
                }
                j = j + 1;
            }
            i = i + 1;
        }
        let mut i: usize = 0;
        while i < self.links.len()
            invariant
                i <= self.links@.len(),
                forall|a: int, b: int| 0 <= a < b < self.tags@.len() ==> self.tags@[a].name@ != self.tags@[b].name@,
                forall|a: int, b: int| 0 <= a < b < self.links@.len() && a < i ==> self.links@[a] != self.links@[b],
            decreases self.links@.len() - i,
        {
            let mut j: usize = i + 1;
            while j < self.links.len()
                invariant
                    i < self.links@.len(),
                    i + 1 <= j <= self.links@.len(),
                    forall|a: int, b: int| 0 <= a < b < self.tags@.len() ==> self.tags@[a].name@ != self.tags@[b].name@,
                    forall|a: int, b: int| 0 <= a < b < self.links@.len() && a < i ==> self.links@[a] != self.links@[b],
                    forall|b: int| i < b < j ==> self.links@[i as int] != self.links@[b],
                decreases self.links@.len() - j,
            {
                if self.links[i] == self.links[j] {
                    return false;
                }
                j = j + 1;
            }
            i = i + 1;
        }
        true
    }

    /// Whether the ids of the notes and of the tags ascend and lie below the
    /// next ids to assign.
    fn ids_ordered(&self) -> (r: bool)
        ensures
            r == ((forall|i: int, j: int| 0 <= i < j < self.notes@.len() ==> self.notes@[i].id < self.notes@[j].id)
                && (forall|i: int| 0 <= i < self.notes@.len() ==> self.notes@[i].id < self.next_note_id)
                && (forall|i: int, j: int| 0 <= i < j < self.tags@.len() ==> self.tags@[i].id < self.tags@[j].id)
                && (forall|i: int| 0 <= i < self.tags@.len() ==> self.tags@[i].id < self.next_tag_id)),
    {
        let mut i: usize = 0;
        while i < self.notes.len()
            invariant
                i <= self.notes@.len(),
                forall|a: int, b: int| 0 <= a < b < self.notes@.len() && b <= i ==> self.notes@[a].id < self.notes@[b].id,
                forall|a: int| 0 <= a < self.notes@.len() && a < i ==> self.notes@[a].id < self.next_note_id,
            decreases self.notes@.len() - i,
        {
            if self.notes[i].id >= self.next_note_id {
                return false;
            }
            if i + 1 < self.notes.len() && self.notes[i].id >= self.notes[i + 1].id {
                return false;
            }
            i = i + 1;
        }
        let mut i: usize = 0;
        while i < self.tags.len()
            invariant
                i <= self.tags@.len(),
                forall|a: int, b: int| 0 <= a < b < self.notes@.len() ==> self.notes@[a].id < self.notes@[b].id,
                forall|a: int| 0 <= a < self.notes@.len() ==> self.notes@[a].id < self.next_note_id,
                forall|a: int, b: int| 0 <= a < b < self.tags@.len() && b <= i ==> self.tags@[a].id < self.tags@[b].id,
                forall|a: int| 0 <= a < self.tags@.len() && a < i ==> self.tags@[a].id < self.next_tag_id,
            decreases self.tags@.len() - i,
        {
            if self.tags[i].id >= self.next_tag_id {
                return false;
            }
            if i + 1 < self.tags.len() && self.tags[i].id >= self.tags[i + 1].id {
                return false;
            }
            i = i + 1;
        }
        true
    }

    /// A store made of rows read back from storage, or `None` when the rows
    /// break the invariant of the store.
    pub fn from_rows(
        notes: Vec<NoteRow>,
        tags: Vec<TagRow>,
        links: Vec<Link>,
        next_note_id: u64,
        next_tag_id: u64,
    ) -> (r: Option<NoteDb>)
        ensures
            r matches Some(db) ==> db.wf() && db.notes@ == notes@ && db.tags@ == tags@ && db.links@ == links@
                && db.next_note_id == next_note_id && db.next_tag_id == next_tag_id,
            r is None ==> !(NoteDb { notes, tags, links, next_note_id, next_tag_id }).wf(),
    {
        let db = NoteDb { notes, tags, links, next_note_id, next_tag_id };
        if db.ids_ordered() && db.rows_distinct() && db.links_resolve() {
            Some(db)
        } else {
            None
        }
    }
}

} // verus!
