//! Regular-expression search over all notes, with highlighted excerpts.
use vstd::prelude::*;
use crate::error::NoteError;
use crate::excerpt::{excerpt, excerpt_of};
use crate::store::{NoteDb, NoteRow};

verus! {

/// Declares `regex::Regex`, a compiled regular expression, which is carried
/// through unopened.
#[verifier::external_type_specification]
#[verifier::external_body]
pub struct ExRegex(regex::Regex);

/// Declares `regex::Error`, the error of a pattern that does not compile.
#[verifier::external_type_specification]
#[verifier::external_body]
pub struct ExRegexError(regex::Error);

/// Whether `pattern` compiles as a regular expression.
pub uninterp spec fn regex_compiles(pattern: Seq<char>) -> bool;

/// Whether `pattern` matches somewhere in `text`.
pub uninterp spec fn regex_is_match(pattern: Seq<char>, text: Seq<char>) -> bool;

/// The pieces of `text` between the matches of `pattern`, in order.
pub uninterp spec fn regex_split(pattern: Seq<char>, text: Seq<char>) -> Seq<Seq<char>>;

/// The capture groups of the first match of `pattern` in `text` (group 0 is
/// the whole match; a group that took no part is `None`), or `None` when
/// there is no match.
pub uninterp spec fn regex_captures(pattern: Seq<char>, text: Seq<char>) -> Option<Seq<Option<Seq<char>>>>;

/// A compiled regular expression together with the pattern it came from.
struct Pattern {
    source: String,
    re: regex::Regex,
}

/// Relies on `regex::Regex::new`: whether a pattern compiles depends on the
/// pattern alone.
#[verifier::external_body]
fn compile(pattern: &str) -> (r: Result<Pattern, regex::Error>)
    ensures
        r is Ok == regex_compiles(pattern@),
        r matches Ok(p) ==> p.source@ == pattern@,
{
    regex::Regex::new(pattern).map(|re| Pattern { source: String::from(pattern), re })
}

/// Relies on `regex::Regex::is_match`.
#[verifier::external_body]
fn is_match(p: &Pattern, text: &str) -> (r: bool)
    ensures
        r == regex_is_match(p.source@, text@),
{
    p.re.is_match(text)
}

/// Relies on `regex::Regex::split`, collecting the pieces it yields.
#[verifier::external_body]
fn split(p: &Pattern, text: &str) -> (r: Vec<String>)
    ensures
        r@.map_values(|s: String| s@) == regex_split(p.source@, text@),
{
    p.re.split(text).map(String::from).collect()
}

/// Relies on `regex::Regex::captures`, collecting the text of each group.
#[verifier::external_body]
fn captures(p: &Pattern, text: &str) -> (r: Option<Vec<Option<String>>>)
    ensures
        captures_view(r) == regex_captures(p.source@, text@),
{
    p.re.captures(text).map(|c| c.iter().map(|m| m.map(|m| String::from(m.as_str()))).collect())
}

/// A piece of an excerpt, marked when it is matched text.
pub struct Segment {
    pub text: String,
    pub highlighted: bool,
}

/// A note that matched a search, with its highlighted excerpt.
pub struct SearchHit {
    pub note_id: u64,
    pub segments: Vec<Segment>,
}

/// The text and the mark of each segment.
pub open spec fn segments_view(s: Seq<Segment>) -> Seq<(Seq<char>, bool)> {
    s.map_values(|g: Segment| (g.text@, g.highlighted))
}

/// The characters of each string.
pub open spec fn strings_view(s: Seq<String>) -> Seq<Seq<char>> {
    s.map_values(|p: String| p@)
}

/// The characters of each capture group, `None` where a group took no part.
pub open spec fn captures_view(c: Option<Vec<Option<String>>>) -> Option<Seq<Option<Seq<char>>>> {
    match c {
        None => None,
        Some(v) => Some(
            v@.map_values(
                |g: Option<String>|
                    match g {
                        Some(s) => Some(s@),
                        None => None,
                    },
            ),
        ),
    }
}

/// The text of group `i`, or the empty text when there is no such group or
/// it took no part in the match.
pub open spec fn group_text(groups: Seq<Option<Seq<char>>>, i: int) -> Seq<char> {
    if 0 <= i < groups.len() && groups[i] is Some {
        groups[i]->0
    } else {
        Seq::empty()
    }
}

/// Fragment 0, group 0, fragment 1, group 1, and so on: one plain and one
/// highlighted segment for each fragment.
pub open spec fn interleave(frags: Seq<Seq<char>>, groups: Seq<Option<Seq<char>>>) -> Seq<(Seq<char>, bool)>
    decreases frags.len(),
{
    if frags.len() == 0 {
        Seq::empty()
    } else {
        interleave(frags.drop_last(), groups) + seq![
            (frags.last(), false),
            (group_text(groups, frags.len() - 1), true),
        ]
    }
}

/// The segments of `text`, given the pieces of it between matches and the
/// groups of its first match: all of it unmarked when nothing matched.
pub open spec fn highlight_of(
    text: Seq<char>,
    frags: Seq<Seq<char>>,
    caps: Option<Seq<Option<Seq<char>>>>,
) -> Seq<(Seq<char>, bool)> {
    match caps {
        None => seq![(text, false)],
        Some(groups) => interleave(frags, groups),
    }
}

/// The highlighted excerpt of a note text: the matching is run again on the
/// excerpt itself, so a match that lies beyond the excerpt is not marked.
pub open spec fn highlighted_excerpt(pattern: Seq<char>, text: Seq<char>) -> Seq<(Seq<char>, bool)> {
    let e = excerpt_of(text);
    highlight_of(e, regex_split(pattern, e), regex_captures(pattern, e))
}

/// The notes of `notes`, in order, whose text `pattern` matches.
pub open spec fn matching_notes(notes: Seq<NoteRow>, pattern: Seq<char>) -> Seq<NoteRow>
    decreases notes.len(),
{
    if notes.len() == 0 {
        Seq::empty()
    } else {
        let prev = matching_notes(notes.drop_last(), pattern);
        if regex_is_match(pattern, notes.last().text@) {
            prev.push(notes.last())
        } else {
            prev
        }
    }
}

/// Builds the segments of `text` from the pieces of it between the matches
/// (`fragments`) and the groups of its first match (`groups`, `None` when
/// nothing matched): each fragment unmarked, followed by the group of the
/// same index marked, or by an empty marked segment when there is no such
/// group.
pub fn highlight_segments(text: &str, fragments: &Vec<String>, groups: &Option<Vec<Option<String>>>) -> (r: Vec<Segment>)
    ensures
        segments_view(r@) == highlight_of(text@, strings_view(fragments@), captures_view(*groups)),
{
    match groups {
        None => {
            let r = vec![Segment { text: String::from_str(text), highlighted: false }];
            assert(segments_view(r@) =~= seq![(text@, false)]);
            r
        },
        Some(gs) => {
            let ghost fv = strings_view(fragments@);
            let ghost gv = captures_view(*groups)->0;
            let mut out: Vec<Segment> = Vec::new();
            let mut i: usize = 0;
            while i < fragments.len()
                invariant
                    i <= fragments@.len(),
                    fv == strings_view(fragments@),
                    gv == captures_view(*groups)->0,
                    *groups == Some(*gs),
                    segments_view(out@) == interleave(fv.take(i as int), gv),
                decreases fragments@.len() - i,
            {
                let ghost before = out@;
                assert(fv.take(i + 1).drop_last() =~= fv.take(i as int));
                out.push(Segment { text: fragments[i].clone(), highlighted: false });
                let g = if i < gs.len() {
                    match &gs[i] {
                        Some(s) => s.clone(),
                        None => String::new(),
                    }
                } else {
                    String::new()
                };
                out.push(Segment { text: g, highlighted: true });
                assert(g@ == group_text(gv, i as int));
                assert(segments_view(out@) =~= segments_view(before) + seq![
                    (fv[i as int], false),
                    (group_text(gv, i as int), true),
                ]);
                i = i + 1;
            }
            assert(fv.take(i as int) =~= fv);
            out
        },
    }
}

/// The highlighted excerpt of `text` under the compiled pattern `p`.
fn highlight(p: &Pattern, text: &str) -> (r: Vec<Segment>)
    ensures
        segments_view(r@) == highlighted_excerpt(p.source@, text@),
{
    let e = excerpt(text);
    let frags = split(p, e.as_str());
    let groups = captures(p, e.as_str());
    highlight_segments(e.as_str(), &frags, &groups)
}

impl NoteDb {
    /// Searches every note for `pattern`. Each note whose text matches gives
    /// one hit, in stored order, with the highlighted excerpt of its text.
    /// A pattern that does not compile fails the whole search.
    pub fn search(&self, pattern: &str) -> (r: Result<Vec<SearchHit>, NoteError>)
        ensures
            r is Err <==> !regex_compiles(pattern@),
            r is Err ==> r == Err::<Vec<SearchHit>, NoteError>(NoteError::InvalidPattern),
            r matches Ok(hits) ==> {
                let sel = matching_notes(self.notes@, pattern@);
                &&& hits@.len() == sel.len()
                &&& forall|a: int|
                    0 <= a < hits@.len() ==> (#[trigger] hits@[a]).note_id == sel[a].id
                        && segments_view(hits@[a].segments@) == highlighted_excerpt(pattern@, sel[a].text@)
            },
    {
        let p = match compile(pattern) {
            Ok(p) => p,
            Err(_) => {
                return Err(NoteError::InvalidPattern);
            },
        };
        let mut hits: Vec<SearchHit> = Vec::new();
        let mut i: usize = 0;
        while i < self.notes.len()
            invariant
                i <= self.notes@.len(),
                p.source@ == pattern@,
                hits@.len() == matching_notes(self.notes@.take(i as int), pattern@).len(),
                forall|a: int|
                    0 <= a < hits@.len() ==> (#[trigger] hits@[a]).note_id == matching_notes(
                        self.notes@.take(i as int),
                        pattern@,
                    )[a].id && segments_view(hits@[a].segments@) == highlighted_excerpt(
                        pattern@,
                        matching_notes(self.notes@.take(i as int), pattern@)[a].text@,
                    ),
            decreases self.notes@.len() - i,
        {
            assert(self.notes@.take(i + 1).drop_last() =~= self.notes@.take(i as int));
            let ghost before = hits@;
            let text = self.notes[i].text.as_str();
            if is_match(&p, text) {
                let segments = highlight(&p, text);
                hits.push(SearchHit { note_id: self.notes[i].id, segments });
                assert forall|a: int| 0 <= a < before.len() implies hits@[a] == before[a] by {}
            }
            i = i + 1;
        }
        assert(self.notes@.take(i as int) =~= self.notes@);
        Ok(hits)
    }
}

} // verus!
