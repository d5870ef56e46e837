//! Operations that stamp rows with the current time.
use vstd::prelude::*;
use crate::error::NoteError;
use crate::store::{create_note_post, NoteDb};

verus! {

/// Relies on `chrono::Utc::now`, read as whole seconds since the Unix epoch
/// by `DateTime::timestamp`. The value depends on the clock, so nothing is
/// stated of it.
#[verifier::external_body]
fn now_seconds() -> (r: i64) {
    chrono::Utc::now().timestamp()
}

impl NoteDb {
    /// Creates a note as `create_note` does, stamped with the current time.
    pub fn add(&mut self, text: &str, tags_csv: &str) -> (r: Result<u64, NoteError>)
        requires
            old(self).wf(),
            old(self).next_note_id < u64::MAX,
            old(self).next_tag_id + tags_csv@.len() + 1 < u64::MAX,
        ensures
            final(self).wf(),
            exists|now: i64| create_note_post(*old(self), *final(self), text@, tags_csv@, now, r),
    {
        let now = now_seconds();
        self.create_note(text, tags_csv, now)
    }
}

} // verus!
