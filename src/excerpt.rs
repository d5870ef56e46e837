//! Short one-line excerpts of note text.
use vstd::prelude::*;

verus! {

/// The number of characters an excerpt keeps.
pub const EXCERPT_LEN: usize = 30;

/// `s` with every newline replaced by a space.
pub open spec fn flatten(s: Seq<char>) -> Seq<char> {
    s.map_values(|c: char| if c == '\n' { ' ' } else { c })
}

/// The first `EXCERPT_LEN` characters of the flattened text, or all of it
/// when it is shorter.
pub open spec fn excerpt_of(s: Seq<char>) -> Seq<char> {
    let f = flatten(s);
    if f.len() <= EXCERPT_LEN {
        f
    } else {
        f.take(EXCERPT_LEN as int)
    }
}

/// Builds the one-line excerpt of `text`: newlines become spaces, and only
/// the first `EXCERPT_LEN` characters are kept.
pub fn excerpt(text: &str) -> (r: String)
    ensures
        r@ == excerpt_of(text@),
{
    let n = text.unicode_len();
    let m: usize = if n <= EXCERPT_LEN {
        n
    } else {
        EXCERPT_LEN
    };
    let mut out = String::new();
    let mut i: usize = 0;
    while i < m
        invariant
            n == text@.len(),
            m <= n,
            m == (if n <= EXCERPT_LEN { n } else { EXCERPT_LEN }),
            i <= m,
            out@ == flatten(text@).take(i as int),
        decreases m - i,
    {
        let c = text.get_char(i);
        if c == '\n' {
            let space = " ";
            proof {
                reveal_strlit(" ");
            }
            out.append(space);
        } else {
            let one = text.substring_char(i, i + 1);
            assert(one@ =~= seq![c]);
            out.append(one);
        }
        assert(out@ =~= flatten(text@).take(i + 1));
        i = i + 1;
    }
    assert(flatten(text@).len() == n);
    assert(out@ =~= excerpt_of(text@));
    out
}

} // verus!
