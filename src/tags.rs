//! Splitting a comma-separated list of tag names.
use vstd::prelude::*;

verus! {

/// The pieces of `s` between commas, in order; a string without commas is
/// one piece, and every comma starts a new, possibly empty, piece.
pub open spec fn split_on_commas(s: Seq<char>) -> Seq<Seq<char>>
    decreases s.len(),
{
    if s.len() == 0 {
        seq![Seq::empty()]
    } else {
        let prev = split_on_commas(s.drop_last());
        if s.last() == ',' {
            prev.push(Seq::empty())
        } else {
            prev.update(prev.len() - 1, prev.last().push(s.last()))
        }
    }
}

/// There is one piece more than there are commas, so never more than the
/// length of the list plus one.
pub proof fn lemma_split_len(s: Seq<char>)
    ensures
        1 <= split_on_commas(s).len() <= s.len() + 1,
    decreases s.len(),
{
    if s.len() > 0 {
        lemma_split_len(s.drop_last());
    }
}

/// Splits a comma-separated list of tag names into its pieces.
pub fn split_tag_list(csv: &str) -> (r: Vec<String>)
    ensures
        r@.map_values(|p: String| p@) == split_on_commas(csv@),
{
    let n = csv.unicode_len();
    let mut pieces: Vec<String> = Vec::new();
    let mut cur = String::new();
    let mut i: usize = 0;
    while i < n
        invariant
            n == csv@.len(),
            i <= n,
            pieces@.map_values(|p: String| p@).push(cur@) == split_on_commas(csv@.take(i as int)),
        decreases n - i,
    {
        let c = csv.get_char(i);
        let ghost prev = split_on_commas(csv@.take(i as int));
        assert(csv@.take(i + 1).drop_last() == csv@.take(i as int));
        if c == ',' {
            pieces.push(cur);
            cur = String::new();
            assert(pieces@.map_values(|p: String| p@) =~= prev);
            assert(pieces@.map_values(|p: String| p@).push(cur@) =~= prev.push(Seq::empty()));
        } else {
            let ghost old_cur = cur@;
            assert(prev.last() == old_cur);
            let one = csv.substring_char(i, i + 1);
            cur.append(one);
            assert(one@ =~= seq![c]);
            assert(cur@ =~= old_cur.push(c));
            assert(pieces@.map_values(|p: String| p@).push(cur@) =~= prev.update(
                prev.len() - 1,
                prev.last().push(c),
            ));
        }
        i = i + 1;
    }
    pieces.push(cur);
    assert(csv@.take(n as int) == csv@);
    assert(pieces@.map_values(|p: String| p@) =~= split_on_commas(csv@));
    pieces
}

} // verus!
