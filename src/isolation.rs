//! Removal of the directional-isolation marks that Fluent puts around the
//! values it substitutes into a message.

use vstd::prelude::*;

verus! {

/// The bidirectional isolation controls U+2066 to U+2069 (left-to-right,
/// right-to-left and first-strong isolates, and the pop that closes them).
pub open spec fn is_isolation_mark(c: char) -> bool {
    c == '\u{2066}' || c == '\u{2067}' || c == '\u{2068}' || c == '\u{2069}'
}

/// A text with every isolation mark removed and the other characters kept in
/// order.
pub open spec fn strip_isolation(s: Seq<char>) -> Seq<char> {
    s.filter(|c: char| !is_isolation_mark(c))
}

/// Whatever the formatter produced, the stripped text holds no isolation mark
/// and keeps every other character in order.
pub proof fn lemma_strip_removes_marks(s: Seq<char>)
    ensures
        forall|i: int|
            0 <= i < strip_isolation(s).len() ==> !is_isolation_mark(
                #[trigger] strip_isolation(s)[i],
            ),
        forall|c: char| !is_isolation_mark(c) && s.contains(c) ==> strip_isolation(s).contains(c),
        strip_isolation(s).len() <= s.len(),
{
    let f = |c: char| !is_isolation_mark(c);
    assert forall|i: int| 0 <= i < strip_isolation(s).len() implies !is_isolation_mark(
        #[trigger] strip_isolation(s)[i],
    ) by {
        s.lemma_filter_pred(f, i);
    }
    assert forall|c: char| !is_isolation_mark(c) && s.contains(c) implies strip_isolation(
        s,
    ).contains(c) by {
        let i = choose|i: int| 0 <= i < s.len() && s[i] == c;
        s.lemma_filter_contains(f, i);
    }
    s.lemma_filter_len(f);
}

/// Relies on `String`'s `FromIterator<char>` of std: the characters in order.
#[verifier::external_body]
fn string_from_chars(chars: &Vec<char>) -> (r: String)
    ensures
        r@ == chars@,
{
    chars.iter().collect()
}

fn is_isolation_char(c: char) -> (r: bool)
    ensures
        r == is_isolation_mark(c),
{
    c == '\u{2066}' || c == '\u{2067}' || c == '\u{2068}' || c == '\u{2069}'
}

/// Removes the isolation marks from a text.
pub fn strip_isolation_marks(s: &str) -> (r: String)
    ensures
        r@ == strip_isolation(s@),
        forall|i: int| 0 <= i < r@.len() ==> !is_isolation_mark(#[trigger] r@[i]),
{
    let mut kept: Vec<char> = Vec::new();
    for c in it: s.chars()
        invariant
            it.seq() == s@,
            kept@ == strip_isolation(s@.take(it.index() as int)),
    {
        let ghost n = it.index() as int;
        proof {
            reveal(Seq::filter);
            assert(s@.take(n + 1).drop_last() =~= s@.take(n));
            assert(s@.take(n + 1).last() == c);
        }
        if !is_isolation_char(c) {
            kept.push(c);
        }
    }
    proof {
        assert(s@.take(s@.len() as int) =~= s@);
        lemma_strip_removes_marks(s@);
    }
    string_from_chars(&kept)
}

} // verus!
