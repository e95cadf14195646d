//! Text side of full-text search: the tokenizer and the term dictionary
//! (postings and document lengths) that BM25 scoring reads.

use vstd::prelude::*;

verus! {

/// What `str::to_lowercase` returns for the characters `s`.
pub uninterp spec fn lowercase_of(s: Seq<char>) -> Seq<char>;

/// Whether `char::is_alphanumeric` holds of `c`.
pub uninterp spec fn alphanumeric(c: char) -> bool;

/// `str::to_lowercase`: the lowercase equivalent of `s` under the Unicode
/// `Lowercase` property. What that is, character by character, is named,
/// not stated.
#[verifier::external_body]
fn to_lowercase(s: &str) -> (r: String)
    ensures
        r@ == lowercase_of(s@),
{
    s.to_lowercase()
}

/// `char::is_alphanumeric`: whether `c` is alphabetic or numeric in the
/// Unicode sense. Which characters those are is named, not stated.
#[verifier::external_body]
pub(crate) fn is_alphanumeric(c: char) -> (b: bool)
    ensures
        b == alphanumeric(c),
{
    c.is_alphanumeric()
}

/// `String::push`: appends `c`.
#[verifier::external_body]
pub(crate) fn push_char(s: &mut String, c: char)
    ensures
        final(s)@ == old(s)@.push(c),
{
    s.push(c)
}

/// The pieces of `s` between characters that are not alphanumeric, empty
/// pieces included, in order.
pub open spec fn pieces(s: Seq<char>) -> Seq<Seq<char>>
    decreases s.len(),
{
    if s.len() == 0 {
        seq![Seq::empty()]
    } else {
        let p = pieces(s.drop_last());
        if alphanumeric(s.last()) {
            p.update(p.len() - 1, p.last().push(s.last()))
        } else {
            p.push(Seq::empty())
        }
    }
}

/// Whether a piece is kept as a token: its UTF-8 form is longer than one
/// byte, i.e. it has two or more characters, or one outside ASCII.
pub open spec fn is_token(p: Seq<char>) -> bool {
    p.len() > 1 || (p.len() == 1 && p[0] as u32 >= 0x80)
}

/// The pieces that are tokens, in order.
pub open spec fn keep_tokens(ps: Seq<Seq<char>>) -> Seq<Seq<char>>
    decreases ps.len(),
{
    if ps.len() == 0 {
        Seq::empty()
    } else {
        let r = keep_tokens(ps.drop_last());
        if is_token(ps.last()) { r.push(ps.last()) } else { r }
    }
}

/// The tokens of `text`: the lowercased text split at every character that
/// is not alphanumeric, keeping the pieces longer than one byte.
pub open spec fn tokens_of(text: Seq<char>) -> Seq<Seq<char>> {
    keep_tokens(pieces(lowercase_of(text)))
}

proof fn lemma_pieces_nonempty(s: Seq<char>)
    ensures
        pieces(s).len() >= 1,
    decreases s.len(),
{
    if s.len() > 0 {
        lemma_pieces_nonempty(s.drop_last());
    }
}

/// Splits `text` into lowercase tokens (see [`tokens_of`]).
pub fn tokenize(text: &str) -> (r: Vec<String>)
    ensures
        r@.map_values(|t: String| t@) == tokens_of(text@),
{
    let lower = to_lowercase(text);
    let s = lower.as_str();
    let n = s.unicode_len();
    let mut out: Vec<String> = Vec::new();
    let mut cur = String::new();
    let mut i: usize = 0;
    proof {
        assert(s@.take(0) =~= Seq::<char>::empty());
        assert(pieces(Seq::<char>::empty()).drop_last() =~= Seq::<Seq<char>>::empty());
    }
    while i < n
        invariant
            n == s@.len(),
            i <= n,
            s@ == lowercase_of(text@),
            pieces(s@.take(i as int)).len() >= 1,
            out@.map_values(|t: String| t@) == keep_tokens(pieces(s@.take(i as int)).drop_last()),
            cur@ == pieces(s@.take(i as int)).last(),
        decreases n - i,
    {
        let c = s.get_char(i);
        let ghost pre = s@.take(i as int);
        let ghost post = s@.take(i + 1);
        proof {
            assert(post.drop_last() =~= pre);
            assert(post.last() == c);
            lemma_pieces_nonempty(pre);
        }
        if is_alphanumeric(c) {
            push_char(&mut cur, c);
            proof {
                let p = pieces(pre);
                assert(pieces(post) == p.update(p.len() - 1, p.last().push(c)));
                assert(pieces(post).drop_last() =~= p.drop_last());
            }
        } else {
            let ghost before = out@.map_values(|t: String| t@);
            let long = cur.unicode_len() > 1 || (cur.unicode_len() == 1 && (cur.as_str().get_char(0) as u32) >= 0x80);
            let mut piece = String::new();
            std::mem::swap(&mut piece, &mut cur);
            if long {
                out.push(piece);
            }
            proof {
                let p = pieces(pre);
                assert(pieces(post) == p.push(Seq::<char>::empty()));
                assert(pieces(post).drop_last() =~= p);
                assert(p.drop_last() =~= p.take(p.len() - 1));
                assert(p =~= p.drop_last().push(p.last()));
                if long {
                    assert(out@.map_values(|t: String| t@) =~= before.push(piece@));
                } else {
                    assert(out@.map_values(|t: String| t@) =~= before);
                }
            }
        }
        i = i + 1;
    }
    let ghost before = out@.map_values(|t: String| t@);
    let long = cur.unicode_len() > 1 || (cur.unicode_len() == 1 && (cur.as_str().get_char(0) as u32) >= 0x80);
    if long {
        out.push(cur);
    }
    proof {
        assert(s@.take(n as int) =~= s@);
        let p = pieces(s@);
        assert(p =~= p.drop_last().push(p.last()));
        if long {
            assert(out@.map_values(|t: String| t@) =~= before.push(p.last()));
        } else {
            assert(out@.map_values(|t: String| t@) =~= before);
        }
    }
    out
}

} // verus!
