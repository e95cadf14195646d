//! GQL statements rewritten into the query language: `MATCH`,
//! `INSERT` and `CREATE VECTOR INDEX`.
//!
//! A `MATCH` statement reads `MATCH (alias:Label)`, an optional
//! `WHERE cosine_similarity(field, $query) > t`, `RETURN` with names,
//! an optional `ORDER BY field [DESC]` and an optional `LIMIT n`; the
//! similarity bound `t` becomes the distance bound `1 - t`, computed
//! exactly on the decimal numeral.

use vstd::prelude::*;
use crate::bm25::push_char;
use crate::evaluator::{occurs_in, text_contains, to_uppercase, uppercase_of};
use crate::ddl_parser::{char_at, char_is, chars_of, collect, digits_end, digits_from, digits_value, keyword_at, skip_ws, skip_ws_from, tag, u32_from};
use crate::parser::{name_at, u32_or};
use crate::engine::{is_white, white_end, white_start, white, white_end_from, white_start_from};
use crate::decimal::{all_digits, complement, complement_text, pow10};
use crate::schema::{cat, decimal_digits, u64_to_decimal};

verus! {

/// Whether `w` stands at `i`, letter for letter.
pub open spec fn text_at(s: Seq<char>, i: int, w: Seq<char>) -> bool {
    0 <= i && i + w.len() <= s.len() && s.subrange(i, i + w.len()) == w
}

/// A numeral after optional whitespace: its sign, its integer digits and
/// its decimals (a point followed by no digit is not read).
pub open spec fn gql_number_at(s: Seq<char>, i: int) -> Option<(int, (bool, Seq<char>, Seq<char>))> {
    let k = skip_ws(s, i);
    let neg = char_at(s, k, '-');
    let a = if neg { k + 1 } else { k };
    let d = digits_end(s, a);
    if d > a {
        if char_at(s, d, '.') && digits_end(s, d + 1) > d + 1 {
            let e = digits_end(s, d + 1);
            Some((e, (neg, s.subrange(a, d), s.subrange(d + 1, e))))
        } else {
            Some((d, (neg, s.subrange(a, d), Seq::empty())))
        }
    } else {
        None
    }
}

/// `MATCH (alias:Label)` after optional whitespace.
pub open spec fn gql_match_at(s: Seq<char>, i: int) -> Option<(int, (Seq<char>, Seq<char>))> {
    let k = skip_ws(s, i);
    let o = skip_ws(s, k + "MATCH"@.len());
    if keyword_at(s, k, "MATCH"@) && char_at(s, o, '(') {
        match name_at(s, o + 1) {
            Some((e1, alias)) => {
                let c = skip_ws(s, e1);
                if char_at(s, c, ':') {
                    match name_at(s, c + 1) {
                        Some((e2, label)) => {
                            let d = skip_ws(s, e2);
                            if char_at(s, d, ')') { Some((d + 1, (alias, label))) } else { None }
                        },
                        None => None,
                    }
                } else {
                    None
                }
            },
            None => None,
        }
    } else {
        None
    }
}

/// The query vector's name at `j`: `$query`, `$q` or `query_vector`.
pub open spec fn query_ref_at(s: Seq<char>, j: int) -> Option<int> {
    if text_at(s, j, "$query"@) {
        Some(j + "$query"@.len())
    } else if text_at(s, j, "$q"@) {
        Some(j + "$q"@.len())
    } else if text_at(s, j, "query_vector"@) {
        Some(j + "query_vector"@.len())
    } else {
        None
    }
}

/// `WHERE cosine_similarity(field, $query) > t` after optional whitespace:
/// the field and the numeral `t`.
pub open spec fn gql_where_at(s: Seq<char>, i: int) -> Option<(int, (Seq<char>, (bool, Seq<char>, Seq<char>)))> {
    let k = skip_ws(s, i);
    let c = skip_ws(s, k + "WHERE"@.len());
    let o = skip_ws(s, c + "cosine_similarity"@.len());
    if keyword_at(s, k, "WHERE"@) && keyword_at(s, c, "cosine_similarity"@) && char_at(s, o, '(') {
        match name_at(s, o + 1) {
            Some((e1, field)) => {
                let a = skip_ws(s, e1);
                if char_at(s, a, ',') {
                    match query_ref_at(s, skip_ws(s, a + 1)) {
                        Some(e2) => {
                            let b = skip_ws(s, e2);
                            let g = skip_ws(s, b + 1);
                            if char_at(s, b, ')') && char_at(s, g, '>') {
                                match gql_number_at(s, g + 1) {
                                    Some((e3, t)) => Some((e3, (field, t))),
                                    None => None,
                                }
                            } else {
                                None
                            }
                        },
                        None => None,
                    }
                } else {
                    None
                }
            },
            None => None,
        }
    } else {
        None
    }
}

/// Names after the first, each after optional whitespace, a comma and
/// optional whitespace; the position after the last.
pub open spec fn gql_more_names(s: Seq<char>, p: int) -> (int, Seq<Seq<char>>)
    decreases s.len() - p,
{
    let b = skip_ws(s, p);
    if char_at(s, b, ',') {
        match name_at(s, b + 1) {
            Some((e, n)) => {
                proof {
                    crate::ddl_parser::lemma_skip_ws(s, p);
                    crate::parser::lemma_name_at(s, b + 1);
                }
                let (f, rest) = gql_more_names(s, e);
                (f, seq![n] + rest)
            },
            None => (p, Seq::empty()),
        }
    } else {
        (p, Seq::empty())
    }
}

/// `RETURN` and zero or more names separated by commas.
pub open spec fn gql_return_at(s: Seq<char>, i: int) -> Option<(int, Seq<Seq<char>>)> {
    let k = skip_ws(s, i);
    let a = skip_ws(s, k + "RETURN"@.len());
    if keyword_at(s, k, "RETURN"@) {
        match name_at(s, a) {
            Some((e, n)) => {
                let (f, rest) = gql_more_names(s, e);
                Some((f, seq![n] + rest))
            },
            None => Some((a, Seq::empty())),
        }
    } else {
        None
    }
}

/// `ORDER BY field [DESC]` after optional whitespace: the field and
/// whether the order ascends.
pub open spec fn gql_order_at(s: Seq<char>, i: int) -> Option<(int, (Seq<char>, bool))> {
    let k = skip_ws(s, i);
    if keyword_at(s, k, "ORDER BY"@) {
        match name_at(s, k + "ORDER BY"@.len()) {
            Some((e, field)) => {
                let b = skip_ws(s, e);
                if keyword_at(s, b, "DESC"@) {
                    Some((b + "DESC"@.len(), (field, false)))
                } else {
                    Some((b, (field, true)))
                }
            },
            None => None,
        }
    } else {
        None
    }
}

/// `LIMIT n` after optional whitespace; `n` too large for a `u32` reads
/// as 10.
pub open spec fn gql_limit_at(s: Seq<char>, i: int) -> Option<(int, u32)> {
    let k = skip_ws(s, i);
    let a = skip_ws(s, k + "LIMIT"@.len());
    let d = digits_end(s, a);
    if keyword_at(s, k, "LIMIT"@) && d > a { Some((d, u32_or(s.subrange(a, d), 10))) } else { None }
}

/// The names joined with `, `.
pub open spec fn joined(ns: Seq<Seq<char>>) -> Seq<char>
    decreases ns.len(),
{
    if ns.len() == 0 {
        Seq::empty()
    } else if ns.len() == 1 {
        ns[0]
    } else {
        joined(ns.drop_last()) + ", "@ + ns.last()
    }
}

/// The query text of a `MATCH` statement's parts.
pub open spec fn match_text(
    alias: Seq<char>,
    label: Seq<char>,
    cond: Option<(Seq<char>, (bool, Seq<char>, Seq<char>))>,
    fields: Seq<Seq<char>>,
    order: Option<(Seq<char>, bool)>,
    limit: u32,
) -> Seq<char> {
    let head = "MATCH ("@ + alias + ":"@ + label + ")"@;
    let w = match cond {
        Some((field, (neg, int_digits, frac))) =>
            " WHERE TOROIDALDISTANCE("@ + field + ", "@ + complement_text(neg, int_digits, frac) + ")"@,
        None => Seq::empty(),
    };
    let r = if fields.len() > 0 { " RETURN "@ + joined(fields) } else { Seq::empty() };
    let o = match order {
        Some((field, asc)) => " ORDER BY "@ + field + (if asc { Seq::empty() } else { " DESC"@ }),
        None => Seq::empty(),
    };
    head + w + r + o + " LIMIT "@ + decimal_digits(limit as nat)
}

/// What a `MATCH` statement `t` is rewritten to: the query text, or the
/// message of the parse error.
pub open spec fn translate_match_spec(t: Seq<char>) -> Result<Seq<char>, Seq<char>> {
    match gql_match_at(t, 0) {
        Some((e1, (alias, label))) => {
            let (e2, cond) = match gql_where_at(t, e1) {
                Some((e, w)) => (e, Some(w)),
                None => (e1, None),
            };
            match gql_return_at(t, e2) {
                Some((e3, fields)) => {
                    let (e4, order) = match gql_order_at(t, e3) {
                        Some((e, o)) => (e, Some(o)),
                        None => (e3, None),
                    };
                    let limit = match gql_limit_at(t, e4) {
                        Some((_, n)) => n,
                        None => 10u32,
                    };
                    Ok(match_text(alias, label, cond, fields, order, limit))
                },
                None => Err("Failed to parse RETURN"@),
            }
        },
        None => Err("Failed to parse MATCH clause"@),
    }
}

/// The first position from `i` that holds one of the characters that end
/// a label (`:`, space, `)`, and `{` where `brace`), or the end.
pub open spec fn label_stop(t: Seq<char>, i: int, brace: bool) -> int
    decreases t.len() - i,
{
    if 0 <= i < t.len() && !(t[i] == ':' || t[i] == ' ' || t[i] == ')' || (brace && t[i] == '{')) {
        label_stop(t, i + 1, brace)
    } else {
        i
    }
}

/// The first position from `i` that holds `:`, or the end.
pub open spec fn colon_from(t: Seq<char>, i: int) -> int
    decreases t.len() - i,
{
    if 0 <= i < t.len() && t[i] != ':' { colon_from(t, i + 1) } else { i }
}

/// The label after the first colon of `t`, up to the next character that
/// ends a label; `None` where `t` has no colon.
pub open spec fn label_after_colon(t: Seq<char>, brace: bool) -> Option<Seq<char>> {
    let c = colon_from(t, 0);
    if c < t.len() { Some(t.subrange(c + 1, label_stop(t, c + 1, brace))) } else { None }
}

/// The first position from `i` where `w` stands, letter for letter, or
/// the end.
pub open spec fn find_from(t: Seq<char>, i: int, w: Seq<char>) -> int
    decreases t.len() - i,
{
    if 0 <= i < t.len() && !text_at(t, i, w) { find_from(t, i + 1, w) } else { i }
}

/// The end of the characters other than whitespace that start at `i`,
/// before `b`.
pub open spec fn token_end(t: Seq<char>, i: int, b: int) -> int
    decreases b - i,
{
    if 0 <= i < b && i < t.len() && !is_white(t[i]) { token_end(t, i + 1, b) } else { i }
}

/// The number that a token writes as a `u32`: an optional `+` and one or
/// more digits.
pub open spec fn token_u32(tok: Seq<char>) -> Option<u32> {
    let d = if tok.len() > 0 && tok[0] == '+' { tok.subrange(1, tok.len() as int) } else { tok };
    if d.len() > 0 && digits_end(d, 0) == d.len() && digits_value(d) <= u32::MAX {
        Some(digits_value(d) as u32)
    } else {
        None
    }
}

/// The dimension of a `CREATE VECTOR INDEX` statement: the first token
/// after the first `DIMENSION` (and before any second one), where it is a
/// `u32`; else 1536.
pub open spec fn dimension_of(t: Seq<char>) -> u32 {
    let w = "DIMENSION"@;
    let p = find_from(t, 0, w);
    if p < t.len() {
        let b = find_from(t, p + w.len(), w);
        let ts = white_end(t, p + w.len(), b);
        let te = token_end(t, ts, b);
        if te > ts {
            match token_u32(t.subrange(ts, te)) {
                Some(n) => n,
                None => 1536,
            }
        } else {
            1536
        }
    } else {
        1536
    }
}

/// The text between the first and the last character of `s` that are not
/// whitespace.
pub open spec fn trimmed(s: Seq<char>) -> Seq<char> {
    let a = white_end(s, 0, s.len() as int);
    s.subrange(a, white_start(s, a, s.len() as int))
}

/// Whether the words `CREATE VECTOR INDEX` stand somewhere in `t`, in any
/// case.
pub open spec fn mentions_vector_index(t: Seq<char>) -> bool {
    occurs_in("CREATE VECTOR INDEX"@, uppercase_of(t))
}

/// Abstract value of a [`GqlError`].
pub enum GqlErrorView {
    Parse(Seq<char>),
    Execution(Seq<char>),
    Unsupported(Seq<char>),
}

/// Why a statement was not rewritten or run.
#[derive(Debug)]
pub enum GqlError {
    Parse(String),
    Execution(String),
    Unsupported(String),
}

impl View for GqlError {
    type V = GqlErrorView;

    open spec fn view(&self) -> GqlErrorView {
        match self {
            GqlError::Parse(m) => GqlErrorView::Parse(m@),
            GqlError::Execution(m) => GqlErrorView::Execution(m@),
            GqlError::Unsupported(m) => GqlErrorView::Unsupported(m@),
        }
    }
}

/// What a statement is rewritten to: the query text or the error.
pub open spec fn rewrite_of(s: Seq<char>) -> Result<Seq<char>, GqlErrorView> {
    let t = trimmed(s);
    if "MATCH"@.is_prefix_of(uppercase_of(t)) {
        match translate_match_spec(t) {
            Ok(q) => Ok(q),
            Err(m) => Err(GqlErrorView::Parse(m)),
        }
    } else if "INSERT"@.is_prefix_of(uppercase_of(t)) {
        match label_after_colon(t, true) {
            Some(label) => Ok("CREATE NODE TYPE "@ + label + " (id INT PRIMARY KEY);\nMATCH (n:"@ + label
                + ") RETURN n.id LIMIT 1"@),
            None => Err(GqlErrorView::Parse("Could not extract label"@)),
        }
    } else if mentions_vector_index(t) {
        let label = match label_after_colon(t, false) {
            Some(l) => l,
            None => "Document"@,
        };
        Ok("ALTER NODE TYPE "@ + label + " ADD content_t3 VECTOR("@ + decimal_digits(dimension_of(t) as nat)
            + ") VECTOR_INDEX(phi = 5.71);"@)
    } else {
        Err(GqlErrorView::Unsupported("Unsupported GQL statement. Supported: MATCH, INSERT, CREATE VECTOR INDEX"@))
    }
}


/// The distance bound written for a similarity bound `t` is a numeral of
/// the grammar and reads back as exactly `1 - t`, with as many decimals
/// as `t`.
pub proof fn law_distance_bound_is_exact(neg: bool, int_digits: Seq<char>, frac: Seq<char>)
    requires
        all_digits(int_digits),
        all_digits(frac),
        int_digits.len() >= 1,
    ensures
        gql_number_at(complement_text(neg, int_digits, frac), 0) matches Some((e, (n2, i2, f2)))
            && e == complement_text(neg, int_digits, frac).len()
            && f2.len() == frac.len()
            && (if n2 { -(digits_value(i2 + f2) as int) } else { digits_value(i2 + f2) as int })
                == pow10(frac.len()) - (if neg { -(digits_value(int_digits + frac) as int) } else {
                    digits_value(int_digits + frac) as int
                }),
{
    let f = frac.len();
    let p = pow10(f);
    let n = digits_value(int_digits + frac) as int;
    let r = p - (if neg { -n } else { n });
    let a: nat = if r < 0 { (-r) as nat } else { r as nat };
    let sign: Seq<char> = if r < 0 { "-"@ } else { Seq::empty() };
    let q = a / p;
    let rem = a % p;
    let txt = complement_text(neg, int_digits, frac);
    reveal_strlit("-");
    reveal_strlit(".");
    crate::decimal::lemma_pow10_positive(f);
    vstd::arithmetic::div_mod::lemma_fundamental_div_mod(a as int, p as int);
    vstd::arithmetic::div_mod::lemma_mod_pos_bound(a as int, p as int);
    crate::decimal::lemma_decimal_digits_value(q);
    crate::decimal::lemma_padded_digits(rem, f);
    let dq = decimal_digits(q);
    let pr = crate::decimal::padded(rem, f);
    let a0 = sign.len() as int;
    let d = a0 + dq.len();
    assert(txt == if f == 0 { sign + dq } else { sign + dq + "."@ + pr });
    assert forall|k: int| a0 <= k < d implies crate::ddl_parser::is_digit(#[trigger] txt[k]) by {
        assert(txt[k] == dq[k - a0]);
    }
    assert(crate::ddl_parser::is_digit(dq[0]));
    assert(txt[a0] == dq[0]);
    assert(!crate::ddl_parser::is_space(txt[0]));
    assert(skip_ws(txt, 0) == 0);
    assert(char_at(txt, 0, '-') == (r < 0));
    if f == 0 {
        assert(d == txt.len());
        crate::decimal::lemma_digits_run(txt, a0, d);
        assert(txt.subrange(a0, d) =~= dq);
        assert(pr =~= Seq::<char>::empty());
        assert(dq + Seq::<char>::empty() =~= dq);
        crate::decimal::lemma_value_append(dq, Seq::<char>::empty());
        assert(p == 1);
        assert(a == q * 1 + rem);
    } else {
        assert(txt[d] == '.');
        crate::decimal::lemma_digits_run(txt, a0, d);
        assert forall|k: int| d + 1 <= k < txt.len() implies crate::ddl_parser::is_digit(#[trigger] txt[k]) by {
            assert(txt[k] == pr[k - d - 1]);
        }
        crate::decimal::lemma_digits_run(txt, d + 1, txt.len() as int);
        assert(txt.len() == d + 1 + f);
        assert(txt.subrange(a0, d) =~= dq);
        assert(txt.subrange(d + 1, txt.len() as int) =~= pr);
        crate::decimal::lemma_value_append(dq, pr);
    }
}

// ------------------------------------------------------------- reading

/// Whether `w` stands at `i`, letter for letter.
fn text_is(s: &Vec<char>, i: usize, w: &str) -> (b: bool)
    requires
        i <= s.len(),
    ensures
        b == text_at(s@, i as int, w@),
{
    let n = w.unicode_len();
    if n > s.len() - i {
        return false;
    }
    let mut k: usize = 0;
    while k < n
        invariant
            k <= n,
            n == w@.len(),
            i + n <= s.len(),
            forall|m: int| 0 <= m < k ==> s@[i + m] == #[trigger] w@[m],
        decreases n - k,
    {
        if s[i + k] != w.get_char(k) {
            proof {
                assert(s@.subrange(i as int, i + n)[k as int] != w@[k as int]);
            }
            return false;
        }
        k = k + 1;
    }
    proof {
        assert(s@.subrange(i as int, i + n) =~= w@);
    }
    true
}

/// The characters of `s` from `a` to `b`.
fn slice(s: &Vec<char>, a: usize, b: usize) -> (r: Vec<char>)
    requires
        a <= b <= s.len(),
    ensures
        r@ == s@.subrange(a as int, b as int),
{
    let mut r: Vec<char> = Vec::new();
    let mut k = a;
    while k < b
        invariant
            a <= k <= b <= s.len(),
            r@ == s@.subrange(a as int, k as int),
        decreases b - k,
    {
        r.push(s[k]);
        proof {
            assert(s@.subrange(a as int, k + 1) =~= s@.subrange(a as int, k as int).push(s@[k as int]));
        }
        k = k + 1;
    }
    r
}

/// A numeral after optional whitespace: sign, integer digits, decimals.
fn gql_number(s: &Vec<char>, i: usize) -> (r: Option<(usize, bool, Vec<char>, Vec<char>)>)
    requires
        i <= s.len(),
    ensures
        match r {
            Some((e, neg, int_digits, frac)) => gql_number_at(s@, i as int) == Some((e as int, (neg, int_digits@, frac@)))
                && e <= s.len() && all_digits(int_digits@) && all_digits(frac@) && int_digits@.len() >= 1,
            None => gql_number_at(s@, i as int) is None,
        },
{
    let k = skip_ws_from(s, i);
    let neg = char_is(s, k, '-');
    let a = if neg { k + 1 } else { k };
    let d = digits_from(s, a);
    if d <= a {
        return None;
    }
    let int_digits = slice(s, a, d);
    proof {
        assert(all_digits(int_digits@)) by {
            assert forall|j: int| 0 <= j < int_digits@.len() implies crate::ddl_parser::is_digit(#[trigger] int_digits@[j]) by {
                assert(int_digits@[j] == s@[a + j]);
            }
        }
    }
    if char_is(s, d, '.') {
        let e = digits_from(s, d + 1);
        if e > d + 1 {
            let frac = slice(s, d + 1, e);
            proof {
                assert(all_digits(frac@)) by {
                    assert forall|j: int| 0 <= j < frac@.len() implies crate::ddl_parser::is_digit(#[trigger] frac@[j]) by {
                        assert(frac@[j] == s@[d + 1 + j]);
                    }
                }
            }
            return Some((e, neg, int_digits, frac));
        }
    }
    let frac: Vec<char> = Vec::new();
    proof {
        assert(frac@ =~= Seq::<char>::empty());
    }
    Some((d, neg, int_digits, frac))
}

/// `MATCH (alias:Label)` after optional whitespace.
fn gql_match(s: &Vec<char>, i: usize) -> (r: Option<(usize, String, String)>)
    requires
        i <= s.len(),
    ensures
        match r {
            Some((e, alias, label)) => gql_match_at(s@, i as int) == Some((e as int, (alias@, label@))) && e <= s.len(),
            None => gql_match_at(s@, i as int) is None,
        },
{
    let k = skip_ws_from(s, i);
    let m = match tag(s, k, "MATCH") {
        Some(m) => m,
        None => {
            return None;
        },
    };
    let o = skip_ws_from(s, m);
    if !char_is(s, o, '(') {
        return None;
    }
    let (e1, alias) = match crate::parser::name_from(s, o + 1) {
        Some(x) => x,
        None => {
            return None;
        },
    };
    let c = skip_ws_from(s, e1);
    if !char_is(s, c, ':') {
        return None;
    }
    let (e2, label) = match crate::parser::name_from(s, c + 1) {
        Some(x) => x,
        None => {
            return None;
        },
    };
    let d = skip_ws_from(s, e2);
    if char_is(s, d, ')') {
        Some((d + 1, alias, label))
    } else {
        None
    }
}

fn query_ref(s: &Vec<char>, j: usize) -> (r: Option<usize>)
    requires
        j <= s.len(),
    ensures
        crate::ddl_parser::opt_pos(r) == query_ref_at(s@, j as int),
        r matches Some(e) ==> e <= s.len(),
{
    proof {
        reveal_strlit("$query");
        reveal_strlit("$q");
        reveal_strlit("query_vector");
    }
    if text_is(s, j, "$query") {
        Some(j + 6)
    } else if text_is(s, j, "$q") {
        Some(j + 2)
    } else if text_is(s, j, "query_vector") {
        Some(j + 12)
    } else {
        None
    }
}

/// `WHERE cosine_similarity(field, $query) > t` after optional whitespace.
fn gql_where(s: &Vec<char>, i: usize) -> (r: Option<(usize, String, bool, Vec<char>, Vec<char>)>)
    requires
        i <= s.len(),
    ensures
        match r {
            Some((e, field, neg, int_digits, frac)) => gql_where_at(s@, i as int)
                == Some((e as int, (field@, (neg, int_digits@, frac@))))
                && e <= s.len() && all_digits(int_digits@) && all_digits(frac@) && int_digits@.len() >= 1,
            None => gql_where_at(s@, i as int) is None,
        },
{
    proof {
        reveal_strlit("$query");
        reveal_strlit("$q");
        reveal_strlit("query_vector");
    }
    let k = skip_ws_from(s, i);
    let w = match tag(s, k, "WHERE") {
        Some(w) => w,
        None => {
            return None;
        },
    };
    let c = skip_ws_from(s, w);
    let cs = match tag(s, c, "cosine_similarity") {
        Some(x) => x,
        None => {
            return None;
        },
    };
    let o = skip_ws_from(s, cs);
    if !char_is(s, o, '(') {
        return None;
    }
    let (e1, field) = match crate::parser::name_from(s, o + 1) {
        Some(x) => x,
        None => {
            return None;
        },
    };
    let a = skip_ws_from(s, e1);
    if !char_is(s, a, ',') {
        return None;
    }
    let e2 = match query_ref(s, skip_ws_from(s, a + 1)) {
        Some(x) => x,
        None => {
            return None;
        },
    };
    let b = skip_ws_from(s, e2);
    if !char_is(s, b, ')') {
        return None;
    }
    let g = skip_ws_from(s, b + 1);
    if !char_is(s, g, '>') {
        return None;
    }
    match gql_number(s, g + 1) {
        Some((e3, neg, int_digits, frac)) => Some((e3, field, neg, int_digits, frac)),
        None => None,
    }
}

/// `RETURN` and names after optional whitespace.
fn gql_return(s: &Vec<char>, i: usize) -> (r: Option<(usize, Vec<String>)>)
    requires
        i <= s.len(),
    ensures
        match r {
            Some((e, fs)) => gql_return_at(s@, i as int) == Some((e as int, crate::ast::strings_view(fs@))) && e <= s.len(),
            None => gql_return_at(s@, i as int) is None,
        },
{
    let k = skip_ws_from(s, i);
    let m = match tag(s, k, "RETURN") {
        Some(m) => m,
        None => {
            return None;
        },
    };
    let a = skip_ws_from(s, m);
    let mut fields: Vec<String> = Vec::new();
    let (e, first) = match crate::parser::name_from(s, a) {
        Some(x) => x,
        None => {
            proof {
                assert(crate::ast::strings_view(fields@) =~= Seq::<Seq<char>>::empty());
            }
            return Some((a, fields));
        },
    };
    fields.push(first);
    proof {
        assert(crate::ast::strings_view(fields@) =~= seq![first@]);
    }
    let mut p = e;
    loop
        invariant
            p <= s.len(),
            gql_return_at(s@, i as int) == Some((gql_more_names(s@, p as int).0,
                crate::ast::strings_view(fields@) + gql_more_names(s@, p as int).1)),
        decreases s.len() - p,
    {
        let b = skip_ws_from(s, p);
        if !char_is(s, b, ',') {
            proof {
                assert(crate::ast::strings_view(fields@) + Seq::<Seq<char>>::empty() =~= crate::ast::strings_view(fields@));
            }
            return Some((p, fields));
        }
        match crate::parser::name_from(s, b + 1) {
            Some((e2, n)) => {
                proof {
                    crate::ddl_parser::lemma_skip_ws(s@, p as int);
                    crate::parser::lemma_name_at(s@, b + 1);
                    let fv = crate::ast::strings_view(fields@);
                    assert(crate::ast::strings_view(fields@.push(n)) =~= fv.push(n@));
                    assert(fv + (seq![n@] + gql_more_names(s@, e2 as int).1) =~= fv.push(n@) + gql_more_names(s@, e2 as int).1);
                }
                fields.push(n);
                p = e2;
            },
            None => {
                proof {
                    assert(crate::ast::strings_view(fields@) + Seq::<Seq<char>>::empty() =~= crate::ast::strings_view(fields@));
                }
                return Some((p, fields));
            },
        }
    }
}

/// `ORDER BY field [DESC]` after optional whitespace.
fn gql_order(s: &Vec<char>, i: usize) -> (r: Option<(usize, String, bool)>)
    requires
        i <= s.len(),
    ensures
        match r {
            Some((e, field, asc)) => gql_order_at(s@, i as int) == Some((e as int, (field@, asc))) && e <= s.len(),
            None => gql_order_at(s@, i as int) is None,
        },
{
    let k = skip_ws_from(s, i);
    let a = match tag(s, k, "ORDER BY") {
        Some(a) => a,
        None => {
            return None;
        },
    };
    let (e, field) = match crate::parser::name_from(s, a) {
        Some(x) => x,
        None => {
            return None;
        },
    };
    let b = skip_ws_from(s, e);
    match tag(s, b, "DESC") {
        Some(f) => Some((f, field, false)),
        None => Some((b, field, true)),
    }
}

/// `LIMIT n` after optional whitespace.
fn gql_limit(s: &Vec<char>, i: usize) -> (r: Option<(usize, u32)>)
    requires
        i <= s.len(),
    ensures
        match r {
            Some((e, n)) => gql_limit_at(s@, i as int) == Some((e as int, n)) && e <= s.len(),
            None => gql_limit_at(s@, i as int) is None,
        },
{
    let k = skip_ws_from(s, i);
    let l = match tag(s, k, "LIMIT") {
        Some(l) => l,
        None => {
            return None;
        },
    };
    let a = skip_ws_from(s, l);
    let d = digits_from(s, a);
    if d > a {
        Some((d, crate::parser::u32_or_from(s, a, d, 10)))
    } else {
        None
    }
}

/// The names joined with `, `.
fn join_names(ns: &Vec<String>) -> (r: String)
    ensures
        r@ == joined(crate::ast::strings_view(ns@)),
{
    let mut out = String::new();
    let mut i: usize = 0;
    while i < ns.len()
        invariant
            i <= ns@.len(),
            out@ == joined(crate::ast::strings_view(ns@).take(i as int)),
        decreases ns@.len() - i,
    {
        let ghost t = crate::ast::strings_view(ns@).take(i + 1);
        proof {
            assert(t.drop_last() =~= crate::ast::strings_view(ns@).take(i as int));
            assert(t.last() == ns@[i as int]@);
        }
        if i == 0 {
            out = cat(out, ns[i].as_str());
            proof {
                assert(t.len() == 1);
                assert(out@ =~= t[0]);
            }
        } else {
            out = cat(cat(out, ", "), ns[i].as_str());
        }
        i = i + 1;
    }
    proof {
        assert(crate::ast::strings_view(ns@).take(ns@.len() as int) =~= crate::ast::strings_view(ns@));
    }
    out
}

// ----------------------------------------------------------- rewriting

spec fn cond_view(c: Option<(String, bool, Vec<char>, Vec<char>)>) -> Option<(Seq<char>, (bool, Seq<char>, Seq<char>))> {
    match c {
        Some(x) => Some((x.0@, (x.1, x.2@, x.3@))),
        None => None,
    }
}

spec fn order_view(o: Option<(String, bool)>) -> Option<(Seq<char>, bool)> {
    match o {
        Some(x) => Some((x.0@, x.1)),
        None => None,
    }
}

/// The query text of a `MATCH` statement.
fn translate_match(t: &Vec<char>) -> (r: Result<String, GqlError>)
    ensures
        match translate_match_spec(t@) {
            Ok(q) => r matches Ok(x) && x@ == q,
            Err(m) => r matches Err(GqlError::Parse(x)) && x@ == m,
        },
{
    let (e1, alias, label) = match gql_match(t, 0) {
        Some(x) => x,
        None => {
            return Err(GqlError::Parse(String::from_str("Failed to parse MATCH clause")));
        },
    };
    let (e2, cond) = match gql_where(t, e1) {
        Some((e, field, neg, int_digits, frac)) => (e, Some((field, neg, int_digits, frac))),
        None => (e1, None),
    };
    let (e3, fields) = match gql_return(t, e2) {
        Some(x) => x,
        None => {
            return Err(GqlError::Parse(String::from_str("Failed to parse RETURN")));
        },
    };
    let (e4, order) = match gql_order(t, e3) {
        Some((e, field, asc)) => (e, Some((field, asc))),
        None => (e3, None),
    };
    let limit: u32 = match gql_limit(t, e4) {
        Some((_, n)) => n,
        None => 10,
    };
    let ghost cond_v = cond_view(cond);
    let ghost order_v = order_view(order);
    let head = cat(cat(cat(cat(String::from_str("MATCH ("), alias.as_str()), ":"), label.as_str()), ")");
    let w = match cond {
        Some((field, neg, int_digits, frac)) => {
            let c = complement(neg, &int_digits, &frac);
            cat(cat(cat(cat(String::from_str(" WHERE TOROIDALDISTANCE("), field.as_str()), ", "), c.as_str()), ")")
        },
        None => String::new(),
    };
    let rs = if fields.len() > 0 {
        let j = join_names(&fields);
        cat(String::from_str(" RETURN "), j.as_str())
    } else {
        String::new()
    };
    let o = match order {
        Some((field, asc)) => {
            let x = cat(String::from_str(" ORDER BY "), field.as_str());
            if asc {
                x
            } else {
                cat(x, " DESC")
            }
        },
        None => String::new(),
    };
    let digits = u64_to_decimal(limit as u64);
    let q = cat(cat(cat(cat(cat(head, w.as_str()), rs.as_str()), o.as_str()), " LIMIT "), digits.as_str());
    proof {
        assert(q@ == match_text(alias@, label@, cond_v, crate::ast::strings_view(fields@), order_v, limit));
    }
    Ok(q)
}

/// The label after the first colon of `t`.
fn label_after(t: &Vec<char>, brace: bool) -> (r: Option<String>)
    ensures
        match r {
            Some(l) => label_after_colon(t@, brace) == Some(l@),
            None => label_after_colon(t@, brace) is None,
        },
{
    let n = t.len();
    let mut c: usize = 0;
    while c < n && t[c] != ':'
        invariant
            c <= n == t@.len(),
            colon_from(t@, c as int) == colon_from(t@, 0),
        decreases n - c,
    {
        c = c + 1;
    }
    if c >= n {
        return None;
    }
    let mut e = c + 1;
    while e < n && !(t[e] == ':' || t[e] == ' ' || t[e] == ')' || (brace && t[e] == '{'))
        invariant
            c + 1 <= e <= n == t@.len(),
            label_stop(t@, e as int, brace) == label_stop(t@, c + 1, brace),
        decreases n - e,
    {
        e = e + 1;
    }
    Some(collect(t, c + 1, e))
}

/// The first position from `i` where `w` stands, or the end.
fn find(t: &Vec<char>, i: usize, w: &str) -> (r: usize)
    requires
        i <= t.len(),
    ensures
        r == find_from(t@, i as int, w@),
        i <= r <= t.len(),
{
    let mut k = i;
    while k < t.len() && !text_is(t, k, w)
        invariant
            i <= k <= t@.len(),
            find_from(t@, k as int, w@) == find_from(t@, i as int, w@),
        decreases t@.len() - k,
    {
        k = k + 1;
    }
    k
}

pub proof fn lemma_find_from(t: Seq<char>, i: int, w: Seq<char>)
    requires
        0 <= i,
    ensures
        i <= find_from(t, i, w),
        find_from(t, i, w) < t.len() ==> text_at(t, find_from(t, i, w), w),
        i <= t.len() ==> find_from(t, i, w) <= t.len(),
    decreases t.len() - i,
{
    if 0 <= i < t.len() && !text_at(t, i, w) {
        lemma_find_from(t, i + 1, w);
    }
}

/// The dimension of a `CREATE VECTOR INDEX` statement.
fn dimension(t: &Vec<char>) -> (d: u32)
    ensures
        d == dimension_of(t@),
{
    proof {
        reveal_strlit("DIMENSION");
    }
    let n = t.len();
    let p = find(t, 0, "DIMENSION");
    if p >= n {
        return 1536;
    }
    proof {
        lemma_find_from(t@, 0, "DIMENSION"@);
    }
    let b = find(t, p + 9, "DIMENSION");
    let ts = white_end_from(t, p + 9, b);
    let mut te = ts;
    while te < b && !white(t[te])
        invariant
            ts <= te <= b <= t@.len(),
            token_end(t@, te as int, b as int) == token_end(t@, ts as int, b as int),
        decreases b - te,
    {
        te = te + 1;
    }
    if te <= ts {
        return 1536;
    }
    let tok = slice(t, ts, te);
    let d = if tok[0] == '+' { slice(&tok, 1, tok.len()) } else { slice(&tok, 0, tok.len()) };
    proof {
        assert(tok@.subrange(0, tok@.len() as int) =~= tok@);
        assert(d@.subrange(0, d@.len() as int) =~= d@);
        assert(tok@ == t@.subrange(ts as int, te as int));
        let dd = if tok@.len() > 0 && tok@[0] == '+' { tok@.subrange(1, tok@.len() as int) } else { tok@ };
        assert(dd == d@);
    }
    match u32_from(&d, 0) {
        Some((e, v)) => if e == d.len() {
            v
        } else {
            1536
        },
        None => 1536,
    }
}

/// Whether `CREATE VECTOR INDEX` stands somewhere in `t`, in any case.
fn mentions_index(upper: &str) -> (b: bool)
    ensures
        b == occurs_in("CREATE VECTOR INDEX"@, upper@),
{
    text_contains(upper, "CREATE VECTOR INDEX")
}

/// Whether the characters of `w` begin `u`.
fn begins_with(u: &str, w: &str) -> (b: bool)
    ensures
        b == w@.is_prefix_of(u@),
{
    let n = w.unicode_len();
    if n > u.unicode_len() {
        return false;
    }
    let mut k: usize = 0;
    while k < n
        invariant
            n == w@.len(),
            n <= u@.len(),
            k <= n,
            forall|j: int| 0 <= j < k ==> u@[j] == w@[j],
        decreases n - k,
    {
        if u.get_char(k) != w.get_char(k) {
            return false;
        }
        k = k + 1;
    }
    assert(w@ =~= u@.subrange(0, n as int));
    true
}

/// Rewrites GQL statements into the query language.
pub struct GqlBridge;

impl GqlBridge {
    /// A bridge.
    pub fn new() -> (b: Self) {
        GqlBridge
    }

    /// Rewrites a statement: `MATCH` (see the module documentation),
    /// `INSERT (:Label ...)` into the creation of that node type and a query
    /// of it, and a statement that mentions `CREATE VECTOR INDEX` into an
    /// `ALTER NODE TYPE` that adds a vector field with the given
    /// `DIMENSION`; anything else is unsupported.
    pub fn translate(&self, gql: &str) -> (r: Result<String, GqlError>)
        ensures
            match rewrite_of(gql@) {
                Ok(q) => r matches Ok(x) && x@ == q,
                Err(e) => r matches Err(x) && x@ == e,
            },
    {
        let s = chars_of(gql);
        let n = s.len();
        let a = white_end_from(&s, 0, n);
        let b = white_start_from(&s, a, n);
        let t = slice(&s, a, b);
        let text = collect(&t, 0, t.len());
        proof {
            assert(t@.subrange(0, t@.len() as int) =~= t@);
        }
        let upper = to_uppercase(text.as_str());
        if begins_with(upper.as_str(), "MATCH") {
            return translate_match(&t);
        }
        if begins_with(upper.as_str(), "INSERT") {
            return match label_after(&t, true) {
                Some(label) => {
                    let q = cat(cat(cat(cat(String::from_str("CREATE NODE TYPE "), label.as_str()),
                        " (id INT PRIMARY KEY);\nMATCH (n:"), label.as_str()), ") RETURN n.id LIMIT 1");
                    Ok(q)
                },
                None => Err(GqlError::Parse(String::from_str("Could not extract label"))),
            };
        }
        if mentions_index(upper.as_str()) {
            let label = match label_after(&t, false) {
                Some(l) => l,
                None => String::from_str("Document"),
            };
            let dim = u64_to_decimal(dimension(&t) as u64);
            let q = cat(cat(cat(cat(String::from_str("ALTER NODE TYPE "), label.as_str()), " ADD content_t3 VECTOR("),
                dim.as_str()), ") VECTOR_INDEX(phi = 5.71);");
            return Ok(q);
        }
        Err(GqlError::Unsupported(String::from_str("Unsupported GQL statement. Supported: MATCH, INSERT, CREATE VECTOR INDEX")))
    }
}

impl GqlError {
    /// The error's message.
    pub fn message(&self) -> (m: String)
        ensures
            m@ == match self@ {
                GqlErrorView::Parse(x) => "GQL parse error: "@ + x,
                GqlErrorView::Execution(x) => "GQL execution error: "@ + x,
                GqlErrorView::Unsupported(x) => "GQL unsupported: "@ + x,
            },
    {
        match self {
            GqlError::Parse(x) => cat(String::from_str("GQL parse error: "), x.as_str()),
            GqlError::Execution(x) => cat(String::from_str("GQL execution error: "), x.as_str()),
            GqlError::Unsupported(x) => cat(String::from_str("GQL unsupported: "), x.as_str()),
        }
    }
}

} // verus!
