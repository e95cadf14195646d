//! The query language:
//!
//! ```text
//! [DISTRIBUTED] [HINTS ...] MATCH pattern [WHERE condition]
//! [CONNECTEDTO(...)] [WITHIN n [TO m] HOPS] RETURN items [ORDER BY field]
//! LIMIT n
//! ```
//!
//! As in the schema definition language, the grammar is given by spec
//! functions that read from a position of the input's characters and give
//! the position after what they read with the value read, or `None`.
//! Whitespace may stand between the tokens; keywords match without regard
//! to ASCII case; names are made of letters, digits, `_` and `.`, so that
//! `node.id` is one name. Decimal numbers are kept as the literal written.

use vstd::prelude::*;
use crate::bm25::{alphanumeric, is_alphanumeric};
use crate::ddl_parser::{char_at, char_is, chars_of, collect, digits_end, digits_from, digits_value, is_digit, is_space, fold_case, keyword_at, keyword_ws1, lemma_digits_end, lemma_skip_ws, opt_pos, skip_ws, skip_ws_from, tag, tag_ws1, u32_at, u32_from};
use crate::ast::{AggView, AggregationField, AggregationFunction, BackendHint, ConnectedClause, ConnectedView, Direction, MatchClause, ReturnClause, MatchView, NodePattern, NodeView, OrderByClause, PropertyValue, Query, QueryHints, RelationshipPattern, ValueView, WhereCondition, WhereView, WithinClause, aggregation_view, aggregations_view, no_extras, order_view, pairs_view, relationship_view, strings_view};

verus! {

// ---------------------------------------------------------------- tokens

/// Characters of a name.
pub open spec fn is_name_char(c: char) -> bool {
    alphanumeric(c) || c == '_' || c == '.'
}

/// The end of the name characters that start at `i`.
pub open spec fn name_end(s: Seq<char>, i: int) -> int
    decreases s.len() - i,
{
    if 0 <= i < s.len() && is_name_char(s[i]) { name_end(s, i + 1) } else { i }
}

/// A name after optional whitespace.
pub open spec fn name_at(s: Seq<char>, i: int) -> Option<(int, Seq<char>)> {
    let k = skip_ws(s, i);
    let e = name_end(s, k);
    if e > k { Some((e, s.subrange(k, e))) } else { None }
}

/// ASCII letters.
pub open spec fn is_letter(c: char) -> bool {
    ('a' <= c <= 'z') || ('A' <= c <= 'Z')
}

/// The end of the ASCII letters that start at `i`.
pub open spec fn letters_end(s: Seq<char>, i: int) -> int
    decreases s.len() - i,
{
    if 0 <= i < s.len() && is_letter(s[i]) { letters_end(s, i + 1) } else { i }
}

/// One or more ASCII letters at `i`.
pub open spec fn letters_at(s: Seq<char>, i: int) -> Option<(int, Seq<char>)> {
    let e = letters_end(s, i);
    if e > i { Some((e, s.subrange(i, e))) } else { None }
}

/// A label after optional whitespace: `:` and ASCII letters.
pub open spec fn label_at(s: Seq<char>, i: int) -> Option<(int, Seq<char>)> {
    let k = skip_ws(s, i);
    if char_at(s, k, ':') { letters_at(s, k + 1) } else { None }
}

/// A decimal number after optional whitespace: an optional `-`, digits,
/// and a point with digits where they follow. The literal as written.
pub open spec fn number_at(s: Seq<char>, i: int) -> Option<(int, Seq<char>)> {
    let k = skip_ws(s, i);
    let a = if char_at(s, k, '-') { k + 1 } else { k };
    let d = digits_end(s, a);
    if d > a {
        let e = if char_at(s, d, '.') && digits_end(s, d + 1) > d + 1 { digits_end(s, d + 1) } else { d };
        Some((e, s.subrange(k, e)))
    } else {
        None
    }
}

/// The end of the characters other than `"` that start at `i`.
pub open spec fn quote_end(s: Seq<char>, i: int) -> int
    decreases s.len() - i,
{
    if 0 <= i < s.len() && s[i] != '"' { quote_end(s, i + 1) } else { i }
}

/// A string literal after optional whitespace: one or more characters
/// between double quotes.
pub open spec fn string_at(s: Seq<char>, i: int) -> Option<(int, Seq<char>)> {
    let k = skip_ws(s, i);
    let e = quote_end(s, k + 1);
    if char_at(s, k, '"') && e > k + 1 && char_at(s, e, '"') {
        Some((e + 1, s.subrange(k + 1, e)))
    } else {
        None
    }
}

/// A property value after optional whitespace: a string literal, else a
/// number, else `true` or `false` in any case.
pub open spec fn value_at(s: Seq<char>, i: int) -> Option<(int, ValueView)> {
    let k = skip_ws(s, i);
    match string_at(s, k) {
        Some((e, t)) => Some((e, ValueView::Str(t))),
        None => match number_at(s, k) {
            Some((e, t)) => Some((e, ValueView::Number(t))),
            None => if keyword_at(s, k, "true"@) {
                Some((k + "true"@.len(), ValueView::Boolean(true)))
            } else if keyword_at(s, k, "false"@) {
                Some((k + "false"@.len(), ValueView::Boolean(false)))
            } else {
                None
            },
        },
    }
}

/// The number that the digits `d` write where it fits in a `u32`, else
/// `default`.
pub open spec fn u32_or(d: Seq<char>, default: u32) -> u32 {
    if digits_value(d) <= u32::MAX { digits_value(d) as u32 } else { default }
}

// ----------------------------------------------------------------- hints

/// A backend name at `u`: `GPU`, `AVX512`, `AVX2`, `SCALAR` or `AUTO`,
/// tried in this order.
pub open spec fn backend_at(s: Seq<char>, u: int) -> Option<(int, BackendHint)> {
    if keyword_at(s, u, "GPU"@) {
        Some((u + "GPU"@.len(), BackendHint::Gpu))
    } else if keyword_at(s, u, "AVX512"@) {
        Some((u + "AVX512"@.len(), BackendHint::Avx512))
    } else if keyword_at(s, u, "AVX2"@) {
        Some((u + "AVX2"@.len(), BackendHint::Avx2))
    } else if keyword_at(s, u, "SCALAR"@) {
        Some((u + "SCALAR"@.len(), BackendHint::Scalar))
    } else if keyword_at(s, u, "AUTO"@) {
        Some((u + "AUTO"@.len(), BackendHint::Auto))
    } else {
        None
    }
}

/// Each backend word, in any case, names its own backend hint, ending
/// right after the word; and a hint read from the text stands for the word
/// found there.
pub proof fn law_backend_words(s: Seq<char>, u: int)
    ensures
        keyword_at(s, u, "GPU"@) ==> backend_at(s, u) == Some((u + 3, BackendHint::Gpu)),
        keyword_at(s, u, "AVX512"@) ==> backend_at(s, u) == Some((u + 6, BackendHint::Avx512)),
        keyword_at(s, u, "AVX2"@) ==> backend_at(s, u) == Some((u + 4, BackendHint::Avx2)),
        keyword_at(s, u, "SCALAR"@) ==> backend_at(s, u) == Some((u + 6, BackendHint::Scalar)),
        keyword_at(s, u, "AUTO"@) ==> backend_at(s, u) == Some((u + 4, BackendHint::Auto)),
        backend_at(s, u) matches Some((_, b)) ==> {
            &&& b == BackendHint::Gpu ==> keyword_at(s, u, "GPU"@)
            &&& b == BackendHint::Avx512 ==> keyword_at(s, u, "AVX512"@)
            &&& b == BackendHint::Avx2 ==> keyword_at(s, u, "AVX2"@)
            &&& b == BackendHint::Scalar ==> keyword_at(s, u, "SCALAR"@)
            &&& b == BackendHint::Auto ==> keyword_at(s, u, "AUTO"@)
        },
{
    reveal_strlit("GPU");
    reveal_strlit("AVX512");
    reveal_strlit("AVX2");
    reveal_strlit("SCALAR");
    reveal_strlit("AUTO");
    if 0 <= u && u + 1 < s.len() {
        let c0 = fold_case(s[u]);
        let c1 = fold_case(s[u + 1]);
        if keyword_at(s, u, "GPU"@) {
            assert("GPU"@[0] == 'G');
            assert(c0 == fold_case("GPU"@[0]));
        }
        if keyword_at(s, u, "SCALAR"@) {
            assert("SCALAR"@[0] == 'S');
            assert(c0 == fold_case("SCALAR"@[0]));
        }
        if keyword_at(s, u, "AVX512"@) {
            assert("AVX512"@[1] == 'V' && "AVX512"@[3] == '5');
            assert(c1 == fold_case("AVX512"@[1]));
            assert("AVX512"@[0] == 'A');
            assert(c0 == fold_case("AVX512"@[0]));
            assert(fold_case(s[u + 3]) == fold_case("AVX512"@[3]));
        }
        if keyword_at(s, u, "AVX2"@) {
            assert("AVX2"@[1] == 'V' && "AVX2"@[3] == '2');
            assert(c1 == fold_case("AVX2"@[1]));
            assert("AVX2"@[0] == 'A');
            assert(c0 == fold_case("AVX2"@[0]));
            assert(fold_case(s[u + 3]) == fold_case("AVX2"@[3]));
        }
        if keyword_at(s, u, "AUTO"@) {
            assert("AUTO"@[1] == 'U' && "AUTO"@[0] == 'A');
            assert(c1 == fold_case("AUTO"@[1]));
            assert(c0 == fold_case("AUTO"@[0]));
        }
    }
}

/// `USING backend` at `a`, where it stands.
pub open spec fn using_at(s: Seq<char>, a: int) -> (int, Option<BackendHint>) {
    match keyword_ws1(s, a, "USING"@) {
        Some(u) => match backend_at(s, u) {
            Some((e, b)) => (e, Some(b)),
            None => (a, None),
        },
        None => (a, None),
    }
}

/// `SCATTER n [SHARDS]` at `a`, where it stands and `n` fits in a `u32`.
pub open spec fn scatter_at(s: Seq<char>, a: int) -> (int, Option<u32>) {
    match keyword_ws1(s, a, "SCATTER"@) {
        Some(u) => match u32_at(s, u) {
            Some((e, n)) => {
                let b = skip_ws(s, e);
                if keyword_at(s, b, "SHARDS"@) { (b + "SHARDS"@.len(), Some(n)) } else { (e, Some(n)) }
            },
            None => (a, None),
        },
        None => (a, None),
    }
}

/// `PREFER LOCAL_SHARD` at `a`, where it stands.
pub open spec fn prefer_at(s: Seq<char>, a: int) -> (int, bool) {
    match keyword_ws1(s, a, "PREFER"@) {
        Some(u) => if keyword_at(s, u, "LOCAL_SHARD"@) { (u + "LOCAL_SHARD"@.len(), true) } else { (a, false) },
        None => (a, false),
    }
}

/// `PREFETCH GRAPH_HOPS n` at `a`, where it stands and `n` fits in a `u32`.
pub open spec fn prefetch_at(s: Seq<char>, a: int) -> (int, Option<u32>) {
    match keyword_ws1(s, a, "PREFETCH"@) {
        Some(u) => match keyword_ws1(s, u, "GRAPH_HOPS"@) {
            Some(v) => match u32_at(s, v) {
                Some((e, n)) => (e, Some(n)),
                None => (a, None),
            },
            None => (a, None),
        },
        None => (a, None),
    }
}

/// `HINTS` after optional whitespace, then, each optional and in this
/// order, `USING backend`, `SCATTER n [SHARDS]`, `PREFER LOCAL_SHARD` and
/// `PREFETCH GRAPH_HOPS n`.
pub open spec fn hints_at(s: Seq<char>, i: int) -> Option<(int, QueryHints)> {
    let k = skip_ws(s, i);
    if keyword_at(s, k, "HINTS"@) {
        let (p1, backend) = using_at(s, skip_ws(s, k + "HINTS"@.len()));
        let (p2, scatter) = scatter_at(s, skip_ws(s, p1));
        let (p3, prefer) = prefer_at(s, skip_ws(s, p2));
        let (p4, prefetch) = prefetch_at(s, skip_ws(s, p3));
        Some((p4, QueryHints {
            force_gpu: false,
            scatter_shards: scatter,
            prefer_local_shard: prefer,
            backend: backend,
            prefetch_hops: prefetch,
        }))
    } else {
        None
    }
}

// -------------------------------------------------------------- patterns

/// `name:value` after optional whitespace.
pub open spec fn pair_at(s: Seq<char>, j: int) -> Option<(int, (Seq<char>, ValueView))> {
    match name_at(s, j) {
        Some((e1, n)) => if char_at(s, e1, ':') {
            match value_at(s, e1 + 1) {
                Some((e2, v)) => Some((e2, (n, v))),
                None => None,
            }
        } else {
            None
        },
        None => None,
    }
}

pub proof fn lemma_name_end(s: Seq<char>, i: int)
    ensures
        i <= name_end(s, i),
        0 <= i <= s.len() ==> name_end(s, i) <= s.len(),
    decreases s.len() - i,
{
    if 0 <= i < s.len() && is_name_char(s[i]) {
        lemma_name_end(s, i + 1);
    }
}

pub proof fn lemma_name_at(s: Seq<char>, i: int)
    ensures
        name_at(s, i) matches Some((e, _)) ==> i < e <= s.len(),
{
    lemma_skip_ws(s, i);
    let k = skip_ws(s, i);
    lemma_name_end(s, k);
    if name_end(s, k) > k {
        assert(0 <= k < s.len());
    }
}

pub proof fn lemma_quote_end(s: Seq<char>, i: int)
    ensures
        i <= quote_end(s, i),
        0 <= i <= s.len() ==> quote_end(s, i) <= s.len(),
    decreases s.len() - i,
{
    if 0 <= i < s.len() && s[i] != '"' {
        lemma_quote_end(s, i + 1);
    }
}

pub proof fn lemma_skip_ws_twice(s: Seq<char>, i: int)
    ensures
        skip_ws(s, skip_ws(s, i)) == skip_ws(s, i),
    decreases s.len() - i,
{
    if 0 <= i < s.len() && is_space(s[i]) {
        lemma_skip_ws_twice(s, i + 1);
    }
}

pub proof fn lemma_value_at(s: Seq<char>, i: int)
    ensures
        value_at(s, i) matches Some((e, _)) ==> i < e <= s.len(),
{
    lemma_skip_ws(s, i);
    lemma_skip_ws_twice(s, i);
    let k = skip_ws(s, i);
    lemma_quote_end(s, k + 1);
    let a = if char_at(s, k, '-') { k + 1 } else { k };
    lemma_digits_end(s, a);
    let d = digits_end(s, a);
    lemma_digits_end(s, d + 1);
    reveal_strlit("true");
    reveal_strlit("false");
}

pub proof fn lemma_pair_at(s: Seq<char>, j: int)
    ensures
        pair_at(s, j) matches Some((e, _)) ==> j < e <= s.len(),
{
    lemma_name_at(s, j);
    if let Some((e1, _)) = name_at(s, j) {
        lemma_value_at(s, e1 + 1);
    }
}

/// Pairs after the first, each after a comma; the position after the
/// last.
pub open spec fn more_pairs(s: Seq<char>, p: int) -> (int, Seq<(Seq<char>, ValueView)>)
    decreases s.len() - p,
{
    if char_at(s, p, ',') {
        match pair_at(s, p + 1) {
            Some((e, pr)) => {
                proof {
                    lemma_pair_at(s, p + 1);
                }
                let (f, rest) = more_pairs(s, e);
                (f, seq![pr] + rest)
            },
            None => (p, Seq::empty()),
        }
    } else {
        (p, Seq::empty())
    }
}

/// `{name:value, ...}` at `l`. Only the first pair is kept; the ones after
/// it are read and dropped.
pub open spec fn properties_at(s: Seq<char>, l: int) -> Option<(int, Seq<(Seq<char>, ValueView)>)> {
    if char_at(s, l, '{') {
        match pair_at(s, l + 1) {
            Some((e, pr)) => {
                let p = more_pairs(s, e).0;
                if char_at(s, p, '}') { Some((p + 1, seq![pr])) } else { None }
            },
            None => None,
        }
    } else {
        None
    }
}

/// `(alias:Label {properties})` after optional whitespace; the properties
/// are optional.
pub open spec fn node_pattern_at(s: Seq<char>, i: int) -> Option<(int, NodeView)> {
    let k = skip_ws(s, i);
    if char_at(s, k, '(') {
        match name_at(s, k + 1) {
            Some((a, alias)) => if char_at(s, a, ':') {
                match letters_at(s, a + 1) {
                    Some((l, label)) => {
                        let (p, properties) = match properties_at(s, l) {
                            Some((q, ps)) => (q, Some(ps)),
                            None => (l, None),
                        };
                        if char_at(s, p, ')') {
                            Some((p + 1, NodeView { alias, label, properties }))
                        } else {
                            None
                        }
                    },
                    None => None,
                }
            } else {
                None
            },
            None => None,
        }
    } else {
        None
    }
}

/// `[:TYPE]` at `j`: the position after `]` and the type.
pub open spec fn bracket_type_at(s: Seq<char>, j: int) -> Option<(int, Seq<char>)> {
    if char_at(s, j, '[') && char_at(s, j + 1, ':') {
        match letters_at(s, j + 2) {
            Some((e, t)) => if char_at(s, e, ']') { Some((e + 1, t)) } else { None },
            None => None,
        }
    } else {
        None
    }
}

/// A direction arrow after optional whitespace: `<-[:T]->` and `-[:T]->`
/// give `Outgoing`, `<-[:T]-` gives `Incoming`, tried in this order.
pub open spec fn direction_at(s: Seq<char>, i: int) -> Option<(int, Direction)> {
    let k = skip_ws(s, i);
    let both = if char_at(s, k, '<') && char_at(s, k + 1, '-') { bracket_type_at(s, k + 2) } else { None };
    let right = if char_at(s, k, '-') { bracket_type_at(s, k + 1) } else { None };
    let e1 = match both {
        Some((e, _)) => e,
        None => -1,
    };
    let e2 = match right {
        Some((e, _)) => e,
        None => -1,
    };
    if both is Some && char_at(s, e1, '-') && char_at(s, e1 + 1, '>') {
        Some((e1 + 2, Direction::Outgoing))
    } else if right is Some && char_at(s, e2, '-') && char_at(s, e2 + 1, '>') {
        Some((e2 + 2, Direction::Outgoing))
    } else if both is Some && char_at(s, e1, '-') {
        Some((e1 + 1, Direction::Incoming))
    } else {
        None
    }
}

/// `-[:TYPE]` and then `>` or `->` (outgoing), `<` (incoming) or `-`
/// (both), after optional whitespace.
pub open spec fn relationship_at(s: Seq<char>, i: int) -> Option<(int, (Seq<char>, Direction))> {
    let k = skip_ws(s, i);
    if char_at(s, k, '-') {
        match bracket_type_at(s, k + 1) {
            Some((e, t)) => if char_at(s, e, '>') {
                Some((e + 1, (t, Direction::Outgoing)))
            } else if char_at(s, e, '-') && char_at(s, e + 1, '>') {
                Some((e + 2, (t, Direction::Outgoing)))
            } else if char_at(s, e, '<') {
                Some((e + 1, (t, Direction::Incoming)))
            } else if char_at(s, e, '-') {
                Some((e + 1, (t, Direction::Both)))
            } else {
                None
            },
            None => None,
        }
    } else {
        None
    }
}

/// `MATCH` and a node pattern, then a relationship and a target pattern
/// where both follow.
pub open spec fn match_at(s: Seq<char>, i: int) -> Option<(int, MatchView)> {
    let k = skip_ws(s, i);
    if keyword_at(s, k, "MATCH"@) {
        match node_pattern_at(s, k + "MATCH"@.len()) {
            Some((e, source)) => {
                let step = match relationship_at(s, e) {
                    Some((e2, r)) => match node_pattern_at(s, e2) {
                        Some((e3, t)) => Some((e3, r, t)),
                        None => None,
                    },
                    None => None,
                };
                match step {
                    Some((e3, r, t)) => Some((e3, MatchView { source, relationship: Some(r), target: Some(t) })),
                    None => Some((e, MatchView { source, relationship: None, target: None })),
                }
            },
            None => None,
        }
    } else {
        None
    }
}

// --------------------------------------------------------------- clauses

/// `TOROIDALDISTANCE(field, threshold)` after optional whitespace.
pub open spec fn toroidal_at(s: Seq<char>, i: int) -> Option<(int, WhereView)> {
    let k = skip_ws(s, i);
    let o = k + "TOROIDALDISTANCE"@.len();
    if keyword_at(s, k, "TOROIDALDISTANCE"@) && char_at(s, o, '(') {
        match name_at(s, o + 1) {
            Some((e1, field)) => {
                let a = skip_ws(s, e1);
                if char_at(s, a, ',') {
                    match number_at(s, a + 1) {
                        Some((e2, t)) => if char_at(s, e2, ')') {
                            Some((e2 + 1, WhereView::ToroidalDistance(field, t)))
                        } else {
                            None
                        },
                        None => None,
                    }
                } else {
                    None
                }
            },
            None => None,
        }
    } else {
        None
    }
}

/// What follows the relationship type of `CONNECTEDTO` from `b` (after
/// whitespace): `)`; or a comma and a second string literal, which then
/// names the relationship, and `)`; or a comma, a property name, a comma,
/// a value and `)`.
pub open spec fn connected_rest_at(s: Seq<char>, b: int, rel: Seq<char>) -> Option<(int, (Seq<char>, Option<(Seq<char>, ValueView)>))> {
    if char_at(s, b, ',') {
        let c = skip_ws(s, b + 1);
        match string_at(s, c) {
            Some((e, rel2)) => {
                let d = skip_ws(s, e);
                if char_at(s, d, ')') { Some((d + 1, (rel2, None))) } else { None }
            },
            None => match name_at(s, c) {
                Some((e, p)) => {
                    let d = skip_ws(s, e);
                    if char_at(s, d, ',') {
                        match value_at(s, d + 1) {
                            Some((e2, v)) => {
                                let f = skip_ws(s, e2);
                                if char_at(s, f, ')') { Some((f + 1, (rel, Some((p, v))))) } else { None }
                            },
                            None => None,
                        }
                    } else {
                        None
                    }
                },
                None => None,
            },
        }
    } else if char_at(s, b, ')') {
        Some((b + 1, (rel, None)))
    } else {
        None
    }
}

/// `CONNECTEDTO(target, "relationship" ...)` after optional whitespace.
pub open spec fn connected_at(s: Seq<char>, i: int) -> Option<(int, ConnectedView)> {
    let k = skip_ws(s, i);
    let o = k + "CONNECTEDTO"@.len();
    if keyword_at(s, k, "CONNECTEDTO"@) && char_at(s, o, '(') {
        match name_at(s, o + 1) {
            Some((e1, target)) => {
                let a = skip_ws(s, e1);
                if char_at(s, a, ',') {
                    match string_at(s, a + 1) {
                        Some((e2, rel)) => match connected_rest_at(s, skip_ws(s, e2), rel) {
                            Some((e3, (r, filter))) => Some((e3, ConnectedView {
                                target_label: target,
                                relationship_type: r,
                                property_filter: filter,
                            })),
                            None => None,
                        },
                        None => None,
                    }
                } else {
                    None
                }
            },
            None => None,
        }
    } else {
        None
    }
}

/// `WITHIN n [TO m] HOPS` after optional whitespace. A bound too large for
/// a `u32` reads as 1 for `n` and as `n` for `m`; without `TO`, `m` is `n`.
pub open spec fn within_at(s: Seq<char>, i: int) -> Option<(int, WithinClause)> {
    let k = skip_ws(s, i);
    let a = skip_ws(s, k + "WITHIN"@.len());
    let d = digits_end(s, a);
    if keyword_at(s, k, "WITHIN"@) && d > a {
        let lo = u32_or(s.subrange(a, d), 1);
        let b = skip_ws(s, d);
        let upper = if keyword_at(s, b, "TO"@) {
            let c = skip_ws(s, b + "TO"@.len());
            let e = digits_end(s, c);
            if e > c { Some((e, u32_or(s.subrange(c, e), lo))) } else { None }
        } else {
            Some((d, lo))
        };
        match upper {
            Some((p, hi)) => {
                let h = skip_ws(s, p);
                if keyword_at(s, h, "HOPS"@) {
                    Some((h + "HOPS"@.len(), WithinClause { min_hops: lo, max_hops: hi }))
                } else {
                    None
                }
            },
            None => None,
        }
    } else {
        None
    }
}

/// `LIMIT n`; `n` too large for a `u32` reads as 10.
pub open spec fn limit_at(s: Seq<char>, i: int) -> Option<(int, u32)> {
    let k = skip_ws(s, i);
    let a = skip_ws(s, k + "LIMIT"@.len());
    let d = digits_end(s, a);
    if keyword_at(s, k, "LIMIT"@) && d > a { Some((d, u32_or(s.subrange(a, d), 10))) } else { None }
}

/// `ORDER BY field [ASC|DESC]` after optional whitespace; ascending unless
/// `DESC` follows.
pub open spec fn order_by_at(s: Seq<char>, i: int) -> Option<(int, (Seq<char>, bool))> {
    let k = skip_ws(s, i);
    if keyword_at(s, k, "ORDER BY"@) {
        match name_at(s, k + "ORDER BY"@.len()) {
            Some((e, field)) => {
                let b = skip_ws(s, e);
                if keyword_at(s, b, "DESC"@) {
                    Some((b + "DESC"@.len(), (field, false)))
                } else if keyword_at(s, b, "ASC"@) {
                    Some((b + "ASC"@.len(), (field, true)))
                } else {
                    Some((b, (field, true)))
                }
            },
            None => None,
        }
    } else {
        None
    }
}

/// `ORDER BY` reads the name that follows it as the field and sorts
/// descending exactly when the next word is `DESC` in any case (then the
/// clause ends after it); with `ASC` or no direction word it sorts
/// ascending. Without `ORDER BY`, or without a name after it, there is no clause.
pub proof fn law_order_by_direction(s: Seq<char>, i: int)
    ensures
        !keyword_at(s, skip_ws(s, i), "ORDER BY"@) ==> order_by_at(s, i) is None,
        keyword_at(s, skip_ws(s, i), "ORDER BY"@) ==> match name_at(s, skip_ws(s, i) + "ORDER BY"@.len()) {
            None => order_by_at(s, i) is None,
            Some((fe, f)) => match order_by_at(s, i) {
                None => false,
                Some((e, (field, asc))) => {
                    &&& field == f
                    &&& (asc == false <==> keyword_at(s, skip_ws(s, fe), "DESC"@))
                    &&& (asc == false ==> e == skip_ws(s, fe) + 4)
                    &&& (keyword_at(s, skip_ws(s, fe), "ASC"@) ==> asc == true && e == skip_ws(s, fe) + 3)
                },
            },
        },
{
    reveal_strlit("DESC");
    reveal_strlit("ASC");
    let k = skip_ws(s, i);
    if keyword_at(s, k, "ORDER BY"@) {
        if let Some((fe, f)) = name_at(s, k + "ORDER BY"@.len()) {
            let b = skip_ws(s, fe);
            if keyword_at(s, b, "ASC"@) && keyword_at(s, b, "DESC"@) {
                assert(fold_case(s[b]) == fold_case("ASC"@[0]));
                assert(fold_case(s[b]) == fold_case("DESC"@[0]));
            }
        }
    }
}

// ---------------------------------------------------------- aggregations

/// Whether an aggregation call starts at `k`: `COUNT(`, `SUM(`, `AVG(`,
/// `MIN(` or `MAX(` in any case.
pub open spec fn agg_call_at(s: Seq<char>, k: int) -> bool {
    keyword_at(s, k, "COUNT("@) || keyword_at(s, k, "SUM("@) || keyword_at(s, k, "AVG("@)
        || keyword_at(s, k, "MIN("@) || keyword_at(s, k, "MAX("@)
}

/// The aggregation named by `w` (0 to 4: count, sum, average, minimum,
/// maximum) over `field`; a count drops its field.
pub open spec fn agg_of(w: u8, field: Seq<char>) -> AggView {
    if w == 0 {
        AggView::Count
    } else if w == 1 {
        AggView::Sum(field)
    } else if w == 2 {
        AggView::Avg(field)
    } else if w == 3 {
        AggView::Min(field)
    } else {
        AggView::Max(field)
    }
}

/// The name of an aggregation function at `k`: the position after it and
/// which it is.
pub open spec fn agg_word_at(s: Seq<char>, k: int) -> Option<(int, u8)> {
    if keyword_at(s, k, "COUNT"@) {
        Some((k + "COUNT"@.len(), 0u8))
    } else if keyword_at(s, k, "SUM"@) {
        Some((k + "SUM"@.len(), 1u8))
    } else if keyword_at(s, k, "AVG"@) {
        Some((k + "AVG"@.len(), 2u8))
    } else if keyword_at(s, k, "MIN"@) {
        Some((k + "MIN"@.len(), 3u8))
    } else if keyword_at(s, k, "MAX"@) {
        Some((k + "MAX"@.len(), 4u8))
    } else {
        None
    }
}

/// `FUNC(field)` after optional whitespace.
pub open spec fn agg_function_at(s: Seq<char>, i: int) -> Option<(int, AggView)> {
    let k = skip_ws(s, i);
    match agg_word_at(s, k) {
        Some((a, w)) => if char_at(s, a, '(') {
            match name_at(s, a + 1) {
                Some((e, field)) => {
                    let b = skip_ws(s, e);
                    if char_at(s, b, ')') { Some((b + 1, agg_of(w, field))) } else { None }
                },
                None => None,
            }
        } else {
            None
        },
        None => None,
    }
}

/// An aggregation call after optional whitespace, with `AS alias` where it
/// follows.
pub open spec fn agg_field_at(s: Seq<char>, i: int) -> Option<(int, (AggView, Option<Seq<char>>))> {
    let k = skip_ws(s, i);
    if agg_call_at(s, k) {
        match agg_function_at(s, k) {
            Some((e, f)) => {
                let b = skip_ws(s, e);
                if keyword_at(s, b, "AS"@) {
                    match name_at(s, b + "AS"@.len()) {
                        Some((e2, alias)) => Some((e2, (f, Some(alias)))),
                        None => None,
                    }
                } else {
                    Some((e, (f, None)))
                }
            },
            None => None,
        }
    } else {
        None
    }
}

/// An item of `RETURN`.
pub enum ItemView {
    Field(Seq<char>),
    Aggregation((AggView, Option<Seq<char>>)),
}

/// An item after optional whitespace: an aggregation where one starts
/// there, else a name.
pub open spec fn item_at(s: Seq<char>, i: int) -> Option<(int, ItemView)> {
    let k = skip_ws(s, i);
    if agg_call_at(s, k) {
        match agg_field_at(s, k) {
            Some((e, a)) => Some((e, ItemView::Aggregation(a))),
            None => None,
        }
    } else {
        match name_at(s, k) {
            Some((e, n)) => Some((e, ItemView::Field(n))),
            None => None,
        }
    }
}

/// The item put in front of the fields or of the aggregations.
pub open spec fn with_item(
    it: ItemView,
    fields: Seq<Seq<char>>,
    aggs: Seq<(AggView, Option<Seq<char>>)>,
) -> (Seq<Seq<char>>, Seq<(AggView, Option<Seq<char>>)>) {
    match it {
        ItemView::Field(n) => (seq![n] + fields, aggs),
        ItemView::Aggregation(a) => (fields, seq![a] + aggs),
    }
}

pub proof fn lemma_item_at(s: Seq<char>, i: int)
    ensures
        item_at(s, i) matches Some((e, _)) ==> i < e <= s.len(),
{
    lemma_skip_ws(s, i);
    lemma_skip_ws_twice(s, i);
    let k = skip_ws(s, i);
    lemma_skip_ws_twice(s, k);
    lemma_name_at(s, k);
    reveal_strlit("COUNT");
    reveal_strlit("SUM");
    reveal_strlit("AVG");
    reveal_strlit("MIN");
    reveal_strlit("MAX");
    reveal_strlit("AS");
    if let Some((a, _)) = agg_word_at(s, k) {
        lemma_name_at(s, a + 1);
        if let Some((e, _)) = name_at(s, a + 1) {
            lemma_skip_ws(s, e);
            let b = skip_ws(s, e);
            if char_at(s, b, ')') {
                let e1 = b + 1;
                lemma_skip_ws(s, e1);
                lemma_name_at(s, skip_ws(s, e1) + "AS"@.len());
            }
        }
    }
}

/// The items after the first, each after optional whitespace and a comma:
/// the position after the last (and its whitespace), the names and the
/// aggregations. `None` where a comma is followed by no item.
pub open spec fn more_items(s: Seq<char>, p: int) -> Option<(int, Seq<Seq<char>>, Seq<(AggView, Option<Seq<char>>)>)>
    decreases s.len() - p,
{
    let b = skip_ws(s, p);
    if char_at(s, b, ',') {
        match item_at(s, b + 1) {
            Some((e, it)) => {
                proof {
                    lemma_skip_ws(s, p);
                    lemma_item_at(s, b + 1);
                }
                match more_items(s, e) {
                    Some((f, fields, aggs)) => {
                        let (fs, ags) = with_item(it, fields, aggs);
                        Some((f, fs, ags))
                    },
                    None => None,
                }
            },
            None => None,
        }
    } else {
        Some((b, Seq::empty(), Seq::empty()))
    }
}

/// `RETURN` and one or more items separated by commas: the names and the
/// aggregations, each in the order written.
pub open spec fn return_at(s: Seq<char>, i: int) -> Option<(int, Seq<Seq<char>>, Seq<(AggView, Option<Seq<char>>)>)> {
    let k = skip_ws(s, i);
    if keyword_at(s, k, "RETURN"@) {
        match item_at(s, k + "RETURN"@.len()) {
            Some((e, it)) => match more_items(s, e) {
                Some((f, fields, aggs)) => {
                    let (fs, ags) = with_item(it, fields, aggs);
                    Some((f, fs, ags))
                },
                None => None,
            },
            None => None,
        }
    } else {
        None
    }
}

/// `RETURN` and one or more names separated by commas.
pub open spec fn plain_return_at(s: Seq<char>, i: int) -> Option<(int, Seq<Seq<char>>)> {
    let k = skip_ws(s, i);
    if keyword_at(s, k, "RETURN"@) {
        match name_at(s, k + "RETURN"@.len()) {
            Some((e, n)) => {
                let (f, rest) = more_names(s, e);
                Some((f, seq![n] + rest))
            },
            None => None,
        }
    } else {
        None
    }
}

/// Names after the first, each after optional whitespace and a comma; the
/// position after the last.
pub open spec fn more_names(s: Seq<char>, p: int) -> (int, Seq<Seq<char>>)
    decreases s.len() - p,
{
    let b = skip_ws(s, p);
    if char_at(s, b, ',') {
        match name_at(s, b + 1) {
            Some((e, n)) => {
                proof {
                    lemma_skip_ws(s, p);
                    lemma_name_at(s, b + 1);
                }
                let (f, rest) = more_names(s, e);
                (f, seq![n] + rest)
            },
            None => (p, Seq::empty()),
        }
    } else {
        (p, Seq::empty())
    }
}

// ----------------------------------------------------------------- query

/// The parts of a query read from its text.
pub struct QueryView {
    pub match_clause: MatchView,
    pub where_clause: Option<WhereView>,
    pub connected_clause: Option<ConnectedView>,
    pub within_clause: Option<WithinClause>,
    pub return_fields: Seq<Seq<char>>,
    pub aggregation_fields: Seq<(AggView, Option<Seq<char>>)>,
    pub order_by: Option<(Seq<char>, bool)>,
    pub limit: u32,
    pub distributed: bool,
    pub hints: Option<QueryHints>,
}

/// `DISTRIBUTED` and `HINTS`, where they stand, and `MATCH`.
pub open spec fn query_head_at(s: Seq<char>, i: int) -> Option<(int, bool, Option<QueryHints>, MatchView)> {
    let k0 = skip_ws(s, i);
    let (p0, distributed) = if keyword_at(s, k0, "DISTRIBUTED"@) {
        (k0 + "DISTRIBUTED"@.len(), true)
    } else {
        (k0, false)
    };
    let (p1, hints) = match hints_at(s, p0) {
        Some((e, h)) => (e, Some(h)),
        None => (p0, None),
    };
    match match_at(s, p1) {
        Some((e, m)) => Some((e, distributed, hints, m)),
        None => None,
    }
}

/// `WHERE condition` where `WHERE` stands after whitespace at `p`.
pub open spec fn where_part(s: Seq<char>, p: int) -> Option<(int, Option<WhereView>)> {
    let k = skip_ws(s, p);
    if keyword_at(s, k, "WHERE"@) {
        match toroidal_at(s, k + "WHERE"@.len()) {
            Some((e, c)) => Some((e, Some(c))),
            None => None,
        }
    } else {
        Some((k, None))
    }
}

/// `CONNECTEDTO(...)` where it stands after whitespace at `p`.
pub open spec fn connected_part(s: Seq<char>, p: int) -> Option<(int, Option<ConnectedView>)> {
    let k = skip_ws(s, p);
    if keyword_at(s, k, "CONNECTEDTO"@) {
        match connected_at(s, k) {
            Some((e, c)) => Some((e, Some(c))),
            None => None,
        }
    } else {
        Some((k, None))
    }
}

/// `WITHIN ... HOPS` where it stands after whitespace at `p`.
pub open spec fn within_part(s: Seq<char>, p: int) -> Option<(int, Option<WithinClause>)> {
    let k = skip_ws(s, p);
    if keyword_at(s, k, "WITHIN"@) {
        match within_at(s, k) {
            Some((e, w)) => Some((e, Some(w))),
            None => None,
        }
    } else {
        Some((k, None))
    }
}

/// `ORDER BY ...` where it stands after whitespace at `p`.
pub open spec fn order_part(s: Seq<char>, p: int) -> Option<(int, Option<(Seq<char>, bool)>)> {
    let k = skip_ws(s, p);
    if keyword_at(s, k, "ORDER BY"@) {
        match order_by_at(s, k) {
            Some((e, o)) => Some((e, Some(o))),
            None => None,
        }
    } else {
        Some((k, None))
    }
}

/// A whole query from `i`: the position after its `LIMIT` and its parts.
pub open spec fn query_at(s: Seq<char>, i: int) -> Option<(int, QueryView)> {
    match query_head_at(s, i) {
        Some((p2, distributed, hints, m)) => match where_part(s, p2) {
            Some((p3, w)) => match connected_part(s, p3) {
                Some((p4, c)) => match within_part(s, p4) {
                    Some((p5, wi)) => match return_at(s, p5) {
                        Some((p6, fields, aggs)) => match order_part(s, p6) {
                            Some((p7, o)) => match limit_at(s, p7) {
                                Some((e, limit)) => Some((e, QueryView {
                                    match_clause: m,
                                    where_clause: w,
                                    connected_clause: c,
                                    within_clause: wi,
                                    return_fields: fields,
                                    aggregation_fields: aggs,
                                    order_by: o,
                                    limit,
                                    distributed,
                                    hints,
                                })),
                                None => None,
                            },
                            None => None,
                        },
                        None => None,
                    },
                    None => None,
                },
                None => None,
            },
            None => None,
        },
        None => None,
    }
}

/// Whether the query `q` is the one that `v` describes, with nothing else
/// set.
pub open spec fn query_is(q: Query, v: QueryView) -> bool {
    &&& q.match_clause matches Some(m) && m@ == v.match_clause
    &&& match q.where_clause {
        Some(w) => v.where_clause == Some(w@),
        None => v.where_clause is None,
    }
    &&& match q.connected_clause {
        Some(c) => v.connected_clause == Some(c@),
        None => v.connected_clause is None,
    }
    &&& q.within_clause == v.within_clause
    &&& strings_view(q.return_fields@) == v.return_fields
    &&& aggregations_view(q.aggregation_fields@) == v.aggregation_fields
    &&& match q.order_by {
        Some(o) => v.order_by == Some(order_view(o)),
        None => v.order_by is None,
    }
    &&& q.limit == v.limit
    &&& q.distributed == v.distributed
    &&& q.hints == v.hints
    &&& no_extras(q)
}


// ------------------------------------------------------- reading: tokens

/// A name after optional whitespace.
pub(crate) fn name_from(s: &Vec<char>, i: usize) -> (r: Option<(usize, String)>)
    requires
        i <= s.len(),
    ensures
        match r {
            Some((e, n)) => name_at(s@, i as int) == Some((e as int, n@)) && e <= s.len(),
            None => name_at(s@, i as int) is None,
        },
{
    let k = skip_ws_from(s, i);
    let mut e = k;
    while e < s.len() && (is_alphanumeric(s[e]) || s[e] == '_' || s[e] == '.')
        invariant
            k <= e <= s.len(),
            name_end(s@, e as int) == name_end(s@, k as int),
        decreases s.len() - e,
    {
        e = e + 1;
    }
    if e > k {
        Some((e, collect(s, k, e)))
    } else {
        None
    }
}

/// ASCII letters at `i`.
fn letters_from(s: &Vec<char>, i: usize) -> (r: Option<(usize, String)>)
    requires
        i <= s.len(),
    ensures
        match r {
            Some((e, t)) => letters_at(s@, i as int) == Some((e as int, t@)) && e <= s.len(),
            None => letters_at(s@, i as int) is None,
        },
{
    let mut e = i;
    while e < s.len() && (('a' <= s[e] && s[e] <= 'z') || ('A' <= s[e] && s[e] <= 'Z'))
        invariant
            i <= e <= s.len(),
            letters_end(s@, e as int) == letters_end(s@, i as int),
        decreases s.len() - e,
    {
        e = e + 1;
    }
    if e > i {
        Some((e, collect(s, i, e)))
    } else {
        None
    }
}

/// A decimal number after optional whitespace, as written.
fn number_from(s: &Vec<char>, i: usize) -> (r: Option<(usize, String)>)
    requires
        i <= s.len(),
    ensures
        match r {
            Some((e, t)) => number_at(s@, i as int) == Some((e as int, t@)) && e <= s.len(),
            None => number_at(s@, i as int) is None,
        },
{
    let k = skip_ws_from(s, i);
    let a = if char_is(s, k, '-') { k + 1 } else { k };
    let d = digits_from(s, a);
    if d > a {
        let mut e = d;
        if char_is(s, d, '.') {
            let f = digits_from(s, d + 1);
            if f > d + 1 {
                e = f;
            }
        }
        Some((e, collect(s, k, e)))
    } else {
        None
    }
}

/// A string literal after optional whitespace.
fn string_from(s: &Vec<char>, i: usize) -> (r: Option<(usize, String)>)
    requires
        i <= s.len(),
    ensures
        match r {
            Some((e, t)) => string_at(s@, i as int) == Some((e as int, t@)) && e <= s.len(),
            None => string_at(s@, i as int) is None,
        },
{
    let k = skip_ws_from(s, i);
    if !char_is(s, k, '"') {
        return None;
    }
    let mut e = k + 1;
    while e < s.len() && s[e] != '"'
        invariant
            k + 1 <= e <= s.len(),
            quote_end(s@, e as int) == quote_end(s@, k + 1),
        decreases s.len() - e,
    {
        e = e + 1;
    }
    if e > k + 1 && char_is(s, e, '"') {
        Some((e + 1, collect(s, k + 1, e)))
    } else {
        None
    }
}

/// A property value after optional whitespace.
fn value_from(s: &Vec<char>, i: usize) -> (r: Option<(usize, PropertyValue)>)
    requires
        i <= s.len(),
    ensures
        match r {
            Some((e, v)) => value_at(s@, i as int) == Some((e as int, v@)) && e <= s.len(),
            None => value_at(s@, i as int) is None,
        },
{
    let k = skip_ws_from(s, i);
    match string_from(s, k) {
        Some((e, t)) => Some((e, PropertyValue::String(t))),
        None => match number_from(s, k) {
            Some((e, t)) => Some((e, PropertyValue::Number(t))),
            None => {
                if let Some(e) = tag(s, k, "true") {
                    Some((e, PropertyValue::Boolean(true)))
                } else if let Some(e) = tag(s, k, "false") {
                    Some((e, PropertyValue::Boolean(false)))
                } else {
                    None
                }
            },
        },
    }
}

/// The number that the digits from `a` to `d` write, or `default` where it
/// does not fit in a `u32`.
pub(crate) fn u32_or_from(s: &Vec<char>, a: usize, d: usize, default: u32) -> (n: u32)
    requires
        a < d <= s.len(),
        d == digits_end(s@, a as int),
    ensures
        n == u32_or(s@.subrange(a as int, d as int), default),
{
    match u32_from(s, a) {
        Some((_, n)) => n,
        None => default,
    }
}

// -------------------------------------------------------- reading: hints

fn backend_from(s: &Vec<char>, u: usize) -> (r: Option<(usize, BackendHint)>)
    requires
        u <= s.len(),
    ensures
        match r {
            Some((e, b)) => backend_at(s@, u as int) == Some((e as int, b)) && e <= s.len(),
            None => backend_at(s@, u as int) is None,
        },
{
    if let Some(e) = tag(s, u, "GPU") {
        Some((e, BackendHint::Gpu))
    } else if let Some(e) = tag(s, u, "AVX512") {
        Some((e, BackendHint::Avx512))
    } else if let Some(e) = tag(s, u, "AVX2") {
        Some((e, BackendHint::Avx2))
    } else if let Some(e) = tag(s, u, "SCALAR") {
        Some((e, BackendHint::Scalar))
    } else if let Some(e) = tag(s, u, "AUTO") {
        Some((e, BackendHint::Auto))
    } else {
        None
    }
}

fn using_from(s: &Vec<char>, a: usize) -> (r: (usize, Option<BackendHint>))
    requires
        a <= s.len(),
    ensures
        using_at(s@, a as int) == (r.0 as int, r.1),
        r.0 <= s.len(),
{
    match tag_ws1(s, a, "USING") {
        Some(u) => match backend_from(s, u) {
            Some((e, b)) => (e, Some(b)),
            None => (a, None),
        },
        None => (a, None),
    }
}

fn scatter_from(s: &Vec<char>, a: usize) -> (r: (usize, Option<u32>))
    requires
        a <= s.len(),
    ensures
        scatter_at(s@, a as int) == (r.0 as int, r.1),
        r.0 <= s.len(),
{
    match tag_ws1(s, a, "SCATTER") {
        Some(u) => match u32_from(s, u) {
            Some((e, n)) => {
                let b = skip_ws_from(s, e);
                match tag(s, b, "SHARDS") {
                    Some(f) => (f, Some(n)),
                    None => (e, Some(n)),
                }
            },
            None => (a, None),
        },
        None => (a, None),
    }
}

fn prefer_from(s: &Vec<char>, a: usize) -> (r: (usize, bool))
    requires
        a <= s.len(),
    ensures
        prefer_at(s@, a as int) == (r.0 as int, r.1),
        r.0 <= s.len(),
{
    match tag_ws1(s, a, "PREFER") {
        Some(u) => match tag(s, u, "LOCAL_SHARD") {
            Some(e) => (e, true),
            None => (a, false),
        },
        None => (a, false),
    }
}

fn prefetch_from(s: &Vec<char>, a: usize) -> (r: (usize, Option<u32>))
    requires
        a <= s.len(),
    ensures
        prefetch_at(s@, a as int) == (r.0 as int, r.1),
        r.0 <= s.len(),
{
    match tag_ws1(s, a, "PREFETCH") {
        Some(u) => match tag_ws1(s, u, "GRAPH_HOPS") {
            Some(v) => match u32_from(s, v) {
                Some((e, n)) => (e, Some(n)),
                None => (a, None),
            },
            None => (a, None),
        },
        None => (a, None),
    }
}

/// `HINTS ...` after optional whitespace.
fn hints_from(s: &Vec<char>, i: usize) -> (r: Option<(usize, QueryHints)>)
    requires
        i <= s.len(),
    ensures
        match r {
            Some((e, h)) => hints_at(s@, i as int) == Some((e as int, h)) && e <= s.len(),
            None => hints_at(s@, i as int) is None,
        },
{
    let k = skip_ws_from(s, i);
    match tag(s, k, "HINTS") {
        Some(a) => {
            let (p1, backend) = using_from(s, skip_ws_from(s, a));
            let (p2, scatter) = scatter_from(s, skip_ws_from(s, p1));
            let (p3, prefer) = prefer_from(s, skip_ws_from(s, p2));
            let (p4, prefetch) = prefetch_from(s, skip_ws_from(s, p3));
            Some((p4, QueryHints {
                force_gpu: false,
                scatter_shards: scatter,
                prefer_local_shard: prefer,
                backend: backend,
                prefetch_hops: prefetch,
            }))
        },
        None => None,
    }
}

// ----------------------------------------------------- reading: patterns

/// `name:value` after optional whitespace.
fn pair_from(s: &Vec<char>, j: usize) -> (r: Option<(usize, (String, PropertyValue))>)
    requires
        j <= s.len(),
    ensures
        match r {
            Some((e, pr)) => pair_at(s@, j as int) == Some((e as int, (pr.0@, pr.1@))) && e <= s.len(),
            None => pair_at(s@, j as int) is None,
        },
{
    match name_from(s, j) {
        Some((e1, n)) => {
            if !char_is(s, e1, ':') {
                return None;
            }
            match value_from(s, e1 + 1) {
                Some((e2, v)) => Some((e2, (n, v))),
                None => None,
            }
        },
        None => None,
    }
}

/// The position after the pairs that follow, each after a comma.
fn more_pairs_end(s: &Vec<char>, p: usize) -> (q: usize)
    requires
        p <= s.len(),
    ensures
        q == more_pairs(s@, p as int).0,
        q <= s.len(),
{
    let mut q = p;
    loop
        invariant
            q <= s.len(),
            more_pairs(s@, p as int).0 == more_pairs(s@, q as int).0,
        decreases s.len() - q,
    {
        if !char_is(s, q, ',') {
            return q;
        }
        match pair_from(s, q + 1) {
            Some((e, _)) => {
                proof {
                    lemma_pair_at(s@, q + 1);
                }
                q = e;
            },
            None => {
                return q;
            },
        }
    }
}

/// `{name:value, ...}` at `l`, keeping the first pair.
fn properties_from(s: &Vec<char>, l: usize) -> (r: Option<(usize, Vec<(String, PropertyValue)>)>)
    requires
        l <= s.len(),
    ensures
        match r {
            Some((e, ps)) => properties_at(s@, l as int) == Some((e as int, pairs_view(ps@))) && e <= s.len(),
            None => properties_at(s@, l as int) is None,
        },
{
    if !char_is(s, l, '{') {
        return None;
    }
    match pair_from(s, l + 1) {
        Some((e, pr)) => {
            let p = more_pairs_end(s, e);
            if char_is(s, p, '}') {
                let ghost pv = (pr.0@, pr.1@);
                let mut ps: Vec<(String, PropertyValue)> = Vec::new();
                ps.push(pr);
                proof {
                    assert(pairs_view(ps@) =~= seq![pv]);
                }
                Some((p + 1, ps))
            } else {
                None
            }
        },
        None => None,
    }
}

/// `(alias:Label {properties})` after optional whitespace.
fn node_pattern_from(s: &Vec<char>, i: usize) -> (r: Option<(usize, NodePattern)>)
    requires
        i <= s.len(),
    ensures
        match r {
            Some((e, n)) => node_pattern_at(s@, i as int) == Some((e as int, n@)) && e <= s.len(),
            None => node_pattern_at(s@, i as int) is None,
        },
{
    let k = skip_ws_from(s, i);
    if !char_is(s, k, '(') {
        return None;
    }
    let (a, alias) = match name_from(s, k + 1) {
        Some(x) => x,
        None => {
            return None;
        },
    };
    if !char_is(s, a, ':') {
        return None;
    }
    let (l, label) = match letters_from(s, a + 1) {
        Some(x) => x,
        None => {
            return None;
        },
    };
    let (p, properties) = match properties_from(s, l) {
        Some((q, ps)) => (q, Some(ps)),
        None => (l, None),
    };
    if char_is(s, p, ')') {
        Some((p + 1, NodePattern { alias, label, properties }))
    } else {
        None
    }
}

/// `[:TYPE]` at `j`.
fn bracket_type_from(s: &Vec<char>, j: usize) -> (r: Option<(usize, String)>)
    requires
        j <= s.len(),
    ensures
        match r {
            Some((e, t)) => bracket_type_at(s@, j as int) == Some((e as int, t@)) && e <= s.len(),
            None => bracket_type_at(s@, j as int) is None,
        },
{
    if !(char_is(s, j, '[') && char_is(s, j + 1, ':')) {
        return None;
    }
    match letters_from(s, j + 2) {
        Some((e, t)) => if char_is(s, e, ']') {
            Some((e + 1, t))
        } else {
            None
        },
        None => None,
    }
}

/// A direction arrow after optional whitespace.
fn direction_from(s: &Vec<char>, i: usize) -> (r: Option<(usize, Direction)>)
    requires
        i <= s.len(),
    ensures
        match r {
            Some((e, d)) => direction_at(s@, i as int) == Some((e as int, d)) && e <= s.len(),
            None => direction_at(s@, i as int) is None,
        },
{
    let k = skip_ws_from(s, i);
    let both = if char_is(s, k, '<') && char_is(s, k + 1, '-') { bracket_type_from(s, k + 2) } else { None };
    let right = if char_is(s, k, '-') { bracket_type_from(s, k + 1) } else { None };
    if let Some((e, _)) = both {
        if char_is(s, e, '-') && char_is(s, e + 1, '>') {
            return Some((e + 2, Direction::Outgoing));
        }
    }
    if let Some((e, _)) = right {
        if char_is(s, e, '-') && char_is(s, e + 1, '>') {
            return Some((e + 2, Direction::Outgoing));
        }
    }
    if let Some((e, _)) = both {
        if char_is(s, e, '-') {
            return Some((e + 1, Direction::Incoming));
        }
    }
    None
}

/// `-[:TYPE]` and a direction mark after optional whitespace.
fn relationship_from(s: &Vec<char>, i: usize) -> (r: Option<(usize, RelationshipPattern)>)
    requires
        i <= s.len(),
    ensures
        match r {
            Some((e, rel)) => relationship_at(s@, i as int) == Some((e as int, relationship_view(rel))) && e <= s.len(),
            None => relationship_at(s@, i as int) is None,
        },
{
    let k = skip_ws_from(s, i);
    if !char_is(s, k, '-') {
        return None;
    }
    match bracket_type_from(s, k + 1) {
        Some((e, t)) => {
            if char_is(s, e, '>') {
                Some((e + 1, RelationshipPattern { type_: t, direction: Direction::Outgoing }))
            } else if char_is(s, e, '-') && char_is(s, e + 1, '>') {
                Some((e + 2, RelationshipPattern { type_: t, direction: Direction::Outgoing }))
            } else if char_is(s, e, '<') {
                Some((e + 1, RelationshipPattern { type_: t, direction: Direction::Incoming }))
            } else if char_is(s, e, '-') {
                Some((e + 1, RelationshipPattern { type_: t, direction: Direction::Both }))
            } else {
                None
            }
        },
        None => None,
    }
}

/// `MATCH` and its patterns after optional whitespace.
fn match_from(s: &Vec<char>, i: usize) -> (r: Option<(usize, MatchClause)>)
    requires
        i <= s.len(),
    ensures
        match r {
            Some((e, m)) => match_at(s@, i as int) == Some((e as int, m@)) && e <= s.len(),
            None => match_at(s@, i as int) is None,
        },
{
    let k = skip_ws_from(s, i);
    let a = match tag(s, k, "MATCH") {
        Some(a) => a,
        None => {
            return None;
        },
    };
    let (e, source) = match node_pattern_from(s, a) {
        Some(x) => x,
        None => {
            return None;
        },
    };
    if let Some((e2, rel)) = relationship_from(s, e) {
        if let Some((e3, target)) = node_pattern_from(s, e2) {
            return Some((e3, MatchClause { source, relationship: Some(rel), target: Some(target) }));
        }
    }
    Some((e, MatchClause { source, relationship: None, target: None }))
}

// ------------------------------------------------------ reading: clauses

/// `TOROIDALDISTANCE(field, threshold)` after optional whitespace.
fn toroidal_from(s: &Vec<char>, i: usize) -> (r: Option<(usize, WhereCondition)>)
    requires
        i <= s.len(),
    ensures
        match r {
            Some((e, c)) => toroidal_at(s@, i as int) == Some((e as int, c@)) && e <= s.len(),
            None => toroidal_at(s@, i as int) is None,
        },
{
    let k = skip_ws_from(s, i);
    let o = match tag(s, k, "TOROIDALDISTANCE") {
        Some(o) => o,
        None => {
            return None;
        },
    };
    if !char_is(s, o, '(') {
        return None;
    }
    let (e1, field) = match name_from(s, o + 1) {
        Some(x) => x,
        None => {
            return None;
        },
    };
    let a = skip_ws_from(s, e1);
    if !char_is(s, a, ',') {
        return None;
    }
    match number_from(s, a + 1) {
        Some((e2, t)) => if char_is(s, e2, ')') {
            Some((e2 + 1, WhereCondition::ToroidalDistance { field, threshold: t }))
        } else {
            None
        },
        None => None,
    }
}

/// What follows the relationship type of `CONNECTEDTO`, from `b`.
fn connected_rest_from(s: &Vec<char>, b: usize, rel: String) -> (r: Option<(usize, (String, Option<(String, PropertyValue)>))>)
    requires
        b <= s.len(),
    ensures
        match r {
            Some((e, (t, filter))) => connected_rest_at(s@, b as int, rel@) == Some((e as int, (t@,
                match filter {
                    Some(f) => Some((f.0@, f.1@)),
                    None => None,
                }))) && e <= s.len(),
            None => connected_rest_at(s@, b as int, rel@) is None,
        },
{
    if char_is(s, b, ',') {
        let c = skip_ws_from(s, b + 1);
        match string_from(s, c) {
            Some((e, rel2)) => {
                let d = skip_ws_from(s, e);
                if char_is(s, d, ')') {
                    Some((d + 1, (rel2, None)))
                } else {
                    None
                }
            },
            None => match name_from(s, c) {
                Some((e, p)) => {
                    let d = skip_ws_from(s, e);
                    if !char_is(s, d, ',') {
                        return None;
                    }
                    match value_from(s, d + 1) {
                        Some((e2, v)) => {
                            let f = skip_ws_from(s, e2);
                            if char_is(s, f, ')') {
                                Some((f + 1, (rel, Some((p, v)))))
                            } else {
                                None
                            }
                        },
                        None => None,
                    }
                },
                None => None,
            },
        }
    } else if char_is(s, b, ')') {
        Some((b + 1, (rel, None)))
    } else {
        None
    }
}

/// `CONNECTEDTO(...)` after optional whitespace.
fn connected_from(s: &Vec<char>, i: usize) -> (r: Option<(usize, ConnectedClause)>)
    requires
        i <= s.len(),
    ensures
        match r {
            Some((e, c)) => connected_at(s@, i as int) == Some((e as int, c@)) && e <= s.len(),
            None => connected_at(s@, i as int) is None,
        },
{
    let k = skip_ws_from(s, i);
    let o = match tag(s, k, "CONNECTEDTO") {
        Some(o) => o,
        None => {
            return None;
        },
    };
    if !char_is(s, o, '(') {
        return None;
    }
    let (e1, target) = match name_from(s, o + 1) {
        Some(x) => x,
        None => {
            return None;
        },
    };
    let a = skip_ws_from(s, e1);
    if !char_is(s, a, ',') {
        return None;
    }
    let (e2, rel) = match string_from(s, a + 1) {
        Some(x) => x,
        None => {
            return None;
        },
    };
    let b = skip_ws_from(s, e2);
    match connected_rest_from(s, b, rel) {
        Some((e3, (t, filter))) => Some((e3, ConnectedClause {
            target_label: target,
            relationship_type: t,
            property_filter: filter,
        })),
        None => None,
    }
}

/// `WITHIN n [TO m] HOPS` after optional whitespace.
fn within_from(s: &Vec<char>, i: usize) -> (r: Option<(usize, WithinClause)>)
    requires
        i <= s.len(),
    ensures
        match r {
            Some((e, w)) => within_at(s@, i as int) == Some((e as int, w)) && e <= s.len(),
            None => within_at(s@, i as int) is None,
        },
{
    let k = skip_ws_from(s, i);
    let w = match tag(s, k, "WITHIN") {
        Some(w) => w,
        None => {
            return None;
        },
    };
    let a = skip_ws_from(s, w);
    let d = digits_from(s, a);
    if d <= a {
        return None;
    }
    let lo = u32_or_from(s, a, d, 1);
    let b = skip_ws_from(s, d);
    let (p, hi) = match tag(s, b, "TO") {
        Some(t) => {
            let c = skip_ws_from(s, t);
            let e = digits_from(s, c);
            if e <= c {
                return None;
            }
            (e, u32_or_from(s, c, e, lo))
        },
        None => (d, lo),
    };
    let h = skip_ws_from(s, p);
    match tag(s, h, "HOPS") {
        Some(e) => Some((e, WithinClause { min_hops: lo, max_hops: hi })),
        None => None,
    }
}

/// `LIMIT n` after optional whitespace.
fn limit_from(s: &Vec<char>, i: usize) -> (r: Option<(usize, u32)>)
    requires
        i <= s.len(),
    ensures
        match r {
            Some((e, n)) => limit_at(s@, i as int) == Some((e as int, n)) && e <= s.len(),
            None => limit_at(s@, i as int) is None,
        },
{
    let k = skip_ws_from(s, i);
    let l = match tag(s, k, "LIMIT") {
        Some(l) => l,
        None => {
            return None;
        },
    };
    let a = skip_ws_from(s, l);
    let d = digits_from(s, a);
    if d > a {
        Some((d, u32_or_from(s, a, d, 10)))
    } else {
        None
    }
}

/// `ORDER BY field [ASC|DESC]` after optional whitespace.
fn order_by_from(s: &Vec<char>, i: usize) -> (r: Option<(usize, OrderByClause)>)
    requires
        i <= s.len(),
    ensures
        match r {
            Some((e, o)) => order_by_at(s@, i as int) == Some((e as int, order_view(o))) && e <= s.len(),
            None => order_by_at(s@, i as int) is None,
        },
{
    let k = skip_ws_from(s, i);
    let a = match tag(s, k, "ORDER BY") {
        Some(a) => a,
        None => {
            return None;
        },
    };
    let (e, field) = match name_from(s, a) {
        Some(x) => x,
        None => {
            return None;
        },
    };
    let b = skip_ws_from(s, e);
    if let Some(f) = tag(s, b, "DESC") {
        Some((f, OrderByClause { field, ascending: false }))
    } else if let Some(f) = tag(s, b, "ASC") {
        Some((f, OrderByClause { field, ascending: true }))
    } else {
        Some((b, OrderByClause { field, ascending: true }))
    }
}

// ------------------------------------------------- reading: aggregations

fn agg_call(s: &Vec<char>, k: usize) -> (b: bool)
    requires
        k <= s.len(),
    ensures
        b == agg_call_at(s@, k as int),
{
    tag(s, k, "COUNT(").is_some() || tag(s, k, "SUM(").is_some() || tag(s, k, "AVG(").is_some()
        || tag(s, k, "MIN(").is_some() || tag(s, k, "MAX(").is_some()
}

fn agg_word(s: &Vec<char>, k: usize) -> (r: Option<(usize, u8)>)
    requires
        k <= s.len(),
    ensures
        match r {
            Some((a, w)) => agg_word_at(s@, k as int) == Some((a as int, w)) && a <= s.len(),
            None => agg_word_at(s@, k as int) is None,
        },
{
    if let Some(a) = tag(s, k, "COUNT") {
        Some((a, 0u8))
    } else if let Some(a) = tag(s, k, "SUM") {
        Some((a, 1u8))
    } else if let Some(a) = tag(s, k, "AVG") {
        Some((a, 2u8))
    } else if let Some(a) = tag(s, k, "MIN") {
        Some((a, 3u8))
    } else if let Some(a) = tag(s, k, "MAX") {
        Some((a, 4u8))
    } else {
        None
    }
}

fn make_agg(w: u8, field: String) -> (f: AggregationFunction)
    ensures
        f@ == agg_of(w, field@),
{
    if w == 0 {
        AggregationFunction::Count
    } else if w == 1 {
        AggregationFunction::Sum(field)
    } else if w == 2 {
        AggregationFunction::Avg(field)
    } else if w == 3 {
        AggregationFunction::Min(field)
    } else {
        AggregationFunction::Max(field)
    }
}

/// `FUNC(field)` after optional whitespace.
fn agg_function_from(s: &Vec<char>, i: usize) -> (r: Option<(usize, AggregationFunction)>)
    requires
        i <= s.len(),
    ensures
        match r {
            Some((e, f)) => agg_function_at(s@, i as int) == Some((e as int, f@)) && e <= s.len(),
            None => agg_function_at(s@, i as int) is None,
        },
{
    let k = skip_ws_from(s, i);
    let (a, w) = match agg_word(s, k) {
        Some(x) => x,
        None => {
            return None;
        },
    };
    if !char_is(s, a, '(') {
        return None;
    }
    match name_from(s, a + 1) {
        Some((e, field)) => {
            let b = skip_ws_from(s, e);
            if char_is(s, b, ')') {
                Some((b + 1, make_agg(w, field)))
            } else {
                None
            }
        },
        None => None,
    }
}

/// An aggregation with its optional `AS alias`, after optional whitespace.
fn agg_field_from(s: &Vec<char>, i: usize) -> (r: Option<(usize, AggregationField)>)
    requires
        i <= s.len(),
    ensures
        match r {
            Some((e, a)) => agg_field_at(s@, i as int) == Some((e as int, aggregation_view(a))) && e <= s.len(),
            None => agg_field_at(s@, i as int) is None,
        },
{
    let k = skip_ws_from(s, i);
    if !agg_call(s, k) {
        return None;
    }
    let (e, function) = match agg_function_from(s, k) {
        Some(x) => x,
        None => {
            return None;
        },
    };
    let b = skip_ws_from(s, e);
    match tag(s, b, "AS") {
        Some(c) => match name_from(s, c) {
            Some((e2, alias)) => Some((e2, AggregationField { function, alias: Some(alias) })),
            None => None,
        },
        None => Some((e, AggregationField { function, alias: None })),
    }
}

/// An item of `RETURN`.
enum Item {
    Field(String),
    Aggregation(AggregationField),
}

spec fn item_view(it: Item) -> ItemView {
    match it {
        Item::Field(n) => ItemView::Field(n@),
        Item::Aggregation(a) => ItemView::Aggregation(aggregation_view(a)),
    }
}

/// An item after optional whitespace.
fn item_from(s: &Vec<char>, i: usize) -> (r: Option<(usize, Item)>)
    requires
        i <= s.len(),
    ensures
        match r {
            Some((e, it)) => item_at(s@, i as int) == Some((e as int, item_view(it))) && e <= s.len(),
            None => item_at(s@, i as int) is None,
        },
{
    let k = skip_ws_from(s, i);
    if agg_call(s, k) {
        match agg_field_from(s, k) {
            Some((e, a)) => Some((e, Item::Aggregation(a))),
            None => None,
        }
    } else {
        match name_from(s, k) {
            Some((e, n)) => Some((e, Item::Field(n))),
            None => None,
        }
    }
}

/// The names and aggregations gathered so far, followed by what the rest
/// of the list gives.
pub open spec fn gathered(
    fields: Seq<Seq<char>>,
    aggs: Seq<(AggView, Option<Seq<char>>)>,
    rest: Option<(int, Seq<Seq<char>>, Seq<(AggView, Option<Seq<char>>)>)>,
) -> Option<(int, Seq<Seq<char>>, Seq<(AggView, Option<Seq<char>>)>)> {
    match rest {
        Some((f, fs, ags)) => Some((f, fields + fs, aggs + ags)),
        None => None,
    }
}

/// Puts the item at the end of the names or of the aggregations.
fn add_item(fields: &mut Vec<String>, aggs: &mut Vec<AggregationField>, it: Item)
    ensures
        forall|fs: Seq<Seq<char>>, ags: Seq<(AggView, Option<Seq<char>>)>|
            #![trigger with_item(item_view(it), fs, ags)]
            (strings_view(final(fields)@) + fs, aggregations_view(final(aggs)@) + ags)
                == ({
                    let (f2, a2) = with_item(item_view(it), fs, ags);
                    (strings_view(old(fields)@) + f2, aggregations_view(old(aggs)@) + a2)
                }),
{
    let ghost f0 = strings_view(fields@);
    let ghost a0 = aggregations_view(aggs@);
    match it {
        Item::Field(n) => {
            let ghost nv = n@;
            fields.push(n);
            proof {
                assert(strings_view(fields@) =~= f0.push(nv));
                assert(aggregations_view(aggs@) =~= a0);
                assert forall|fs: Seq<Seq<char>>, ags: Seq<(AggView, Option<Seq<char>>)>|
                    #![trigger with_item(ItemView::Field(nv), fs, ags)]
                    strings_view(fields@) + fs == f0 + (seq![nv] + fs) by {
                    assert(f0.push(nv) + fs =~= f0 + (seq![nv] + fs));
                }
            }
        },
        Item::Aggregation(a) => {
            let ghost av = aggregation_view(a);
            aggs.push(a);
            proof {
                assert(aggregations_view(aggs@) =~= a0.push(av));
                assert(strings_view(fields@) =~= f0);
                assert forall|fs: Seq<Seq<char>>, ags: Seq<(AggView, Option<Seq<char>>)>|
                    #![trigger with_item(ItemView::Aggregation(av), fs, ags)]
                    aggregations_view(aggs@) + ags == a0 + (seq![av] + ags) by {
                    assert(a0.push(av) + ags =~= a0 + (seq![av] + ags));
                }
            }
        },
    }
}

/// `RETURN` and its items after optional whitespace.
fn return_from(s: &Vec<char>, i: usize) -> (r: Option<(usize, Vec<String>, Vec<AggregationField>)>)
    requires
        i <= s.len(),
    ensures
        match r {
            Some((e, fs, ags)) => return_at(s@, i as int) == Some((e as int, strings_view(fs@), aggregations_view(ags@)))
                && e <= s.len(),
            None => return_at(s@, i as int) is None,
        },
{
    let k = skip_ws_from(s, i);
    let a = match tag(s, k, "RETURN") {
        Some(a) => a,
        None => {
            return None;
        },
    };
    let (e, first) = match item_from(s, a) {
        Some(x) => x,
        None => {
            return None;
        },
    };
    let mut fields: Vec<String> = Vec::new();
    let mut aggs: Vec<AggregationField> = Vec::new();
    proof {
        assert(strings_view(fields@) =~= Seq::<Seq<char>>::empty());
        assert(aggregations_view(aggs@) =~= Seq::<(AggView, Option<Seq<char>>)>::empty());
        if let Some((f, fs, ags)) = more_items(s@, e as int) {
            let _ = with_item(item_view(first), fs, ags);
        }
    }
    add_item(&mut fields, &mut aggs, first);
    let mut p = e;
    loop
        invariant
            p <= s.len(),
            return_at(s@, i as int) == gathered(strings_view(fields@), aggregations_view(aggs@), more_items(s@, p as int)),
        decreases s.len() - p,
    {
        let b = skip_ws_from(s, p);
        if !char_is(s, b, ',') {
            proof {
                assert(strings_view(fields@) + Seq::<Seq<char>>::empty() =~= strings_view(fields@));
                assert(aggregations_view(aggs@) + Seq::<(AggView, Option<Seq<char>>)>::empty() =~= aggregations_view(aggs@));
            }
            return Some((b, fields, aggs));
        }
        match item_from(s, b + 1) {
            Some((e2, it)) => {
                proof {
                    lemma_skip_ws(s@, p as int);
                    lemma_item_at(s@, b + 1);
                    if let Some((f, fs, ags)) = more_items(s@, e2 as int) {
                        let _ = with_item(item_view(it), fs, ags);
                    }
                }
                let ghost f0 = strings_view(fields@);
                let ghost a0 = aggregations_view(aggs@);
                add_item(&mut fields, &mut aggs, it);
                proof {
                    if let Some((f, fs, ags)) = more_items(s@, e2 as int) {
                        let (f2, a2) = with_item(item_view(it), fs, ags);
                        assert(f0 + f2 == strings_view(fields@) + fs);
                        assert(a0 + a2 == aggregations_view(aggs@) + ags);
                    }
                }
                p = e2;
            },
            None => {
                return None;
            },
        }
    }
}

/// `RETURN` and names separated by commas, after optional whitespace.
fn plain_return_from(s: &Vec<char>, i: usize) -> (r: Option<(usize, Vec<String>)>)
    requires
        i <= s.len(),
    ensures
        match r {
            Some((e, fs)) => plain_return_at(s@, i as int) == Some((e as int, strings_view(fs@))) && e <= s.len(),
            None => plain_return_at(s@, i as int) is None,
        },
{
    let k = skip_ws_from(s, i);
    let a = match tag(s, k, "RETURN") {
        Some(a) => a,
        None => {
            return None;
        },
    };
    let (e, first) = match name_from(s, a) {
        Some(x) => x,
        None => {
            return None;
        },
    };
    let mut fields: Vec<String> = Vec::new();
    fields.push(first);
    proof {
        assert(strings_view(fields@) =~= seq![first@]);
    }
    let mut p = e;
    loop
        invariant
            p <= s.len(),
            plain_return_at(s@, i as int) == Some((more_names(s@, p as int).0, strings_view(fields@) + more_names(s@, p as int).1)),
        decreases s.len() - p,
    {
        let b = skip_ws_from(s, p);
        if !char_is(s, b, ',') {
            proof {
                assert(strings_view(fields@) + Seq::<Seq<char>>::empty() =~= strings_view(fields@));
            }
            return Some((p, fields));
        }
        match name_from(s, b + 1) {
            Some((e2, n)) => {
                proof {
                    lemma_skip_ws(s@, p as int);
                    lemma_name_at(s@, b + 1);
                    let fv = strings_view(fields@);
                    assert(strings_view(fields@.push(n)) =~= fv.push(n@));
                    assert(fv + (seq![n@] + more_names(s@, e2 as int).1) =~= fv.push(n@) + more_names(s@, e2 as int).1);
                }
                fields.push(n);
                p = e2;
            },
            None => {
                proof {
                    assert(strings_view(fields@) + Seq::<Seq<char>>::empty() =~= strings_view(fields@));
                }
                return Some((p, fields));
            },
        }
    }
}

// -------------------------------------------------------- reading: query

fn query_head_from(s: &Vec<char>, i: usize) -> (r: Option<(usize, bool, Option<QueryHints>, MatchClause)>)
    requires
        i <= s.len(),
    ensures
        match r {
            Some((e, d, h, m)) => query_head_at(s@, i as int) == Some((e as int, d, h, m@)) && e <= s.len(),
            None => query_head_at(s@, i as int) is None,
        },
{
    let k0 = skip_ws_from(s, i);
    let (p0, distributed) = match tag(s, k0, "DISTRIBUTED") {
        Some(e) => (e, true),
        None => (k0, false),
    };
    let (p1, hints) = match hints_from(s, p0) {
        Some((e, h)) => (e, Some(h)),
        None => (p0, None),
    };
    match match_from(s, p1) {
        Some((e, m)) => Some((e, distributed, hints, m)),
        None => None,
    }
}

fn where_part_from(s: &Vec<char>, p: usize) -> (r: Option<(usize, Option<WhereCondition>)>)
    requires
        p <= s.len(),
    ensures
        match r {
            Some((e, w)) => where_part(s@, p as int) == Some((e as int, match w {
                Some(c) => Some(c@),
                None => None,
            })) && e <= s.len(),
            None => where_part(s@, p as int) is None,
        },
{
    let k = skip_ws_from(s, p);
    match tag(s, k, "WHERE") {
        Some(a) => match toroidal_from(s, a) {
            Some((e, c)) => Some((e, Some(c))),
            None => None,
        },
        None => Some((k, None)),
    }
}

fn connected_part_from(s: &Vec<char>, p: usize) -> (r: Option<(usize, Option<ConnectedClause>)>)
    requires
        p <= s.len(),
    ensures
        match r {
            Some((e, c)) => connected_part(s@, p as int) == Some((e as int, match c {
                Some(c) => Some(c@),
                None => None,
            })) && e <= s.len(),
            None => connected_part(s@, p as int) is None,
        },
{
    let k = skip_ws_from(s, p);
    if tag(s, k, "CONNECTEDTO").is_some() {
        match connected_from(s, k) {
            Some((e, c)) => Some((e, Some(c))),
            None => None,
        }
    } else {
        Some((k, None))
    }
}

fn within_part_from(s: &Vec<char>, p: usize) -> (r: Option<(usize, Option<WithinClause>)>)
    requires
        p <= s.len(),
    ensures
        match r {
            Some((e, w)) => within_part(s@, p as int) == Some((e as int, w)) && e <= s.len(),
            None => within_part(s@, p as int) is None,
        },
{
    let k = skip_ws_from(s, p);
    if tag(s, k, "WITHIN").is_some() {
        match within_from(s, k) {
            Some((e, w)) => Some((e, Some(w))),
            None => None,
        }
    } else {
        Some((k, None))
    }
}

fn order_part_from(s: &Vec<char>, p: usize) -> (r: Option<(usize, Option<OrderByClause>)>)
    requires
        p <= s.len(),
    ensures
        match r {
            Some((e, o)) => order_part(s@, p as int) == Some((e as int, match o {
                Some(o) => Some(order_view(o)),
                None => None,
            })) && e <= s.len(),
            None => order_part(s@, p as int) is None,
        },
{
    let k = skip_ws_from(s, p);
    if tag(s, k, "ORDER BY").is_some() {
        match order_by_from(s, k) {
            Some((e, o)) => Some((e, Some(o))),
            None => None,
        }
    } else {
        Some((k, None))
    }
}

/// A whole query from `i`.
fn query_from(s: &Vec<char>, i: usize) -> (r: Option<(usize, Query)>)
    requires
        i <= s.len(),
    ensures
        match r {
            Some((e, q)) => query_at(s@, i as int) matches Some((e2, v)) && e2 == e && query_is(q, v) && e <= s.len(),
            None => query_at(s@, i as int) is None,
        },
{
    let (p2, distributed, hints, m) = match query_head_from(s, i) {
        Some(x) => x,
        None => {
            return None;
        },
    };
    let (p3, where_clause) = match where_part_from(s, p2) {
        Some(x) => x,
        None => {
            return None;
        },
    };
    let (p4, connected_clause) = match connected_part_from(s, p3) {
        Some(x) => x,
        None => {
            return None;
        },
    };
    let (p5, within_clause) = match within_part_from(s, p4) {
        Some(x) => x,
        None => {
            return None;
        },
    };
    let (p6, return_fields, aggregation_fields) = match return_from(s, p5) {
        Some(x) => x,
        None => {
            return None;
        },
    };
    let (p7, order_by) = match order_part_from(s, p6) {
        Some(x) => x,
        None => {
            return None;
        },
    };
    let (e, limit) = match limit_from(s, p7) {
        Some(x) => x,
        None => {
            return None;
        },
    };
    let q = Query {
        with_clause: None,
        match_clause: Some(m),
        where_clause,
        connected_clause,
        within_clause,
        return_fields,
        aggregation_fields,
        window_functions: Vec::new(),
        order_by,
        subqueries: Vec::new(),
        transaction: None,
        limit,
        distributed,
        hints,
        query_hash: 0,
        from_stream: None,
        group_by: Vec::new(),
        having: None,
        analytics: Vec::new(),
        query_vector: None,
    };
    Some((e, q))
}

// ------------------------------------------------------------ public API

/// The text is not in the grammar.
#[derive(Debug, Clone, Copy, PartialEq, Eq)]
pub struct ParseError;

/// Reads a query from the start of `input` and gives what follows its
/// `LIMIT` together with the query.
pub fn parse_query(input: &str) -> (r: Result<(&str, Query), ParseError>)
    ensures
        match r {
            Ok((rest, q)) => query_at(input@, 0) matches Some((e, v)) && query_is(q, v)
                && rest@ == input@.subrange(e, input@.len() as int),
            Err(_) => query_at(input@, 0) is None,
        },
{
    let s = chars_of(input);
    match query_from(&s, 0) {
        Some((e, q)) => Ok((input.substring_char(e, s.len()), q)),
        None => Err(ParseError),
    }
}

/// Reads a node pattern `(alias:Label {name: value})` from the start of
/// `input`.
pub fn parse_node_pattern(input: &str) -> (r: Result<(&str, NodePattern), ParseError>)
    ensures
        match r {
            Ok((rest, n)) => node_pattern_at(input@, 0) matches Some((e, v)) && v == n@
                && rest@ == input@.subrange(e, input@.len() as int),
            Err(_) => node_pattern_at(input@, 0) is None,
        },
{
    let s = chars_of(input);
    match node_pattern_from(&s, 0) {
        Some((e, n)) => Ok((input.substring_char(e, s.len()), n)),
        None => Err(ParseError),
    }
}

/// Reads a decimal number from the start of `input` and gives it as
/// written.
pub fn parse_number(input: &str) -> (r: Result<(&str, String), ParseError>)
    ensures
        match r {
            Ok((rest, t)) => number_at(input@, 0) matches Some((e, v)) && v == t@
                && rest@ == input@.subrange(e, input@.len() as int),
            Err(_) => number_at(input@, 0) is None,
        },
{
    let s = chars_of(input);
    match number_from(&s, 0) {
        Some((e, t)) => Ok((input.substring_char(e, s.len()), t)),
        None => Err(ParseError),
    }
}

/// Reads a `MATCH` clause from the start of `input`.
pub fn parse_match_clause(input: &str) -> (r: Result<(&str, MatchClause), ParseError>)
    ensures
        match r {
            Ok((rest, m)) => match_at(input@, 0) matches Some((e, v)) && v == m@
                && rest@ == input@.subrange(e, input@.len() as int),
            Err(_) => match_at(input@, 0) is None,
        },
{
    let s = chars_of(input);
    match match_from(&s, 0) {
        Some((e, m)) => Ok((input.substring_char(e, s.len()), m)),
        None => Err(ParseError),
    }
}

/// Reads a direction arrow (`<-[:T]->`, `-[:T]->` or `<-[:T]-`) from the
/// start of `input`.
pub fn parse_direction(input: &str) -> (r: Result<(&str, Direction), ParseError>)
    ensures
        match r {
            Ok((rest, d)) => direction_at(input@, 0) matches Some((e, v)) && v == d
                && rest@ == input@.subrange(e, input@.len() as int),
            Err(_) => direction_at(input@, 0) is None,
        },
{
    let s = chars_of(input);
    match direction_from(&s, 0) {
        Some((e, d)) => Ok((input.substring_char(e, s.len()), d)),
        None => Err(ParseError),
    }
}

/// Reads `RETURN` and names separated by commas from the start of `input`.
pub fn parse_return_clause(input: &str) -> (r: Result<(&str, ReturnClause), ParseError>)
    ensures
        match r {
            Ok((rest, c)) => plain_return_at(input@, 0) matches Some((e, v)) && v == strings_view(c.fields@)
                && rest@ == input@.subrange(e, input@.len() as int),
            Err(_) => plain_return_at(input@, 0) is None,
        },
{
    let s = chars_of(input);
    match plain_return_from(&s, 0) {
        Some((e, fields)) => Ok((input.substring_char(e, s.len()), ReturnClause { fields })),
        None => Err(ParseError),
    }
}

/// Reads a label (`:` and ASCII letters) from the start of `input`.
pub fn parse_label(input: &str) -> (r: Result<(&str, String), ParseError>)
    ensures
        match r {
            Ok((rest, t)) => label_at(input@, 0) matches Some((e, v)) && v == t@
                && rest@ == input@.subrange(e, input@.len() as int),
            Err(_) => label_at(input@, 0) is None,
        },
{
    let s = chars_of(input);
    let k = skip_ws_from(&s, 0);
    if !char_is(&s, k, ':') {
        return Err(ParseError);
    }
    match letters_from(&s, k + 1) {
        Some((e, t)) => Ok((input.substring_char(e, s.len()), t)),
        None => Err(ParseError),
    }
}

} // verus!
