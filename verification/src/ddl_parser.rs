//! The schema definition language: `CREATE NODE TYPE`, `CREATE EDGE TYPE`,
//! `DROP NODE TYPE`, `DROP EDGE TYPE` and `SHOW SCHEMA`.
//!
//! The grammar is given by spec functions over the characters of the input,
//! each of which reads from a position and gives the position after what it
//! read together with the value read, or `None` where the input does not
//! match. Keywords match without regard to ASCII case; whitespace is space,
//! tab, carriage return and line feed.

use vstd::prelude::*;
use crate::bm25::{alphanumeric, is_alphanumeric, push_char};
use crate::ast::{ConstraintView, DataType, DdlStatement, DdlView, EdgeTypeDef, FieldConstraint, FieldDef, FieldView, NodeTypeDef, constraints_view, fields_view};

verus! {

/// The characters of `s`, in order.
pub fn chars_of(s: &str) -> (v: Vec<char>)
    ensures
        v@ == s@,
{
    let mut v: Vec<char> = Vec::new();
    for c in it: s.chars()
        invariant
            it.seq() == s@,
            v@ == it.seq().take(it.index() as int),
    {
        v.push(c);
        proof {
            assert(it.seq().take(it.index() + 1) =~= it.seq().take(it.index() as int).push(c));
        }
    }
    v
}

/// Whitespace of the grammar.
pub open spec fn is_space(c: char) -> bool {
    c == ' ' || c == '\t' || c == '\r' || c == '\n'
}

/// The position after the whitespace that starts at `i`.
pub open spec fn skip_ws(s: Seq<char>, i: int) -> int
    decreases s.len() - i,
{
    if 0 <= i < s.len() && is_space(s[i]) { skip_ws(s, i + 1) } else { i }
}

/// Whether `s` holds the character `c` at `i`.
pub open spec fn char_at(s: Seq<char>, i: int, c: char) -> bool {
    0 <= i < s.len() && s[i] == c
}

/// The code of `c`, with ASCII capitals taken as small letters.
pub open spec fn fold_case(c: char) -> u32 {
    if 'A' <= c <= 'Z' { (c as u32 + 32) as u32 } else { c as u32 }
}

/// Whether the keyword `w` stands at `i`, regardless of ASCII case.
pub open spec fn keyword_at(s: Seq<char>, i: int, w: Seq<char>) -> bool {
    &&& 0 <= i
    &&& i + w.len() <= s.len()
    &&& forall|k: int| 0 <= k < w.len() ==> fold_case(s[i + k]) == fold_case(#[trigger] w[k])
}

/// The keyword `w` at `i` followed by at least one whitespace character:
/// the position after that whitespace.
pub open spec fn keyword_ws1(s: Seq<char>, i: int, w: Seq<char>) -> Option<int> {
    if keyword_at(s, i, w) && 0 <= i + w.len() < s.len() && is_space(s[i + w.len()]) {
        Some(skip_ws(s, i + w.len()))
    } else {
        None
    }
}

/// Characters of an identifier.
pub open spec fn is_ident_char(c: char) -> bool {
    alphanumeric(c) || c == '_'
}

/// The end of the identifier characters that start at `i`.
pub open spec fn ident_end(s: Seq<char>, i: int) -> int
    decreases s.len() - i,
{
    if 0 <= i < s.len() && is_ident_char(s[i]) { ident_end(s, i + 1) } else { i }
}

/// An identifier after optional whitespace.
pub open spec fn ident_at(s: Seq<char>, i: int) -> Option<(int, Seq<char>)> {
    let k = skip_ws(s, i);
    let e = ident_end(s, k);
    if e > k { Some((e, s.subrange(k, e))) } else { None }
}

/// ASCII decimal digits.
pub open spec fn is_digit(c: char) -> bool {
    '0' <= c <= '9'
}

/// The end of the digits that start at `i`.
pub open spec fn digits_end(s: Seq<char>, i: int) -> int
    decreases s.len() - i,
{
    if 0 <= i < s.len() && is_digit(s[i]) { digits_end(s, i + 1) } else { i }
}

/// The number that the decimal digits `d` write.
pub open spec fn digits_value(d: Seq<char>) -> nat
    decreases d.len(),
{
    if d.len() == 0 { 0 } else { digits_value(d.drop_last()) * 10 + (d.last() as u32 - '0' as u32) as nat }
}

/// One or more digits at `i` whose number fits in a `u32`: the position
/// after them and the number.
pub open spec fn u32_at(s: Seq<char>, i: int) -> Option<(int, u32)> {
    let e = digits_end(s, i);
    if e > i && digits_value(s.subrange(i, e)) <= u32::MAX {
        Some((e, digits_value(s.subrange(i, e)) as u32))
    } else {
        None
    }
}

/// Past an optional `+` or `-` at `i`.
pub open spec fn sign_end(s: Seq<char>, i: int) -> int {
    if char_at(s, i, '+') || char_at(s, i, '-') { i + 1 } else { i }
}

/// The mantissa of a decimal literal at `a`: digits with an optional point
/// and fraction, or a point and digits.
pub open spec fn mantissa_end(s: Seq<char>, a: int) -> Option<int> {
    let d = digits_end(s, a);
    if d > a {
        if char_at(s, d, '.') { Some(digits_end(s, d + 1)) } else { Some(d) }
    } else if char_at(s, a, '.') && digits_end(s, a + 1) > a + 1 {
        Some(digits_end(s, a + 1))
    } else {
        None
    }
}

/// The end of a floating-point literal at `i`: an optional sign, a
/// mantissa and an optional exponent (`e` or `E`, an optional sign and
/// digits, which must follow the `e`); or else `nan` or `inf` in any case.
pub open spec fn float_end(s: Seq<char>, i: int) -> Option<int> {
    match mantissa_end(s, sign_end(s, i)) {
        Some(b) => {
            if char_at(s, b, 'e') || char_at(s, b, 'E') {
                let c = sign_end(s, b + 1);
                if digits_end(s, c) > c { Some(digits_end(s, c)) } else { None }
            } else {
                Some(b)
            }
        },
        None => {
            if keyword_at(s, i, "nan"@) {
                Some(i + "nan"@.len())
            } else if keyword_at(s, i, "inf"@) {
                Some(i + "inf"@.len())
            } else {
                None
            }
        },
    }
}

/// A field type after optional whitespace: `INT`, `FLOAT`, `BOOL`, `TEXT`,
/// `TIMESTAMP` or `VECTOR (n)`, tried in this order.
pub open spec fn data_type_at(s: Seq<char>, i: int) -> Option<(int, DataType)> {
    let k = skip_ws(s, i);
    if keyword_at(s, k, "INT"@) {
        Some((k + "INT"@.len(), DataType::Int))
    } else if keyword_at(s, k, "FLOAT"@) {
        Some((k + "FLOAT"@.len(), DataType::Float))
    } else if keyword_at(s, k, "BOOL"@) {
        Some((k + "BOOL"@.len(), DataType::Bool))
    } else if keyword_at(s, k, "TEXT"@) {
        Some((k + "TEXT"@.len(), DataType::Text))
    } else if keyword_at(s, k, "TIMESTAMP"@) {
        Some((k + "TIMESTAMP"@.len(), DataType::Timestamp))
    } else if keyword_at(s, k, "VECTOR"@) {
        let a = skip_ws(s, k + "VECTOR"@.len());
        if char_at(s, a, '(') {
            match u32_at(s, a + 1) {
                Some((e, n)) => if char_at(s, e, ')') { Some((e + 1, DataType::Vector(n))) } else { None },
                None => None,
            }
        } else {
            None
        }
    } else {
        None
    }
}

/// Each field-type word, in any case, gives its own type, the type ending
/// right after the word: `INT` an integer, `FLOAT` a float, `BOOL` a
/// boolean, `TEXT` text, `TIMESTAMP` a timestamp. Conversely a type read
/// from the text stands for the word found there.
pub proof fn law_data_type_words(s: Seq<char>, i: int)
    ensures
        keyword_at(s, skip_ws(s, i), "INT"@) ==> data_type_at(s, i) == Some((skip_ws(s, i) + 3, DataType::Int)),
        keyword_at(s, skip_ws(s, i), "FLOAT"@) ==> data_type_at(s, i) == Some((skip_ws(s, i) + 5, DataType::Float)),
        keyword_at(s, skip_ws(s, i), "BOOL"@) ==> data_type_at(s, i) == Some((skip_ws(s, i) + 4, DataType::Bool)),
        keyword_at(s, skip_ws(s, i), "TEXT"@) ==> data_type_at(s, i) == Some((skip_ws(s, i) + 4, DataType::Text)),
        keyword_at(s, skip_ws(s, i), "TIMESTAMP"@) ==> data_type_at(s, i) == Some((skip_ws(s, i) + 9, DataType::Timestamp)),
        data_type_at(s, i) matches Some((_, t)) ==> {
            &&& t == DataType::Int ==> keyword_at(s, skip_ws(s, i), "INT"@)
            &&& t == DataType::Float ==> keyword_at(s, skip_ws(s, i), "FLOAT"@)
            &&& t == DataType::Bool ==> keyword_at(s, skip_ws(s, i), "BOOL"@)
            &&& t == DataType::Text ==> keyword_at(s, skip_ws(s, i), "TEXT"@)
            &&& t == DataType::Timestamp ==> keyword_at(s, skip_ws(s, i), "TIMESTAMP"@)
            &&& t is Vector ==> keyword_at(s, skip_ws(s, i), "VECTOR"@)
        },
{
    reveal_strlit("INT");
    reveal_strlit("FLOAT");
    reveal_strlit("BOOL");
    reveal_strlit("TEXT");
    reveal_strlit("TIMESTAMP");
    reveal_strlit("VECTOR");
    let k = skip_ws(s, i);
    if 0 <= k < s.len() {
        let c = fold_case(s[k]);
        if keyword_at(s, k, "INT"@) {
            assert("INT"@[0] == 'I');
            assert(c == fold_case("INT"@[0]));
        }
        if keyword_at(s, k, "FLOAT"@) {
            assert("FLOAT"@[0] == 'F');
            assert(c == fold_case("FLOAT"@[0]));
        }
        if keyword_at(s, k, "BOOL"@) {
            assert("BOOL"@[0] == 'B');
            assert(c == fold_case("BOOL"@[0]));
        }
        if keyword_at(s, k, "TEXT"@) {
            assert("TEXT"@[0] == 'T');
            assert(c == fold_case("TEXT"@[0]));
        }
        if keyword_at(s, k, "TIMESTAMP"@) {
            assert("TIMESTAMP"@[0] == 'T');
            assert(c == fold_case("TIMESTAMP"@[0]));
        }
        if keyword_at(s, k, "VECTOR"@) {
            assert("VECTOR"@[0] == 'V');
            assert(c == fold_case("VECTOR"@[0]));
        }
        if keyword_at(s, k, "TEXT"@) && keyword_at(s, k, "TIMESTAMP"@) {
            assert("TEXT"@[1] == 'E' && "TIMESTAMP"@[1] == 'I');
            assert(fold_case(s[k + 1]) == fold_case("TEXT"@[1]));
            assert(fold_case(s[k + 1]) == fold_case("TIMESTAMP"@[1]));
        }
    }
}

/// `( phi = <float> )` after `VECTOR_INDEX`, whitespace allowed before the
/// parenthesis and around `=`.
pub open spec fn vector_index_at(s: Seq<char>, j: int) -> Option<(int, ConstraintView)> {
    let a = skip_ws(s, j);
    if char_at(s, a, '(') && keyword_at(s, a + 1, "phi"@) {
        let b = skip_ws(s, a + 1 + "phi"@.len());
        if char_at(s, b, '=') {
            let c = skip_ws(s, b + 1);
            match float_end(s, c) {
                Some(e) => if char_at(s, e, ')') {
                    Some((e + 1, ConstraintView::VectorIndex(s.subrange(c, e))))
                } else {
                    None
                },
                None => None,
            }
        } else {
            None
        }
    } else {
        None
    }
}

/// A field constraint after optional whitespace: `NOT NULL`, `UNIQUE`,
/// `INDEX` or `VECTOR_INDEX(phi = x)`.
pub open spec fn constraint_at(s: Seq<char>, i: int) -> Option<(int, ConstraintView)> {
    let k = skip_ws(s, i);
    if keyword_at(s, k, "NOT NULL"@) {
        Some((k + "NOT NULL"@.len(), ConstraintView::NotNull))
    } else if keyword_at(s, k, "UNIQUE"@) {
        Some((k + "UNIQUE"@.len(), ConstraintView::Unique))
    } else if keyword_at(s, k, "INDEX"@) {
        Some((k + "INDEX"@.len(), ConstraintView::Index))
    } else if keyword_at(s, k, "VECTOR_INDEX"@) {
        vector_index_at(s, k + "VECTOR_INDEX"@.len())
    } else {
        None
    }
}

/// Each constraint word, in any case, gives its own constraint, ending right
/// after the word: `NOT NULL`, `UNIQUE`, `INDEX`; and a constraint read from
/// the text stands for the word found there.
pub proof fn law_constraint_words(s: Seq<char>, i: int)
    ensures
        keyword_at(s, skip_ws(s, i), "NOT NULL"@) ==> constraint_at(s, i) == Some((skip_ws(s, i) + 8, ConstraintView::NotNull)),
        keyword_at(s, skip_ws(s, i), "UNIQUE"@) ==> constraint_at(s, i) == Some((skip_ws(s, i) + 6, ConstraintView::Unique)),
        keyword_at(s, skip_ws(s, i), "INDEX"@) ==> constraint_at(s, i) == Some((skip_ws(s, i) + 5, ConstraintView::Index)),
        constraint_at(s, i) matches Some((_, c)) ==> {
            &&& c == ConstraintView::NotNull ==> keyword_at(s, skip_ws(s, i), "NOT NULL"@)
            &&& c == ConstraintView::Unique ==> keyword_at(s, skip_ws(s, i), "UNIQUE"@)
            &&& c == ConstraintView::Index ==> keyword_at(s, skip_ws(s, i), "INDEX"@)
            &&& c is VectorIndex ==> keyword_at(s, skip_ws(s, i), "VECTOR_INDEX"@)
        },
{
    reveal_strlit("NOT NULL");
    reveal_strlit("UNIQUE");
    reveal_strlit("INDEX");
    reveal_strlit("VECTOR_INDEX");
    let k = skip_ws(s, i);
    if 0 <= k < s.len() {
        let c = fold_case(s[k]);
        if keyword_at(s, k, "NOT NULL"@) {
            assert("NOT NULL"@[0] == 'N');
            assert(c == fold_case("NOT NULL"@[0]));
        }
        if keyword_at(s, k, "UNIQUE"@) {
            assert("UNIQUE"@[0] == 'U');
            assert(c == fold_case("UNIQUE"@[0]));
        }
        if keyword_at(s, k, "INDEX"@) {
            assert("INDEX"@[0] == 'I');
            assert(c == fold_case("INDEX"@[0]));
        }
        if keyword_at(s, k, "VECTOR_INDEX"@) {
            assert("VECTOR_INDEX"@[0] == 'V');
            assert(c == fold_case("VECTOR_INDEX"@[0]));
        }
    }
    if let Some((e, cv)) = vector_index_at(s, k + "VECTOR_INDEX"@.len()) {
        assert(cv is VectorIndex);
    }
}

pub proof fn lemma_skip_ws(s: Seq<char>, i: int)
    ensures
        i <= skip_ws(s, i),
        0 <= i <= s.len() ==> skip_ws(s, i) <= s.len(),
    decreases s.len() - i,
{
    if 0 <= i < s.len() && is_space(s[i]) {
        lemma_skip_ws(s, i + 1);
    }
}

pub proof fn lemma_ident_end(s: Seq<char>, i: int)
    ensures
        i <= ident_end(s, i),
        0 <= i <= s.len() ==> ident_end(s, i) <= s.len(),
    decreases s.len() - i,
{
    if 0 <= i < s.len() && is_ident_char(s[i]) {
        lemma_ident_end(s, i + 1);
    }
}

pub proof fn lemma_digits_end(s: Seq<char>, i: int)
    ensures
        i <= digits_end(s, i),
        0 <= i <= s.len() ==> digits_end(s, i) <= s.len(),
    decreases s.len() - i,
{
    if 0 <= i < s.len() && is_digit(s[i]) {
        lemma_digits_end(s, i + 1);
    }
}

pub proof fn lemma_ident_at(s: Seq<char>, i: int)
    ensures
        ident_at(s, i) matches Some((e, _)) ==> i < e <= s.len(),
{
    lemma_skip_ws(s, i);
    let k = skip_ws(s, i);
    lemma_ident_end(s, k);
    if ident_end(s, k) > k {
        // an identifier character stands at k, so k is inside s
        assert(0 <= k < s.len());
    }
}

pub proof fn lemma_float_end(s: Seq<char>, i: int)
    ensures
        float_end(s, i) matches Some(e) ==> i <= e,
{
    lemma_digits_end(s, sign_end(s, i));
    lemma_digits_end(s, sign_end(s, i) + 1);
    let a = sign_end(s, i);
    let d = digits_end(s, a);
    lemma_digits_end(s, d + 1);
    match mantissa_end(s, a) {
        Some(b) => {
            lemma_digits_end(s, sign_end(s, b + 1));
        },
        None => {
            reveal_strlit("nan");
            reveal_strlit("inf");
        },
    }
}

pub proof fn lemma_constraint_advances(s: Seq<char>, i: int)
    ensures
        constraint_at(s, i) matches Some((j, _)) ==> i < j <= s.len(),
{
    lemma_skip_ws(s, i);
    reveal_strlit("NOT NULL");
    reveal_strlit("UNIQUE");
    reveal_strlit("INDEX");
    reveal_strlit("VECTOR_INDEX");
    reveal_strlit("phi");
    let k = skip_ws(s, i);
    let j = k + "VECTOR_INDEX"@.len();
    let a = skip_ws(s, j);
    lemma_skip_ws(s, j);
    let b = skip_ws(s, a + 1 + "phi"@.len());
    lemma_skip_ws(s, a + 1 + "phi"@.len());
    lemma_skip_ws(s, b + 1);
    lemma_float_end(s, skip_ws(s, b + 1));
}

/// The constraints that follow one another from `i`, each after optional
/// whitespace, and the position after the last.
pub open spec fn constraints_from(s: Seq<char>, i: int) -> (int, Seq<ConstraintView>)
    decreases s.len() - i,
{
    match constraint_at(s, i) {
        Some((j, c)) => {
            proof {
                lemma_constraint_advances(s, i);
            }
            let (e, rest) = constraints_from(s, j);
            (e, seq![c] + rest)
        },
        None => (i, Seq::empty()),
    }
}

/// `PRIMARY KEY` after at least one whitespace character at `b`: the
/// position after it and `true`, or `b` and `false` where it is absent.
pub open spec fn primary_key_at(s: Seq<char>, b: int) -> (int, bool) {
    let k = skip_ws(s, b);
    if 0 <= b < s.len() && is_space(s[b]) && keyword_at(s, k, "PRIMARY KEY"@) {
        (k + "PRIMARY KEY"@.len(), true)
    } else {
        (b, false)
    }
}

/// A field: its name, whitespace, its type, `PRIMARY KEY` where it
/// follows, and its constraints.
pub open spec fn field_def_at(s: Seq<char>, i: int) -> Option<(int, FieldView)> {
    match ident_at(s, i) {
        Some((a, name)) => {
            if 0 <= a < s.len() && is_space(s[a]) {
                match data_type_at(s, a) {
                    Some((b, data_type)) => {
                        let (c, is_primary_key) = primary_key_at(s, b);
                        let (e, constraints) = constraints_from(s, c);
                        Some((e, FieldView { name, data_type, is_primary_key, constraints }))
                    },
                    None => None,
                }
            } else {
                None
            }
        },
        None => None,
    }
}

pub proof fn lemma_constraints_from(s: Seq<char>, i: int)
    requires
        0 <= i <= s.len(),
    ensures
        i <= constraints_from(s, i).0 <= s.len(),
    decreases s.len() - i,
{
    lemma_constraint_advances(s, i);
    if let Some((j, _)) = constraint_at(s, i) {
        lemma_constraints_from(s, j);
    }
}

pub proof fn lemma_data_type_at(s: Seq<char>, i: int)
    ensures
        data_type_at(s, i) matches Some((b, _)) ==> i < b <= s.len(),
{
    lemma_skip_ws(s, i);
    reveal_strlit("INT");
    reveal_strlit("FLOAT");
    reveal_strlit("BOOL");
    reveal_strlit("TEXT");
    reveal_strlit("TIMESTAMP");
    reveal_strlit("VECTOR");
    let k = skip_ws(s, i);
    lemma_skip_ws(s, k + 6);
}

pub proof fn lemma_field_def_advances(s: Seq<char>, i: int)
    ensures
        field_def_at(s, i) matches Some((j, _)) ==> i < j <= s.len(),
{
    lemma_ident_at(s, i);
    if let Some((a, _)) = ident_at(s, i) {
        lemma_data_type_at(s, a);
        if let Some((b, _)) = data_type_at(s, a) {
            lemma_skip_ws(s, b);
            reveal_strlit("PRIMARY KEY");
            let c = primary_key_at(s, b).0;
            lemma_constraints_from(s, c);
        }
    }
}

/// Fields after the first, each after optional whitespace, a comma and
/// optional whitespace. Where a comma is not followed by a field, the list
/// ends before the comma.
pub open spec fn more_fields(s: Seq<char>, i: int) -> (int, Seq<FieldView>)
    decreases s.len() - i,
{
    let a = skip_ws(s, i);
    if char_at(s, a, ',') {
        match field_def_at(s, a + 1) {
            Some((j, f)) => {
                proof {
                    lemma_skip_ws(s, i);
                    lemma_field_def_advances(s, a + 1);
                }
                let (e, rest) = more_fields(s, j);
                (e, seq![f] + rest)
            },
            None => (i, Seq::empty()),
        }
    } else {
        (i, Seq::empty())
    }
}

/// Zero or more fields separated by commas.
pub open spec fn fields_from(s: Seq<char>, i: int) -> (int, Seq<FieldView>) {
    match field_def_at(s, i) {
        Some((j, f)) => {
            let (e, rest) = more_fields(s, j);
            (e, seq![f] + rest)
        },
        None => (i, Seq::empty()),
    }
}

/// A parenthesised list of fields.
pub open spec fn field_list_at(s: Seq<char>, i: int) -> Option<(int, Seq<FieldView>)> {
    let a = skip_ws(s, i);
    if char_at(s, a, '(') {
        let (b, fields) = fields_from(s, a + 1);
        let c = skip_ws(s, b);
        if char_at(s, c, ')') { Some((c + 1, fields)) } else { None }
    } else {
        None
    }
}

/// `<w1> <w2> TYPE` after optional whitespace, each word followed by
/// whitespace: the position after that whitespace.
pub open spec fn head_at(s: Seq<char>, i: int, w1: Seq<char>, w2: Seq<char>) -> Option<int> {
    match keyword_ws1(s, skip_ws(s, i), w1) {
        Some(a) => match keyword_ws1(s, a, w2) {
            Some(b) => keyword_ws1(s, b, "TYPE"@),
            None => None,
        },
        None => None,
    }
}

/// `CREATE NODE TYPE name (fields)`.
pub open spec fn create_node_type_at(s: Seq<char>, i: int) -> Option<(int, DdlView)> {
    match head_at(s, i, "CREATE"@, "NODE"@) {
        Some(a) => match ident_at(s, a) {
            Some((b, name)) => match field_list_at(s, b) {
                Some((c, fields)) => Some((c, DdlView::CreateNodeType(name, fields))),
                None => None,
            },
            None => None,
        },
        None => None,
    }
}

/// The fields of an edge type after its endpoints: a comma that follows
/// the target type directly and the fields after it, or none.
pub open spec fn edge_fields_at(s: Seq<char>, f: int) -> (int, Seq<FieldView>) {
    if char_at(s, f, ',') { fields_from(s, skip_ws(s, f + 1)) } else { (f, Seq::empty()) }
}

/// `CREATE EDGE TYPE name (from A, to B[, fields])`.
pub open spec fn create_edge_type_at(s: Seq<char>, i: int) -> Option<(int, DdlView)> {
    match head_at(s, i, "CREATE"@, "EDGE"@) {
        Some(a) => match ident_at(s, a) {
            Some((b, name)) => {
                let c = skip_ws(s, b);
                let k = skip_ws(s, c + 1);
                if char_at(s, c, '(') && keyword_at(s, k, "from"@) {
                    match ident_at(s, k + "from"@.len()) {
                        Some((d, from)) => {
                            let e = skip_ws(s, d);
                            let m = skip_ws(s, e + 1);
                            if char_at(s, e, ',') && keyword_at(s, m, "to"@) {
                                match ident_at(s, m + "to"@.len()) {
                                    Some((f, to)) => {
                                        let (g, fields) = edge_fields_at(s, f);
                                        let h = skip_ws(s, g);
                                        if char_at(s, h, ')') {
                                            Some((h + 1, DdlView::CreateEdgeType(name, from, to, fields)))
                                        } else {
                                            None
                                        }
                                    },
                                    None => None,
                                }
                            } else {
                                None
                            }
                        },
                        None => None,
                    }
                } else {
                    None
                }
            },
            None => None,
        },
        None => None,
    }
}

/// `DROP <kind> TYPE name`: the position after the name, and the name.
pub open spec fn drop_type_at(s: Seq<char>, i: int, kind: Seq<char>) -> Option<(int, Seq<char>)> {
    match head_at(s, i, "DROP"@, kind) {
        Some(a) => ident_at(s, a),
        None => None,
    }
}

/// `SHOW SCHEMA`.
pub open spec fn show_schema_at(s: Seq<char>, i: int) -> Option<int> {
    match keyword_ws1(s, skip_ws(s, i), "SHOW"@) {
        Some(a) => if keyword_at(s, a, "SCHEMA"@) { Some(a + "SCHEMA"@.len()) } else { None },
        None => None,
    }
}

/// A statement after optional whitespace: the first of the five forms that
/// matches.
pub open spec fn statement_at(s: Seq<char>, i: int) -> Option<(int, DdlView)> {
    let k = skip_ws(s, i);
    if create_node_type_at(s, k) is Some {
        create_node_type_at(s, k)
    } else if create_edge_type_at(s, k) is Some {
        create_edge_type_at(s, k)
    } else if let Some((j, name)) = drop_type_at(s, k, "NODE"@) {
        Some((j, DdlView::DropNodeType(name)))
    } else if let Some((j, name)) = drop_type_at(s, k, "EDGE"@) {
        Some((j, DdlView::DropEdgeType(name)))
    } else if let Some(j) = show_schema_at(s, k) {
        Some((j, DdlView::ShowSchema))
    } else {
        None
    }
}

/// A position as a mathematical integer.
pub open spec fn opt_pos(r: Option<usize>) -> Option<int> {
    match r {
        Some(j) => Some(j as int),
        None => None,
    }
}

pub(crate) fn space(c: char) -> (b: bool)
    ensures
        b == is_space(c),
{
    c == ' ' || c == '\t' || c == '\r' || c == '\n'
}

/// Skips whitespace from `i`.
pub(crate) fn skip_ws_from(s: &Vec<char>, i: usize) -> (j: usize)
    requires
        i <= s.len(),
    ensures
        j == skip_ws(s@, i as int),
        i <= j <= s.len(),
{
    let mut j = i;
    while j < s.len() && space(s[j])
        invariant
            i <= j <= s.len(),
            skip_ws(s@, j as int) == skip_ws(s@, i as int),
        decreases s.len() - j,
    {
        j = j + 1;
    }
    j
}

pub(crate) fn fold(c: char) -> (r: u32)
    ensures
        r == fold_case(c),
{
    let n = c as u32;
    if 65 <= n && n <= 90 { n + 32 } else { n }
}

/// The keyword `w` at `i`, regardless of ASCII case: the position after it.
pub(crate) fn tag(s: &Vec<char>, i: usize, w: &str) -> (r: Option<usize>)
    requires
        i <= s.len(),
    ensures
        r matches Some(j) ==> keyword_at(s@, i as int, w@) && j == i + w@.len(),
        r is None ==> !keyword_at(s@, i as int, w@),
{
    let n = w.unicode_len();
    if n > s.len() - i {
        return None;
    }
    let mut k: usize = 0;
    while k < n
        invariant
            k <= n,
            n == w@.len(),
            i + n <= s.len(),
            forall|m: int| 0 <= m < k ==> fold_case(s@[i + m]) == fold_case(#[trigger] w@[m]),
        decreases n - k,
    {
        if fold(s[i + k]) != fold(w.get_char(k)) {
            assert(fold_case(s@[i + k]) != fold_case(w@[k as int]));
            return None;
        }
        k = k + 1;
    }
    Some(i + n)
}

pub(crate) fn char_is(s: &Vec<char>, i: usize, c: char) -> (b: bool)
    ensures
        b == char_at(s@, i as int, c),
{
    i < s.len() && s[i] == c
}

/// The keyword `w` at `i` and at least one whitespace character.
pub(crate) fn tag_ws1(s: &Vec<char>, i: usize, w: &str) -> (r: Option<usize>)
    requires
        i <= s.len(),
    ensures
        opt_pos(r) == keyword_ws1(s@, i as int, w@),
        r matches Some(j) ==> j <= s.len(),
{
    match tag(s, i, w) {
        Some(j) => {
            if j < s.len() && space(s[j]) {
                Some(skip_ws_from(s, j))
            } else {
                None
            }
        },
        None => None,
    }
}

/// The characters of `s` from `a` to `b` as a string.
pub(crate) fn collect(s: &Vec<char>, a: usize, b: usize) -> (r: String)
    requires
        a <= b <= s.len(),
    ensures
        r@ == s@.subrange(a as int, b as int),
{
    let mut r = String::new();
    let mut k = a;
    while k < b
        invariant
            a <= k <= b <= s.len(),
            r@ == s@.subrange(a as int, k as int),
        decreases b - k,
    {
        push_char(&mut r, s[k]);
        proof {
            assert(s@.subrange(a as int, k + 1) =~= s@.subrange(a as int, k as int).push(s@[k as int]));
        }
        k = k + 1;
    }
    r
}

/// An identifier after optional whitespace.
fn ident(s: &Vec<char>, i: usize) -> (r: Option<(usize, String)>)
    requires
        i <= s.len(),
    ensures
        match r {
            Some((e, name)) => ident_at(s@, i as int) == Some((e as int, name@)) && e <= s.len(),
            None => ident_at(s@, i as int) is None,
        },
{
    let k = skip_ws_from(s, i);
    let mut e = k;
    while e < s.len() && (is_alphanumeric(s[e]) || s[e] == '_')
        invariant
            k <= e <= s.len(),
            ident_end(s@, e as int) == ident_end(s@, k as int),
        decreases s.len() - e,
    {
        e = e + 1;
    }
    if e > k {
        Some((e, collect(s, k, e)))
    } else {
        None
    }
}

pub(crate) fn digits_from(s: &Vec<char>, i: usize) -> (e: usize)
    requires
        i <= s.len(),
    ensures
        e == digits_end(s@, i as int),
        i <= e <= s.len(),
        forall|m: int| i <= m < e ==> is_digit(#[trigger] s@[m]),
{
    let mut e = i;
    while e < s.len() && '0' <= s[e] && s[e] <= '9'
        invariant
            i <= e <= s.len(),
            digits_end(s@, e as int) == digits_end(s@, i as int),
            forall|m: int| i <= m < e ==> is_digit(#[trigger] s@[m]),
        decreases s.len() - e,
    {
        e = e + 1;
    }
    e
}

/// Digits at `i` whose number fits in a `u32`.
pub(crate) fn u32_from(s: &Vec<char>, i: usize) -> (r: Option<(usize, u32)>)
    requires
        i <= s.len(),
    ensures
        match r {
            Some((e, n)) => u32_at(s@, i as int) == Some((e as int, n)) && e <= s.len(),
            None => u32_at(s@, i as int) is None,
        },
{
    let e = digits_from(s, i);
    let mut k = i;
    let mut v: u64 = 0;
    let mut fits = true;
    proof {
        assert(s@.subrange(i as int, i as int) =~= Seq::<char>::empty());
    }
    while k < e
        invariant
            i <= k <= e <= s.len(),
            e == digits_end(s@, i as int),
            forall|m: int| i <= m < e ==> is_digit(#[trigger] s@[m]),
            fits ==> v == digits_value(s@.subrange(i as int, k as int)) && v <= u32::MAX,
            !fits ==> digits_value(s@.subrange(i as int, k as int)) > u32::MAX,
        decreases e - k,
    {
        let d = (s[k] as u32) - 48;
        proof {
            let x = s@.subrange(i as int, k + 1);
            assert(x.drop_last() =~= s@.subrange(i as int, k as int));
            assert(x.last() == s@[k as int]);
        }
        if fits {
            let nv = v * 10 + (d as u64);
            if nv > 0xffff_ffffu64 {
                fits = false;
            } else {
                v = nv;
            }
        }
        k = k + 1;
    }
    if e > i && fits {
        Some((e, v as u32))
    } else {
        None
    }
}

fn sign_from(s: &Vec<char>, i: usize) -> (j: usize)
    requires
        i <= s.len(),
    ensures
        j == sign_end(s@, i as int),
        j <= s.len(),
{
    if char_is(s, i, '+') || char_is(s, i, '-') { i + 1 } else { i }
}

/// The end of a floating-point literal at `i`.
fn float_from(s: &Vec<char>, i: usize) -> (r: Option<usize>)
    requires
        i <= s.len(),
    ensures
        opt_pos(r) == float_end(s@, i as int),
        r matches Some(e) ==> e <= s.len(),
{
    let a = sign_from(s, i);
    let d = digits_from(s, a);
    let m: Option<usize> = if d > a {
        if char_is(s, d, '.') { Some(digits_from(s, d + 1)) } else { Some(d) }
    } else if char_is(s, a, '.') && digits_from(s, a + 1) > a + 1 {
        Some(digits_from(s, a + 1))
    } else {
        None
    };
    assert(opt_pos(m) == mantissa_end(s@, a as int));
    match m {
        Some(b) => {
            if char_is(s, b, 'e') || char_is(s, b, 'E') {
                let c = sign_from(s, b + 1);
                let e = digits_from(s, c);
                if e > c { Some(e) } else { None }
            } else {
                Some(b)
            }
        },
        None => {
            if tag(s, i, "nan").is_some() {
                Some(i + "nan".unicode_len())
            } else if tag(s, i, "inf").is_some() {
                Some(i + "inf".unicode_len())
            } else {
                None
            }
        },
    }
}

/// A field type after optional whitespace.
fn data_type_from(s: &Vec<char>, i: usize) -> (r: Option<(usize, DataType)>)
    requires
        i <= s.len(),
    ensures
        match r {
            Some((e, t)) => data_type_at(s@, i as int) == Some((e as int, t)) && e <= s.len(),
            None => data_type_at(s@, i as int) is None,
        },
{
    let k = skip_ws_from(s, i);
    if let Some(e) = tag(s, k, "INT") {
        Some((e, DataType::Int))
    } else if let Some(e) = tag(s, k, "FLOAT") {
        Some((e, DataType::Float))
    } else if let Some(e) = tag(s, k, "BOOL") {
        Some((e, DataType::Bool))
    } else if let Some(e) = tag(s, k, "TEXT") {
        Some((e, DataType::Text))
    } else if let Some(e) = tag(s, k, "TIMESTAMP") {
        Some((e, DataType::Timestamp))
    } else if let Some(j) = tag(s, k, "VECTOR") {
        let a = skip_ws_from(s, j);
        if char_is(s, a, '(') {
            match u32_from(s, a + 1) {
                Some((e, n)) => if char_is(s, e, ')') { Some((e + 1, DataType::Vector(n))) } else { None },
                None => None,
            }
        } else {
            None
        }
    } else {
        None
    }
}

/// `( phi = x )` after `VECTOR_INDEX`.
fn vector_index_from(s: &Vec<char>, j: usize) -> (r: Option<(usize, FieldConstraint)>)
    requires
        j <= s.len(),
    ensures
        match r {
            Some((e, c)) => vector_index_at(s@, j as int) == Some((e as int, c@)) && e <= s.len(),
            None => vector_index_at(s@, j as int) is None,
        },
{
    let a = skip_ws_from(s, j);
    if !char_is(s, a, '(') {
        return None;
    }
    let p = match tag(s, a + 1, "phi") {
        Some(p) => p,
        None => return None,
    };
    let b = skip_ws_from(s, p);
    if !char_is(s, b, '=') {
        return None;
    }
    let c = skip_ws_from(s, b + 1);
    match float_from(s, c) {
        Some(e) => {
            if char_is(s, e, ')') {
                proof {
                    lemma_float_end(s@, c as int);
                }
                Some((e + 1, FieldConstraint::VectorIndex { phi: collect(s, c, e) }))
            } else {
                None
            }
        },
        None => None,
    }
}

/// A field constraint after optional whitespace.
fn constraint_from(s: &Vec<char>, i: usize) -> (r: Option<(usize, FieldConstraint)>)
    requires
        i <= s.len(),
    ensures
        match r {
            Some((e, c)) => constraint_at(s@, i as int) == Some((e as int, c@)) && e <= s.len(),
            None => constraint_at(s@, i as int) is None,
        },
{
    let k = skip_ws_from(s, i);
    if let Some(e) = tag(s, k, "NOT NULL") {
        Some((e, FieldConstraint::NotNull))
    } else if let Some(e) = tag(s, k, "UNIQUE") {
        Some((e, FieldConstraint::Unique))
    } else if let Some(e) = tag(s, k, "INDEX") {
        Some((e, FieldConstraint::Index))
    } else if let Some(j) = tag(s, k, "VECTOR_INDEX") {
        vector_index_from(s, j)
    } else {
        None
    }
}

/// The constraints from `i`, and the position after the last.
fn constraints(s: &Vec<char>, i: usize) -> (r: (usize, Vec<FieldConstraint>))
    requires
        i <= s.len(),
    ensures
        constraints_from(s@, i as int) == (r.0 as int, constraints_view(r.1@)),
        r.0 <= s.len(),
{
    let mut out: Vec<FieldConstraint> = Vec::new();
    let mut k = i;
    proof {
        assert(constraints_view(out@) =~= Seq::<ConstraintView>::empty());
    }
    loop
        invariant
            k <= s.len(),
            constraints_from(s@, i as int) == (constraints_from(s@, k as int).0,
                constraints_view(out@) + constraints_from(s@, k as int).1),
        decreases s.len() - k,
    {
        match constraint_from(s, k) {
            Some((j, c)) => {
                proof {
                    lemma_constraint_advances(s@, k as int);
                    let cv = constraints_view(out@);
                    assert(constraints_view(out@.push(c)) =~= cv.push(c@));
                    assert(cv + (seq![c@] + constraints_from(s@, j as int).1)
                        =~= cv.push(c@) + constraints_from(s@, j as int).1);
                }
                out.push(c);
                k = j;
            },
            None => {
                proof {
                    assert(constraints_view(out@) + Seq::<ConstraintView>::empty() =~= constraints_view(out@));
                }
                return (k, out);
            },
        }
    }
}

/// `PRIMARY KEY` after whitespace at `b`, if there.
fn primary_key(s: &Vec<char>, b: usize) -> (r: (usize, bool))
    requires
        b <= s.len(),
    ensures
        primary_key_at(s@, b as int) == (r.0 as int, r.1),
        r.0 <= s.len(),
{
    if b < s.len() && space(s[b]) {
        let k = skip_ws_from(s, b);
        if let Some(e) = tag(s, k, "PRIMARY KEY") {
            return (e, true);
        }
    }
    (b, false)
}

/// A field definition.
fn field_def(s: &Vec<char>, i: usize) -> (r: Option<(usize, FieldDef)>)
    requires
        i <= s.len(),
    ensures
        match r {
            Some((e, f)) => field_def_at(s@, i as int) == Some((e as int, f@)) && e <= s.len(),
            None => field_def_at(s@, i as int) is None,
        },
{
    let (a, name) = match ident(s, i) {
        Some(x) => x,
        None => return None,
    };
    if !(a < s.len() && space(s[a])) {
        return None;
    }
    let (b, data_type) = match data_type_from(s, a) {
        Some(x) => x,
        None => return None,
    };
    let (c, is_primary_key) = primary_key(s, b);
    let (e, cs) = constraints(s, c);
    Some((e, FieldDef { name, data_type, is_primary_key, constraints: cs }))
}

/// Fields separated by commas, from `i`.
fn fields(s: &Vec<char>, i: usize) -> (r: (usize, Vec<FieldDef>))
    requires
        i <= s.len(),
    ensures
        fields_from(s@, i as int) == (r.0 as int, fields_view(r.1@)),
        r.0 <= s.len(),
{
    let mut out: Vec<FieldDef> = Vec::new();
    let mut k = match field_def(s, i) {
        Some((j, f)) => {
            out.push(f);
            j
        },
        None => {
            proof {
                assert(fields_view(out@) =~= Seq::<FieldView>::empty());
            }
            return (i, out);
        },
    };
    proof {
        assert(fields_view(out@) =~= seq![out@[0]@]);
    }
    loop
        invariant
            k <= s.len(),
            fields_from(s@, i as int) == (more_fields(s@, k as int).0,
                fields_view(out@) + more_fields(s@, k as int).1),
        decreases s.len() - k,
    {
        let a = skip_ws_from(s, k);
        if !char_is(s, a, ',') {
            proof {
                assert(fields_view(out@) + Seq::<FieldView>::empty() =~= fields_view(out@));
            }
            return (k, out);
        }
        match field_def(s, a + 1) {
            Some((j, f)) => {
                proof {
                    lemma_skip_ws(s@, k as int);
                    lemma_field_def_advances(s@, a + 1);
                    let fv = fields_view(out@);
                    assert(fields_view(out@.push(f)) =~= fv.push(f@));
                    assert(fv + (seq![f@] + more_fields(s@, j as int).1)
                        =~= fv.push(f@) + more_fields(s@, j as int).1);
                }
                out.push(f);
                k = j;
            },
            None => {
                proof {
                    assert(fields_view(out@) + Seq::<FieldView>::empty() =~= fields_view(out@));
                }
                return (k, out);
            },
        }
    }
}

/// A parenthesised list of fields.
fn field_list(s: &Vec<char>, i: usize) -> (r: Option<(usize, Vec<FieldDef>)>)
    requires
        i <= s.len(),
    ensures
        match r {
            Some((e, fs)) => field_list_at(s@, i as int) == Some((e as int, fields_view(fs@))) && e <= s.len(),
            None => field_list_at(s@, i as int) is None,
        },
{
    let a = skip_ws_from(s, i);
    if !char_is(s, a, '(') {
        return None;
    }
    let (b, fs) = fields(s, a + 1);
    let c = skip_ws_from(s, b);
    if char_is(s, c, ')') {
        Some((c + 1, fs))
    } else {
        None
    }
}

/// `<w1> <w2> TYPE` and whitespace.
fn head(s: &Vec<char>, i: usize, w1: &str, w2: &str) -> (r: Option<usize>)
    requires
        i <= s.len(),
    ensures
        opt_pos(r) == head_at(s@, i as int, w1@, w2@),
        r matches Some(j) ==> j <= s.len(),
{
    let k = skip_ws_from(s, i);
    match tag_ws1(s, k, w1) {
        Some(a) => match tag_ws1(s, a, w2) {
            Some(b) => tag_ws1(s, b, "TYPE"),
            None => None,
        },
        None => None,
    }
}

/// `CREATE NODE TYPE name (fields)`.
fn create_node_type(s: &Vec<char>, i: usize) -> (r: Option<(usize, DdlStatement)>)
    requires
        i <= s.len(),
    ensures
        match r {
            Some((e, st)) => create_node_type_at(s@, i as int) == Some((e as int, st@)) && e <= s.len(),
            None => create_node_type_at(s@, i as int) is None,
        },
{
    let a = match head(s, i, "CREATE", "NODE") {
        Some(a) => a,
        None => return None,
    };
    let (b, name) = match ident(s, a) {
        Some(x) => x,
        None => return None,
    };
    match field_list(s, b) {
        Some((c, fields)) => Some((c, DdlStatement::CreateNodeType(NodeTypeDef { name, fields }))),
        None => None,
    }
}

/// The fields that follow the endpoints of an edge type.
fn edge_fields(s: &Vec<char>, f: usize) -> (r: (usize, Vec<FieldDef>))
    requires
        f <= s.len(),
    ensures
        edge_fields_at(s@, f as int) == (r.0 as int, fields_view(r.1@)),
        r.0 <= s.len(),
{
    if char_is(s, f, ',') {
        let k = skip_ws_from(s, f + 1);
        fields(s, k)
    } else {
        let v: Vec<FieldDef> = Vec::new();
        proof {
            assert(fields_view(v@) =~= Seq::<FieldView>::empty());
        }
        (f, v)
    }
}

/// `CREATE EDGE TYPE name (from A, to B[, fields])`.
fn create_edge_type(s: &Vec<char>, i: usize) -> (r: Option<(usize, DdlStatement)>)
    requires
        i <= s.len(),
    ensures
        match r {
            Some((e, st)) => create_edge_type_at(s@, i as int) == Some((e as int, st@)) && e <= s.len(),
            None => create_edge_type_at(s@, i as int) is None,
        },
{
    let a = match head(s, i, "CREATE", "EDGE") {
        Some(a) => a,
        None => return None,
    };
    let (b, name) = match ident(s, a) {
        Some(x) => x,
        None => return None,
    };
    let c = skip_ws_from(s, b);
    if !char_is(s, c, '(') {
        return None;
    }
    let k = skip_ws_from(s, c + 1);
    let k2 = match tag(s, k, "from") {
        Some(k2) => k2,
        None => return None,
    };
    let (d, from) = match ident(s, k2) {
        Some(x) => x,
        None => return None,
    };
    let e = skip_ws_from(s, d);
    if !char_is(s, e, ',') {
        return None;
    }
    let m = skip_ws_from(s, e + 1);
    let m2 = match tag(s, m, "to") {
        Some(m2) => m2,
        None => return None,
    };
    let (f, to) = match ident(s, m2) {
        Some(x) => x,
        None => return None,
    };
    let (g, fields) = edge_fields(s, f);
    let h = skip_ws_from(s, g);
    if char_is(s, h, ')') {
        Some((h + 1, DdlStatement::CreateEdgeType(EdgeTypeDef { name, from, to, fields })))
    } else {
        None
    }
}

/// `DROP <kind> TYPE name`.
fn drop_type(s: &Vec<char>, i: usize, kind: &str) -> (r: Option<(usize, String)>)
    requires
        i <= s.len(),
    ensures
        match r {
            Some((e, name)) => drop_type_at(s@, i as int, kind@) == Some((e as int, name@)) && e <= s.len(),
            None => drop_type_at(s@, i as int, kind@) is None,
        },
{
    match head(s, i, "DROP", kind) {
        Some(a) => ident(s, a),
        None => None,
    }
}

/// `SHOW SCHEMA`.
fn show_schema(s: &Vec<char>, i: usize) -> (r: Option<usize>)
    requires
        i <= s.len(),
    ensures
        opt_pos(r) == show_schema_at(s@, i as int),
        r matches Some(e) ==> e <= s.len(),
{
    let k = skip_ws_from(s, i);
    match tag_ws1(s, k, "SHOW") {
        Some(a) => tag(s, a, "SCHEMA"),
        None => None,
    }
}

/// The input is not a statement of the schema definition language.
#[derive(Debug, Clone, Copy, PartialEq, Eq)]
pub struct DdlParseError;

/// Reads one statement from the start of `input`, after optional
/// whitespace, and gives what follows it together with the statement.
pub fn parse_ddl_statement(input: &str) -> (r: Result<(&str, DdlStatement), DdlParseError>)
    ensures
        match r {
            Ok((rest, st)) => statement_at(input@, 0) matches Some((e, v)) && v == st@
                && rest@ == input@.subrange(e, input@.len() as int),
            Err(_) => statement_at(input@, 0) is None,
        },
{
    let s = chars_of(input);
    let k = skip_ws_from(&s, 0);
    let found: Option<(usize, DdlStatement)> = if let Some(x) = create_node_type(&s, k) {
        Some(x)
    } else if let Some(x) = create_edge_type(&s, k) {
        Some(x)
    } else if let Some((e, name)) = drop_type(&s, k, "NODE") {
        Some((e, DdlStatement::DropNodeType(name)))
    } else if let Some((e, name)) = drop_type(&s, k, "EDGE") {
        Some((e, DdlStatement::DropEdgeType(name)))
    } else if let Some(e) = show_schema(&s, k) {
        Some((e, DdlStatement::ShowSchema))
    } else {
        None
    };
    match found {
        Some((e, st)) => Ok((input.substring_char(e, s.len()), st)),
        None => Err(DdlParseError),
    }
}

} // verus!
