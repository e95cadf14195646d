//! The string and boolean side of expression evaluation: the operators on
//! two strings or two booleans, the text functions `CONTAINS` and
//! `ARRAY_CONTAINS`, and the resolution of a function name.
//!
//! Number comparisons and vector functions are floating-point work and are
//! done by the caller.

use vstd::prelude::*;
use crate::engine_types::BinaryOperator;

verus! {

/// What `str::to_uppercase` returns for the characters `s`.
pub uninterp spec fn uppercase_of(s: Seq<char>) -> Seq<char>;

/// `str::to_uppercase`: the uppercase equivalent of `s` under the Unicode
/// `Uppercase` property. What that is, character by character, is named,
/// not stated.
#[verifier::external_body]
pub(crate) fn to_uppercase(s: &str) -> (r: String)
    ensures
        r@ == uppercase_of(s@),
{
    s.to_uppercase()
}

/// Evaluates expressions.
pub struct ExpressionEvaluator;

/// The functions an expression can call.
#[derive(Clone, Copy, Debug, PartialEq, Eq, Structural)]
pub enum FunctionKind {
    /// `TOROIDALCOSINE(a, b)`: similarity of two vectors.
    ToroidalCosine,
    /// `CONTAINS(haystack, needle)`: substring test.
    Contains,
    /// `ARRAY_CONTAINS(array, needle)`: membership test.
    ArrayContains,
}

/// Whether `needle` occurs in `haystack` as a contiguous run.
pub open spec fn occurs_in(needle: Seq<char>, haystack: Seq<char>) -> bool {
    exists|i: int| 0 <= i <= haystack.len() - needle.len() && #[trigger] haystack.subrange(i, i + needle.len()) == needle
}

/// The outcome of `op` on two strings.
pub open spec fn string_op(l: Seq<char>, op: BinaryOperator, r: Seq<char>) -> Result<bool, Seq<char>> {
    match op {
        BinaryOperator::Eq => Ok(l == r),
        BinaryOperator::Neq => Ok(l != r),
        _ => Err("Invalid operator for strings"@),
    }
}

/// The outcome of `op` on two booleans.
pub open spec fn boolean_op(l: bool, op: BinaryOperator, r: bool) -> Result<bool, Seq<char>> {
    match op {
        BinaryOperator::Eq => Ok(l == r),
        BinaryOperator::Neq => Ok(l != r),
        BinaryOperator::And => Ok(l && r),
        BinaryOperator::Or => Ok(l || r),
        _ => Err("Invalid operator for booleans"@),
    }
}

/// Whether `op` is one of the operators on two numbers (the comparisons).
pub open spec fn is_number_op(op: BinaryOperator) -> bool {
    !(op == BinaryOperator::And || op == BinaryOperator::Or)
}

/// The function an uppercased name calls.
pub open spec fn function_named(upper: Seq<char>) -> Option<FunctionKind> {
    if upper == "TOROIDALCOSINE"@ {
        Some(FunctionKind::ToroidalCosine)
    } else if upper == "CONTAINS"@ {
        Some(FunctionKind::Contains)
    } else if upper == "ARRAY_CONTAINS"@ {
        Some(FunctionKind::ArrayContains)
    } else {
        None
    }
}

/// The error for a call of `kind` with a wrong number of arguments.
pub open spec fn arity_error(kind: FunctionKind) -> Seq<char> {
    match kind {
        FunctionKind::ToroidalCosine => "TOROIDALCOSINE expects 2 arguments"@,
        FunctionKind::Contains => "CONTAINS expects 2 arguments"@,
        FunctionKind::ArrayContains => "ARRAY_CONTAINS expects 2 arguments"@,
    }
}

/// The outcome of resolving a call of `name` with `n` arguments: the name is
/// matched without case, and every function takes two arguments.
pub open spec fn resolution(name: Seq<char>, n: nat) -> Result<FunctionKind, Seq<char>> {
    match function_named(uppercase_of(name)) {
        None => Err("Unknown function: "@ + name),
        Some(k) => if n != 2 { Err(arity_error(k)) } else { Ok(k) },
    }
}

/// The result of an operation as abstract values.
pub open spec fn outcome_view<T>(r: Result<T, String>) -> Result<T, Seq<char>> {
    match r {
        Ok(v) => Ok(v),
        Err(e) => Err(e@),
    }
}

/// Whether the characters of `a` and `b` are the same.
fn same_text(a: &str, b: &str) -> (r: bool)
    ensures
        r == (a@ == b@),
{
    let n = a.unicode_len();
    if n != b.unicode_len() {
        return false;
    }
    let mut k: usize = 0;
    while k < n
        invariant
            n == a@.len(),
            n == b@.len(),
            k <= n,
            forall|j: int| 0 <= j < k ==> a@[j] == b@[j],
        decreases n - k,
    {
        if a.get_char(k) != b.get_char(k) {
            return false;
        }
        k = k + 1;
    }
    assert(a@ =~= b@);
    true
}

/// Whether `needle` occurs in `haystack`.
pub(crate) fn text_contains(haystack: &str, needle: &str) -> (b: bool)
    ensures
        b == occurs_in(needle@, haystack@),
{
    let n = haystack.unicode_len();
    let m = needle.unicode_len();
    if m > n {
        return false;
    }
    let mut i: usize = 0;
    while i <= n - m
        invariant
            n == haystack@.len(),
            m == needle@.len(),
            m <= n,
            i <= n - m + 1,
            forall|p: int| 0 <= p < i ==> #[trigger] haystack@.subrange(p, p + m) != needle@,
        decreases n - m + 1 - i,
    {
        let mut k: usize = 0;
        while k < m && haystack.get_char(i + k) == needle.get_char(k)
            invariant
                n == haystack@.len(),
                m == needle@.len(),
                i + m <= n,
                k <= m,
                forall|j: int| 0 <= j < k ==> haystack@[i + j] == needle@[j],
            decreases m - k,
        {
            k = k + 1;
        }
        if k == m {
            assert(haystack@.subrange(i as int, i + m) =~= needle@);
            return true;
        }
        assert(haystack@.subrange(i as int, i + m)[k as int] != needle@[k as int]);
        i = i + 1;
    }
    false
}

impl ExpressionEvaluator {
    /// An evaluator.
    pub fn new() -> (e: Self) {
        ExpressionEvaluator
    }

    /// `op` on two strings: `Eq` and `Neq` compare them, any other operator
    /// is an error.
    pub fn string_op(&self, l: &str, op: BinaryOperator, r: &str) -> (res: Result<bool, String>)
        ensures
            outcome_view(res) == string_op(l@, op, r@),
    {
        match op {
            BinaryOperator::Eq => Ok(same_text(l, r)),
            BinaryOperator::Neq => Ok(!same_text(l, r)),
            _ => Err(String::from_str("Invalid operator for strings")),
        }
    }

    /// `op` on two booleans: `Eq`, `Neq`, `And` and `Or`; any other operator
    /// is an error.
    pub fn boolean_op(&self, l: bool, op: BinaryOperator, r: bool) -> (res: Result<bool, String>)
        ensures
            outcome_view(res) == boolean_op(l, op, r),
    {
        match op {
            BinaryOperator::Eq => Ok(l == r),
            BinaryOperator::Neq => Ok(l != r),
            BinaryOperator::And => Ok(l && r),
            BinaryOperator::Or => Ok(l || r),
            _ => Err(String::from_str("Invalid operator for booleans")),
        }
    }

    /// Whether `op` applies to two numbers; the logical operators do not
    /// ("Invalid operator for numbers").
    pub fn is_number_op(&self, op: BinaryOperator) -> (b: bool)
        ensures
            b == is_number_op(op),
    {
        !(op == BinaryOperator::And || op == BinaryOperator::Or)
    }

    /// Resolves a call of `name` with `arg_count` arguments (see
    /// [`resolution`]).
    pub fn resolve_function(&self, name: &str, arg_count: usize) -> (res: Result<FunctionKind, String>)
        ensures
            outcome_view(res) == resolution(name@, arg_count as nat),
    {
        let upper = to_uppercase(name);
        let kind = if same_text(upper.as_str(), "TOROIDALCOSINE") {
            FunctionKind::ToroidalCosine
        } else if same_text(upper.as_str(), "CONTAINS") {
            FunctionKind::Contains
        } else if same_text(upper.as_str(), "ARRAY_CONTAINS") {
            FunctionKind::ArrayContains
        } else {
            let mut e = String::from_str("Unknown function: ");
            e.append(name);
            return Err(e);
        };
        if arg_count != 2 {
            return Err(match kind {
                FunctionKind::ToroidalCosine => String::from_str("TOROIDALCOSINE expects 2 arguments"),
                FunctionKind::Contains => String::from_str("CONTAINS expects 2 arguments"),
                FunctionKind::ArrayContains => String::from_str("ARRAY_CONTAINS expects 2 arguments"),
            });
        }
        Ok(kind)
    }

    /// `CONTAINS`: whether `needle` occurs in `haystack`.
    pub fn contains_text(&self, haystack: &str, needle: &str) -> (b: bool)
        ensures
            b == occurs_in(needle@, haystack@),
    {
        text_contains(haystack, needle)
    }

    /// `ARRAY_CONTAINS`: whether one of the element texts `items` is `needle`.
    pub fn array_contains_text(&self, items: &[String], needle: &str) -> (b: bool)
        ensures
            b == exists|i: int| 0 <= i < items@.len() && (#[trigger] items@[i])@ == needle@,
    {
        let mut i: usize = 0;
        while i < items.len()
            invariant
                i <= items@.len(),
                forall|j: int| 0 <= j < i ==> (#[trigger] items@[j])@ != needle@,
            decreases items@.len() - i,
        {
            if same_text(items[i].as_str(), needle) {
                return true;
            }
            i = i + 1;
        }
        false
    }
}

} // verus!
