use toroidal_tql::engine_types::BinaryOperator;
use toroidal_tql::evaluator::{ExpressionEvaluator, FunctionKind};

#[test]
fn string_operators() {
    let ev = ExpressionEvaluator::new();
    assert_eq!(ev.string_op("a", BinaryOperator::Eq, "a"), Ok(true));
    assert_eq!(ev.string_op("a", BinaryOperator::Eq, "b"), Ok(false));
    assert_eq!(ev.string_op("a", BinaryOperator::Neq, "b"), Ok(true));
    assert_eq!(ev.string_op("a", BinaryOperator::Lt, "b"), Err("Invalid operator for strings".to_string()));
    assert_eq!(ev.string_op("x", BinaryOperator::And, "x"), Err("Invalid operator for strings".to_string()));
}

#[test]
fn boolean_operators() {
    let ev = ExpressionEvaluator::new();
    assert_eq!(ev.boolean_op(true, BinaryOperator::And, true), Ok(true));
    assert_eq!(ev.boolean_op(true, BinaryOperator::And, false), Ok(false));
    assert_eq!(ev.boolean_op(false, BinaryOperator::Or, true), Ok(true));
    assert_eq!(ev.boolean_op(false, BinaryOperator::Eq, false), Ok(true));
    assert_eq!(ev.boolean_op(false, BinaryOperator::Neq, true), Ok(true));
    assert_eq!(ev.boolean_op(true, BinaryOperator::Gt, false), Err("Invalid operator for booleans".to_string()));
    assert!(ev.is_number_op(BinaryOperator::Gte));
    assert!(!ev.is_number_op(BinaryOperator::Or));
}

#[test]
fn contains_finds_substrings() {
    let ev = ExpressionEvaluator::new();
    assert!(ev.contains_text("quantum computing", "quantum"));
    assert!(ev.contains_text("quantum computing", "computing"));
    assert!(ev.contains_text("quantum computing", ""));
    assert!(!ev.contains_text("quantum", "quantum computing"));
    assert!(!ev.contains_text("quantum computing", "Quantum"));
    assert!(ev.contains_text("Grüße", "üß"));
}

#[test]
fn functions_resolve_without_case() {
    let ev = ExpressionEvaluator::new();
    assert_eq!(ev.resolve_function("contains", 2), Ok(FunctionKind::Contains));
    assert_eq!(ev.resolve_function("Array_Contains", 2), Ok(FunctionKind::ArrayContains));
    assert_eq!(ev.resolve_function("TOROIDALCOSINE", 2), Ok(FunctionKind::ToroidalCosine));
    assert_eq!(ev.resolve_function("CONTAINS", 1), Err("CONTAINS expects 2 arguments".to_string()));
    assert_eq!(ev.resolve_function("frobnicate", 2), Err("Unknown function: frobnicate".to_string()));
}

#[test]
fn array_membership_by_text() {
    let ev = ExpressionEvaluator::new();
    let items = vec!["a".to_string(), "1".to_string(), "true".to_string()];
    assert!(ev.array_contains_text(&items, "1"));
    assert!(ev.array_contains_text(&items, "true"));
    assert!(!ev.array_contains_text(&items, "b"));
    assert!(!ev.array_contains_text(&[], "a"));
}
