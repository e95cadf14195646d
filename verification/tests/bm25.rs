use toroidal_tql::bm25::tokenize;

#[test]
fn test_tokenize() {
    let tokens = tokenize("Hello, World! This is a test.");
    assert!(tokens.contains(&"hello".to_string()));
    assert!(tokens.contains(&"world".to_string()));
    assert!(tokens.contains(&"test".to_string()));
}

#[test]
fn tokenize_exact_output() {
    assert_eq!(
        tokenize("Hello, World! This is a test."),
        vec!["hello", "world", "this", "is", "test"]
    );
}

#[test]
fn tokenize_drops_one_byte_pieces_and_empty_input() {
    assert!(tokenize("").is_empty());
    assert!(tokenize("a b c , . !").is_empty());
    assert_eq!(tokenize("x yz"), vec!["yz"]);
}

#[test]
fn tokenize_keeps_single_non_ascii_letter() {
    // 'é' is two bytes in UTF-8
    assert_eq!(tokenize("é a"), vec!["é"]);
}

#[test]
fn tokenize_keeps_digits() {
    assert_eq!(tokenize("route-66 and 7"), vec!["route", "66", "and"]);
}
