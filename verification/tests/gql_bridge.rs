use toroidal_tql::gql_bridge::{GqlBridge, GqlError};

#[test]
fn test_translate_match_simple() {
    let bridge = GqlBridge::new();
    let tql = bridge.translate("MATCH (n:Person) RETURN n.name, n.age LIMIT 10").unwrap();
    assert!(tql.contains("MATCH (n:Person)"));
    assert!(tql.contains("RETURN n.name, n.age"));
    assert!(tql.contains("LIMIT 10"));
}

#[test]
fn test_translate_cosine_similarity() {
    let bridge = GqlBridge::new();
    let tql = bridge
        .translate("MATCH (d:Document) WHERE cosine_similarity(d.embedding, $query) > 0.9 RETURN d.title LIMIT 10")
        .unwrap();
    assert!(tql.contains("TOROIDALDISTANCE"));
    assert!(tql.contains("0.1")); // 1 - 0.9
}

#[test]
fn test_translate_order_by() {
    let bridge = GqlBridge::new();
    let tql = bridge.translate("MATCH (n:Person) RETURN n.name ORDER BY n.name DESC LIMIT 5").unwrap();
    assert!(tql.contains("ORDER BY"));
    assert!(tql.contains("DESC"));
}

#[test]
fn test_translate_insert() {
    let bridge = GqlBridge::new();
    let tql = bridge.translate("INSERT (:Person {name: 'Alice'})").unwrap();
    assert!(tql.contains("CREATE NODE TYPE Person"));
}

#[test]
fn test_unsupported() {
    let bridge = GqlBridge::new();
    let result = bridge.translate("CALL db.schema()");
    assert!(result.is_err());
}

#[test]
fn match_translation_is_exact() {
    let bridge = GqlBridge::new();
    assert_eq!(
        bridge.translate("  MATCH (d:Document) WHERE cosine_similarity(d.embedding, $query) > 0.9 RETURN d.title LIMIT 10 ").unwrap(),
        "MATCH (d:Document) WHERE TOROIDALDISTANCE(d.embedding, 0.1) RETURN d.title LIMIT 10"
    );
    assert_eq!(
        bridge.translate("match ( n : Person ) return n.name , n.age order by n.age").unwrap(),
        "MATCH (n:Person) RETURN n.name, n.age ORDER BY n.age LIMIT 10"
    );
    assert_eq!(bridge.translate("MATCH (n:P) RETURN").unwrap(), "MATCH (n:P) LIMIT 10");
    assert_eq!(bridge.translate("MATCH (n:P) RETURN n LIMIT 99999999999").unwrap(), "MATCH (n:P) RETURN n LIMIT 10");
}

#[test]
fn similarity_bounds_become_exact_distances() {
    let bridge = GqlBridge::new();
    let cases = [
        ("0.9", "0.1"),
        ("0.25", "0.75"),
        ("0.90", "0.10"),
        ("1.5", "-0.5"),
        ("-0.5", "1.5"),
        ("1", "0"),
        ("1.0", "0.0"),
        ("0", "1"),
        ("0.000", "1.000"),
        ("12", "-11"),
        ("0009.99", "-8.99"),
        ("-99", "100"),
    ];
    for (t, d) in cases.iter() {
        let q = format!("MATCH (a:B) WHERE cosine_similarity(a.v, $q) > {} RETURN a.id", t);
        let expected = format!("MATCH (a:B) WHERE TOROIDALDISTANCE(a.v, {}) RETURN a.id LIMIT 10", d);
        assert_eq!(bridge.translate(&q).unwrap(), expected, "bound {}", t);
    }
}

#[test]
fn insert_and_vector_index_translations() {
    let bridge = GqlBridge::new();
    assert_eq!(
        bridge.translate("INSERT (:Person {name: 'Alice'})").unwrap(),
        "CREATE NODE TYPE Person (id INT PRIMARY KEY);\nMATCH (n:Person) RETURN n.id LIMIT 1"
    );
    assert_eq!(
        bridge.translate("CREATE VECTOR INDEX FOR (d:Paper) ON d.v DIMENSION 768").unwrap(),
        "ALTER NODE TYPE Paper ADD content_t3 VECTOR(768) VECTOR_INDEX(phi = 5.71);"
    );
    assert_eq!(
        bridge.translate("create vector index idx DIMENSION x").unwrap(),
        "ALTER NODE TYPE Document ADD content_t3 VECTOR(1536) VECTOR_INDEX(phi = 5.71);"
    );
    assert_eq!(
        bridge.translate("CREATE VECTOR INDEX (:T) DIMENSION +12").unwrap(),
        "ALTER NODE TYPE T ADD content_t3 VECTOR(12) VECTOR_INDEX(phi = 5.71);"
    );
}

#[test]
fn translation_errors() {
    let bridge = GqlBridge::new();
    match bridge.translate("INSERT (Person)") {
        Err(e) => assert_eq!(e.message(), "GQL parse error: Could not extract label"),
        Ok(_) => panic!("Expected an error"),
    }
    match bridge.translate("MATCH n RETURN n") {
        Err(GqlError::Parse(m)) => assert_eq!(m, "Failed to parse MATCH clause"),
        _ => panic!("Expected an error"),
    }
    match bridge.translate("MATCH (n:P) WHERE x RETURN n") {
        Err(GqlError::Parse(m)) => assert_eq!(m, "Failed to parse RETURN"),
        _ => panic!("Expected an error"),
    }
    match bridge.translate("CALL db.schema()") {
        Err(e) => assert_eq!(
            e.message(),
            "GQL unsupported: Unsupported GQL statement. Supported: MATCH, INSERT, CREATE VECTOR INDEX"
        ),
        Ok(_) => panic!("Expected an error"),
    }
}

#[test]
fn statement_kind_is_read_from_the_uppercased_text() {
    let bridge = GqlBridge::new();
    // dotless ı uppercases to I, so this is an INSERT
    assert_eq!(
        bridge.translate("ınsert (:Person {name: 'Alice'})").unwrap(),
        bridge.translate("INSERT (:Person {name: 'Alice'})").unwrap()
    );
    let idx = bridge.translate("create vector index ON :Doc DIMENSION 8").unwrap();
    assert_eq!(idx, "ALTER NODE TYPE Doc ADD content_t3 VECTOR(8) VECTOR_INDEX(phi = 5.71);");
}
