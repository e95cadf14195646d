use toroidal_tql::engine::{TqlEngine, TqlError, TqlResult};
use toroidal_tql::schema::SchemaError;

#[test]
fn test_ddl_create_node_type() {
    let mut engine = TqlEngine::new();
    let sql = r#"CREATE NODE TYPE Document (
            id INT PRIMARY KEY,
            title TEXT NOT NULL,
            content_t3 VECTOR(1536) VECTOR_INDEX(phi = 5.71)
        )"#;
    let result = engine.execute(sql);
    assert!(result.is_ok());
    match result.unwrap() {
        TqlResult::DdlSuccess(msg) => assert!(msg.contains("created successfully")),
        _ => panic!("Expected DDL success"),
    }
    let doc_type = engine.schema_registry().get_node_type("Document").unwrap();
    assert!(doc_type.is_some());
    assert_eq!(doc_type.unwrap().fields.len(), 3);
}

#[test]
fn test_validation_unknown_type() {
    let mut engine = TqlEngine::new();
    let sql = r#"MATCH (d:UnknownType) RETURN d.id LIMIT 10"#;
    let result = engine.execute(sql);
    assert!(result.is_err());
    match result.err().unwrap() {
        TqlError::ValidationError(msg) => assert!(msg.contains("Unknown node type")),
        _ => panic!("Expected validation error"),
    }
}

#[test]
fn test_cache_config() {
    let mut engine = TqlEngine::new();
    assert!(engine.use_cache);
    engine.set_cache_enabled(false);
    assert!(!engine.use_cache);
}

#[test]
fn explain_hands_back_the_query() {
    let mut engine = TqlEngine::new();
    let ddl = r#"CREATE NODE TYPE Document (id INT PRIMARY KEY, content_t3 VECTOR(1536))"#;
    engine.execute(ddl).unwrap();
    let explain_sql = r#"EXPLAIN MATCH (d:Document) 
            WHERE TOROIDALDISTANCE(content_t3, 0.3) 
            RETURN d.id 
            LIMIT 10"#;
    match engine.execute(explain_sql) {
        Ok(TqlResult::ExplainRequested(q)) => {
            assert_eq!(q.match_clause.unwrap().source.label, "Document");
            assert_eq!(q.limit, 10);
        },
        _ => panic!("Expected the query of the EXPLAIN"),
    }
    match engine.execute("EXPLAIN nonsense") {
        Err(TqlError::ParseError(m)) => assert_eq!(m, "Failed to parse query for EXPLAIN"),
        _ => panic!("Expected a parse error"),
    }
}

#[test]
fn query_checked_against_registry() {
    let mut engine = TqlEngine::new();
    engine.execute("CREATE NODE TYPE Doc (id INT PRIMARY KEY, v VECTOR(3), title TEXT)").unwrap();
    match engine.execute("MATCH (d:Doc) WHERE TOROIDALDISTANCE(v, 0.2) RETURN d.id LIMIT 5") {
        Ok(TqlResult::QueryReady(q)) => assert_eq!(q.limit, 5),
        _ => panic!("Expected a ready query"),
    }
    match engine.execute("MATCH (d:Doc) WHERE TOROIDALDISTANCE(title, 0.2) RETURN d.id LIMIT 5") {
        Err(e) => {
            assert!(matches!(e, TqlError::ValidationError(_)));
            assert_eq!(e.message(), "Validation error: Field 'title' is not a vector type");
        },
        _ => panic!("Expected a validation error"),
    }
    match engine.execute("MATCH (d:Doc) WHERE TOROIDALDISTANCE(nope, 0.2) RETURN d.id LIMIT 5") {
        Err(TqlError::SchemaError(SchemaError::FieldNotFound(f))) => assert_eq!(f, "nope"),
        _ => panic!("Expected a missing field"),
    }
    match engine.execute("MATCH d RETURN") {
        Err(e) => assert_eq!(e.message(), "Parse error: Failed to parse query"),
        _ => panic!("Expected a parse error"),
    }
}

#[test]
fn drop_and_show_schema() {
    let mut engine = TqlEngine::new();
    engine.execute("CREATE NODE TYPE A (id INT)").unwrap();
    engine.execute("CREATE NODE TYPE B (id INT)").unwrap();
    engine.execute("CREATE EDGE TYPE R (from A, to B)").unwrap();
    match engine.execute("DROP NODE TYPE A") {
        Err(TqlError::SchemaError(SchemaError::TypeInUse(n))) => assert_eq!(n, "A"),
        _ => panic!("Expected type in use"),
    }
    match engine.execute("DROP EDGE TYPE R") {
        Ok(TqlResult::DdlSuccess(m)) => assert_eq!(m, "Edge type 'R' dropped"),
        _ => panic!("Expected success"),
    }
    match engine.execute("DROP NODE TYPE A") {
        Ok(TqlResult::DdlSuccess(m)) => assert_eq!(m, "Node type 'A' dropped"),
        _ => panic!("Expected success"),
    }
    match engine.execute("SHOW SCHEMA") {
        Ok(TqlResult::DdlSuccess(m)) => assert_eq!(m, "SCHEMA:\n\nNode Types:\n  - B\n\nEdge Types:\n"),
        _ => panic!("Expected the schema"),
    }
}
