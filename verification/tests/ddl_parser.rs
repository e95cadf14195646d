use toroidal_tql::ast::{DataType, DdlStatement, FieldConstraint};
use toroidal_tql::ddl_parser::parse_ddl_statement;

#[test]
fn test_parse_create_node_type() {
    let input = r#"CREATE NODE TYPE Document (
            id INT PRIMARY KEY,
            title TEXT,
            content_t3 VECTOR(1536) VECTOR_INDEX(phi = 5.71)
        )"#;

    let result = parse_ddl_statement(input);
    assert!(result.is_ok());

    let (_, stmt) = result.unwrap();
    match stmt {
        DdlStatement::CreateNodeType(def) => {
            assert_eq!(def.name, "Document");
            assert_eq!(def.fields.len(), 3);

            assert!(def.fields[0].is_primary_key);
            assert!(!def.fields[1].is_primary_key);

            match &def.fields[2].data_type {
                DataType::Vector(1536) => (),
                _ => panic!("Expected VECTOR(1536)"),
            }
        }
        _ => panic!("Expected CreateNodeType"),
    }
}

#[test]
fn test_parse_create_edge_type() {
    let input = r#"CREATE EDGE TYPE AUTHORED (
            from Author,
            to Document,
            weight FLOAT
        )"#;

    let result = parse_ddl_statement(input);
    assert!(result.is_ok());

    let (_, stmt) = result.unwrap();
    match stmt {
        DdlStatement::CreateEdgeType(def) => {
            assert_eq!(def.name, "AUTHORED");
            assert_eq!(def.from, "Author");
            assert_eq!(def.to, "Document");
            assert_eq!(def.fields.len(), 1);
        }
        _ => panic!("Expected CreateEdgeType"),
    }
}

#[test]
fn test_parse_drop_node_type() {
    let input = "DROP NODE TYPE Document";

    let result = parse_ddl_statement(input);
    assert!(result.is_ok());

    let (_, stmt) = result.unwrap();
    match stmt {
        DdlStatement::DropNodeType(name) => {
            assert_eq!(name, "Document");
        }
        _ => panic!("Expected DropNodeType"),
    }
}

#[test]
fn test_parse_show_schema() {
    let input = "SHOW SCHEMA";

    let result = parse_ddl_statement(input);
    assert!(result.is_ok());

    let (_, stmt) = result.unwrap();
    match stmt {
        DdlStatement::ShowSchema => (),
        _ => panic!("Expected ShowSchema"),
    }
}

#[test]
fn ddl_drop_edge_type_keeps_the_rest() {
    let (rest, stmt) = parse_ddl_statement("  drop edge type LIKES; SHOW SCHEMA").unwrap();
    assert_eq!(rest, "; SHOW SCHEMA");
    assert_eq!(stmt, DdlStatement::DropEdgeType("LIKES".to_string()));
}

#[test]
fn ddl_keywords_ignore_case() {
    let (rest, stmt) = parse_ddl_statement("Show\tSchema").unwrap();
    assert_eq!(rest, "");
    assert_eq!(stmt, DdlStatement::ShowSchema);
}

#[test]
fn ddl_constraints_and_float_literals() {
    let input = "CREATE NODE TYPE T (a INT NOT NULL UNIQUE INDEX, v VECTOR (8) VECTOR_INDEX (phi=1e-3), w VECTOR(2) VECTOR_INDEX(phi = nan)) tail";
    let (rest, stmt) = parse_ddl_statement(input).unwrap();
    assert_eq!(rest, " tail");
    match stmt {
        DdlStatement::CreateNodeType(def) => {
            assert_eq!(def.fields.len(), 3);
            assert_eq!(
                def.fields[0].constraints,
                vec![FieldConstraint::NotNull, FieldConstraint::Unique, FieldConstraint::Index]
            );
            assert_eq!(def.fields[1].data_type, DataType::Vector(8));
            assert_eq!(
                def.fields[1].constraints,
                vec![FieldConstraint::VectorIndex { phi: "1e-3".to_string() }]
            );
            assert_eq!(
                def.fields[2].constraints,
                vec![FieldConstraint::VectorIndex { phi: "nan".to_string() }]
            );
        }
        _ => panic!("Expected CreateNodeType"),
    }
}

#[test]
fn ddl_edge_type_without_fields() {
    let (_, stmt) = parse_ddl_statement("CREATE EDGE TYPE KNOWS (from Person, to Person)").unwrap();
    match stmt {
        DdlStatement::CreateEdgeType(def) => {
            assert_eq!(def.from, "Person");
            assert_eq!(def.to, "Person");
            assert!(def.fields.is_empty());
        }
        _ => panic!("Expected CreateEdgeType"),
    }
}

#[test]
fn ddl_rejects_malformed_statements() {
    assert!(parse_ddl_statement("").is_err());
    assert!(parse_ddl_statement("CREATE NODE TYPE Doc").is_err());
    assert!(parse_ddl_statement("CREATE NODE TYPE Doc (x VECTOR(4294967296))").is_err());
    assert!(parse_ddl_statement("CREATE NODE TYPE Doc (x INT,)").is_err());
    assert!(parse_ddl_statement("CREATE NODE TYPE Doc (x VECTOR(3) VECTOR_INDEX(phi = 5e))").is_err());
    assert!(parse_ddl_statement("DROPNODE TYPE Doc").is_err());
    assert!(parse_ddl_statement("CREATE NODE TYPE Doc (x VECTOR(3) VECTOR_INDEX( phi = 1))").is_err());
    assert!(parse_ddl_statement("CREATE NODE TYPE Doc (x VECTOR(3) VECTOR_INDEX(phi = 1 ))").is_err());
}

#[test]
fn ddl_largest_vector_dimension() {
    let (_, stmt) = parse_ddl_statement("CREATE NODE TYPE D (x VECTOR(4294967295))").unwrap();
    match stmt {
        DdlStatement::CreateNodeType(def) => assert_eq!(def.fields[0].data_type, DataType::Vector(4294967295)),
        _ => panic!("Expected CreateNodeType"),
    }
}
