use toroidal_tql::ast::{DataType, EdgeTypeDef, FieldConstraint, FieldDef, NodeTypeDef};
use toroidal_tql::schema::{SchemaError, SchemaRegistry};

fn field(name: &str, t: DataType, pk: bool) -> FieldDef {
    FieldDef { name: name.to_string(), data_type: t, is_primary_key: pk, constraints: vec![] }
}

#[test]
fn test_create_node_type() {
    let mut registry = SchemaRegistry::new();

    let node_def = NodeTypeDef {
        name: "Document".to_string(),
        fields: vec![
            FieldDef {
                name: "id".to_string(),
                data_type: DataType::Int,
                is_primary_key: true,
                constraints: vec![FieldConstraint::NotNull],
            },
            FieldDef {
                name: "content_t3".to_string(),
                data_type: DataType::Vector(1536),
                is_primary_key: false,
                constraints: vec![FieldConstraint::VectorIndex { phi: "5.71".to_string() }],
            },
        ],
    };

    assert!(registry.create_node_type(node_def).is_ok());
    assert!(registry.get_node_type("Document").unwrap().is_some());
}

#[test]
fn test_duplicate_node_type() {
    let mut registry = SchemaRegistry::new();

    let node_def = NodeTypeDef { name: "Document".to_string(), fields: vec![] };

    registry.create_node_type(node_def.clone()).unwrap();
    assert!(matches!(registry.create_node_type(node_def), Err(SchemaError::TypeAlreadyExists(_))));
}

#[test]
fn test_validate_vector_field() {
    let mut registry = SchemaRegistry::new();

    let node_def = NodeTypeDef {
        name: "Document".to_string(),
        fields: vec![FieldDef {
            name: "content_t3".to_string(),
            data_type: DataType::Vector(1536),
            is_primary_key: false,
            constraints: vec![],
        }],
    };

    registry.create_node_type(node_def).unwrap();

    // Valid field
    assert_eq!(registry.validate_vector_field("Document", "content_t3", Some(1536)).unwrap(), 1536);

    // Dimension mismatch
    assert!(matches!(
        registry.validate_vector_field("Document", "content_t3", Some(768)),
        Err(SchemaError::DimensionMismatch { .. })
    ));
}

#[test]
fn field_checks() {
    let mut r = SchemaRegistry::new();
    let zero = NodeTypeDef { name: "A".to_string(), fields: vec![field("v", DataType::Vector(0), false)] };
    assert_eq!(r.create_node_type(zero), Err(SchemaError::InvalidDimension("v".to_string())));
    let two_pk = NodeTypeDef { name: "B".to_string(), fields: vec![field("a", DataType::Int, true), field("b", DataType::Int, true)] };
    assert_eq!(r.create_node_type(two_pk), Err(SchemaError::MultiplePrimaryKeys));
    assert!(r.get_node_type("A").unwrap().is_none());
    assert!(r.list_node_types().unwrap().is_empty());
}

#[test]
fn edges_need_known_endpoints_and_block_drops() {
    let mut r = SchemaRegistry::new();
    r.create_node_type(NodeTypeDef { name: "P".to_string(), fields: vec![] }).unwrap();
    let e = |from: &str, to: &str| EdgeTypeDef { name: "KNOWS".to_string(), from: from.to_string(), to: to.to_string(), fields: vec![] };
    assert_eq!(r.create_edge_type(e("X", "P")), Err(SchemaError::UnknownNodeType("X".to_string())));
    assert_eq!(r.create_edge_type(e("P", "Y")), Err(SchemaError::UnknownNodeType("Y".to_string())));
    r.create_edge_type(e("P", "P")).unwrap();
    assert_eq!(r.create_edge_type(e("P", "P")), Err(SchemaError::TypeAlreadyExists("KNOWS".to_string())));
    assert_eq!(r.drop_node_type("P"), Err(SchemaError::TypeInUse("P".to_string())));
    assert_eq!(r.drop_node_type("Q"), Err(SchemaError::TypeNotFound("Q".to_string())));
    r.drop_edge_type("KNOWS").unwrap();
    assert_eq!(r.drop_edge_type("KNOWS"), Err(SchemaError::TypeNotFound("KNOWS".to_string())));
    r.drop_node_type("P").unwrap();
    assert!(r.get_node_type("P").unwrap().is_none());
}

#[test]
fn field_lookup_errors() {
    let mut r = SchemaRegistry::new();
    r.create_node_type(NodeTypeDef { name: "D".to_string(), fields: vec![field("t", DataType::Text, false)] }).unwrap();
    assert_eq!(r.validate_field("D", "t"), Ok(DataType::Text));
    assert_eq!(r.validate_field("D", "u"), Err(SchemaError::FieldNotFound("u".to_string())));
    assert_eq!(r.validate_field("E", "t"), Err(SchemaError::UnknownNodeType("E".to_string())));
    assert_eq!(
        r.validate_vector_field("D", "t", None),
        Err(SchemaError::TypeMismatch { field: "t".to_string(), expected: "VECTOR".to_string(), actual: "Text".to_string() })
    );
}

#[test]
fn schema_error_messages() {
    assert_eq!(SchemaError::LockError.message(), "Failed to acquire lock");
    assert_eq!(SchemaError::TypeAlreadyExists("A".to_string()).message(), "Type 'A' already exists");
    assert_eq!(SchemaError::TypeInUse("A".to_string()).message(), "Type 'A' is in use by edges");
    assert_eq!(
        SchemaError::DimensionMismatch { field: "v".to_string(), expected: 1536, actual: 768 }.message(),
        "Field 'v': expected dimension 1536, got 768"
    );
    assert_eq!(
        SchemaError::TypeMismatch { field: "v".to_string(), expected: "VECTOR".to_string(), actual: "Int".to_string() }.message(),
        "Field 'v': expected VECTOR, got Int"
    );
    assert_eq!(SchemaError::InvalidDimension("v".to_string()).message(), "Invalid dimension for field 'v'");
    assert_eq!(SchemaError::MultiplePrimaryKeys.message(), "Multiple primary keys not allowed");
    assert_eq!(SchemaError::DimensionMismatch { field: "v".to_string(), expected: 0, actual: 10 }.message(), "Field 'v': expected dimension 0, got 10");
}
