use toroidal_tql::ast::{AlterOperation, AlterSpace, DataType, EdgeTypeDef, FieldDef, NodeTypeDef, SpaceConfig, SpaceDef, StreamDef, StreamSchema};
use toroidal_tql::space_manager::SpaceManager;

fn config() -> SpaceConfig {
    SpaceConfig { shards: 4, replication_factor: 1, storage_backend: None, embedding_model: None }
}

fn field(name: &str) -> FieldDef {
    FieldDef { name: name.to_string(), data_type: DataType::Int, is_primary_key: false, constraints: vec![] }
}

#[test]
fn test_create_space() {
    let mut manager = SpaceManager::new();

    let space_def = SpaceDef {
        name: "test_space".to_string(),
        nodes: vec![],
        edges: vec![],
        streams: vec![],
        config: config(),
    };

    assert!(manager.create_space(space_def).is_ok());
    assert!(manager.get_space("test_space").is_some());
}

#[test]
fn test_add_node_type() {
    let mut manager = SpaceManager::new();

    let node_type = NodeTypeDef { name: "Document".to_string(), fields: vec![] };

    assert!(manager.add_node_type("default", node_type).is_ok());
    assert!(manager.validate_node_type("Document").unwrap());
}

#[test]
fn test_list_spaces() {
    let manager = SpaceManager::new();

    let spaces = manager.list_spaces();
    assert!(spaces.contains(&"default".to_string()));
}

#[test]
fn duplicate_names_are_refused() {
    let mut m = SpaceManager::new();
    let def = || SpaceDef { name: "s".to_string(), nodes: vec![], edges: vec![], streams: vec![], config: config() };
    m.create_space(def()).unwrap();
    assert_eq!(m.create_space(def()), Err("Space 's' already exists".to_string()));
    let nt = || NodeTypeDef { name: "N".to_string(), fields: vec![] };
    m.add_node_type("s", nt()).unwrap();
    assert_eq!(m.add_node_type("s", nt()), Err("Node type 'N' already exists in space 's'".to_string()));
    assert_eq!(m.add_node_type("zz", nt()), Err("Space 'zz' not found".to_string()));
    let et = || EdgeTypeDef { name: "E".to_string(), from: "N".to_string(), to: "N".to_string(), fields: vec![] };
    m.add_edge_type("s", et()).unwrap();
    assert_eq!(m.add_edge_type("s", et()), Err("Edge type 'E' already exists in space 's'".to_string()));
    let st = || StreamDef { name: "ev".to_string(), topic: "t".to_string(), schema: StreamSchema { fields: vec![] }, retention: None };
    m.create_stream("s", st()).unwrap();
    assert_eq!(m.create_stream("s", st()), Err("Stream 'ev' already exists in space 's'".to_string()));
}

#[test]
fn current_space_switching_and_dropping() {
    let mut m = SpaceManager::new();
    assert_eq!(m.get_current_space(), "default");
    assert_eq!(m.set_current_space("x"), Err("Space 'x' does not exist".to_string()));
    m.create_space(SpaceDef { name: "x".to_string(), nodes: vec![], edges: vec![], streams: vec![], config: config() }).unwrap();
    m.set_current_space("x").unwrap();
    assert_eq!(m.get_current_space(), "x");
    assert_eq!(m.drop_space("default"), Err("Cannot drop default space".to_string()));
    assert_eq!(m.drop_space("y"), Err("Space 'y' does not exist".to_string()));
    m.drop_space("x").unwrap();
    assert_eq!(m.validate_node_type("A"), Err("Current space 'x' not found".to_string()));
    assert!(m.get_node_type("A").is_none());
}

#[test]
fn alter_space_applies_operations_in_order() {
    let mut m = SpaceManager::new();
    let ops = vec![
        AlterOperation::AddNode(NodeTypeDef { name: "Doc".to_string(), fields: vec![field("a")] }),
        AlterOperation::AddField { node_type: "Doc".to_string(), field: field("b") },
        AlterOperation::AddField { node_type: "Missing".to_string(), field: field("c") },
        AlterOperation::DropField { node_type: "Doc".to_string(), field_name: "a".to_string() },
        AlterOperation::AddEdge(EdgeTypeDef { name: "E".to_string(), from: "Doc".to_string(), to: "Doc".to_string(), fields: vec![] }),
        AlterOperation::DropEdge("E".to_string()),
    ];
    m.alter_space(AlterSpace { name: "default".to_string(), operations: ops }).unwrap();
    let doc = m.get_node_type("Doc").unwrap();
    let names: Vec<String> = doc.fields.iter().map(|f| f.name.clone()).collect();
    assert_eq!(names, vec!["b".to_string()]);
    assert!(!m.validate_edge_type("E").unwrap());
    assert!(m.get_node_type("Missing").is_none());
    assert_eq!(
        m.alter_space(AlterSpace { name: "nope".to_string(), operations: vec![] }),
        Err("Space 'nope' not found".to_string())
    );
}

#[test]
fn create_space_later_types_win() {
    let mut m = SpaceManager::new();
    m.create_space(SpaceDef {
        name: "s".to_string(),
        nodes: vec![
            NodeTypeDef { name: "N".to_string(), fields: vec![] },
            NodeTypeDef { name: "N".to_string(), fields: vec![field("x")] },
        ],
        edges: vec![],
        streams: vec![],
        config: config(),
    })
    .unwrap();
    m.set_current_space("s").unwrap();
    assert_eq!(m.get_node_type("N").unwrap().fields.len(), 1);
}
