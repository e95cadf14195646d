use toroidal_tql::cli::{
    begin_transaction_lines, report, CliExecutor, CliPlan, Commands, HttpMethod, NodeCommands, PropertiesSource,
    TransactionCommands, VectorSource, DEFAULT_HOST, DEFAULT_VECTOR_DIMENSION,
};

fn client() -> CliExecutor {
    CliExecutor::new("http://db:8443".to_string(), Some("abc".to_string()), None)
}

#[test]
fn cli_auth_header_choices() {
    assert_eq!(client().auth_header, "Bearer abc");
    let from_env = CliExecutor::new(DEFAULT_HOST.to_string(), None, Some("Token t1".to_string()));
    assert_eq!(from_env.auth_header, "Token t1");
    assert_eq!(from_env.host, "https://localhost:8443");
    let fallback = CliExecutor::new(DEFAULT_HOST.to_string(), None, None);
    assert_eq!(fallback.auth_header, "Bearer admin-token-xyz");
}

#[test]
fn cli_query_is_a_post_with_the_query() {
    match client().plan(&Commands::Query { query: "SHOW SCHEMA".to_string() }) {
        CliPlan::Request(r) => {
            assert_eq!(r.method, HttpMethod::Post);
            assert_eq!(r.url, "http://db:8443/tql");
            assert_eq!(r.authorization, Some("Bearer abc".to_string()));
            assert_eq!(r.json_body, Some(vec![("query".to_string(), "SHOW SCHEMA".to_string())]));
        }
        _ => panic!("expected a request"),
    }
}

#[test]
fn cli_backup_body_and_health_without_auth() {
    match client().plan(&Commands::Backup { description: None }) {
        CliPlan::Request(r) => {
            assert_eq!(r.url, "http://db:8443/backup/create");
            assert_eq!(r.json_body, Some(vec![]));
        }
        _ => panic!("expected a request"),
    }
    match client().plan(&Commands::Backup { description: Some("nightly".to_string()) }) {
        CliPlan::Request(r) => {
            assert_eq!(r.json_body, Some(vec![("description".to_string(), "nightly".to_string())]))
        }
        _ => panic!("expected a request"),
    }
    match client().plan(&Commands::Health) {
        CliPlan::Request(r) => {
            assert_eq!(r.method, HttpMethod::Get);
            assert_eq!(r.url, "http://db:8443/health");
            assert_eq!(r.authorization, None);
            assert_eq!(r.json_body, None);
        }
        _ => panic!("expected a request"),
    }
}

#[test]
fn cli_node_urls_and_sources() {
    match client().plan(&Commands::Nodes { command: NodeCommands::Get { id: 18446744073709551615 } }) {
        CliPlan::Request(r) => assert_eq!(r.url, "http://db:8443/nodes/18446744073709551615"),
        _ => panic!("expected a request"),
    }
    let create = NodeCommands::Create {
        id: 7,
        vector: Some("vec.json".to_string()),
        vector_file: None,
        properties: Some("{\"a\":1}".to_string()),
    };
    match client().plan(&Commands::Nodes { command: create }) {
        CliPlan::CreateNode { url, authorization, vector, properties, .. } => {
            assert_eq!(url, "http://db:8443/nodes/7");
            assert_eq!(authorization, "Bearer abc");
            assert!(matches!(vector, VectorSource::File(p) if p == "vec.json"));
            assert!(matches!(properties, PropertiesSource::Inline(t) if t == "{\"a\":1}"));
        }
        _ => panic!("expected a node creation"),
    }
    let create = NodeCommands::Create { id: 0, vector: Some("[1, 2]".to_string()), vector_file: None, properties: None };
    match client().plan(&Commands::Nodes { command: create }) {
        CliPlan::CreateNode { url, vector, properties, .. } => {
            assert_eq!(url, "http://db:8443/nodes/0");
            assert!(matches!(vector, VectorSource::Inline(t) if t == "[1, 2]"));
            assert!(matches!(properties, PropertiesSource::Empty));
        }
        _ => panic!("expected a node creation"),
    }
    let create = NodeCommands::Create { id: 1, vector: None, vector_file: None, properties: Some("p.json".to_string()) };
    match client().plan(&Commands::Nodes { command: create }) {
        CliPlan::CreateNode { vector, properties, .. } => {
            assert!(matches!(vector, VectorSource::Default));
            assert!(matches!(properties, PropertiesSource::File(p) if p == "p.json"));
        }
        _ => panic!("expected a node creation"),
    }
    assert_eq!(DEFAULT_VECTOR_DIMENSION, 384);
}

#[test]
fn cli_local_commands_print() {
    match client().plan(&Commands::Nodes { command: NodeCommands::Delete { id: 3 } }) {
        CliPlan::Print(lines) => {
            assert_eq!(lines.len(), 1);
            assert!(lines[0].to_stderr);
        }
        _ => panic!("expected output"),
    }
    match client().plan(&Commands::Transaction { command: TransactionCommands::Commit }) {
        CliPlan::Print(lines) => {
            assert_eq!(lines.len(), 2);
            assert_eq!(lines[1].text, "✅ Транзакция успешно зафиксирована");
        }
        _ => panic!("expected output"),
    }
    match client().plan(&Commands::Transaction { command: TransactionCommands::Begin { file: Some("t.tql".to_string()) } }) {
        CliPlan::BeginTransaction { file } => assert_eq!(file, Some("t.tql".to_string())),
        _ => panic!("expected a transaction"),
    }
}

#[test]
fn cli_report_and_transaction_lines() {
    let ok = report("❌ Ошибка получения метрик: ", true, "{\"up\":1}");
    assert!(!ok.to_stderr);
    assert_eq!(ok.text, "{\"up\":1}");
    let bad = report("❌ Ошибка получения метрик: ", false, "boom");
    assert!(bad.to_stderr);
    assert_eq!(bad.text, "❌ Ошибка получения метрик: boom");

    let lines = begin_transaction_lines(Some("CREATE".to_string()));
    assert_eq!(lines.len(), 4);
    assert_eq!(lines[1].text, "   Содержимое: CREATE");
    assert_eq!(begin_transaction_lines(None).len(), 3);
}
