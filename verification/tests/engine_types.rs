use toroidal_tql::backup::BackupManager;
use toroidal_tql::engine::TqlError;
use toroidal_tql::engine_types::{GrpcConfig, TransactionManager};
use toroidal_tql::gql_bridge::GqlError;
use toroidal_tql::stream_processor::StreamConfig;
use toroidal_tql::schema::SchemaError;

#[test]
fn test_grpc_config_default() {
    let config = GrpcConfig::default();
    assert_eq!(config.port, 50051);
    assert!(config.proto_path.contains("tql.proto"));
}

#[test]
fn grpc_default_host() {
    assert_eq!(GrpcConfig::default().host, "127.0.0.1");
    assert_eq!(GrpcConfig::default().proto_path, "proto/tql.proto");
}

#[test]
fn stream_config_defaults() {
    let c = StreamConfig::default();
    assert_eq!(c.max_buffer_size, 10000);
    assert_eq!(c.retention_ms, 3_600_000);
    assert!(c.enable_watermark);
    assert_eq!(c.allowed_lateness_ms, 60_000);
}

#[test]
fn engine_error_messages() {
    assert_eq!(TqlError::ParseError("x".to_string()).message(), "Parse error: x");
    assert_eq!(TqlError::ValidationError("y".to_string()).message(), "Validation error: y");
    assert_eq!(TqlError::ExecutionError("z".to_string()).message(), "Execution error: z");
    let e: TqlError = SchemaError::TypeNotFound("Doc".to_string()).into();
    assert_eq!(e.message(), "Schema error: Type 'Doc' not found");
    assert_eq!(GqlError::Parse("p".to_string()).message(), "GQL parse error: p");
    assert_eq!(GqlError::Execution("e".to_string()).message(), "GQL execution error: e");
    assert_eq!(GqlError::Unsupported("u".to_string()).message(), "GQL unsupported: u");
}

#[test]
fn backup_manager_keeps_settings() {
    let m = BackupManager::new("/tmp/backups", 7);
    assert_eq!(m.backup_dir, "/tmp/backups");
    assert_eq!(m.retention_days, 7);
}

#[test]
fn generated_ids_are_nonzero() {
    assert!(TransactionManager::generate_id() > 0);
}
