use toroidal_tql::mcp::{
    MCPHandler, ModelConfiguration, OptimizationSettings, PerformanceSettings, SystemConfiguration, TopologySettings, UpdateValue,
};

fn model(name: &str) -> ModelConfiguration {
    ModelConfiguration {
        name: name.to_string(),
        version: "1".to_string(),
        dimensions: vec![384],
        default_threshold_bits: 0.5f32.to_bits(),
        optimization_settings: OptimizationSettings {
            enable_caching: false,
            cache_strategy: "LRU".to_string(),
            enable_parallel_search: false,
            early_termination: false,
            batch_size: 1,
        },
        topology_settings: TopologySettings {
            enable_toroidal_topology: false,
            enable_ricci_flow: false,
            ricci_iterations: 0,
            homotopy_class_tracking: false,
        },
        performance_settings: PerformanceSettings {
            thread_pool_size: 1,
            memory_limit_mb: 1,
            disk_cache_enabled: false,
            disk_cache_path: "/tmp".to_string(),
        },
    }
}

fn none() -> UpdateValue {
    UpdateValue { as_str: None, as_f32_bits: None, as_u64_array: None, as_bool: None, as_u64: None }
}

#[test]
fn defaults() {
    let h = MCPHandler::new();
    let c = h.get_system_config();
    assert_eq!(c.server_port, 8443);
    assert_eq!(c.tls_cert_path, "cert.pem");
    assert_eq!(c.shard_count, 3);
    assert_eq!(c.log_level, "info");
    assert!(h.list_models().is_empty());
}

#[test]
fn update_model_config_applies_known_keys() {
    let mut h = MCPHandler::new();
    h.set_model_config(model("m")).unwrap();
    let updates = vec![
        ("version".to_string(), UpdateValue { as_str: Some("2".to_string()), ..none() }),
        ("dimensions".to_string(), UpdateValue { as_u64_array: Some(vec![Some(128), Some(256)]), ..none() }),
        ("enable_caching".to_string(), UpdateValue { as_bool: Some(true), ..none() }),
        ("batch_size".to_string(), UpdateValue { as_u64: Some(64), as_f32_bits: Some(64f32.to_bits()), ..none() }),
        ("default_threshold".to_string(), UpdateValue { as_f32_bits: Some(0.25f32.to_bits()), ..none() }),
        ("disk_cache_path".to_string(), UpdateValue { as_str: Some("/data".to_string()), ..none() }),
        ("unknown".to_string(), UpdateValue { as_bool: Some(true), ..none() }),
        ("early_termination".to_string(), UpdateValue { as_str: Some("yes".to_string()), ..none() }),
    ];
    h.update_model_config("m", updates).unwrap();
    let m = h.get_model_config("m").unwrap();
    assert_eq!(m.version, "2");
    assert_eq!(m.dimensions, vec![128, 256]);
    assert!(m.optimization_settings.enable_caching);
    assert_eq!(m.optimization_settings.batch_size, 64);
    assert_eq!(m.default_threshold_bits, 0.25f32.to_bits());
    assert_eq!(m.performance_settings.disk_cache_path, "/data");
    // a value of the wrong kind leaves the field alone
    assert!(!m.optimization_settings.early_termination);
}

#[test]
fn invalid_dimension_array_is_ignored() {
    let mut h = MCPHandler::new();
    h.set_model_config(model("m")).unwrap();
    let updates = vec![("dimensions".to_string(), UpdateValue { as_u64_array: Some(vec![Some(1), None]), ..none() })];
    h.update_model_config("m", updates).unwrap();
    assert_eq!(h.get_model_config("m").unwrap().dimensions, vec![384]);
}

#[test]
fn update_unknown_model_fails() {
    let mut h = MCPHandler::new();
    assert_eq!(h.update_model_config("ghost", vec![]), Err("Model ghost not found".to_string()));
}

#[test]
fn validate_config_checks_in_order() {
    let mut h = MCPHandler::new();
    assert_eq!(h.validate_config(true, true), Ok(true));
    assert_eq!(h.validate_config(false, true), Err("TLS certificate file does not exist: cert.pem".to_string()));
    assert_eq!(h.validate_config(true, false), Err("TLS key file does not exist: key.pem".to_string()));
    let mut c = SystemConfiguration::default();
    c.server_port = 80;
    h.update_system_config(c).unwrap();
    assert_eq!(h.validate_config(false, false), Err("Server port must be between 1024 and 65535".to_string()));
    let mut c = SystemConfiguration::default();
    c.cache_size = 0;
    h.update_system_config(c).unwrap();
    assert_eq!(h.validate_config(true, true), Err("Cache size must be greater than 0".to_string()));
    let mut c = SystemConfiguration::default();
    c.cache_ttl_seconds = 0;
    h.update_system_config(c).unwrap();
    assert_eq!(h.validate_config(true, true), Err("Cache TTL must be greater than 0".to_string()));
    let mut c = SystemConfiguration::default();
    c.shard_count = 0;
    h.update_system_config(c).unwrap();
    assert_eq!(h.validate_config(true, true), Err("Shard count must be greater than 0".to_string()));
}

#[test]
fn reset_forgets_models() {
    let mut h = MCPHandler::new();
    h.set_model_config(model("a")).unwrap();
    h.set_model_config(model("b")).unwrap();
    let mut names = h.list_models();
    names.sort();
    assert_eq!(names, vec!["a".to_string(), "b".to_string()]);
    h.reset_to_defaults().unwrap();
    assert!(h.list_models().is_empty());
    assert!(h.get_model_config("a").is_none());
}
