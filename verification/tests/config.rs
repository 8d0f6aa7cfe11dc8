use loggytracy::config::{
    cgroup_relative_path, derive_defaults_from_budget, meminfo_total_bytes, parse_memory_max,
    resolve_memory_budget, Config, HostMemory, LogFormat, RESERVATION_CHUNK_BYTES,
};
use loggytracy::env::parse_duration_text;
use loggytracy::time::Duration;

#[test]
fn the_log_format_accepts_both_shapes_and_refuses_a_third() {
    assert_eq!(LogFormat::parse("json", LogFormat::Text).unwrap(), LogFormat::Json);
    assert_eq!(LogFormat::parse(" TEXT ", LogFormat::Json).unwrap(), LogFormat::Text);
    assert_eq!(LogFormat::parse("", LogFormat::Json).unwrap(), LogFormat::Json);
    assert!(LogFormat::parse("logfmt", LogFormat::Text).is_err());
}

#[test]
fn the_budget_resolves_env_then_detection_then_off() {
    let detected = HostMemory {
        limit_bytes: Some(2 * 1024 * 1024 * 1024),
        source: "cgroup v2 memory.max",
    };
    let (bytes, source) = resolve_memory_budget(None, detected).unwrap();
    assert_eq!(bytes, Some(2 * 1024 * 1024 * 1024 * 60 / 100));
    assert!(source.contains("60%") && source.contains("cgroup"), "{source}");
    let (bytes, source) = resolve_memory_budget(Some("1073741824"), detected).unwrap();
    assert_eq!(bytes, Some(1024 * 1024 * 1024));
    assert_eq!(source, "LOGGYTRACY_MEMORY_BUDGET");
    let (bytes, _) = resolve_memory_budget(Some("off"), detected).unwrap();
    assert_eq!(bytes, None);
    let undetected = HostMemory {
        limit_bytes: None,
        source: "undetected",
    };
    let (bytes, source) = resolve_memory_budget(None, undetected).unwrap();
    assert_eq!(bytes, None);
    assert_eq!(source, "undetected");
    assert!(resolve_memory_budget(Some("0"), detected).is_err());
    assert!(resolve_memory_budget(Some("2GiB"), detected).is_err());
}

#[test]
fn the_derived_ceilings_follow_the_measured_shares_and_validate() {
    let mut config = Config::default();
    let budget = 2u64 * 1024 * 1024 * 1024 * 60 / 100;
    derive_defaults_from_budget(&mut config, budget);
    assert_eq!(config.merge_max_memory_bytes, budget / 4);
    assert_eq!(config.merge_max_input_bytes, budget / 8);
    assert_eq!(config.query_memory_budget_bytes, budget / 4);
    assert_eq!(config.max_query_memory_bytes, budget / 4);
    assert_eq!(config.row_group_cache_max_bytes, Some(budget / 8));
    assert_eq!(config.sidecar_cache_max_bytes, Some(budget / 10));
    assert_eq!(config.max_memtable_bytes, Some(budget / 10));
    config.memory_budget_bytes = Some(budget);
    config.validate().unwrap();
}

#[test]
fn a_tiny_budget_derives_floors_a_running_engine_can_live_with() {
    let mut config = Config::default();
    derive_defaults_from_budget(&mut config, 1);
    assert_eq!(config.merge_max_memory_bytes, 64 * 1024 * 1024);
    assert_eq!(config.merge_max_input_bytes, 32 * 1024 * 1024);
    assert_eq!(config.query_memory_budget_bytes, RESERVATION_CHUNK_BYTES);
    assert_eq!(config.row_group_cache_max_bytes, Some(16 * 1024 * 1024));
    assert_eq!(config.sidecar_cache_max_bytes, Some(32 * 1024 * 1024));
    assert_eq!(config.max_memtable_bytes, Some(32 * 1024 * 1024));
    config.validate().unwrap();
}

#[test]
fn parses_duration_suffixes_and_disabled_values() {
    assert_eq!(parse_duration_text("TEST", "5ms").unwrap(), Some(Duration::from_millis(5)));
    assert_eq!(parse_duration_text("TEST", "2s").unwrap(), Some(Duration::from_secs(2)));
    assert_eq!(parse_duration_text("TEST", "3m").unwrap(), Some(Duration::from_secs(180)));
    assert_eq!(parse_duration_text("TEST", "1h").unwrap(), Some(Duration::from_secs(3600)));
    assert_eq!(parse_duration_text("TEST", "1d").unwrap(), Some(Duration::from_secs(86_400)));
    assert_eq!(parse_duration_text("TEST", "off").unwrap(), None);
    assert!(parse_duration_text("TEST", "0s").unwrap().unwrap().is_zero());
}

#[test]
fn the_flush_chunk_must_be_at_least_a_mebibyte() {
    let mut config = Config::default();
    assert_eq!(config.flush_chunk_bytes, 32 * 1024 * 1024);
    assert!(config.validate().is_ok());
    config.flush_chunk_bytes = 1024 * 1024 - 1;
    assert!(config.validate().is_err());
    config.flush_chunk_bytes = 1024 * 1024;
    assert!(config.validate().is_ok());
}

#[test]
fn the_rewrite_threshold_must_be_a_fraction() {
    let mut config = Config::default();
    for invalid in [0.0, -0.5, 1.5, f64::NAN] {
        config.retention_rewrite_threshold = f64::to_bits(invalid);
        assert!(config.validate().is_err(), "{invalid} must be rejected");
    }
    config.retention_rewrite_threshold = f64::to_bits(1.0);
    assert!(config.validate().is_ok());
}

#[test]
fn the_peak_memory_budget_is_the_pool_plus_the_merge() {
    let config = Config {
        query_memory_budget_bytes: 512 * 1024 * 1024,
        row_group_cache_max_bytes: Some(256 * 1024 * 1024),
        merge_max_memory_bytes: 1024 * 1024 * 1024,
        ..Config::default()
    };
    assert_eq!(config.peak_materialized_bytes(), 1536 * 1024 * 1024);
    let more_concurrent = Config {
        max_concurrent_query_scans: 16,
        ..config
    };
    assert_eq!(more_concurrent.peak_materialized_bytes(), 1536 * 1024 * 1024);
}

#[test]
fn the_type_default_is_budget_off_and_detection_is_sane() {
    let config = Config::default();
    assert_eq!(config.memory_budget_bytes, None);
    assert_eq!(config.merge_max_memory_bytes, 1024 * 1024 * 1024);
    assert_eq!(config.merge_max_input_bytes, 512 * 1024 * 1024);
    for (cgroup, total) in [(None, Some(4096)), (Some(1024), Some(4096)), (None, None)] {
        let host = HostMemory::detect(cgroup, total);
        if let Some(limit) = host.limit_bytes {
            assert!(limit > 0, "a detected limit of zero is a misread");
            assert_ne!(host.source, "undetected");
        }
    }
}

#[test]
fn validates_merge_relationships_and_zero_limits() {
    let mut config = Config::default();
    assert!(config.validate().is_ok());
    config.merge_target_part_rows = config.merge_max_part_rows + 1;
    assert!(config.validate().is_err());
    config = Config::default();
    config.max_query_runtime = Duration::from_nanos(0);
    assert!(config.validate().is_err());
}

#[test]
fn the_first_problem_is_the_one_reported() {
    let mut config = Config::default();
    config.listen_addr = "  ".to_string();
    config.max_batch_bytes = 0;
    assert_eq!(
        config.validate().unwrap_err(),
        "listen and OTLP addresses must not be empty"
    );
    config.listen_addr = "x".to_string();
    assert_eq!(
        config.validate().unwrap_err(),
        "invalid max_batch_bytes: value must be greater than zero"
    );
    config.max_batch_bytes = 1;
    config.max_memtable_bytes = Some(5);
    assert_eq!(
        config.validate().unwrap_err(),
        "max_memtable_bytes (5) must not be below flush_max_bytes (1048576)"
    );
    config.max_memtable_bytes = None;
    config.merge_max_input_bytes = 2;
    config.merge_max_memory_bytes = 1;
    assert_eq!(
        config.validate().unwrap_err(),
        "merge_max_input_bytes (2) must not exceed merge_max_memory_bytes (1): a group selected \
above the read budget can never be merged"
    );
}

fn vars(list: &[(&str, &str)]) -> Vec<(String, String)> {
    list.iter().map(|(name, value)| (name.to_string(), value.to_string())).collect()
}

fn no_host() -> HostMemory {
    HostMemory::detect(None, None)
}

fn from_env_error(list: &[(&str, &str)]) -> String {
    match Config::from_env(&vars(list), no_host(), None) {
        Ok(_) => panic!("accepted"),
        Err(message) => message,
    }
}

#[test]
fn knobs_override_their_defaults() {
    let list = vars(&[
        ("LOGGYTRACY_LISTEN_ADDR", "0.0.0.0:1"),
        ("LOGGYTRACY_MAX_BATCH_MS", "7"),
        ("LOGGYTRACY_MAX_TIMESTAMP_AGE", "none"),
        ("LOGGYTRACY_FLUSH_MAX_INTERVAL", "250ms"),
        ("LOGGYTRACY_MAX_MEMTABLE_BYTES", " OFF "),
        ("LOGGYTRACY_OBJECT_STORE_URL", "  "),
        ("LOGGYTRACY_LOG_FORMAT", "JSON"),
        ("LOGGYTRACY_MISSING_TENANT", "acme"),
    ]);
    let config = match Config::from_env(&list, no_host(), Some(Ok(f64::to_bits(0.25)))) {
        Ok(config) => config,
        Err(message) => panic!("{}", message),
    };
    assert_eq!(config.listen_addr, "0.0.0.0:1");
    assert_eq!(config.max_batch_ms, 7);
    assert_eq!(config.max_timestamp_age, None);
    assert_eq!(config.flush_max_interval, Duration::from_millis(250));
    assert_eq!(config.max_memtable_bytes, None);
    assert_eq!(config.object_store_url, None);
    assert_eq!(config.log_format, LogFormat::Json);
    assert_eq!(config.missing_tenant.unwrap().as_str(), "acme");
    assert_eq!(f64::from_bits(config.retention_rewrite_threshold), 0.25);
    assert_eq!(config.row_group_size, 8192);
    assert_eq!(config.memory_budget_source, "undetected");
}

#[test]
fn a_declared_budget_moves_the_ceilings_and_a_knob_moves_them_back() {
    let list = vars(&[
        ("LOGGYTRACY_MEMORY_BUDGET", "1073741824"),
        ("LOGGYTRACY_MERGE_MAX_MEMORY_BYTES", "536870912"),
    ]);
    let config = match Config::from_env(&list, no_host(), None) {
        Ok(config) => config,
        Err(message) => panic!("{}", message),
    };
    assert_eq!(config.memory_budget_bytes, Some(1 << 30));
    assert_eq!(config.query_memory_budget_bytes, 1 << 28);
    assert_eq!(config.merge_max_memory_bytes, 1 << 29);
    assert_eq!(config.merge_max_input_bytes, 1 << 27);
}

#[test]
fn a_refused_knob_says_why() {
    assert_eq!(
        from_env_error(&[("LOGGYTRACY_MAX_BATCH_MS", "x")]),
        "invalid LOGGYTRACY_MAX_BATCH_MS \"x\": invalid digit found in string"
    );
    assert_eq!(
        from_env_error(&[("LOGGYTRACY_ROW_GROUP_SIZE", "99999999999999999999999")]),
        "invalid LOGGYTRACY_ROW_GROUP_SIZE \"99999999999999999999999\": number too large to fit \
in target type"
    );
    assert_eq!(
        from_env_error(&[("LOGGYTRACY_CACHE_MAX_BYTES", "0")]),
        "invalid LOGGYTRACY_CACHE_MAX_BYTES: value must be greater than zero"
    );
    assert_eq!(
        from_env_error(&[("LOGGYTRACY_MAX_WAL_BACKLOG_BYTES", "0")]),
        "invalid LOGGYTRACY_MAX_WAL_BACKLOG_BYTES: use 'off' to disable the limit rather than zero"
    );
    assert_eq!(
        from_env_error(&[("LOGGYTRACY_MERGE_INTERVAL", "off")]),
        "invalid LOGGYTRACY_MERGE_INTERVAL: value must be a positive duration, not disabled"
    );
    assert_eq!(
        from_env_error(&[("LOGGYTRACY_MERGE_INTERVAL", "5 weeks")]),
        "invalid LOGGYTRACY_MERGE_INTERVAL \"5 weeks\": invalid digit found in string"
    );
    assert_eq!(
        from_env_error(&[("LOGGYTRACY_MERGE_INTERVAL", "5y")]),
        "invalid LOGGYTRACY_MERGE_INTERVAL \"5y\": expected a duration such as 500ms, 5s, 10m, \
2h, or 7d"
    );
    assert_eq!(
        from_env_error(&[("LOGGYTRACY_MERGE_INTERVAL", "99999999999d")]),
        "invalid LOGGYTRACY_MERGE_INTERVAL \"99999999999d\": duration overflow"
    );
    assert_eq!(
        from_env_error(&[("LOGGYTRACY_LOG_FORMAT", "Xml")]),
        "invalid LOGGYTRACY_LOG_FORMAT: \"xml\": expected text or json"
    );
    assert_eq!(
        from_env_error(&[("LOGGYTRACY_MISSING_TENANT", "")]),
        "invalid LOGGYTRACY_MISSING_TENANT: tenant id must not be empty"
    );
    assert_eq!(
        from_env_error(&[("LOGGYTRACY_MEMORY_BUDGET", "2GiB")]),
        "invalid LOGGYTRACY_MEMORY_BUDGET \"2GiB\": invalid digit found in string"
    );
    assert_eq!(
        from_env_error(&[("LOGGYTRACY_ROW_GROUP_SIZE", "65537")]),
        "row_group_size must not exceed 65536"
    );
    let list = vars(&[("LOGGYTRACY_RETENTION_REWRITE_THRESHOLD", "half")]);
    let refused = Config::from_env(&list, no_host(), Some(Err("invalid float literal".to_string())));
    assert_eq!(
        refused.err(),
        Some(
            "invalid LOGGYTRACY_RETENTION_REWRITE_THRESHOLD \"half\": invalid float literal"
                .to_string()
        )
    );
}

#[test]
fn the_memory_of_the_host_is_read_out_of_its_files() {
    assert_eq!(
        cgroup_relative_path("12:x:/a\n0::/user.slice/app\n"),
        Some("user.slice/app".to_string())
    );
    assert_eq!(cgroup_relative_path("1:name=systemd:/\n"), None);
    assert_eq!(parse_memory_max("2147483648\n"), Some(2147483648));
    assert_eq!(parse_memory_max("max\n"), None);
    assert_eq!(
        meminfo_total_bytes("MemTotal:       16384 kB\r\nMemFree: 1 kB\n"),
        Some(16384 * 1024)
    );
    assert_eq!(meminfo_total_bytes("MemFree: 1 kB\n"), None);
}
