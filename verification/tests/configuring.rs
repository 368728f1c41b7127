use corsget::config::{
    bind_hosts, byte_count, default_real_ip_header, eval_byte_expr, limit_tiers, non_empty_strings,
    ApplicationConfig, BandwidthLimitConfig, CacheConfig, Config, ConfigError, ConnectionConfig,
    CountSetting, HostSetting, LimitTier, ProxyConfig, ResultSizeConfig, TargetListConfig,
};

fn config() -> Config {
    Config {
        application: ApplicationConfig {
            host: vec!["0.0.0.0".to_string()],
            port: 9647,
            hostname: "localhost".to_string(),
            real_ip_header: default_real_ip_header(),
        },
        connection: ConnectionConfig {
            target: TargetListConfig::default(),
            origin: TargetListConfig::default(),
            rate_limit: Vec::new(),
            bandwidth_limit: BandwidthLimitConfig::default(),
        },
        proxy: ProxyConfig { max_redirects: 10, timeout: 30 },
        cache: CacheConfig::default(),
    }
}

fn invalid(config: &Config) -> String {
    match config.validate() {
        Err(ConfigError::Invalid(cause)) => cause,
        other => panic!("got {:?}", other),
    }
}

#[test]
fn rejects_zero_window() {
    let mut cfg = config();
    cfg.connection.rate_limit = vec![LimitTier { window: 0, max: 5 }];
    let err = cfg.validate().unwrap_err();
    assert!(matches!(err, ConfigError::Invalid(_)), "got {:?}", err);
    assert_eq!(err.message(), "invalid config: rate_limit: `window` must be > 0");
}

#[test]
fn accepts_sound_values() {
    let mut cfg = config();
    assert!(cfg.validate().is_ok());
    cfg.connection.rate_limit =
        vec![LimitTier { window: 1, max: 5 }, LimitTier { window: 60, max: 500 }];
    cfg.connection.bandwidth_limit.connection =
        vec![LimitTier { window: 60, max: 1024 * 1024 * 4096 }];
    cfg.proxy.timeout = 0;
    assert!(cfg.validate().is_ok());
}

#[test]
fn rejects_in_order() {
    let mut cfg = config();
    cfg.proxy = ProxyConfig { max_redirects: 0, timeout: 0 };
    assert_eq!(
        invalid(&cfg),
        "proxy: at least one of `max_redirects` or `timeout` should be > 0"
    );
    cfg.connection.bandwidth_limit.connection = vec![LimitTier { window: 1, max: 0 }];
    assert_eq!(invalid(&cfg), "bandwidth_limit.connection: `max` must be > 0");
    cfg.connection.bandwidth_limit.connection = vec![LimitTier { window: 0, max: 0 }];
    assert_eq!(invalid(&cfg), "bandwidth_limit.connection: `window` must be > 0");
    cfg.connection.rate_limit =
        vec![LimitTier { window: 1, max: 1 }, LimitTier { window: 1, max: 0 }];
    assert_eq!(invalid(&cfg), "rate_limit: `max` must be > 0");
}

#[test]
fn byte_expressions_multiply() {
    assert_eq!(eval_byte_expr("1024 * 1024 * 4096"), Ok(4294967296));
    assert_eq!(eval_byte_expr(" 60*15 "), Ok(900));
    assert_eq!(eval_byte_expr("7"), Ok(7));
    assert_eq!(eval_byte_expr("+7 * 0"), Ok(0));
    assert_eq!(eval_byte_expr("18446744073709551615"), Ok(u64::MAX));
}

#[test]
fn byte_expressions_are_checked() {
    assert_eq!(
        eval_byte_expr("10 * x"),
        Err("invalid byte expression `10 * x`: `x` is not a number".to_string())
    );
    assert_eq!(
        eval_byte_expr(""),
        Err("invalid byte expression ``: `` is not a number".to_string())
    );
    assert_eq!(
        eval_byte_expr("18446744073709551615 * 2"),
        Err("byte expression `18446744073709551615 * 2` overflows u64".to_string())
    );
    assert_eq!(
        eval_byte_expr("18446744073709551616"),
        Err("invalid byte expression `18446744073709551616`: `18446744073709551616` is not a number"
            .to_string())
    );
}

#[test]
fn counts_are_numbers_or_expressions() {
    assert_eq!(byte_count(&CountSetting::Number(5)), Ok(5));
    assert_eq!(byte_count(&CountSetting::Expression("60 * 5".to_string())), Ok(300));
    assert!(byte_count(&CountSetting::Expression("-1".to_string())).is_err());
}

#[test]
fn hosts_are_one_or_more() {
    assert_eq!(
        bind_hosts(HostSetting::One("::1".to_string())),
        Ok(vec!["::1".to_string()])
    );
    let many = vec!["a".to_string(), "b".to_string()];
    assert_eq!(bind_hosts(HostSetting::Many(many.clone())), Ok(many));
    assert_eq!(
        bind_hosts(HostSetting::Many(Vec::new())),
        Err("application.host must not be empty".to_string())
    );
}

#[test]
fn empty_list_items_are_dropped() {
    let raw = vec![
        Some("a".to_string()),
        None,
        Some("  ".to_string()),
        Some(" b ".to_string()),
    ];
    assert_eq!(non_empty_strings(Some(raw)), vec!["a".to_string(), " b ".to_string()]);
    assert!(non_empty_strings(None).is_empty());
    let tiers = limit_tiers(Some(vec![None, Some(LimitTier { window: 1, max: 2 }), None]));
    assert_eq!(tiers.len(), 1);
    assert_eq!((tiers[0].window, tiers[0].max), (1, 2));
    assert!(limit_tiers(None).is_empty());
}

#[test]
fn defaults() {
    assert_eq!(default_real_ip_header(), "X-Real-IP");
    assert_eq!(ResultSizeConfig::default().max, 0);
    assert!(!CacheConfig::default().enabled);
}

#[test]
fn config_errors_in_words() {
    assert_eq!(
        ConfigError::Parse("bad key".to_string()).message(),
        "failed to parse config: bad key"
    );
    assert_eq!(
        ConfigError::Io("no file".to_string()).message(),
        "failed to read config file: no file"
    );
}
