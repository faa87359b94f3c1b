use svc_bootstrap::config::{
    parse_bool, parse_cors_origins, parse_host, parse_nonzero_u32, AppEnv, CorsConfig, HostAddr,
    LogFormat, Settings,
};

fn s(v: &str) -> Option<String> {
    Some(v.to_string())
}

fn load_defaults() -> Settings {
    Settings::from_values(None, None, None, None, None, None, None, None).expect("defaults load")
}

#[test]
fn defaults_are_loopback_3000_dev_pretty() {
    let settings = load_defaults();
    assert_eq!(settings.http_host, HostAddr::V4(127, 0, 0, 1));
    assert_eq!(settings.http_port, 3000);
    assert_eq!(settings.app_env, AppEnv::Development);
    assert_eq!(settings.log_format, LogFormat::Pretty);
    assert!(matches!(settings.cors, CorsConfig::Disabled));
    assert!(settings.ratelimit.is_none());
}

#[test]
fn production_forces_json_log_format() {
    let settings =
        Settings::from_values(None, None, s("PROD"), s("pretty"), None, None, None, None)
            .expect("load");
    assert_eq!(settings.app_env, AppEnv::Production);
    assert_eq!(settings.log_format, LogFormat::Json);
}

#[test]
fn production_spelled_out_is_recognized() {
    let settings =
        Settings::from_values(None, None, s("Production"), None, None, None, None, None)
            .expect("load");
    assert_eq!(settings.app_env, AppEnv::Production);
}

#[test]
fn json_log_format_is_case_insensitive() {
    let settings = Settings::from_values(None, None, None, s("JSON"), None, None, None, None)
        .expect("load");
    assert_eq!(settings.log_format, LogFormat::Json);
}

#[test]
fn bad_host_is_reported_by_name() {
    let err = Settings::from_values(s("nonsense"), None, None, None, None, None, None, None)
        .unwrap_err();
    assert_eq!(err, "HTTP_HOST is invalid: expected an IP address");
}

#[test]
fn parse_host_accepts_colon_hex_addresses() {
    assert_eq!(
        parse_host("::1"),
        Some(HostAddr::V6(0, 0, 0, 0, 0, 0, 0, 1))
    );
    assert_eq!(parse_host("::"), Some(HostAddr::V6(0, 0, 0, 0, 0, 0, 0, 0)));
    assert_eq!(
        parse_host("2001:db8::8a2e:370:7334"),
        Some(HostAddr::V6(0x2001, 0xdb8, 0, 0, 0, 0x8a2e, 0x370, 0x7334))
    );
    assert_eq!(
        parse_host("fe80::1"),
        Some(HostAddr::V6(0xfe80, 0, 0, 0, 0, 0, 0, 1))
    );
    assert_eq!(
        parse_host("1:2:3:4:5:6:7:8"),
        Some(HostAddr::V6(1, 2, 3, 4, 5, 6, 7, 8))
    );
    assert_eq!(
        parse_host("1:2:3:4:5:6:7::"),
        Some(HostAddr::V6(1, 2, 3, 4, 5, 6, 7, 0))
    );
    assert_eq!(
        parse_host("::2:3:4:5:6:7:8"),
        Some(HostAddr::V6(0, 2, 3, 4, 5, 6, 7, 8))
    );
}

#[test]
fn parse_host_rejects_malformed_colon_hex() {
    assert_eq!(parse_host(":"), None);
    assert_eq!(parse_host(":::"), None);
    assert_eq!(parse_host(":1:2"), None);
    assert_eq!(parse_host("1:2:"), None);
    assert_eq!(parse_host("1:2:3:4:5:6:7"), None);
    assert_eq!(parse_host("1:2:3:4:5:6:7:8:9"), None);
    assert_eq!(parse_host("1::2::3"), None);
    assert_eq!(parse_host("::1:2:3:4:5:6:7:8"), None);
    assert_eq!(parse_host("12345::1"), None);
    assert_eq!(parse_host("g::1"), None);
}

#[test]
fn ipv6_host_setting_is_accepted() {
    let settings =
        Settings::from_values(s("::1"), None, None, None, None, None, None, None).expect("load");
    assert_eq!(settings.http_host, HostAddr::V6(0, 0, 0, 0, 0, 0, 0, 1));
}

#[test]
fn bad_port_is_reported_by_name() {
    let err =
        Settings::from_values(None, s("70000"), None, None, None, None, None, None).unwrap_err();
    assert_eq!(err, "HTTP_PORT is invalid: expected an unsigned 16-bit integer");
    let err2 =
        Settings::from_values(None, s("80a"), None, None, None, None, None, None).unwrap_err();
    assert_eq!(err2, "HTTP_PORT is invalid: expected an unsigned 16-bit integer");
}

#[test]
fn explicit_host_and_port_are_used() {
    let settings = Settings::from_values(s("10.1.2.3"), s("8080"), None, None, None, None, None,
        None)
    .expect("load");
    assert_eq!(settings.http_host, HostAddr::V4(10, 1, 2, 3));
    assert_eq!(settings.http_port, 8080);
}

#[test]
fn parse_host_accepts_dotted_quads_only() {
    assert_eq!(parse_host("0.0.0.0"), Some(HostAddr::V4(0, 0, 0, 0)));
    assert_eq!(parse_host("255.255.255.255"), Some(HostAddr::V4(255, 255, 255, 255)));
    assert_eq!(parse_host("256.0.0.1"), None);
    assert_eq!(parse_host("1.2.3"), None);
    assert_eq!(parse_host("1.2.3.4.5"), None);
    assert_eq!(parse_host("01.2.3.4"), None);
    assert_eq!(parse_host(""), None);
    assert_eq!(parse_host("a.b.c.d"), None);
}

#[test]
fn cors_empty_and_blank_disable() {
    assert!(matches!(parse_cors_origins("").unwrap(), CorsConfig::Disabled));
    assert!(matches!(parse_cors_origins("   ").unwrap(), CorsConfig::Disabled));
    assert!(matches!(parse_cors_origins(" , ,").unwrap(), CorsConfig::Disabled));
}

#[test]
fn cors_bare_wildcard_allows_any() {
    assert!(matches!(parse_cors_origins(" * ").unwrap(), CorsConfig::Any));
}

#[test]
fn cors_list_is_trimmed_and_empty_entries_dropped() {
    match parse_cors_origins(" https://a.example ,, https://b.example ").unwrap() {
        CorsConfig::AllowList(os) => {
            assert_eq!(os, vec!["https://a.example".to_string(), "https://b.example".to_string()]);
        }
        other => panic!("expected an allowlist, got {:?}", other),
    }
}

#[test]
fn cors_wildcard_inside_list_is_rejected() {
    let err = parse_cors_origins("https://a.example,*").unwrap_err();
    assert_eq!(err, "APP_CORS_ORIGINS cannot include '*' when using an allowlist");
    let err2 = Settings::from_values(None, None, None, None, s("https://a.example,*"), None, None,
        None)
    .unwrap_err();
    assert_eq!(err2, "APP_CORS_ORIGINS cannot include '*' when using an allowlist");
}

#[test]
fn cors_forbidden_character_is_rejected() {
    let err = parse_cors_origins("https://a.example,bad\u{1}origin").unwrap_err();
    assert_eq!(err, "APP_CORS_ORIGINS entry is invalid: origin contains a forbidden character");
}

#[test]
fn ratelimit_settings_parse_with_defaults() {
    let settings =
        Settings::from_values(None, None, None, None, None, s("10"), None, None).expect("load");
    let rl = settings.ratelimit.expect("ratelimit present");
    assert_eq!(rl.rps, 10);
    assert_eq!(rl.burst, 20);
    assert!(!rl.trust_proxy);
}

#[test]
fn ratelimit_burst_and_trust_proxy_are_read() {
    let settings =
        Settings::from_values(None, None, None, None, None, s("5"), s("7"), s(" YES "))
            .expect("load");
    let rl = settings.ratelimit.expect("ratelimit present");
    assert_eq!(rl.rps, 5);
    assert_eq!(rl.burst, 7);
    assert!(rl.trust_proxy);
}

#[test]
fn ratelimit_burst_ignored_when_rps_unset() {
    let settings =
        Settings::from_values(None, None, None, None, None, None, s("0"), s("banana"))
            .expect("load");
    assert!(settings.ratelimit.is_none());
}

#[test]
fn parse_nonzero_u32_accepts_positive_numerals() {
    assert_eq!(parse_nonzero_u32("APP_RATELIMIT_RPS", "5"), Ok(5));
    assert_eq!(parse_nonzero_u32("APP_RATELIMIT_RPS", "4294967295"), Ok(u32::MAX));
}

#[test]
fn parse_nonzero_u32_rejects_zero_and_garbage() {
    assert_eq!(
        parse_nonzero_u32("APP_RATELIMIT_RPS", "0").unwrap_err(),
        "APP_RATELIMIT_RPS must be greater than zero"
    );
    assert_eq!(
        parse_nonzero_u32("APP_RATELIMIT_BURST", "abc").unwrap_err(),
        "APP_RATELIMIT_BURST is invalid: expected an unsigned integer"
    );
    assert_eq!(
        parse_nonzero_u32("APP_RATELIMIT_RPS", "4294967296").unwrap_err(),
        "APP_RATELIMIT_RPS is invalid: expected an unsigned integer"
    );
    assert_eq!(
        parse_nonzero_u32("APP_RATELIMIT_RPS", "").unwrap_err(),
        "APP_RATELIMIT_RPS is invalid: expected an unsigned integer"
    );
}

#[test]
fn parse_bool_reads_the_usual_spellings() {
    assert_eq!(parse_bool("APP_RATELIMIT_TRUST_PROXY", "true"), Ok(true));
    assert_eq!(parse_bool("APP_RATELIMIT_TRUST_PROXY", " TRUE "), Ok(true));
    assert_eq!(parse_bool("APP_RATELIMIT_TRUST_PROXY", "1"), Ok(true));
    assert_eq!(parse_bool("APP_RATELIMIT_TRUST_PROXY", "yes"), Ok(true));
    assert_eq!(parse_bool("APP_RATELIMIT_TRUST_PROXY", "false"), Ok(false));
    assert_eq!(parse_bool("APP_RATELIMIT_TRUST_PROXY", "0"), Ok(false));
    assert_eq!(parse_bool("APP_RATELIMIT_TRUST_PROXY", "No"), Ok(false));
    assert_eq!(
        parse_bool("APP_RATELIMIT_TRUST_PROXY", "nah").unwrap_err(),
        "APP_RATELIMIT_TRUST_PROXY must be a boolean value"
    );
}

#[test]
fn zero_ratelimit_is_reported_by_name() {
    let err =
        Settings::from_values(None, None, None, None, None, s("0"), None, None).unwrap_err();
    assert_eq!(err, "APP_RATELIMIT_RPS must be greater than zero");
    let err2 =
        Settings::from_values(None, None, None, None, None, s("5"), s("0"), None).unwrap_err();
    assert_eq!(err2, "APP_RATELIMIT_BURST must be greater than zero");
    let err3 = Settings::from_values(None, None, None, None, None, s("5"), None, s("banana"))
        .unwrap_err();
    assert_eq!(err3, "APP_RATELIMIT_TRUST_PROXY must be a boolean value");
}
