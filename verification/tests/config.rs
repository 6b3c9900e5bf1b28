//! The configuration.

use k8netd::config::{
    ephemeral_range, normalize_version, parse_flags, ranges_overlap, Config, ConfigError, Flags,
};
use k8netd::model::Ipv4Addr;
use k8netd::names::NameMap;

type TestResult = Result<(), ConfigError>;

fn env(pairs: &[(&str, &str)]) -> NameMap<String> {
    let mut m = NameMap::new();
    for (k, v) in pairs {
        m.insert(k.to_string(), v.to_string());
    }
    m
}

fn args(words: &[&str]) -> Vec<String> {
    words.iter().map(|s| s.to_string()).collect()
}

#[test]
fn defaults_match_plan() -> TestResult {
    let c = Config::resolve(&Flags::default(), &env(&[]))?;
    assert_eq!(c.socket_dir, "/run/user/1000/k8snet".to_string());
    assert_eq!(c.passt_binary, "passt");
    assert_eq!(
        c.upstream_dns,
        vec![Ipv4Addr::new(1, 1, 1, 1), Ipv4Addr::new(8, 8, 8, 8)]
    );
    assert_eq!(c.mtu, 1500);
    assert!(c.port_forwards.is_empty());
    Ok(())
}

#[test]
fn env_overrides_defaults() -> TestResult {
    let e = env(&[
        ("K8NETD_SOCKET_DIR", "/tmp/x"),
        ("K8NETD_PASST_BINARY", "/usr/bin/passt"),
        ("K8NETD_UPSTREAM_DNS", "9.9.9.9"),
        ("K8NETD_MTU", "1400"),
    ]);
    let c = Config::resolve(&Flags::default(), &e)?;
    assert_eq!(c.socket_dir, "/tmp/x".to_string());
    assert_eq!(c.passt_binary, "/usr/bin/passt");
    assert_eq!(c.upstream_dns, vec![Ipv4Addr::new(9, 9, 9, 9)]);
    assert_eq!(c.mtu, 1400);
    assert!(c.port_forwards.is_empty());
    Ok(())
}

#[test]
fn flag_overrides_env_and_default() -> TestResult {
    let e = env(&[("K8NETD_MTU", "1400"), ("K8NETD_SOCKET_DIR", "/from-env")]);
    let flags = Flags {
        socket_dir: Some("/from-flag".to_string()),
        mtu: Some(9000),
        ..Flags::default()
    };
    let c = Config::resolve(&flags, &e)?;
    assert_eq!(c.socket_dir, "/from-flag".to_string());
    assert_eq!(c.mtu, 9000);
    assert!(c.port_forwards.is_empty());
    Ok(())
}

#[test]
fn invalid_values_rejected_at_startup() -> TestResult {
    let cases = [
        ("K8NETD_MTU", "notanumber"),
        ("K8NETD_UPSTREAM_DNS", "1.1.1.1,banana"),
        ("K8NETD_UPSTREAM_DNS", "1.1.1.1,,8.8.8.8"),
    ];
    for (key, val) in cases {
        let pair = [(key, val)];
        let e = env(&pair);
        let err = Config::resolve(&Flags::default(), &e).expect_err(val);
        assert!(
            matches!(
                err,
                ConfigError::InvalidValue { .. } | ConfigError::EmptyListEntry { .. }
            ),
            "{key}={val} must be rejected"
        );
    }
    Ok(())
}

#[test]
fn parse_flags_and_unknown_rejection() -> TestResult {
    let f = parse_flags(&args(&[
        "--socket-dir",
        "/s",
        "--passt-binary",
        "pb",
        "--upstream-dns",
        "9.9.9.9",
        "--mtu",
        "8888",
    ]))?;
    assert_eq!(f.socket_dir, Some("/s".to_string()));
    assert_eq!(f.passt_binary, Some("pb".into()));
    assert_eq!(f.upstream_dns, Some("9.9.9.9".into()));
    assert_eq!(f.mtu, Some(8888));

    let bad = args(&["--nope"]);
    assert!(parse_flags(&bad).is_err(), "unknown flag must be rejected");

    let retired = args(&["--port-forwards", "1,2"]);
    assert!(
        parse_flags(&retired).is_err(),
        "retired --port-forwards must be rejected like an unknown flag"
    );

    let missing = args(&["--mtu"]);
    assert!(parse_flags(&missing).is_err(), "dangling flag must be rejected");
    Ok(())
}

#[test]
fn publish_range_env_parses_start_end() -> TestResult {
    let e = env(&[("K8NETD_PUBLISH_RANGE", "30000-30100")]);
    let c = Config::resolve(&Flags::default(), &e)?;
    assert_eq!(c.publish_range, (30000, 30100));
    Ok(())
}

#[test]
fn publish_range_defaults_to_20000_21000() -> TestResult {
    let c = Config::resolve(&Flags::default(), &env(&[]))?;
    assert_eq!(c.publish_range, (20000, 21000));
    Ok(())
}

#[test]
fn publish_range_malformed_values_rejected() -> TestResult {
    for raw in ["20000", "banana", "21000-20000", "20000-", "-20000"] {
        let pair = [("K8NETD_PUBLISH_RANGE", raw)];
        let e = env(&pair);
        let err = Config::resolve(&Flags::default(), &e).expect_err(raw);
        assert!(
            matches!(err, ConfigError::InvalidValue { .. }),
            "K8NETD_PUBLISH_RANGE={raw} must be rejected"
        );
    }
    Ok(())
}

#[test]
fn deprecated_port_forwards_env_is_ignored() -> TestResult {
    let e = env(&[("K8NETD_PORT_FORWARDS", "8080")]);
    let c = Config::resolve(&Flags::default(), &e)?;
    assert!(
        c.port_forwards.is_empty(),
        "static forwards are retired; K8NETD_PORT_FORWARDS must be ignored"
    );
    Ok(())
}

#[test]
fn errors_name_the_key_and_the_value() {
    let bad = |key: &str, value: &str| Config::resolve(&Flags::default(), &env(&[(key, value)])).unwrap_err();
    assert_eq!(
        bad("K8NETD_MTU", "70000"),
        ConfigError::InvalidValue {
            key: "K8NETD_MTU".to_string(),
            value: "70000".to_string()
        }
    );
    assert_eq!(
        bad("K8NETD_UPSTREAM_DNS", "1.1.1.1, ,banana"),
        ConfigError::EmptyListEntry {
            key: "K8NETD_UPSTREAM_DNS".to_string()
        }
    );
    assert_eq!(
        bad("K8NETD_UPSTREAM_DNS", "1.1.1.1,banana,"),
        ConfigError::InvalidValue {
            key: "K8NETD_UPSTREAM_DNS".to_string(),
            value: "1.1.1.1,banana,".to_string()
        }
    );
    assert_eq!(
        bad("K8NETD_PUBLISH_RANGE", "1-2-3"),
        ConfigError::InvalidValue {
            key: "K8NETD_PUBLISH_RANGE".to_string(),
            value: "1-2-3".to_string()
        }
    );
    let both = env(&[("K8NETD_MTU", "x"), ("K8NETD_UPSTREAM_DNS", "")]);
    assert_eq!(
        Config::resolve(&Flags::default(), &both).unwrap_err(),
        ConfigError::EmptyListEntry {
            key: "K8NETD_UPSTREAM_DNS".to_string()
        },
        "the upstreams come first"
    );
}

#[test]
fn white_space_around_upstreams_is_allowed() -> TestResult {
    let e = env(&[("K8NETD_UPSTREAM_DNS", " 9.9.9.9 ,\t8.8.4.4")]);
    let c = Config::resolve(&Flags::default(), &e)?;
    assert_eq!(
        c.upstream_dns,
        vec![Ipv4Addr::new(9, 9, 9, 9), Ipv4Addr::new(8, 8, 4, 4)]
    );
    Ok(())
}

#[test]
fn later_flags_count_and_errors_tell_the_flag() {
    let f = parse_flags(&args(&["--mtu", "1400", "--mtu", "+1300"])).unwrap();
    assert_eq!(f.mtu, Some(1300));
    assert_eq!(
        parse_flags(&args(&["--mtu", "x"])).unwrap_err(),
        ConfigError::InvalidValue {
            key: "--mtu".to_string(),
            value: "x".to_string()
        }
    );
    assert_eq!(
        parse_flags(&args(&["--socket-dir"])).unwrap_err(),
        ConfigError::InvalidValue {
            key: "--socket-dir".to_string(),
            value: "<missing>".to_string()
        }
    );
    assert_eq!(
        parse_flags(&args(&["--nope"])).unwrap_err(),
        ConfigError::InvalidValue {
            key: "--flags".to_string(),
            value: "--nope".to_string()
        }
    );
}

#[test]
fn the_ephemeral_ports_of_the_host() {
    assert_eq!(ephemeral_range(Some("32768\t60999\n")), (32768, 60999));
    assert_eq!(ephemeral_range(Some("  1024 2048 rest")), (1024, 2048));
    for unread in [None, Some(""), Some("1024"), Some("1024 x"), Some("99999 1")] {
        assert_eq!(ephemeral_range(unread), (32768, 60999));
    }
    assert!(!ranges_overlap((20000, 21000), (32768, 60999)));
    assert!(ranges_overlap((20000, 32768), (32768, 60999)));
    assert!(ranges_overlap((40000, 40001), (32768, 60999)));
}

#[test]
fn versions_of_releases_lose_their_prefix() {
    assert_eq!(normalize_version("v0.1.2"), "0.1.2");
    assert_eq!(normalize_version("0.1.2"), "0.1.2");
    assert_eq!(normalize_version("edge"), "edge");
    assert_eq!(normalize_version("dev"), "dev");
    assert_eq!(normalize_version("version"), "version");
    assert_eq!(normalize_version("v"), "v");
    assert_eq!(normalize_version(""), "");
}
