use ssh_quick_connect::config::{
    config_path_components, validate_config, verify_config_security, AppConfig, ConfigEnv,
    ConfigError, ConfigFileFacts, Connection, UnixFileFacts, DEFAULT_CONFIG_TEMPLATE,
};

fn conn(id: Option<&str>, name: &str, host: &str, options: Vec<&str>) -> Connection {
    Connection {
        id: id.map(|s| s.to_string()),
        name: name.to_string(),
        host: host.to_string(),
        user: None,
        port: None,
        identity_file: None,
        options: options.into_iter().map(|s| s.to_string()).collect(),
    }
}

fn validation_text(r: Result<(), ConfigError>) -> String {
    match r {
        Err(ConfigError::Validation(m)) => m,
        Err(other) => panic!("unexpected error: {:?}", other),
        Ok(()) => panic!("expected a validation error"),
    }
}

#[test]
fn validates_valid_config() {
    let config = AppConfig {
        connections: vec![Connection {
            id: Some("srv".to_string()),
            name: "srv".to_string(),
            host: "example.com".to_string(),
            user: Some("alice".to_string()),
            port: Some(2222),
            identity_file: Some("~/.ssh/id_ed25519".to_string()),
            options: vec!["StrictHostKeyChecking=accept-new".to_string()],
        }],
    };

    assert!(validate_config(&config).is_ok());
}

#[test]
fn rejects_duplicate_names() {
    let config = AppConfig {
        connections: vec![
            Connection {
                id: Some("srv-a".to_string()),
                name: "srv".to_string(),
                host: "a.example.com".to_string(),
                user: None,
                port: None,
                identity_file: None,
                options: vec![],
            },
            Connection {
                id: Some("srv-b".to_string()),
                name: "SRV".to_string(),
                host: "b.example.com".to_string(),
                user: None,
                port: None,
                identity_file: None,
                options: vec![],
            },
        ],
    };

    assert!(validate_config(&config).is_err());
}

#[test]
fn rejects_empty_host() {
    let config = AppConfig {
        connections: vec![Connection {
            id: Some("srv".to_string()),
            name: "srv".to_string(),
            host: "   ".to_string(),
            user: None,
            port: None,
            identity_file: None,
            options: vec![],
        }],
    };

    assert!(validate_config(&config).is_err());
}

#[test]
fn rejects_duplicate_ids() {
    let config = AppConfig {
        connections: vec![
            Connection {
                id: Some("prod".to_string()),
                name: "srv-a".to_string(),
                host: "a.example.com".to_string(),
                user: None,
                port: None,
                identity_file: None,
                options: vec![],
            },
            Connection {
                id: Some("PROD".to_string()),
                name: "srv-b".to_string(),
                host: "b.example.com".to_string(),
                user: None,
                port: None,
                identity_file: None,
                options: vec![],
            },
        ],
    };

    assert!(validate_config(&config).is_err());
}

#[test]
fn rejects_empty_connection_list() {
    let config = AppConfig { connections: vec![] };
    assert_eq!(
        validation_text(validate_config(&config)),
        "connections list must contain at least one entry"
    );
}

#[test]
fn reports_each_kind_of_invalid_connection() {
    let cases: Vec<(Vec<Connection>, &str)> = vec![
        (vec![conn(Some(" \t"), "a", "h", vec![])], "connection id cannot be empty"),
        (
            vec![conn(Some("x"), "a", "h", vec![]), conn(Some("X"), "b", "h", vec![])],
            "duplicate connection id 'X'",
        ),
        (vec![conn(None, "\u{3000}", "h", vec![])], "connection name cannot be empty"),
        (vec![conn(None, "web", "", vec![])], "connection 'web' has empty host"),
        (
            vec![conn(None, "Web", "h", vec![]), conn(None, "wEB", "h", vec![])],
            "duplicate connection name 'wEB'",
        ),
        (
            vec![conn(None, "web", "h", vec!["A=1", "  "])],
            "connection 'web' contains an empty ssh option",
        ),
    ];
    for (connections, expected) in cases {
        let config = AppConfig { connections };
        assert_eq!(validation_text(validate_config(&config)), expected);
    }
}

#[test]
fn first_invalid_connection_decides_the_message() {
    let config = AppConfig {
        connections: vec![
            conn(None, "a", "h", vec![]),
            conn(None, "b", " ", vec![]),
            conn(Some(""), "c", "h", vec![]),
        ],
    };
    assert_eq!(validation_text(validate_config(&config)), "connection 'b' has empty host");
}

#[test]
fn name_and_id_may_coincide_and_unicode_case_folds() {
    let ok = AppConfig {
        connections: vec![conn(Some("prod"), "prod", "h", vec![]), conn(None, "dev", "h", vec![])],
    };
    assert!(validate_config(&ok).is_ok());
    let clash = AppConfig {
        connections: vec![conn(None, "ÄRGER", "h", vec![]), conn(None, "ärger", "h", vec![])],
    };
    assert_eq!(
        validation_text(validate_config(&clash)),
        "duplicate connection name 'ärger'"
    );
}

#[test]
fn security_check_accepts_private_file() {
    let facts = ConfigFileFacts {
        is_file: true,
        unix: Some(UnixFileFacts { mode: 0o100600, uid: 1000, euid: 1000 }),
    };
    assert!(verify_config_security("/c.toml", &facts).is_ok());
    let root_owned = ConfigFileFacts {
        is_file: true,
        unix: Some(UnixFileFacts { mode: 0o100644, uid: 0, euid: 1000 }),
    };
    assert!(verify_config_security("/c.toml", &root_owned).is_ok());
    let elsewhere = ConfigFileFacts { is_file: true, unix: None };
    assert!(verify_config_security("/c.toml", &elsewhere).is_ok());
}

#[test]
fn security_check_rejects_world_writable_file() {
    let facts = ConfigFileFacts {
        is_file: true,
        unix: Some(UnixFileFacts { mode: 0o100666, uid: 1000, euid: 1000 }),
    };
    assert_eq!(
        validation_text(verify_config_security("/tmp/c.toml", &facts)),
        "config '/tmp/c.toml' is writable by group/others; run chmod 600"
    );
}

#[test]
fn security_check_rejects_foreign_owner_and_non_files() {
    let foreign = ConfigFileFacts {
        is_file: true,
        unix: Some(UnixFileFacts { mode: 0o100600, uid: 1001, euid: 1000 }),
    };
    assert_eq!(
        validation_text(verify_config_security("c", &foreign)),
        "config 'c' must be owned by the current user (or root)"
    );
    let dir = ConfigFileFacts { is_file: false, unix: None };
    assert_eq!(
        validation_text(verify_config_security("d", &dir)),
        "config path 'd' must point to a regular file"
    );
}

fn env(
    o: Option<&str>,
    x: Option<&str>,
    h: Option<&str>,
    a: Option<&str>,
    u: Option<&str>,
) -> ConfigEnv {
    let s = |v: Option<&str>| v.map(|t| t.to_string());
    ConfigEnv {
        override_path: s(o),
        xdg_config_home: s(x),
        home: s(h),
        app_data: s(a),
        user_profile: s(u),
    }
}

#[test]
fn config_path_prefers_override_then_platform_dirs() {
    let all = env(Some("/o.toml"), Some("/x"), Some("/h"), Some("A"), Some("U"));
    assert_eq!(config_path_components(&all, false), vec!["/o.toml"]);
    assert_eq!(config_path_components(&all, true), vec!["/o.toml"]);
    let no_override = env(None, Some("/x"), Some("/h"), Some("A"), Some("U"));
    assert_eq!(
        config_path_components(&no_override, false),
        vec!["/x", "ssh-quick-connect", "config.toml"]
    );
    assert_eq!(
        config_path_components(&no_override, true),
        vec!["A", "ssh-quick-connect", "config.toml"]
    );
    let home_only = env(None, None, Some("/h"), None, Some("U"));
    assert_eq!(
        config_path_components(&home_only, false),
        vec!["/h", ".config", "ssh-quick-connect", "config.toml"]
    );
    assert_eq!(
        config_path_components(&home_only, true),
        vec!["U", ".ssh-quick-connect", "config.toml"]
    );
    let nothing = env(None, None, None, None, None);
    assert_eq!(config_path_components(&nothing, false), vec!["config.toml"]);
    assert_eq!(config_path_components(&nothing, true), vec!["config.toml"]);
}

#[test]
fn error_messages_name_their_kind() {
    let e = ConfigError::Validation("bad".to_string());
    assert_eq!(e.to_message(), "Invalid configuration: bad");
    let io = ConfigError::Io(std::io::Error::new(std::io::ErrorKind::NotFound, "gone"));
    assert!(io.to_message().starts_with("I/O error: "));
    assert!(io.to_message().ends_with("gone"));
    let parse_err = toml::from_str::<toml::Value>("a = ").unwrap_err();
    let t = ConfigError::ParseToml(parse_err);
    assert!(t.to_message().starts_with("Invalid TOML format: "));
    assert!(t.to_message().len() > "Invalid TOML format: ".len());
}

#[test]
fn example_config_is_valid() {
    let value: toml::Value = toml::from_str(DEFAULT_CONFIG_TEMPLATE).expect("template parses");
    let text = |v: &toml::Value, key: &str| v.get(key).and_then(|x| x.as_str()).map(|s| s.to_string());
    let connections: Vec<Connection> = value["connections"]
        .as_array()
        .expect("connections array")
        .iter()
        .map(|c| Connection {
            id: text(c, "id"),
            name: text(c, "name").expect("name"),
            host: text(c, "host").expect("host"),
            user: text(c, "user"),
            port: c.get("port").and_then(|p| p.as_integer()).map(|p| p as u16),
            identity_file: text(c, "identity_file"),
            options: c
                .get("options")
                .and_then(|o| o.as_array())
                .map(|o| o.iter().map(|x| x.as_str().expect("text").to_string()).collect())
                .unwrap_or_default(),
        })
        .collect();
    assert_eq!(connections.len(), 2);
    assert_eq!(connections[0].port, Some(22));
    assert_eq!(connections[1].options, vec!["ServerAliveInterval=30", "ServerAliveCountMax=3"]);
    assert!(validate_config(&AppConfig { connections }).is_ok());
}

#[test]
fn outside_errors_convert_into_config_errors() {
    let io = ConfigError::from(std::io::Error::new(std::io::ErrorKind::Other, "x"));
    assert!(matches!(io, ConfigError::Io(_)));
    let parse_err = toml::from_str::<toml::Value>("= 1").unwrap_err();
    assert!(matches!(ConfigError::from(parse_err), ConfigError::ParseToml(_)));
}

#[test]
fn messages_keep_their_cause() {
    assert_eq!(
        ssh_quick_connect::config::message_with_cause("I/O error: ", "No such file"),
        "I/O error: No such file"
    );
    let io = ConfigError::Io(std::io::Error::new(std::io::ErrorKind::NotFound, "gone away"));
    assert_eq!(io.to_message(), "I/O error: gone away");
}

#[test]
fn validation_with_given_lowered_texts() {
    let config = AppConfig {
        connections: vec![conn(Some("A"), "N1", "h", vec![]), conn(Some("B"), "N2", "h", vec![])],
    };
    let ids = vec![Some("a".to_string()), Some("b".to_string())];
    let names = vec!["n1".to_string(), "n2".to_string()];
    assert!(ssh_quick_connect::config::validate_lowered(&config, &ids, &names).is_ok());
    let clashing_names = vec!["n".to_string(), "n".to_string()];
    assert_eq!(
        validation_text(ssh_quick_connect::config::validate_lowered(&config, &ids, &clashing_names)),
        "duplicate connection name 'N2'"
    );
    let clashing_ids = vec![Some("x".to_string()), Some("x".to_string())];
    assert_eq!(
        validation_text(ssh_quick_connect::config::validate_lowered(&config, &clashing_ids, &names)),
        "duplicate connection id 'B'"
    );
}

#[test]
fn acceptance_ignores_connection_order() {
    let a = conn(Some("a"), "alpha", "h", vec![]);
    let b = conn(Some("b"), "beta", "h", vec!["X=1"]);
    let c = conn(None, "ALPHA", "h", vec![]);
    let ok1 = AppConfig { connections: vec![a.clone(), b.clone()] };
    let ok2 = AppConfig { connections: vec![b.clone(), a.clone()] };
    assert!(validate_config(&ok1).is_ok() && validate_config(&ok2).is_ok());
    let bad1 = AppConfig { connections: vec![a.clone(), b.clone(), c.clone()] };
    let bad2 = AppConfig { connections: vec![c, b, a] };
    assert!(validate_config(&bad1).is_err() && validate_config(&bad2).is_err());
}
