//! Configuration rules: interpolation, server resolution, flag-name
//! conventions, and error messages.

use relay::config::{Config, ConfigStore, ServerConfig, TransportConfig, interpolate_env,
    interpolate_env_map, parse_env_var, resolve_server_name};
use relay::error::RelayError;
use relay::flags::{FlagType, camel_to_kebab, kebab_to_camel};

#[test]
fn test_interpolate_env() {
    let env = vec![("TEST_VAR".to_string(), "test_value".to_string())];

    assert_eq!(interpolate_env("${env:TEST_VAR}", &env), "test_value");
    assert_eq!(
        interpolate_env("prefix_${env:TEST_VAR}_suffix", &env),
        "prefix_test_value_suffix"
    );
    assert_eq!(interpolate_env("no_interpolation", &env), "no_interpolation");
    assert_eq!(interpolate_env("${env:NONEXISTENT}", &env), "${env:NONEXISTENT}");
}

#[test]
fn test_interpolate_env_map() {
    let vars = vec![
        ("MAP_TEST_VAR".to_string(), "map_value".to_string()),
        ("MAP_TEST_VAR2".to_string(), "another_value".to_string()),
    ];

    let input = vec![
        ("key1".to_string(), "${env:MAP_TEST_VAR}".to_string()),
        ("key2".to_string(), "prefix_${env:MAP_TEST_VAR2}_suffix".to_string()),
        ("key3".to_string(), "no_interpolation".to_string()),
        ("key4".to_string(), "${env:NONEXISTENT_MAP_VAR}".to_string()),
    ];

    let result = interpolate_env_map(&input, &vars);
    let get = |k: &str| -> String {
        result.iter().find(|(key, _)| key == k).map(|(_, v)| v.clone()).unwrap()
    };

    assert_eq!(get("key1"), "map_value");
    assert_eq!(get("key2"), "prefix_another_value_suffix");
    assert_eq!(get("key3"), "no_interpolation");
    assert_eq!(get("key4"), "${env:NONEXISTENT_MAP_VAR}");
}

#[test]
fn test_resolve_server_name_rules() {
    let mut config = Config::new();
    assert!(matches!(
        resolve_server_name(&config, None),
        Err(RelayError::NoDefaultServer)
    ));
    assert_eq!(resolve_server_name(&config, Some("x".to_string())).unwrap(), "x");

    config.default_server = Some("d".to_string());
    assert_eq!(resolve_server_name(&config, None).unwrap(), "d");
    assert_eq!(resolve_server_name(&config, Some("y".to_string())).unwrap(), "y");
}

#[test]
fn test_parse_env_var_splits_at_first_equals() {
    assert_eq!(
        parse_env_var("KEY=a=b").unwrap(),
        ("KEY".to_string(), "a=b".to_string())
    );
    assert_eq!(parse_env_var("K=").unwrap(), ("K".to_string(), "".to_string()));
    assert!(parse_env_var("NOEQ").is_err());
}

#[test]
fn test_camel_to_kebab() {
    assert_eq!(camel_to_kebab("libraryName"), "library-name");
    assert_eq!(camel_to_kebab("Name"), "name");
    assert_eq!(camel_to_kebab("already"), "already");
    assert_eq!(camel_to_kebab("aBC"), "a-b-c");
}

#[test]
fn test_kebab_to_camel() {
    assert_eq!(kebab_to_camel("library-name"), "libraryName");
    assert_eq!(kebab_to_camel("one"), "one");
    assert_eq!(kebab_to_camel("a-b-c"), "aBC");
}

#[test]
fn test_flag_type_enum_values() {
    let ft = FlagType::Enum(vec!["low".to_string(), "high".to_string()]);
    match ft {
        FlagType::Enum(vals) => assert_eq!(vals, vec!["low", "high"]),
        _ => panic!("expected the enum flag type"),
    }
}

#[test]
fn test_config_store_path() {
    let store = ConfigStore::with_path("/tmp/relay-config.yaml".to_string());
    assert_eq!(store.path().as_str(), "/tmp/relay-config.yaml");
}

#[test]
fn test_server_config_shapes() {
    let mut config = Config::new();
    config.servers.push((
        "test".to_string(),
        ServerConfig {
            transport: TransportConfig::Http { url: "http://localhost:3000".to_string() },
            env: vec![],
        },
    ));
    match &config.servers[0].1.transport {
        TransportConfig::Http { url } => assert_eq!(url, "http://localhost:3000"),
        _ => panic!("expected the http transport"),
    }
}

#[test]
fn test_error_messages() {
    assert_eq!(
        RelayError::ServerNotFound("x".to_string()).message(),
        "Server 'x' not found"
    );
    assert_eq!(
        RelayError::ToolNotFound("t".to_string(), "s".to_string()).message(),
        "Tool 't' not found on server 's'"
    );
    assert_eq!(
        RelayError::NoDefaultServer.message(),
        "No default server configured. Use `relay add` to add a server."
    );
    assert_eq!(
        RelayError::McpError { code: -32601, message: "Method not found".to_string() }.message(),
        "MCP error: Method not found (code -32601)"
    );
    assert_eq!(
        RelayError::MissingRequiredFlag("level".to_string()).message(),
        "Missing required flag: --level"
    );
}
