use matching_engine::config::{Config, ConfigError, DEFAULT_MAX_CLIENTS, DEFAULT_PORT, MAX_BIND_ATTEMPTS};

fn args(list: &[&str]) -> Vec<String> {
    list.iter().map(|a| a.to_string()).collect()
}

fn text(s: &str) -> Option<String> {
    Some(s.to_string())
}

#[test]
fn defaults_where_nothing_is_set() {
    let config = Config::from_env_values(None, None, None).unwrap();
    assert_eq!(config.bind_addr, "0.0.0.0");
    assert_eq!(config.port, 9000);
    assert_eq!(config.max_clients, 1024);
    assert_eq!(config.socket_addr_string(), "0.0.0.0:9000");
    assert_eq!(DEFAULT_PORT, 9000);
    assert_eq!(DEFAULT_MAX_CLIENTS, 1024);
    let other = Config::new();
    assert_eq!(other.socket_addr_string(), Config::default().socket_addr_string());
    assert_eq!(other.max_clients, 1024);
}

#[test]
fn environment_values_are_read() {
    let config = Config::from_env_values(text("127.0.0.1"), text("7001"), text("5")).unwrap();
    assert_eq!(config.bind_addr, "127.0.0.1");
    assert_eq!(config.port, 7001);
    assert_eq!(config.max_clients, 5);
    assert_eq!(config.socket_addr_string(), "127.0.0.1:7001");
    let config = Config::from_env_values(text(""), text("+65535"), text("0")).unwrap();
    assert_eq!(config.socket_addr_string(), ":65535");
    assert_eq!(config.max_clients, 0);
    let config = Config::from_env_values(None, text("0"), text("18446744073709551615")).unwrap();
    assert_eq!(config.port, 0);
    assert_eq!(config.max_clients, usize::MAX);
}

#[test]
fn bad_environment_values_are_named() {
    for bad in ["65536", "-1", "", " 80", "80 ", "http", "8o"] {
        assert_eq!(
            Config::from_env_values(None, text(bad), None).unwrap_err(),
            ConfigError::InvalidPort(bad.to_string())
        );
    }
    for bad in ["18446744073709551616", "many", "", "1.5"] {
        assert_eq!(
            Config::from_env_values(None, None, text(bad)).unwrap_err(),
            ConfigError::InvalidMaxClients(bad.to_string())
        );
    }
    // The port is judged before the number of clients.
    assert_eq!(
        Config::from_env_values(None, text("x"), text("y")).unwrap_err(),
        ConfigError::InvalidPort("x".to_string())
    );
}

#[test]
fn addr_argument_overrides_address_and_port() {
    let config = Config::new().apply_args(&args(&["--addr", "127.0.0.1:7001"])).unwrap();
    assert_eq!(config.socket_addr_string(), "127.0.0.1:7001");
    assert_eq!(config.max_clients, 1024);
    let config = Config::new()
        .apply_args(&args(&["-v", "--addr", "a:1", "--other", "x", "--addr", "b:2", "tail"]))
        .unwrap();
    assert_eq!(config.bind_addr, "b");
    assert_eq!(config.port, 2);
    let config = Config::new().apply_args(&args(&[])).unwrap();
    assert_eq!(config.socket_addr_string(), "0.0.0.0:9000");
    let config = Config::new().apply_args(&args(&["--address", "a:1", "--addr=a:1"])).unwrap();
    assert_eq!(config.socket_addr_string(), "0.0.0.0:9000");
    // The value of --addr is no argument of its own.
    let config = Config::new().apply_args(&args(&["--addr", ":5", "--addr", "--addr:6"])).unwrap();
    assert_eq!(config.socket_addr_string(), "--addr:6");
}

#[test]
fn bad_addr_arguments_are_named() {
    assert_eq!(
        Config::new().apply_args(&args(&["--addr"])).unwrap_err(),
        ConfigError::MissingAddrValue
    );
    assert_eq!(
        Config::new().apply_args(&args(&["--addr", "a:1", "--addr"])).unwrap_err(),
        ConfigError::MissingAddrValue
    );
    for bad in ["localhost", "", "a:b:c", "::1", "[::1]:80"] {
        assert_eq!(
            Config::new().apply_addr(bad).unwrap_err(),
            ConfigError::InvalidAddr(bad.to_string()),
            "{}",
            bad
        );
    }
    for bad in ["host:", "host:http", "host:65536", "host: 80", "host:-1"] {
        assert_eq!(
            Config::new().apply_args(&args(&["--addr", bad])).unwrap_err(),
            ConfigError::InvalidAddrPort(bad.to_string()),
            "{}",
            bad
        );
    }
}

#[test]
fn ports_are_bumped_twice_at_most() {
    assert_eq!(MAX_BIND_ATTEMPTS, 3);
    assert_eq!(Config::next_port(9000, 1), Some(9001));
    assert_eq!(Config::next_port(9001, 2), Some(9002));
    assert_eq!(Config::next_port(9002, 3), None);
    assert_eq!(Config::next_port(9002, 200), None);
    assert_eq!(Config::next_port(65534, 1), Some(65535));
    assert_eq!(Config::next_port(65535, 1), None);
}
