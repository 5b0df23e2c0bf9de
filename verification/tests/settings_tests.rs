use worksteal::settings::{parse_config, validate_config, ConfigError, ServerConfig};

#[test]
fn a_complete_settings_text_parses() {
    let content = "\n        host = localhost\n        port = 8080\n        max_connections = 100\n        timeout = 30\n    ";
    let config = parse_config(content).expect("a complete text parses");
    assert_eq!(config.host, "localhost");
    assert_eq!(config.port, 8080);
    assert_eq!(config.max_connections, 100);
    assert_eq!(config.timeout_seconds, 30);
}

#[test]
fn missing_fields_are_reported_in_order() {
    match parse_config("host = localhost\nport = 8080") {
        Err(ConfigError::MissingField(f)) => assert_eq!(f, "max_connections"),
        other => panic!("expected a missing field, found {:?}", other),
    }
    match parse_config("") {
        Err(ConfigError::MissingField(f)) => assert_eq!(f, "host"),
        other => panic!("expected a missing field, found {:?}", other),
    }
    match parse_config("host=h\nmax_connections=2\ntimeout=3") {
        Err(ConfigError::MissingField(f)) => assert_eq!(f, "port"),
        other => panic!("expected a missing field, found {:?}", other),
    }
}

#[test]
fn comments_blanks_and_unknown_keys_are_skipped() {
    let content = "# a comment\n\nhost=h\nignored_key=5\nport=1\nmax_connections=2\ntimeout=3";
    let config = parse_config(content).unwrap();
    assert_eq!(config.host, "h");
    assert_eq!(config.port, 1);
}

#[test]
fn a_line_without_equals_is_refused_with_the_line() {
    match parse_config("host=h\n  no separator here  \nport=1") {
        Err(ConfigError::InvalidFormat(m)) => {
            assert_eq!(m, "Expected key=value, got: no separator here");
        },
        other => panic!("expected an invalid format, found {:?}", other),
    }
}

#[test]
fn bad_numbers_are_refused_with_the_value() {
    match parse_config("port = abc") {
        Err(ConfigError::InvalidValue { field, message }) => {
            assert_eq!(field, "port");
            assert_eq!(message, "'abc' is not a valid port number");
        },
        other => panic!("expected an invalid value, found {:?}", other),
    }
    match parse_config("port = 65536") {
        Err(ConfigError::InvalidValue { field, .. }) => assert_eq!(field, "port"),
        other => panic!("expected an invalid value, found {:?}", other),
    }
    match parse_config("max_connections = 99999999999999999999") {
        Err(ConfigError::InvalidValue { field, message }) => {
            assert_eq!(field, "max_connections");
            assert_eq!(message, "'99999999999999999999' is not a valid number");
        },
        other => panic!("expected an invalid value, found {:?}", other),
    }
}

#[test]
fn bounds_are_inclusive_and_later_lines_win() {
    let config =
        parse_config("host=a\nhost=b\nport=65535\nmax_connections=4294967295\ntimeout=1").unwrap();
    assert_eq!(config.host, "b");
    assert_eq!(config.port, 65535);
    assert_eq!(config.max_connections, 4294967295);
}

#[test]
fn validation_names_the_first_zero() {
    let good = ServerConfig { host: "h".to_string(), port: 1, max_connections: 1, timeout_seconds: 1 };
    assert!(validate_config(&good).is_ok());
    let zero_port = ServerConfig { port: 0, ..good_copy() };
    assert_eq!(validate_config(&zero_port), Err("Port cannot be zero"));
    let zero_conns = ServerConfig { max_connections: 0, ..good_copy() };
    assert_eq!(
        validate_config(&zero_conns),
        Err("max_connections must be greater than zero")
    );
    let zero_timeout = ServerConfig { timeout_seconds: 0, ..good_copy() };
    assert_eq!(
        validate_config(&zero_timeout),
        Err("timeout must be greater than zero")
    );
}

fn good_copy() -> ServerConfig {
    ServerConfig { host: "h".to_string(), port: 1, max_connections: 1, timeout_seconds: 1 }
}
