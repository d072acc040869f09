use dumpy::auth::Authenticator;
use dumpy::config::{config_set, get_spool_config, passwd, spool_add, spool_names, spool_remove,
    Config, ConfigError, PasswdError};

fn empty_config() -> Config {
    Config { port: Some(7000), tls: Default::default(), spools: Vec::new(), users: Vec::new() }
}

#[test]
fn config_set_values() {
    let mut config = empty_config();
    assert!(config_set(&mut config, "port".to_string(), "8080".to_string()).is_ok());
    assert_eq!(config.port, Some(8080));

    assert!(config_set(&mut config, "tls.enabled".to_string(), "true".to_string()).is_ok());
    assert!(config.tls.enabled);

    assert!(config_set(&mut config, "tls.cert".to_string(), "my.pem".to_string()).is_ok());
    assert_eq!(config.tls.certificate, "my.pem");

    assert!(config_set(&mut config, "tls.key".to_string(), "my.key".to_string()).is_ok());
    assert_eq!(config.tls.key, "my.key");
}

#[test]
fn config_set_rejects() {
    let mut config = empty_config();
    match config_set(&mut config, "port".to_string(), "99999".to_string()) {
        Err(ConfigError::InvalidValue) => {}
        _ => panic!("expected an invalid value"),
    }
    assert_eq!(config.port, Some(7000));
    match config_set(&mut config, "tls.enabled".to_string(), "maybe".to_string()) {
        Err(ConfigError::InvalidValue) => {}
        _ => panic!("expected an invalid value"),
    }
    match config_set(&mut config, "colour".to_string(), "blue".to_string()) {
        Err(ConfigError::UnknownKey) => {}
        _ => panic!("expected an unknown key"),
    }
}

#[test]
fn spool_registry() {
    let mut config = empty_config();
    spool_add(&mut config, "main".to_string(), "/spool/main".to_string(), None);
    spool_add(
        &mut config,
        "edge".to_string(),
        "/spool/edge".to_string(),
        Some("log".to_string()),
    );
    assert_eq!(spool_names(&config), vec!["main".to_string(), "edge".to_string()]);

    let sc = get_spool_config(&config, "edge").unwrap();
    assert_eq!(sc.directory, "/spool/edge");
    assert_eq!(sc.prefix.as_deref(), Some("log"));
    assert!(get_spool_config(&config, "nope").is_none());

    assert!(spool_remove(&mut config, "main"));
    assert_eq!(spool_names(&config), vec!["edge".to_string()]);
    assert!(!spool_remove(&mut config, "main"));
}

#[test]
fn passwd_validation() {
    let mut config = empty_config();
    match passwd(&mut config, &"".to_string(), &"secret".to_string()) {
        Err(PasswdError::EmptyUsername) => {}
        _ => panic!("expected an empty-username error"),
    }
    match passwd(&mut config, &"user".to_string(), &"".to_string()) {
        Err(PasswdError::EmptyPassword) => {}
        _ => panic!("expected an empty-password error"),
    }
    assert!(config.users.is_empty());
}

#[test]
fn passwd_and_authenticate_round_trip() {
    let mut config = empty_config();
    let existed = passwd(&mut config, &"user".to_string(), &"pass".to_string()).unwrap();
    assert!(!existed);
    assert_eq!(config.users.len(), 1);

    let auth = Authenticator { users: config.users.clone() };
    // "dXNlcjpwYXNz" is base64 for "user:pass"
    let good = "Basic dXNlcjpwYXNz".to_string();
    assert!(auth.authenticate(Some(&good)));
    // "dXNlcjp3cm9uZw==" is base64 for "user:wrong"
    let bad = "Basic dXNlcjp3cm9uZw==".to_string();
    assert!(!auth.authenticate(Some(&bad)));
    assert!(!auth.authenticate(None));

    // storing a new password for the same user replaces the entry
    let existed = passwd(&mut config, &"user".to_string(), &"other".to_string()).unwrap();
    assert!(existed);
    assert_eq!(config.users.len(), 1);
}

#[test]
fn authenticate_open_when_no_users() {
    let auth = Authenticator { users: Vec::new() };
    assert!(auth.authenticate(None));
    let junk = "Basic ???".to_string();
    assert!(auth.authenticate(Some(&junk)));
}

#[test]
fn decode_credentials() {
    let r = Authenticator::decode_username_password("Basic dXNlcjpwYXNz").unwrap();
    assert_eq!(r.0, "user");
    assert_eq!(r.1, "pass");
    // a password may itself contain colons: "dXNlcjphOmI=" is "user:a:b"
    let r = Authenticator::decode_username_password("Basic dXNlcjphOmI=").unwrap();
    assert_eq!(r.0, "user");
    assert_eq!(r.1, "a:b");
    assert!(Authenticator::decode_username_password("Bearer xyz").is_none());
    assert!(Authenticator::decode_username_password("Basic !!!").is_none());
    // "bm9jb2xvbg==" is "nocolon"
    assert!(Authenticator::decode_username_password("Basic bm9jb2xvbg==").is_none());
    assert!(Authenticator::decode_username_password("Basic").is_none());
}
