use multi_desktop::config::{valid_identifier, Config, ConfigError};

#[test]
fn loads_valid_configuration() {
    let contents = "listen=127.0.0.1:47990\ntoken=01234567890123456789012345678901\n";
    assert_eq!(Config::listen_entry(contents).as_deref(), Some("127.0.0.1:47990"));
    let config = Config::parse(contents, Some(true)).unwrap();
    assert_eq!(config.user_prefix, "mdesk-");
}

#[test]
fn rejects_unknown_keys() {
    let contents = "listen=not-an-address\ntoken=01234567890123456789012345678901\nextra=value\n";
    let error = Config::parse(contents, None).unwrap_err();
    assert!(error.message().contains("unknown configuration key"));
}

#[test]
fn lan_listeners_need_tls_material() {
    let base = "listen=192.168.1.10:47990\ntoken=01234567890123456789012345678901\n";
    assert!(matches!(Config::parse(base, Some(false)), Err(ConfigError::TlsRequired)));
    let with_tls = format!("{base}tls_certificate=/etc/c.pem\ntls_private_key=/etc/k.pem\n");
    let config = Config::parse(&with_tls, Some(false)).unwrap();
    assert_eq!(config.tls_certificate.as_deref(), Some("/etc/c.pem"));
    assert!(matches!(Config::parse("token=short\nlisten=x\n", Some(true)), Err(ConfigError::ShortToken)));
    assert!(matches!(Config::parse(base, None), Err(ConfigError::InvalidListen)));
    assert!(matches!(Config::parse("# comment\nnot a pair\n", None), Err(ConfigError::InvalidLine(_))));
    assert!(valid_identifier("abc-1") && !valid_identifier("a_b") && !valid_identifier(""));
}
