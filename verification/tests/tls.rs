use multi_desktop::tls::{ca_verdict, client_roots, load_client_config, server_certificates, server_private_key, TlsError};

#[test]
fn empty_pem_files_are_refused() {
    assert!(matches!(server_certificates(b""), Err(TlsError::EmptyCertificates)));
    assert!(matches!(server_private_key(b"no key here\n"), Err(TlsError::EmptyPrivateKey)));
    assert!(matches!(load_client_config(b""), Err(TlsError::EmptyCa)));
    assert_eq!(TlsError::EmptyCa.message(), "TLS CA certificate file is empty");
}

#[test]
fn malformed_certificates_are_not_trusted() {
    let pem = b"-----BEGIN CERTIFICATE-----\nAAAA\n-----END CERTIFICATE-----\n";
    assert_eq!(server_certificates(pem).unwrap().len(), 1);
    assert!(matches!(load_client_config(pem), Err(TlsError::InvalidCa)));
    assert!(matches!(ca_verdict(0, 0), Some(TlsError::InvalidCa)));
    assert!(matches!(ca_verdict(2, 1), Some(TlsError::InvalidCa)));
    assert!(ca_verdict(1, 0).is_none());
}

#[test]
fn client_trusts_nothing_from_an_unparsable_ca() {
    let pem = b"-----BEGIN CERTIFICATE-----\nAAAA\n-----END CERTIFICATE-----\n-----BEGIN CERTIFICATE-----\nAAAB\n-----END CERTIFICATE-----\n";
    assert_eq!(server_certificates(pem).unwrap().len(), 2);
    assert!(matches!(load_client_config(pem), Err(TlsError::InvalidCa)));
    assert!(matches!(load_client_config(b"-----BEGIN CERTIFICATE-----\n!!\n-----END CERTIFICATE-----\n"), Err(TlsError::Pem(_))));
}

#[test]
fn certificate_chain_keeps_each_certificate_in_order() {
    let pem = b"-----BEGIN CERTIFICATE-----\nAAAA\n-----END CERTIFICATE-----\n-----BEGIN CERTIFICATE-----\nAAAB\n-----END CERTIFICATE-----\n";
    assert_eq!(server_certificates(pem).unwrap(), vec![vec![0u8, 0, 0], vec![0u8, 0, 1]]);
    assert!(matches!(client_roots(pem), Err(TlsError::InvalidCa)));
    assert!(matches!(client_roots(b""), Err(TlsError::EmptyCa)));
}
