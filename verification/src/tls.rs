//! TLS material: the certificates and key of the daemon, and the trust
//! anchors of the client, read from PEM text and built into rustls
//! configurations.
use rustls::pki_types::{CertificateDer, PrivateKeyDer, ServerName};
use rustls::{ClientConfig, RootCertStore, ServerConfig};
use std::sync::Arc;
use vstd::prelude::*;

verus! {

#[verifier::external_type_specification]
#[verifier::external_body]
pub struct ExCertificateDer<'a>(CertificateDer<'a>);

#[verifier::external_type_specification]
#[verifier::external_body]
pub struct ExPrivateKeyDer<'a>(PrivateKeyDer<'a>);

#[verifier::external_type_specification]
#[verifier::external_body]
pub struct ExServerName<'a>(ServerName<'a>);

#[verifier::external_type_specification]
#[verifier::external_body]
pub struct ExRootCertStore(RootCertStore);

#[verifier::external_type_specification]
#[verifier::external_body]
pub struct ExServerConfig(ServerConfig);

#[verifier::external_type_specification]
#[verifier::external_body]
pub struct ExClientConfig(ClientConfig);

/// The DER bytes of each certificate in a PEM text, in order, or the
/// message of the error that stopped reading it.
pub uninterp spec fn pem_certificates(pem: Seq<u8>) -> Result<Seq<Seq<u8>>, Seq<char>>;

/// Whether a PEM text holds a private key, or the message of the error that
/// stopped reading it.
pub uninterp spec fn pem_has_private_key(pem: Seq<u8>) -> Result<bool, Seq<char>>;

/// The trust anchors that rustls takes from the DER certificates `ders`, in
/// order, each as its subject, subject public key info and name constraints
/// (DER bytes), and how many of `ders` it ignores as unparsable.
pub uninterp spec fn parsable_anchors(ders: Seq<Seq<u8>>) -> (Seq<(Seq<u8>, Seq<u8>, Option<Seq<u8>>)>, nat);

/// The roots a `RootCertStore` holds, in order, each as its subject, subject
/// public key info and name constraints (DER bytes).
pub uninterp spec fn store_anchors(store: RootCertStore) -> Seq<(Seq<u8>, Seq<u8>, Option<Seq<u8>>)>;

/// Calls `rustls_pemfile::certs` on `pem` and collects the DER bytes of its
/// items, stopping at the first error. Claimed: the outcome depends on `pem`
/// alone, and is named.
#[verifier::external_body]
fn read_pem_certificates(pem: &[u8]) -> (r: Result<Vec<Vec<u8>>, String>)
    ensures
        match r {
            Ok(v) => pem_certificates(pem@) == Ok::<Seq<Seq<u8>>, Seq<char>>(v.deep_view()),
            Err(e) => pem_certificates(pem@) == Err::<Seq<Seq<u8>>, Seq<char>>(e@),
        },
{
    let mut reader = pem;
    rustls_pemfile::certs(&mut reader).map(|item| item.map(|der| der.to_vec())).collect::<Result<Vec<_>, _>>().map_err(|error| error.to_string())
}

/// Calls `rustls_pemfile::private_key` on `pem`: the first private key
/// section of any kind. Claimed: the outcome depends on `pem` alone; the key
/// is left opaque, and only whether there is one, or the error's message, is
/// named.
#[verifier::external_body]
fn read_pem_private_key(pem: &[u8]) -> (r: Result<Option<PrivateKeyDer<'static>>, String>)
    ensures
        match r {
            Ok(k) => pem_has_private_key(pem@) == Ok::<bool, Seq<char>>(k is Some),
            Err(e) => pem_has_private_key(pem@) == Err::<bool, Seq<char>>(e@),
        },
{
    let mut reader = pem;
    rustls_pemfile::private_key(&mut reader).map_err(|error| error.to_string())
}

/// Calls `ServerConfig::builder().with_no_client_auth().with_single_cert`
/// with the DER certificates `ders`, each wrapped in a `CertificateDer`, in
/// order, and `key`. Nothing is claimed of the outcome: it depends on the
/// process's crypto provider and on the certificates and key matching, which
/// is left unsaid.
#[verifier::external_body]
fn single_cert_server_config(ders: Vec<Vec<u8>>, key: PrivateKeyDer<'static>) -> (r: Result<Arc<ServerConfig>, String>)
{
    let certificates: Vec<CertificateDer<'static>> = ders.into_iter().map(CertificateDer::from).collect();
    ServerConfig::builder().with_no_client_auth().with_single_cert(certificates, key).map(Arc::new).map_err(|error| error.to_string())
}

/// Calls `RootCertStore::add_parsable_certificates` on an empty store with
/// the DER certificates `ders`. Claimed, as its source shows: the store then
/// holds the anchors taken from `ders`, in order; the counts of added and
/// ignored certificates are the number of those anchors and of the rest, and
/// each certificate is counted once.
#[verifier::external_body]
fn parsable_roots(ders: Vec<Vec<u8>>) -> (r: (RootCertStore, usize, usize))
    ensures
        store_anchors(r.0) == parsable_anchors(ders.deep_view()).0,
        r.1 == parsable_anchors(ders.deep_view()).0.len(),
        r.2 == parsable_anchors(ders.deep_view()).1,
        r.1 + r.2 == ders@.len(),
{
    let mut roots = RootCertStore::empty();
    let (added, ignored) = roots.add_parsable_certificates(ders.into_iter().map(CertificateDer::from));
    (roots, added, ignored)
}

/// Calls `ClientConfig::builder().with_root_certificates(roots).with_no_client_auth()`,
/// handing `roots` on unchanged. The configuration is opaque: nothing is
/// claimed of it.
#[verifier::external_body]
fn client_config_with_roots(roots: RootCertStore) -> (r: Arc<ClientConfig>)
{
    Arc::new(ClientConfig::builder().with_root_certificates(roots).with_no_client_auth())
}

/// Why TLS material was refused.
#[derive(Clone, Debug)]
pub enum TlsError {
    /// The PEM text could not be read; the reader's message.
    Pem(String),
    /// The certificate file holds no certificate.
    EmptyCertificates,
    /// The key file holds no private key.
    EmptyPrivateKey,
    /// rustls refused the certificates and key; its message.
    Rejected(String),
    /// The CA file holds no certificate.
    EmptyCa,
    /// The CA file holds a certificate that is not a usable trust anchor.
    InvalidCa,
}

pub enum TlsErrorView {
    Pem(Seq<char>),
    EmptyCertificates,
    EmptyPrivateKey,
    Rejected(Seq<char>),
    EmptyCa,
    InvalidCa,
}

impl View for TlsError {
    type V = TlsErrorView;

    open spec fn view(&self) -> TlsErrorView {
        match self {
            TlsError::Pem(m) => TlsErrorView::Pem(m@),
            TlsError::EmptyCertificates => TlsErrorView::EmptyCertificates,
            TlsError::EmptyPrivateKey => TlsErrorView::EmptyPrivateKey,
            TlsError::Rejected(m) => TlsErrorView::Rejected(m@),
            TlsError::EmptyCa => TlsErrorView::EmptyCa,
            TlsError::InvalidCa => TlsErrorView::InvalidCa,
        }
    }
}

/// The text of each refusal.
pub open spec fn tls_error_text(e: TlsErrorView) -> Seq<char> {
    match e {
        TlsErrorView::Pem(m) => m,
        TlsErrorView::EmptyCertificates => "TLS certificate file is empty"@,
        TlsErrorView::EmptyPrivateKey => "TLS private key file is empty"@,
        TlsErrorView::Rejected(m) => m,
        TlsErrorView::EmptyCa => "TLS CA certificate file is empty"@,
        TlsErrorView::InvalidCa => "TLS CA file contains an invalid certificate"@,
    }
}

impl TlsError {
    /// The text of the refusal.
    pub fn message(&self) -> (m: String)
        ensures
            m@ == tls_error_text(self@),
    {
        match self {
            TlsError::Pem(m) => m.clone(),
            TlsError::EmptyCertificates => "TLS certificate file is empty".to_string(),
            TlsError::EmptyPrivateKey => "TLS private key file is empty".to_string(),
            TlsError::Rejected(m) => m.clone(),
            TlsError::EmptyCa => "TLS CA certificate file is empty".to_string(),
            TlsError::InvalidCa => "TLS CA file contains an invalid certificate".to_string(),
        }
    }
}

/// The daemon's certificate chain from the PEM text of its certificate file:
/// the DER bytes of each certificate, in order.
pub fn server_certificates(pem: &[u8]) -> (r: Result<Vec<Vec<u8>>, TlsError>)
    ensures
        match pem_certificates(pem@) {
            Err(m) => r matches Err(e) && e@ == TlsErrorView::Pem(m),
            Ok(ders) => if ders.len() == 0 {
                r matches Err(e) && e@ == TlsErrorView::EmptyCertificates
            } else {
                r matches Ok(v) && v.deep_view() == ders
            },
        },
{
    match read_pem_certificates(pem) {
        Err(m) => Err(TlsError::Pem(m)),
        Ok(v) => {
            if v.len() == 0 {
                Err(TlsError::EmptyCertificates)
            } else {
                Ok(v)
            }
        },
    }
}

/// The daemon's private key from the PEM text of its key file.
pub fn server_private_key(pem: &[u8]) -> (r: Result<PrivateKeyDer<'static>, TlsError>)
    ensures
        match pem_has_private_key(pem@) {
            Err(m) => r matches Err(e) && e@ == TlsErrorView::Pem(m),
            Ok(false) => r matches Err(e) && e@ == TlsErrorView::EmptyPrivateKey,
            Ok(true) => r is Ok,
        },
{
    match read_pem_private_key(pem) {
        Err(m) => Err(TlsError::Pem(m)),
        Ok(None) => Err(TlsError::EmptyPrivateKey),
        Ok(Some(key)) => Ok(key),
    }
}

/// The daemon's TLS configuration: no client certificates, the given chain
/// and key. Refused with rustls's message when they do not fit together.
pub fn load_server_config(certificates: Vec<Vec<u8>>, key: PrivateKeyDer<'static>) -> (r: Result<Arc<ServerConfig>, TlsError>)
    ensures
        r matches Err(e) ==> e is Rejected,
{
    match single_cert_server_config(certificates, key) {
        Ok(config) => Ok(config),
        Err(m) => Err(TlsError::Rejected(m)),
    }
}

/// The trust anchors of the client: those rustls takes from the
/// certificates in the PEM text of its CA file. Refused when the file holds
/// none, or when any of them is not a usable trust anchor.
pub fn client_roots(ca_pem: &[u8]) -> (r: Result<RootCertStore, TlsError>)
    ensures
        match pem_certificates(ca_pem@) {
            Err(m) => r matches Err(e) && e@ == TlsErrorView::Pem(m),
            Ok(ders) => if ders.len() == 0 {
                r matches Err(e) && e@ == TlsErrorView::EmptyCa
            } else {
                &&& r is Ok <==> (parsable_anchors(ders).0.len() > 0 && parsable_anchors(ders).1 == 0)
                &&& r matches Ok(store) ==> store_anchors(store) == parsable_anchors(ders).0
                &&& r matches Err(e) ==> e@ == TlsErrorView::InvalidCa
            },
        },
{
    let ders = match read_pem_certificates(ca_pem) {
        Err(m) => return Err(TlsError::Pem(m)),
        Ok(v) => v,
    };
    if ders.len() == 0 {
        return Err(TlsError::EmptyCa);
    }
    let (roots, added, ignored) = parsable_roots(ders);
    if let Some(verdict) = ca_verdict(added, ignored) {
        return Err(verdict);
    }
    Ok(roots)
}

/// The client's TLS configuration, trusting only the anchors of
/// [`client_roots`]. Refused when the file holds no certificate, or when any
/// of them is not a usable trust anchor.
pub fn load_client_config(ca_pem: &[u8]) -> (r: Result<Arc<ClientConfig>, TlsError>)
    ensures
        match pem_certificates(ca_pem@) {
            Err(m) => r matches Err(e) && e@ == TlsErrorView::Pem(m),
            Ok(ders) => if ders.len() == 0 {
                r matches Err(e) && e@ == TlsErrorView::EmptyCa
            } else {
                &&& r is Ok <==> (parsable_anchors(ders).0.len() > 0 && parsable_anchors(ders).1 == 0)
                &&& r matches Err(e) ==> e@ == TlsErrorView::InvalidCa
            },
        },
{
    let roots = client_roots(ca_pem)?;
    Ok(client_config_with_roots(roots))
}

/// Judges the trust anchors added from a CA file: refused unless at least
/// one was added and none was ignored.
pub fn ca_verdict(added: usize, ignored: usize) -> (r: Option<TlsError>)
    ensures
        (added == 0 || ignored > 0) ==> (r matches Some(e) && e@ == TlsErrorView::InvalidCa),
        !(added == 0 || ignored > 0) ==> r is None,
{
    if added == 0 || ignored > 0 {
        Some(TlsError::InvalidCa)
    } else {
        None
    }
}

} // verus!
