//! TLS settings on either hop, from the contents of the configured files.

use rustls::pki_types::{
    PrivateKeyDer, PrivatePkcs1KeyDer, PrivatePkcs8KeyDer, PrivateSec1KeyDer, ServerName,
};
use rustls::server::{VerifierBuilderError, WebPkiClientVerifier};
use rustls::{ClientConfig, Error as TlsLibraryError, RootCertStore, ServerConfig};
use vstd::prelude::*;

use crate::engine::text;

verus! {

#[verifier::external_type_specification]
#[verifier::external_body]
pub struct ExRootCertStore(rustls::RootCertStore);

#[verifier::external_type_specification]
#[verifier::external_body]
pub struct ExClientConfig(rustls::ClientConfig);

#[verifier::external_type_specification]
#[verifier::external_body]
pub struct ExServerConfig(rustls::ServerConfig);

#[verifier::external_type_specification]
#[verifier::external_body]
pub struct ExServerName<'a>(rustls::pki_types::ServerName<'a>);

#[verifier::external_type_specification]
#[verifier::external_body]
pub struct ExTlsLibraryError(TlsLibraryError);

#[verifier::external_type_specification]
#[verifier::external_body]
pub struct ExVerifierBuilderError(rustls::server::VerifierBuilderError);

#[verifier::external_type_specification]
#[verifier::external_body]
pub struct ExInvalidDnsNameError(rustls::pki_types::InvalidDnsNameError);

#[verifier::external_type_specification]
#[verifier::external_body]
pub struct ExIoError(std::io::Error);

/// A configured file: its path, and its content unless it cannot be opened.
#[derive(Debug, Clone)]
pub struct SourceFile {
    pub path: String,
    pub content: Option<Vec<u8>>,
}

/// A private key, by the encoding it was found in.
#[derive(Debug, Clone)]
pub enum PrivateKey {
    Pkcs1(Vec<u8>),
    Sec1(Vec<u8>),
    Pkcs8(Vec<u8>),
}

/// A [`PrivateKey`] as a mathematical value.
pub enum PrivateKeyView {
    Pkcs1 { der: Seq<u8> },
    Sec1 { der: Seq<u8> },
    Pkcs8 { der: Seq<u8> },
}

impl View for PrivateKey {
    type V = PrivateKeyView;

    open spec fn view(&self) -> PrivateKeyView {
        match self {
            PrivateKey::Pkcs1(der) => PrivateKeyView::Pkcs1 { der: der@ },
            PrivateKey::Sec1(der) => PrivateKeyView::Sec1 { der: der@ },
            PrivateKey::Pkcs8(der) => PrivateKeyView::Pkcs8 { der: der@ },
        }
    }
}

/// Certificates as mathematical values.
pub open spec fn certs_view(certs: Seq<Vec<u8>>) -> Seq<Seq<u8>> {
    Seq::new(certs.len(), |i: int| certs[i]@)
}

/// The certificates that `rustls_pemfile::certs` finds in a PEM file; none
/// when the file cannot be read as PEM.
pub uninterp spec fn pem_certs(pem: Seq<u8>) -> Option<Seq<Seq<u8>>>;

/// `rustls_pemfile::certs`, read to the end. The result is a function of the
/// octets alone.
#[verifier::external_body]
fn read_certs(pem: &[u8]) -> (certs: Result<Vec<Vec<u8>>, std::io::Error>)
    ensures
        match certs {
            Ok(certs) => pem_certs(pem@) == Some(certs_view(certs@)),
            Err(_) => pem_certs(pem@) is None,
        },
{
    let mut reader = pem;
    rustls_pemfile::certs(&mut reader).map(|cert| cert.map(|der| der.to_vec())).collect()
}

/// The private key that `rustls_pemfile::private_key` finds in a PEM file:
/// the outer none when the file cannot be read as PEM, the inner none when it
/// holds no key.
pub uninterp spec fn pem_key(pem: Seq<u8>) -> Option<Option<PrivateKeyView>>;

/// `rustls_pemfile::private_key`. The result is a function of the octets
/// alone.
#[verifier::external_body]
fn read_key(pem: &[u8]) -> (key: Result<Option<PrivateKey>, std::io::Error>)
    ensures
        match key {
            Ok(Some(key)) => pem_key(pem@) == Some(Some(key@)),
            Ok(None) => pem_key(pem@) == Some(None::<PrivateKeyView>),
            Err(_) => pem_key(pem@) is None,
        },
{
    let mut reader = pem;
    Ok(
        rustls_pemfile::private_key(&mut reader)?.map(
            |key|
                match key {
                    PrivateKeyDer::Pkcs1(der) => PrivateKey::Pkcs1(der.secret_pkcs1_der().to_vec()),
                    PrivateKeyDer::Sec1(der) => PrivateKey::Sec1(der.secret_sec1_der().to_vec()),
                    der => PrivateKey::Pkcs8(der.secret_der().to_vec()),
                },
        ),
    )
}

/// A `rustls::pki_types::TrustAnchor` as a mathematical value.
pub struct TrustAnchorView {
    pub subject: Seq<u8>,
    pub subject_public_key_info: Seq<u8>,
    pub name_constraints: Option<Seq<u8>>,
}

/// The trust anchors that a store holds, in the order they were added.
pub uninterp spec fn anchors(store: RootCertStore) -> Seq<TrustAnchorView>;

/// The trust anchor that `rustls::RootCertStore::add` makes of
/// a certificate; none when it refuses the certificate.
pub uninterp spec fn anchor_of(cert: Seq<u8>) -> Option<TrustAnchorView>;

/// `rustls::RootCertStore::empty` holds no trust anchor.
#[verifier::external_body]
fn empty_roots() -> (roots: RootCertStore)
    ensures
        anchors(roots).len() == 0,
{
    RootCertStore::empty()
}

/// `rustls::RootCertStore::add` appends the trust anchor that a certificate
/// describes, or refuses the certificate and leaves the store as it is.
/// Which of the two is a function of the certificate alone.
#[verifier::external_body]
fn add_root(roots: &mut RootCertStore, cert: Vec<u8>) -> (added: Result<(), TlsLibraryError>)
    ensures
        match added {
            Ok(_) => anchor_of(cert@) matches Some(anchor) && anchors(*final(roots))
                == anchors(*old(roots)).push(anchor),
            Err(_) => anchor_of(cert@) is None && anchors(*final(roots)) == anchors(
                *old(roots),
            ),
        },
{
    roots.add(cert.into())
}

/// Whether `rustls` takes a certificate chain and a key to present to a
/// server.
pub uninterp spec fn client_auth_accepted(certs: Seq<Seq<u8>>, key: PrivateKeyView) -> bool;

/// The trust anchors that a client verifies servers against.
pub uninterp spec fn trusted(config: ClientConfig) -> Seq<TrustAnchorView>;

/// The certificate chain and the key that a client presents, if any.
pub uninterp spec fn presented(config: ClientConfig) -> Option<(Seq<Seq<u8>>, PrivateKeyView)>;

/// A `rustls::ClientConfig` with the given roots of trust, the `ring`
/// cryptography and the default protocol versions, made by
/// `with_no_client_auth`: it always comes about, and it presents nothing. What
/// the other settings are is left unsaid: they are the defaults of `rustls`.
#[verifier::external_body]
fn anonymous_client(roots: RootCertStore) -> (config: Result<ClientConfig, TlsLibraryError>)
    ensures
        config is Ok,
        config matches Ok(config) ==> trusted(config) == anchors(roots) && presented(config) is None,
{
    let provider = std::sync::Arc::new(rustls::crypto::ring::default_provider());
    let builder = ClientConfig::builder_with_provider(provider).with_safe_default_protocol_versions()?;
    Ok(builder.with_root_certificates(roots).with_no_client_auth())
}

/// A `rustls::ClientConfig` like that of [`anonymous_client`], but made by
/// `with_client_auth_cert`, so that it presents the given certificate. It is a
/// function of the chain and the key whether they are accepted.
#[verifier::external_body]
fn certified_client(roots: RootCertStore, certs: Vec<Vec<u8>>, key: PrivateKey) -> (config: Result<
    ClientConfig,
    TlsLibraryError,
>)
    ensures
        config is Ok <==> client_auth_accepted(certs_view(certs@), key@),
        config matches Ok(config) ==> {
            &&& trusted(config) == anchors(roots)
            &&& presented(config) == Some((certs_view(certs@), key@))
        },
{
    let provider = std::sync::Arc::new(rustls::crypto::ring::default_provider());
    let builder = ClientConfig::builder_with_provider(provider).with_safe_default_protocol_versions()?;
    let key = match key {
        PrivateKey::Pkcs1(der) => PrivatePkcs1KeyDer::from(der).into(),
        PrivateKey::Sec1(der) => PrivateSec1KeyDer::from(der).into(),
        PrivateKey::Pkcs8(der) => PrivatePkcs8KeyDer::from(der).into(),
    };
    let certs = certs.into_iter().map(Into::into).collect();
    builder.with_root_certificates(roots).with_client_auth_cert(certs, key)
}

/// Whether `rustls` takes a certificate chain and a key to present to
/// clients.
pub uninterp spec fn server_cert_accepted(certs: Seq<Seq<u8>>, key: PrivateKeyView) -> bool;

/// The certificate chain and the key that a server presents.
pub uninterp spec fn certified(config: ServerConfig) -> (Seq<Seq<u8>>, PrivateKeyView);

/// The trust anchors that a server verifies its clients
/// against; none when clients need no certificate.
pub uninterp spec fn client_anchors(config: ServerConfig) -> Option<Seq<TrustAnchorView>>;

/// A `rustls::ServerConfig` with the `ring` cryptography and the default
/// protocol versions, made by `with_no_client_auth`, so that it demands no
/// certificate of its clients. It is a function of the chain and the key
/// whether `with_single_cert` accepts them. What the other settings are is
/// left unsaid: they are the defaults of `rustls`.
#[verifier::external_body]
fn open_server(certs: Vec<Vec<u8>>, key: PrivateKey) -> (config: Result<
    ServerConfig,
    TlsLibraryError,
>)
    ensures
        config is Ok <==> server_cert_accepted(certs_view(certs@), key@),
        config matches Ok(config) ==> certified(config) == (certs_view(certs@), key@)
            && client_anchors(config) is None,
{
    let provider = std::sync::Arc::new(rustls::crypto::ring::default_provider());
    let builder = ServerConfig::builder_with_provider(provider).with_safe_default_protocol_versions()?;
    let key = match key {
        PrivateKey::Pkcs1(der) => PrivatePkcs1KeyDer::from(der).into(),
        PrivateKey::Sec1(der) => PrivateSec1KeyDer::from(der).into(),
        PrivateKey::Pkcs8(der) => PrivatePkcs8KeyDer::from(der).into(),
    };
    let certs = certs.into_iter().map(Into::into).collect();
    builder.with_no_client_auth().with_single_cert(certs, key)
}

/// A `rustls::ServerConfig` like that of [`open_server`], but made by
/// `with_client_cert_verifier`, so that it demands a certificate that goes
/// back to the given roots of trust. `WebPkiClientVerifier` refuses to be
/// built without any trust anchor, and on nothing else here.
#[verifier::external_body]
fn verifying_server(certs: Vec<Vec<u8>>, key: PrivateKey, roots: RootCertStore) -> (config: Result<
    Result<ServerConfig, TlsLibraryError>,
    VerifierBuilderError,
>)
    ensures
        config is Ok <==> anchors(roots).len() > 0,
        config matches Ok(inner) ==> (inner is Ok <==> server_cert_accepted(
            certs_view(certs@),
            key@,
        )),
        config matches Ok(Ok(config)) ==> {
            &&& certified(config) == (certs_view(certs@), key@)
            &&& client_anchors(config) == Some(anchors(roots))
        },
{
    let provider = std::sync::Arc::new(rustls::crypto::ring::default_provider());
    let verifier = WebPkiClientVerifier::builder_with_provider(roots.into(), provider.clone()).build()?;
    let key = match key {
        PrivateKey::Pkcs1(der) => PrivatePkcs1KeyDer::from(der).into(),
        PrivateKey::Sec1(der) => PrivateSec1KeyDer::from(der).into(),
        PrivateKey::Pkcs8(der) => PrivatePkcs8KeyDer::from(der).into(),
    };
    let certs = certs.into_iter().map(Into::into).collect();
    let builder = ServerConfig::builder_with_provider(provider).with_safe_default_protocol_versions();
    Ok(builder.and_then(|b| b.with_client_cert_verifier(verifier).with_single_cert(certs, key)))
}

/// The `rustls::pki_types::ServerName` that a text denotes; none when it
/// denotes none.
pub uninterp spec fn named_server(name: Seq<char>) -> Option<ServerName<'static>>;

/// `rustls::pki_types::ServerName::try_from`. The result is a function of the
/// text alone.
#[verifier::external_body]
fn server_name(name: String) -> (parsed: Result<
    ServerName<'static>,
    rustls::pki_types::InvalidDnsNameError,
>)
    ensures
        match parsed {
            Ok(server) => named_server(name@) == Some(server),
            Err(_) => named_server(name@) is None,
        },
{
    ServerName::try_from(name)
}

/// Why TLS cannot be set up.
#[derive(Debug, Clone)]
pub enum TlsError {
    OpenCert { path: String },
    ParseCert { path: String },
    OpenKey { path: String },
    ParseKey { path: String },
    NoPrivateKey { path: String },
    /// A configured authority is not a trust anchor.
    AddCustomCa,
    /// One of the system's authorities is not a trust anchor.
    AddNativeCa,
    /// The certificate for the upstream is not accepted.
    ClientAuthCert,
    /// A configured authority for clients is not a trust anchor.
    AddClientCa,
    /// There is no authority that clients could be verified against.
    ClientCertVerifier,
    InvalidServerName { name: String },
    /// The certificate for clients is not accepted.
    ServerConfig,
    /// The handshake with the upstream failed.
    Connect,
    /// The handshake with a client failed.
    Accept,
}

/// A [`TlsError`] as a mathematical value.
pub enum TlsErrorView {
    OpenCert { path: Seq<char> },
    ParseCert { path: Seq<char> },
    OpenKey { path: Seq<char> },
    ParseKey { path: Seq<char> },
    NoPrivateKey { path: Seq<char> },
    AddCustomCa,
    AddNativeCa,
    ClientAuthCert,
    AddClientCa,
    ClientCertVerifier,
    InvalidServerName { name: Seq<char> },
    ServerConfig,
    Connect,
    Accept,
}

impl View for TlsError {
    type V = TlsErrorView;

    open spec fn view(&self) -> TlsErrorView {
        match self {
            TlsError::OpenCert { path } => TlsErrorView::OpenCert { path: path@ },
            TlsError::ParseCert { path } => TlsErrorView::ParseCert { path: path@ },
            TlsError::OpenKey { path } => TlsErrorView::OpenKey { path: path@ },
            TlsError::ParseKey { path } => TlsErrorView::ParseKey { path: path@ },
            TlsError::NoPrivateKey { path } => TlsErrorView::NoPrivateKey { path: path@ },
            TlsError::AddCustomCa => TlsErrorView::AddCustomCa,
            TlsError::AddNativeCa => TlsErrorView::AddNativeCa,
            TlsError::ClientAuthCert => TlsErrorView::ClientAuthCert,
            TlsError::AddClientCa => TlsErrorView::AddClientCa,
            TlsError::ClientCertVerifier => TlsErrorView::ClientCertVerifier,
            TlsError::InvalidServerName { name } => TlsErrorView::InvalidServerName { name: name@ },
            TlsError::ServerConfig => TlsErrorView::ServerConfig,
            TlsError::Connect => TlsErrorView::Connect,
            TlsError::Accept => TlsErrorView::Accept,
        }
    }
}

impl TlsErrorView {
    /// What the error reads.
    pub open spec fn text(self) -> Seq<char> {
        match self {
            TlsErrorView::OpenCert { path } => "opening TLS certificate file "@ + path,
            TlsErrorView::ParseCert { path } => "parsing TLS certificate file "@ + path,
            TlsErrorView::OpenKey { path } => "opening TLS key file "@ + path,
            TlsErrorView::ParseKey { path } => "parsing TLS key file "@ + path,
            TlsErrorView::NoPrivateKey { path } => "no private key found in "@ + path,
            TlsErrorView::AddCustomCa => "adding custom CA certificate to upstream trust store"@,
            TlsErrorView::AddNativeCa => "adding native root certificate to upstream trust store"@,
            TlsErrorView::ClientAuthCert => "setting client certificate for upstream mutual TLS"@,
            TlsErrorView::AddClientCa => "adding client CA certificate to listener's client-auth trust store"@,
            TlsErrorView::ClientCertVerifier => "building client certificate verifier from client CA"@,
            TlsErrorView::InvalidServerName { name } => "invalid upstream TLS server name "@
                + text::quoted(name),
            TlsErrorView::ServerConfig => "building TLS server config from cert/key"@,
            TlsErrorView::Connect => "establishing LDAPS session with upstream"@,
            TlsErrorView::Accept => "completing LDAPS handshake with client"@,
        }
    }
}

fn joined(before: &str, after: &str) -> (whole: String)
    ensures
        whole@ == before@ + after@,
{
    let mut whole = before.to_owned();
    whole.append(after);
    whole
}

impl TlsError {
    /// The text of the error.
    pub fn message(&self) -> (message: String)
        ensures
            message@ == self@.text(),
    {
        match self {
            TlsError::OpenCert { path } => joined("opening TLS certificate file ", path.as_str()),
            TlsError::ParseCert { path } => joined("parsing TLS certificate file ", path.as_str()),
            TlsError::OpenKey { path } => joined("opening TLS key file ", path.as_str()),
            TlsError::ParseKey { path } => joined("parsing TLS key file ", path.as_str()),
            TlsError::NoPrivateKey { path } => joined("no private key found in ", path.as_str()),
            TlsError::AddCustomCa => {
                "adding custom CA certificate to upstream trust store".to_owned()
            },
            TlsError::AddNativeCa => {
                "adding native root certificate to upstream trust store".to_owned()
            },
            TlsError::ClientAuthCert => {
                "setting client certificate for upstream mutual TLS".to_owned()
            },
            TlsError::AddClientCa => {
                "adding client CA certificate to listener's client-auth trust store".to_owned()
            },
            TlsError::ClientCertVerifier => {
                "building client certificate verifier from client CA".to_owned()
            },
            TlsError::InvalidServerName { name } => joined(
                "invalid upstream TLS server name ",
                text::quote(name.as_str()).as_str(),
            ),
            TlsError::ServerConfig => "building TLS server config from cert/key".to_owned(),
            TlsError::Connect => "establishing LDAPS session with upstream".to_owned(),
            TlsError::Accept => "completing LDAPS handshake with client".to_owned(),
        }
    }
}

/// A [`SourceFile`] as a mathematical value.
pub struct SourceFileView {
    pub path: Seq<char>,
    pub content: Option<Seq<u8>>,
}

impl View for SourceFile {
    type V = SourceFileView;

    open spec fn view(&self) -> SourceFileView {
        SourceFileView {
            path: self.path@,
            content: match self.content {
                Some(content) => Some(content@),
                None => None,
            },
        }
    }
}

/// The certificates of a file.
pub open spec fn certs_of(file: SourceFileView) -> Result<Seq<Seq<u8>>, TlsErrorView> {
    match file.content {
        None => Err(TlsErrorView::OpenCert { path: file.path }),
        Some(pem) => match pem_certs(pem) {
            None => Err(TlsErrorView::ParseCert { path: file.path }),
            Some(certs) => Ok(certs),
        },
    }
}

/// The private key of a file.
pub open spec fn key_of(file: SourceFileView) -> Result<PrivateKeyView, TlsErrorView> {
    match file.content {
        None => Err(TlsErrorView::OpenKey { path: file.path }),
        Some(pem) => match pem_key(pem) {
            None => Err(TlsErrorView::ParseKey { path: file.path }),
            Some(None) => Err(TlsErrorView::NoPrivateKey { path: file.path }),
            Some(Some(key)) => Ok(key),
        },
    }
}

/// Whether every certificate is a trust anchor.
pub open spec fn all_anchors(certs: Seq<Seq<u8>>) -> bool {
    forall|i: int| 0 <= i < certs.len() ==> anchor_of(#[trigger] certs[i]) is Some
}

/// The trust anchors that certificates describe.
pub open spec fn anchors_of(certs: Seq<Seq<u8>>) -> Seq<TrustAnchorView> {
    Seq::new(certs.len(), |i: int| anchor_of(certs[i])->0)
}

fn load_certs(file: &SourceFile) -> (certs: Result<Vec<Vec<u8>>, TlsError>)
    ensures
        match certs {
            Ok(certs) => certs_of(file@) == Ok::<Seq<Seq<u8>>, TlsErrorView>(certs_view(certs@)),
            Err(error) => certs_of(file@) == Err::<Seq<Seq<u8>>, TlsErrorView>(error@),
        },
{
    match &file.content {
        None => Err(TlsError::OpenCert { path: file.path.clone() }),
        Some(pem) => match read_certs(pem.as_slice()) {
            Ok(certs) => Ok(certs),
            Err(_) => Err(TlsError::ParseCert { path: file.path.clone() }),
        },
    }
}

fn load_key(file: &SourceFile) -> (key: Result<PrivateKey, TlsError>)
    ensures
        match key {
            Ok(key) => key_of(file@) == Ok::<PrivateKeyView, TlsErrorView>(key@),
            Err(error) => key_of(file@) == Err::<PrivateKeyView, TlsErrorView>(error@),
        },
{
    match &file.content {
        None => Err(TlsError::OpenKey { path: file.path.clone() }),
        Some(pem) => match read_key(pem.as_slice()) {
            Ok(Some(key)) => Ok(key),
            Ok(None) => Err(TlsError::NoPrivateKey { path: file.path.clone() }),
            Err(_) => Err(TlsError::ParseKey { path: file.path.clone() }),
        },
    }
}

/// Trusts every certificate; none when one of them is not a trust anchor.
fn trust(certs: &Vec<Vec<u8>>) -> (roots: Option<RootCertStore>)
    ensures
        match roots {
            Some(roots) => {
                &&& all_anchors(certs_view(certs@))
                &&& anchors(roots) == anchors_of(certs_view(certs@))
            },
            None => !all_anchors(certs_view(certs@)),
        },
{
    let mut roots = empty_roots();
    let mut n: usize = 0;
    while n < certs.len()
        invariant
            n <= certs@.len(),
            anchors(roots) == anchors_of(certs_view(certs@)).take(n as int),
            forall|i: int|
                0 <= i < n ==> anchor_of(#[trigger] certs_view(certs@)[i]) is Some,
        decreases certs.len() - n,
    {
        let cert = certs[n].clone();
        assert(cert@ =~= certs_view(certs@)[n as int]);
        if add_root(&mut roots, cert).is_err() {
            return None;
        }
        assert(anchors_of(certs_view(certs@)).take(n + 1) =~= anchors_of(certs_view(certs@)).take(
            n as int,
        ).push(anchors_of(certs_view(certs@))[n as int]));
        n += 1;
    }
    assert(anchors_of(certs_view(certs@)).take(n as int) =~= anchors_of(certs_view(certs@)));
    Some(roots)
}

/// The settings of an [`UpstreamTls`] as a mathematical value.
pub struct UpstreamTlsView {
    /// The authorities that the upstream is verified against.
    pub trusted: Seq<TrustAnchorView>,
    /// The certificate presented to the upstream.
    pub presented: Option<(Seq<Seq<u8>>, PrivateKeyView)>,
    /// The server that the upstream's certificate has to name.
    pub server: ServerName<'static>,
}

/// What comes of setting up TLS to an upstream. When several things are
/// wrong, the one that is reported is an authority, else the certificate to
/// present, else the name.
pub open spec fn upstream_outcome(
    name: Seq<char>,
    ca_file: Option<SourceFileView>,
    native_certs: Seq<Seq<u8>>,
    client_cert: Option<(SourceFileView, SourceFileView)>,
) -> Result<UpstreamTlsView, TlsErrorView> {
    let trusted = match ca_file {
        Some(file) => match certs_of(file) {
            Err(error) => Err(error),
            Ok(certs) => if all_anchors(certs) {
                Ok(anchors_of(certs))
            } else {
                Err(TlsErrorView::AddCustomCa)
            },
        },
        None => if all_anchors(native_certs) {
            Ok(anchors_of(native_certs))
        } else {
            Err(TlsErrorView::AddNativeCa)
        },
    };
    let presented = match client_cert {
        None => Ok(None),
        Some((cert_file, key_file)) => match certs_of(cert_file) {
            Err(error) => Err(error),
            Ok(certs) => match key_of(key_file) {
                Err(error) => Err(error),
                Ok(key) => if client_auth_accepted(certs, key) {
                    Ok(Some((certs, key)))
                } else {
                    Err(TlsErrorView::ClientAuthCert)
                },
            },
        },
    };
    match (trusted, presented, named_server(name)) {
        (Err(error), _, _) => Err(error),
        (_, Err(error), _) => Err(error),
        (_, _, None) => Err(TlsErrorView::InvalidServerName { name }),
        (Ok(trusted), Ok(presented), Some(server)) => Ok(
            UpstreamTlsView { trusted, presented, server },
        ),
    }
}

/// TLS settings for connecting to an upstream.
#[derive(Debug)]
pub struct UpstreamTls {
    config: ClientConfig,
    server_name: ServerName<'static>,
}

impl View for UpstreamTls {
    type V = UpstreamTlsView;

    closed spec fn view(&self) -> UpstreamTlsView {
        UpstreamTlsView {
            trusted: trusted(self.config),
            presented: presented(self.config),
            server: self.server_name,
        }
    }
}

impl UpstreamTls {
    /// Sets TLS up for connecting to an upstream whose certificate names
    /// `name`. The authorities of `ca_file`, when given, take the place of
    /// the system's, which are `native_certs`. The certificate of
    /// `client_cert` (its file and that of its key), when given, is presented
    /// to the upstream.
    pub fn new(
        name: &str,
        ca_file: Option<SourceFile>,
        native_certs: Vec<Vec<u8>>,
        client_cert: Option<(SourceFile, SourceFile)>,
    ) -> (tls: Result<UpstreamTls, TlsError>)
        ensures
            ({
                let outcome = upstream_outcome(
                    name@,
                    match ca_file {
                        Some(file) => Some(file@),
                        None => None,
                    },
                    certs_view(native_certs@),
                    match client_cert {
                        Some((cert_file, key_file)) => Some((cert_file@, key_file@)),
                        None => None,
                    },
                );
                match tls {
                    Ok(tls) => outcome == Ok::<UpstreamTlsView, TlsErrorView>(tls@),
                    Err(error) => outcome == Err::<UpstreamTlsView, TlsErrorView>(error@),
                }
            }),
    {
        let roots = match &ca_file {
            Some(file) => {
                let certs = match load_certs(file) {
                    Ok(certs) => certs,
                    Err(error) => {
                        return Err(error);
                    },
                };
                match trust(&certs) {
                    Some(roots) => roots,
                    None => {
                        return Err(TlsError::AddCustomCa);
                    },
                }
            },
            None => match trust(&native_certs) {
                Some(roots) => roots,
                None => {
                    return Err(TlsError::AddNativeCa);
                },
            },
        };
        let auth = match &client_cert {
            Some((cert_file, key_file)) => {
                let certs = match load_certs(cert_file) {
                    Ok(certs) => certs,
                    Err(error) => {
                        return Err(error);
                    },
                };
                let key = match load_key(key_file) {
                    Ok(key) => key,
                    Err(error) => {
                        return Err(error);
                    },
                };
                Some((certs, key))
            },
            None => None,
        };
        let made = match auth {
            Some((certs, key)) => certified_client(roots, certs, key),
            None => anonymous_client(roots),
        };
        let config = match made {
            Ok(config) => config,
            Err(_) => {
                return Err(TlsError::ClientAuthCert);
            },
        };
        match server_name(name.to_owned()) {
            Ok(server_name) => Ok(UpstreamTls { config, server_name }),
            Err(_) => Err(TlsError::InvalidServerName { name: name.to_owned() }),
        }
    }

    /// The settings, for whoever performs the handshake.
    pub fn parts(&self) -> (parts: (&ClientConfig, &ServerName<'static>))
        ensures
            trusted(*parts.0) == self@.trusted,
            presented(*parts.0) == self@.presented,
            *parts.1 == self@.server,
    {
        (&self.config, &self.server_name)
    }
}

/// The settings of a [`ListenTls`] as a mathematical value.
pub struct ListenTlsView {
    /// The certificate presented to clients.
    pub certified: (Seq<Seq<u8>>, PrivateKeyView),
    /// The authorities that clients are verified against.
    pub client_anchors: Option<Seq<TrustAnchorView>>,
}

/// What comes of setting up TLS for clients. When several things are wrong,
/// the one that is reported is the certificate file, else the key file, else
/// an authority, else that certificate and key do not go together.
pub open spec fn listen_outcome(
    cert_file: SourceFileView,
    key_file: SourceFileView,
    client_ca_file: Option<SourceFileView>,
) -> Result<ListenTlsView, TlsErrorView> {
    let authorities = match client_ca_file {
        None => Ok(None),
        Some(file) => match certs_of(file) {
            Err(error) => Err(error),
            Ok(authorities) => if !all_anchors(authorities) {
                Err(TlsErrorView::AddClientCa)
            } else if authorities.len() == 0 {
                Err(TlsErrorView::ClientCertVerifier)
            } else {
                Ok(Some(anchors_of(authorities)))
            },
        },
    };
    match (certs_of(cert_file), key_of(key_file), authorities) {
        (Err(error), _, _) => Err(error),
        (_, Err(error), _) => Err(error),
        (_, _, Err(error)) => Err(error),
        (Ok(certs), Ok(key), Ok(client_anchors)) => if server_cert_accepted(certs, key) {
            Ok(ListenTlsView { certified: (certs, key), client_anchors })
        } else {
            Err(TlsErrorView::ServerConfig)
        },
    }
}

/// TLS settings for accepting clients.
#[derive(Debug)]
pub struct ListenTls {
    config: ServerConfig,
}

impl View for ListenTls {
    type V = ListenTlsView;

    closed spec fn view(&self) -> ListenTlsView {
        ListenTlsView {
            certified: certified(self.config),
            client_anchors: client_anchors(self.config),
        }
    }
}

impl ListenTls {
    /// Sets TLS up for accepting clients. When `client_ca_file` is given,
    /// clients have to present a certificate that one of its authorities has
    /// signed.
    pub fn from_files(
        cert_file: &SourceFile,
        key_file: &SourceFile,
        client_ca_file: Option<SourceFile>,
    ) -> (tls: Result<ListenTls, TlsError>)
        ensures
            ({
                let outcome = listen_outcome(
                    cert_file@,
                    key_file@,
                    match client_ca_file {
                        Some(file) => Some(file@),
                        None => None,
                    },
                );
                match tls {
                    Ok(tls) => outcome == Ok::<ListenTlsView, TlsErrorView>(tls@),
                    Err(error) => outcome == Err::<ListenTlsView, TlsErrorView>(error@),
                }
            }),
    {
        let certs = match load_certs(cert_file) {
            Ok(certs) => certs,
            Err(error) => {
                return Err(error);
            },
        };
        let key = match load_key(key_file) {
            Ok(key) => key,
            Err(error) => {
                return Err(error);
            },
        };
        let client_roots = match &client_ca_file {
            Some(file) => {
                let authorities = match load_certs(file) {
                    Ok(authorities) => authorities,
                    Err(error) => {
                        return Err(error);
                    },
                };
                match trust(&authorities) {
                    Some(roots) => Some(roots),
                    None => {
                        return Err(TlsError::AddClientCa);
                    },
                }
            },
            None => None,
        };
        let made = match client_roots {
            Some(roots) => match verifying_server(certs, key, roots) {
                Ok(made) => made,
                Err(_) => {
                    return Err(TlsError::ClientCertVerifier);
                },
            },
            None => open_server(certs, key),
        };
        match made {
            Ok(config) => Ok(ListenTls { config }),
            Err(_) => Err(TlsError::ServerConfig),
        }
    }

    /// The settings, for whoever performs the handshake.
    pub fn parts(&self) -> (config: &ServerConfig)
        ensures
            certified(*config) == self@.certified,
            client_anchors(*config) == self@.client_anchors,
    {
        &self.config
    }
}

/// What TLS to an upstream is set up with comes from what is configured: the
/// authorities from the configured file if there is one and from the system if
/// there is none, never from both; the certificate to present from its two
/// files, and none without them; the server from the name. An error is never
/// about anything that is in order.
pub proof fn upstream_settings_have_their_sources(
    name: Seq<char>,
    ca_file: Option<SourceFileView>,
    native_certs: Seq<Seq<u8>>,
    client_cert: Option<(SourceFileView, SourceFileView)>,
)
    ensures
        match upstream_outcome(name, ca_file, native_certs, client_cert) {
            Ok(made) => {
                &&& named_server(name) == Some(made.server)
                &&& ca_file matches Some(file) ==> {
                    &&& file.content matches Some(pem)
                    &&& pem_certs(pem) matches Some(certs)
                    &&& made.trusted.len() == certs.len()
                    &&& forall|i: int|
                        0 <= i < certs.len() ==> anchor_of(#[trigger] certs[i]) == Some(
                            made.trusted[i],
                        )
                }
                &&& ca_file is None ==> {
                    &&& made.trusted.len() == native_certs.len()
                    &&& forall|i: int|
                        0 <= i < native_certs.len() ==> anchor_of(#[trigger] native_certs[i])
                            == Some(made.trusted[i])
                }
                &&& client_cert is None ==> made.presented is None
                &&& client_cert matches Some((cert_file, key_file)) ==> {
                    &&& made.presented matches Some((certs, key))
                    &&& cert_file.content matches Some(cert_pem)
                    &&& key_file.content matches Some(key_pem)
                    &&& pem_certs(cert_pem) == Some(certs)
                    &&& pem_key(key_pem) == Some(Some(key))
                    &&& client_auth_accepted(certs, key)
                }
            },
            Err(TlsErrorView::OpenCert { path }) => {
                ||| ca_file matches Some(file) && file.path == path && file.content is None
                ||| client_cert matches Some((file, _)) && file.path == path && file.content is None
            },
            Err(TlsErrorView::ParseCert { path }) => {
                ||| ca_file matches Some(file) && file.path == path && (file.content matches Some(
                    pem,
                ) && pem_certs(pem) is None)
                ||| client_cert matches Some((file, _)) && file.path == path && (
                file.content matches Some(pem) && pem_certs(pem) is None)
            },
            Err(TlsErrorView::OpenKey { path }) => client_cert matches Some((_, file)) && file.path
                == path && file.content is None,
            Err(TlsErrorView::ParseKey { path }) => client_cert matches Some((_, file)) && file.path
                == path && (file.content matches Some(pem) && pem_key(pem) is None),
            Err(TlsErrorView::NoPrivateKey { path }) => client_cert matches Some((_, file))
                && file.path == path && (file.content matches Some(pem) && pem_key(pem) == Some(
                None::<PrivateKeyView>,
            )),
            Err(TlsErrorView::AddCustomCa) => ca_file matches Some(file) && (
            file.content matches Some(pem) && (pem_certs(pem) matches Some(certs) && exists|i: int|
                0 <= i < certs.len() && anchor_of(#[trigger] certs[i]) is None)),
            Err(TlsErrorView::AddNativeCa) => ca_file is None && exists|i: int|
                0 <= i < native_certs.len() && anchor_of(#[trigger] native_certs[i]) is None,
            Err(TlsErrorView::ClientAuthCert) => client_cert matches Some((cert_file, key_file)) && (
            certs_of(cert_file) matches Ok(certs) && (key_of(key_file) matches Ok(key)
                && !client_auth_accepted(certs, key))),
            Err(TlsErrorView::InvalidServerName { name: wrong }) => wrong == name && named_server(
                name,
            ) is None,
            Err(_) => false,
        },
{
}

/// Of several things that are wrong with TLS to an upstream the first is
/// reported: what is wrong with the authorities whatever the certificate and
/// the name are, and what is wrong with the certificate whatever the name is.
pub proof fn upstream_errors_come_in_order(
    name: Seq<char>,
    other_name: Seq<char>,
    ca_file: Option<SourceFileView>,
    native_certs: Seq<Seq<u8>>,
    client_cert: Option<(SourceFileView, SourceFileView)>,
    error: TlsErrorView,
)
    requires
        !(error is InvalidServerName),
    ensures
        upstream_outcome(other_name, ca_file, native_certs, None) == Err::<
            UpstreamTlsView,
            TlsErrorView,
        >(error) ==> upstream_outcome(name, ca_file, native_certs, client_cert) == Err::<
            UpstreamTlsView,
            TlsErrorView,
        >(error),
        upstream_outcome(other_name, ca_file, native_certs, client_cert) == Err::<
            UpstreamTlsView,
            TlsErrorView,
        >(error) ==> upstream_outcome(name, ca_file, native_certs, client_cert) == Err::<
            UpstreamTlsView,
            TlsErrorView,
        >(error),
{
}

/// What TLS for clients is set up with comes from the configured files: the
/// certificate and the key from theirs, and the authorities for clients from
/// theirs; without such a file clients need no certificate, and with one there
/// is at least one authority. An error is never about anything that is in
/// order.
pub proof fn listener_settings_have_their_sources(
    cert_file: SourceFileView,
    key_file: SourceFileView,
    client_ca_file: Option<SourceFileView>,
)
    ensures
        match listen_outcome(cert_file, key_file, client_ca_file) {
            Ok(made) => {
                &&& cert_file.content matches Some(cert_pem)
                &&& key_file.content matches Some(key_pem)
                &&& pem_certs(cert_pem) == Some(made.certified.0)
                &&& pem_key(key_pem) == Some(Some(made.certified.1))
                &&& server_cert_accepted(made.certified.0, made.certified.1)
                &&& client_ca_file is None ==> made.client_anchors is None
                &&& client_ca_file matches Some(file) ==> {
                    &&& file.content matches Some(pem)
                    &&& pem_certs(pem) matches Some(certs)
                    &&& made.client_anchors matches Some(authorities)
                    &&& authorities.len() == certs.len()
                    &&& authorities.len() > 0
                    &&& forall|i: int|
                        0 <= i < certs.len() ==> anchor_of(#[trigger] certs[i]) == Some(
                            authorities[i],
                        )
                }
            },
            Err(TlsErrorView::OpenCert { path }) => {
                ||| cert_file.path == path && cert_file.content is None
                ||| client_ca_file matches Some(file) && file.path == path && file.content is None
            },
            Err(TlsErrorView::ParseCert { path }) => {
                ||| cert_file.path == path && (cert_file.content matches Some(pem) && pem_certs(
                    pem,
                ) is None)
                ||| client_ca_file matches Some(file) && file.path == path && (
                file.content matches Some(pem) && pem_certs(pem) is None)
            },
            Err(TlsErrorView::OpenKey { path }) => key_file.path == path && key_file.content is None,
            Err(TlsErrorView::ParseKey { path }) => key_file.path == path && (
            key_file.content matches Some(pem) && pem_key(pem) is None),
            Err(TlsErrorView::NoPrivateKey { path }) => key_file.path == path && (
            key_file.content matches Some(pem) && pem_key(pem) == Some(None::<PrivateKeyView>)),
            Err(TlsErrorView::AddClientCa) => client_ca_file matches Some(file) && (
            file.content matches Some(pem) && (pem_certs(pem) matches Some(certs) && exists|i: int|
                0 <= i < certs.len() && anchor_of(#[trigger] certs[i]) is None)),
            Err(TlsErrorView::ClientCertVerifier) => client_ca_file matches Some(file) && (
            file.content matches Some(pem) && (pem_certs(pem) matches Some(certs) && certs.len()
                == 0)),
            Err(TlsErrorView::ServerConfig) => certs_of(cert_file) matches Ok(certs) && (key_of(
                key_file,
            ) matches Ok(key) && !server_cert_accepted(certs, key)),
            Err(_) => false,
        },
{
}

/// Of several things that are wrong with TLS for clients the first is
/// reported: what is wrong with the certificate file whatever the other files
/// are, what is wrong with the key file whatever the authorities are, and only
/// then what is wrong with those.
pub proof fn listener_errors_come_in_order(
    cert_file: SourceFileView,
    key_file: SourceFileView,
    other_key_file: SourceFileView,
    client_ca_file: Option<SourceFileView>,
    error: TlsErrorView,
)
    ensures
        certs_of(cert_file) matches Err(error) ==> listen_outcome(
            cert_file,
            key_file,
            client_ca_file,
        ) == Err::<ListenTlsView, TlsErrorView>(error),
        certs_of(cert_file) is Ok ==> (key_of(key_file) matches Err(error) ==> listen_outcome(
            cert_file,
            key_file,
            client_ca_file,
        ) == Err::<ListenTlsView, TlsErrorView>(error)),
        listen_outcome(cert_file, key_file, client_ca_file) == Err::<ListenTlsView, TlsErrorView>(
            error,
        ) && key_of(key_file) is Ok && key_of(other_key_file) is Ok && !(error is ServerConfig)
            ==> listen_outcome(cert_file, other_key_file, client_ca_file) == Err::<
            ListenTlsView,
            TlsErrorView,
        >(error),
{
}

/// A file that cannot be opened, one that cannot be parsed and one without a
/// key are different errors, each with the path of the file.
pub proof fn file_errors_name_the_file(file: SourceFileView)
    ensures
        file.content is None ==> certs_of(file) == Err::<Seq<Seq<u8>>, TlsErrorView>(
            TlsErrorView::OpenCert { path: file.path },
        ) && key_of(file) == Err::<PrivateKeyView, TlsErrorView>(
            TlsErrorView::OpenKey { path: file.path },
        ),
        file.content matches Some(pem) ==> {
            &&& pem_certs(pem) is None ==> certs_of(file) == Err::<Seq<Seq<u8>>, TlsErrorView>(
                TlsErrorView::ParseCert { path: file.path },
            )
            &&& pem_certs(pem) matches Some(certs) ==> certs_of(file) == Ok::<
                Seq<Seq<u8>>,
                TlsErrorView,
            >(certs)
            &&& pem_key(pem) is None ==> key_of(file) == Err::<PrivateKeyView, TlsErrorView>(
                TlsErrorView::ParseKey { path: file.path },
            )
            &&& pem_key(pem) == Some(None::<PrivateKeyView>) ==> key_of(file) == Err::<
                PrivateKeyView,
                TlsErrorView,
            >(TlsErrorView::NoPrivateKey { path: file.path })
            &&& pem_key(pem) matches Some(Some(key)) ==> key_of(file) == Ok::<
                PrivateKeyView,
                TlsErrorView,
            >(key)
        },
{
}

/// Every certificate becomes one authority, in its place; a single one that is
/// no trust anchor spoils all of them.
pub proof fn authorities_are_taken_all_or_none(certs: Seq<Seq<u8>>, at: int)
    requires
        0 <= at < certs.len(),
    ensures
        anchor_of(certs[at]) is None ==> !all_anchors(certs),
        anchors_of(certs).len() == certs.len(),
        anchor_of(certs[at]) matches Some(anchor) ==> anchors_of(certs)[at] == anchor,
{
}

/// What errors in setting up TLS read: which file it is about, or what could
/// not be done.
pub proof fn tls_errors_read(path: Seq<char>, name: Seq<char>)
    ensures
        (TlsErrorView::OpenCert { path }).text() == "opening TLS certificate file "@ + path,
        (TlsErrorView::ParseCert { path }).text() == "parsing TLS certificate file "@ + path,
        (TlsErrorView::OpenKey { path }).text() == "opening TLS key file "@ + path,
        (TlsErrorView::ParseKey { path }).text() == "parsing TLS key file "@ + path,
        (TlsErrorView::NoPrivateKey { path }).text() == "no private key found in "@ + path,
        TlsErrorView::AddCustomCa.text() == "adding custom CA certificate to upstream trust store"@,
        TlsErrorView::AddNativeCa.text()
            == "adding native root certificate to upstream trust store"@,
        TlsErrorView::ClientAuthCert.text()
            == "setting client certificate for upstream mutual TLS"@,
        TlsErrorView::AddClientCa.text()
            == "adding client CA certificate to listener's client-auth trust store"@,
        TlsErrorView::ClientCertVerifier.text()
            == "building client certificate verifier from client CA"@,
        (TlsErrorView::InvalidServerName { name }).text() == "invalid upstream TLS server name "@
            + text::quoted(name),
        TlsErrorView::ServerConfig.text() == "building TLS server config from cert/key"@,
        TlsErrorView::Connect.text() == "establishing LDAPS session with upstream"@,
        TlsErrorView::Accept.text() == "completing LDAPS handshake with client"@,
{
}

/// The value of a key is its encoding and its octets, that of a file its path
/// and its content, and that of certificates each of them in its place.
pub proof fn files_and_keys_are_known_by_their_parts(
    der: Vec<u8>,
    file: SourceFile,
    certs: Seq<Vec<u8>>,
    at: int,
)
    requires
        0 <= at < certs.len(),
    ensures
        PrivateKey::Pkcs1(der)@ == (PrivateKeyView::Pkcs1 { der: der@ }),
        PrivateKey::Sec1(der)@ == (PrivateKeyView::Sec1 { der: der@ }),
        PrivateKey::Pkcs8(der)@ == (PrivateKeyView::Pkcs8 { der: der@ }),
        file@.path == file.path@,
        file.content is None <==> file@.content is None,
        file.content matches Some(content) ==> file@.content == Some(content@),
        certs_view(certs).len() == certs.len(),
        certs_view(certs)[at] == certs[at]@,
{
}

/// The value of an error is its kind, with the path or the name that it is
/// about.
pub proof fn tls_errors_are_known_by_their_parts(text: String)
    ensures
        (TlsError::OpenCert { path: text })@ == (TlsErrorView::OpenCert { path: text@ }),
        (TlsError::ParseCert { path: text })@ == (TlsErrorView::ParseCert { path: text@ }),
        (TlsError::OpenKey { path: text })@ == (TlsErrorView::OpenKey { path: text@ }),
        (TlsError::ParseKey { path: text })@ == (TlsErrorView::ParseKey { path: text@ }),
        (TlsError::NoPrivateKey { path: text })@ == (TlsErrorView::NoPrivateKey { path: text@ }),
        (TlsError::InvalidServerName { name: text })@ == (TlsErrorView::InvalidServerName {
            name: text@,
        }),
        TlsError::AddCustomCa@ is AddCustomCa,
        TlsError::AddNativeCa@ is AddNativeCa,
        TlsError::ClientAuthCert@ is ClientAuthCert,
        TlsError::AddClientCa@ is AddClientCa,
        TlsError::ClientCertVerifier@ is ClientCertVerifier,
        TlsError::ServerConfig@ is ServerConfig,
        TlsError::Connect@ is Connect,
        TlsError::Accept@ is Accept,
{
}

}
