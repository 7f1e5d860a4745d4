use ai_protect::builder::{ClientTransport, PolicySupply, ProxyBuilder};
use ai_protect::config::{
    default_io_timeout_secs, default_max_connections, default_shutdown_timeout_secs,
    ClientCertConfig, Config, ConfigError, ListenTlsConfig, PolicySource, ProxyConfig,
    UpstreamTlsConfig,
};
use ai_protect::connector::ldap::{DialPlan, LdapConnector};
use ai_protect::engine::net::SocketAddr;
use ai_protect::engine::policy::config::{PolicyConfigError, PolicyEntry};
use ai_protect::engine::policy::threshold::{ThresholdConfig, ThresholdPolicy, ThresholdScope};
use ai_protect::engine::time::Duration;
use ai_protect::engine::tls::{ListenTls, SourceFile, TlsError, UpstreamTls};
use ai_protect::error::Error;
use ai_protect::process::{
    build_proxy, reload, ListenFiles, ProxyFiles, Supervisor, UpstreamFiles,
};
use ai_protect::proxy::ConnectionLimits;

/// A self-signed certificate, its key in two encodings, and the key of
/// another certificate.
const CERT: &str = "\
    308201983082013da0030201020214555190aafd2c30e65b106e8cd8ecca303eed8157300a06082a\
    8648ce3d0403023020311e301c06035504030c15646330312e636f72702e6578616d706c652e636f\
    6d3020170d3236313131353031303232365a180f32313236313032323031303232365a3020311e30\
    1c06035504030c15646330312e636f72702e6578616d706c652e636f6d3059301306072a8648ce3d\
    020106082a8648ce3d03010703420004ae3022d416d993751a648beef28a24fb2a689e055c0c2e9b\
    59da3e66abf324d7dc4b404938ace0bc517c12b2c768599c3f981a890424a4b7ef6f92ffe58a11b0\
    a3533051301d0603551d0e04160414c19a6e80e3685d759758dd474142768445447bdd301f060355\
    1d23041830168014c19a6e80e3685d759758dd474142768445447bdd300f0603551d130101ff0405\
    30030101ff300a06082a8648ce3d0403020349003046022100af0018ed1c9a11746bd3979fa1c410\
    4226fb401c4ad62c64b657468ddab78da60221008a9cd6f07f266b6409a1627b099821006437bb91\
    81818280e3905fa2ff2b0c09";
const KEY: &str = "\
    308187020100301306072a8648ce3d020106082a8648ce3d030107046d306b0201010420044e0150\
    77643a577f5dd2b8347fa227cf9372d8c2097c7b013778e78694e25aa14403420004ae3022d416d9\
    93751a648beef28a24fb2a689e055c0c2e9b59da3e66abf324d7dc4b404938ace0bc517c12b2c768\
    599c3f981a890424a4b7ef6f92ffe58a11b0";
const SEC1_KEY: &str = "\
    30770201010420044e015077643a577f5dd2b8347fa227cf9372d8c2097c7b013778e78694e25aa0\
    0a06082a8648ce3d030107a14403420004ae3022d416d993751a648beef28a24fb2a689e055c0c2e\
    9b59da3e66abf324d7dc4b404938ace0bc517c12b2c768599c3f981a890424a4b7ef6f92ffe58a11\
    b0";
const OTHER_KEY: &str = "\
    308187020100301306072a8648ce3d020106082a8648ce3d030107046d306b020101042042470c1c\
    7a37c2589a6bbb0c059bcdeba3da7f2c7fcfce088ebde3bb0b4cee88a144034200044a2ca35ec8f4\
    9ad5064be2b3dd9b42965f91f824dc51aedda5288c315835c26852602d9feb5482f60f4cb179124b\
    05a6c3162069581dcb5fd7aee5bb23cf6ec8";

fn octets(hex: &str) -> Vec<u8> {
    let digits: Vec<u8> = hex.chars().filter_map(|c| c.to_digit(16)).map(|d| d as u8).collect();
    digits.chunks(2).map(|pair| pair[0] * 16 + pair[1]).collect()
}

fn base64(data: &[u8]) -> String {
    let alphabet: Vec<char> =
        "ABCDEFGHIJKLMNOPQRSTUVWXYZabcdefghijklmnopqrstuvwxyz0123456789+/".chars().collect();
    let mut text = String::new();
    for chunk in data.chunks(3) {
        let mut bits: u32 = 0;
        for i in 0..3 {
            bits = bits * 256 + *chunk.get(i).unwrap_or(&0) as u32;
        }
        for i in 0..4 {
            if i <= chunk.len() {
                text.push(alphabet[(bits >> (18 - 6 * i)) as usize % 64]);
            } else {
                text.push('=');
            }
        }
    }
    text
}

fn pem(label: &str, hex: &str) -> Vec<u8> {
    let body = base64(&octets(hex));
    let lines: Vec<&str> =
        body.as_bytes().chunks(64).map(|line| std::str::from_utf8(line).unwrap()).collect();
    format!("-----BEGIN {label}-----\n{}\n-----END {label}-----\n", lines.join("\n")).into_bytes()
}

fn cert_pem() -> Vec<u8> {
    pem("CERTIFICATE", CERT)
}

fn key_pem(hex: &str) -> Vec<u8> {
    pem("PRIVATE KEY", hex)
}

fn file(path: &str, content: Vec<u8>) -> SourceFile {
    SourceFile { path: path.to_string(), content: Some(content) }
}

fn missing(path: &str) -> SourceFile {
    SourceFile { path: path.to_string(), content: None }
}

fn cert_file() -> SourceFile {
    file("cert.pem", cert_pem())
}

fn key_file() -> SourceFile {
    file("key.pem", key_pem(KEY))
}

const NAME: &str = "dc01.corp.example.com";

fn upstream_error(
    name: &str,
    ca: Option<SourceFile>,
    native: Vec<Vec<u8>>,
    client: Option<(SourceFile, SourceFile)>,
) -> TlsError {
    UpstreamTls::new(name, ca, native, client).err().expect("expected an error")
}

fn listen_error(cert: SourceFile, key: SourceFile, client_ca: Option<SourceFile>) -> TlsError {
    ListenTls::from_files(&cert, &key, client_ca).err().expect("expected an error")
}

#[test]
fn tls_is_set_up_from_usable_files() {
    let tls = UpstreamTls::new(NAME, Some(cert_file()), vec![], Some((cert_file(), key_file())))
        .ok()
        .expect("the files are usable");
    let (config, server_name) = tls.parts();
    assert!(config.client_auth_cert_resolver.has_certs());
    assert_eq!(server_name.to_str(), NAME);

    let plain = UpstreamTls::new(NAME, None, vec![octets(CERT)], None)
        .ok()
        .expect("the system's authority is usable");
    assert!(!plain.parts().0.client_auth_cert_resolver.has_certs());

    assert!(ListenTls::from_files(&cert_file(), &key_file(), None).is_ok());
    assert!(ListenTls::from_files(&cert_file(), &key_file(), Some(cert_file())).is_ok());
    let sec1 = file("key.pem", pem("EC PRIVATE KEY", SEC1_KEY));
    assert!(ListenTls::from_files(&cert_file(), &sec1, None).is_ok());
}

#[test]
fn upstream_tls_errors_name_what_is_wrong() {
    let broken = || file("broken.pem", b"-----BEGIN CERTIFICATE-----\n*\n".to_vec());
    let no_anchor = || file("ca.pem", pem("CERTIFICATE", "3003020101"));

    let error = upstream_error(NAME, Some(missing("ca.pem")), vec![], None);
    assert_eq!(error.message(), "opening TLS certificate file ca.pem");
    let error = upstream_error(NAME, Some(broken()), vec![], None);
    assert_eq!(error.message(), "parsing TLS certificate file broken.pem");
    let error = upstream_error(NAME, Some(no_anchor()), vec![], None);
    assert!(matches!(error, TlsError::AddCustomCa));
    let error = upstream_error(NAME, None, vec![vec![1, 2, 3]], None);
    assert!(matches!(error, TlsError::AddNativeCa));
    let client = |key: SourceFile| Some((cert_file(), key));
    let error = upstream_error(NAME, None, vec![], client(missing("key.pem")));
    assert_eq!(error.message(), "opening TLS key file key.pem");
    let error = upstream_error(NAME, None, vec![], client(file("key.pem", cert_pem())));
    assert_eq!(error.message(), "no private key found in key.pem");
    let error = upstream_error(NAME, None, vec![], client(file("key.pem", key_pem(OTHER_KEY))));
    assert!(matches!(error, TlsError::ClientAuthCert));
    let error = upstream_error("not a name", None, vec![], None);
    assert_eq!(error.message(), "invalid upstream TLS server name \"not a name\"");
}

#[test]
fn listener_tls_errors_name_what_is_wrong() {
    let broken_key = || {
        let label = "PRIVATE KEY";
        file("broken.pem", format!("-----BEGIN {label}-----\n*\n").into_bytes())
    };

    let error = listen_error(missing("cert.pem"), key_file(), None);
    assert!(matches!(error, TlsError::OpenCert { .. }));
    let error = listen_error(cert_file(), broken_key(), None);
    assert_eq!(error.message(), "parsing TLS key file broken.pem");
    let error = listen_error(cert_file(), file("key.pem", key_pem(OTHER_KEY)), None);
    assert!(matches!(error, TlsError::ServerConfig));
    let no_anchor = file("ca.pem", pem("CERTIFICATE", "3003020101"));
    let error = listen_error(cert_file(), key_file(), Some(no_anchor));
    assert!(matches!(error, TlsError::AddClientCa));
    let empty = file("ca.pem", Vec::new());
    let error = listen_error(cert_file(), key_file(), Some(empty));
    assert!(matches!(error, TlsError::ClientCertVerifier));
}

#[test]
fn authorities_are_reported_before_the_rest() {
    let error = upstream_error("not a name", Some(missing("ca.pem")), vec![], None);

    assert!(matches!(error, TlsError::OpenCert { .. }));
}

fn addr(port: u16) -> SocketAddr {
    SocketAddr { ip: "127.0.0.1".to_string(), port }
}

fn proxy_config() -> ProxyConfig {
    ProxyConfig {
        listen_addr: addr(3890),
        upstream_addr: addr(389),
        upstream_tls: None,
        listen_tls: None,
        listen_starttls: None,
        max_connections: default_max_connections(),
        io_timeout_secs: default_io_timeout_secs(),
        shutdown_timeout_secs: default_shutdown_timeout_secs(),
        policy: PolicySource { file: "policies/ldap.toml".to_string() },
    }
}

fn no_files() -> ProxyFiles {
    ProxyFiles {
        upstream_tls: None,
        listen_tls: None,
        listen_starttls: None,
        policies: Ok(vec![]),
    }
}

fn listen_files() -> ListenFiles {
    ListenFiles { cert: cert_file(), key: key_file(), client_ca: None }
}

fn listen_config() -> ListenTlsConfig {
    ListenTlsConfig {
        cert_file: "cert.pem".to_string(),
        key_file: "key.pem".to_string(),
        client_ca_file: None,
    }
}

fn upstream_config(starttls: bool) -> UpstreamTlsConfig {
    UpstreamTlsConfig {
        server_name: NAME.to_string(),
        ca_file: Some("cert.pem".to_string()),
        client_cert: Some(ClientCertConfig {
            cert_file: "cert.pem".to_string(),
            key_file: "key.pem".to_string(),
        }),
        starttls,
    }
}

fn upstream_files() -> UpstreamFiles {
    UpstreamFiles {
        ca: Some(cert_file()),
        native_certs: vec![],
        client_cert: Some((cert_file(), key_file())),
    }
}

fn threshold(max_per_request: usize) -> ThresholdConfig {
    ThresholdConfig {
        max_per_request,
        max_per_window: 10,
        window: Duration::from_secs(60),
        state_db: None,
        flush_interval: Duration::from_secs(2),
        max_tracked_identities: 100_000,
        scope: ThresholdScope::PerIdentity,
        operations: None,
    }
}

type Builder = ProxyBuilder<LdapConnector, ThresholdPolicy, (), ()>;

fn built(proxy: &ProxyConfig, files: ProxyFiles) -> Result<Builder, Error> {
    build_proxy(proxy, files)
}

#[test]
fn serve_without_a_connector_fails_fast() {
    let builder: Builder = ProxyBuilder::new(addr(1));

    let err = builder.ready().err().expect("expected an error");

    assert!(matches!(err, Error::MissingConnector));
    assert_eq!(err.message(), "proxy builder requires a connector before serving");
}

#[test]
fn a_proxy_is_put_together_without_a_config_file() {
    let builder: Builder = ProxyBuilder::new(addr(1))
        .connector(LdapConnector::new(addr(2), None))
        .policy(ThresholdPolicy::new(threshold(10)))
        .policies(vec![ThresholdPolicy::new(threshold(20))])
        .limits(ConnectionLimits { max_connections: 7, ..ConnectionLimits::default() })
        .shutdown(());

    let proxy = builder.ready().ok().expect("the proxy has all its parts");

    assert_eq!(proxy.listen_addr, addr(1));
    assert!(matches!(proxy.transport, ClientTransport::Plain));
    assert!(matches!(proxy.policies, PolicySupply::Fixed(list) if list.len() == 2));
    assert_eq!(proxy.limits.max_connections, 7);
    assert!(proxy.shutdown.is_some());
    assert!(matches!(proxy.connector.dial_plan(), (at, DialPlan::Plain) if *at == addr(2)));
}

#[test]
fn reloadable_policies_take_the_place_of_the_list() {
    let builder: Builder = ProxyBuilder::new(addr(1))
        .connector(LdapConnector::new(addr(2), None))
        .policy(ThresholdPolicy::new(threshold(10)))
        .policies_reloadable(());

    let proxy = builder.ready().ok().expect("the proxy has all its parts");

    assert!(matches!(proxy.policies, PolicySupply::Reloadable(())));
    assert!(proxy.shutdown.is_none());
}

#[test]
fn tls_from_the_first_octet_wins_over_starttls() {
    let settings = || ListenTls::from_files(&cert_file(), &key_file(), None).ok().unwrap();
    let both: Builder = ProxyBuilder::new(addr(1))
        .connector(LdapConnector::new(addr(2), None))
        .listen_starttls(settings())
        .listen_tls(settings());
    let one: Builder = ProxyBuilder::new(addr(1))
        .connector(LdapConnector::new(addr(2), None))
        .listen_starttls(settings());

    assert!(matches!(both.ready().ok().unwrap().transport, ClientTransport::Tls(_)));
    assert!(matches!(one.ready().ok().unwrap().transport, ClientTransport::StartTls(_)));
}

#[test]
fn a_minimal_proxy_is_built_with_the_defaults() {
    let proxy = built(&proxy_config(), no_files())
        .ok()
        .expect("nothing can go wrong")
        .ready()
        .ok()
        .expect("the proxy has a connector");

    assert_eq!(proxy.listen_addr, addr(3890));
    assert!(matches!(proxy.connector.dial_plan(), (at, DialPlan::Plain) if *at == addr(389)));
    assert!(matches!(proxy.transport, ClientTransport::Plain));
    assert!(matches!(proxy.policies, PolicySupply::Fixed(list) if list.is_empty()));
    assert_eq!(proxy.limits.max_connections, ConnectionLimits::default().max_connections);
    assert_eq!(proxy.limits.io_timeout.as_secs(), 60);
    assert_eq!(proxy.limits.shutdown_timeout.as_secs(), 30);
}

#[test]
fn a_proxy_with_tls_on_both_hops_is_built() {
    let mut config = proxy_config();
    config.upstream_tls = Some(upstream_config(false));
    config.listen_tls = Some(listen_config());
    config.max_connections = 10;
    config.io_timeout_secs = 5;
    let files = ProxyFiles {
        upstream_tls: Some(upstream_files()),
        listen_tls: Some(listen_files()),
        policies: Ok(vec![(PolicyEntry::Threshold(threshold(1)), None)]),
        ..no_files()
    };

    let proxy = built(&config, files).ok().expect("the files are usable").ready().ok().unwrap();

    assert!(matches!(proxy.connector.dial_plan().1, DialPlan::Tls(_)));
    assert!(matches!(proxy.transport, ClientTransport::Tls(_)));
    assert!(matches!(proxy.policies, PolicySupply::Fixed(list) if list.len() == 1));
    assert_eq!(proxy.limits.max_connections, 10);
    assert_eq!(proxy.limits.io_timeout.as_secs(), 5);
}

#[test]
fn a_proxy_with_starttls_on_both_hops_is_built() {
    let mut config = proxy_config();
    config.upstream_tls = Some(upstream_config(true));
    config.listen_starttls = Some(listen_config());
    let files = ProxyFiles {
        upstream_tls: Some(upstream_files()),
        listen_starttls: Some(listen_files()),
        ..no_files()
    };

    let proxy = built(&config, files).ok().expect("the files are usable").ready().ok().unwrap();

    assert!(matches!(proxy.connector.dial_plan().1, DialPlan::StartTls(_)));
    assert!(matches!(proxy.transport, ClientTransport::StartTls(_)));
}

#[test]
fn the_first_unusable_file_is_reported() {
    let mut config = proxy_config();
    config.listen_tls = Some(listen_config());
    let unreadable = || Err(PolicyConfigError::Read { path: "policies/ldap.toml".to_string() });
    let files = ProxyFiles {
        listen_tls: Some(ListenFiles { key: missing("key.pem"), ..listen_files() }),
        policies: unreadable(),
        ..no_files()
    };

    let error = built(&config, files).err().expect("expected an error");
    assert!(matches!(error, Error::Tls(TlsError::OpenKey { .. })));
    assert_eq!(error.message(), "opening TLS key file key.pem");

    let files = ProxyFiles { policies: unreadable(), ..no_files() };
    let error = built(&proxy_config(), files).err().expect("expected an error");
    assert!(matches!(error, Error::Policy(PolicyConfigError::Read { .. })));
    assert_eq!(
        error.message(),
        "reading policy file policies/ldap.toml (copy policies/ldap.example.toml to get started)"
    );
}

#[test]
fn config_errors_read_exactly() {
    let err = ConfigError::Read { path: "/nonexistent/path/config.toml".to_string() };

    assert_eq!(
        err.message(),
        "reading config file /nonexistent/path/config.toml (copy config.example.toml to get started)"
    );
    let err = ConfigError::Parse { path: "config.toml".to_string() };
    assert_eq!(Error::Config(err).message(), "parsing config file config.toml");
}

#[test]
fn a_config_needs_something_to_listen_on() {
    let empty = Config { proxy: vec![], metrics: None, health: None };
    let one = Config { proxy: vec![proxy_config()], metrics: None, health: None };

    assert_eq!(empty.check(), Err(ConfigError::NoProxy));
    assert_eq!(one.check(), Ok(()));
}

#[test]
fn a_failed_reload_leaves_its_entry_alone() {
    let failed = PolicyConfigError::Parse { path: "b.toml".to_string() };

    let outcome = reload(vec![Ok("a"), Err(failed.clone()), Ok("c")]);

    assert_eq!(outcome.replaced, vec![(0, "a"), (2, "c")]);
    assert_eq!(outcome.kept, vec![(1, failed)]);
}

#[test]
fn the_process_waits_for_every_proxy_unless_one_fails() {
    let mut supervisor = Supervisor::new(2);
    assert!(!supervisor.is_done());
    assert!(supervisor.on_exit(Ok(())).is_none());
    assert!(matches!(supervisor.on_exit(Ok(())), Some(Ok(()))));
    assert!(supervisor.is_done());

    let mut supervisor = Supervisor::new(2);
    let end = supervisor.on_exit(Err(Error::MissingConnector));
    assert!(matches!(end, Some(Err(Error::MissingConnector))));
}
