//! TLS in both directions.
//!
//! Towards clients the proxy presents a certificate chain of its own; towards
//! upstreams it verifies servers against the Mozilla root certificates of
//! `webpki_roots`. Both sides offer HTTP/2 ahead of HTTP/1.1.
//!
//! What the `rustls` and `hyper` types hold, as far as the proxy sets it, is
//! named here, and each call into them has one wrapper.
use crate::error::ProxyError;
use hyper_rustls::{HttpsConnector, HttpsConnectorBuilder};
use hyper_util::client::legacy::connect::dns::GaiResolver;
use hyper_util::client::legacy::connect::HttpConnector;
use rustls::pki_types::pem::PemObject;
use rustls::pki_types::{CertificateDer, PrivateKeyDer};
use rustls::{ClientConfig, RootCertStore, ServerConfig};
use std::sync::Arc;
use std::time::Duration;
use tokio_rustls::TlsAcceptor;
use vstd::prelude::*;

verus! {

/// `rustls::pki_types::CertificateDer`, the bytes of one certificate.
#[verifier::external_type_specification]
#[verifier::external_body]
pub struct ExCertificateDer<'a>(CertificateDer<'a>);

/// `rustls::pki_types::PrivateKeyDer`, the bytes of a private key.
#[verifier::external_type_specification]
#[verifier::external_body]
pub struct ExPrivateKeyDer<'a>(PrivateKeyDer<'a>);

/// `rustls::ServerConfig`.
#[verifier::external_type_specification]
#[verifier::external_body]
pub struct ExServerConfig(ServerConfig);

/// `rustls::ClientConfig`.
#[verifier::external_type_specification]
#[verifier::external_body]
pub struct ExClientConfig(ClientConfig);

/// `rustls::RootCertStore`.
#[verifier::external_type_specification]
#[verifier::external_body]
pub struct ExRootCertStore(RootCertStore);

/// `tokio_rustls::TlsAcceptor`.
#[verifier::external_type_specification]
#[verifier::external_body]
pub struct ExTlsAcceptor(TlsAcceptor);

/// The default resolver of `hyper_util`.
#[verifier::external_type_specification]
#[verifier::external_body]
pub struct ExGaiResolver(GaiResolver);

/// `hyper_util::client::legacy::connect::HttpConnector`.
#[verifier::external_type_specification]
#[verifier::external_body]
#[verifier::reject_recursive_types(R)]
pub struct ExHttpConnector<R>(HttpConnector<R>);

/// `hyper_rustls::HttpsConnector`.
#[verifier::external_type_specification]
#[verifier::external_body]
#[verifier::reject_recursive_types(T)]
pub struct ExHttpsConnector<T>(HttpsConnector<T>);

/// The bytes of a certificate.
pub uninterp spec fn certificate_bytes(certificate: CertificateDer<'static>) -> Seq<u8>;

/// The bytes of a private key.
pub uninterp spec fn key_bytes(key: PrivateKeyDer<'static>) -> Seq<u8>;

/// The certificates in a text in the PEM format, or why it cannot be read.
pub uninterp spec fn pem_certificates(pem: Seq<u8>) -> Result<Seq<Seq<u8>>, Seq<char>>;

/// The first private key in a text in the PEM format, or why there is none.
pub uninterp spec fn pem_key(pem: Seq<u8>) -> Result<Seq<u8>, Seq<char>>;

/// `rustls`, under some provider of cryptography, refuses to serve this
/// certificate chain with this private key, for this reason.
pub uninterp spec fn may_refuse(chain: Seq<Seq<u8>>, key: Seq<u8>, reason: Seq<char>) -> bool;

/// The certificate chain that a server presents.
pub uninterp spec fn server_chain(config: ServerConfig) -> Seq<Seq<u8>>;

/// The private key with which a server proves that the chain is its own.
pub uninterp spec fn server_key(config: ServerConfig) -> Seq<u8>;

/// A server asks its clients for a certificate.
pub uninterp spec fn server_asks_client(config: ServerConfig) -> bool;

/// The versions 1.x of TLS that a server speaks, by their second number.
pub uninterp spec fn server_versions(config: ServerConfig) -> Set<u8>;

/// The protocols that a server offers, the preferred one first.
pub uninterp spec fn server_protocols(config: ServerConfig) -> Seq<Seq<u8>>;

/// The certificate chain that an acceptor presents.
pub uninterp spec fn acceptor_chain(acceptor: TlsAcceptor) -> Seq<Seq<u8>>;

/// The private key with which an acceptor proves that the chain is its own.
pub uninterp spec fn acceptor_key(acceptor: TlsAcceptor) -> Seq<u8>;

/// An acceptor asks its clients for a certificate.
pub uninterp spec fn acceptor_asks_client(acceptor: TlsAcceptor) -> bool;

/// The versions 1.x of TLS that an acceptor speaks, by their second number.
pub uninterp spec fn acceptor_versions(acceptor: TlsAcceptor) -> Set<u8>;

/// The protocols that an acceptor offers, the preferred one first.
pub uninterp spec fn acceptor_protocols(acceptor: TlsAcceptor) -> Seq<Seq<u8>>;

/// The store holds the Mozilla root certificates of `webpki_roots`, and no
/// others.
pub uninterp spec fn holds_mozilla_roots(store: RootCertStore) -> bool;

/// The roots against which a client verifies servers.
pub uninterp spec fn client_roots(config: ClientConfig) -> RootCertStore;

/// A client presents a certificate of its own to a server that asks for one.
pub uninterp spec fn client_presents(config: ClientConfig) -> bool;

/// The versions 1.x of TLS that a client speaks, by their second number.
pub uninterp spec fn client_versions(config: ClientConfig) -> Set<u8>;

/// The protocols that a client offers, the preferred one first.
pub uninterp spec fn client_protocols(config: ClientConfig) -> Seq<Seq<u8>>;

/// How long a connector waits for a TCP connection.
pub uninterp spec fn connect_timeout(connector: HttpConnector) -> Option<Duration>;

/// A connector refuses every scheme but `http`.
pub uninterp spec fn http_only(connector: HttpConnector) -> bool;

/// The connector that makes the TCP connections of an HTTPS connector.
pub uninterp spec fn transport(connector: HttpsConnector<HttpConnector>) -> HttpConnector;

/// An HTTPS connector refuses the scheme `http`.
pub uninterp spec fn https_only(connector: HttpsConnector<HttpConnector>) -> bool;

/// The roots against which an HTTPS connector verifies servers.
pub uninterp spec fn connector_roots(connector: HttpsConnector<HttpConnector>) -> RootCertStore;

/// An HTTPS connector presents a certificate of its own to a server that asks
/// for one.
pub uninterp spec fn connector_presents(connector: HttpsConnector<HttpConnector>) -> bool;

/// The versions 1.x of TLS that an HTTPS connector speaks, by their second
/// number.
pub uninterp spec fn connector_versions(connector: HttpsConnector<HttpConnector>) -> Set<u8>;

/// The protocols that an HTTPS connector offers, the preferred one first.
pub uninterp spec fn connector_protocols(connector: HttpsConnector<HttpConnector>) -> Seq<
    Seq<u8>,
>;

/// HTTP/2, and then HTTP/1.1.
pub open spec fn both_protocols() -> Seq<Seq<u8>> {
    seq![vstd::utf8::encode_utf8("h2"@), vstd::utf8::encode_utf8("http/1.1"@)]
}

/// TLS 1.2 and TLS 1.3.
pub open spec fn both_versions() -> Set<u8> {
    set![2u8, 3u8]
}

/// The bytes of a chain of certificates.
pub open spec fn chain_bytes(certificates: Seq<CertificateDer<'static>>) -> Seq<Seq<u8>> {
    Seq::new(certificates.len(), |i: int| certificate_bytes(certificates[i]))
}

/// The bytes of the lists in a list.
pub open spec fn nested(lists: Seq<Vec<u8>>) -> Seq<Seq<u8>> {
    Seq::new(lists.len(), |i: int| lists[i]@)
}

/// `CertificateDer::pem_slice_iter`, with all its items collected or the
/// first error in words.
#[verifier::external_body]
fn parse_certificates(pem: &[u8]) -> (r: Result<Vec<CertificateDer<'static>>, String>)
    ensures
        match pem_certificates(pem@) {
            Ok(chain) => r is Ok && Seq::new(
                r->Ok_0@.len(),
                |i: int| certificate_bytes(r->Ok_0@[i]),
            ) == chain,
            Err(reason) => r is Err && r->Err_0@ == reason,
        },
{
    CertificateDer::pem_slice_iter(pem).collect::<Result<Vec<_>, _>>().map_err(|e| e.to_string())
}

/// `PrivateKeyDer::from_pem_slice`, with the error in words.
#[verifier::external_body]
fn parse_key(pem: &[u8]) -> (r: Result<PrivateKeyDer<'static>, String>)
    ensures
        match pem_key(pem@) {
            Ok(bytes) => r is Ok && key_bytes(r->Ok_0) == bytes,
            Err(reason) => r is Err && r->Err_0@ == reason,
        },
{
    PrivateKeyDer::from_pem_slice(pem).map_err(|e| e.to_string())
}

/// `rustls::ServerConfig::builder` without client authentication and with one
/// certificate chain and its key. Whether it takes them depends on the
/// provider of cryptography that the process has installed, so of a refusal
/// it is only said that it is one of this chain and this key. A configuration
/// speaks all versions that `rustls` does, and offers no protocol at first.
#[verifier::external_body]
fn server_config(certificates: Vec<CertificateDer<'static>>, key: PrivateKeyDer<'static>) -> (r:
    Result<ServerConfig, String>)
    ensures
        r matches Ok(config) ==> server_chain(config) == chain_bytes(certificates@) && server_key(
            config,
        ) == key_bytes(key),
        r matches Ok(config) ==> !server_asks_client(config) && server_versions(config)
            == both_versions() && server_protocols(config).len() == 0,
        r matches Err(reason) ==> may_refuse(
            chain_bytes(certificates@),
            key_bytes(key),
            reason@,
        ),
{
    let builder = ServerConfig::builder().with_no_client_auth();
    builder.with_single_cert(certificates, key).map_err(|e| e.to_string())
}

/// The field `alpn_protocols` of `rustls::ServerConfig`, which changes what is
/// offered and nothing else.
#[verifier::external_body]
fn offer(config: &mut ServerConfig, protocols: Vec<Vec<u8>>)
    ensures
        server_protocols(*final(config)) == nested(protocols@),
        server_chain(*final(config)) == server_chain(*old(config)),
        server_key(*final(config)) == server_key(*old(config)),
        server_asks_client(*final(config)) == server_asks_client(*old(config)),
        server_versions(*final(config)) == server_versions(*old(config)),
{
    config.alpn_protocols = protocols;
}

/// `TlsAcceptor::from`, which serves as the configuration says.
#[verifier::external_body]
fn acceptor_from(config: ServerConfig) -> (acceptor: TlsAcceptor)
    ensures
        acceptor_protocols(acceptor) == server_protocols(config),
        acceptor_chain(acceptor) == server_chain(config),
        acceptor_key(acceptor) == server_key(config),
        acceptor_asks_client(acceptor) == server_asks_client(config),
        acceptor_versions(acceptor) == server_versions(config),
{
    TlsAcceptor::from(Arc::new(config))
}

/// `rustls::RootCertStore::from_iter` over `webpki_roots::TLS_SERVER_ROOTS`.
#[verifier::external_body]
fn mozilla_roots() -> (store: RootCertStore)
    ensures
        holds_mozilla_roots(store),
{
    RootCertStore::from_iter(webpki_roots::TLS_SERVER_ROOTS.iter().cloned())
}

/// `rustls::ClientConfig::builder` with these roots and without client
/// authentication. A configuration speaks all versions that `rustls` does, and
/// offers no protocol at first.
#[verifier::external_body]
fn client_config(roots: RootCertStore) -> (config: ClientConfig)
    ensures
        client_roots(config) == roots,
        !client_presents(config),
        client_versions(config) == both_versions(),
        client_protocols(config).len() == 0,
{
    ClientConfig::builder().with_root_certificates(roots).with_no_client_auth()
}

/// `HttpConnector::new`: without a timeout, and for the scheme `http` alone.
#[verifier::external_body]
fn new_http_connector() -> (connector: HttpConnector)
    ensures
        connect_timeout(connector) is None,
        http_only(connector),
{
    HttpConnector::new()
}

/// `HttpConnector::set_connect_timeout`.
#[verifier::external_body]
fn limit_connecting(connector: &mut HttpConnector, timeout: Duration)
    ensures
        connect_timeout(*final(connector)) == Some(timeout),
        http_only(*final(connector)) == http_only(*old(connector)),
{
    connector.set_connect_timeout(Some(timeout));
}

/// `HttpConnector::enforce_http`.
#[verifier::external_body]
fn enforce_http(connector: &mut HttpConnector, enforced: bool)
    ensures
        http_only(*final(connector)) == enforced,
        connect_timeout(*final(connector)) == connect_timeout(*old(connector)),
{
    connector.enforce_http(enforced);
}

/// `HttpsConnectorBuilder` with a TLS configuration, for both schemes and all
/// versions of HTTP, around a connector. The builder sets the protocols
/// itself and panics where some are set already, so a configuration with some
/// is left out.
#[verifier::external_body]
fn wrap_connector(config: ClientConfig, connector: HttpConnector) -> (r: HttpsConnector<
    HttpConnector,
>)
    requires
        client_protocols(config).len() == 0,
    ensures
        transport(r) == connector,
        !https_only(r),
        connector_roots(r) == client_roots(config),
        connector_presents(r) == client_presents(config),
        connector_versions(r) == client_versions(config),
        connector_protocols(r) == both_protocols(),
{
    let builder = HttpsConnectorBuilder::new().with_tls_config(config).https_or_http();
    builder.enable_all_versions().wrap_connector(connector)
}

/// Joins a message about a file and its reason.
fn about_file(what: &str, path: &str, reason: &str) -> (r: ProxyError)
    ensures
        r@ == crate::error::ErrorView::Tls(what@ + path@ + ": "@ + reason@),
{
    let mut message = what.to_owned();
    message.append(path);
    message.append(": ");
    message.append(reason);
    ProxyError::Tls(message)
}

/// The error of a certificate file that cannot be opened.
pub fn certificate_file_error(path: &str, reason: &str) -> (r: ProxyError)
    ensures
        r@ == crate::error::ErrorView::Tls(
            "failed to open cert file "@ + path@ + ": "@ + reason@,
        ),
{
    about_file("failed to open cert file ", path, reason)
}

/// The error of a certificate file that is open but cannot be read to the end,
/// or whose contents are no certificates.
pub fn certificate_contents_error(path: &str, reason: &str) -> (r: ProxyError)
    ensures
        r@ == crate::error::ErrorView::Tls(
            "failed to parse certificates from "@ + path@ + ": "@ + reason@,
        ),
{
    about_file("failed to parse certificates from ", path, reason)
}

/// Reads the certificates out of `pem`, the contents of the file at `path`.
pub fn load_certs(path: &str, pem: &[u8]) -> (r: Result<
    Vec<CertificateDer<'static>>,
    ProxyError,
>)
    ensures
        match pem_certificates(pem@) {
            Ok(chain) => r is Ok && chain_bytes(r->Ok_0@) == chain,
            Err(reason) => r is Err && r->Err_0@ == crate::error::ErrorView::Tls(
                "failed to parse certificates from "@ + path@ + ": "@ + reason,
            ),
        },
{
    match parse_certificates(pem) {
        Ok(certificates) => {
            assert(chain_bytes(certificates@) =~= pem_certificates(pem@)->Ok_0);
            Ok(certificates)
        },
        Err(reason) => Err(certificate_contents_error(path, reason.as_str())),
    }
}

/// The error of a private key that cannot be loaded.
pub fn key_file_error(path: &str, reason: &str) -> (r: ProxyError)
    ensures
        r@ == crate::error::ErrorView::Tls(
            "failed to load private key from "@ + path@ + ": "@ + reason@,
        ),
{
    about_file("failed to load private key from ", path, reason)
}

/// Reads the first private key out of `pem`, the contents of the file at
/// `path`.
pub fn load_private_key(path: &str, pem: &[u8]) -> (r: Result<
    PrivateKeyDer<'static>,
    ProxyError,
>)
    ensures
        match pem_key(pem@) {
            Ok(bytes) => r is Ok && key_bytes(r->Ok_0) == bytes,
            Err(reason) => r is Err && r->Err_0@ == crate::error::ErrorView::Tls(
                "failed to load private key from "@ + path@ + ": "@ + reason,
            ),
        },
{
    match parse_key(pem) {
        Ok(key) => Ok(key),
        Err(reason) => Err(key_file_error(path, reason.as_str())),
    }
}

/// The protocols that are offered to clients: HTTP/2 ahead of HTTP/1.1, so
/// that a client that can do both takes the former.
pub fn alpn_protocols() -> (r: Vec<Vec<u8>>)
    ensures
        nested(r@) == both_protocols(),
{
    let mut h2: Vec<u8> = Vec::new();
    h2.extend_from_slice("h2".as_bytes());
    let mut http11: Vec<u8> = Vec::new();
    http11.extend_from_slice("http/1.1".as_bytes());
    let r = vec![h2, http11];
    assert(h2@ =~= vstd::utf8::encode_utf8("h2"@));
    assert(http11@ =~= vstd::utf8::encode_utf8("http/1.1"@));
    assert(nested(r@) =~= both_protocols());
    r
}

/// Makes an acceptor of a server configuration, which serves as that says and
/// offers both protocols, or the error that there is none.
pub fn acceptor_for(config: Result<ServerConfig, String>) -> (r: Result<TlsAcceptor, ProxyError>)
    ensures
        match config {
            Ok(config) => r is Ok && acceptor_protocols(r->Ok_0) == both_protocols()
                && acceptor_chain(r->Ok_0) == server_chain(config) && acceptor_key(r->Ok_0)
                == server_key(config) && acceptor_asks_client(r->Ok_0) == server_asks_client(
                config,
            ) && acceptor_versions(r->Ok_0) == server_versions(config),
            Err(reason) => r is Err && r->Err_0@ == crate::error::ErrorView::Tls(
                "failed to build TLS server config: "@ + reason@,
            ),
        },
{
    match config {
        Ok(config) => {
            let mut config = config;
            offer(&mut config, alpn_protocols());
            Ok(acceptor_from(config))
        },
        Err(reason) => {
            let mut message = "failed to build TLS server config: ".to_owned();
            message.append(reason.as_str());
            Err(ProxyError::Tls(message))
        },
    }
}

/// Builds an acceptor of TLS connections out of a certificate chain and its
/// private key. It presents that chain, asks clients for no certificate,
/// speaks TLS 1.2 and 1.3, and offers HTTP/2 ahead of HTTP/1.1.
pub fn build_tls_acceptor(
    certificates: Vec<CertificateDer<'static>>,
    key: PrivateKeyDer<'static>,
) -> (r: Result<TlsAcceptor, ProxyError>)
    ensures
        match r {
            Ok(acceptor) => acceptor_chain(acceptor) == chain_bytes(certificates@) && acceptor_key(
                acceptor,
            ) == key_bytes(key) && !acceptor_asks_client(acceptor) && acceptor_versions(acceptor)
                == both_versions() && acceptor_protocols(acceptor) == both_protocols(),
            Err(e) => exists|reason: Seq<char>|
                e@ == crate::error::ErrorView::Tls("failed to build TLS server config: "@ + reason)
                    && #[trigger] may_refuse(chain_bytes(certificates@), key_bytes(key), reason),
        },
{
    acceptor_for(server_config(certificates, key))
}

/// Builds a connector for upstream connections without TLS, which waits no
/// longer than `connect_timeout_limit` for a TCP connection.
pub fn build_http_connector(connect_timeout_limit: Duration) -> (r: HttpConnector)
    ensures
        connect_timeout(r) == Some(connect_timeout_limit),
        http_only(r),
{
    let mut http = new_http_connector();
    limit_connecting(&mut http, connect_timeout_limit);
    http
}

/// Builds a connector for upstream connections, over TLS or not as the
/// upstream's scheme says. It verifies servers against the Mozilla roots,
/// presents no certificate of its own, speaks TLS 1.2 and 1.3, offers HTTP/2
/// ahead of HTTP/1.1, and waits no longer than `connect_timeout_limit` for a
/// TCP connection.
pub fn build_https_connector(connect_timeout_limit: Duration) -> (r: HttpsConnector<
    HttpConnector,
>)
    ensures
        connect_timeout(transport(r)) == Some(connect_timeout_limit),
        !http_only(transport(r)),
        !https_only(r),
        holds_mozilla_roots(connector_roots(r)),
        !connector_presents(r),
        connector_versions(r) == both_versions(),
        connector_protocols(r) == both_protocols(),
{
    let config = client_config(mozilla_roots());
    let mut http = new_http_connector();
    limit_connecting(&mut http, connect_timeout_limit);
    enforce_http(&mut http, false);
    wrap_connector(config, http)
}

/// HTTP/2 is offered ahead of HTTP/1.1, under the names that are registered
/// for them, and nothing besides, and TLS is spoken in the versions 1.2 and 1.3.
pub proof fn law_what_is_offered(version: u8)
    ensures
        both_protocols().len() == 2,
        both_protocols()[0] == seq![104u8, 50],
        both_protocols()[1] == seq![104u8, 116, 116, 112, 47, 49, 46, 49],
        both_versions().contains(version) <==> 2 <= version <= 3,
{
    reveal_strlit("h2");
    reveal_strlit("http/1.1");
    crate::text::lemma_ascii_spelled("h2"@);
    crate::text::lemma_ascii_spelled("http/1.1"@);
    assert(both_protocols()[0] =~= seq![104u8, 50]);
    assert(both_protocols()[1] =~= seq![104u8, 116, 116, 112, 47, 49, 46, 49]);
}

/// A chain has the bytes of its certificates, in their order, and a list of
/// lists the bytes of each.
pub proof fn law_chains_keep_their_order(
    certificates: Seq<CertificateDer<'static>>,
    lists: Seq<Vec<u8>>,
)
    ensures
        chain_bytes(certificates).len() == certificates.len(),
        forall|i: int|
            #![trigger certificates[i]]
            0 <= i < certificates.len() ==> chain_bytes(certificates)[i] == certificate_bytes(
                certificates[i],
            ),
        nested(lists).len() == lists.len(),
        forall|i: int| #![trigger lists[i]] 0 <= i < lists.len() ==> nested(lists)[i] == lists[i]@,
{
}

} // verus!
