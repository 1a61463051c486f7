use palisade::error::ProxyError;
use palisade::tls::{
    acceptor_for, alpn_protocols, build_http_connector, build_https_connector,
    build_tls_acceptor, certificate_contents_error, certificate_file_error, key_file_error,
    load_certs, load_private_key,
};
use std::time::Duration;

/// A self-signed certificate for `localhost`, and its private key.
const SERVER_CERT: &str = "\
MIIBPzCB5aADAgECAgEBMAoGCCqGSM49BAMCMBQxEjAQBgNVBAMMCWxvY2FsaG9z\n\
dDAgFw0wMDAxMDEwMDAwMDBaGA8yMDk5MTIzMTAwMDAwMFowFDESMBAGA1UEAwwJ\n\
bG9jYWxob3N0MFkwEwYHKoZIzj0CAQYIKoZIzj0DAQcDQgAEYdE+HL66cE4MRyMZ\n\
mag0Tait2ruZpLW3Yim6hoKkX9MMPqCCBfHFIomJps3PNvaYUbRjIToojJvsUSPk\n\
BmVeAaMmMCQwFAYDVR0RBA0wC4IJbG9jYWxob3N0MAwGA1UdEwEB/wQCMAAwCgYI\n\
KoZIzj0EAwIDSQAwRgIhAKd5mx2KhA2qJB6V/5UX/FSBkBQUEsunWl2uW9nRue9A\n\
AiEA63Ok06y4wvjS3TNbvjBY5kfQzFrd0Td8SE+TlWbOfbI=";
const SERVER_KEY: &str = "\
MIGHAgEAMBMGByqGSM49AgEGCCqGSM49AwEHBG0wawIBAQQg/+0aqdGUifr92KSV\n\
CpE0E8OyY/dIaKSiiVWbZh+/ipKhRANCAARh0T4cvrpwTgxHIxmZqDRNqK3au5mk\n\
tbdiKbqGgqRf0ww+oIIF8cUiiYmmzc829phRtGMhOiiMm+xRI+QGZV4B";

fn pem(label: &str, body: &str) -> String {
    format!("-----BEGIN {0}-----\n{1}\n-----END {0}-----\n", label, body)
}

fn certificate(body: &str) -> String {
    pem("CERTIFICATE", body)
}

fn private_key(body: &str) -> String {
    pem("PRIVATE KEY", body)
}

#[test]
fn certificates_are_read_in_order() {
    let pem = certificate("AQID") + &private_key("BAUG") + &certificate("BwgJ");
    let certs = load_certs("chain.pem", pem.as_bytes()).unwrap();
    assert_eq!(certs.len(), 2);
    assert_eq!(certs[0].as_ref(), [1, 2, 3]);
    assert_eq!(certs[1].as_ref(), [7, 8, 9]);
    assert!(load_certs("empty.pem", b"").unwrap().is_empty());
}

#[test]
fn a_broken_certificate_file_is_an_error() {
    let broken = "-----BEGIN CERTIFICATE-----\nAQID\n";
    match load_certs("chain.pem", broken.as_bytes()) {
        Err(ProxyError::Tls(message)) => assert!(
            message.starts_with(
                "failed to parse certificates from chain.pem: missing section end marker"
            ),
            "{}",
            message
        ),
        other => panic!("unexpected {:?}", other.is_ok()),
    }
}

#[test]
fn the_first_private_key_is_read() {
    let pem = certificate("AQID") + &private_key("BAUG") + &private_key("AAAA");
    let key = load_private_key("key.pem", pem.as_bytes()).unwrap();
    assert_eq!(key.secret_der(), [4, 5, 6]);
}

#[test]
fn a_file_without_a_key_is_an_error() {
    assert_eq!(
        load_private_key("key.pem", certificate("AQID").as_bytes()).unwrap_err(),
        ProxyError::Tls("failed to load private key from key.pem: no items found".into())
    );
}

#[test]
fn errors_name_the_file() {
    assert_eq!(
        certificate_file_error("a.pem", "not found"),
        ProxyError::Tls("failed to open cert file a.pem: not found".into())
    );
    assert_eq!(
        certificate_contents_error("a.pem", "I/O error"),
        ProxyError::Tls("failed to parse certificates from a.pem: I/O error".into())
    );
    assert_eq!(
        key_file_error("b.pem", "not found"),
        ProxyError::Tls("failed to load private key from b.pem: not found".into())
    );
}

#[test]
fn a_key_that_does_not_fit_is_refused() {
    let certs = load_certs("chain.pem", certificate("AQID").as_bytes()).unwrap();
    let key = load_private_key("key.pem", private_key("BAUG").as_bytes()).unwrap();
    match build_tls_acceptor(certs, key) {
        Err(ProxyError::Tls(message)) => {
            assert!(message.starts_with("failed to build TLS server config: "), "{}", message)
        }
        _ => panic!("a broken key was taken"),
    }
    match acceptor_for(Err("why".into())) {
        Err(e) => {
            assert_eq!(e, ProxyError::Tls("failed to build TLS server config: why".into()))
        }
        Ok(_) => panic!("an acceptor without a configuration"),
    }
}

#[test]
fn http2_is_offered_first() {
    assert_eq!(alpn_protocols(), vec![b"h2".to_vec(), b"http/1.1".to_vec()]);
}

#[test]
fn connectors_are_built() {
    let shown = format!("{:?}", build_https_connector(Duration::from_secs(3)));
    assert!(shown.contains("force_https: false"), "{}", shown);
    let _ = build_http_connector(Duration::from_secs(3));
}

#[test]
fn an_acceptor_offers_http2_first() {
    let resolver = std::sync::Arc::new(rustls::server::ResolvesServerCertUsingSni::new());
    let config = rustls::ServerConfig::builder()
        .with_no_client_auth()
        .with_cert_resolver(resolver);
    match acceptor_for(Ok(config)) {
        Ok(acceptor) => assert_eq!(acceptor.config().alpn_protocols, alpn_protocols()),
        Err(e) => panic!("refused: {:?}", e),
    }
}

/// Runs a handshake between `client` and `server` in memory.
fn shake_hands(client: &mut rustls::ClientConnection, server: &mut rustls::ServerConnection) {
    for _ in 0..10 {
        let mut to_server = Vec::new();
        while client.wants_write() {
            client.write_tls(&mut to_server).unwrap();
        }
        let mut bytes = to_server.as_slice();
        while !bytes.is_empty() {
            server.read_tls(&mut bytes).unwrap();
            server.process_new_packets().unwrap();
        }
        let mut to_client = Vec::new();
        while server.wants_write() {
            server.write_tls(&mut to_client).unwrap();
        }
        let mut bytes = to_client.as_slice();
        while !bytes.is_empty() {
            client.read_tls(&mut bytes).unwrap();
            client.process_new_packets().unwrap();
        }
    }
}

fn connect(
    protocols: &[&[u8]],
    versions: &[&'static rustls::SupportedProtocolVersion],
) -> (rustls::ClientConnection, rustls::ServerConnection) {
    let certs = load_certs("cert.pem", certificate(SERVER_CERT).as_bytes()).unwrap();
    let key = load_private_key("key.pem", private_key(SERVER_KEY).as_bytes()).unwrap();
    let mut roots = rustls::RootCertStore::empty();
    roots.add(certs[0].clone()).unwrap();
    let acceptor = match build_tls_acceptor(certs, key) {
        Ok(acceptor) => acceptor,
        Err(e) => panic!("refused: {:?}", e),
    };
    let mut config = rustls::ClientConfig::builder_with_protocol_versions(versions)
        .with_root_certificates(roots)
        .with_no_client_auth();
    config.alpn_protocols = protocols.iter().map(|p| p.to_vec()).collect();
    let mut client = rustls::ClientConnection::new(
        std::sync::Arc::new(config),
        "localhost".try_into().unwrap(),
    )
    .unwrap();
    let mut server = rustls::ServerConnection::new(acceptor.config().clone()).unwrap();
    shake_hands(&mut client, &mut server);
    (client, server)
}

#[test]
fn an_acceptor_presents_its_chain_and_prefers_http2() {
    let (client, server) = connect(&[b"http/1.1", b"h2"], &[&rustls::version::TLS13]);
    assert!(!client.is_handshaking());
    assert_eq!(server.alpn_protocol(), Some(b"h2".as_slice()));
    let expected = load_certs("cert.pem", certificate(SERVER_CERT).as_bytes()).unwrap();
    assert_eq!(client.peer_certificates(), Some(expected.as_slice()));
    assert_eq!(server.peer_certificates(), None);
}

#[test]
fn an_acceptor_still_serves_http1_and_tls12() {
    let (client, server) = connect(&[b"http/1.1"], &[&rustls::version::TLS12]);
    assert!(!client.is_handshaking());
    assert_eq!(server.alpn_protocol(), Some(b"http/1.1".as_slice()));
    assert_eq!(server.protocol_version(), Some(rustls::ProtocolVersion::TLSv1_2));
}
