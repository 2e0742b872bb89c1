use permessage_deflate::deflate::{DeflateConfig, DeflateError, NegotiationError};
use permessage_deflate::extensions::{ExtensionsConfig, ExtensionsError};
use permessage_deflate::headers::{WebSocketExtension, WebSocketExtensions};

fn deflate_config() -> ExtensionsConfig {
    ExtensionsConfig { deflate: Some(DeflateConfig::default()) }
}

#[test]
fn handshake_with_no_parameters_resolves_default_config() {
    // Client side: offer without parameters.
    let client = deflate_config();
    let offers = client.create_offers();
    assert_eq!(offers.iter().len(), 1);
    assert_eq!(offers.iter()[0].name(), "permessage-deflate");
    assert!(offers.iter()[0].params().is_empty());

    // Server side: the offer is accepted with an empty-parameter response.
    let server = deflate_config();
    let (accepted, server_context) =
        server.negotiate_offers(&offers).expect("negotiation should not fail");
    assert_eq!(accepted.iter().len(), 1);
    assert_eq!(accepted.iter()[0].name(), "permessage-deflate");
    assert!(accepted.iter()[0].params().is_empty());
    assert!(server_context.expect("server should resolve a context").deflate.is_some());

    // Client side again: the response verifies with the default settings.
    let client_context = client
        .verify_extensions(&accepted)
        .expect("verification should succeed")
        .expect("client should resolve a context");
    assert!(client_context.deflate.is_some());
}

#[test]
fn handshake_echoes_server_no_context_takeover() {
    let client = ExtensionsConfig {
        deflate: Some(DeflateConfig {
            compression: 6,
            request_no_context_takeover: true,
            accept_no_context_takeover: false,
        }),
    };
    let offers = client.create_offers();
    assert_eq!(
        offers.iter()[0].params(),
        vec![("server_no_context_takeover", None)]
    );

    let server = deflate_config();
    let (accepted, _server_context) =
        server.negotiate_offers(&offers).expect("negotiation should not fail");
    assert_eq!(
        accepted.iter()[0].params(),
        vec![("server_no_context_takeover", None)]
    );

    let client_context = client
        .verify_extensions(&accepted)
        .expect("verification should succeed")
        .expect("client should resolve a context");
    assert!(client_context.deflate.is_some());
}

#[test]
fn verify_rejects_server_max_window_bits() {
    let client = deflate_config();
    let agreed = WebSocketExtensions::parse("permessage-deflate; server_max_window_bits=10");
    let result = client.verify_extensions(&agreed);
    assert!(matches!(
        result,
        Err(ExtensionsError::Deflate(DeflateError::Negotiation(
            NegotiationError::ServerMaxWindowBitsNotSupported
        )))
    ));
}

#[test]
fn verify_rejects_unknown_extension() {
    let client = deflate_config();
    let agreed = WebSocketExtensions::parse("x-custom-extension");
    let result = client.verify_extensions(&agreed);
    assert!(matches!(
        result,
        Err(ExtensionsError::InvalidExtension(name)) if name == "x-custom-extension"
    ));
}

#[test]
fn verify_rejects_repeated_extension() {
    let client = deflate_config();
    let agreed = WebSocketExtensions::parse("permessage-deflate, permessage-deflate");
    let result = client.verify_extensions(&agreed);
    assert!(matches!(
        result,
        Err(ExtensionsError::ExtensionConflict(name)) if name == "permessage-deflate"
    ));
}

#[test]
fn verify_with_nothing_agreed_resolves_nothing() {
    let client = deflate_config();
    let agreed = WebSocketExtensions::new(vec![]);
    let resolved = client.verify_extensions(&agreed).expect("verification should succeed");
    assert!(resolved.is_none());
}

#[test]
fn verify_without_offer_rejects_any_extension() {
    let client = ExtensionsConfig::default();
    let agreed = WebSocketExtensions::parse("permessage-deflate");
    let result = client.verify_extensions(&agreed);
    assert!(matches!(
        result,
        Err(ExtensionsError::InvalidExtension(name)) if name == "permessage-deflate"
    ));
}

#[test]
fn negotiate_declines_unacceptable_offers() {
    let server = deflate_config();
    let offers = WebSocketExtensions::parse("x-custom-extension; foo=bar");
    let (accepted, context) =
        server.negotiate_offers(&offers).expect("negotiation should not fail");
    assert_eq!(accepted.iter().len(), 0);
    assert!(context.is_none());
}

#[test]
fn negotiate_without_configuration_accepts_nothing() {
    let server = ExtensionsConfig::default();
    let offers = WebSocketExtensions::parse("permessage-deflate");
    let (accepted, context) =
        server.negotiate_offers(&offers).expect("negotiation should not fail");
    assert_eq!(accepted.iter().len(), 0);
    assert!(context.is_none());
}

#[test]
fn negotiated_contexts_interoperate() {
    // Full handshake, then the server compresses a message for the client.
    let client = deflate_config();
    let server = deflate_config();

    let offers = client.create_offers();
    let (accepted, server_context) =
        server.negotiate_offers(&offers).expect("negotiation should not fail");
    let mut server_deflate = server_context
        .expect("server should resolve a context")
        .deflate
        .expect("server should resolve the deflate codec");
    let mut client_deflate = client
        .verify_extensions(&accepted)
        .expect("verification should succeed")
        .expect("client should resolve a context")
        .deflate
        .expect("client should resolve the deflate codec");

    let payload = b"negotiated end to end".to_vec();
    let on_the_wire = server_deflate.compress(&payload).expect("compress should succeed");
    let received =
        client_deflate.decompress(on_the_wire, true).expect("decompress should succeed");
    assert_eq!(received, payload);
}
