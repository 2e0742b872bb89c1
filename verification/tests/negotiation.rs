use permessage_deflate::codec::DeflateContext;
use permessage_deflate::deflate::{
    is_valid_max_window_bits, DeflateConfig, DeflateError, NegotiationError,
};
use permessage_deflate::headers::WebSocketExtension;

const PERMESSAGE_DEFLATE_NAME: &str = "permessage-deflate";
const PARAM_CLIENT_MAX_WINDOW_BITS: &str = "client_max_window_bits";
const PARAM_CLIENT_NO_CONTEXT_TAKEOVER: &str = "client_no_context_takeover";
const PARAM_SERVER_MAX_WINDOW_BITS: &str = "server_max_window_bits";
const PARAM_SERVER_NO_CONTEXT_TAKEOVER: &str = "server_no_context_takeover";

#[test]
fn accept_correct_extension() {
    let config = DeflateConfig::default();

    let accepted_extension = config
        .accept_offer(&WebSocketExtension {
            name: PERMESSAGE_DEFLATE_NAME.to_owned(),
            params: vec![],
        })
        .expect("offer should have been accepted");
    assert_eq!(accepted_extension.name, PERMESSAGE_DEFLATE_NAME);
    assert!(accepted_extension.params.is_empty());
}

#[test]
fn accept_server_no_context_takeover() {
    let config = DeflateConfig::default();

    let accepted_extension = config
        .accept_offer(&WebSocketExtension {
            name: PERMESSAGE_DEFLATE_NAME.to_owned(),
            params: vec![(PARAM_SERVER_NO_CONTEXT_TAKEOVER.to_owned(), None)],
        })
        .expect("offer should have been accepted");
    assert_eq!(accepted_extension.name, PERMESSAGE_DEFLATE_NAME);
    assert_eq!(accepted_extension.params.len(), 1);
    assert_eq!(
        accepted_extension.params()[0],
        (PARAM_SERVER_NO_CONTEXT_TAKEOVER, None)
    );
}

#[test]
fn accept_client_no_context_takeover() {
    let config = DeflateConfig::default();

    let accepted_extension = config
        .accept_offer(&WebSocketExtension {
            name: PERMESSAGE_DEFLATE_NAME.to_owned(),
            params: vec![(PARAM_CLIENT_NO_CONTEXT_TAKEOVER.to_owned(), None)],
        })
        .expect("offer should have been accepted");
    assert_eq!(accepted_extension.name, PERMESSAGE_DEFLATE_NAME);
    assert_eq!(accepted_extension.params.len(), 1);
    assert_eq!(
        accepted_extension.params()[0],
        (PARAM_CLIENT_NO_CONTEXT_TAKEOVER, None)
    );
}

#[test]
fn reject_server_max_window_bits() {
    let config = DeflateConfig::default();

    let accepted_extension = config.accept_offer(&WebSocketExtension {
        name: PERMESSAGE_DEFLATE_NAME.to_owned(),
        params: vec![(PARAM_SERVER_MAX_WINDOW_BITS.to_owned(), None)],
    });
    assert!(accepted_extension.is_none());
}

#[test]
fn ignore_client_max_window_bits() {
    let config = DeflateConfig::default();

    let accepted_extension = config
        .accept_offer(&WebSocketExtension {
            name: PERMESSAGE_DEFLATE_NAME.to_owned(),
            params: vec![(PARAM_CLIENT_MAX_WINDOW_BITS.to_owned(), None)],
        })
        .expect("offer should have been accepted");
    assert_eq!(accepted_extension.name, PERMESSAGE_DEFLATE_NAME);
    assert!(accepted_extension.params.is_empty());
}

#[test]
fn reject_other_extension() {
    let config = DeflateConfig::default();

    let accepted_extension = config.accept_offer(&WebSocketExtension {
        name: "custom-extension".to_owned(),
        params: vec![],
    });
    assert!(accepted_extension.is_none());
}

#[test]
fn reject_unknown_parameter() {
    let config = DeflateConfig::default();

    let accepted_extension = config.accept_offer(&WebSocketExtension {
        name: "custom-extension".to_owned(),
        params: vec![("unknown_parameter".to_owned(), None)],
    });
    assert!(accepted_extension.is_none());
}

#[test]
fn reject_multiple_server_no_context_takeover() {
    let config = DeflateConfig::default();

    let accepted_extension = config.accept_offer(&WebSocketExtension {
        name: "custom-extension".to_owned(),
        params: vec![
            (PARAM_SERVER_NO_CONTEXT_TAKEOVER.to_owned(), None),
            (PARAM_SERVER_NO_CONTEXT_TAKEOVER.to_owned(), None),
        ],
    });
    assert!(accepted_extension.is_none());
}

#[test]
fn reject_multiple_client_no_context_takeover() {
    let config = DeflateConfig::default();

    let accepted_extension = config.accept_offer(&WebSocketExtension {
        name: "custom-extension".to_owned(),
        params: vec![
            (PARAM_CLIENT_NO_CONTEXT_TAKEOVER.to_owned(), None),
            (PARAM_CLIENT_NO_CONTEXT_TAKEOVER.to_owned(), None),
        ],
    });
    assert!(accepted_extension.is_none());
}

#[test]
fn reject_multiple_client_max_window_bits() {
    let config = DeflateConfig::default();

    let accepted_extension = config.accept_offer(&WebSocketExtension {
        name: "custom-extension".to_owned(),
        params: vec![
            (PARAM_CLIENT_MAX_WINDOW_BITS.to_owned(), None),
            (PARAM_CLIENT_MAX_WINDOW_BITS.to_owned(), None),
        ],
    });
    assert!(accepted_extension.is_none());
}

#[test]
fn new_context_from_extension() {
    let config = DeflateConfig::default();

    let context = DeflateContext::new(config, vec![]);
    assert!(context.is_ok());
}

#[test]
fn new_context_with_server_no_context_takeover() {
    let config = DeflateConfig::default();

    let context = DeflateContext::new(config, vec![(PARAM_SERVER_NO_CONTEXT_TAKEOVER, None)]);
    assert!(context.is_ok());
}

#[test]
fn new_context_with_client_no_context_takeover() {
    let config = DeflateConfig::default();

    let context = DeflateContext::new(config, vec![(PARAM_CLIENT_NO_CONTEXT_TAKEOVER, None)]);
    assert!(context.is_ok());
}

#[test]
fn new_context_with_unknown_parameter_fails() {
    let config = DeflateConfig::default();

    let context = DeflateContext::new(config, vec![("unknown-parameter", None)]);
    assert!(context.is_err());
    assert!(matches!(
        context,
        Err(DeflateError::Negotiation(NegotiationError::UnknownParameter(_)))
    ));
}

#[test]
fn new_context_with_multiple_server_no_context_takeover_fails() {
    let config = DeflateConfig::default();

    let context = DeflateContext::new(
        config,
        vec![
            (PARAM_SERVER_NO_CONTEXT_TAKEOVER, None),
            (PARAM_SERVER_NO_CONTEXT_TAKEOVER, None),
        ],
    );
    assert!(context.is_err());
    assert!(matches!(
        context,
        Err(DeflateError::Negotiation(NegotiationError::DuplicateParameter(_)))
    ));
}

#[test]
fn new_context_with_multiple_client_no_context_takeover_fails() {
    let config = DeflateConfig::default();

    let context = DeflateContext::new(
        config,
        vec![
            (PARAM_CLIENT_NO_CONTEXT_TAKEOVER, None),
            (PARAM_CLIENT_NO_CONTEXT_TAKEOVER, None),
        ],
    );
    assert!(context.is_err());
    assert!(matches!(
        context,
        Err(DeflateError::Negotiation(NegotiationError::DuplicateParameter(_)))
    ));
}

#[test]
fn valid_max_window_bits() {
    for bits in 8..=15 {
        assert!(is_valid_max_window_bits(&bits.to_string()));
    }
}

#[test]
fn invalid_max_window_bits() {
    assert!(!is_valid_max_window_bits(""));
    assert!(!is_valid_max_window_bits("0"));
    assert!(!is_valid_max_window_bits("08"));
    assert!(!is_valid_max_window_bits("+8"));
    assert!(!is_valid_max_window_bits("-8"));
}

#[test]
fn window_bits_out_of_range() {
    assert!(!is_valid_max_window_bits("7"));
    assert!(!is_valid_max_window_bits("16"));
    assert!(!is_valid_max_window_bits("8 "));
    assert!(!is_valid_max_window_bits("015"));
}

#[test]
fn new_context_with_server_max_window_bits_value_fails() {
    let config = DeflateConfig::default();

    let context = DeflateContext::new(config, vec![(PARAM_SERVER_MAX_WINDOW_BITS, Some("10"))]);
    assert!(matches!(
        context,
        Err(DeflateError::Negotiation(NegotiationError::ServerMaxWindowBitsNotSupported))
    ));
}

#[test]
fn new_context_with_invalid_server_max_window_bits_fails() {
    let config = DeflateConfig::default();

    let context = DeflateContext::new(config, vec![(PARAM_SERVER_MAX_WINDOW_BITS, Some("0"))]);
    assert!(matches!(
        context,
        Err(DeflateError::Negotiation(NegotiationError::InvalidServerMaxWindowBitsValue(v))) if v == "0"
    ));
}

#[test]
fn new_context_with_bare_server_max_window_bits_fails() {
    let config = DeflateConfig::default();

    let context = DeflateContext::new(config, vec![(PARAM_SERVER_MAX_WINDOW_BITS, None)]);
    assert!(matches!(
        context,
        Err(DeflateError::Negotiation(NegotiationError::MissingServerMaxWindowBitsValue))
    ));
}

#[test]
fn new_context_with_client_max_window_bits_fails() {
    let config = DeflateConfig::default();

    let context = DeflateContext::new(config, vec![(PARAM_CLIENT_MAX_WINDOW_BITS, Some("10"))]);
    assert!(matches!(
        context,
        Err(DeflateError::Negotiation(NegotiationError::UnexpectedClientMaxWindowBits))
    ));
}

#[test]
fn new_context_with_invalid_client_max_window_bits_fails() {
    let config = DeflateConfig::default();

    let context = DeflateContext::new(config, vec![(PARAM_CLIENT_MAX_WINDOW_BITS, Some("16"))]);
    assert!(matches!(
        context,
        Err(DeflateError::Negotiation(NegotiationError::InvalidClientMaxWindowBitsValue(v))) if v == "16"
    ));
}

#[test]
fn offer_lists_requested_parameters() {
    let config = DeflateConfig {
        compression: 6,
        request_no_context_takeover: true,
        accept_no_context_takeover: true,
    };
    let offer = config.to_offer();
    assert_eq!(offer.name, PERMESSAGE_DEFLATE_NAME);
    // Only the request to the peer goes on the wire: agreeing to reset our
    // own context is a response-side matter, not an offer parameter.
    assert_eq!(
        offer.params,
        vec![(PARAM_SERVER_NO_CONTEXT_TAKEOVER.to_owned(), None)]
    );
}
