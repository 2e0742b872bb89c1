use permessage_deflate::headers::{WebSocketExtension, WebSocketExtensions};

#[test]
fn test_from_header_value_no_params() {
    let websocket_extensions = WebSocketExtensions::parse("extension-name");

    assert_eq!(websocket_extensions.0.len(), 1);
    assert_eq!(
        websocket_extensions.0.get(0).map(WebSocketExtension::name),
        Some("extension-name")
    );
    assert_eq!(
        websocket_extensions.0.get(0).map(WebSocketExtension::params).unwrap().len(),
        0
    );
}

#[test]
fn test_from_header_value_empty_parameter() {
    let websocket_extensions = WebSocketExtensions::parse("extension-name; param");

    assert_eq!(websocket_extensions.0.len(), 1);
    assert_eq!(
        websocket_extensions.0.get(0).map(WebSocketExtension::name),
        Some("extension-name")
    );
    let params = websocket_extensions.0.get(0).map(WebSocketExtension::params).unwrap();
    assert_eq!(params.len(), 1);
    assert_eq!(params[0], ("param", None));
}

#[test]
fn test_from_header_value_parameter_with_value() {
    let websocket_extensions = WebSocketExtensions::parse("extension-name; param=5");

    assert_eq!(websocket_extensions.0.len(), 1);
    assert_eq!(
        websocket_extensions.0.get(0).map(WebSocketExtension::name),
        Some("extension-name")
    );
    let params = websocket_extensions.0.get(0).map(WebSocketExtension::params).unwrap();
    assert_eq!(params.len(), 1);
    assert_eq!(params[0], ("param", Some("5")));
}

#[test]
fn test_from_header_value_multiple_parameters() {
    let websocket_extensions =
        WebSocketExtensions::parse("extension-name; param-1=5; param-2; param-3=yes");

    assert_eq!(websocket_extensions.0.len(), 1);
    assert_eq!(
        websocket_extensions.0.get(0).map(WebSocketExtension::name),
        Some("extension-name")
    );
    let params = websocket_extensions.0.get(0).map(WebSocketExtension::params).unwrap();
    assert_eq!(params.len(), 3);
    assert_eq!(params[0], ("param-1", Some("5")));
    assert_eq!(params[1], ("param-2", None));
    assert_eq!(params[2], ("param-3", Some("yes")));
}

#[test]
fn test_from_header_value_with_multiple_extensions() {
    let websocket_extensions = WebSocketExtensions::parse(
        "extension-name-1; param-1=5; param-2, extension-name-2, extension-name-3; param-1; param-2",
    );

    assert_eq!(websocket_extensions.0.len(), 3);
    assert_eq!(
        websocket_extensions.0.get(0).map(WebSocketExtension::name),
        Some("extension-name-1")
    );
    assert_eq!(
        websocket_extensions.0.get(1).map(WebSocketExtension::name),
        Some("extension-name-2")
    );
    assert_eq!(
        websocket_extensions.0.get(2).map(WebSocketExtension::name),
        Some("extension-name-3")
    );
    let params = websocket_extensions.0.get(0).map(WebSocketExtension::params).unwrap();
    assert_eq!(params.len(), 2);
    assert_eq!(params[0], ("param-1", Some("5")));
    assert_eq!(params[1], ("param-2", None));
    assert_eq!(
        websocket_extensions.0.get(1).map(WebSocketExtension::params).unwrap().len(),
        0
    );
    let params = websocket_extensions.0.get(2).map(WebSocketExtension::params).unwrap();
    assert_eq!(params.len(), 2);
    assert_eq!(params[0], ("param-1", None));
    assert_eq!(params[1], ("param-2", None));
}

#[test]
fn test_websocket_extension_proto() {
    let websocket_extension =
        WebSocketExtension { name: "extension".to_owned(), params: vec![] };
    let proto = websocket_extension.proto();

    assert_eq!(&proto, "extension");
}

#[test]
fn test_websocket_extension_proto_parameter() {
    let websocket_extension = WebSocketExtension {
        name: "extension".to_owned(),
        params: vec![("param".to_owned(), None)],
    };
    let proto = websocket_extension.proto();

    assert_eq!(&proto, "extension; param");
}

#[test]
fn test_websocket_extension_proto_parameter_with_value() {
    let websocket_extension = WebSocketExtension {
        name: "extension".to_owned(),
        params: vec![("param".to_owned(), Some("5".to_owned()))],
    };
    let proto = websocket_extension.proto();

    assert_eq!(&proto, "extension; param=5");
}

#[test]
fn test_websocket_extension_proto_multiple_parameters() {
    let websocket_extension = WebSocketExtension {
        name: "extension".to_owned(),
        params: vec![
            ("param-1".to_owned(), Some("5".to_owned())),
            ("param-2".to_owned(), None),
            ("param-3".to_owned(), Some("yes".to_owned())),
        ],
    };
    let proto = websocket_extension.proto();

    assert_eq!(&proto, "extension; param-1=5; param-2; param-3=yes");
}

#[test]
fn parse_empty_value_yields_one_nameless_extension() {
    let websocket_extensions = WebSocketExtensions::parse("");
    assert_eq!(websocket_extensions.0.len(), 1);
    assert_eq!(websocket_extensions.0[0].name(), "");
    assert_eq!(websocket_extensions.0[0].params().len(), 0);
}

#[test]
fn parse_splits_on_first_equals_sign_only() {
    let websocket_extensions = WebSocketExtensions::parse("ext; a=b=c");
    assert_eq!(websocket_extensions.0.len(), 1);
    assert_eq!(websocket_extensions.0[0].params(), vec![("a", Some("b=c"))]);
}

#[test]
fn parse_trims_spaces_and_tabs() {
    let websocket_extensions = WebSocketExtensions::parse("  ext \t;  a = 5 , other");
    assert_eq!(websocket_extensions.0.len(), 2);
    assert_eq!(websocket_extensions.0[0].name(), "ext");
    assert_eq!(websocket_extensions.0[0].params(), vec![("a", Some("5"))]);
    assert_eq!(websocket_extensions.0[1].name(), "other");
}

#[test]
fn write_then_read_headers_round_trip() {
    let extensions = WebSocketExtensions::new(vec![
        WebSocketExtension {
            name: "permessage-deflate".to_owned(),
            params: vec![("server_no_context_takeover".to_owned(), None)],
        },
        WebSocketExtension {
            name: "permessage-deflate".to_owned(),
            params: vec![("client_max_window_bits".to_owned(), Some("10".to_owned()))],
        },
    ]);

    let mut headers = http::HeaderMap::new();
    extensions.write_headers(&mut headers);
    assert_eq!(headers.len(), 2);

    let read_back = WebSocketExtensions::from_headers(&headers);
    assert_eq!(read_back.0.len(), 2);
    assert_eq!(read_back.0[0].name(), "permessage-deflate");
    assert_eq!(
        read_back.0[0].params(),
        vec![("server_no_context_takeover", None)]
    );
    assert_eq!(read_back.0[1].name(), "permessage-deflate");
    assert_eq!(
        read_back.0[1].params(),
        vec![("client_max_window_bits", Some("10"))]
    );
}

#[test]
fn write_headers_drops_unreadable_record() {
    let extensions = WebSocketExtensions::new(vec![
        WebSocketExtension { name: "caf\u{e9}-extension".to_owned(), params: vec![] },
        WebSocketExtension { name: "plain-extension".to_owned(), params: vec![] },
    ]);
    let mut headers = http::HeaderMap::new();
    extensions.write_headers(&mut headers);

    // Both values are legal header bytes, but only the plain one reads back.
    let read_back = WebSocketExtensions::from_headers(&headers);
    assert_eq!(read_back.0.len(), 1);
    assert_eq!(read_back.0[0].name(), "plain-extension");
}

#[test]
fn from_headers_ignores_other_headers() {
    let mut headers = http::HeaderMap::new();
    headers.insert(
        http::header::SEC_WEBSOCKET_EXTENSIONS,
        http::HeaderValue::from_static("permessage-deflate"),
    );
    headers.insert(
        http::header::USER_AGENT,
        http::HeaderValue::from_static("permessage-deflate; param"),
    );

    let read_back = WebSocketExtensions::from_headers(&headers);
    assert_eq!(read_back.0.len(), 1);
    assert_eq!(read_back.0[0].name(), "permessage-deflate");
    assert_eq!(read_back.0[0].params().len(), 0);
}
