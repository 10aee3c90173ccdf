//! Reading language-server JSON answers and notifications.

use chronogit::lsp::wire::{
    get, normalize_hover, normalize_locations, notification_status, parse_capabilities,
    parse_range, server_request_response, Json,
};
use chronogit::lsp::LspError;

fn text(value: &str) -> Json {
    Json::Text(value.to_owned())
}

fn object(members: Vec<(&str, Json)>) -> Json {
    Json::Object(members.into_iter().map(|(key, value)| (key.to_owned(), value)).collect())
}

fn position(line: i128, character: i128) -> Json {
    object(vec![("line", Json::Integer(line)), ("character", Json::Integer(character))])
}

fn range(a: (i128, i128), b: (i128, i128)) -> Json {
    object(vec![("start", position(a.0, a.1)), ("end", position(b.0, b.1))])
}

#[test]
fn normalizes_location_and_location_links() {
    let locations = normalize_locations(Json::Array(vec![
        object(vec![("uri", text("file:///repo/a.rs")), ("range", range((1, 2), (1, 3)))]),
        object(vec![
            ("targetUri", text("file:///repo/b.rs")),
            ("targetRange", range((3, 1), (3, 8))),
            ("targetSelectionRange", range((3, 4), (3, 5))),
        ]),
    ]))
    .unwrap_or_else(|error| panic!("normalize: {error:?}"));
    assert_eq!(locations.len(), 2);
    assert_eq!(locations[1].selection.start.character, 4);
}

#[test]
fn normalizes_all_standard_hover_content_shapes() {
    let markdown = normalize_hover(object(vec![(
        "contents",
        object(vec![("kind", text("markdown")), ("value", text("```rust\nstruct Action;\n```"))]),
    )]))
    .unwrap_or_else(|error| panic!("hover: {error:?}"));
    assert_eq!(markdown.as_deref(), Some("```rust\nstruct Action;\n```"));

    let marked = normalize_hover(object(vec![(
        "contents",
        Json::Array(vec![
            text("Documentation"),
            object(vec![("language", text("rust")), ("value", text("struct Action;"))]),
        ]),
    )]))
    .unwrap_or_else(|error| panic!("hover: {error:?}"));
    assert_eq!(marked.as_deref(), Some("Documentation\n\nstruct Action;"));
    assert_eq!(normalize_hover(Json::Null).unwrap_or_else(|error| panic!("hover: {error:?}")), None);
}

#[test]
fn capabilities_accept_boolean_and_registration_objects() {
    let capabilities = parse_capabilities(&object(vec![
        ("definitionProvider", Json::Bool(true)),
        ("implementationProvider", object(vec![("documentSelector", Json::Null)])),
        ("typeDefinitionProvider", Json::Bool(false)),
        ("hoverProvider", Json::Bool(true)),
    ]));
    assert!(capabilities.definition);
    assert!(capabilities.implementation);
    assert!(!capabilities.type_definition);
    assert!(capabilities.hover);
}

#[test]
fn answers_configuration_and_rejects_unadvertised_requests() {
    let params = object(vec![("items", Json::Array(vec![object(vec![]), object(vec![])]))]);
    let configuration =
        server_request_response(Json::Integer(3), "workspace/configuration", Some(&params));
    match get(&configuration, "result") {
        Some(Json::Array(items)) => assert_eq!(items.len(), 2),
        other => panic!("unexpected result: {other:?}"),
    }
    let unsupported = server_request_response(Json::Integer(4), "workspace/applyEdit", None);
    let code = get(&unsupported, "error").and_then(|error| get(error, "code"));
    assert!(matches!(code, Some(Json::Integer(-32601))));
}

#[test]
fn extracts_only_bounded_displayable_server_status() {
    let progress = object(vec![(
        "value",
        object(vec![("kind", text("report")), ("message", text("indexing\n42%"))]),
    )]);
    assert_eq!(notification_status("$/progress", Some(&progress)).as_deref(), Some("indexing42%"));
    let long = object(vec![("message", text(&"x".repeat(300)))]);
    assert_eq!(
        notification_status("window/logMessage", Some(&long)).map(|message| message.len()),
        Some(256)
    );
    assert!(notification_status("textDocument/publishDiagnostics", Some(&object(vec![]))).is_none());
}

#[test]
fn invalid_locations_and_ranges_are_reported() {
    assert!(normalize_locations(Json::Null).unwrap_or_default().is_empty());
    let duplicate = object(vec![("uri", text("file:///repo/a.rs")), ("range", range((0, 0), (0, 1)))]);
    let twice = normalize_locations(Json::Array(vec![
        duplicate,
        object(vec![("uri", text("file:///repo/a.rs")), ("range", range((0, 0), (0, 1)))]),
    ]))
    .unwrap_or_else(|error| panic!("normalize: {error:?}"));
    assert_eq!(twice.len(), 1);
    assert_eq!(
        normalize_locations(object(vec![("range", range((0, 0), (0, 1)))])).err(),
        Some(LspError::Protocol("language server returned a location without a URI".to_owned()))
    );
    assert_eq!(
        parse_range(&range((1 << 33, 0), (0, 0))).err(),
        Some(LspError::Protocol("language server returned an oversized line".to_owned()))
    );
    assert_eq!(
        parse_range(&object(vec![("start", position(0, 0))])).err(),
        Some(LspError::Protocol("language server returned an incomplete source range".to_owned()))
    );
    assert_eq!(
        parse_range(&object(vec![("start", position(-1, 0)), ("end", position(0, 0))])).err(),
        Some(LspError::Protocol("language server returned an invalid source position".to_owned()))
    );
}

#[test]
fn hover_without_contents_or_with_only_blank_text() {
    assert_eq!(
        normalize_hover(object(vec![])).err(),
        Some(LspError::Protocol(
            "language server returned hover information without contents".to_owned()
        ))
    );
    assert_eq!(normalize_hover(object(vec![("contents", text("  \n"))])), Ok(None));
    assert_eq!(
        normalize_hover(object(vec![("contents", Json::Bool(true))])).err(),
        Some(LspError::Protocol("language server returned invalid hover contents".to_owned()))
    );
    let long = normalize_hover(object(vec![("contents", text(&"y".repeat(262_145)))]))
        .unwrap_or_else(|error| panic!("hover: {error:?}"))
        .unwrap_or_default();
    assert!(long.ends_with("\n… hover text truncated …"));
    assert_eq!(long.chars().count(), 262_144 + "\n… hover text truncated …".chars().count());
}
