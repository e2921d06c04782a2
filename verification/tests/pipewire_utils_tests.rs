use autorec::pipewire_utils::{
    extract_quoted_value, parse_pw_cli_output, validate_and_select_target, Source,
};

#[test]
fn test_extract_quoted_value() {
    assert_eq!(extract_quoted_value("node.name = \"test\""), Some("test".to_string()));
    assert_eq!(extract_quoted_value("no quotes here"), None);
    assert_eq!(
        extract_quoted_value("node.description = \"Test Device\""),
        Some("Test Device".to_string())
    );
}

#[test]
fn test_parse_pw_cli_output() {
    let output = r#"
id 42, type PipeWire:Interface:Node
    node.name = "alsa_output.monitor"
    node.description = "Monitor of ALSA Output"
    media.class = "Audio/Source"
id 43, type PipeWire:Interface:Node
    node.name = "test_input"
    media.class = "Audio/Sink"
        "#;
    let sources = parse_pw_cli_output(output);
    assert_eq!(sources.len(), 1);
    assert_eq!(sources[0].name, "alsa_output.monitor");
    assert_eq!(sources[0].description, Some("Monitor of ALSA Output".to_string()));
}

#[test]
fn test_source_struct() {
    let source = Source { name: "test".to_string(), description: Some("Test Description".to_string()) };
    assert_eq!(source.name, "test");
    assert_eq!(source.description, Some("Test Description".to_string()));
}

#[test]
fn quoted_value_edge_cases() {
    assert_eq!(extract_quoted_value("a \"open"), Some("open".to_string()));
    assert_eq!(extract_quoted_value("\"\""), Some(String::new()));
    assert_eq!(extract_quoted_value("x=\"a\" y=\"b\""), Some("a".to_string()));
    assert_eq!(extract_quoted_value(""), None);
}

#[test]
fn listing_keeps_last_source_and_nick() {
    let output = "id 1, type Node\r\n  node.name = \"mic\"\r\n  node.nick = \"Mic\"\r\n  media.class = \"Audio/Input\"\r\nid 2, type Node\n node.name = \"line\"\n media.class = \"Audio/source\"";
    let sources = parse_pw_cli_output(output);
    assert_eq!(sources.len(), 2);
    assert_eq!(sources[0].name, "mic");
    assert_eq!(sources[0].description, Some("Mic".to_string()));
    assert_eq!(sources[1].name, "line");
    assert_eq!(sources[1].description, None);
    assert!(parse_pw_cli_output("").is_empty());
}

#[test]
fn target_selection() {
    let available = vec![
        Source { name: "first".to_string(), description: None },
        Source { name: "second".to_string(), description: None },
    ];
    assert_eq!(validate_and_select_target(None, &available), (Some("first".to_string()), 0));
    assert_eq!(validate_and_select_target(None, &Vec::new()), (None, 1));
    assert_eq!(
        validate_and_select_target(Some("second"), &available),
        (Some("second".to_string()), 0)
    );
    assert_eq!(validate_and_select_target(Some("third"), &available), (None, 1));
    assert_eq!(
        validate_and_select_target(Some("third"), &Vec::new()),
        (Some("third".to_string()), 0)
    );
}

#[test]
fn test_validate_and_select_target_with_none() {
    // No target asked for and no source available.
    let (target, _code) = validate_and_select_target(None, &Vec::new());
    assert!(target.is_none() || target.is_some());
}
