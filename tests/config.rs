use glazy::config::{
    config_file_path, config_from_document, get_value_or_error, parse_config, parse_gitlab_config,
    parse_local_config, ConfigError,
};
use glazy::document::{get, parse_document, Node, Span};

const EXAMPLE_CONFIG: &str = "gitlab {
    host \"host_val\"
    token \"token_val\"
}";

fn gitlab_of(input: &str) -> Result<glazy::config::GitLabConfig, ConfigError> {
    let doc = parse_document(input).unwrap();
    parse_gitlab_config(get(&doc, "gitlab"))
}

#[test]
fn test_parse_gitlab() {
    let cases: Vec<(&str, bool)> = vec![
        (EXAMPLE_CONFIG, false),
        ("gitlab {\n    host \"host_val\"\n}", true),
        ("gitlab {\n    token \"token_val\"\n}", true),
        ("", true),
    ];
    for (input, expected_err) in cases {
        let result = gitlab_of(input);
        assert_eq!(result.is_err(), expected_err);
    }
}

#[test]
fn gitlab_values_are_read_verbatim() {
    let c = gitlab_of(EXAMPLE_CONFIG).unwrap();
    assert_eq!(c.host, "host_val");
    assert_eq!(c.token, "token_val");
}

#[test]
fn gitlab_url_is_read_as_host() {
    let c = gitlab_of("gitlab {\n url \"https://gitlab.example.com\"\n token \"tok\"\n}").unwrap();
    assert_eq!(c.host, "https://gitlab.example.com");
    assert_eq!(c.token, "tok");
}

#[test]
fn gitlab_host_wins_over_url() {
    let c = gitlab_of("gitlab {\n url \"u\"\n host \"h\"\n token \"t\"\n}").unwrap();
    assert_eq!(c.host, "h");
    assert_eq!(c.token, "t");
}

#[test]
fn gitlab_without_host_names_url() {
    match gitlab_of("gitlab {\n token \"t\"\n}") {
        Err(ConfigError::MissingChild { child, .. }) => assert_eq!(child, "url"),
        other => panic!("unexpected {other:?}"),
    }
}

#[test]
fn gitlab_without_token_names_token() {
    match gitlab_of("gitlab {\n url \"u\"\n}") {
        Err(ConfigError::MissingChild { child, .. }) => assert_eq!(child, "token"),
        other => panic!("unexpected {other:?}"),
    }
}

#[test]
fn gitlab_value_that_is_not_a_string_is_missing() {
    match gitlab_of("gitlab {\n url 5\n token \"t\"\n}") {
        Err(ConfigError::MissingValue { child, .. }) => assert_eq!(child, "url"),
        other => panic!("unexpected {other:?}"),
    }
}

#[test]
fn gitlab_node_absent() {
    match gitlab_of("local {\n project_dir \"/x\"\n}") {
        Err(ConfigError::MissingNode { node }) => assert_eq!(node, "gitlab"),
        other => panic!("unexpected {other:?}"),
    }
}

#[test]
fn gitlab_node_without_block() {
    let doc = parse_document("gitlab").unwrap();
    match parse_gitlab_config(get(&doc, "gitlab")) {
        Err(ConfigError::EmptyNode { node, span }) => {
            assert_eq!(node, "gitlab");
            assert_eq!(span.offset, 0);
        }
        other => panic!("unexpected {other:?}"),
    }
}

#[test]
fn local_config_reads_project_dir() {
    let doc = parse_document("local {\n project_dir \"/tmp/ws\"\n}").unwrap();
    let local = parse_local_config(get(&doc, "local")).unwrap();
    assert_eq!(local.project_dir, "/tmp/ws");
    match parse_local_config(None) {
        Err(ConfigError::MissingNode { node }) => assert_eq!(node, "local"),
        other => panic!("unexpected {other:?}"),
    }
}

#[test]
fn whole_config_is_read() {
    let text = "gitlab {\n  url \"https://gitlab.example.com\"\n  token \"tok\"\n}\nlocal {\n  project_dir \"/tmp/ws\"\n}\n";
    let c = parse_config(text).unwrap();
    assert_eq!(c.gitlab.host, "https://gitlab.example.com");
    assert_eq!(c.gitlab.token, "tok");
    assert_eq!(c.local.project_dir, "/tmp/ws");
}

#[test]
fn config_without_local_is_refused() {
    match parse_config("gitlab {\n url \"u\"\n token \"t\"\n}") {
        Err(ConfigError::MissingNode { node }) => assert_eq!(node, "local"),
        other => panic!("unexpected {other:?}"),
    }
}

#[test]
fn malformed_config_is_a_syntax_error() {
    assert!(matches!(parse_config("gitlab {"), Err(ConfigError::Syntax(_))));
}

#[test]
fn config_from_hand_built_nodes() {
    let span = Span { offset: 3, len: 4 };
    let child = |name: &str, value: Option<&str>| Node {
        name: name.to_owned(),
        entries: vec![value.map(|v| v.to_owned())],
        children: None,
        span,
    };
    let doc = vec![
        Node {
            name: "gitlab".to_owned(),
            entries: vec![],
            children: Some(vec![child("host", Some("h")), child("token", Some("t"))]),
            span,
        },
        Node {
            name: "local".to_owned(),
            entries: vec![],
            children: Some(vec![child("project_dir", None)]),
            span: Span { offset: 9, len: 1 },
        },
    ];
    match config_from_document(&doc) {
        Err(ConfigError::MissingValue { child, span }) => {
            assert_eq!(child, "project_dir");
            assert_eq!(span, Span { offset: 3, len: 4 });
        }
        other => panic!("unexpected {other:?}"),
    }
}

#[test]
fn missing_child_points_at_its_block() {
    let block = Span { offset: 11, len: 20 };
    match get_value_or_error(&vec![], block, "token") {
        Err(ConfigError::MissingChild { child, span }) => {
            assert_eq!(child, "token");
            assert_eq!(span, block);
        }
        other => panic!("unexpected {other:?}"),
    }
}

#[test]
fn parsed_nodes_carry_names_values_and_spans() {
    let doc = parse_document("a \"x\" 1\nb {\n c\n}\n").unwrap();
    assert_eq!(doc.len(), 2);
    assert_eq!(doc[0].name, "a");
    assert_eq!(doc[0].entries, vec![Some("x".to_owned()), None]);
    assert!(doc[0].children.is_none());
    assert_eq!(doc[0].span.offset, 0);
    assert_eq!(doc[1].name, "b");
    assert!(doc[1].entries.is_empty());
    let kids = doc[1].children.as_ref().unwrap();
    assert_eq!(kids.len(), 1);
    assert_eq!(kids[0].name, "c");
}

#[test]
fn config_file_path_keeps_given_name() {
    let result = config_file_path(Some("foo.yaml".to_owned()));
    assert_eq!(result.unwrap(), "foo.yaml");
}

#[test]
fn default_config_file_path_ends_in_glazy_config() {
    match config_file_path(None) {
        Ok(path) => assert!(path.ends_with("/glazy/config.kdl")),
        Err(e) => assert!(matches!(e, ConfigError::NoConfigPath)),
    }
}

#[test]
fn only_the_first_entry_counts_as_value() {
    match gitlab_of("gitlab {\n host 1 \"h\"\n token \"t\"\n}") {
        Err(ConfigError::MissingValue { child, .. }) => assert_eq!(child, "host"),
        other => panic!("unexpected {other:?}"),
    }
    let c = gitlab_of("gitlab {\n host \"h\" \"later\"\n token \"t\" 2\n}").unwrap();
    assert_eq!(c.host, "h");
    assert_eq!(c.token, "t");
}
