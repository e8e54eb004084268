use nodever::parser::parse_version_set;

#[test]
fn parse_keeps_v_anchors_and_strips_trailing_slash() {
    let markup = "<a>v1.2.3</a><a>v2.0.0</a><a>about.html</a><a>v10.0.0/</a>";
    let versions = parse_version_set(markup);
    let expected = vec!["v1.2.3".to_string(), "v2.0.0".to_string(), "v10.0.0".to_string()];
    assert_eq!(versions, expected);
}

#[test]
fn parse_reads_full_documents() {
    let markup = "<!DOCTYPE html><html><body><h1>Index of /dist/</h1>\n\
        <a href=\"v0.1.14/\">v0.1.14/</a>\n\
        <a href=\"latest/\">latest/</a>\n\
        <a href=\"v14.17.0/\">v14.17.0/</a>\n\
        </body></html>";
    let versions = parse_version_set(markup);
    let expected = vec!["v0.1.14".to_string(), "v14.17.0".to_string()];
    assert_eq!(versions, expected);
}

#[test]
fn parse_only_looks_at_anchor_text() {
    let markup = "<p>v9.9.9</p><a>v1.0.0</a>";
    let versions = parse_version_set(markup);
    assert_eq!(versions, vec!["v1.0.0".to_string()]);
}

#[test]
fn parse_takes_an_anchors_first_text_fragment() {
    let markup = "<a><b>v1.2.3</b> (latest)</a><a></a>";
    let versions = parse_version_set(markup);
    assert_eq!(versions, vec!["v1.2.3".to_string()]);
}

#[test]
fn parse_of_empty_markup_is_empty() {
    let versions = parse_version_set("");
    assert!(versions.is_empty());
}

#[test]
fn parse_is_free_of_hidden_state() {
    let markup = "<a>v1.2.3</a><a>v2.0.0</a><a>v10.0.0/</a>";
    let first = parse_version_set(markup);
    let second = parse_version_set(markup);
    assert_eq!(first, second);
}
