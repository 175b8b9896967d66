use frontmatter_preprocessor::effective_delimiter;
use frontmatter_preprocessor::parse_frontmatter;

#[test]
fn colon_line_becomes_entry() {
    let lines = vec!["a: 1".to_string()];
    let fields = parse_frontmatter(&lines);
    assert_eq!(fields.len(), 1);
    assert_eq!(fields[0].0, "a");
    assert_eq!(fields[0].1, "1");
}

#[test]
fn malformed_line_contributes_no_entry() {
    let lines = vec!["not a field".to_string(), "a: 1".to_string()];
    let fields = parse_frontmatter(&lines);
    assert_eq!(fields.len(), 1);
    assert_eq!(fields[0].0, "a");
    assert_eq!(fields[0].1, "1");
}

#[test]
fn duplicate_key_last_write_wins() {
    let lines = vec!["a: 1".to_string(), "a: 2".to_string()];
    let fields = parse_frontmatter(&lines);
    assert_eq!(fields.len(), 1);
    assert_eq!(fields[0].0, "a");
    assert_eq!(fields[0].1, "2");
}

#[test]
fn keys_and_values_are_trimmed() {
    let lines = vec!["  spaced key  :\t padded value  ".to_string()];
    let fields = parse_frontmatter(&lines);
    assert_eq!(fields.len(), 1);
    assert_eq!(fields[0].0, "spaced key");
    assert_eq!(fields[0].1, "padded value");
}

#[test]
fn unicode_whitespace_is_trimmed() {
    let lines = vec!["\u{a0}a\u{a0}:\u{2003}1\u{2003}".to_string()];
    let fields = parse_frontmatter(&lines);
    assert_eq!(fields.len(), 1);
    assert_eq!(fields[0].0, "a");
    assert_eq!(fields[0].1, "1");
}

#[test]
fn split_happens_at_first_colon_only() {
    let lines = vec!["url: http://example.com".to_string()];
    let fields = parse_frontmatter(&lines);
    assert_eq!(fields.len(), 1);
    assert_eq!(fields[0].0, "url");
    assert_eq!(fields[0].1, "http://example.com");
}

#[test]
fn empty_lines_give_empty_mapping() {
    let lines: Vec<String> = vec![];
    let fields = parse_frontmatter(&lines);
    assert_eq!(fields.len(), 0);
}

#[test]
fn first_seen_order_is_kept() {
    let lines = vec![
        "b: 2".to_string(),
        "a: 1".to_string(),
        "b: 3".to_string(),
    ];
    let fields = parse_frontmatter(&lines);
    assert_eq!(fields.len(), 2);
    assert_eq!(fields[0].0, "b");
    assert_eq!(fields[0].1, "3");
    assert_eq!(fields[1].0, "a");
    assert_eq!(fields[1].1, "1");
}

#[test]
fn missing_configuration_defaults_the_delimiter() {
    assert_eq!(effective_delimiter(None), "+++");
}

#[test]
fn configured_delimiter_is_taken() {
    assert_eq!(effective_delimiter(Some(":::".to_string())), ":::");
}
