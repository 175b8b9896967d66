use frontmatter_preprocessor::FrontmatterPreprocessor;
use frontmatter_preprocessor::MdEvent;
use frontmatter_preprocessor::TransformError;
use frontmatter_preprocessor::create_html_table_events;
use frontmatter_preprocessor::transform_events;

#[test]
fn preprocessor_reports_its_name() {
    let pp = FrontmatterPreprocessor::default();
    assert_eq!(pp.name(), "frontmatter-preprocessor");
}

#[test]
fn no_delimiter_is_noop() {
    let pp = FrontmatterPreprocessor::default();
    let out = pp.transform("hello world", "+++").unwrap();
    assert_eq!(out, "hello world");
}

#[test]
fn markdown_structure_passes_through() {
    let pp = FrontmatterPreprocessor::default();
    let out = pp.transform("# Title\n\nbody", "+++").unwrap();
    assert_eq!(out, "# Title\n\nbody");
}

#[test]
fn extraction_renders_table() {
    let pp = FrontmatterPreprocessor::default();
    let input = "A\n\n+++\n\nk1: v1\nk2: v2\n\n+++\n\nB";
    let out = pp.transform(input, "+++").unwrap();
    assert!(out.contains("A"));
    assert!(out.contains("B"));
    assert!(out.contains("<table class=\"preamble\">"));
    assert!(out.contains("<tr><th>k1</td><td>v1</td></tr>"));
    assert!(out.contains("<tr><th>k2</td><td>v2</td></tr>"));
    assert!(!out.contains("+++"));
}

#[test]
fn unterminated_region_fails_serialization() {
    // The unmatched opening delimiter drops the rest of the event stream,
    // block-end events included; the serializer refuses the unbalanced
    // stream, which is the transform's only error.
    let pp = FrontmatterPreprocessor::default();
    let r = pp.transform("A\n\n+++\n\nk: v", "+++");
    assert_eq!(r, Err(TransformError::Serialization));
}

#[test]
fn transformed_text_is_stable_under_second_transform() {
    let pp = FrontmatterPreprocessor::default();
    let once = pp.transform("A\n\n+++\n\nk: v\n\n+++\n\nB", "+++").unwrap();
    let twice = pp.transform(&once, "+++").unwrap();
    assert_eq!(twice, once);
}

#[test]
fn second_transform_is_noop_on_events() {
    let delim = "+++".to_string();
    let evs = vec![
        MdEvent::Text("A".to_string()),
        MdEvent::Text("+++".to_string()),
        MdEvent::Text("k: v".to_string()),
        MdEvent::Text("+++".to_string()),
        MdEvent::Text("B".to_string()),
    ];
    let evs_again = vec![
        MdEvent::Text("A".to_string()),
        MdEvent::Text("+++".to_string()),
        MdEvent::Text("k: v".to_string()),
        MdEvent::Text("+++".to_string()),
        MdEvent::Text("B".to_string()),
    ];
    let once = transform_events(evs, &delim);
    let again = transform_events(transform_events(evs_again, &delim), &delim);
    assert_eq!(again, once);
}

#[test]
fn other_configured_token_leaves_plus_prose() {
    let pp = FrontmatterPreprocessor::default();
    let input = "x\n\n+++\n\ny";
    let out = pp.transform(input, ":::").unwrap();
    // the serializer escapes the leading plus sign on the round trip
    assert_eq!(out, "x\n\n\\+++\n\ny");
    assert!(!out.contains("<table"));
}

#[test]
fn configured_token_is_recognized() {
    let pp = FrontmatterPreprocessor::default();
    let input = "A\n\n:::\n\nk: v\n\n:::\n\nB";
    let out = pp.transform(input, ":::").unwrap();
    assert!(out.contains("<tr><th>k</td><td>v</td></tr>"));
    assert!(!out.contains(":::"));
}

#[test]
fn embedded_delimiter_text_is_not_a_boundary() {
    let pp = FrontmatterPreprocessor::default();
    let out = pp.transform("a +++ b\n\nc", "+++").unwrap();
    assert!(out.contains("+++"));
    assert!(!out.contains("<table"));
}

#[test]
fn delimiter_events_are_consumed_and_tail_dropped() {
    let delim = "+++".to_string();
    let evs = vec![
        MdEvent::Text("A".to_string()),
        MdEvent::Text("+++".to_string()),
        MdEvent::Text("k: v".to_string()),
        MdEvent::Other(pulldown_cmark::Event::SoftBreak),
        MdEvent::Text("tail".to_string()),
    ];
    let out = transform_events(evs, &delim);
    assert_eq!(out, vec![MdEvent::Text("A".to_string())]);
}

#[test]
fn soft_breaks_inside_region_are_dropped() {
    let delim = "+++".to_string();
    let evs = vec![
        MdEvent::Text("+++".to_string()),
        MdEvent::Text("a: 1".to_string()),
        MdEvent::Other(pulldown_cmark::Event::SoftBreak),
        MdEvent::Text("b: 2".to_string()),
        MdEvent::Text("+++".to_string()),
    ];
    let out = transform_events(evs, &delim);
    assert_eq!(out.len(), 6);
    assert_eq!(out[0], MdEvent::HtmlBlockStart);
    assert_eq!(
        out[1],
        MdEvent::Html("<table class=\"preamble\">\n".to_string())
    );
    assert_eq!(out[2], MdEvent::Html("<tr><th>a</td><td>1</td></tr>\n".to_string()));
    assert_eq!(out[3], MdEvent::Html("<tr><th>b</td><td>2</td></tr>\n".to_string()));
    assert_eq!(out[4], MdEvent::Html("</table>\n".to_string()));
    assert_eq!(out[5], MdEvent::HtmlBlockEnd);
}

#[test]
fn empty_region_renders_empty_table() {
    let delim = "+++".to_string();
    let evs = vec![
        MdEvent::Text("+++".to_string()),
        MdEvent::Text("+++".to_string()),
    ];
    let out = transform_events(evs, &delim);
    assert_eq!(out.len(), 4);
    assert_eq!(out[0], MdEvent::HtmlBlockStart);
    assert_eq!(
        out[1],
        MdEvent::Html("<table class=\"preamble\">\n".to_string())
    );
    assert_eq!(out[2], MdEvent::Html("</table>\n".to_string()));
    assert_eq!(out[3], MdEvent::HtmlBlockEnd);
}

#[test]
fn table_block_has_open_rows_and_close() {
    let fields = vec![("k".to_string(), "v".to_string())];
    let evs = create_html_table_events(&fields);
    assert_eq!(evs.len(), 5);
    assert_eq!(evs[0], MdEvent::HtmlBlockStart);
    assert_eq!(evs[1], MdEvent::Html("<table class=\"preamble\">\n".to_string()));
    assert_eq!(evs[2], MdEvent::Html("<tr><th>k</td><td>v</td></tr>\n".to_string()));
    assert_eq!(evs[3], MdEvent::Html("</table>\n".to_string()));
    assert_eq!(evs[4], MdEvent::HtmlBlockEnd);
}
