use confluence::codec::serialize;
use confluence::errors::RpcError;
use confluence::parser::parse;
use confluence::tree::Element;

#[test]
fn serialize_leaf_with_text() {
    let e = Element::node("a").with_text("x");
    assert_eq!(serialize(&e), "<a>x</a>");
}

#[test]
fn serialize_childless_textless_is_self_closing() {
    assert_eq!(serialize(&Element::node("a")), "<a/>");
}

#[test]
fn serialize_escapes_text_and_attributes() {
    let e = Element::node("a")
        .with_attribute("k", "a\"b<c")
        .with_text("x&y<z>'q'");
    assert_eq!(
        serialize(&e),
        "<a k=\"a&quot;b&lt;c\">x&amp;y&lt;z&gt;&apos;q&apos;</a>"
    );
}

#[test]
fn parse_rejects_unterminated_document() {
    match parse("<Envelope><Body>") {
        Err(RpcError::MalformedXml { .. }) => {}
        other => panic!("expected MalformedXml, got {:?}", other),
    }
}

#[test]
fn parse_rejects_mismatched_close_tag() {
    assert!(matches!(parse("<a><b></a></b>"), Err(RpcError::MalformedXml { .. })));
}

#[test]
fn parse_rejects_trailing_garbage() {
    assert!(matches!(parse("<a/>junk"), Err(RpcError::MalformedXml { .. })));
}

#[test]
fn parse_reads_attributes_and_text() {
    let e = parse("<a k=\"v\" l=\"w\">hello</a>").unwrap();
    assert_eq!(e.name, "a");
    assert_eq!(
        e.attributes,
        vec![("k".to_string(), "v".to_string()), ("l".to_string(), "w".to_string())]
    );
    assert_eq!(e.text.as_deref(), Some("hello"));
}

#[test]
fn parse_decodes_entities() {
    let e = parse("<a>x&amp;y&lt;z&gt;&quot;&apos;</a>").unwrap();
    assert_eq!(e.text.as_deref(), Some("x&y<z>\"'"));
}

#[test]
fn parse_skips_prologue() {
    let e = parse("<?xml version=\"1.0\" encoding=\"utf-8\"?>\n<a/>").unwrap();
    assert_eq!(e.name, "a");
}

#[test]
fn parse_discards_whitespace_between_children() {
    let e = parse("<a>\n  <b/>\n  <c/>\n</a>").unwrap();
    assert_eq!(e.children.len(), 2);
    assert!(e.text.is_none());
}

#[test]
fn parse_distinguishes_absent_and_empty_text() {
    assert!(parse("<a/>").unwrap().text.is_none());
    assert_eq!(parse("<a></a>").unwrap().text.as_deref(), Some(""));
}

#[test]
fn round_trip_preserves_builder_trees() {
    let tree = Element::node("root")
        .with_attribute("id", "r&1")
        .with_children(vec![
            Element::node("first").with_text("a<b"),
            Element::node("empty"),
            Element::node("nested").with_children(vec![
                Element::node("leaf").with_text(""),
                Element::node("leaf").with_text("  spaced  "),
            ]),
        ]);
    let wire = serialize(&tree);
    let back = parse(&wire).unwrap();
    assert!(tree.like(&back));
}

#[test]
fn parse_decodes_entities_in_attribute_values() {
    let e = parse("<a k=\"x&amp;y&quot;z\"/>").unwrap();
    assert_eq!(e.attributes, vec![("k".to_string(), "x&y\"z".to_string())]);
}

#[test]
fn parse_accepts_several_processing_instructions() {
    let e = parse("<?xml version=\"1.0\"?> <?other pi?> <a/> ").unwrap();
    assert_eq!(e.name, "a");
}

#[test]
fn parse_rejects_undefined_entity() {
    assert!(matches!(parse("<a>&nbsp;</a>"), Err(RpcError::MalformedXml { .. })));
}

#[test]
fn parse_keeps_text_around_children_when_not_whitespace() {
    let e = parse("<a>lead<b/></a>").unwrap();
    assert_eq!(e.text.as_deref(), Some("lead"));
    assert_eq!(e.children.len(), 1);
}
