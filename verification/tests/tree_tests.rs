use confluence::errors::RpcError;
use confluence::tree::Element;

fn named_child(name: &str, text: &str) -> Element {
    Element::node(name).with_text(text)
}

#[test]
fn descend_returns_first_match_in_document_order() {
    let tree = Element::node("root").with_children(vec![
        named_child("a", "first"),
        named_child("b", "second"),
        named_child("a", "third"),
    ]);
    let hit = tree.descend(&["a"]).unwrap();
    assert_eq!(hit.text.as_deref(), Some("first"));
}

#[test]
fn descend_missing_reports_available_siblings() {
    let tree = Element::node("root")
        .with_children(vec![named_child("a", "1"), named_child("b", "2")]);
    match tree.descend(&["x"]) {
        Err(RpcError::MissingElement { segment, available }) => {
            assert_eq!(segment, "x");
            assert_eq!(available, vec!["a".to_string(), "b".to_string()]);
        }
        other => panic!("expected MissingElement, got {:?}", other),
    }
}

#[test]
fn descend_empty_path_is_identity() {
    let tree = Element::node("root").with_text("here");
    let hit = tree.descend(&[]).unwrap();
    assert_eq!(hit.name, "root");
    assert_eq!(hit.text.as_deref(), Some("here"));
}

#[test]
fn descend_follows_nested_path() {
    let inner = Element::node("key").with_text("DEMO");
    let mid = Element::node("getSpaceReturn").with_children(vec![inner]);
    let tree = Element::node("getSpaceResponse").with_children(vec![mid]);
    let hit = tree.descend(&["getSpaceReturn", "key"]).unwrap();
    assert_eq!(hit.text.as_deref(), Some("DEMO"));
}

#[test]
fn builder_starts_empty() {
    let e = Element::node("fresh");
    assert_eq!(e.name, "fresh");
    assert!(e.attributes.is_empty());
    assert!(e.children.is_empty());
    assert!(e.text.is_none());
}

#[test]
fn with_attribute_overwrites_existing_key() {
    let e = Element::node("n")
        .with_attribute("k", "v1")
        .with_attribute("other", "x")
        .with_attribute("k", "v2");
    assert_eq!(
        e.attributes,
        vec![("k".to_string(), "v2".to_string()), ("other".to_string(), "x".to_string())]
    );
}

#[test]
fn duplicate_is_structurally_equal() {
    let e = Element::node("n")
        .with_attribute("k", "v")
        .with_text("t")
        .with_children(vec![named_child("c", "x")]);
    let d = e.duplicate();
    assert!(e.like(&d));
    assert!(d.like(&e));
}

#[test]
fn like_distinguishes_absent_and_empty_text() {
    let absent = Element::node("n");
    let empty = Element::node("n").with_text("");
    assert!(!absent.like(&empty));
    assert!(!empty.like(&absent));
    assert!(absent.like(&Element::node("n")));
}
