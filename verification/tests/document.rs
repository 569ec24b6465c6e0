//! Documents as nodes.
use update_versions_lsp::document::Node;

fn text(node: Option<&Node>) -> Option<&str> {
    match node {
        Some(Node::Text(s)) => Some(s.as_str()),
        _ => None,
    }
}

#[test]
fn json_becomes_nodes() {
    let node = Node::from_json(r#"{"a": {"b": "c"}, "l": ["x", 1], "n": null, "t": true, "f": 1.5}"#);
    let node = node.unwrap();
    assert_eq!(text(node.resolve("a.b")), Some("c"));
    assert!(matches!(node.get_str("n"), Some(Node::Other)));
    assert!(matches!(node.get_str("t"), Some(Node::Other)));
    assert!(matches!(node.get_str("f"), Some(Node::Other)));
    match node.get_str("l") {
        Some(Node::List(items)) => {
            assert_eq!(items.len(), 2);
            assert_eq!(text(items.first()), Some("x"));
            assert!(matches!(items[1], Node::Other));
        }
        other => panic!("{:?}", other),
    }
    assert!(node.resolve("a.c").is_none());
    assert!(node.resolve("a.b.c").is_none());
    assert!(node.get_str("z").is_none());
}

#[test]
fn toml_becomes_nodes() {
    let node = Node::from_toml("a.b = \"c\"\nl = [\"x\", 1]\nd = 1979-05-27\nf = 1.5\n[t]\nk = true\n");
    let node = node.unwrap();
    assert_eq!(text(node.resolve("a.b")), Some("c"));
    assert!(matches!(node.get_str("l"), Some(Node::List(_))));
    assert!(matches!(node.get_str("d"), Some(Node::Other)));
    assert!(matches!(node.get_str("f"), Some(Node::Other)));
    assert!(matches!(node.resolve("t.k"), Some(Node::Other)));
    assert!(node.resolve("t.k.x").is_none());
}

#[test]
fn what_cannot_be_read_is_no_document() {
    assert!(Node::from_json("{").is_none());
    assert!(Node::from_json("").is_none());
    assert!(Node::from_json("{\"a\": 1} // comment").is_none());
    assert!(Node::from_toml("a = ").is_none());
    assert!(Node::from_toml("a = 1\na = 2").is_none());
    assert!(matches!(Node::from_toml(""), Some(Node::Table(_))));
}
