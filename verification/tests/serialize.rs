use xmlcanon::serialize;
use xmlcanon::serialize_chunked;
use xmlcanon::Attribute;
use xmlcanon::Comment;
use xmlcanon::Element;
use xmlcanon::Node;
use xmlcanon::NsBinding;
use xmlcanon::SerializeError;
use xmlcanon::Tree;

fn elem(tag: &str) -> Element {
    Element {
        tag: tag.as_bytes().to_vec(),
        attributes: vec![],
        nsmap: vec![],
        children: vec![],
        text: None,
        tail: None,
    }
}

fn attr(key: &str, value: &str) -> Attribute {
    Attribute { key: key.as_bytes().to_vec(), value: value.as_bytes().to_vec() }
}

fn binding(alias: &str, uri: &str) -> NsBinding {
    NsBinding { alias: alias.as_bytes().to_vec(), uri: uri.as_bytes().to_vec() }
}

fn tree(root: Node) -> Tree {
    Tree { preceding: vec![], root, following: vec![] }
}

fn out(root: Element) -> String {
    String::from_utf8(serialize(&tree(Node::Element(root)), 80, false).unwrap()).unwrap()
}

#[test]
fn simple_self_closing() {
    assert_eq!(out(elem("a")), "<a/>\n");
}

#[test]
fn alias_declaration_and_prefixed_attribute() {
    let mut a = elem("a");
    a.nsmap = vec![binding("x", "urn:x")];
    a.attributes = vec![attr("{urn:x}id", "1")];
    a.children = vec![Node::Element(elem("b"))];
    assert_eq!(out(a), "<a xmlns:x=\"urn:x\" x:id=\"1\">\n  <b/>\n</a>\n");
}

#[test]
fn preceding_comment_sibling() {
    let mut t = tree(Node::Element(elem("a")));
    t.preceding = vec![Node::Comment(Comment { text: b"note".to_vec(), tail: None })];
    let r = serialize(&t, 80, true).unwrap();
    assert_eq!(String::from_utf8(r).unwrap(), "<!--note-->\n<a/>\n");
}

#[test]
fn following_comment_sibling() {
    let mut t = tree(Node::Element(elem("a")));
    t.following = vec![Node::Comment(Comment { text: b"f".to_vec(), tail: None })];
    let r = serialize(&t, 80, true).unwrap();
    assert_eq!(String::from_utf8(r).unwrap(), "<a/>\n<!--f-->\n");
}

#[test]
fn preceding_comments_in_document_order() {
    let mut t = tree(Node::Element(elem("a")));
    t.preceding = vec![
        Node::Comment(Comment { text: b"c1".to_vec(), tail: None }),
        Node::Comment(Comment { text: b"c2".to_vec(), tail: None }),
    ];
    let r = serialize(&t, 80, true).unwrap();
    assert_eq!(String::from_utf8(r).unwrap(), "<!--c1-->\n<!--c2-->\n<a/>\n");
}

#[test]
fn siblings_ignored_without_flag() {
    let mut t = tree(Node::Element(elem("a")));
    t.preceding = vec![Node::Other];
    let r = serialize(&t, 80, false).unwrap();
    assert_eq!(String::from_utf8(r).unwrap(), "<a/>\n");
}

#[test]
fn control_character_escaped_numerically() {
    let mut a = elem("a");
    a.text = Some(vec![104, 105, 7]);
    assert_eq!(out(a), "<a>hi&#x7;</a>\n");
}

#[test]
fn two_digit_numeric_escape() {
    let mut a = elem("a");
    a.text = Some(vec![31]);
    assert_eq!(out(a), "<a>&#x1F;</a>\n");
}

#[test]
fn attribute_wraps_when_line_full() {
    let mut a = elem("aaaa");
    a.attributes = vec![attr("k1", "v1"), attr("k2", "v2")];
    let r = serialize(&tree(Node::Element(a)), 10, false).unwrap();
    assert_eq!(String::from_utf8(r).unwrap(), "<aaaa k1=\"v1\"\n    k2=\"v2\"/>\n");
}

#[test]
fn unsupported_child_kind() {
    let mut a = elem("a");
    a.children = vec![Node::Other];
    let r = serialize(&tree(Node::Element(a)), 80, false);
    assert_eq!(r.unwrap_err(), SerializeError::UnsupportedNodeKind);
}

#[test]
fn root_must_be_element() {
    let t = tree(Node::Comment(Comment { text: b"c".to_vec(), tail: None }));
    assert_eq!(serialize(&t, 80, false).unwrap_err(), SerializeError::TypeMismatch);
}

#[test]
fn non_comment_sibling_is_format_error() {
    let mut t = tree(Node::Element(elem("a")));
    t.preceding = vec![Node::Element(elem("b"))];
    assert_eq!(serialize(&t, 80, true).unwrap_err(), SerializeError::FormatError);
}

#[test]
fn sibling_comment_with_tail_is_format_error() {
    let mut t = tree(Node::Element(elem("a")));
    t.preceding = vec![Node::Comment(Comment { text: b"c".to_vec(), tail: Some(b"x".to_vec()) })];
    assert_eq!(serialize(&t, 80, true).unwrap_err(), SerializeError::FormatError);
}

#[test]
fn root_tail_with_siblings_is_format_error() {
    let mut a = elem("a");
    a.tail = Some(b"t".to_vec());
    assert_eq!(
        serialize(&tree(Node::Element(a)), 80, true).unwrap_err(),
        SerializeError::FormatError
    );
}

#[test]
fn empty_root_tail_with_siblings_is_fine() {
    let mut a = elem("a");
    a.tail = Some(Vec::new());
    let r = serialize(&tree(Node::Element(a)), 80, true).unwrap();
    assert_eq!(String::from_utf8(r).unwrap(), "<a/>\n");
}

#[test]
fn unresolvable_namespace() {
    let a = {
        let mut a = elem("{urn:missing}a");
        a.nsmap = vec![];
        a
    };
    assert_eq!(
        serialize(&tree(Node::Element(a)), 80, false).unwrap_err(),
        SerializeError::NamespaceResolutionError
    );
}

#[test]
fn malformed_name_unclosed_brace() {
    let a = elem("{urn:x a");
    assert_eq!(
        serialize(&tree(Node::Element(a)), 80, false).unwrap_err(),
        SerializeError::MalformedName
    );
}

#[test]
fn malformed_name_empty_tag() {
    let a = elem("");
    assert_eq!(
        serialize(&tree(Node::Element(a)), 80, false).unwrap_err(),
        SerializeError::MalformedName
    );
}

#[test]
fn malformed_name_empty_uri() {
    let a = elem("{}a");
    assert_eq!(
        serialize(&tree(Node::Element(a)), 80, false).unwrap_err(),
        SerializeError::MalformedName
    );
}

#[test]
fn serialization_is_deterministic() {
    let build = || {
        let mut a = elem("a");
        a.nsmap = vec![binding("x", "urn:x"), binding("y", "urn:y")];
        a.attributes = vec![attr("p", "1"), attr("{urn:y}q", "2")];
        a.children = vec![Node::Element(elem("b")), Node::Comment(Comment {
            text: b"c".to_vec(),
            tail: Some(b"t".to_vec()),
        })];
        tree(Node::Element(a))
    };
    let r1 = serialize(&build(), 42, false).unwrap();
    let r2 = serialize(&build(), 42, false).unwrap();
    assert_eq!(r1, r2);
}

#[test]
fn always_expanded_tags_never_self_close() {
    assert_eq!(out(elem("bodies")), "<bodies></bodies>\n");
    assert_eq!(out(elem("semanticResources")), "<semanticResources></semanticResources>\n");
}

#[test]
fn prefixed_bodies_tag_self_closes() {
    let mut a = elem("{urn:x}bodies");
    a.nsmap = vec![binding("x", "urn:x")];
    assert_eq!(out(a), "<x:bodies xmlns:x=\"urn:x\"/>\n");
}

#[test]
fn element_with_empty_text_is_expanded() {
    let mut a = elem("a");
    a.text = Some(Vec::new());
    assert_eq!(out(a), "<a></a>\n");
}

#[test]
fn inherited_alias_not_redeclared() {
    let mut a = elem("a");
    a.nsmap = vec![binding("x", "urn:x")];
    let mut b = elem("b");
    b.nsmap = vec![binding("x", "urn:x")];
    let mut c = elem("c");
    c.nsmap = vec![binding("y", "urn:y")];
    a.children = vec![Node::Element(b), Node::Element(c)];
    assert_eq!(out(a), "<a xmlns:x=\"urn:x\">\n  <b/>\n  <c xmlns:y=\"urn:y\"/>\n</a>\n");
}

#[test]
fn known_uri_under_new_alias_not_redeclared() {
    let mut a = elem("a");
    a.nsmap = vec![binding("x", "urn:x")];
    let mut b = elem("b");
    b.nsmap = vec![binding("y", "urn:x")];
    a.children = vec![Node::Element(b)];
    assert_eq!(out(a), "<a xmlns:x=\"urn:x\">\n  <b/>\n</a>\n");
}

#[test]
fn overridden_alias_redeclared() {
    let mut a = elem("a");
    a.nsmap = vec![binding("x", "urn:1")];
    let mut b = elem("b");
    b.nsmap = vec![binding("x", "urn:2")];
    a.children = vec![Node::Element(b)];
    assert_eq!(out(a), "<a xmlns:x=\"urn:1\">\n  <b xmlns:x=\"urn:2\"/>\n</a>\n");
}

#[test]
fn early_namespaces_sort_first() {
    let mut a = elem("a");
    a.nsmap = vec![binding("b", "urn:b"), binding("z", "http://www.omg.org/XMI")];
    assert_eq!(out(a), "<a xmlns:z=\"http://www.omg.org/XMI\" xmlns:b=\"urn:b\"/>\n");
}

#[test]
fn aliases_sort_ascending_within_partition() {
    let mut a = elem("a");
    a.nsmap = vec![binding("c", "urn:c"), binding("b", "urn:b")];
    assert_eq!(out(a), "<a xmlns:b=\"urn:b\" xmlns:c=\"urn:c\"/>\n");
}

#[test]
fn pinned_attributes_come_first_in_fixed_order() {
    let mut a = elem("r");
    a.nsmap = vec![binding("xmi", "http://www.omg.org/XMI")];
    a.attributes = vec![
        attr("a", "1"),
        attr("{http://www.omg.org/XMI}id", "ID"),
        attr("{http://www.omg.org/XMI}version", "2.0"),
    ];
    let r = serialize(&tree(Node::Element(a)), 200, false).unwrap();
    assert_eq!(
        String::from_utf8(r).unwrap(),
        "<r xmi:version=\"2.0\" xmi:id=\"ID\" xmlns:xmi=\"http://www.omg.org/XMI\" a=\"1\"/>\n"
    );
}

#[test]
fn forced_break_before_id_on_non_root() {
    let mut b = elem("b");
    b.attributes = vec![attr("x", "1"), attr("id", "7")];
    let mut a = elem("a");
    a.children = vec![Node::Element(b)];
    let r = serialize(&tree(Node::Element(a)), 100, false).unwrap();
    assert_eq!(
        String::from_utf8(r).unwrap(),
        "<a>\n  <b x=\"1\"\n      id=\"7\"/>\n</a>\n"
    );
}

#[test]
fn no_forced_break_for_id_on_root() {
    let mut a = elem("a");
    a.attributes = vec![attr("id", "7")];
    assert_eq!(out(a), "<a id=\"7\"/>\n");
}

#[test]
fn multiline_text_uses_structural_breaks() {
    let mut a = elem("a");
    a.text = Some(b"l1\nl2".to_vec());
    assert_eq!(out(a), "<a>l1\nl2</a>\n");
}

#[test]
fn comment_child_on_indented_line() {
    let mut a = elem("a");
    a.children = vec![Node::Comment(Comment { text: b"c".to_vec(), tail: None })];
    assert_eq!(out(a), "<a>\n  <!--c-->\n</a>\n");
}

#[test]
fn comment_escapes_only_greater_than() {
    let mut a = elem("a");
    a.children = vec![Node::Comment(Comment { text: b"a>b&c<d\"e".to_vec(), tail: None })];
    assert_eq!(out(a), "<a>\n  <!--a&gt;b&c<d\"e-->\n</a>\n");
}

#[test]
fn attribute_value_escaping() {
    let mut a = elem("a");
    a.attributes = vec![attr("k", "a\"b<c&d\te>f")];
    assert_eq!(out(a), "<a k=\"a&quot;b&lt;c&amp;d&#x9;e>f\"/>\n");
}

#[test]
fn text_escaping_lets_tab_through() {
    let mut a = elem("a");
    a.text = Some(b"2<3&4\"5\t6>7".to_vec());
    assert_eq!(out(a), "<a>2&lt;3&amp;4&quot;5\t6>7</a>\n");
}

#[test]
fn newline_in_attribute_value_escaped_numerically() {
    let mut a = elem("a");
    a.attributes = vec![attr("k", "x\ny")];
    assert_eq!(out(a), "<a k=\"x&#xA;y\"/>\n");
}

#[test]
fn tail_text_keeps_closing_tag_on_same_line() {
    let mut b = elem("b");
    b.tail = Some(b"t".to_vec());
    let mut a = elem("a");
    a.children = vec![Node::Element(b)];
    assert_eq!(out(a), "<a>\n  <b/>t</a>\n");
}

#[test]
fn default_namespace_declared_as_plain_xmlns() {
    let mut a = elem("{urn:d}a");
    a.nsmap = vec![binding("", "urn:d")];
    assert_eq!(out(a), "<a xmlns=\"urn:d\"/>\n");
}

#[test]
fn nested_indentation_grows_two_spaces_per_level() {
    let mut c = elem("c");
    c.text = Some(b"t".to_vec());
    let mut b = elem("b");
    b.children = vec![Node::Element(c)];
    let mut a = elem("a");
    a.children = vec![Node::Element(b)];
    assert_eq!(out(a), "<a>\n  <b>\n    <c>t</c>\n  </b>\n</a>\n");
}

#[test]
fn chunked_output_concatenates_to_memory_output() {
    let mut a = elem("a");
    a.nsmap = vec![binding("x", "urn:x")];
    a.attributes = vec![attr("{urn:x}k", "v"), attr("id", "1")];
    a.children = vec![
        Node::Element(elem("b")),
        Node::Comment(Comment { text: b"c".to_vec(), tail: Some(b"tail".to_vec()) }),
    ];
    let t = tree(Node::Element(a));
    let whole = serialize(&t, 20, false).unwrap();
    let chunks = serialize_chunked(&t, 20, false).unwrap();
    let mut joined: Vec<u8> = Vec::new();
    for c in &chunks {
        assert!(c.len() <= 2 * 1024 * 1024);
        joined.extend_from_slice(c);
    }
    assert_eq!(joined, whole);
}

#[test]
fn chunked_error_matches_memory_error() {
    let mut a = elem("a");
    a.children = vec![Node::Other];
    let t = tree(Node::Element(a));
    assert_eq!(
        serialize_chunked(&t, 80, false).unwrap_err(),
        serialize(&t, 80, false).unwrap_err()
    );
}
