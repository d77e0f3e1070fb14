use momenta_core::nodes::Attribute;
use momenta_core::nodes::Element;
use momenta_core::nodes::HtmlWriter;
use momenta_core::nodes::Node;
use momenta_core::nodes::OptionAttribute;
use momenta_core::nodes::classes;
use momenta_core::nodes::usize_to_string;

#[test]
fn classes_joins_selected_names() {
    let is_active = true;
    let is_disabled = false;
    let class_name = classes(&[
        ("btn", true),
        ("btn-active", is_active),
        ("btn-disabled", is_disabled),
    ]);
    assert_eq!(class_name, "btn btn-active");
}

#[test]
fn classes_of_nothing_is_empty() {
    assert_eq!(classes(&[]), "");
    assert_eq!(classes(&[("hidden", false)]), "");
}

#[test]
fn text_is_escaped() {
    let node = Node::Text(String::from("<a & \"b\"/>"));
    assert_eq!(node.to_html(), "&lt;a &amp; &quot;b&quot;&#x2F;&gt;");
}

#[test]
fn element_serializes_with_attributes() {
    let node = Element::parse_tag_with_attributes(
        "k",
        "div",
        vec![(String::from("class"), String::from("box"))],
        Vec::new(),
        "",
        vec![Node::Text(String::from("hi"))],
    );
    assert_eq!(node.to_html(), "<div class=\"box\">hi</div>");
}

#[test]
fn childless_element_uses_inner_html() {
    let node = Element::parse_tag_with_attributes(
        "",
        "span",
        Vec::new(),
        Vec::new(),
        "<b>raw</b>",
        Vec::new(),
    );
    assert_eq!(node.to_html(), "<span><b>raw</b></span>");
}

#[test]
fn fragments_comments_and_static_markup() {
    let node = Node::Fragment(vec![
        Node::Comment(String::from("c")),
        Node::Static("<hr>"),
        Node::Empty,
        Node::Text(String::from("x")),
    ]);
    assert_eq!(node.to_html(), "<!--c--><hr>x");
}

#[test]
fn writer_accumulates_across_nodes() {
    let mut writer = HtmlWriter::with_capacity(64);
    Node::Text(String::from("a")).write_to(&mut writer);
    Node::Text(String::from("b")).write_to(&mut writer);
    assert_eq!(writer.finish(), "ab");
    let empty = HtmlWriter::new();
    assert_eq!(empty.finish(), "");
    let default_writer = HtmlWriter::default();
    assert_eq!(default_writer.finish(), "");
}

#[test]
fn numbers_format_in_decimal() {
    assert_eq!(usize_to_string(0), "0");
    assert_eq!(usize_to_string(7), "7");
    assert_eq!(usize_to_string(1234), "1234");
    assert_eq!(usize_to_string(1000), "1000");
}

#[test]
fn attribute_values_format() {
    assert_eq!(Attribute::value(&"x"), "x");
    assert_eq!(Attribute::value(&String::from("y")), "y");
    assert_eq!(Attribute::value(&true), "true");
    assert_eq!(Attribute::value(&false), "false");
    assert_eq!(Attribute::value(&42usize), "42");
    assert_eq!(Attribute::value(&9u32), "9");
    assert_eq!(Attribute::value(&-56i32), "-56");
    assert_eq!(Attribute::value(&0i32), "0");
    assert_eq!(OptionAttribute::value(&Some("hello")), "hello");
    let nothing: Option<&str> = None;
    assert_eq!(OptionAttribute::value(&nothing), "");
}

#[test]
fn element_accessors_read_back() {
    let node = Element::parse_tag_with_attributes(
        "key7",
        "p",
        vec![(String::from("id"), String::from("a"))],
        vec![(String::from("click"), String::from("noop"))],
        "inner",
        Vec::new(),
    );
    let el = node.as_element().unwrap();
    assert_eq!(el.key(), "key7");
    assert_eq!(el.tag(), "p");
    assert_eq!(el.attributes().len(), 1);
    assert_eq!(el.children().len(), 0);
    assert_eq!(el.html(), "inner");
    assert_eq!(el.events().len(), 1);
    assert!(Node::Empty.as_element().is_none());
}
