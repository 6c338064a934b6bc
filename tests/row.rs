use iced_web::widget::join_classes;
use iced_web::{render, Alignment, Css, Element, Length, Node, Padding, Row, Rule, Text};

const DEFAULT_STYLE: &str = "width: 100%; height: auto; max-width: none; max-height: none; \
                             padding: 0px 0px 0px 0px; align-items: flex-start";

fn attribute<'n>(node: &'n Node, name: &str) -> &'n str {
    match node {
        Node::Tag { attributes, .. } => attributes
            .iter()
            .find(|(n, _)| n == name)
            .map(|(_, v)| v.as_str())
            .unwrap(),
        Node::Text(_) => panic!("a text node has no attributes"),
    }
}

fn children(node: &Node) -> &Vec<Node> {
    match node {
        Node::Tag { children, .. } => children,
        Node::Text(_) => panic!("a text node has no children"),
    }
}

fn text(s: &str) -> Element {
    Element::from(Text::new(s))
}

fn leaf(node: &Node) -> &str {
    match node {
        Node::Text(s) => s.as_str(),
        Node::Tag { .. } => panic!("not a text node"),
    }
}

#[test]
fn default_row_renders_defaults() {
    let row = Row::new();
    let mut sheet = Css::new();
    let node = row.node(&mut sheet);
    match &node {
        Node::Tag { tag, attributes, children } => {
            assert_eq!(tag, "div");
            assert_eq!(attributes.len(), 2);
            assert_eq!(attributes[0].0, "class");
            assert_eq!(attributes[1].0, "style");
            assert!(children.is_empty());
        }
        Node::Text(_) => panic!("a row renders to a tag"),
    }
    assert_eq!(attribute(&node, "class"), "c0 c1");
    assert_eq!(attribute(&node, "style"), DEFAULT_STYLE);
    assert_eq!(sheet.rules(), &vec![Rule::Row, Rule::Spacing(0)]);
}

#[test]
fn style_lists_fields_in_fixed_order() {
    let row = Row::new()
        .align_items(Alignment::Center)
        .padding(Padding::from([1, 2, 3, 4]))
        .max_height(600)
        .max_width(500)
        .height(Length::Fill)
        .width(Length::Units(100));
    assert_eq!(
        row.style(),
        "width: 100px; height: 100%; max-width: 500px; max-height: 600px; \
         padding: 1px 2px 3px 4px; align-items: center"
    );
    let only_alignment = Row::new().align_items(Alignment::End);
    assert_eq!(
        only_alignment.style(),
        "width: 100%; height: auto; max-width: none; max-height: none; \
         padding: 0px 0px 0px 0px; align-items: flex-end"
    );
}

#[test]
fn last_setting_wins() {
    let row = Row::new().spacing(3).spacing(5).width(Length::Shrink).width(Length::Units(7));
    let mut sheet = Css::new();
    let node = row.node(&mut sheet);
    assert_eq!(sheet.rules(), &vec![Rule::Row, Rule::Spacing(5)]);
    assert!(attribute(&node, "style").starts_with("width: 7px; "));
}

#[test]
fn children_keep_their_order() {
    let row = Row::with_children(vec![text("a"), text("b")]).push(text("c"));
    let mut sheet = Css::new();
    let node = row.node(&mut sheet);
    let kids = children(&node);
    assert_eq!(kids.len(), 3);
    assert_eq!(leaf(&kids[0]), "a");
    assert_eq!(leaf(&kids[1]), "b");
    assert_eq!(leaf(&kids[2]), "c");
}

#[test]
fn nested_row_is_not_flattened() {
    let inner = Row::new().spacing(4).width(Length::Shrink).push(text("x")).push(text("y"));
    let outer = Row::new().push(Element::from(inner));
    let (node, sheet) = render(&Element::from(outer));
    let kids = children(&node);
    assert_eq!(kids.len(), 1);
    let nested = &kids[0];
    let nested_kids = children(nested);
    assert_eq!(nested_kids.len(), 2);
    assert_eq!(leaf(&nested_kids[0]), "x");
    assert_eq!(leaf(&nested_kids[1]), "y");
    // The inner row renders first, so its rules come first.
    assert_eq!(attribute(nested, "class"), "c0 c1");
    assert_eq!(
        attribute(nested, "style"),
        "width: auto; height: auto; max-width: none; max-height: none; \
         padding: 0px 0px 0px 0px; align-items: flex-start"
    );
    assert_eq!(attribute(&node, "class"), "c0 c2");
    assert_eq!(attribute(&node, "style"), DEFAULT_STYLE);
    assert_eq!(sheet.rules(), &vec![Rule::Row, Rule::Spacing(4), Rule::Spacing(0)]);
}

#[test]
fn spaced_row_with_two_leaves() {
    let row = Row::new().spacing(8).push(text("leaf a")).push(text("leaf b"));
    let mut sheet = Css::new();
    let node = row.node(&mut sheet);
    let kids = children(&node);
    assert_eq!(kids.len(), 2);
    assert_eq!(kids[0], Node::Text(String::from("leaf a")));
    assert_eq!(kids[1], Node::Text(String::from("leaf b")));
    let class = attribute(&node, "class");
    let ids: Vec<&str> = class.split(' ').collect();
    assert_eq!(ids.len(), 2);
    assert_ne!(ids[0], ids[1]);
    assert_eq!(attribute(&node, "style"), DEFAULT_STYLE);
    assert_eq!(sheet.rules(), &vec![Rule::Row, Rule::Spacing(8)]);
}

#[test]
fn siblings_share_spacing_identifier() {
    let left = Row::new().spacing(8).push(text("l"));
    let right = Row::new().spacing(8).push(text("r"));
    let parent = Row::new().push(Element::from(left)).push(Element::from(right));
    let (node, sheet) = render(&Element::from(parent));
    let kids = children(&node);
    let a = attribute(&kids[0], "class");
    let b = attribute(&kids[1], "class");
    assert_eq!(a, b);
    assert_eq!(a.split(' ').nth(1), b.split(' ').nth(1));
    assert_eq!(sheet.len(), 3);
}

#[test]
fn identifiers_belong_to_one_frame() {
    let build = || Row::new().spacing(8).push(text("a"));
    let mut first = Css::new();
    let a = build().node(&mut first);
    let mut second = Css::new();
    second.insert(Rule::Spacing(1));
    second.insert(Rule::Spacing(2));
    let b = build().node(&mut second);
    assert_eq!(attribute(&a, "class"), "c0 c1");
    assert_eq!(attribute(&b, "class"), "c2 c3");
    assert_eq!(attribute(&a, "style"), attribute(&b, "style"));
    assert_eq!(children(&a), children(&b));
}

#[test]
fn text_element_renders_text() {
    let (node, sheet) = render(&text("hello"));
    assert_eq!(node, Node::Text(String::from("hello")));
    assert_eq!(sheet.len(), 0);
}

#[test]
fn class_list_joins_with_single_spaces() {
    assert_eq!(join_classes(&vec![]), "");
    assert_eq!(join_classes(&vec![String::from("c0")]), "c0");
    let ids = vec![String::from("c0"), String::from("c1"), String::from("c12")];
    assert_eq!(join_classes(&ids), "c0 c1 c12");
}
