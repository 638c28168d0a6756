use rendercore::css::{Color, Declaration, Rule, Selector, SimpleSelector, Stylesheet, Unit, Value};
use rendercore::dom::{elem, text, AttrMap, ElementData, Node, NodeType};
use rendercore::layout::{
    build_layout_tree, layout_tree, BoxType, Dimensions, Display, EdgeSizes, LayoutBox, Rect,
};
use rendercore::painting::{build_display_list, paint, Canvas, DisplayCommand};
use rendercore::style::{
    matches_simple_selector, specified_values, style_tree, PropertyMap, StyledNode,
};

fn kw(s: &str) -> Value {
    Value::Keyword(s.to_string())
}

fn px(n: i64) -> Value {
    Value::Length(n, Unit::Px)
}

fn rgb(r: u8, g: u8, b: u8) -> Color {
    Color { r, g, b, a: 255 }
}

fn attrs(pairs: &[(&str, &str)]) -> AttrMap {
    let mut m = AttrMap::new();
    for (k, v) in pairs {
        m.insert(k.to_string(), v.to_string());
    }
    m
}

fn props(pairs: Vec<(&str, Value)>) -> PropertyMap {
    let mut m = PropertyMap::new();
    for (k, v) in pairs {
        m.insert(k.to_string(), v);
    }
    m
}

fn styled(pairs: Vec<(&str, Value)>, children: Vec<StyledNode>) -> StyledNode {
    StyledNode { specified_values: props(pairs), children }
}

fn simple(tag: Option<&str>, id: Option<&str>, classes: &[&str]) -> SimpleSelector {
    SimpleSelector {
        tag_name: tag.map(|s| s.to_string()),
        id: id.map(|s| s.to_string()),
        class: classes.iter().map(|s| s.to_string()).collect(),
    }
}

fn rule(selectors: Vec<SimpleSelector>, declarations: Vec<(&str, Value)>) -> Rule {
    Rule {
        selectors: selectors.into_iter().map(Selector::Simple).collect(),
        declarations: declarations
            .into_iter()
            .map(|(name, value)| Declaration { name: name.to_string(), value })
            .collect(),
    }
}

fn sample_element() -> ElementData {
    ElementData {
        tag_name: "div".to_string(),
        attributes: attrs(&[("id", "x"), ("class", "a b")]),
    }
}

#[test]
fn selector_matches_when_all_components_hold() {
    let el = sample_element();
    assert!(matches_simple_selector(&el, &simple(Some("div"), Some("x"), &["a", "b"])));
    assert!(matches_simple_selector(&el, &simple(Some("div"), None, &[])));
    assert!(matches_simple_selector(&el, &simple(None, Some("x"), &[])));
    assert!(matches_simple_selector(&el, &simple(None, None, &["b"])));
    assert!(matches_simple_selector(&el, &simple(None, None, &[])));
}

#[test]
fn selector_fails_on_any_mismatch() {
    let el = sample_element();
    assert!(!matches_simple_selector(&el, &simple(Some("p"), None, &[])));
    assert!(!matches_simple_selector(&el, &simple(None, Some("y"), &[])));
    assert!(!matches_simple_selector(&el, &simple(None, None, &["c"])));
    assert!(!matches_simple_selector(&el, &simple(Some("div"), Some("x"), &["a", "c"])));
    let no_id = ElementData { tag_name: "div".to_string(), attributes: attrs(&[]) };
    assert!(!matches_simple_selector(&no_id, &simple(None, Some("x"), &[])));
}

#[test]
fn element_id_and_classes() {
    let el = sample_element();
    assert_eq!(el.id().unwrap().as_str(), "x");
    let classes = el.classes();
    let names: Vec<&str> = classes.iter().map(|s| s.as_str()).collect();
    assert_eq!(names, vec!["a", "b"]);
    let no_class = ElementData { tag_name: "div".to_string(), attributes: attrs(&[]) };
    assert!(no_class.classes().is_empty());
    assert!(no_class.id().is_none());
}

#[test]
fn specificity_ordering() {
    let id_sel = Selector::Simple(simple(None, Some("x"), &[]));
    let class_sel = Selector::Simple(simple(None, None, &["a", "b", "c"]));
    let tag_sel = Selector::Simple(simple(Some("div"), None, &[]));
    assert_eq!(id_sel.specificity(), (1, 0, 0));
    assert_eq!(class_sel.specificity(), (0, 3, 0));
    assert_eq!(tag_sel.specificity(), (0, 0, 1));
    assert!(id_sel.specificity() > class_sel.specificity());
    assert!(class_sel.specificity() > tag_sel.specificity());
}

#[test]
fn cascade_higher_specificity_wins_over_order() {
    // `.a { background: red }` listed before `#x { background: blue }`:
    // the id selector is more specific, so blue wins.
    let sheet = Stylesheet {
        rules: vec![
            rule(vec![simple(None, None, &["a"])], vec![("background", Value::ColorValue(rgb(255, 0, 0)))]),
            rule(vec![simple(None, Some("x"), &[])], vec![("background", Value::ColorValue(rgb(0, 0, 255)))]),
        ],
    };
    let el = sample_element();
    let values = specified_values(&el, &sheet);
    match values.value("background") {
        Some(Value::ColorValue(c)) => assert_eq!(c, rgb(0, 0, 255)),
        other => panic!("unexpected background: {:?}", other),
    }
}

#[test]
fn cascade_later_rule_wins_on_equal_specificity() {
    let sheet = Stylesheet {
        rules: vec![
            rule(vec![simple(None, None, &["a"])], vec![("color", Value::ColorValue(rgb(255, 0, 0)))]),
            rule(vec![simple(None, None, &["b"])], vec![("color", Value::ColorValue(rgb(0, 255, 0)))]),
        ],
    };
    let el = sample_element();
    let values = specified_values(&el, &sheet);
    match values.value("color") {
        Some(Value::ColorValue(c)) => assert_eq!(c, rgb(0, 255, 0)),
        other => panic!("unexpected color: {:?}", other),
    }
}

#[test]
fn style_tree_mirrors_document() {
    let sheet = Stylesheet {
        rules: vec![rule(vec![simple(Some("p"), None, &[])], vec![("display", kw("block"))])],
    };
    let doc = elem(
        "p".to_string(),
        attrs(&[]),
        vec![text("hello".to_string()), elem("p".to_string(), attrs(&[]), vec![])],
    );
    let sn = style_tree(&doc, &sheet);
    assert_eq!(sn.children.len(), 2);
    assert_eq!(sn.display(), Display::Block);
    // the text child has an empty mapping
    assert!(sn.children[0].value("display").is_none());
    assert_eq!(sn.children[0].display(), Display::Inline);
    assert_eq!(sn.children[1].display(), Display::Block);
    match doc.node_type {
        NodeType::Element(ref ed) => assert_eq!(ed.tag_name.as_str(), "p"),
        _ => panic!("expected an element"),
    }
}

#[test]
fn display_classification() {
    assert_eq!(styled(vec![("display", kw("block"))], vec![]).display(), Display::Block);
    assert_eq!(styled(vec![("display", kw("none"))], vec![]).display(), Display::DisplayNone);
    assert_eq!(styled(vec![("display", kw("inline"))], vec![]).display(), Display::Inline);
    assert_eq!(styled(vec![("display", px(3))], vec![]).display(), Display::Inline);
    assert_eq!(styled(vec![], vec![]).display(), Display::Inline);
}

#[test]
fn lookup_falls_back_to_shorthand_then_default() {
    let sn = styled(vec![("margin", px(7))], vec![]);
    match sn.lookup("margin-left", "margin", &px(0)) {
        Value::Length(n, Unit::Px) => assert_eq!(n, 7),
        other => panic!("unexpected value: {:?}", other),
    }
    match sn.lookup("padding-left", "padding", &px(0)) {
        Value::Length(n, Unit::Px) => assert_eq!(n, 0),
        other => panic!("unexpected value: {:?}", other),
    }
}

fn block_node(pairs: Vec<(&str, Value)>, children: Vec<StyledNode>) -> StyledNode {
    let mut all = vec![("display", kw("block"))];
    all.extend(pairs);
    styled(all, children)
}

#[test]
fn anonymous_box_coalescing() {
    // children classified [Block, Inline, Inline, Block] yield exactly
    // [Block, Anonymous(2 inline boxes), Block]
    let root = block_node(
        vec![],
        vec![
            block_node(vec![], vec![]),
            styled(vec![], vec![]),
            styled(vec![], vec![]),
            block_node(vec![], vec![]),
        ],
    );
    let b = build_layout_tree(root);
    assert_eq!(b.children.len(), 3);
    assert!(matches!(b.children[0].box_type, BoxType::BlockNode(_)));
    assert!(matches!(b.children[1].box_type, BoxType::AnonymousBlock));
    assert!(matches!(b.children[2].box_type, BoxType::BlockNode(_)));
    assert_eq!(b.children[1].children.len(), 2);
    assert!(matches!(b.children[1].children[0].box_type, BoxType::InlinedNode(_)));
    assert!(matches!(b.children[1].children[1].box_type, BoxType::InlinedNode(_)));
}

#[test]
fn inline_parent_keeps_children_direct() {
    let root = styled(vec![], vec![styled(vec![], vec![]), block_node(vec![], vec![])]);
    let b = build_layout_tree(root);
    assert!(matches!(b.box_type, BoxType::InlinedNode(_)));
    assert_eq!(b.children.len(), 2);
    assert!(matches!(b.children[0].box_type, BoxType::InlinedNode(_)));
    assert!(matches!(b.children[1].box_type, BoxType::BlockNode(_)));
}

#[test]
fn display_none_children_are_absent() {
    let root = block_node(
        vec![],
        vec![
            block_node(vec![("height", px(50))], vec![]),
            styled(vec![("display", kw("none"))], vec![block_node(vec![], vec![])]),
            block_node(vec![("height", px(30))], vec![]),
        ],
    );
    let b = build_layout_tree(root);
    assert_eq!(b.children.len(), 2);
    assert!(matches!(b.children[0].box_type, BoxType::BlockNode(_)));
    assert!(matches!(b.children[1].box_type, BoxType::BlockNode(_)));
}

fn containing(width: i64) -> Dimensions {
    let mut d = Dimensions::default();
    d.content.width = width;
    d
}

#[test]
fn width_auto_fills_containing_block() {
    let root = block_node(vec![], vec![]);
    let laid = layout_tree(root, containing(800));
    assert_eq!(laid.dimensions.content.width, 800);
    assert_eq!(laid.dimensions.margin.left, 0);
    assert_eq!(laid.dimensions.margin.right, 0);
}

#[test]
fn symmetric_auto_margins_split_underflow() {
    let root = block_node(
        vec![("width", px(200)), ("margin-left", kw("auto")), ("margin-right", kw("auto"))],
        vec![],
    );
    let laid = layout_tree(root, containing(800));
    assert_eq!(laid.dimensions.content.width, 200);
    assert_eq!(laid.dimensions.margin.left, 300);
    assert_eq!(laid.dimensions.margin.right, 300);
}

#[test]
fn margin_right_auto_takes_underflow() {
    let root = block_node(
        vec![("width", px(200)), ("margin-left", px(50)), ("margin-right", kw("auto"))],
        vec![],
    );
    let laid = layout_tree(root, containing(800));
    assert_eq!(laid.dimensions.margin.left, 50);
    assert_eq!(laid.dimensions.margin.right, 550);
}

#[test]
fn overconstrained_width_recomputes_margin_left() {
    // nothing is auto: the underflow lands in margin-left, recomputed
    // from margin-right plus underflow
    let root = block_node(
        vec![("width", px(600)), ("margin-left", px(100)), ("margin-right", px(200))],
        vec![],
    );
    let laid = layout_tree(root, containing(800));
    assert_eq!(laid.dimensions.content.width, 600);
    // underflow = 800 - 900 = -100; margin-left = 200 + (-100) = 100
    assert_eq!(laid.dimensions.margin.left, 100);
    assert_eq!(laid.dimensions.margin.right, 200);
}

#[test]
fn auto_width_negative_underflow_shrinks_margin_right() {
    let root = block_node(
        vec![("padding-left", px(60)), ("padding-right", px(60))],
        vec![],
    );
    let laid = layout_tree(root, containing(100));
    assert_eq!(laid.dimensions.content.width, 0);
    assert_eq!(laid.dimensions.margin.right, -20);
}

#[test]
fn vertical_stacking_accumulates_heights() {
    let root = block_node(
        vec![],
        vec![
            block_node(vec![("height", px(50))], vec![]),
            block_node(vec![("height", px(30))], vec![]),
            block_node(vec![("height", px(20))], vec![]),
        ],
    );
    let laid = layout_tree(root, containing(800));
    assert_eq!(laid.dimensions.content.height, 100);
    assert_eq!(laid.children[0].dimensions.content.y, 0);
    assert_eq!(laid.children[1].dimensions.content.y, 50);
    assert_eq!(laid.children[2].dimensions.content.y, 80);
}

#[test]
fn display_none_contributes_nothing_to_stacking() {
    let root = block_node(
        vec![],
        vec![
            block_node(vec![("height", px(50))], vec![]),
            styled(vec![("display", kw("none")), ("height", px(99))], vec![]),
            block_node(vec![("height", px(20))], vec![]),
        ],
    );
    let laid = layout_tree(root, containing(800));
    assert_eq!(laid.dimensions.content.height, 70);
    assert_eq!(laid.children.len(), 2);
    assert_eq!(laid.children[1].dimensions.content.y, 50);
}

#[test]
fn explicit_height_overrides_children() {
    let root = block_node(
        vec![("height", px(10))],
        vec![block_node(vec![("height", px(50))], vec![])],
    );
    let laid = layout_tree(root, containing(800));
    assert_eq!(laid.dimensions.content.height, 10);
}

#[test]
fn box_model_expansion() {
    let mut d = Dimensions::default();
    d.content = Rect { x: 10, y: 20, width: 100, height: 50 };
    d.padding = EdgeSizes { left: 1, right: 2, top: 3, bottom: 4 };
    d.border = EdgeSizes { left: 5, right: 6, top: 7, bottom: 8 };
    d.margin = EdgeSizes { left: 9, right: 10, top: 11, bottom: 12 };
    assert_eq!(d.padding_box(), Rect { x: 9, y: 17, width: 103, height: 57 });
    assert_eq!(d.border_box(), Rect { x: 4, y: 10, width: 114, height: 72 });
    assert_eq!(d.margin_box(), Rect { x: -5, y: -1, width: 133, height: 95 });
}

fn bare_box(pm: PropertyMap, content: Rect) -> LayoutBox {
    let mut d = Dimensions::default();
    d.content = content;
    LayoutBox { dimensions: d, box_type: BoxType::BlockNode(pm), children: vec![] }
}

#[test]
fn display_list_background_and_borders() {
    let pm = props(vec![
        ("background", Value::ColorValue(rgb(1, 2, 3))),
        ("border-color", Value::ColorValue(rgb(4, 5, 6))),
    ]);
    let b = bare_box(pm, Rect { x: 0, y: 0, width: 10, height: 10 });
    let list = build_display_list(&b);
    // one background plus four border edges
    assert_eq!(list.len(), 5);
    let DisplayCommand::SolidColor(c0, r0) = list[0];
    assert_eq!(c0, rgb(1, 2, 3));
    assert_eq!(r0, Rect { x: 0, y: 0, width: 10, height: 10 });
    let DisplayCommand::SolidColor(c1, _) = list[1];
    assert_eq!(c1, rgb(4, 5, 6));
}

#[test]
fn anonymous_box_paints_nothing() {
    let anon = LayoutBox::new(BoxType::AnonymousBlock);
    let list = build_display_list(&anon);
    assert!(list.is_empty());
}

fn pixel(canvas: &Canvas, x: usize, y: usize) -> Color {
    canvas.pixels[x + y * canvas.width]
}

#[test]
fn rasterization_clips_to_canvas() {
    // a 10x10 rectangle at (5,5) on an 8x8 canvas colors exactly the
    // 3x3 block with x in [5,8) and y in [5,8)
    let red = rgb(255, 0, 0);
    let white = Color { r: 255, g: 255, b: 255, a: 255 };
    let pm = props(vec![("background", Value::ColorValue(red))]);
    let b = bare_box(pm, Rect { x: 5, y: 5, width: 10, height: 10 });
    let canvas = paint(&b, Rect { x: 0, y: 0, width: 8, height: 8 });
    assert_eq!(canvas.width, 8);
    assert_eq!(canvas.height, 8);
    for y in 0..8 {
        for x in 0..8 {
            let expected = if x >= 5 && y >= 5 { red } else { white };
            assert_eq!(pixel(&canvas, x, y), expected);
        }
    }
}

#[test]
fn later_commands_overwrite_earlier_ones() {
    let blue = rgb(0, 0, 255);
    let red = rgb(255, 0, 0);
    let child = bare_box(
        props(vec![("background", Value::ColorValue(red))]),
        Rect { x: 0, y: 0, width: 2, height: 2 },
    );
    let mut parent = bare_box(
        props(vec![("background", Value::ColorValue(blue))]),
        Rect { x: 0, y: 0, width: 4, height: 4 },
    );
    parent.children.push(child);
    let canvas = paint(&parent, Rect { x: 0, y: 0, width: 4, height: 4 });
    assert_eq!(pixel(&canvas, 0, 0), red);
    assert_eq!(pixel(&canvas, 1, 1), red);
    assert_eq!(pixel(&canvas, 2, 2), blue);
    assert_eq!(pixel(&canvas, 3, 0), blue);
}

#[test]
fn canvas_matches_bounds() {
    let b = bare_box(PropertyMap::new(), Rect { x: 0, y: 0, width: 1, height: 1 });
    let canvas = paint(&b, Rect { x: 0, y: 0, width: 13, height: 7 });
    assert_eq!(canvas.width, 13);
    assert_eq!(canvas.height, 7);
    assert_eq!(canvas.pixels.len(), 91);
    let empty = paint(&b, Rect { x: 0, y: 0, width: -3, height: 7 });
    assert_eq!(empty.width, 0);
    assert_eq!(empty.height, 7);
    assert_eq!(empty.pixels.len(), 0);
}

#[test]
fn dom_constructors() {
    let t = text("abc".to_string());
    assert!(t.children.is_empty());
    assert!(matches!(t.node_type, NodeType::Text(_)));
    let e: Node = elem("div".to_string(), attrs(&[("id", "k")]), vec![t]);
    assert_eq!(e.children.len(), 1);
    match e.node_type {
        NodeType::Element(ed) => {
            assert_eq!(ed.tag_name.as_str(), "div");
            assert_eq!(ed.id().unwrap().as_str(), "k");
        },
        _ => panic!("expected an element"),
    }
}

#[test]
fn value_to_px() {
    assert_eq!(px(42).to_px(), 42);
    assert_eq!(kw("auto").to_px(), 0);
    assert_eq!(Value::ColorValue(rgb(1, 1, 1)).to_px(), 0);
}

#[test]
fn classes_split_keeps_empty_tokens() {
    let el = ElementData {
        tag_name: "div".to_string(),
        attributes: attrs(&[("class", "a  b")]),
    };
    let classes = el.classes();
    let names: Vec<&str> = classes.iter().map(|s| s.as_str()).collect();
    assert_eq!(names, vec!["a", "", "b"]);
    assert!(matches_simple_selector(&el, &simple(None, None, &["a", "b"])));
}

#[test]
fn full_pipeline_renders_document() {
    let sheet = Stylesheet {
        rules: vec![
            rule(
                vec![simple(Some("root"), None, &[])],
                vec![("display", kw("block")), ("background", Value::ColorValue(rgb(9, 9, 9)))],
            ),
            rule(
                vec![simple(Some("item"), None, &[])],
                vec![("display", kw("block")), ("height", px(2))],
            ),
        ],
    };
    let doc = elem(
        "root".to_string(),
        attrs(&[]),
        vec![
            elem("item".to_string(), attrs(&[]), vec![]),
            elem("item".to_string(), attrs(&[]), vec![]),
        ],
    );
    let sn = style_tree(&doc, &sheet);
    let laid = layout_tree(sn, containing(4));
    assert_eq!(laid.dimensions.content.width, 4);
    assert_eq!(laid.dimensions.content.height, 4);
    let canvas = paint(&laid, Rect { x: 0, y: 0, width: 4, height: 4 });
    assert_eq!(pixel(&canvas, 0, 0), rgb(9, 9, 9));
    assert_eq!(pixel(&canvas, 3, 3), rgb(9, 9, 9));
}

#[test]
fn border_edges_anchor_right_and_bottom() {
    let pm = props(vec![("border-color", Value::ColorValue(rgb(7, 7, 7)))]);
    let mut b = bare_box(pm, Rect { x: 10, y: 20, width: 100, height: 50 });
    b.dimensions.border = EdgeSizes { left: 2, right: 3, top: 4, bottom: 5 };
    // border box: {8, 16, 105, 59}
    let list = build_display_list(&b);
    assert_eq!(list.len(), 4);
    let DisplayCommand::SolidColor(_, left) = list[0];
    let DisplayCommand::SolidColor(_, right) = list[1];
    let DisplayCommand::SolidColor(_, top) = list[2];
    let DisplayCommand::SolidColor(_, bottom) = list[3];
    assert_eq!(left, Rect { x: 8, y: 16, width: 2, height: 59 });
    assert_eq!(right, Rect { x: 110, y: 16, width: 3, height: 59 });
    assert_eq!(top, Rect { x: 8, y: 16, width: 105, height: 4 });
    assert_eq!(bottom, Rect { x: 8, y: 70, width: 105, height: 5 });
}
