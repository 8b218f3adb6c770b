use azul::dom::{Dom, NodeData};
use azul::ui_description::{Css, CssConstraintList, CssDeclaration, CssRule, SelectorPart, StyledNode, UiDescription};

#[test]
fn __codecov_test_ui_description_file() {}

fn decl(p: &str, v: &str) -> CssDeclaration {
    CssDeclaration { property: p.to_string(), value: v.to_string() }
}

fn rule(selector: Vec<SelectorPart>, decls: Vec<CssDeclaration>) -> CssRule {
    CssRule { selector, declarations: decls }
}

fn node(ty: &str, id: Option<&str>, classes: &[&str]) -> NodeData {
    let mut n = NodeData::new(ty.to_string());
    n.id = id.map(|s| s.to_string());
    n.classes = classes.iter().map(|c| c.to_string()).collect();
    n
}

/// div#root > span.a, span.b
fn sample_dom() -> Dom {
    let mut dom = Dom::new("div".to_string());
    dom.arena[0].id = Some("root".to_string());
    dom.add_child(0, node("span", None, &["a"]));
    dom.add_child(0, node("span", None, &["b"]));
    dom
}

#[test]
fn end_to_end_span_colors() {
    let dom = sample_dom();
    let css = Css {
        rules: vec![
            rule(vec![SelectorPart::Type("span".to_string())], vec![decl("color", "black")]),
            rule(vec![SelectorPart::Class("a".to_string())], vec![decl("color", "red")]),
        ],
    };
    let ui = UiDescription::from_dom(&dom, &css);
    let a = ui.style_of(1);
    assert_eq!(a.css_constraints.list, vec![decl("color", "black"), decl("color", "red")]);
    assert_eq!(a.css_constraints.last_value_of(&"color".to_string()), Some("red".to_string()));
    let b = ui.style_of(2);
    assert_eq!(b.css_constraints.list, vec![decl("color", "black")]);
    assert_eq!(b.css_constraints.last_value_of(&"color".to_string()), Some("black".to_string()));
    assert!(!ui.styled_nodes.contains_key(&0));
    assert_eq!(*ui.style_of(0), ui.default_style_of_node);
    assert_eq!(ui.ui_descr_root, 0);
}

#[test]
fn more_specific_rule_goes_last_whatever_its_place() {
    let dom = sample_dom();
    let css = Css {
        rules: vec![
            rule(vec![SelectorPart::Id("root".to_string())], vec![decl("color", "blue")]),
            rule(vec![SelectorPart::Type("div".to_string())], vec![decl("color", "green")]),
        ],
    };
    let ui = UiDescription::from_dom(&dom, &css);
    let root = ui.style_of(0);
    assert_eq!(root.css_constraints.list, vec![decl("color", "green"), decl("color", "blue")]);
    assert_eq!(root.css_constraints.last_value_of(&"color".to_string()), Some("blue".to_string()));
}

#[test]
fn low_then_high_specificity_keeps_order() {
    let dom = sample_dom();
    let css = Css {
        rules: vec![
            rule(vec![SelectorPart::Type("span".to_string())], vec![decl("width", "1px")]),
            rule(
                vec![SelectorPart::Type("span".to_string()), SelectorPart::Class("b".to_string())],
                vec![decl("width", "2px"), decl("height", "3px")],
            ),
        ],
    };
    let ui = UiDescription::from_dom(&dom, &css);
    let b = ui.style_of(2);
    assert_eq!(b.css_constraints.list, vec![decl("width", "1px"), decl("width", "2px"), decl("height", "3px")]);
    assert_eq!(b.css_constraints.last_value_of(&"width".to_string()), Some("2px".to_string()));
    assert_eq!(b.css_constraints.last_value_of(&"margin".to_string()), None);
}

#[test]
fn equal_specificity_later_rule_wins() {
    let dom = sample_dom();
    let css = Css {
        rules: vec![
            rule(vec![SelectorPart::Class("a".to_string())], vec![decl("color", "red")]),
            rule(vec![SelectorPart::Class("a".to_string())], vec![decl("color", "pink")]),
        ],
    };
    let ui = UiDescription::from_dom(&dom, &css);
    let a = ui.style_of(1);
    assert_eq!(a.css_constraints.list, vec![decl("color", "red"), decl("color", "pink")]);
    assert_eq!(a.css_constraints.last_value_of(&"color".to_string()), Some("pink".to_string()));
}

#[test]
fn paint_order_follows_document_order() {
    let mut dom = sample_dom();
    let child = dom.add_child(1, node("p", None, &[]));
    let css = Css { rules: vec![rule(vec![SelectorPart::Global], vec![decl("display", "block")])] };
    let ui = UiDescription::from_dom(&dom, &css);
    let z = |n: usize| ui.style_of(n).z_level;
    assert_eq!(z(0), 0);
    assert!(z(1) <= z(2));
    assert!(z(child) >= z(1));
    assert!(z(1) >= z(0));
    assert_eq!(z(child), 3);
}

#[test]
fn unmatched_node_gets_default_style() {
    let dom = sample_dom();
    let css = Css { rules: vec![rule(vec![SelectorPart::Id("nothing".to_string())], vec![decl("color", "red")])] };
    let ui = UiDescription::from_dom(&dom, &css);
    assert!(ui.styled_nodes.is_empty());
    for n in 0..3 {
        let s = ui.style_of(n);
        assert_eq!(s.z_level, 0);
        assert!(s.css_constraints.list.is_empty());
        assert_eq!(*s, ui.default_style_of_node);
    }
}

#[test]
fn compound_selector_needs_every_part() {
    let dom = sample_dom();
    let css = Css {
        rules: vec![rule(
            vec![SelectorPart::Type("div".to_string()), SelectorPart::Class("a".to_string())],
            vec![decl("color", "red")],
        )],
    };
    let ui = UiDescription::from_dom(&dom, &css);
    assert!(ui.styled_nodes.is_empty());
}

#[test]
fn rule_with_several_declarations_keeps_them_in_order() {
    let mut list = CssConstraintList::empty();
    list.push_rule(&rule(vec![], vec![decl("a", "1"), decl("b", "2"), decl("a", "3")]));
    assert_eq!(list.list, vec![decl("a", "1"), decl("b", "2"), decl("a", "3")]);
    assert_eq!(list.last_value_of(&"a".to_string()), Some("3".to_string()));
    assert_eq!(list.last_value_of(&"b".to_string()), Some("2".to_string()));
}

#[test]
fn default_description_has_no_styles() {
    let ui = UiDescription::default();
    assert!(ui.styled_nodes.is_empty());
    assert_eq!(ui.ui_descr_root, 0);
    let d: StyledNode = StyledNode::default();
    assert_eq!(ui.default_style_of_node, d);
    assert_eq!(d.z_level, 0);
}

#[test]
fn child_combinator_matches_direct_children_only() {
    let mut dom = sample_dom();
    let deep = dom.add_child(1, node("span", None, &[]));
    let css = Css {
        rules: vec![rule(
            vec![SelectorPart::Type("div".to_string()), SelectorPart::DirectChildren, SelectorPart::Type("span".to_string())],
            vec![decl("color", "red")],
        )],
    };
    let ui = UiDescription::from_dom(&dom, &css);
    assert!(ui.styled_nodes.contains_key(&1));
    assert!(ui.styled_nodes.contains_key(&2));
    assert!(!ui.styled_nodes.contains_key(&deep));
    assert!(!ui.styled_nodes.contains_key(&0));
}

#[test]
fn descendant_combinator_matches_any_depth() {
    let mut dom = sample_dom();
    let deep = dom.add_child(1, node("em", None, &[]));
    let deeper = dom.add_child(deep, node("em", None, &[]));
    let css = Css {
        rules: vec![rule(
            vec![SelectorPart::Id("root".to_string()), SelectorPart::Children, SelectorPart::Type("em".to_string())],
            vec![decl("color", "red")],
        )],
    };
    let ui = UiDescription::from_dom(&dom, &css);
    assert!(ui.styled_nodes.contains_key(&deep));
    assert!(ui.styled_nodes.contains_key(&deeper));
    assert_eq!(ui.styled_nodes.len(), 2);
    let css2 = Css {
        rules: vec![rule(
            vec![SelectorPart::Class("b".to_string()), SelectorPart::Children, SelectorPart::Type("em".to_string())],
            vec![decl("color", "red")],
        )],
    };
    assert!(UiDescription::from_dom(&dom, &css2).styled_nodes.is_empty());
}

#[test]
fn combinators_add_no_specificity() {
    let dom = sample_dom();
    let css = Css {
        rules: vec![
            rule(vec![SelectorPart::Class("a".to_string())], vec![decl("color", "red")]),
            rule(
                vec![SelectorPart::Type("div".to_string()), SelectorPart::Children, SelectorPart::Type("span".to_string())],
                vec![decl("color", "black")],
            ),
        ],
    };
    let ui = UiDescription::from_dom(&dom, &css);
    assert_eq!(ui.style_of(1).css_constraints.list, vec![decl("color", "black"), decl("color", "red")]);
}
