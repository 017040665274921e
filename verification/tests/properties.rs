use editor_core::node::{duplicate_ids, duplicate_optional_id, EditorNode, NodeType};
use editor_core::property::{Number, Properties, Property, PropertyValue};
use editor_core::sweep::without_id;

fn key_names(properties: &Properties) -> Vec<String> {
    let mut names: Vec<String> = properties.entries.iter().map(|e| e.key.clone()).collect();
    names.sort();
    names
}

#[test]
fn default_numbers_match_the_host_conversion() {
    let zero = Number::zero();
    assert_eq!(zero.bits, 0f64.to_bits());
    assert_eq!(zero.text, 0f64.to_string());
    assert_eq!(zero.text, "0");
    let hundred = Number::hundred();
    assert_eq!(hundred.bits, 100f64.to_bits());
    assert_eq!(hundred.text, 100f64.to_string());
    assert_eq!(hundred.text, "100");
    assert_eq!(f64::from_bits(hundred.bits), 100.0);
}

#[test]
fn number_keeps_its_parts() {
    let n = Number::new(1.5f64.to_bits(), "1.5".to_string());
    assert_eq!(n.bits, 0x3FF8_0000_0000_0000);
    assert_eq!(n.text, "1.5");
    let copy = n.duplicate();
    assert_eq!(copy.bits, n.bits);
    assert_eq!(copy.text, n.text);
}

#[test]
fn container_defaults() {
    let node = EditorNode::with_id("c".to_string(), "C", NodeType::Container);
    assert_eq!(key_names(&node.properties), vec!["height", "width", "x", "y"]);
    assert!(matches!(node.get_property("x"), Some(PropertyValue::Number(n)) if n.bits == 0 && n.text == "0"));
    assert!(matches!(node.get_property("y"), Some(PropertyValue::Number(n)) if n.bits == 0));
    assert!(matches!(node.get_property("width"), Some(PropertyValue::Number(n)) if n.text == "100"));
    assert!(matches!(node.get_property("height"), Some(PropertyValue::Number(n)) if n.bits == 100f64.to_bits()));
}

#[test]
fn sprite_defaults() {
    let node = EditorNode::with_id("s".to_string(), "S", NodeType::Sprite);
    assert_eq!(key_names(&node.properties), vec!["height", "path", "width", "x", "y"]);
    assert!(matches!(node.get_property("path"), Some(PropertyValue::String(p)) if p == "default"));
}

#[test]
fn rectangle_defaults() {
    let node = EditorNode::with_id("r".to_string(), "R", NodeType::Rectangle);
    assert_eq!(
        key_names(&node.properties),
        vec!["border_radius", "color", "height", "width", "x", "y"]
    );
    assert!(matches!(node.get_property("color"), Some(PropertyValue::Color(0xFFFF_FFFF))));
    assert!(matches!(node.get_property("border_radius"), Some(PropertyValue::Number(n)) if n.bits == 0));
}

#[test]
fn other_types_have_only_a_position() {
    for node_type in [NodeType::Circle, NodeType::Path, NodeType::Text] {
        let node = EditorNode::with_id("n".to_string(), "N", node_type);
        assert_eq!(key_names(&node.properties), vec!["x", "y"]);
        assert_eq!(node.node_type, node_type);
    }
}

#[test]
fn node_set_property_reports_success() {
    let mut node = EditorNode::with_id("n".to_string(), "N", NodeType::Circle);
    assert!(node.set_property("radius", PropertyValue::Color(3)));
    assert!(node.set_property("radius", PropertyValue::Boolean(true)));
    assert_eq!(node.properties.len(), 3);
    assert!(matches!(node.get_property("radius"), Some(PropertyValue::Boolean(true))));
    assert_eq!(node.id, "n");
    assert_eq!(node.name, "N");
}

#[test]
fn node_get_property_or_falls_back() {
    let node = EditorNode::with_id("n".to_string(), "N", NodeType::Sprite);
    assert!(matches!(
        node.get_property_or("path", PropertyValue::String("zz".to_string())),
        PropertyValue::String(p) if p == "default"
    ));
    assert!(matches!(
        node.get_property_or("nothing", PropertyValue::String("zz".to_string())),
        PropertyValue::String(p) if p == "zz"
    ));
    assert!(matches!(node.get_property_or("path", PropertyValue::Boolean(false)), PropertyValue::Boolean(false)));
    assert!(matches!(node.get_property_or("x", PropertyValue::Color(5)), PropertyValue::Color(5)));
    assert!(matches!(
        node.get_property_or("x", PropertyValue::Number(Number::hundred())),
        PropertyValue::Number(n) if n.text == "0"
    ));
}

#[test]
fn properties_insert_get_and_overwrite() {
    let mut p = Properties::new();
    assert_eq!(p.len(), 0);
    assert!(p.get("a").is_none());
    assert!(!p.contains_key("a"));
    p.insert("a".to_string(), PropertyValue::Color(1));
    p.insert("b".to_string(), PropertyValue::Boolean(true));
    p.insert("a".to_string(), PropertyValue::Color(2));
    assert_eq!(p.len(), 2);
    assert!(p.contains_key("a"));
    assert!(matches!(p.get("a"), Some(PropertyValue::Color(2))));
    assert!(matches!(p.get("b"), Some(PropertyValue::Boolean(true))));
    assert!(p.get("").is_none());
}

#[test]
fn the_last_entry_of_a_key_counts() {
    let mut p = Properties {
        entries: vec![
            Property { key: "k".to_string(), value: PropertyValue::Color(1) },
            Property { key: "other".to_string(), value: PropertyValue::Color(9) },
            Property { key: "k".to_string(), value: PropertyValue::Color(2) },
        ],
    };
    assert!(matches!(p.get("k"), Some(PropertyValue::Color(2))));
    p.insert("k".to_string(), PropertyValue::Color(3));
    assert_eq!(p.len(), 3);
    assert!(matches!(p.get("k"), Some(PropertyValue::Color(3))));
    assert!(matches!(p.get("other"), Some(PropertyValue::Color(9))));
}

#[test]
fn duplicates_are_equal() {
    let mut node = EditorNode::with_id("n".to_string(), "N", NodeType::Rectangle);
    node.parent_id = Some("p".to_string());
    node.children = vec!["a".to_string(), "b".to_string()];
    node.set_property("label", PropertyValue::String("text".to_string()));
    let copy = node.duplicate();
    assert_eq!(copy.id, "n");
    assert_eq!(copy.name, "N");
    assert_eq!(copy.node_type, NodeType::Rectangle);
    assert_eq!(copy.parent_id.as_deref(), Some("p"));
    assert_eq!(copy.children, node.children);
    assert_eq!(copy.properties.len(), node.properties.len());
    assert!(matches!(copy.get_property("label"), Some(PropertyValue::String(s)) if s == "text"));
    assert!(matches!(copy.get_property("color"), Some(PropertyValue::Color(0xFFFF_FFFF))));
    assert_eq!(duplicate_ids(&node.children), node.children);
    assert_eq!(duplicate_optional_id(&node.parent_id), node.parent_id);
    assert_eq!(duplicate_optional_id(&None), None);
    assert!(matches!(PropertyValue::Boolean(true).duplicate(), PropertyValue::Boolean(true)));
}

#[test]
fn without_id_strikes_every_occurrence() {
    let ids = vec!["a".to_string(), "b".to_string(), "a".to_string(), "c".to_string()];
    assert_eq!(without_id(&ids, "a"), vec!["b".to_string(), "c".to_string()]);
    assert_eq!(without_id(&ids, "z"), ids);
    assert_eq!(without_id(&Vec::new(), "a"), Vec::<String>::new());
}
