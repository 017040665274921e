use editor_core::code_gen::generate_turbo_code;
use editor_core::node::{EditorNode, NodeType};
use editor_core::property::{Number, PropertyValue};
use editor_core::scene::Scene;

/// Walks the scene from its root and checks every invariant that can be
/// seen from outside; returns the number of nodes visited.
fn walk_and_check(scene: &Scene) -> usize {
    let root = scene.get_node(&scene.root_id).expect("the root is in the store");
    assert!(root.parent_id.is_none());
    assert_eq!(root.node_type, NodeType::Container);
    let mut seen: Vec<String> = Vec::new();
    let mut pending: Vec<String> = vec![scene.root_id.clone()];
    while let Some(id) = pending.pop() {
        assert!(!seen.contains(&id), "a node is reachable twice");
        let node = scene.get_node(&id).expect("a listed child is in the store");
        assert_eq!(node.id, id);
        for (i, child) in node.children.iter().enumerate() {
            assert!(!node.children[..i].contains(child), "a child is listed twice");
            let child_node = scene.get_node(child).expect("a listed child is in the store");
            assert_eq!(child_node.parent_id.as_deref(), Some(id.as_str()));
            pending.push(child.clone());
        }
        seen.push(id);
    }
    assert_eq!(seen.len(), scene.node_count(), "a node of the store is not below the root");
    seen.len()
}

#[test]
fn new_scene_holds_a_container_root() {
    let scene = Scene::new("Demo");
    assert_eq!(scene.name, "Demo");
    assert_eq!(scene.node_count(), 1);
    let root = scene.get_node(&scene.root_id).unwrap();
    assert_eq!(root.id, scene.root_id);
    assert_eq!(root.name, "Root");
    assert_eq!(root.node_type, NodeType::Container);
    assert!(root.parent_id.is_none());
    assert!(root.children.is_empty());
    assert_eq!(root.properties.len(), 4);
    assert_eq!(walk_and_check(&scene), 1);
}

#[test]
fn scene_with_given_root_id() {
    let scene = Scene::with_root_id("S", "root".to_string());
    assert_eq!(scene.root_id, "root");
    assert_eq!(scene.node_count(), 1);
    assert!(scene.get_node("root").is_some());
    assert!(scene.get_node("other").is_none());
}

#[test]
fn add_node_appends_to_parent() {
    let mut scene = Scene::new("Demo");
    let root = scene.root_id.clone();
    let a = scene.add_node(&root, "A", NodeType::Sprite).unwrap();
    let b = scene.add_node(&root, "B", NodeType::Rectangle).unwrap();
    let c = scene.add_node(&a, "C", NodeType::Text).unwrap();
    assert_eq!(scene.node_count(), 4);
    assert_eq!(scene.get_node(&root).unwrap().children, vec![a.clone(), b.clone()]);
    assert_eq!(scene.get_node(&a).unwrap().children, vec![c.clone()]);
    let node_c = scene.get_node(&c).unwrap();
    assert_eq!(node_c.name, "C");
    assert_eq!(node_c.node_type, NodeType::Text);
    assert_eq!(node_c.parent_id.as_deref(), Some(a.as_str()));
    assert_eq!(node_c.properties.len(), 2);
    assert_eq!(scene.get_node(&b).unwrap().properties.len(), 6);
    assert_eq!(walk_and_check(&scene), 4);
}

#[test]
fn add_node_under_unknown_parent_fails() {
    let mut scene = Scene::new("Demo");
    let before = generate_turbo_code(&scene);
    assert_eq!(scene.add_node("no-such-node", "A", NodeType::Sprite), None);
    assert_eq!(scene.node_count(), 1);
    assert!(scene.get_node(&scene.root_id).unwrap().children.is_empty());
    assert_eq!(generate_turbo_code(&scene), before);
}

#[test]
fn add_node_with_id_uses_the_id() {
    let mut scene = Scene::with_root_id("S", "root".to_string());
    let added = scene.add_node_with_id("root", "Hero", NodeType::Sprite, "n1".to_string());
    assert_eq!(added.as_deref(), Some("n1"));
    let node = scene.get_node("n1").unwrap();
    assert_eq!(node.id, "n1");
    assert_eq!(node.name, "Hero");
    assert_eq!(node.parent_id.as_deref(), Some("root"));
    assert_eq!(scene.get_node("root").unwrap().children, vec!["n1".to_string()]);
}

#[test]
fn add_node_with_id_rejects_an_id_in_use() {
    let mut scene = Scene::with_root_id("S", "root".to_string());
    assert!(scene.add_node_with_id("root", "A", NodeType::Sprite, "n1".to_string()).is_some());
    assert_eq!(scene.add_node_with_id("root", "B", NodeType::Sprite, "n1".to_string()), None);
    assert_eq!(scene.add_node_with_id("root", "B", NodeType::Sprite, "root".to_string()), None);
    assert_eq!(scene.add_node_with_id("ghost", "B", NodeType::Sprite, "n2".to_string()), None);
    assert_eq!(scene.node_count(), 2);
    assert_eq!(scene.get_node("n1").unwrap().name, "A");
    assert_eq!(scene.get_node("root").unwrap().children, vec!["n1".to_string()]);
}

#[test]
fn removing_the_root_is_refused() {
    let mut scene = Scene::new("Demo");
    let root = scene.root_id.clone();
    let a = scene.add_node(&root, "A", NodeType::Sprite).unwrap();
    let before = generate_turbo_code(&scene);
    assert!(!scene.remove_node(&root));
    assert_eq!(scene.node_count(), 2);
    assert_eq!(scene.root_id, root);
    assert_eq!(scene.get_node(&root).unwrap().children, vec![a.clone()]);
    assert!(scene.get_node(&a).is_some());
    assert_eq!(generate_turbo_code(&scene), before);
}

#[test]
fn removing_an_unknown_node_is_refused() {
    let mut scene = Scene::new("Demo");
    let root = scene.root_id.clone();
    scene.add_node(&root, "A", NodeType::Sprite).unwrap();
    assert!(!scene.remove_node("no-such-node"));
    assert_eq!(scene.node_count(), 2);
    assert_eq!(walk_and_check(&scene), 2);
}

#[test]
fn removing_a_node_removes_its_two_children() {
    let mut scene = Scene::new("Demo");
    let root = scene.root_id.clone();
    let r = scene.add_node(&root, "R", NodeType::Rectangle).unwrap();
    let c1 = scene.add_node(&r, "C1", NodeType::Sprite).unwrap();
    let c2 = scene.add_node(&r, "C2", NodeType::Sprite).unwrap();
    assert!(scene.remove_node(&r));
    assert!(scene.get_node(&c1).is_none());
    assert!(scene.get_node(&c2).is_none());
    assert!(scene.get_node(&r).is_none());
    assert!(!scene.get_node(&root).unwrap().children.contains(&r));
    assert_eq!(scene.node_count(), 1);
}

#[test]
fn removal_takes_the_whole_subtree_and_nothing_else() {
    let mut scene = Scene::new("Demo");
    let root = scene.root_id.clone();
    let keep = scene.add_node(&root, "Keep", NodeType::Sprite).unwrap();
    let top = scene.add_node(&root, "Top", NodeType::Container).unwrap();
    let last = scene.add_node(&root, "Last", NodeType::Text).unwrap();
    let mid = scene.add_node(&top, "Mid", NodeType::Rectangle).unwrap();
    let leaf1 = scene.add_node(&mid, "Leaf1", NodeType::Circle).unwrap();
    let leaf2 = scene.add_node(&mid, "Leaf2", NodeType::Path).unwrap();
    let side = scene.add_node(&top, "Side", NodeType::Sprite).unwrap();
    let kept_child = scene.add_node(&keep, "KeptChild", NodeType::Sprite).unwrap();
    assert_eq!(scene.node_count(), 9);
    // `top` has four descendants: five nodes leave.
    assert!(scene.remove_node(&top));
    assert_eq!(scene.node_count(), 4);
    for gone in [&top, &mid, &leaf1, &leaf2, &side] {
        assert!(scene.get_node(gone).is_none());
    }
    assert_eq!(scene.get_node(&root).unwrap().children, vec![keep.clone(), last.clone()]);
    assert_eq!(scene.get_node(&keep).unwrap().children, vec![kept_child.clone()]);
    assert_eq!(walk_and_check(&scene), 4);
    // A removed identifier stays invalid.
    assert!(!scene.remove_node(&mid));
    assert_eq!(scene.add_node(&top, "X", NodeType::Sprite), None);
    assert_eq!(scene.node_count(), 4);
}

#[test]
fn removing_a_leaf_removes_one_node() {
    let mut scene = Scene::new("Demo");
    let root = scene.root_id.clone();
    let a = scene.add_node(&root, "A", NodeType::Sprite).unwrap();
    let b = scene.add_node(&root, "B", NodeType::Sprite).unwrap();
    assert!(scene.remove_node(&a));
    assert_eq!(scene.node_count(), 2);
    assert_eq!(scene.get_node(&root).unwrap().children, vec![b]);
}

#[test]
fn a_deep_chain_is_removed_without_recursion() {
    let mut scene = Scene::new("Deep");
    let root = scene.root_id.clone();
    let top = scene.add_node(&root, "n0", NodeType::Container).unwrap();
    let mut parent = top.clone();
    for _ in 0..20_000 {
        parent = scene.add_node(&parent, "n", NodeType::Container).unwrap();
    }
    assert_eq!(scene.node_count(), 20_002);
    assert!(scene.remove_node(&top));
    assert_eq!(scene.node_count(), 1);
    assert!(scene.get_node(&parent).is_none());
    assert!(scene.get_node(&root).unwrap().children.is_empty());
}

#[test]
fn invariants_hold_after_every_call() {
    let mut scene = Scene::new("Demo");
    let root = scene.root_id.clone();
    walk_and_check(&scene);
    let a = scene.add_node(&root, "A", NodeType::Container).unwrap();
    walk_and_check(&scene);
    let b = scene.add_node(&a, "B", NodeType::Sprite).unwrap();
    walk_and_check(&scene);
    assert!(scene.set_property(&b, "path", PropertyValue::String("b.png".to_string())));
    walk_and_check(&scene);
    let c = scene.add_node(&a, "C", NodeType::Rectangle).unwrap();
    walk_and_check(&scene);
    assert!(scene.remove_node(&b));
    walk_and_check(&scene);
    assert!(!scene.remove_node(&b));
    walk_and_check(&scene);
    assert!(!scene.remove_node(&root));
    walk_and_check(&scene);
    assert_eq!(scene.add_node(&b, "D", NodeType::Sprite), None);
    walk_and_check(&scene);
    assert!(scene.remove_node(&a));
    assert!(scene.get_node(&c).is_none());
    assert_eq!(walk_and_check(&scene), 1);
}

#[test]
fn set_property_on_unknown_node_fails() {
    let mut scene = Scene::new("Demo");
    assert!(!scene.set_property("no-such-node", "x", PropertyValue::Boolean(true)));
    assert_eq!(scene.node_count(), 1);
    assert_eq!(scene.get_node(&scene.root_id).unwrap().properties.len(), 4);
}

#[test]
fn set_property_overwrites_and_inserts() {
    let mut scene = Scene::new("Demo");
    let root = scene.root_id.clone();
    let r = scene.add_node(&root, "R", NodeType::Rectangle).unwrap();
    assert!(scene.set_property(&r, "color", PropertyValue::Color(0x11223344)));
    assert!(scene.set_property(&r, "visible", PropertyValue::Boolean(false)));
    let node = scene.get_node(&r).unwrap();
    assert_eq!(node.properties.len(), 7);
    assert!(matches!(node.get_property("color"), Some(PropertyValue::Color(0x11223344))));
    assert!(matches!(node.get_property("visible"), Some(PropertyValue::Boolean(false))));
    assert!(node.get_property("missing").is_none());
    // The tree is untouched by a property write.
    assert_eq!(node.parent_id.as_deref(), Some(root.as_str()));
    assert_eq!(scene.get_node(&root).unwrap().children, vec![r]);
}

#[test]
fn scene_get_property_falls_back_on_the_default() {
    let mut scene = Scene::new("Demo");
    let root = scene.root_id.clone();
    let s = scene.add_node(&root, "S", NodeType::Sprite).unwrap();
    // Stored and of the variant asked for.
    match scene.get_property(&s, "path", PropertyValue::String("fallback".to_string())) {
        PropertyValue::String(p) => assert_eq!(p, "default"),
        other => panic!("unexpected {:?}", other),
    }
    // Unset key.
    match scene.get_property(&s, "color", PropertyValue::Color(7)) {
        PropertyValue::Color(c) => assert_eq!(c, 7),
        other => panic!("unexpected {:?}", other),
    }
    // Set to another variant.
    match scene.get_property(&s, "path", PropertyValue::Boolean(true)) {
        PropertyValue::Boolean(b) => assert!(b),
        other => panic!("unexpected {:?}", other),
    }
    match scene.get_property(&s, "x", PropertyValue::Color(9)) {
        PropertyValue::Color(c) => assert_eq!(c, 9),
        other => panic!("unexpected {:?}", other),
    }
    // Unknown node.
    match scene.get_property("no-such-node", "x", PropertyValue::Number(Number::hundred())) {
        PropertyValue::Number(n) => assert_eq!(n.text, "100"),
        other => panic!("unexpected {:?}", other),
    }
    // Stored number of the variant asked for.
    match scene.get_property(&s, "width", PropertyValue::Number(Number::zero())) {
        PropertyValue::Number(n) => {
            assert_eq!(n.text, "100");
            assert_eq!(n.bits, 100f64.to_bits());
        },
        other => panic!("unexpected {:?}", other),
    }
}

#[test]
fn fresh_identifiers_are_hyphenated_and_differ() {
    let a = EditorNode::new("a", NodeType::Sprite);
    let b = EditorNode::new("b", NodeType::Sprite);
    assert_eq!(a.id.len(), 36);
    assert_eq!(b.id.len(), 36);
    assert_ne!(a.id, b.id);
    for (i, ch) in a.id.chars().enumerate() {
        if i == 8 || i == 13 || i == 18 || i == 23 {
            assert_eq!(ch, '-');
        } else {
            assert!(ch.is_ascii_hexdigit() && !ch.is_ascii_uppercase());
        }
    }
    assert_eq!(a.name, "a");
    assert!(a.parent_id.is_none());
    assert!(a.children.is_empty());
}

#[test]
fn removal_ends_on_a_store_with_a_cycle() {
    let mut scene = Scene::with_root_id("S", "root".to_string());
    scene.add_node_with_id("root", "A", NodeType::Sprite, "a".to_string()).unwrap();
    scene.add_node_with_id("a", "B", NodeType::Sprite, "b".to_string()).unwrap();
    // Make `b` list its own parent as a child.
    let mut b = scene.get_node("b").unwrap().duplicate();
    b.children.push("a".to_string());
    scene.nodes.insert("b".to_string(), b);
    assert!(scene.remove_node("a"));
    assert_eq!(scene.node_count(), 1);
    assert!(scene.get_node("a").is_none());
    assert!(scene.get_node("b").is_none());
    assert!(scene.get_node("root").unwrap().children.is_empty());
}

#[test]
fn node_ids_lists_parents_before_children() {
    let mut scene = Scene::with_root_id("S", "root".to_string());
    scene.add_node_with_id("root", "A", NodeType::Container, "a".to_string()).unwrap();
    scene.add_node_with_id("root", "B", NodeType::Sprite, "b".to_string()).unwrap();
    scene.add_node_with_id("a", "A1", NodeType::Sprite, "a1".to_string()).unwrap();
    scene.add_node_with_id("a", "A2", NodeType::Sprite, "a2".to_string()).unwrap();
    scene.add_node_with_id("a1", "Deep", NodeType::Text, "deep".to_string()).unwrap();
    assert_eq!(scene.node_ids(), vec!["root", "a", "a1", "deep", "a2", "b"]);
    assert!(scene.remove_node("a1"));
    assert_eq!(scene.node_ids(), vec!["root", "a", "a2", "b"]);
    let empty = Scene::with_root_id("E", "r".to_string());
    assert_eq!(empty.node_ids(), vec!["r"]);
}

#[test]
fn add_node_succeeds_where_no_drawn_id_can_be_taken() {
    // No identifier of this store has the length of a drawn one.
    let mut scene = Scene::with_root_id("S", "root".to_string());
    scene.add_node_with_id("root", "A", NodeType::Container, "a".to_string()).unwrap();
    let id = scene.add_node("a", "B", NodeType::Sprite).expect("the parent is in the store");
    assert_eq!(id.len(), 36);
    assert_eq!(scene.node_count(), 3);
    assert_eq!(scene.get_node("a").unwrap().children, vec![id.clone()]);
    assert_eq!(scene.get_node(&id).unwrap().parent_id.as_deref(), Some("a"));
}
