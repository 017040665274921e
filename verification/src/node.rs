//! Nodes of the scene graph.

use crate::ident::{fresh_id, ID_LENGTH};
use crate::property::{
    number_hundred, number_zero, same_variant, Number, Properties, PropertyModel, PropertyValue,
};
use vstd::prelude::*;
use vstd::string::*;

verus! {

/// The kind of primitive that a node stands for.
#[derive(Clone, Copy, Debug, PartialEq, Eq, Structural)]
pub enum NodeType {
    Container,
    Sprite,
    Rectangle,
    Circle,
    Path,
    Text,
}

/// A node of the scene graph.
///
/// `parent_id` and `children` refer to other nodes of the same scene by
/// their identifiers; the order of `children` is the order in which the
/// code generator visits them.
#[derive(Clone, Debug)]
pub struct EditorNode {
    pub id: String,
    pub name: String,
    pub node_type: NodeType,
    pub parent_id: Option<String>,
    pub children: Vec<String>,
    pub properties: Properties,
}

/// What an [`EditorNode`] is in contracts.
pub struct NodeModel {
    pub id: Seq<char>,
    pub name: Seq<char>,
    pub node_type: NodeType,
    pub parent_id: Option<Seq<char>>,
    pub children: Seq<Seq<char>>,
    pub properties: Map<Seq<char>, PropertyModel>,
}

/// The identifiers that a sequence of strings spells.
pub open spec fn ids_model(s: Seq<String>) -> Seq<Seq<char>> {
    s.map_values(|id: String| id@)
}

/// The identifier that an optional string spells.
pub open spec fn optional_id_model(s: Option<String>) -> Option<Seq<char>> {
    match s {
        Some(id) => Some(id@),
        None => None,
    }
}

impl View for EditorNode {
    type V = NodeModel;

    open spec fn view(&self) -> NodeModel {
        NodeModel {
            id: self.id@,
            name: self.name@,
            node_type: self.node_type,
            parent_id: optional_id_model(self.parent_id),
            children: ids_model(self.children@),
            properties: self.properties@,
        }
    }
}

/// The models of the nodes of a store, under the same identifiers.
pub open spec fn nodes_model(nodes: Map<Seq<char>, EditorNode>) -> Map<Seq<char>, NodeModel> {
    nodes.map_values(|n: EditorNode| n@)
}

/// The properties that a node of the given type starts with: a position for
/// every type, a size for containers, sprites and rectangles, an image path
/// for sprites, and a colour and a corner radius for rectangles.
pub open spec fn default_properties(node_type: NodeType) -> Map<Seq<char>, PropertyModel> {
    let zero = PropertyModel::Number(number_zero());
    let hundred = PropertyModel::Number(number_hundred());
    let position = Map::<Seq<char>, PropertyModel>::empty().insert("x"@, zero).insert("y"@, zero);
    let sized = position.insert("width"@, hundred).insert("height"@, hundred);
    match node_type {
        NodeType::Container => sized,
        NodeType::Sprite => sized.insert("path"@, PropertyModel::String("default"@)),
        NodeType::Rectangle => sized.insert("color"@, PropertyModel::Color(0xFFFF_FFFF)).insert(
            "border_radius"@,
            zero,
        ),
        _ => position,
    }
}

/// A node as it is right after creation: no parent, no children, and the
/// default properties of its type.
pub open spec fn fresh_node(id: Seq<char>, name: Seq<char>, node_type: NodeType) -> NodeModel {
    NodeModel {
        id,
        name,
        node_type,
        parent_id: None,
        children: Seq::empty(),
        properties: default_properties(node_type),
    }
}

/// What a read of `key` in `node` gives to a caller that expects a value of
/// the variant of `default`: the stored value where there is one of that
/// variant, and `default` otherwise.
pub open spec fn property_or(node: NodeModel, key: Seq<char>, default: PropertyModel) -> PropertyModel {
    if node.properties.contains_key(key) && same_variant(node.properties[key], default) {
        node.properties[key]
    } else {
        default
    }
}

/// A copy of a list of identifiers.
pub fn duplicate_ids(ids: &Vec<String>) -> (copy: Vec<String>)
    ensures
        copy@ == ids@,
{
    let mut copy: Vec<String> = Vec::new();
    let mut i: usize = 0;
    while i < ids.len()
        invariant
            i <= ids@.len(),
            copy@ == ids@.take(i as int),
        decreases ids@.len() - i,
    {
        copy.push(ids[i].clone());
        proof {
            assert(copy@ =~= ids@.take(i + 1));
        }
        i += 1;
    }
    proof {
        assert(ids@.take(i as int) =~= ids@);
    }
    copy
}

/// A copy of an optional identifier.
pub fn duplicate_optional_id(id: &Option<String>) -> (copy: Option<String>)
    ensures
        copy == *id,
{
    match id {
        Some(s) => Some(s.clone()),
        None => None,
    }
}

impl EditorNode {
    /// Builds a node under a given identifier, with the default properties of
    /// its type, no parent and no children.
    pub fn with_id(id: String, name: &str, node_type: NodeType) -> (node: EditorNode)
        ensures
            node@ == fresh_node(id@, name@, node_type),
    {
        let mut properties = Properties::new();
        properties.insert(String::from_str("x"), PropertyValue::Number(Number::zero()));
        properties.insert(String::from_str("y"), PropertyValue::Number(Number::zero()));
        match node_type {
            NodeType::Container => {
                properties.insert(String::from_str("width"), PropertyValue::Number(Number::hundred()));
                properties.insert(String::from_str("height"), PropertyValue::Number(Number::hundred()));
            },
            NodeType::Sprite => {
                properties.insert(String::from_str("width"), PropertyValue::Number(Number::hundred()));
                properties.insert(String::from_str("height"), PropertyValue::Number(Number::hundred()));
                properties.insert(
                    String::from_str("path"),
                    PropertyValue::String(String::from_str("default")),
                );
            },
            NodeType::Rectangle => {
                properties.insert(String::from_str("width"), PropertyValue::Number(Number::hundred()));
                properties.insert(String::from_str("height"), PropertyValue::Number(Number::hundred()));
                properties.insert(String::from_str("color"), PropertyValue::Color(0xFFFF_FFFF));
                properties.insert(
                    String::from_str("border_radius"),
                    PropertyValue::Number(Number::zero()),
                );
            },
            _ => {},
        }
        let node = EditorNode {
            id,
            name: String::from_str(name),
            node_type,
            parent_id: None,
            children: Vec::new(),
            properties,
        };
        proof {
            assert(node@.children =~= Seq::<Seq<char>>::empty());
        }
        node
    }

    /// Builds a node under a newly drawn identifier.
    ///
    /// Everything but the identifier is determined by the arguments; the
    /// identifier is whatever [`fresh_id`] returned.
    pub fn new(name: &str, node_type: NodeType) -> (node: EditorNode)
        ensures
            node@ == fresh_node(node.id@, name@, node_type),
            node.id@.len() == ID_LENGTH,
    {
        EditorNode::with_id(fresh_id(), name, node_type)
    }

    /// The value stored under `key`, if any.
    pub fn get_property(&self, key: &str) -> (found: Option<&PropertyValue>)
        ensures
            match found {
                Some(v) => self@.properties.contains_key(key@) && v@ == self@.properties[key@],
                None => !self@.properties.contains_key(key@),
            },
    {
        self.properties.get(key)
    }

    /// Reads `key` for a caller that expects a value of the variant of
    /// `default`. Where the key is unset, or set to a value of another
    /// variant, the result is `default`.
    pub fn get_property_or(&self, key: &str, default: PropertyValue) -> (value: PropertyValue)
        ensures
            value@ == property_or(self@, key@, default@),
            !self@.properties.contains_key(key@) ==> value@ == default@,
            self@.properties.contains_key(key@) && !same_variant(self@.properties[key@], default@)
                ==> value@ == default@,
    {
        match self.properties.get(key) {
            Some(stored) => {
                let same = match (stored, &default) {
                    (PropertyValue::String(_), PropertyValue::String(_)) => true,
                    (PropertyValue::Number(_), PropertyValue::Number(_)) => true,
                    (PropertyValue::Boolean(_), PropertyValue::Boolean(_)) => true,
                    (PropertyValue::Color(_), PropertyValue::Color(_)) => true,
                    _ => false,
                };
                if same {
                    stored.duplicate()
                } else {
                    default
                }
            },
            None => default,
        }
    }

    /// Stores `value` under `key`, in place of any value that was there, and
    /// reports success. Nothing else about the node changes.
    pub fn set_property(&mut self, key: &str, value: PropertyValue) -> (ok: bool)
        ensures
            ok,
            final(self)@ == (NodeModel {
                properties: old(self)@.properties.insert(key@, value@),
                ..old(self)@
            }),
    {
        self.properties.insert(String::from_str(key), value);
        true
    }

    /// A copy that is equal in every field.
    pub fn duplicate(&self) -> (node: EditorNode)
        ensures
            node@ == self@,
    {
        EditorNode {
            id: self.id.clone(),
            name: self.name.clone(),
            node_type: self.node_type,
            parent_id: duplicate_optional_id(&self.parent_id),
            children: duplicate_ids(&self.children),
            properties: self.properties.duplicate(),
        }
    }
}

} // verus!
