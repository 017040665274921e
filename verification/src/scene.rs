//! The node store: the nodes of a scene by identifier, and the operations
//! that keep them a tree.

use crate::ident::{fresh_id, ID_LENGTH};
use crate::node::{duplicate_optional_id, nodes_model, property_or, EditorNode, NodeType};
use crate::property::{PropertyModel, PropertyValue};
use crate::reach::{descendants, subtree};
use crate::removal::{lemma_without_subtree_count, lemma_without_subtree_well_formed};
use crate::sweep::{detach_child, remove_subtree};
use crate::tree::{
    lemma_initial_well_formed, lemma_with_child_well_formed, lemma_with_property_well_formed, SceneModel,
};
use vstd::hash_map::StringHashMap;
use vstd::prelude::*;
use vstd::string::*;

verus! {

/// A scene: a named tree of nodes and the identifier of its root.
pub struct Scene {
    pub name: String,
    pub root_id: String,
    pub nodes: StringHashMap<EditorNode>,
}

impl View for Scene {
    type V = SceneModel;

    open spec fn view(&self) -> SceneModel {
        SceneModel { name: self.name@, root_id: self.root_id@, nodes: nodes_model(self.nodes@) }
    }
}

impl SceneModel {
    /// What a read of `key` in the node `id` gives to a caller that expects
    /// a value of the variant of `default`.
    pub open spec fn property_or(self, id: Seq<char>, key: Seq<char>, default: PropertyModel) -> PropertyModel {
        if self.nodes.contains_key(id) {
            property_or(self.nodes[id], key, default)
        } else {
            default
        }
    }
}

impl Scene {
    /// A scene whose only node is its root, a container named `Root`, under
    /// the given identifier.
    pub fn with_root_id(name: &str, root_id: String) -> (scene: Scene)
        ensures
            scene@ == SceneModel::initial(name@, root_id@),
            scene@.well_formed(),
    {
        let root = EditorNode::with_id(root_id.clone(), "Root", NodeType::Container);
        let mut nodes: StringHashMap<EditorNode> = StringHashMap::new();
        nodes.insert(root_id.clone(), root);
        let scene = Scene { name: String::from_str(name), root_id, nodes };
        proof {
            assert(scene@.nodes =~= SceneModel::initial(name@, root_id@).nodes);
            lemma_initial_well_formed(name@, root_id@);
        }
        scene
    }

    /// A scene whose only node is its root, a container named `Root`, under
    /// a newly drawn identifier.
    pub fn new(name: &str) -> (scene: Scene)
        ensures
            scene@ == SceneModel::initial(name@, scene.root_id@),
            scene@.well_formed(),
            scene.root_id@.len() == ID_LENGTH,
    {
        Scene::with_root_id(name, fresh_id())
    }

    /// The number of nodes in the store.
    pub fn node_count(&self) -> (n: usize)
        ensures
            n == self@.nodes.len(),
    {
        proof {
            assert(self@.nodes.dom() =~= self.nodes@.dom());
        }
        self.nodes.len()
    }

    /// The node stored under `node_id`, if there is one.
    pub fn get_node(&self, node_id: &str) -> (found: Option<&EditorNode>)
        ensures
            match found {
                Some(node) => self@.nodes.contains_key(node_id@) && node@ == self@.nodes[node_id@],
                None => !self@.nodes.contains_key(node_id@),
            },
    {
        self.nodes.get(node_id)
    }

    /// Adds a node under the identifier `id` as the last child of
    /// `parent_id`.
    ///
    /// Succeeds exactly when `parent_id` is in the store and `id` is not.
    /// The new node has the default properties of its type; the parent's
    /// earlier children keep their places before it. On failure the scene is
    /// left untouched.
    pub fn add_node_with_id(&mut self, parent_id: &str, name: &str, node_type: NodeType, id: String) -> (added:
        Option<String>)
        ensures
            added is Some <==> old(self)@.nodes.contains_key(parent_id@) && !old(self)@.nodes.contains_key(
                id@,
            ),
            added matches Some(new_id) ==> new_id@ == id@ && final(self)@ == old(self)@.with_child(
                parent_id@,
                id@,
                name@,
                node_type,
            ),
            added is None ==> *final(self) == *old(self),
            old(self)@.well_formed() ==> final(self)@.well_formed(),
    {
        let parent_copy = match self.nodes.get(parent_id) {
            Some(parent) => parent.duplicate(),
            None => {
                return None;
            },
        };
        if self.nodes.contains_key(id.as_str()) {
            return None;
        }
        let mut parent_copy = parent_copy;
        parent_copy.children.push(id.clone());
        let mut node = EditorNode::with_id(id.clone(), name, node_type);
        node.parent_id = Some(String::from_str(parent_id));
        self.nodes.insert(String::from_str(parent_id), parent_copy);
        self.nodes.insert(id.clone(), node);
        proof {
            let goal = old(self)@.with_child(parent_id@, id@, name@, node_type);
            assert(parent_copy@.children =~= old(self)@.nodes[parent_id@].children.push(id@));
            assert(self@.nodes =~= goal.nodes);
            if old(self)@.well_formed() {
                lemma_with_child_well_formed(old(self)@, parent_id@, id@, name@, node_type);
            }
        }
        Some(id)
    }

    /// Adds a node under a newly drawn identifier as the last child of
    /// `parent_id`, and returns the identifier.
    ///
    /// Fails, leaving the scene untouched, when `parent_id` is not in the store,
    /// and otherwise only when the identifier drawn is already in it.
    pub fn add_node(&mut self, parent_id: &str, name: &str, node_type: NodeType) -> (added: Option<String>)
        ensures
            !old(self)@.nodes.contains_key(parent_id@) ==> added is None,
            old(self)@.nodes.contains_key(parent_id@) && !old(self)@.has_id_of_length(ID_LENGTH as nat)
                ==> added is Some,
            added matches Some(new_id) ==> {
                &&& new_id@.len() == ID_LENGTH
                &&& old(self)@.nodes.contains_key(parent_id@)
                &&& !old(self)@.nodes.contains_key(new_id@)
                &&& final(self)@ == old(self)@.with_child(parent_id@, new_id@, name@, node_type)
            },
            added is None ==> *final(self) == *old(self),
            old(self)@.well_formed() ==> final(self)@.well_formed(),
    {
        if !self.nodes.contains_key(parent_id) {
            return None;
        }
        let id = fresh_id();
        let ghost drawn = id@;
        let added = self.add_node_with_id(parent_id, name, node_type, id);
        proof {
            if added is None {
                assert(old(self)@.nodes.contains_key(drawn));
            }
        }
        added
    }

    /// Removes the node `node_id` together with all its descendants, and
    /// strikes it from the children of its parent.
    ///
    /// Fails, leaving the scene untouched, when `node_id` is the root or is
    /// not in the store. On success the store loses the node and each of its
    /// descendants, and nothing else. The nodes are taken out with a list of
    /// pending identifiers, not by recursion, so the depth of the tree does
    /// not matter, and the call ends on a store whose child links are not a
    /// tree as well.
    ///
    /// The store has to hold finitely many nodes, as every store does that
    /// was built by the functions of this module.
    pub fn remove_node(&mut self, node_id: &str) -> (removed: bool)
        requires
            old(self)@.nodes.dom().finite(),
        ensures
            removed == (node_id@ != old(self)@.root_id && old(self)@.nodes.contains_key(node_id@)),
            removed ==> final(self)@ == old(self)@.without_subtree(node_id@),
            removed ==> final(self)@.nodes.len() == old(self)@.nodes.len() - descendants(
                old(self)@.nodes,
                node_id@,
            ).len() - 1,
            !removed ==> *final(self) == *old(self),
            old(self)@.well_formed() ==> final(self)@.well_formed(),
    {
        let target = String::from_str(node_id);
        if self.root_id == target {
            return false;
        }
        let parent_id = match self.nodes.get(node_id) {
            Some(node) => duplicate_optional_id(&node.parent_id),
            None => {
                return false;
            },
        };
        proof {
            assert(self.nodes@.dom() =~= self@.nodes.dom());
        }
        remove_subtree(&mut self.nodes, node_id);
        proof {
            assert(nodes_model(self.nodes@) =~= old(self)@.nodes.remove_keys(
                subtree(old(self)@.nodes, node_id@),
            ));
        }
        match parent_id {
            Some(parent) => {
                detach_child(&mut self.nodes, parent.as_str(), node_id);
            },
            None => {},
        }
        proof {
            lemma_without_subtree_count(old(self)@, node_id@);
            if old(self)@.well_formed() {
                lemma_without_subtree_well_formed(old(self)@, node_id@);
            }
        }
        true
    }

    /// Stores `value` under `key` in the node `node_id`, in place of any
    /// value that was there. Fails, leaving the scene untouched, when the
    /// node is not in the store.
    pub fn set_property(&mut self, node_id: &str, key: &str, value: PropertyValue) -> (ok: bool)
        ensures
            ok == old(self)@.nodes.contains_key(node_id@),
            ok ==> final(self)@ == old(self)@.with_property(node_id@, key@, value@),
            !ok ==> *final(self) == *old(self),
            old(self)@.well_formed() ==> final(self)@.well_formed(),
    {
        let mut copy = match self.nodes.get(node_id) {
            Some(node) => node.duplicate(),
            None => {
                return false;
            },
        };
        copy.set_property(key, value);
        self.nodes.insert(String::from_str(node_id), copy);
        proof {
            assert(self@.nodes =~= old(self)@.with_property(node_id@, key@, value@).nodes);
            if old(self)@.well_formed() {
                lemma_with_property_well_formed(old(self)@, node_id@, key@, value@);
            }
        }
        true
    }

    /// Reads `key` in the node `node_id` for a caller that expects a value of
    /// the variant of `default`. Where the node is not in the store, the key
    /// is unset, or it is set to a value of another variant, the result is
    /// `default`.
    pub fn get_property(&self, node_id: &str, key: &str, default: PropertyValue) -> (value: PropertyValue)
        ensures
            value@ == self@.property_or(node_id@, key@, default@),
    {
        match self.nodes.get(node_id) {
            Some(node) => node.get_property_or(key, default),
            None => default,
        }
    }
}

} // verus!
