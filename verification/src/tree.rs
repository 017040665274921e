//! The model of a scene and the shape that its nodes must have to form a
//! single tree.

use crate::node::{fresh_node, NodeModel, NodeType};
use crate::property::PropertyModel;
use crate::reach::subtree;
use vstd::prelude::*;

verus! {

/// What a scene is in contracts: its name, the identifier of its root and
/// its nodes by identifier.
pub struct SceneModel {
    pub name: Seq<char>,
    pub root_id: Seq<char>,
    pub nodes: Map<Seq<char>, NodeModel>,
}

/// The node `id` names a parent that is in the store and lists `id` among
/// its children.
pub open spec fn parent_listed(nodes: Map<Seq<char>, NodeModel>, id: Seq<char>) -> bool {
    match nodes[id].parent_id {
        Some(p) => nodes.contains_key(p) && nodes[p].children.contains(id),
        None => false,
    }
}

/// No identifier occurs twice among the children of `p`, and every child is
/// in the store and names `p` as its parent.
pub open spec fn children_consistent(nodes: Map<Seq<char>, NodeModel>, p: Seq<char>) -> bool {
    &&& nodes[p].children.no_duplicates()
    &&& forall|i: int|
        0 <= i < nodes[p].children.len() ==> {
            &&& nodes.contains_key(#[trigger] nodes[p].children[i])
            &&& nodes[nodes[p].children[i]].parent_id == Some(p)
        }
}

/// `rank` falls strictly from every node of the store to each of its
/// children in the store.
pub open spec fn ranked(nodes: Map<Seq<char>, NodeModel>, rank: spec_fn(Seq<char>) -> nat) -> bool {
    forall|p: Seq<char>, i: int|
        #![trigger nodes[p].children[i]]
        nodes.contains_key(p) && 0 <= i < nodes[p].children.len() && nodes.contains_key(
            nodes[p].children[i],
        ) ==> rank(nodes[p].children[i]) < rank(p)
}

/// The test that keeps every identifier but `id`.
pub open spec fn is_not(id: Seq<char>) -> spec_fn(Seq<char>) -> bool {
    |other: Seq<char>| other != id
}

/// The store after every occurrence of `child` was struck from the
/// children of `parent`; the store itself where `parent` is not in it.
pub open spec fn detached(
    nodes: Map<Seq<char>, NodeModel>,
    parent: Seq<char>,
    child: Seq<char>,
) -> Map<Seq<char>, NodeModel> {
    if nodes.contains_key(parent) {
        let p = nodes[parent];
        nodes.insert(parent, NodeModel { children: p.children.filter(is_not(child)), ..p })
    } else {
        nodes
    }
}

/// No chain of child links leads from a node back to itself: some rank
/// falls along every link.
pub open spec fn acyclic(nodes: Map<Seq<char>, NodeModel>) -> bool {
    exists|rank: spec_fn(Seq<char>) -> nat| ranked(nodes, rank)
}

impl SceneModel {
    /// The invariants of a scene.
    ///
    /// The store is finite and holds each node under the node's own
    /// identifier, so identifiers are unique. The root is in the store, is a
    /// container and has no parent. Every other node has a parent in the
    /// store, and that parent lists it exactly once. Every listed child is in
    /// the store and names the listing node as its parent, so no node has two
    /// parents. The child links are acyclic.
    pub open spec fn well_formed(self) -> bool {
        &&& self.nodes.dom().finite()
        &&& self.nodes.contains_key(self.root_id)
        &&& self.nodes[self.root_id].parent_id is None
        &&& self.nodes[self.root_id].node_type == NodeType::Container
        &&& forall|id: Seq<char>| self.nodes.contains_key(id) ==> (#[trigger] self.nodes[id]).id == id
        &&& forall|id: Seq<char>|
            self.nodes.contains_key(id) && id != self.root_id ==> #[trigger] parent_listed(
                self.nodes,
                id,
            )
        &&& forall|id: Seq<char>|
            self.nodes.contains_key(id) ==> #[trigger] children_consistent(self.nodes, id)
        &&& acyclic(self.nodes)
    }

    /// Some node of the store has an identifier of `length` characters.
    /// Drawn identifiers all have one length, so only in such a store can a
    /// newly drawn identifier be one that is taken.
    pub open spec fn has_id_of_length(self, length: nat) -> bool {
        exists|id: Seq<char>| id.len() == length && #[trigger] self.nodes.contains_key(id)
    }

    /// A scene that holds nothing but its root, a container named `Root`.
    pub open spec fn initial(name: Seq<char>, root_id: Seq<char>) -> SceneModel {
        SceneModel {
            name,
            root_id,
            nodes: Map::<Seq<char>, NodeModel>::empty().insert(
                root_id,
                fresh_node(root_id, "Root"@, NodeType::Container),
            ),
        }
    }

    /// The scene after a new node `id` was appended to the children of
    /// `parent`.
    pub open spec fn with_child(
        self,
        parent: Seq<char>,
        id: Seq<char>,
        name: Seq<char>,
        node_type: NodeType,
    ) -> SceneModel {
        let p = self.nodes[parent];
        let child = NodeModel { parent_id: Some(parent), ..fresh_node(id, name, node_type) };
        SceneModel {
            nodes: self.nodes.insert(parent, NodeModel { children: p.children.push(id), ..p }).insert(
                id,
                child,
            ),
            ..self
        }
    }

    /// The scene after the node `id` and all its descendants were taken out
    /// of the store and `id` was struck from the children of its parent.
    pub open spec fn without_subtree(self, id: Seq<char>) -> SceneModel {
        let kept = self.nodes.remove_keys(subtree(self.nodes, id));
        SceneModel {
            nodes: match self.nodes[id].parent_id {
                Some(parent) => detached(kept, parent, id),
                None => kept,
            },
            ..self
        }
    }

    /// The scene after `value` was stored under `key` in the node `id`.
    pub open spec fn with_property(self, id: Seq<char>, key: Seq<char>, value: PropertyModel) -> SceneModel {
        let n = self.nodes[id];
        SceneModel {
            nodes: self.nodes.insert(id, NodeModel { properties: n.properties.insert(key, value), ..n }),
            ..self
        }
    }
}

/// A scene that holds only its root is well formed.
pub proof fn lemma_initial_well_formed(name: Seq<char>, root_id: Seq<char>)
    ensures
        SceneModel::initial(name, root_id).well_formed(),
{
    let s = SceneModel::initial(name, root_id);
    let rank = |x: Seq<char>| 0nat;
    assert(s.nodes.dom() =~= Set::<Seq<char>>::empty().insert(root_id));
    assert(ranked(s.nodes, rank));
    assert(children_consistent(s.nodes, root_id));
}

/// Appending a new node to the children of a node of a well-formed scene
/// leaves the scene well formed.
pub proof fn lemma_with_child_well_formed(
    s: SceneModel,
    parent: Seq<char>,
    id: Seq<char>,
    name: Seq<char>,
    node_type: NodeType,
)
    requires
        s.well_formed(),
        s.nodes.contains_key(parent),
        !s.nodes.contains_key(id),
    ensures
        s.with_child(parent, id, name, node_type).well_formed(),
{
    let t = s.with_child(parent, id, name, node_type);
    let old_kids = s.nodes[parent].children;
    let new_kids = old_kids.push(id);
    assert(t.nodes[parent].children == new_kids);
    assert(children_consistent(s.nodes, parent));
    assert forall|i: int| 0 <= i < old_kids.len() implies old_kids[i] != id by {
        assert(s.nodes.contains_key(old_kids[i]));
    }
    assert forall|q: Seq<char>| t.nodes.contains_key(q) implies #[trigger] children_consistent(
        t.nodes,
        q,
    ) by {
        if q == id {
        } else if q == parent {
            assert forall|i: int| 0 <= i < new_kids.len() implies {
                &&& t.nodes.contains_key(#[trigger] new_kids[i])
                &&& t.nodes[new_kids[i]].parent_id == Some(parent)
            } by {
                if i < old_kids.len() {
                    assert(new_kids[i] == old_kids[i]);
                    assert(s.nodes.contains_key(old_kids[i]));
                }
            }
        } else {
            assert(children_consistent(s.nodes, q));
            assert(t.nodes[q] == s.nodes[q]);
            assert forall|i: int| 0 <= i < t.nodes[q].children.len() implies {
                &&& t.nodes.contains_key(#[trigger] t.nodes[q].children[i])
                &&& t.nodes[t.nodes[q].children[i]].parent_id == Some(q)
            } by {
                assert(s.nodes.contains_key(s.nodes[q].children[i]));
            }
        }
    }
    assert forall|q: Seq<char>| t.nodes.contains_key(q) && q != t.root_id implies #[trigger] parent_listed(
        t.nodes,
        q,
    ) by {
        if q == id {
            assert(new_kids[old_kids.len() as int] == id);
        } else {
            assert(parent_listed(s.nodes, q));
            let p = s.nodes[q].parent_id->0;
            if p == parent {
                let i = choose|i: int| 0 <= i < old_kids.len() && old_kids[i] == q;
                assert(new_kids[i] == q);
            }
        }
    }
    let rank = choose|rank: spec_fn(Seq<char>) -> nat| ranked(s.nodes, rank);
    let shifted = |x: Seq<char>|
        if x == id {
            0nat
        } else {
            rank(x) + 1
        };
    assert forall|p: Seq<char>, i: int|
        #![trigger t.nodes[p].children[i]]
        t.nodes.contains_key(p) && 0 <= i < t.nodes[p].children.len() && t.nodes.contains_key(
            t.nodes[p].children[i],
        ) implies shifted(t.nodes[p].children[i]) < shifted(p) by {
        let c = t.nodes[p].children[i];
        if p == id {
        } else if c == id {
        } else if p == parent {
            assert(new_kids[i] == old_kids[i]);
            assert(s.nodes[p].children[i] == c);
        } else {
            assert(s.nodes[p].children[i] == c);
        }
    }
    assert(ranked(t.nodes, shifted));
}

/// Storing a property in a node of a well-formed scene leaves the scene
/// well formed.
pub proof fn lemma_with_property_well_formed(
    s: SceneModel,
    id: Seq<char>,
    key: Seq<char>,
    value: PropertyModel,
)
    requires
        s.well_formed(),
        s.nodes.contains_key(id),
    ensures
        s.with_property(id, key, value).well_formed(),
{
    let t = s.with_property(id, key, value);
    assert(t.nodes.dom() =~= s.nodes.dom());
    assert forall|q: Seq<char>| t.nodes.contains_key(q) implies #[trigger] children_consistent(
        t.nodes,
        q,
    ) by {
        assert(children_consistent(s.nodes, q));
        assert forall|i: int| 0 <= i < t.nodes[q].children.len() implies {
            &&& t.nodes.contains_key(#[trigger] t.nodes[q].children[i])
            &&& t.nodes[t.nodes[q].children[i]].parent_id == Some(q)
        } by {
            assert(s.nodes.contains_key(s.nodes[q].children[i]));
        }
    }
    assert forall|q: Seq<char>| t.nodes.contains_key(q) && q != t.root_id implies #[trigger] parent_listed(
        t.nodes,
        q,
    ) by {
        assert(parent_listed(s.nodes, q));
    }
    let rank = choose|rank: spec_fn(Seq<char>) -> nat| ranked(s.nodes, rank);
    assert forall|p: Seq<char>, i: int|
        #![trigger t.nodes[p].children[i]]
        t.nodes.contains_key(p) && 0 <= i < t.nodes[p].children.len() && t.nodes.contains_key(
            t.nodes[p].children[i],
        ) implies rank(t.nodes[p].children[i]) < rank(p) by {
        assert(s.nodes[p].children[i] == t.nodes[p].children[i]);
    }
    assert(ranked(t.nodes, rank));
}

} // verus!
