//! The identifiers of a scene in the order in which a walk from the root
//! meets them.

use crate::node::{ids_model, NodeModel};
use crate::reach::{
    chain_between, is_chain, lemma_chain_length, lemma_chain_push, lemma_chain_skip_first, reaches,
};
use crate::scene::Scene;
use crate::tree::{acyclic, SceneModel};
use crate::walk::lemma_every_node_is_below_root;
use vstd::prelude::*;
use vstd::string::*;

verus! {

/// The identifier `id` and the identifiers below it, parents before
/// children and children in their stored order.
///
/// An identifier that is not in the store is left out. `fuel` bounds the
/// length of the chains of child links that are followed.
pub open spec fn listed_node(nodes: Map<Seq<char>, NodeModel>, id: Seq<char>, fuel: nat) -> Seq<Seq<char>>
    decreases fuel, 0nat, 0nat,
{
    if fuel == 0 || !nodes.contains_key(id) {
        Seq::empty()
    } else {
        seq![id] + listed_children(nodes, nodes[id].children, (fuel - 1) as nat)
    }
}

/// The listings of a sequence of children, one after the other.
pub open spec fn listed_children(
    nodes: Map<Seq<char>, NodeModel>,
    children: Seq<Seq<char>>,
    fuel: nat,
) -> Seq<Seq<char>>
    decreases fuel, 1nat, children.len(),
{
    if children.len() == 0 {
        Seq::empty()
    } else {
        listed_children(nodes, children.drop_last(), fuel) + listed_node(nodes, children.last(), fuel)
    }
}

impl SceneModel {
    /// The identifiers met by a walk from the root.
    pub open spec fn node_ids(self) -> Seq<Seq<char>> {
        listed_node(self.nodes, self.root_id, self.nodes.len())
    }
}

/// Whatever is listed is in the store.
pub proof fn lemma_listed_node_in_store(
    nodes: Map<Seq<char>, NodeModel>,
    id: Seq<char>,
    fuel: nat,
    found: Seq<char>,
)
    requires
        listed_node(nodes, id, fuel).contains(found),
    ensures
        nodes.contains_key(found),
    decreases fuel, 0nat, 0nat,
{
    if fuel > 0 && nodes.contains_key(id) {
        let below = listed_children(nodes, nodes[id].children, (fuel - 1) as nat);
        let whole = seq![id] + below;
        let k = choose|k: int| 0 <= k < whole.len() && whole[k] == found;
        if k > 0 {
            assert(below[k - 1] == found);
            lemma_listed_children_in_store(nodes, nodes[id].children, (fuel - 1) as nat, found);
        }
    }
}

/// The same for the listing of a sequence of children.
pub proof fn lemma_listed_children_in_store(
    nodes: Map<Seq<char>, NodeModel>,
    children: Seq<Seq<char>>,
    fuel: nat,
    found: Seq<char>,
)
    requires
        listed_children(nodes, children, fuel).contains(found),
    ensures
        nodes.contains_key(found),
    decreases fuel, 1nat, children.len(),
{
    if children.len() > 0 {
        let front = listed_children(nodes, children.drop_last(), fuel);
        let last = listed_node(nodes, children.last(), fuel);
        let whole = front + last;
        let k = choose|k: int| 0 <= k < whole.len() && whole[k] == found;
        if k < front.len() {
            assert(front[k] == found);
            lemma_listed_children_in_store(nodes, children.drop_last(), fuel, found);
        } else {
            assert(last[k - front.len()] == found);
            lemma_listed_node_in_store(nodes, children.last(), fuel, found);
        }
    }
}

/// What the listing of one child holds, the listing of the children holds.
pub proof fn lemma_listed_children_hold(
    nodes: Map<Seq<char>, NodeModel>,
    children: Seq<Seq<char>>,
    fuel: nat,
    at: int,
    found: Seq<char>,
)
    requires
        0 <= at < children.len(),
        listed_node(nodes, children[at], fuel).contains(found),
    ensures
        listed_children(nodes, children, fuel).contains(found),
    decreases children.len(),
{
    let front = listed_children(nodes, children.drop_last(), fuel);
    let last = listed_node(nodes, children.last(), fuel);
    let whole = front + last;
    if at == children.len() - 1 {
        let k = choose|k: int| 0 <= k < last.len() && last[k] == found;
        assert(whole[front.len() + k] == found);
    } else {
        assert(children.drop_last()[at] == children[at]);
        lemma_listed_children_hold(nodes, children.drop_last(), fuel, at, found);
        let k = choose|k: int| 0 <= k < front.len() && front[k] == found;
        assert(whole[k] == found);
    }
}

/// In a finite store without cycles, the listing of the node at the end of
/// a chain holds whatever that node reaches, once the fuel and the length of
/// the chain together exceed the number of nodes.
pub proof fn lemma_listed_holds_reached(
    nodes: Map<Seq<char>, NodeModel>,
    path: Seq<Seq<char>>,
    onward: Seq<Seq<char>>,
    fuel: nat,
)
    requires
        acyclic(nodes),
        nodes.dom().finite(),
        is_chain(nodes, path),
        is_chain(nodes, onward),
        onward[0] == path.last(),
        fuel + path.len() > nodes.dom().len(),
    ensures
        listed_node(nodes, path.last(), fuel).contains(onward.last()),
    decreases onward.len(),
{
    lemma_chain_length(nodes, path);
    let at = path.last();
    assert(nodes.contains_key(path[path.len() - 1]));
    let below = listed_children(nodes, nodes[at].children, (fuel - 1) as nat);
    let whole = seq![at] + below;
    assert(listed_node(nodes, at, fuel) == whole);
    if onward.len() == 1 {
        assert(whole[0] == onward.last());
    } else {
        lemma_chain_skip_first(nodes, onward);
        let child = onward[1];
        let rest = onward.skip(1);
        assert(nodes.contains_key(onward[1]));
        lemma_chain_push(nodes, path, child);
        lemma_listed_holds_reached(nodes, path.push(child), rest, (fuel - 1) as nat);
        let at_child = choose|k: int| 0 <= k < nodes[at].children.len() && nodes[at].children[k] == child;
        lemma_listed_children_hold(nodes, nodes[at].children, (fuel - 1) as nat, at_child, onward.last());
        let k = choose|k: int| 0 <= k < below.len() && below[k] == onward.last();
        assert(whole[k + 1] == onward.last());
    }
}

/// In a well-formed scene the walk from the root meets every node of the
/// store, and nothing else.
pub proof fn lemma_node_ids_are_the_store(scene: SceneModel, id: Seq<char>)
    requires
        scene.well_formed(),
    ensures
        scene.node_ids().contains(id) <==> scene.nodes.contains_key(id),
{
    if scene.node_ids().contains(id) {
        lemma_listed_node_in_store(scene.nodes, scene.root_id, scene.nodes.len(), id);
    }
    if scene.nodes.contains_key(id) {
        lemma_every_node_is_below_root(scene, id);
        let onward = choose|onward: Seq<Seq<char>>| chain_between(scene.nodes, onward, scene.root_id, id);
        let path = seq![scene.root_id];
        assert(is_chain(scene.nodes, path));
        lemma_listed_holds_reached(scene.nodes, path, onward, scene.nodes.len());
    }
}

/// Appends to `out` the listing of `node_id`.
fn list_node(scene: &Scene, node_id: &str, fuel: usize, out: &mut Vec<String>)
    ensures
        ids_model(final(out)@) == ids_model(old(out)@) + listed_node(scene@.nodes, node_id@, fuel as nat),
    decreases fuel,
{
    let ghost before = ids_model(out@);
    if fuel == 0 {
        proof {
            assert(ids_model(out@) =~= before + Seq::<Seq<char>>::empty());
        }
        return ;
    }
    let node = match scene.get_node(node_id) {
        Some(node) => node,
        None => {
            proof {
                assert(ids_model(out@) =~= before + Seq::<Seq<char>>::empty());
            }
            return ;
        },
    };
    out.push(String::from_str(node_id));
    let ghost kids = node@.children;
    proof {
        assert(kids.take(0) =~= Seq::<Seq<char>>::empty());
        assert(ids_model(out@) =~= before + seq![node_id@] + listed_children(
            scene@.nodes,
            kids.take(0),
            (fuel - 1) as nat,
        ));
    }
    let mut i: usize = 0;
    while i < node.children.len()
        invariant
            i <= node.children@.len(),
            fuel > 0,
            kids == node@.children,
            ids_model(out@) == before + seq![node_id@] + listed_children(
                scene@.nodes,
                kids.take(i as int),
                (fuel - 1) as nat,
            ),
        decreases node.children@.len() - i,
    {
        list_node(scene, node.children[i].as_str(), fuel - 1, out);
        proof {
            let next = kids.take(i + 1);
            assert(next.drop_last() =~= kids.take(i as int));
            assert(next.last() == node.children@[i as int]@);
            assert(ids_model(out@) =~= before + seq![node_id@] + listed_children(
                scene@.nodes,
                next,
                (fuel - 1) as nat,
            ));
        }
        i += 1;
    }
    proof {
        assert(kids.take(i as int) =~= kids);
        assert(ids_model(out@) =~= before + (seq![node_id@] + listed_children(
            scene@.nodes,
            kids,
            (fuel - 1) as nat,
        )));
    }
}

impl Scene {
    /// The identifiers of the nodes that a walk from the root meets, parents
    /// before children and children in their stored order. This is the order
    /// in which the code generator visits the nodes.
    pub fn node_ids(&self) -> (ids: Vec<String>)
        ensures
            ids_model(ids@) == self@.node_ids(),
            self@.well_formed() ==> forall|id: Seq<char>|
                ids_model(ids@).contains(id) <==> self@.nodes.contains_key(id),
    {
        let mut ids: Vec<String> = Vec::new();
        proof {
            assert(ids_model(ids@) =~= Seq::<Seq<char>>::empty());
        }
        list_node(self, self.root_id.as_str(), self.node_count(), &mut ids);
        proof {
            assert(ids_model(ids@) =~= self@.node_ids());
            if self@.well_formed() {
                assert forall|id: Seq<char>|
                    ids_model(ids@).contains(id) <==> self@.nodes.contains_key(id) by {
                    lemma_node_ids_are_the_store(self@, id);
                }
            }
        }
        ids
    }
}

} // verus!
