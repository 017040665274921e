//! What holds of the generator's walk: the order of the children decides
//! the order of the text, and in a well-formed scene the walk meets every
//! node and never runs out of fuel.

use crate::code_gen::{child_depth, emit_children, emit_node, node_statement, program_text};
use crate::node::{fresh_node, NodeModel, NodeType};
use crate::reach::{
    chain_between, is_chain, lemma_chain_length, lemma_chain_push, lemma_chain_rank, lemma_reaches_child,
    lemma_reaches_self, lemma_reaches_through_child, reaches,
};
use crate::text::indentation;
use crate::tree::{acyclic, children_consistent, parent_listed, ranked, SceneModel};
use vstd::prelude::*;

verus! {

/// The text of a list of children is the text of its front part followed by
/// the text of its back part: children are written in the order of the list.
pub proof fn lemma_children_written_in_order(
    nodes: Map<Seq<char>, NodeModel>,
    front: Seq<Seq<char>>,
    back: Seq<Seq<char>>,
    depth: nat,
    fuel: nat,
)
    ensures
        emit_children(nodes, front + back, depth, fuel) == emit_children(nodes, front, depth, fuel)
            + emit_children(nodes, back, depth, fuel),
    decreases back.len(),
{
    if back.len() == 0 {
        assert(front + back =~= front);
        assert(emit_children(nodes, front, depth, fuel) + Seq::<char>::empty() =~= emit_children(
            nodes,
            front,
            depth,
            fuel,
        ));
    } else {
        let all = front + back;
        assert(all.drop_last() =~= front + back.drop_last());
        assert(all.last() == back.last());
        lemma_children_written_in_order(nodes, front, back.drop_last(), depth, fuel);
        let a = emit_children(nodes, front, depth, fuel);
        let b = emit_children(nodes, back.drop_last(), depth, fuel);
        let c = emit_node(nodes, back.last(), depth, fuel);
        assert((a + b) + c =~= a + (b + c));
    }
}

/// A child appended to a list is written after the children that were in
/// the list.
pub proof fn lemma_appended_child_written_last(
    nodes: Map<Seq<char>, NodeModel>,
    children: Seq<Seq<char>>,
    child: Seq<char>,
    depth: nat,
    fuel: nat,
)
    ensures
        emit_children(nodes, children.push(child), depth, fuel) == emit_children(
            nodes,
            children,
            depth,
            fuel,
        ) + emit_node(nodes, child, depth, fuel),
{
    assert(children.push(child).drop_last() =~= children);
}

/// Two scenes with the same nodes and the same root have the same program:
/// the program is a function of the scene.
pub proof fn lemma_program_is_determined(a: SceneModel, b: SceneModel)
    requires
        a.nodes == b.nodes,
        a.root_id == b.root_id,
    ensures
        program_text(a) == program_text(b),
{
}

/// In a finite store without cycles, more fuel changes nothing for a node at
/// the end of a chain, once the fuel and the length of the chain together
/// exceed the number of nodes.
pub proof fn lemma_emit_node_fuel(
    nodes: Map<Seq<char>, NodeModel>,
    path: Seq<Seq<char>>,
    depth: nat,
    fuel: nat,
    more: nat,
)
    requires
        acyclic(nodes),
        nodes.dom().finite(),
        is_chain(nodes, path),
        fuel + path.len() > nodes.dom().len(),
        fuel <= more,
    ensures
        emit_node(nodes, path.last(), depth, fuel) == emit_node(nodes, path.last(), depth, more),
    decreases fuel, 0nat, 0nat,
{
    lemma_chain_length(nodes, path);
    let id = path.last();
    assert(nodes.contains_key(path[path.len() - 1]));
    let node = nodes[id];
    assert forall|i: int| 0 <= i < node.children.len() implies nodes[path.last()].children.contains(
        #[trigger] node.children[i],
    ) by {}
    lemma_emit_children_fuel(
        nodes,
        path,
        node.children,
        child_depth(node.node_type, depth),
        (fuel - 1) as nat,
        (more - 1) as nat,
    );
}

/// The same for a list of children of the node at the end of the chain.
pub proof fn lemma_emit_children_fuel(
    nodes: Map<Seq<char>, NodeModel>,
    path: Seq<Seq<char>>,
    children: Seq<Seq<char>>,
    depth: nat,
    fuel: nat,
    more: nat,
)
    requires
        acyclic(nodes),
        nodes.dom().finite(),
        is_chain(nodes, path),
        fuel + path.len() + 1 > nodes.dom().len(),
        fuel <= more,
        forall|i: int|
            0 <= i < children.len() ==> nodes[path.last()].children.contains(#[trigger] children[i]),
    ensures
        emit_children(nodes, children, depth, fuel) == emit_children(nodes, children, depth, more),
    decreases fuel, 1nat, children.len(),
{
    if children.len() > 0 {
        let front = children.drop_last();
        assert forall|i: int| 0 <= i < front.len() implies nodes[path.last()].children.contains(
            #[trigger] front[i],
        ) by {
            assert(front[i] == children[i]);
        }
        lemma_emit_children_fuel(nodes, path, front, depth, fuel, more);
        let child = children.last();
        assert(children[children.len() - 1] == child);
        if nodes.contains_key(child) {
            lemma_chain_push(nodes, path, child);
            lemma_emit_node_fuel(nodes, path.push(child), depth, fuel, more);
        } else {
            assert(emit_node(nodes, child, depth, fuel) == Seq::<char>::empty());
            assert(emit_node(nodes, child, depth, more) == Seq::<char>::empty());
        }
        assert(emit_children(nodes, children, depth, fuel) == emit_children(nodes, front, depth, fuel)
            + emit_node(nodes, child, depth, fuel));
        assert(emit_children(nodes, children, depth, more) == emit_children(nodes, front, depth, more)
            + emit_node(nodes, child, depth, more));
    } else {
        assert(emit_children(nodes, children, depth, fuel) == Seq::<char>::empty());
        assert(emit_children(nodes, children, depth, more) == Seq::<char>::empty());
    }
}

/// In a finite scene without cycles the walk from the root never stops
/// for want of fuel: with as much fuel as there are nodes it gives the
/// same text as with any larger amount.
pub proof fn lemma_fuel_suffices(scene: SceneModel, more: nat)
    requires
        scene.nodes.dom().finite(),
        acyclic(scene.nodes),
        scene.nodes.len() <= more,
    ensures
        emit_node(scene.nodes, scene.root_id, 1, scene.nodes.len()) == emit_node(
            scene.nodes,
            scene.root_id,
            1,
            more,
        ),
{
    if scene.nodes.contains_key(scene.root_id) {
        let path = seq![scene.root_id];
        assert(is_chain(scene.nodes, path));
        lemma_emit_node_fuel(scene.nodes, path, 1, scene.nodes.len(), more);
    }
}

/// The nodes of the store whose rank is above that of `id`.
pub open spec fn ranked_above(
    nodes: Map<Seq<char>, NodeModel>,
    rank: spec_fn(Seq<char>) -> nat,
    id: Seq<char>,
) -> Set<Seq<char>> {
    nodes.dom().filter(|other: Seq<char>| rank(other) > rank(id))
}

/// The root reaches `id`; by induction on the number of nodes ranked above
/// `id`, which is smaller for the parent of `id` than for `id`.
proof fn lemma_below_root_ranked(scene: SceneModel, rank: spec_fn(Seq<char>) -> nat, id: Seq<char>)
    requires
        scene.well_formed(),
        ranked(scene.nodes, rank),
        scene.nodes.contains_key(id),
    ensures
        reaches(scene.nodes, scene.root_id, id),
    decreases ranked_above(scene.nodes, rank, id).len(),
{
    let g = scene.nodes;
    if id == scene.root_id {
        lemma_reaches_self(g, id);
    } else {
        assert(parent_listed(g, id));
        let parent = g[id].parent_id->0;
        let k = choose|k: int| 0 <= k < g[parent].children.len() && g[parent].children[k] == id;
        assert(rank(g[parent].children[k]) < rank(parent));
        let mine = ranked_above(g, rank, id);
        let theirs = ranked_above(g, rank, parent);
        assert(mine.subset_of(g.dom()));
        vstd::set_lib::lemma_len_subset(mine, g.dom());
        assert(mine.contains(parent));
        assert(theirs.subset_of(mine.remove(parent)));
        vstd::set_lib::lemma_len_subset(theirs, mine.remove(parent));
        lemma_below_root_ranked(scene, rank, parent);
        lemma_reaches_child(g, scene.root_id, parent, id);
    }
}

/// In a well-formed scene every node is the root or one of its
/// descendants: there are no orphans.
pub proof fn lemma_every_node_is_below_root(scene: SceneModel, id: Seq<char>)
    requires
        scene.well_formed(),
        scene.nodes.contains_key(id),
    ensures
        reaches(scene.nodes, scene.root_id, id),
{
    let rank = choose|rank: spec_fn(Seq<char>) -> nat| ranked(scene.nodes, rank);
    lemma_below_root_ranked(scene, rank, id);
}

/// Adding a node under `parent` changes nothing in the text of a node
/// from which `parent` cannot be reached.
pub proof fn lemma_emit_node_unaffected(
    scene: SceneModel,
    parent: Seq<char>,
    id: Seq<char>,
    name: Seq<char>,
    node_type: NodeType,
    at: Seq<char>,
    depth: nat,
    fuel: nat,
)
    requires
        scene.well_formed(),
        scene.nodes.contains_key(parent),
        !scene.nodes.contains_key(id),
        at != id,
        !reaches(scene.nodes, at, parent),
    ensures
        emit_node(scene.with_child(parent, id, name, node_type).nodes, at, depth, fuel) == emit_node(
            scene.nodes,
            at,
            depth,
            fuel,
        ),
    decreases fuel, 0nat, 0nat,
{
    let g = scene.nodes;
    let h = scene.with_child(parent, id, name, node_type).nodes;
    if fuel > 0 && g.contains_key(at) {
        lemma_reaches_self(g, at);
        assert(h[at] == g[at]);
        assert(children_consistent(g, at));
        let kids = g[at].children;
        assert forall|i: int| 0 <= i < kids.len() implies (#[trigger] kids[i]) != id && !reaches(
            g,
            kids[i],
            parent,
        ) by {
            assert(g.contains_key(kids[i]));
            if reaches(g, kids[i], parent) {
                lemma_reaches_through_child(g, at, kids[i], parent);
            }
        }
        lemma_emit_children_unaffected(
            scene,
            parent,
            id,
            name,
            node_type,
            kids,
            child_depth(g[at].node_type, depth),
            (fuel - 1) as nat,
        );
    } else {
        assert(emit_node(h, at, depth, fuel) == Seq::<char>::empty());
        assert(emit_node(g, at, depth, fuel) == Seq::<char>::empty());
    }
}

/// The same for a list of nodes from none of which `parent` can be
/// reached.
pub proof fn lemma_emit_children_unaffected(
    scene: SceneModel,
    parent: Seq<char>,
    id: Seq<char>,
    name: Seq<char>,
    node_type: NodeType,
    children: Seq<Seq<char>>,
    depth: nat,
    fuel: nat,
)
    requires
        scene.well_formed(),
        scene.nodes.contains_key(parent),
        !scene.nodes.contains_key(id),
        forall|i: int|
            0 <= i < children.len() ==> (#[trigger] children[i]) != id && !reaches(
                scene.nodes,
                children[i],
                parent,
            ),
    ensures
        emit_children(scene.with_child(parent, id, name, node_type).nodes, children, depth, fuel)
            == emit_children(scene.nodes, children, depth, fuel),
    decreases fuel, 1nat, children.len(),
{
    let g = scene.nodes;
    let h = scene.with_child(parent, id, name, node_type).nodes;
    if children.len() > 0 {
        let front = children.drop_last();
        assert forall|i: int| 0 <= i < front.len() implies (#[trigger] front[i]) != id && !reaches(
            g,
            front[i],
            parent,
        ) by {
            assert(front[i] == children[i]);
        }
        lemma_emit_children_unaffected(scene, parent, id, name, node_type, front, depth, fuel);
        let child = children.last();
        assert(children[children.len() - 1] == child);
        lemma_emit_node_unaffected(scene, parent, id, name, node_type, child, depth, fuel);
        assert(emit_children(h, children, depth, fuel) == emit_children(h, front, depth, fuel) + emit_node(
            h,
            child,
            depth,
            fuel,
        ));
        assert(emit_children(g, children, depth, fuel) == emit_children(g, front, depth, fuel) + emit_node(
            g,
            child,
            depth,
            fuel,
        ));
    } else {
        assert(emit_children(h, children, depth, fuel) == Seq::<char>::empty());
        assert(emit_children(g, children, depth, fuel) == Seq::<char>::empty());
    }
}

/// Append order. After a node was added under `parent` in a well-formed
/// scene, the text of `parent` is what it was, followed by the statement of
/// the new node: the new child is written after all earlier children and
/// everything below them, whatever its identifier.
pub proof fn lemma_added_child_is_written_last(
    scene: SceneModel,
    parent: Seq<char>,
    id: Seq<char>,
    name: Seq<char>,
    node_type: NodeType,
    depth: nat,
    fuel: nat,
)
    requires
        scene.well_formed(),
        scene.nodes.contains_key(parent),
        !scene.nodes.contains_key(id),
        fuel >= 2,
    ensures
        emit_node(scene.with_child(parent, id, name, node_type).nodes, parent, depth, fuel) == emit_node(
            scene.nodes,
            parent,
            depth,
            fuel,
        ) + node_statement(
            fresh_node(id, name, node_type),
            indentation(child_depth(scene.nodes[parent].node_type, depth)),
        ),
{
    let g = scene.nodes;
    let h = scene.with_child(parent, id, name, node_type).nodes;
    let kids = g[parent].children;
    let below = child_depth(g[parent].node_type, depth);
    let rest = (fuel - 1) as nat;
    let rank = choose|rank: spec_fn(Seq<char>) -> nat| ranked(g, rank);
    assert(children_consistent(g, parent));
    assert forall|i: int| 0 <= i < kids.len() implies (#[trigger] kids[i]) != id && !reaches(
        g,
        kids[i],
        parent,
    ) by {
        assert(g.contains_key(kids[i]));
        assert(rank(g[parent].children[i]) < rank(parent));
        if reaches(g, kids[i], parent) {
            let path = choose|path: Seq<Seq<char>>| chain_between(g, path, kids[i], parent);
            lemma_chain_rank(g, rank, path);
        }
    }
    lemma_emit_children_unaffected(scene, parent, id, name, node_type, kids, below, rest);
    lemma_appended_child_written_last(h, kids, id, below, rest);
    assert(h[parent].children == kids.push(id));
    assert(h[id].children =~= Seq::<Seq<char>>::empty());
    let line = node_statement(fresh_node(id, name, node_type), indentation(below));
    assert(node_statement(h[id], indentation(below)) == line);
    assert(emit_children(h, h[id].children, child_depth(node_type, below), (rest - 1) as nat)
        == Seq::<char>::empty());
    assert(emit_node(h, id, below, rest) =~= line);
    let head = node_statement(g[parent], indentation(depth));
    assert(node_statement(h[parent], indentation(depth)) == head);
    let old_kids = emit_children(g, kids, below, rest);
    assert(emit_node(g, parent, depth, fuel) == head + old_kids);
    assert(emit_node(h, parent, depth, fuel) == head + (old_kids + line));
    assert(head + (old_kids + line) =~= (head + old_kids) + line);
}

/// Append order at the top. After a node was added under the root of a
/// well-formed scene, the program is the old program with the statement of
/// the new node as its last line.
pub proof fn lemma_child_of_root_is_written_last(
    scene: SceneModel,
    id: Seq<char>,
    name: Seq<char>,
    node_type: NodeType,
)
    requires
        scene.well_formed(),
        !scene.nodes.contains_key(id),
    ensures
        program_text(scene.with_child(scene.root_id, id, name, node_type)) == "turbo::go! {\n"@ + emit_node(
            scene.nodes,
            scene.root_id,
            1,
            scene.nodes.len(),
        ) + node_statement(fresh_node(id, name, node_type), indentation(1)) + "}\n"@,
{
    let after = scene.with_child(scene.root_id, id, name, node_type);
    let n = scene.nodes.len();
    assert(after.nodes.dom() =~= scene.nodes.dom().insert(id));
    assert(after.nodes.len() == n + 1);
    assert(n >= 1) by {
        if n == 0 {
            assert(scene.nodes.dom().contains(scene.root_id));
        }
    }
    lemma_added_child_is_written_last(scene, scene.root_id, id, name, node_type, 1, n + 1);
    lemma_fuel_suffices(scene, n + 1);
}

} // verus!
