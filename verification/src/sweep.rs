//! Taking a node and everything below it out of the store, with a list of
//! pending identifiers in place of recursion.

use crate::node::{duplicate_ids, duplicate_optional_id, ids_model, nodes_model, EditorNode, NodeModel};
use crate::reach::{
    chain_between, lemma_chain_past, lemma_reaches_child, lemma_reaches_in_store, lemma_reaches_self,
    reaches, subtree,
};
use crate::tree::{detached, is_not};
use vstd::hash_map::StringHashMap;
use vstd::prelude::*;
use vstd::string::*;

verus! {

/// `id` is `top`, or a node that `top` reaches lists it as a child.
spec fn linked(nodes: Map<Seq<char>, NodeModel>, top: Seq<char>, id: Seq<char>) -> bool {
    id == top || exists|via: Seq<char>| #[trigger] reaches(nodes, top, via) && nodes[via].children.contains(id)
}

/// Some pending identifier reaches `id`.
spec fn covered(nodes: Map<Seq<char>, NodeModel>, pending: Seq<String>, id: Seq<char>) -> bool {
    exists|j: int| 0 <= j < pending.len() && #[trigger] reaches(nodes, pending[j]@, id)
}

/// The state of the sweep that started from the store `orig` at `top`.
///
/// What is left in `cur` is unchanged, and what is gone lies below `top`.
/// Every pending identifier is `top` or a child of a node below `top`. Every
/// node below `top` that is still in `cur` is reached, within `cur`, from a
/// pending identifier.
spec fn sweeping(
    orig: Map<Seq<char>, EditorNode>,
    cur: Map<Seq<char>, EditorNode>,
    pending: Seq<String>,
    top: Seq<char>,
) -> bool {
    let g = nodes_model(orig);
    &&& cur.dom().finite()
    &&& forall|k: Seq<char>| #[trigger] cur.contains_key(k) ==> orig.contains_key(k) && cur[k] == orig[k]
    &&& forall|k: Seq<char>| orig.contains_key(k) && !cur.contains_key(k) ==> #[trigger] reaches(g, top, k)
    &&& forall|j: int| 0 <= j < pending.len() ==> linked(g, top, (#[trigger] pending[j])@)
    &&& forall|d: Seq<char>| #[trigger]
        reaches(g, top, d) && cur.contains_key(d) ==> covered(nodes_model(cur), pending, d)
}

/// The sweep may start with `top` as the only pending identifier.
proof fn lemma_sweep_start(orig: Map<Seq<char>, EditorNode>, top: String)
    requires
        orig.dom().finite(),
    ensures
        sweeping(orig, orig, seq![top], top@),
{
    let g = nodes_model(orig);
    let pending = seq![top];
    assert forall|d: Seq<char>| #[trigger] reaches(g, top@, d) && orig.contains_key(d) implies covered(
        g,
        pending,
        d,
    ) by {
        assert(reaches(g, pending[0]@, d));
    }
    assert forall|j: int| 0 <= j < pending.len() implies linked(g, top@, (#[trigger] pending[j])@) by {
        assert(pending[j] == top);
    }
}

/// A pending identifier that is not in the store any more can be dropped.
proof fn lemma_sweep_skip(
    orig: Map<Seq<char>, EditorNode>,
    cur: Map<Seq<char>, EditorNode>,
    pending: Seq<String>,
    top: Seq<char>,
)
    requires
        sweeping(orig, cur, pending, top),
        pending.len() > 0,
        !cur.contains_key(pending.last()@),
    ensures
        sweeping(orig, cur, pending.drop_last(), top),
{
    let g = nodes_model(orig);
    let gc = nodes_model(cur);
    let rest = pending.drop_last();
    assert forall|d: Seq<char>| #[trigger] reaches(g, top, d) && cur.contains_key(d) implies covered(
        gc,
        rest,
        d,
    ) by {
        assert(covered(gc, pending, d));
        let j = choose|j: int| 0 <= j < pending.len() && #[trigger] reaches(gc, pending[j]@, d);
        lemma_reaches_in_store(gc, pending[j]@, d);
        assert(cur.contains_key(pending[j]@));
        assert(j < pending.len() - 1);
        assert(rest[j] == pending[j]);
        assert(reaches(gc, rest[j]@, d));
    }
    assert forall|j: int| 0 <= j < rest.len() implies linked(g, top, (#[trigger] rest[j])@) by {
        assert(rest[j] == pending[j]);
    }
}

/// A pending identifier that is in the store can be taken out of it when
/// its children become pending in its place.
proof fn lemma_sweep_step(
    orig: Map<Seq<char>, EditorNode>,
    cur: Map<Seq<char>, EditorNode>,
    pending: Seq<String>,
    top: Seq<char>,
)
    requires
        sweeping(orig, cur, pending, top),
        pending.len() > 0,
        cur.contains_key(pending.last()@),
    ensures
        sweeping(
            orig,
            cur.remove(pending.last()@),
            pending.drop_last() + cur[pending.last()@].children@,
            top,
        ),
{
    let g = nodes_model(orig);
    let gc = nodes_model(cur);
    let s = pending.last()@;
    let less = cur.remove(s);
    let gl = nodes_model(less);
    let kids = cur[s].children@;
    let rest = pending.drop_last();
    let next = rest + kids;
    assert(gl =~= gc.remove(s));
    assert(pending[pending.len() - 1]@ == s);
    assert(linked(g, top, s));
    assert(orig.contains_key(s));
    assert(g.contains_key(s));
    assert(reaches(g, top, s)) by {
        if s == top {
            lemma_reaches_self(g, top);
        } else {
            let via = choose|via: Seq<char>| #[trigger]
                reaches(g, top, via) && g[via].children.contains(s);
            lemma_reaches_child(g, top, via, s);
        }
    }
    assert(g[s].children == ids_model(kids));
    assert forall|j: int| 0 <= j < next.len() implies linked(g, top, (#[trigger] next[j])@) by {
        if j < rest.len() {
            assert(next[j] == pending[j]);
        } else {
            let m = j - rest.len();
            assert(next[j] == kids[m]);
            assert(g[s].children[m] == kids[m]@);
            assert(g[s].children.contains(kids[m]@));
        }
    }
    assert forall|d: Seq<char>| #[trigger] reaches(g, top, d) && less.contains_key(d) implies covered(
        gl,
        next,
        d,
    ) by {
        assert(cur.contains_key(d));
        assert(covered(gc, pending, d));
        let j = choose|j: int| 0 <= j < pending.len() && #[trigger] reaches(gc, pending[j]@, d);
        let path = choose|path: Seq<Seq<char>>| chain_between(gc, path, pending[j]@, d);
        let (whole, part) = lemma_chain_past(gc, path, s);
        if whole {
            assert(path[0] != s);
            assert(j < pending.len() - 1);
            assert(next[j] == pending[j]);
            assert(chain_between(gl, path, next[j]@, d));
            assert(reaches(gl, next[j]@, d));
        } else {
            let c = part[0];
            assert(gc[s].children == ids_model(kids));
            let m = choose|m: int| 0 <= m < gc[s].children.len() && gc[s].children[m] == c;
            assert(kids[m]@ == c);
            assert(next[rest.len() + m] == kids[m]);
            assert(chain_between(gl, part, next[rest.len() + m]@, d));
            assert(reaches(gl, next[rest.len() + m]@, d));
        }
    }
}

/// When nothing is pending, exactly the nodes below `top` are gone.
proof fn lemma_sweep_done(orig: Map<Seq<char>, EditorNode>, cur: Map<Seq<char>, EditorNode>, top: Seq<char>)
    requires
        sweeping(orig, cur, Seq::<String>::empty(), top),
    ensures
        cur == orig.remove_keys(subtree(nodes_model(orig), top)),
{
    let g = nodes_model(orig);
    let gc = nodes_model(cur);
    assert forall|k: Seq<char>| cur.contains_key(k) implies !reaches(g, top, k) by {
        if reaches(g, top, k) {
            assert(covered(gc, Seq::<String>::empty(), k));
        }
    }
    assert(cur =~= orig.remove_keys(subtree(g, top)));
}

/// Takes `top` and every node below it out of the store. The nodes that
/// stay are not touched.
pub(crate) fn remove_subtree(nodes: &mut StringHashMap<EditorNode>, top: &str)
    requires
        old(nodes)@.dom().finite(),
    ensures
        final(nodes)@ == old(nodes)@.remove_keys(subtree(nodes_model(old(nodes)@), top@)),
{
    let ghost orig = nodes@;
    let mut pending: Vec<String> = Vec::new();
    pending.push(String::from_str(top));
    proof {
        assert(pending@ =~= seq![pending@[0]]);
        lemma_sweep_start(orig, pending@[0]);
    }
    while pending.len() > 0
        invariant
            sweeping(orig, nodes@, pending@, top@),
        decreases nodes@.dom().len(), pending@.len(),
    {
        let ghost waiting = pending@;
        let ghost cur = nodes@;
        let id = pending.pop().unwrap();
        let found = match nodes.get(id.as_str()) {
            Some(node) => Some(duplicate_ids(&node.children)),
            None => None,
        };
        match found {
            Some(kids) => {
                let mut kids = kids;
                proof {
                    lemma_sweep_step(orig, cur, waiting, top@);
                }
                nodes.remove(id.as_str());
                pending.append(&mut kids);
            },
            None => {
                proof {
                    lemma_sweep_skip(orig, cur, waiting, top@);
                }
            },
        }
    }
    proof {
        assert(pending@ =~= Seq::<String>::empty());
        lemma_sweep_done(orig, nodes@, top@);
    }
}

/// A copy of a list of identifiers without the occurrences of `id`; the
/// others keep their order.
pub fn without_id(ids: &Vec<String>, id: &str) -> (kept: Vec<String>)
    ensures
        ids_model(kept@) == ids_model(ids@).filter(is_not(id@)),
{
    let target = String::from_str(id);
    let mut kept: Vec<String> = Vec::new();
    let mut i: usize = 0;
    proof {
        reveal(Seq::filter);
        assert(ids_model(ids@.take(0)) =~= Seq::<Seq<char>>::empty());
        assert(ids_model(kept@) =~= Seq::<Seq<char>>::empty());
    }
    while i < ids.len()
        invariant
            i <= ids@.len(),
            target@ == id@,
            ids_model(kept@) == ids_model(ids@.take(i as int)).filter(is_not(id@)),
        decreases ids@.len() - i,
    {
        let ghost held = kept@;
        proof {
            let upto = ids_model(ids@.take(i + 1));
            assert(upto.drop_last() =~= ids_model(ids@.take(i as int)));
            assert(upto.last() == ids@[i as int]@);
            reveal(Seq::filter);
        }
        if !(ids[i] == target) {
            kept.push(ids[i].clone());
            proof {
                assert(ids_model(kept@) =~= ids_model(held).push(ids@[i as int]@));
            }
        }
        i += 1;
    }
    proof {
        assert(ids@.take(i as int) =~= ids@);
    }
    kept
}

/// Strikes `child_id` from the children of `parent_id`, where that node is
/// in the store.
pub(crate) fn detach_child(nodes: &mut StringHashMap<EditorNode>, parent_id: &str, child_id: &str)
    ensures
        nodes_model(final(nodes)@) == detached(nodes_model(old(nodes)@), parent_id@, child_id@),
{
    let replacement = match nodes.get(parent_id) {
        Some(parent) => Some(
            EditorNode {
                id: parent.id.clone(),
                name: parent.name.clone(),
                node_type: parent.node_type,
                parent_id: duplicate_optional_id(&parent.parent_id),
                children: without_id(&parent.children, child_id),
                properties: parent.properties.duplicate(),
            },
        ),
        None => None,
    };
    match replacement {
        Some(node) => {
            nodes.insert(String::from_str(parent_id), node);
            proof {
                assert(nodes_model(nodes@) =~= detached(nodes_model(old(nodes)@), parent_id@, child_id@));
            }
        },
        None => {
            proof {
                assert(nodes_model(nodes@) =~= detached(nodes_model(old(nodes)@), parent_id@, child_id@));
            }
        },
    }
}

} // verus!
