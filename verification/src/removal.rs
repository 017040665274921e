//! What the removal of a subtree does to a scene: the invariants survive,
//! and the store shrinks by the size of the subtree.

use crate::node::NodeModel;
use crate::reach::{
    chain_between, descendants, lemma_chain_rank, lemma_last_link, lemma_reaches_child,
    lemma_reaches_in_store, lemma_reaches_self, reaches, subtree,
};
use crate::tree::{children_consistent, detached, is_not, parent_listed, ranked, SceneModel};
use vstd::prelude::*;

verus! {

/// Filtering a sequence without repetitions gives a sequence without
/// repetitions.
pub proof fn lemma_filter_no_duplicates(s: Seq<Seq<char>>, keep: spec_fn(Seq<char>) -> bool)
    requires
        s.no_duplicates(),
    ensures
        s.filter(keep).no_duplicates(),
    decreases s.len(),
{
    reveal(Seq::filter);
    if s.len() > 0 {
        let front = s.drop_last();
        assert forall|i: int, j: int| 0 <= i < front.len() && 0 <= j < front.len() && i != j implies front[i]
            != front[j] by {
            assert(front[i] == s[i]);
            assert(front[j] == s[j]);
        }
        lemma_filter_no_duplicates(front, keep);
        let kept = front.filter(keep);
        if keep(s.last()) {
            if kept.contains(s.last()) {
                front.lemma_filter_contains_rev(keep, s.last());
                let k = choose|k: int| 0 <= k < front.len() && front[k] == s.last();
                assert(s[k] == s[s.len() - 1]);
            }
            let out = kept.push(s.last());
            assert forall|i: int, j: int| 0 <= i < out.len() && 0 <= j < out.len() && i != j implies out[i]
                != out[j] by {
                if i < kept.len() {
                    assert(out[i] == kept[i]);
                    assert(kept.contains(kept[i]));
                }
                if j < kept.len() {
                    assert(out[j] == kept[j]);
                    assert(kept.contains(kept[j]));
                }
            }
        }
    }
}

/// In a well-formed scene the subtree of a node holds neither the root nor
/// the node's own parent, unless the node is the root.
pub proof fn lemma_subtree_excludes_ancestors(s: SceneModel, id: Seq<char>)
    requires
        s.well_formed(),
        s.nodes.contains_key(id),
        id != s.root_id,
    ensures
        !reaches(s.nodes, id, s.root_id),
        s.nodes[id].parent_id is Some,
        s.nodes.contains_key(s.nodes[id].parent_id->0),
        !reaches(s.nodes, id, s.nodes[id].parent_id->0),
{
    let g = s.nodes;
    assert(parent_listed(g, id));
    let p = g[id].parent_id->0;
    let rank = choose|rank: spec_fn(Seq<char>) -> nat| ranked(g, rank);
    if reaches(g, id, p) {
        let path = choose|path: Seq<Seq<char>>| chain_between(g, path, id, p);
        lemma_chain_rank(g, rank, path);
        let k = choose|k: int| 0 <= k < g[p].children.len() && g[p].children[k] == id;
        assert(rank(g[p].children[k]) < rank(p));
    }
    if reaches(g, id, s.root_id) {
        let path = choose|path: Seq<Seq<char>>| chain_between(g, path, id, s.root_id);
        let via = lemma_last_link(g, path);
        lemma_reaches_in_store(g, id, via);
        assert(children_consistent(g, via));
        let k = choose|k: int| 0 <= k < g[via].children.len() && g[via].children[k] == s.root_id;
        assert(g[g[via].children[k]].parent_id == Some(via));
    }
}

/// In a well-formed scene, a child of a node outside the subtree of `id`
/// is outside it too, unless it is `id` itself.
pub proof fn lemma_subtree_closed_below(s: SceneModel, id: Seq<char>, n: Seq<char>, c: Seq<char>)
    requires
        s.well_formed(),
        s.nodes.contains_key(n),
        !reaches(s.nodes, id, n),
        s.nodes[n].children.contains(c),
        c != id,
    ensures
        s.nodes.contains_key(c),
        s.nodes[c].parent_id == Some(n),
        !reaches(s.nodes, id, c),
{
    let g = s.nodes;
    assert(children_consistent(g, n));
    let i = choose|i: int| 0 <= i < g[n].children.len() && g[n].children[i] == c;
    assert(g.contains_key(g[n].children[i]));
    if reaches(g, id, c) {
        let path = choose|path: Seq<Seq<char>>| chain_between(g, path, id, c);
        let via = lemma_last_link(g, path);
        lemma_reaches_in_store(g, id, via);
        assert(children_consistent(g, via));
        let k = choose|k: int| 0 <= k < g[via].children.len() && g[via].children[k] == c;
        assert(g[g[via].children[k]].parent_id == Some(via));
    }
}

/// Removing a node other than the root, with its subtree, from a
/// well-formed scene leaves the scene well formed.
pub proof fn lemma_without_subtree_well_formed(s: SceneModel, id: Seq<char>)
    requires
        s.well_formed(),
        s.nodes.contains_key(id),
        id != s.root_id,
    ensures
        s.without_subtree(id).well_formed(),
{
    let g = s.nodes;
    let gone = subtree(g, id);
    let kept = g.remove_keys(gone);
    let t = s.without_subtree(id);
    let h = t.nodes;
    lemma_subtree_excludes_ancestors(s, id);
    lemma_reaches_self(g, id);
    let p = g[id].parent_id->0;
    let thinned = g[p].children.filter(is_not(id));
    assert(kept.contains_key(p));
    assert(h == kept.insert(p, NodeModel { children: thinned, ..g[p] }));
    assert(h.dom() =~= kept.dom());
    assert(kept.dom().subset_of(g.dom()));
    vstd::set_lib::lemma_len_subset(kept.dom(), g.dom());
    assert forall|n: Seq<char>| h.contains_key(n) implies {
        &&& g.contains_key(n)
        &&& !reaches(g, id, n)
        &&& n != id
        &&& h[n].id == g[n].id
        &&& h[n].parent_id == g[n].parent_id
        &&& h[n].node_type == g[n].node_type
        &&& (n != p ==> h[n].children == g[n].children)
    } by {}
    assert(children_consistent(g, p));
    lemma_filter_no_duplicates(g[p].children, is_not(id));
    assert forall|n: Seq<char>, i: int| h.contains_key(n) && 0 <= i < h[n].children.len() implies {
        &&& g[n].children.contains(#[trigger] h[n].children[i])
        &&& h[n].children[i] != id
    } by {
        let c = h[n].children[i];
        if n == p {
            assert(thinned.contains(c));
            g[p].children.lemma_filter_contains_rev(is_not(id), c);
            g[p].children.lemma_filter_pred(is_not(id), i);
        } else {
            assert(g[n].children[i] == c);
            if c == id {
                assert(children_consistent(g, n));
                assert(g[g[n].children[i]].parent_id == Some(n));
            }
        }
    }
    assert forall|n: Seq<char>| h.contains_key(n) implies #[trigger] children_consistent(h, n) by {
        assert(children_consistent(g, n));
        assert forall|i: int| 0 <= i < h[n].children.len() implies {
            &&& h.contains_key(#[trigger] h[n].children[i])
            &&& h[h[n].children[i]].parent_id == Some(n)
        } by {
            let c = h[n].children[i];
            assert(g[n].children.contains(c));
            lemma_subtree_closed_below(s, id, n, c);
        }
    }
    assert forall|n: Seq<char>| h.contains_key(n) && n != t.root_id implies #[trigger] parent_listed(h, n) by {
        assert(parent_listed(g, n));
        let q = g[n].parent_id->0;
        if reaches(g, id, q) {
            lemma_reaches_child(g, id, q, n);
        }
        assert(h.contains_key(q));
        if q == p {
            let i = choose|i: int| 0 <= i < g[p].children.len() && g[p].children[i] == n;
            assert(is_not(id)(g[p].children[i]));
            g[p].children.lemma_filter_contains(is_not(id), i);
        }
    }
    let rank = choose|rank: spec_fn(Seq<char>) -> nat| ranked(g, rank);
    assert forall|n: Seq<char>, i: int|
        #![trigger h[n].children[i]]
        h.contains_key(n) && 0 <= i < h[n].children.len() && h.contains_key(h[n].children[i]) implies rank(
            h[n].children[i],
        ) < rank(n) by {
        let c = h[n].children[i];
        assert(g[n].children.contains(c));
        let k = choose|k: int| 0 <= k < g[n].children.len() && g[n].children[k] == c;
        assert(rank(g[n].children[k]) < rank(n));
    }
    assert(ranked(h, rank));
}

/// Removing a node with its subtree takes exactly the nodes of the subtree
/// out of the store: the node itself and each of its descendants.
pub proof fn lemma_without_subtree_count(s: SceneModel, id: Seq<char>)
    requires
        s.nodes.dom().finite(),
        s.nodes.contains_key(id),
    ensures
        subtree(s.nodes, id).finite(),
        subtree(s.nodes, id).len() == descendants(s.nodes, id).len() + 1,
        s.without_subtree(id).nodes.dom() == s.nodes.dom().difference(subtree(s.nodes, id)),
        s.without_subtree(id).nodes.len() == s.nodes.len() - descendants(s.nodes, id).len() - 1,
{
    let g = s.nodes;
    let gone = subtree(g, id);
    let kept = g.remove_keys(gone);
    assert forall|k: Seq<char>| #[trigger] gone.contains(k) implies g.contains_key(k) by {
        lemma_reaches_in_store(g, id, k);
    }
    assert(gone.subset_of(g.dom()));
    vstd::set_lib::lemma_len_subset(gone, g.dom());
    lemma_reaches_self(g, id);
    assert(gone.contains(id));
    g.lemma_remove_keys_len(gone);
    assert(kept.dom() =~= g.dom().difference(gone));
    assert(s.without_subtree(id).nodes.dom() =~= kept.dom());
}

} // verus!
