//! Chains of child links, and the set of nodes that lie below a node.

use crate::node::NodeModel;
use crate::tree::{acyclic, ranked};
use vstd::prelude::*;

verus! {

/// The node at position `i + 1` of `path` is listed as a child of the node
/// at position `i`.
pub open spec fn link_at(nodes: Map<Seq<char>, NodeModel>, path: Seq<Seq<char>>, i: int) -> bool {
    nodes[path[i]].children.contains(path[i + 1])
}

/// `path` is a non-empty sequence of nodes of the store in which every node
/// but the first is listed as a child of the one before it.
pub open spec fn is_chain(nodes: Map<Seq<char>, NodeModel>, path: Seq<Seq<char>>) -> bool {
    &&& path.len() > 0
    &&& forall|i: int| 0 <= i < path.len() ==> nodes.contains_key(#[trigger] path[i])
    &&& forall|i: int| 0 <= i < path.len() - 1 ==> #[trigger] link_at(nodes, path, i)
}

/// `path` is a chain that starts at `from` and ends at `to`.
pub open spec fn chain_between(
    nodes: Map<Seq<char>, NodeModel>,
    path: Seq<Seq<char>>,
    from: Seq<char>,
    to: Seq<char>,
) -> bool {
    is_chain(nodes, path) && path[0] == from && path.last() == to
}

/// `to` is `from` itself or one of its descendants: a chain of child links
/// through nodes of the store leads from `from` to `to`.
pub open spec fn reaches(nodes: Map<Seq<char>, NodeModel>, from: Seq<char>, to: Seq<char>) -> bool {
    exists|path: Seq<Seq<char>>| chain_between(nodes, path, from, to)
}

/// The node `top` together with all its descendants.
pub open spec fn subtree(nodes: Map<Seq<char>, NodeModel>, top: Seq<char>) -> Set<Seq<char>> {
    Set::new(|id: Seq<char>| reaches(nodes, top, id))
}

/// The descendants of `top`: the nodes below it, without `top` itself.
pub open spec fn descendants(nodes: Map<Seq<char>, NodeModel>, top: Seq<char>) -> Set<Seq<char>> {
    subtree(nodes, top).remove(top)
}

/// Every node of the store reaches itself.
pub proof fn lemma_reaches_self(nodes: Map<Seq<char>, NodeModel>, id: Seq<char>)
    requires
        nodes.contains_key(id),
    ensures
        reaches(nodes, id, id),
{
    let path = seq![id];
    assert(chain_between(nodes, path, id, id));
}

/// Both ends of a chain are in the store.
pub proof fn lemma_reaches_in_store(nodes: Map<Seq<char>, NodeModel>, from: Seq<char>, to: Seq<char>)
    requires
        reaches(nodes, from, to),
    ensures
        nodes.contains_key(from),
        nodes.contains_key(to),
{
    let path = choose|path: Seq<Seq<char>>| chain_between(nodes, path, from, to);
    assert(nodes.contains_key(path[0]));
    assert(nodes.contains_key(path[path.len() - 1]));
}

/// A chain followed by a child of its last node is a chain.
pub proof fn lemma_chain_push(nodes: Map<Seq<char>, NodeModel>, path: Seq<Seq<char>>, child: Seq<char>)
    requires
        is_chain(nodes, path),
        nodes[path.last()].children.contains(child),
        nodes.contains_key(child),
    ensures
        is_chain(nodes, path.push(child)),
        path.push(child)[0] == path[0],
        path.push(child).last() == child,
{
    let longer = path.push(child);
    assert forall|i: int| 0 <= i < longer.len() implies nodes.contains_key(#[trigger] longer[i]) by {
        if i < path.len() {
            assert(longer[i] == path[i]);
        }
    }
    assert forall|i: int| 0 <= i < longer.len() - 1 implies #[trigger] link_at(nodes, longer, i) by {
        if i < path.len() - 1 {
            assert(link_at(nodes, path, i));
        }
    }
}

/// A chain can be extended by a child of its last node.
pub proof fn lemma_reaches_child(
    nodes: Map<Seq<char>, NodeModel>,
    from: Seq<char>,
    via: Seq<char>,
    child: Seq<char>,
)
    requires
        reaches(nodes, from, via),
        nodes[via].children.contains(child),
        nodes.contains_key(child),
    ensures
        reaches(nodes, from, child),
{
    let path = choose|path: Seq<Seq<char>>| chain_between(nodes, path, from, via);
    lemma_chain_push(nodes, path, child);
    assert(chain_between(nodes, path.push(child), from, child));
}

/// What a child reaches, the node that lists the child reaches too.
pub proof fn lemma_reaches_through_child(
    nodes: Map<Seq<char>, NodeModel>,
    from: Seq<char>,
    child: Seq<char>,
    to: Seq<char>,
)
    requires
        nodes.contains_key(from),
        nodes[from].children.contains(child),
        reaches(nodes, child, to),
    ensures
        reaches(nodes, from, to),
{
    let path = choose|path: Seq<Seq<char>>| chain_between(nodes, path, child, to);
    let longer = seq![from] + path;
    assert forall|i: int| 0 <= i < longer.len() implies nodes.contains_key(#[trigger] longer[i]) by {
        if i > 0 {
            assert(longer[i] == path[i - 1]);
        }
    }
    assert forall|i: int| 0 <= i < longer.len() - 1 implies #[trigger] link_at(nodes, longer, i) by {
        if i > 0 {
            assert(link_at(nodes, path, i - 1));
            assert(longer[i] == path[i - 1]);
            assert(longer[i + 1] == path[i]);
        } else {
            assert(longer[1] == path[0]);
        }
    }
    assert(longer.last() == path.last());
    assert(chain_between(nodes, longer, from, to));
}

/// In a store whose child links carry a falling rank, the rank is lower at
/// every later position of a chain.
pub proof fn lemma_chain_ranks_fall(
    nodes: Map<Seq<char>, NodeModel>,
    rank: spec_fn(Seq<char>) -> nat,
    path: Seq<Seq<char>>,
    i: int,
    j: int,
)
    requires
        ranked(nodes, rank),
        is_chain(nodes, path),
        0 <= i < j < path.len(),
    ensures
        rank(path[j]) < rank(path[i]),
    decreases j - i,
{
    assert(link_at(nodes, path, j - 1));
    let via = path[j - 1];
    assert(nodes.contains_key(via));
    assert(nodes.contains_key(path[j]));
    let k = choose|k: int| 0 <= k < nodes[via].children.len() && nodes[via].children[k] == path[j];
    assert(rank(nodes[via].children[k]) < rank(via));
    if i < j - 1 {
        lemma_chain_ranks_fall(nodes, rank, path, i, j - 1);
    }
}

/// In a finite store without cycles no chain is longer than the number of
/// nodes.
pub proof fn lemma_chain_length(nodes: Map<Seq<char>, NodeModel>, path: Seq<Seq<char>>)
    requires
        acyclic(nodes),
        nodes.dom().finite(),
        is_chain(nodes, path),
    ensures
        path.len() <= nodes.dom().len(),
{
    let rank = choose|rank: spec_fn(Seq<char>) -> nat| ranked(nodes, rank);
    assert forall|i: int, j: int| 0 <= i < path.len() && 0 <= j < path.len() && i != j implies path[i]
        != path[j] by {
        if i < j {
            lemma_chain_ranks_fall(nodes, rank, path, i, j);
        } else {
            lemma_chain_ranks_fall(nodes, rank, path, j, i);
        }
    }
    path.unique_seq_to_set();
    assert forall|x: Seq<char>| path.to_set().contains(x) implies nodes.dom().contains(x) by {
        let i = choose|i: int| 0 <= i < path.len() && path[i] == x;
        assert(nodes.contains_key(path[i]));
    }
    assert(path.to_set().subset_of(nodes.dom()));
    vstd::set_lib::lemma_len_subset(path.to_set(), nodes.dom());
}

/// A chain without its last node is a chain.
pub proof fn lemma_chain_drop_last(nodes: Map<Seq<char>, NodeModel>, path: Seq<Seq<char>>)
    requires
        is_chain(nodes, path),
        path.len() > 1,
    ensures
        is_chain(nodes, path.drop_last()),
        path.drop_last()[0] == path[0],
        nodes[path.drop_last().last()].children.contains(path.last()),
{
    let shorter = path.drop_last();
    assert forall|i: int| 0 <= i < shorter.len() implies nodes.contains_key(#[trigger] shorter[i]) by {
        assert(shorter[i] == path[i]);
    }
    assert forall|i: int| 0 <= i < shorter.len() - 1 implies #[trigger] link_at(nodes, shorter, i) by {
        assert(link_at(nodes, path, i));
    }
    assert(link_at(nodes, path, path.len() - 2));
}

/// A chain without its first node is a chain.
pub proof fn lemma_chain_skip_first(nodes: Map<Seq<char>, NodeModel>, path: Seq<Seq<char>>)
    requires
        is_chain(nodes, path),
        path.len() > 1,
    ensures
        is_chain(nodes, path.skip(1)),
        path.skip(1).last() == path.last(),
        path.skip(1)[0] == path[1],
        nodes[path[0]].children.contains(path[1]),
{
    let tail = path.skip(1);
    assert forall|i: int| 0 <= i < tail.len() implies nodes.contains_key(#[trigger] tail[i]) by {
        assert(tail[i] == path[i + 1]);
    }
    assert forall|i: int| 0 <= i < tail.len() - 1 implies #[trigger] link_at(nodes, tail, i) by {
        assert(link_at(nodes, path, i + 1));
    }
    assert(link_at(nodes, path, 0));
}

/// A chain that stays clear of `gone` is a chain of the store without
/// `gone`.
pub proof fn lemma_chain_clear(nodes: Map<Seq<char>, NodeModel>, path: Seq<Seq<char>>, gone: Seq<char>)
    requires
        is_chain(nodes, path),
        forall|i: int| 0 <= i < path.len() ==> #[trigger] path[i] != gone,
    ensures
        is_chain(nodes.remove(gone), path),
{
    let less = nodes.remove(gone);
    assert forall|i: int| 0 <= i < path.len() - 1 implies #[trigger] link_at(less, path, i) by {
        assert(link_at(nodes, path, i));
        assert(path[i] != gone);
    }
}

/// A chain of more than one node arrives at its end from a node that the
/// start reaches and that lists the end as a child.
pub proof fn lemma_last_link(nodes: Map<Seq<char>, NodeModel>, path: Seq<Seq<char>>) -> (via: Seq<char>)
    requires
        is_chain(nodes, path),
        path.len() > 1,
    ensures
        reaches(nodes, path[0], via),
        nodes[via].children.contains(path.last()),
{
    lemma_chain_drop_last(nodes, path);
    let shorter = path.drop_last();
    assert(chain_between(nodes, shorter, path[0], shorter.last()));
    shorter.last()
}

/// Along a chain a rank never rises, and it falls where the chain has more
/// than one node.
pub proof fn lemma_chain_rank(
    nodes: Map<Seq<char>, NodeModel>,
    rank: spec_fn(Seq<char>) -> nat,
    path: Seq<Seq<char>>,
)
    requires
        ranked(nodes, rank),
        is_chain(nodes, path),
    ensures
        rank(path.last()) <= rank(path[0]),
        path.len() > 1 ==> rank(path.last()) < rank(path[0]),
    decreases path.len(),
{
    if path.len() > 1 {
        lemma_chain_drop_last(nodes, path);
        let shorter = path.drop_last();
        lemma_chain_rank(nodes, rank, shorter);
        let via = shorter.last();
        let end = path.last();
        assert(nodes.contains_key(via));
        assert(nodes.contains_key(path[path.len() - 1]));
        let k = choose|k: int| 0 <= k < nodes[via].children.len() && nodes[via].children[k] == end;
        assert(rank(nodes[via].children[k]) < rank(via));
    }
}

/// Where a chain does not end at `gone`, the part of it behind its last
/// visit to `gone` is a chain of the store without `gone`. That part is
/// the whole chain if `gone` is not on it (the first result is then true),
/// and otherwise starts at a child of `gone`.
pub proof fn lemma_chain_past(nodes: Map<Seq<char>, NodeModel>, path: Seq<Seq<char>>, gone: Seq<char>) -> (r: (
    bool,
    Seq<Seq<char>>,
))
    requires
        is_chain(nodes, path),
        path.last() != gone,
    ensures
        is_chain(nodes.remove(gone), r.1),
        r.1.last() == path.last(),
        r.0 ==> r.1 == path && forall|i: int| 0 <= i < path.len() ==> #[trigger] path[i] != gone,
        !r.0 ==> nodes.contains_key(gone) && nodes[gone].children.contains(r.1[0]),
    decreases path.len(),
{
    if path.len() == 1 {
        lemma_chain_clear(nodes, path, gone);
        (true, path)
    } else {
        lemma_chain_skip_first(nodes, path);
        let tail = path.skip(1);
        let (whole, rest) = lemma_chain_past(nodes, tail, gone);
        if path[0] == gone {
            assert(nodes.contains_key(path[0]));
            (false, rest)
        } else if whole {
            assert forall|i: int| 0 <= i < path.len() implies #[trigger] path[i] != gone by {
                if i > 0 {
                    assert(tail[i - 1] == path[i]);
                }
            }
            lemma_chain_clear(nodes, path, gone);
            (true, path)
        } else {
            (false, rest)
        }
    }
}

} // verus!
