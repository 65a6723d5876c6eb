//! Reachability in a directed graph of page identifiers, and what it means
//! for a node to be an orphan.

use vstd::prelude::*;

verus! {

/// A walk along the edges: at least one node, each joined to the next by an
/// edge in its direction.
pub open spec fn is_walk(edges: Set<(Seq<char>, Seq<char>)>, walk: Seq<Seq<char>>) -> bool {
    &&& walk.len() > 0
    &&& forall|i: int|
        0 <= i < walk.len() - 1 ==> edges.contains((#[trigger] walk[i], walk[i + 1]))
}

/// Some walk leads from `from` to `to`. Every node reaches itself.
pub open spec fn reachable(
    edges: Set<(Seq<char>, Seq<char>)>,
    from: Seq<char>,
    to: Seq<char>,
) -> bool {
    exists|walk: Seq<Seq<char>>| #[trigger]
        is_walk(edges, walk) && walk.first() == from && walk.last() == to
}

/// Everything that a walk from `root` reaches, `root` included.
pub open spec fn reachable_from(edges: Set<(Seq<char>, Seq<char>)>, root: Seq<char>) -> Set<
    Seq<char>,
> {
    Set::new(|node: Seq<char>| reachable(edges, root, node))
}

/// The orphans: the nodes that no walk from `root` reaches.
pub open spec fn orphans_of(
    nodes: Set<Seq<char>>,
    edges: Set<(Seq<char>, Seq<char>)>,
    root: Seq<char>,
) -> Set<Seq<char>> {
    nodes.difference(reachable_from(edges, root))
}

/// The root is never an orphan, whether the graph holds it or not.
pub proof fn lemma_root_is_no_orphan(
    nodes: Set<Seq<char>>,
    edges: Set<(Seq<char>, Seq<char>)>,
    root: Seq<char>,
)
    ensures
        reachable(edges, root, root),
        !orphans_of(nodes, edges, root).contains(root),
{
    assert(is_walk(edges, seq![root]) && seq![root].first() == root && seq![root].last() == root);
}

/// A node other than the root that no edge enters and no edge leaves is
/// always an orphan.
pub proof fn lemma_isolated_is_orphan(
    nodes: Set<Seq<char>>,
    edges: Set<(Seq<char>, Seq<char>)>,
    root: Seq<char>,
    node: Seq<char>,
)
    requires
        nodes.contains(node),
        node != root,
        forall|edge: (Seq<char>, Seq<char>)| #[trigger]
            edges.contains(edge) ==> edge.0 != node && edge.1 != node,
    ensures
        orphans_of(nodes, edges, root).contains(node),
{
    if reachable(edges, root, node) {
        let walk = choose|walk: Seq<Seq<char>>| #[trigger]
            is_walk(edges, walk) && walk.first() == root && walk.last() == node;
        let before = walk.len() - 2;
        assert(edges.contains((walk[before], walk[before + 1])));
    }
}

/// Every edge joins two nodes.
pub open spec fn edges_join_nodes(nodes: Set<Seq<char>>, edges: Set<(Seq<char>, Seq<char>)>) -> bool {
    forall|edge: (Seq<char>, Seq<char>)| #[trigger]
        edges.contains(edge) ==> nodes.contains(edge.0) && nodes.contains(edge.1)
}

/// Where the root is no node of the graph, the walk visits nothing in it and
/// every node is an orphan.
pub proof fn lemma_absent_root_orphans_all(
    nodes: Set<Seq<char>>,
    edges: Set<(Seq<char>, Seq<char>)>,
    root: Seq<char>,
)
    requires
        edges_join_nodes(nodes, edges),
        !nodes.contains(root),
    ensures
        orphans_of(nodes, edges, root) == nodes,
{
    assert forall|node: Seq<char>| nodes.contains(node) implies !reachable(edges, root, node) by {
        if reachable(edges, root, node) {
            let walk = choose|walk: Seq<Seq<char>>| #[trigger]
                is_walk(edges, walk) && walk.first() == root && walk.last() == node;
            assert(edges.contains((walk[0], walk[1])));
        }
    }
    assert(orphans_of(nodes, edges, root) =~= nodes);
}

/// What an edge leads to from a node that is no orphan is no orphan either.
pub proof fn lemma_non_orphans_follow_edges(
    nodes: Set<Seq<char>>,
    edges: Set<(Seq<char>, Seq<char>)>,
    root: Seq<char>,
    node: Seq<char>,
    next: Seq<char>,
)
    requires
        edges_join_nodes(nodes, edges),
        nodes.contains(node),
        !orphans_of(nodes, edges, root).contains(node),
        edges.contains((node, next)),
    ensures
        nodes.contains(next),
        !orphans_of(nodes, edges, root).contains(next),
{
    let walk = choose|walk: Seq<Seq<char>>| #[trigger]
        is_walk(edges, walk) && walk.first() == root && walk.last() == node;
    let longer = walk.push(next);
    assert forall|i: int| 0 <= i < longer.len() - 1 implies edges.contains(
        (#[trigger] longer[i], longer[i + 1]),
    ) by {
        if i < walk.len() - 1 {
            assert(edges.contains((walk[i], walk[i + 1])));
        }
    }
    assert(is_walk(edges, longer) && longer.first() == root && longer.last() == next);
}

} // verus!
