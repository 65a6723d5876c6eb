//! The page graph: built from a linkage map, and searched for orphans.
//!
//! The graph is petgraph's `GraphMap` over borrowed page identifiers. It is
//! opaque here: two uninterpreted functions name its nodes and its labelled
//! edges, a third names what a depth-first search has yet to emit, and the
//! wrappers below say how the methods that the library calls act on them.
//! An edge leads from the page that links to the page that is linked to.

use crate::linkage::LinkageMap;
use crate::reach::{
    edges_join_nodes, lemma_absent_root_orphans_all, lemma_root_is_no_orphan, orphans_of,
    reachable_from,
};
use crate::views::{lemma_string_views_push, string_views};
use petgraph::graphmap::GraphMap;
use petgraph::visit::Dfs;
use petgraph::Directed;
use std::collections::HashSet;
use std::hash::BuildHasher;
use vstd::hash_set::StringHashSet;
use vstd::prelude::*;

verus! {

/// petgraph's `GraphMap`, taken as it is: a graph whose nodes are the node
/// values themselves.
#[verifier::external_type_specification]
#[verifier::external_body]
#[verifier::reject_recursive_types(N)]
#[verifier::reject_recursive_types(E)]
#[verifier::reject_recursive_types(Ty)]
#[verifier::reject_recursive_types(S)]
pub struct ExGraphMap<N, E, Ty, S: BuildHasher>(GraphMap<N, E, Ty, S>);

/// petgraph's `Directed`, the marker of a graph whose edges have a direction.
#[verifier::external_type_specification]
#[verifier::external_body]
pub struct ExDirected(Directed);

/// petgraph's `Dfs`, the state of a depth-first search.
#[verifier::external_type_specification]
#[verifier::external_body]
#[verifier::reject_recursive_types(N)]
#[verifier::reject_recursive_types(VM)]
pub struct ExDfs<N, VM>(Dfs<N, VM>);

/// The label that every edge of a page graph carries.
pub const EDGE_LABEL: &'static str = "links";

/// The identifiers that are nodes of `graph`.
pub uninterp spec fn graph_nodes(graph: GraphMap<&str, &str, Directed>) -> Set<Seq<char>>;

/// The edges of `graph` with their labels, each edge as the pair of the node
/// it leaves and the node it enters.
pub uninterp spec fn graph_labels(graph: GraphMap<&str, &str, Directed>) -> Map<
    (Seq<char>, Seq<char>),
    Seq<char>,
>;

/// The edges of `graph`, each as the pair of the node it leaves and the node
/// it enters.
pub open spec fn graph_edges(graph: GraphMap<&str, &str, Directed>) -> Set<(Seq<char>, Seq<char>)> {
    graph_labels(graph).dom()
}

/// The nodes that the search `dfs` has yet to emit when it goes on over
/// `graph`, in the order in which it will emit them.
pub uninterp spec fn dfs_pending(
    dfs: Dfs<&str, HashSet<&str>>,
    graph: GraphMap<&str, &str, Directed>,
) -> Seq<Seq<char>>;

/// The character sequences of a sequence of string slices, in the same order.
pub open spec fn str_views(strings: Seq<&str>) -> Seq<Seq<char>> {
    Seq::new(strings.len(), |i: int| strings[i]@)
}

/// `GraphMap::new`: a graph without nodes or edges.
#[verifier::external_body]
fn new_graph<'a>() -> (graph: GraphMap<&'a str, &'a str, Directed>)
    ensures
        graph_nodes(graph) == Set::<Seq<char>>::empty(),
        graph_edges(graph) == Set::<(Seq<char>, Seq<char>)>::empty(),
{
    GraphMap::new()
}

/// `GraphMap::add_node`: the node is in the graph afterwards, and nothing
/// else changes.
#[verifier::external_body]
fn add_node<'a>(graph: &mut GraphMap<&'a str, &'a str, Directed>, node: &'a str)
    ensures
        graph_nodes(*final(graph)) == graph_nodes(*old(graph)).insert(node@),
        graph_labels(*final(graph)) == graph_labels(*old(graph)),
{
    graph.add_node(node);
}

/// `GraphMap::add_edge`: the edge from `from` to `to` is in the graph
/// afterwards and carries `label`; where it is new, its two ends are nodes
/// afterwards. An edge that the graph held already is not held twice.
#[verifier::external_body]
fn add_edge<'a>(
    graph: &mut GraphMap<&'a str, &'a str, Directed>,
    from: &'a str,
    to: &'a str,
    label: &'a str,
)
    ensures
        graph_labels(*final(graph)) == graph_labels(*old(graph)).insert((from@, to@), label@),
        graph_nodes(*final(graph)) == if graph_labels(*old(graph)).contains_key((from@, to@)) {
            graph_nodes(*old(graph))
        } else {
            graph_nodes(*old(graph)).insert(from@).insert(to@)
        },
{
    graph.add_edge(from, to, label);
}

/// `names` lists every node once, and every edge joins two of the nodes.
pub open spec fn lists_nodes(
    names: Seq<Seq<char>>,
    nodes: Set<Seq<char>>,
    edges: Set<(Seq<char>, Seq<char>)>,
) -> bool {
    &&& names.no_duplicates()
    &&& names.to_set() == nodes
    &&& edges_join_nodes(nodes, edges)
}

/// `GraphMap::nodes`: every node of the graph, once. The ends of every edge
/// are among them, as a `GraphMap` adds both with the edge and removes the
/// edges of a node with the node.
#[verifier::external_body]
fn node_list<'a>(graph: &GraphMap<&'a str, &'a str, Directed>) -> (nodes: Vec<&'a str>)
    ensures
        lists_nodes(str_views(nodes@), graph_nodes(*graph), graph_edges(*graph)),
{
    graph.nodes().collect()
}

/// `Dfs::new`: a search that will emit, each once, the start node and every
/// node that a walk along the edges reaches from it.
#[verifier::external_body]
fn dfs_new<'a>(graph: &GraphMap<&'a str, &'a str, Directed>, start: &'a str) -> (dfs: Dfs<
    &'a str,
    HashSet<&'a str>,
>)
    ensures
        dfs_pending(dfs, *graph).no_duplicates(),
        dfs_pending(dfs, *graph).to_set() == reachable_from(graph_edges(*graph), start@),
{
    Dfs::new(graph, start)
}

/// `Dfs::next`: emits the first of the pending nodes and leaves the rest
/// pending, or returns `None` when none is pending.
#[verifier::external_body]
fn dfs_next<'a>(
    dfs: &mut Dfs<&'a str, HashSet<&'a str>>,
    graph: &GraphMap<&'a str, &'a str, Directed>,
) -> (next: Option<&'a str>)
    ensures
        match next {
            Some(node) => dfs_pending(*old(dfs), *graph).len() > 0 && node@ == dfs_pending(
                *old(dfs),
                *graph,
            )[0] && dfs_pending(*final(dfs), *graph) == dfs_pending(*old(dfs), *graph).drop_first(),
            None => dfs_pending(*old(dfs), *graph).len() == 0 && dfs_pending(*final(dfs), *graph)
                == dfs_pending(*old(dfs), *graph),
        },
{
    dfs.next(graph)
}

/// The nodes of the graph of a linkage map: every page, and every identifier
/// that a page links to, whether it is a page itself or not.
pub open spec fn linkage_nodes(links: Map<Seq<char>, Seq<Seq<char>>>) -> Set<Seq<char>> {
    Set::new(
        |node: Seq<char>|
            links.contains_key(node) || exists|page: Seq<char>|
                links.contains_key(page) && #[trigger] links[page].contains(node),
    )
}

/// The edges of the graph of a linkage map: one from a page to each
/// identifier that it links to, however often it does.
pub open spec fn linkage_edges(links: Map<Seq<char>, Seq<Seq<char>>>) -> Set<
    (Seq<char>, Seq<char>),
> {
    Set::new(
        |edge: (Seq<char>, Seq<char>)| links.contains_key(edge.0) && links[edge.0].contains(edge.1),
    )
}

/// The labelled edges of the graph of a linkage map: its edges, each with
/// the one label that all edges carry.
pub open spec fn linkage_labels(links: Map<Seq<char>, Seq<Seq<char>>>) -> Map<
    (Seq<char>, Seq<char>),
    Seq<char>,
> {
    Map::new(
        |edge: (Seq<char>, Seq<char>)| linkage_edges(links).contains(edge),
        |edge: (Seq<char>, Seq<char>)| EDGE_LABEL@,
    )
}

/// The nodes that one page and its links call for.
spec fn entry_nodes(page: Seq<char>, links: Seq<Seq<char>>) -> Set<Seq<char>> {
    links.to_set().insert(page)
}

/// The edges that one page and its links call for.
spec fn entry_edges(page: Seq<char>, links: Seq<Seq<char>>) -> Set<(Seq<char>, Seq<char>)> {
    Set::new(|edge: (Seq<char>, Seq<char>)| edge.0 == page && links.contains(edge.1))
}

/// Every edge carries the one label.
spec fn uniformly_labelled(labels: Map<(Seq<char>, Seq<char>), Seq<char>>) -> bool {
    forall|edge: (Seq<char>, Seq<char>)| #[trigger]
        labels.contains_key(edge) ==> labels[edge] == EDGE_LABEL@
}

/// The nodes that the first `count` entries call for.
spec fn prefix_nodes(pages: Seq<Seq<char>>, links: Seq<Seq<Seq<char>>>, count: int) -> Set<
    Seq<char>,
> {
    Set::new(
        |node: Seq<char>|
            exists|at: int|
                0 <= at < count && #[trigger] entry_nodes(pages[at], links[at]).contains(node),
    )
}

/// The edges that the first `count` entries call for.
spec fn prefix_edges(pages: Seq<Seq<char>>, links: Seq<Seq<Seq<char>>>, count: int) -> Set<
    (Seq<char>, Seq<char>),
> {
    Set::new(
        |edge: (Seq<char>, Seq<char>)|
            exists|at: int|
                0 <= at < count && #[trigger] entry_edges(pages[at], links[at]).contains(edge),
    )
}

/// One more entry adds what it calls for.
proof fn lemma_prefix_step(pages: Seq<Seq<char>>, links: Seq<Seq<Seq<char>>>, count: int)
    requires
        0 <= count,
    ensures
        prefix_nodes(pages, links, count + 1) == prefix_nodes(pages, links, count).union(
            entry_nodes(pages[count], links[count]),
        ),
        prefix_edges(pages, links, count + 1) == prefix_edges(pages, links, count).union(
            entry_edges(pages[count], links[count]),
        ),
{
    let nodes = prefix_nodes(pages, links, count).union(entry_nodes(pages[count], links[count]));
    assert forall|node: Seq<char>| nodes.contains(node) implies prefix_nodes(
        pages,
        links,
        count + 1,
    ).contains(node) by {
        if entry_nodes(pages[count], links[count]).contains(node) {
        } else {
            let at = choose|at: int|
                0 <= at < count && #[trigger] entry_nodes(pages[at], links[at]).contains(node);
            assert(entry_nodes(pages[at], links[at]).contains(node));
        }
    }
    assert(prefix_nodes(pages, links, count + 1) =~= nodes);
    let edges = prefix_edges(pages, links, count).union(entry_edges(pages[count], links[count]));
    assert forall|edge: (Seq<char>, Seq<char>)| edges.contains(edge) implies prefix_edges(
        pages,
        links,
        count + 1,
    ).contains(edge) by {
        if entry_edges(pages[count], links[count]).contains(edge) {
        } else {
            let at = choose|at: int|
                0 <= at < count && #[trigger] entry_edges(pages[at], links[at]).contains(edge);
            assert(entry_edges(pages[at], links[at]).contains(edge));
        }
    }
    assert(prefix_edges(pages, links, count + 1) =~= edges);
}

/// One more link of a page adds its target and the edge to it.
proof fn lemma_entry_step(page: Seq<char>, links: Seq<Seq<char>>, count: int)
    requires
        0 <= count < links.len(),
    ensures
        entry_nodes(page, links.take(count + 1)) == entry_nodes(page, links.take(count)).insert(
            links[count],
        ),
        entry_edges(page, links.take(count + 1)) == entry_edges(page, links.take(count)).insert(
            (page, links[count]),
        ),
{
    let shorter = links.take(count);
    let longer = links.take(count + 1);
    assert(longer =~= shorter.push(links[count]));
    assert forall|node: Seq<char>| longer.contains(node) <==> shorter.contains(node) || node
        == links[count] by {
        if shorter.contains(node) {
            let at = choose|at: int| 0 <= at < shorter.len() && shorter[at] == node;
            assert(longer[at] == node);
        }
        if node == links[count] {
            assert(longer[count] == node);
        }
    }
    assert(entry_nodes(page, longer) =~= entry_nodes(page, shorter).insert(links[count]));
    assert(entry_edges(page, longer) =~= entry_edges(page, shorter).insert((page, links[count])));
}

/// All the entries together call for the graph of the mapping.
proof fn lemma_prefix_whole(data: &LinkageMap)
    requires
        data.well_formed(),
    ensures
        prefix_nodes(data.pages(), data.links(), data.pages().len() as int) == linkage_nodes(data@),
        prefix_edges(data.pages(), data.links(), data.pages().len() as int) == linkage_edges(data@),
{
    data.lemma_entries();
    let pages = data.pages();
    let links = data.links();
    let count = pages.len() as int;
    assert forall|node: Seq<char>| linkage_nodes(data@).contains(node) implies prefix_nodes(
        pages,
        links,
        count,
    ).contains(node) by {
        let page = if data@.contains_key(node) {
            node
        } else {
            choose|page: Seq<char>| data@.contains_key(page) && #[trigger] data@[page].contains(node)
        };
        assert(pages.contains(page));
        let at = choose|at: int| 0 <= at < pages.len() && pages[at] == page;
        assert(data@[pages[at]] == links[at]);
        assert(entry_nodes(pages[at], links[at]).contains(node));
    }
    assert forall|node: Seq<char>| prefix_nodes(pages, links, count).contains(
        node,
    ) implies linkage_nodes(data@).contains(node) by {
        let at = choose|at: int|
            0 <= at < count && #[trigger] entry_nodes(pages[at], links[at]).contains(node);
        assert(data@[pages[at]] == links[at]);
        assert(pages.contains(pages[at]));
        if node != pages[at] {
            assert(data@[pages[at]].contains(node));
        }
    }
    assert(prefix_nodes(pages, links, count) =~= linkage_nodes(data@));
    assert forall|edge: (Seq<char>, Seq<char>)| linkage_edges(data@).contains(
        edge,
    ) implies prefix_edges(pages, links, count).contains(edge) by {
        assert(pages.contains(edge.0));
        let at = choose|at: int| 0 <= at < pages.len() && pages[at] == edge.0;
        assert(data@[pages[at]] == links[at]);
        assert(entry_edges(pages[at], links[at]).contains(edge));
    }
    assert forall|edge: (Seq<char>, Seq<char>)| prefix_edges(pages, links, count).contains(
        edge,
    ) implies linkage_edges(data@).contains(edge) by {
        let at = choose|at: int|
            0 <= at < count && #[trigger] entry_edges(pages[at], links[at]).contains(edge);
        assert(data@[pages[at]] == links[at]);
        assert(pages.contains(pages[at]));
    }
    assert(prefix_edges(pages, links, count) =~= linkage_edges(data@));
}

/// Builds the page graph of a linkage map: a node for every page and for
/// every identifier that a page links to, and an edge from each page to each
/// of its targets, labelled like every other. A target that is no page of the
/// mapping is a node without outgoing edges.
pub fn make_page_graph<'a>(data: &'a LinkageMap) -> (graph: GraphMap<&'a str, &'a str, Directed>)
    ensures
        graph_nodes(graph) == linkage_nodes(data@),
        graph_edges(graph) == linkage_edges(data@),
        graph_labels(graph) == linkage_labels(data@),
        edges_join_nodes(graph_nodes(graph), graph_edges(graph)),
        forall|page: Seq<char>, at: int|
            data@.contains_key(page) && 0 <= at < data@[page].len() ==> graph_nodes(graph).contains(
                #[trigger] data@[page][at],
            ),
{
    let mut graph = new_graph();
    let count = data.len();
    let mut i: usize = 0;
    proof {
        use_type_invariant(data);
        data.lemma_entries();
        assert(prefix_nodes(data.pages(), data.links(), 0) =~= Set::<Seq<char>>::empty());
        assert(prefix_edges(data.pages(), data.links(), 0) =~= Set::<
            (Seq<char>, Seq<char>),
        >::empty());
    }
    while i < count
        invariant
            i <= count,
            count == data.pages().len(),
            data.links().len() == data.pages().len(),
            graph_nodes(graph) == prefix_nodes(data.pages(), data.links(), i as int),
            graph_edges(graph) == prefix_edges(data.pages(), data.links(), i as int),
            uniformly_labelled(graph_labels(graph)),
        decreases count - i,
    {
        let page = data.page_at(i);
        let links = data.links_at(i);
        let ghost before_nodes = graph_nodes(graph);
        let ghost before_edges = graph_edges(graph);
        add_node(&mut graph, page);
        let mut j: usize = 0;
        proof {
            assert(string_views(links@).take(0) =~= Seq::<Seq<char>>::empty());
            assert(graph_nodes(graph) =~= before_nodes.union(
                entry_nodes(page@, string_views(links@).take(0)),
            ));
            assert(graph_edges(graph) =~= before_edges.union(
                entry_edges(page@, string_views(links@).take(0)),
            ));
        }
        while j < links.len()
            invariant
                j <= links.len(),
                graph_nodes(graph) == before_nodes.union(
                    entry_nodes(page@, string_views(links@).take(j as int)),
                ),
                graph_edges(graph) == before_edges.union(
                    entry_edges(page@, string_views(links@).take(j as int)),
                ),
                uniformly_labelled(graph_labels(graph)),
            decreases links.len() - j,
        {
            let target = links[j].as_str();
            proof {
                lemma_entry_step(page@, string_views(links@), j as int);
            }
            add_node(&mut graph, target);
            add_edge(&mut graph, page, target, EDGE_LABEL);
            proof {
                assert(graph_nodes(graph) =~= before_nodes.union(
                    entry_nodes(page@, string_views(links@).take(j + 1)),
                ));
                assert(graph_edges(graph) =~= before_edges.union(
                    entry_edges(page@, string_views(links@).take(j + 1)),
                ));
            }
            j += 1;
        }
        proof {
            assert(string_views(links@).take(links@.len() as int) =~= string_views(links@));
            lemma_prefix_step(data.pages(), data.links(), i as int);
        }
        i += 1;
    }
    proof {
        lemma_prefix_whole(data);
        assert(graph_labels(graph) =~= linkage_labels(data@));
        assert forall|page: Seq<char>, at: int|
            data@.contains_key(page) && 0 <= at < data@[page].len() implies linkage_nodes(
            data@,
        ).contains(#[trigger] data@[page][at]) by {
            assert(data@[page].contains(data@[page][at]));
        }
    }
    graph
}

/// Finds the orphans of `graph`: the nodes that no walk from `root` reaches.
/// Each is reported once. Where `root` is no node of the graph, every node is
/// an orphan.
pub fn find_orphans<'a>(graph: &GraphMap<&'a str, &'a str, Directed>, root: &'a str) -> (orphans:
    Vec<String>)
    ensures
        string_views(orphans@).no_duplicates(),
        string_views(orphans@).to_set() == orphans_of(
            graph_nodes(*graph),
            graph_edges(*graph),
            root@,
        ),
        !string_views(orphans@).contains(root@),
        !graph_nodes(*graph).contains(root@) ==> string_views(orphans@).to_set() == graph_nodes(
            *graph,
        ),
{
    let ghost reached = reachable_from(graph_edges(*graph), root@);
    let nodes = node_list(graph);
    let ghost names = str_views(nodes@);
    // Every node is a candidate at first.
    let mut candidates = StringHashSet::new();
    let mut i: usize = 0;
    proof {
        assert(names.take(0).to_set() =~= Set::<Seq<char>>::empty());
    }
    while i < nodes.len()
        invariant
            i <= nodes.len(),
            names == str_views(nodes@),
            candidates@ == names.take(i as int).to_set(),
        decreases nodes.len() - i,
    {
        candidates.insert(nodes[i].to_owned());
        proof {
            assert(names.take(i + 1) =~= names.take(i as int).push(names[i as int]));
            names.take(i as int).lemma_push_to_set_commute(names[i as int]);
        }
        i += 1;
    }
    proof {
        assert(names.take(nodes@.len() as int) =~= names);
    }
    // A node that the walk from the root visits is no orphan.
    let mut dfs = dfs_new(graph, root);
    proof {
        assert(candidates@ =~= graph_nodes(*graph).difference(
            reached.difference(dfs_pending(dfs, *graph).to_set()),
        ));
    }
    loop
        invariant
            dfs_pending(dfs, *graph).no_duplicates(),
            dfs_pending(dfs, *graph).to_set().subset_of(reached),
            candidates@ == graph_nodes(*graph).difference(
                reached.difference(dfs_pending(dfs, *graph).to_set()),
            ),
        ensures
            candidates@ == graph_nodes(*graph).difference(reached),
        decreases dfs_pending(dfs, *graph).len(),
    {
        let ghost pending = dfs_pending(dfs, *graph);
        match dfs_next(&mut dfs, graph) {
            Some(node) => {
                candidates.remove(node);
                proof {
                    let rest = pending.drop_first();
                    assert forall|name: Seq<char>| rest.to_set().contains(name) <==> (
                    pending.to_set().contains(name) && name != node@) by {
                        if rest.contains(name) {
                            let at = choose|at: int| 0 <= at < rest.len() && rest[at] == name;
                            assert(pending[at + 1] == name);
                        }
                        if pending.contains(name) && name != node@ {
                            let at = choose|at: int| 0 <= at < pending.len() && pending[at] == name;
                            assert(rest[at - 1] == name);
                        }
                    }
                    assert(pending.contains(pending[0]));
                    assert(candidates@ =~= graph_nodes(*graph).difference(
                        reached.difference(rest.to_set()),
                    ));
                }
            },
            None => {
                proof {
                    assert(pending.to_set() =~= Set::<Seq<char>>::empty());
                    assert(candidates@ =~= graph_nodes(*graph).difference(reached));
                }
                break ;
            },
        }
    }
    // What is still a candidate is an orphan.
    let mut orphans: Vec<String> = Vec::new();
    let mut k: usize = 0;
    while k < nodes.len()
        invariant
            k <= nodes.len(),
            names == str_views(nodes@),
            names.no_duplicates(),
            string_views(orphans@).no_duplicates(),
            forall|name: Seq<char>|
                string_views(orphans@).contains(name) <==> (candidates@.contains(name)
                    && names.take(k as int).contains(name)),
        decreases nodes.len() - k,
    {
        let ghost found = string_views(orphans@);
        let ghost shorter = names.take(k as int);
        let ghost longer = names.take(k + 1);
        let ghost name_k = names[k as int];
        proof {
            assert(longer =~= shorter.push(name_k));
            assert forall|name: Seq<char>| longer.contains(name) <==> (shorter.contains(name)
                || name == name_k) by {
                if shorter.contains(name) {
                    let at = choose|at: int| 0 <= at < shorter.len() && shorter[at] == name;
                    assert(longer[at] == name);
                }
                if name == name_k {
                    assert(longer[k as int] == name);
                }
            }
            if shorter.contains(name_k) {
                let at = choose|at: int| 0 <= at < shorter.len() && shorter[at] == name_k;
                assert(names[at] == names[k as int]);
            }
        }
        let is_orphan = candidates.contains(nodes[k]);
        if is_orphan {
            let orphan = nodes[k].to_owned();
            proof {
                lemma_string_views_push(orphans@, orphan);
            }
            orphans.push(orphan);
        }
        proof {
            let now = string_views(orphans@);
            assert forall|name: Seq<char>| now.contains(name) <==> (candidates@.contains(name)
                && longer.contains(name)) by {
                if is_orphan {
                    assert(now == found.push(name_k));
                    if now.contains(name) {
                        let at = choose|at: int| 0 <= at < now.len() && now[at] == name;
                        if at < found.len() {
                            assert(found[at] == name);
                            assert(found.contains(name));
                        }
                    }
                    if found.contains(name) {
                        let at = choose|at: int| 0 <= at < found.len() && found[at] == name;
                        assert(now[at] == name);
                    }
                    if name == name_k {
                        assert(now[found.len() as int] == name);
                    }
                } else {
                    assert(now == found);
                }
                assert(found.contains(name) <==> (candidates@.contains(name) && shorter.contains(
                    name,
                )));
                assert(longer.contains(name) <==> (shorter.contains(name) || name == name_k));
            }
        }
        k += 1;
    }
    proof {
        assert(names.take(nodes@.len() as int) =~= names);
        assert(string_views(orphans@).to_set() =~= orphans_of(
            graph_nodes(*graph),
            graph_edges(*graph),
            root@,
        ));
        lemma_root_is_no_orphan(graph_nodes(*graph), graph_edges(*graph), root@);
        if !graph_nodes(*graph).contains(root@) {
            lemma_absent_root_orphans_all(graph_nodes(*graph), graph_edges(*graph), root@);
        }
    }
    orphans
}

} // verus!
