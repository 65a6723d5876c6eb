use orphan_pages::graph::{find_orphans, make_page_graph, EDGE_LABEL};
use orphan_pages::linkage::LinkageMap;
use orphan_pages::pipeline::DEFAULT_ROOT;
use petgraph::dot::{Config, Dot};
use petgraph::graphmap::GraphMap;
use petgraph::Directed;

fn strings(items: &[&str]) -> Vec<String> {
    items.iter().map(|item| item.to_string()).collect()
}

fn sorted(mut items: Vec<String>) -> Vec<String> {
    items.sort();
    items
}

#[test]
fn makes_graph_map() {
    let mut data = LinkageMap::new();
    data.insert("a".to_string(), vec!["b".to_string(), "c".to_string()]);
    data.insert("b".to_string(), vec!["c".to_string()]);
    data.insert("c".to_string(), vec![]);

    let graph = make_page_graph(&data);

    println!("{:?}", Dot::with_config(&graph, &[Config::EdgeNoLabel]));

    assert_eq!(graph.edge_count(), 3);
    assert_eq!(graph.node_count(), 3);
    assert!(graph.contains_node("a"));
    assert!(graph.contains_node("b"));
    assert!(graph.contains_node("c"));

    assert!(graph.contains_edge("a", "b"));
    assert!(graph.contains_edge("a", "c"));
    assert!(graph.contains_edge("b", "c"));
}

#[test]
fn edges_lead_from_page_to_target() {
    let mut data = LinkageMap::new();
    data.insert("a".to_string(), strings(&["b"]));
    let graph = make_page_graph(&data);
    assert!(graph.contains_edge("a", "b"));
    assert!(!graph.contains_edge("b", "a"));
    assert_eq!(graph.edge_weight("a", "b"), Some(&EDGE_LABEL));
    assert_eq!(EDGE_LABEL, "links");
}

#[test]
fn dangling_targets_are_nodes_without_outgoing_edges() {
    let mut data = LinkageMap::new();
    data.insert("a".to_string(), strings(&["ghost", "b"]));
    data.insert("b".to_string(), strings(&["phantom"]));
    let graph = make_page_graph(&data);
    assert_eq!(graph.node_count(), 4);
    assert!(graph.contains_node("ghost"));
    assert!(graph.contains_node("phantom"));
    assert_eq!(graph.neighbors("ghost").count(), 0);
    assert_eq!(graph.neighbors("phantom").count(), 0);
}

#[test]
fn repeated_links_make_one_edge() {
    let mut data = LinkageMap::new();
    data.insert("a".to_string(), strings(&["b", "b", "a", "b"]));
    let graph = make_page_graph(&data);
    assert_eq!(graph.node_count(), 2);
    assert_eq!(graph.edge_count(), 2);
    assert!(graph.contains_edge("a", "b"));
    assert!(graph.contains_edge("a", "a"));
}

#[test]
fn empty_linkage_makes_an_empty_graph() {
    let data = LinkageMap::new();
    let graph = make_page_graph(&data);
    assert_eq!(graph.node_count(), 0);
    assert_eq!(graph.edge_count(), 0);
    assert!(find_orphans(&graph, DEFAULT_ROOT).is_empty());
}

#[test]
fn single_link_with_the_linking_page_as_root() {
    let mut data = LinkageMap::new();
    data.insert("page-a.html".to_string(), strings(&["page-b.html"]));
    assert_eq!(data.get("page-a.html"), Some(&strings(&["page-b.html"])));
    assert_eq!(data.len(), 1);
    let graph = make_page_graph(&data);
    assert_eq!(graph.node_count(), 2);
    assert!(graph.contains_node("page-a.html"));
    assert!(graph.contains_node("page-b.html"));
    assert_eq!(graph.edge_count(), 1);
    assert!(graph.contains_edge("page-a.html", "page-b.html"));
    assert!(find_orphans(&graph, "page-a.html").is_empty());
}

#[test]
fn unlinked_page_is_the_only_orphan() {
    let mut data = LinkageMap::new();
    data.insert("index".to_string(), strings(&["a"]));
    data.insert("a".to_string(), strings(&["b"]));
    data.insert("b".to_string(), vec![]);
    data.insert("c".to_string(), vec![]);
    let graph = make_page_graph(&data);
    assert_eq!(find_orphans(&graph, "index"), vec!["c"]);
    assert_eq!(DEFAULT_ROOT, "index");
}

#[test]
fn absent_root_makes_every_node_an_orphan() {
    let mut data = LinkageMap::new();
    data.insert("a".to_string(), strings(&["b"]));
    data.insert("b".to_string(), strings(&["a"]));
    let graph = make_page_graph(&data);
    assert_eq!(sorted(find_orphans(&graph, "index")), vec!["a", "b"]);
}

#[test]
fn absent_root_on_a_graph_built_by_hand() {
    let mut graph: GraphMap<&str, &str, Directed> = GraphMap::new();
    graph.add_edge("a", "b", "links");
    graph.add_edge("b", "c", "links");
    graph.add_node("d");
    graph.remove_node("c");
    assert_eq!(sorted(find_orphans(&graph, "c")), vec!["a", "b", "d"]);
    assert_eq!(sorted(find_orphans(&graph, "missing")), vec!["a", "b", "d"]);
}

#[test]
fn root_is_never_an_orphan() {
    let mut data = LinkageMap::new();
    data.insert("index".to_string(), vec![]);
    data.insert("a".to_string(), strings(&["index"]));
    let graph = make_page_graph(&data);
    let orphans = find_orphans(&graph, "index");
    assert!(!orphans.contains(&"index".to_string()));
    assert_eq!(orphans, vec!["a"]);
}

#[test]
fn isolated_node_is_an_orphan() {
    let mut graph: GraphMap<&str, &str, Directed> = GraphMap::new();
    graph.add_edge("index", "a", "links");
    graph.add_node("alone");
    assert_eq!(find_orphans(&graph, "index"), vec!["alone"]);
}

#[test]
fn orphans_follow_edge_direction() {
    let mut data = LinkageMap::new();
    data.insert("index".to_string(), strings(&["a"]));
    data.insert("b".to_string(), strings(&["a", "index"]));
    data.insert("c".to_string(), strings(&["b"]));
    let graph = make_page_graph(&data);
    assert_eq!(sorted(find_orphans(&graph, "index")), vec!["b", "c"]);
    assert_eq!(sorted(find_orphans(&graph, "c")), Vec::<String>::new());
    assert_eq!(sorted(find_orphans(&graph, "a")), vec!["b", "c", "index"]);
}

#[test]
fn cycles_and_shared_targets_are_walked_once() {
    let mut data = LinkageMap::new();
    data.insert("index".to_string(), strings(&["a", "b"]));
    data.insert("a".to_string(), strings(&["b", "index"]));
    data.insert("b".to_string(), strings(&["a", "c"]));
    data.insert("d".to_string(), strings(&["e"]));
    let graph = make_page_graph(&data);
    let orphans = find_orphans(&graph, "index");
    assert_eq!(sorted(orphans.clone()), vec!["d", "e"]);
    let mut unique = orphans.clone();
    unique.sort();
    unique.dedup();
    assert_eq!(unique.len(), orphans.len());
}
