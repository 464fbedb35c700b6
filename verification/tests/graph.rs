use search_engine::index::graph::LinkGraph;

fn strings(v: &[&str]) -> Vec<String> {
    v.iter().map(|s| s.to_string()).collect()
}

fn sorted(mut v: Vec<String>) -> Vec<String> {
    v.sort();
    v
}

/// Whether `page` is recorded in `g` and links to exactly the distinct pages `expected`.
fn links_exactly(g: &LinkGraph, page: &str, expected: &[&str]) -> bool {
    match g.get_links(&page.to_string()) {
        Some(links) => links.len() == expected.len() && expected.iter().all(|e| links.contains(e)),
        None => false,
    }
}

#[test]
fn new_graph_is_empty() {
    let g = LinkGraph::new();
    assert!(g.get_links(&"a".to_string()).is_none());
    assert!(g.pages().is_empty());
}

#[test]
fn add_then_get_reads_back_links() {
    let mut g = LinkGraph::new();
    g.add_links("a".to_string(), strings(&["b", "c", "b"]));
    assert!(links_exactly(&g, "a", &["b", "c"]));
    g.add_links("a".to_string(), strings(&["d"]));
    assert!(links_exactly(&g, "a", &["b", "c", "d"]));
    assert!(!g.get_links(&"a".to_string()).unwrap().contains("e"));
    assert!(g.get_links(&"b".to_string()).is_none());
}

#[test]
fn adding_twice_changes_nothing() {
    let mut g = LinkGraph::new();
    g.add_links("a".to_string(), strings(&["b", "c"]));
    assert!(links_exactly(&g, "a", &["b", "c"]));
    g.add_links("a".to_string(), strings(&["b", "c"]));
    assert!(links_exactly(&g, "a", &["b", "c"]));
    assert_eq!(g.pages(), strings(&["a"]));
}

#[test]
fn order_of_additions_does_not_matter() {
    let mut g1 = LinkGraph::new();
    g1.add_links("p".to_string(), strings(&["x"]));
    g1.add_links("p".to_string(), strings(&["y", "x"]));
    let mut g2 = LinkGraph::new();
    g2.add_links("p".to_string(), strings(&["y", "x"]));
    g2.add_links("p".to_string(), strings(&["x"]));
    assert!(links_exactly(&g1, "p", &["x", "y"]));
    assert!(links_exactly(&g2, "p", &["x", "y"]));
}

#[test]
fn empty_link_list_records_page() {
    let mut g = LinkGraph::new();
    g.add_links("lonely".to_string(), Vec::new());
    assert!(links_exactly(&g, "lonely", &[]));
    assert_eq!(g.pages(), strings(&["lonely"]));
}

#[test]
fn self_link_is_kept() {
    let mut g = LinkGraph::new();
    g.add_links("a".to_string(), strings(&["a", "b"]));
    assert!(links_exactly(&g, "a", &["a", "b"]));
    assert_eq!(g.inbound_links(&"a".to_string()), vec![("a".to_string(), 2)]);
}

#[test]
fn inbound_links_with_out_degrees() {
    let mut g = LinkGraph::new();
    g.add_links("a".to_string(), strings(&["b", "c"]));
    g.add_links("b".to_string(), strings(&["c"]));
    g.add_links("c".to_string(), strings(&["a"]));
    let mut inbound = g.inbound_links(&"c".to_string());
    inbound.sort();
    assert_eq!(inbound, vec![("a".to_string(), 2), ("b".to_string(), 1)]);
    assert_eq!(g.inbound_links(&"a".to_string()), vec![("c".to_string(), 1)]);
    assert!(g.inbound_links(&"zzz".to_string()).is_empty());
    assert_eq!(sorted(g.pages()), strings(&["a", "b", "c"]));
}
