use orphan_pages::linkage::LinkageMap;

fn strings(items: &[&str]) -> Vec<String> {
    items.iter().map(|item| item.to_string()).collect()
}

#[test]
fn new_map_is_empty() {
    let map = LinkageMap::new();
    assert_eq!(map.len(), 0);
    assert_eq!(map.get("a"), None);
}

#[test]
fn insert_adds_a_page_with_its_links() {
    let mut map = LinkageMap::new();
    assert_eq!(map.insert("a".to_string(), strings(&["b", "c", "b"])), None);
    assert_eq!(map.len(), 1);
    assert_eq!(map.get("a"), Some(&strings(&["b", "c", "b"])));
    assert_eq!(map.get("b"), None);
    assert_eq!(map.page_at(0), "a");
    assert_eq!(map.links_at(0), &strings(&["b", "c", "b"]));
}

#[test]
fn insert_replaces_the_links_of_a_held_page() {
    let mut map = LinkageMap::new();
    map.insert("a".to_string(), strings(&["x"]));
    map.insert("b".to_string(), strings(&["y"]));
    assert_eq!(map.insert("a".to_string(), strings(&["z"])), Some(strings(&["x"])));
    assert_eq!(map.len(), 2);
    assert_eq!(map.get("a"), Some(&strings(&["z"])));
    assert_eq!(map.get("b"), Some(&strings(&["y"])));
    assert_eq!(map.page_at(0), "a");
    assert_eq!(map.page_at(1), "b");
}

#[test]
fn pages_keep_insertion_order() {
    let mut map = LinkageMap::new();
    map.insert("c".to_string(), vec![]);
    map.insert("a".to_string(), vec![]);
    map.insert("b".to_string(), vec![]);
    let pages: Vec<&str> = (0..map.len()).map(|i| map.page_at(i)).collect();
    assert_eq!(pages, vec!["c", "a", "b"]);
}

#[test]
fn pages_are_told_apart_by_exact_text() {
    let mut map = LinkageMap::new();
    map.insert("Index".to_string(), strings(&["a"]));
    map.insert("index".to_string(), strings(&["b"]));
    map.insert("index ".to_string(), strings(&["c"]));
    assert_eq!(map.len(), 3);
    assert_eq!(map.get("index"), Some(&strings(&["b"])));
}
