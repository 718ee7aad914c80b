use cache_router::tree::Tree;

fn chars(s: &str) -> Vec<char> {
    s.chars().collect()
}

#[test]
fn insert_then_prefix_match_tenant_round_trip() {
    let mut t = Tree::new(2);
    t.insert(&chars("hello"), 0, 1);
    assert_eq!(t.prefix_match_tenant(&chars("hello"), 0), chars("hello"));
}

#[test]
fn prefix_match_tenant_requires_tenancy() {
    let mut t = Tree::new(2);
    t.insert(&chars("hello"), 0, 1);
    // worker 1 only owns the root, so its best match is empty
    assert_eq!(t.prefix_match_tenant(&chars("hello"), 1), chars(""));
}

#[test]
fn prefix_match_finds_longest_common_prefix() {
    let mut t = Tree::new(2);
    t.insert(&chars("hello world"), 0, 1);
    let (m, w) = t.prefix_match(&chars("hello there"));
    assert_eq!(m, chars("hello "));
    assert_eq!(w, 0);
}

#[test]
fn prefix_match_never_longer_than_text() {
    let mut t = Tree::new(2);
    t.insert(&chars("abcdef"), 1, 1);
    let (m, _w) = t.prefix_match(&chars("abc"));
    assert!(m.len() <= 3);
    assert_eq!(m, chars("abc"));
}

#[test]
fn prefix_match_on_empty_tree_returns_root() {
    let t = Tree::new(3);
    let (m, w) = t.prefix_match(&chars("anything"));
    assert_eq!(m, chars(""));
    assert_eq!(w, 0);
}

#[test]
fn insert_is_idempotent_on_structure() {
    let mut t = Tree::new(1);
    t.insert(&chars("abc"), 0, 1);
    let n1 = t.nodes.len();
    t.insert(&chars("abc"), 0, 2);
    assert_eq!(t.nodes.len(), n1);
}

#[test]
fn node_count_counts_prefixes() {
    let mut t = Tree::new(1);
    // root + a, ab, abc
    t.insert(&chars("abc"), 0, 1);
    assert_eq!(t.nodes.len(), 4);
}

#[test]
fn get_smallest_tenant_prefers_fewest_nodes() {
    let mut t = Tree::new(2);
    t.insert(&chars("hello world"), 0, 1);
    assert_eq!(t.get_smallest_tenant(), 1);
}

#[test]
fn get_smallest_tenant_breaks_ties_low() {
    let t = Tree::new(3);
    assert_eq!(t.get_smallest_tenant(), 0);
}

#[test]
fn evict_converges_to_bound() {
    let mut t = Tree::new(1);
    t.insert(&chars("abcdefgh"), 0, 1);
    assert_eq!(t.nodes.len(), 9);
    t.evict_tenant_data(4);
    assert_eq!(t.nodes.len(), 4);
    // a second pass changes nothing
    t.evict_tenant_data(4);
    assert_eq!(t.nodes.len(), 4);
}

#[test]
fn evict_removes_least_recently_used_leaf_first() {
    let mut t = Tree::new(2);
    t.insert(&chars("ab"), 0, 1);
    t.insert(&chars("cd"), 1, 2);
    // 7 nodes: root, a, ab, c, cd; evicting to 4 drops the "ab" leaf
    assert_eq!(t.nodes.len(), 5);
    t.evict_tenant_data(4);
    assert_eq!(t.nodes.len(), 4);
    assert_eq!(t.prefix_match_tenant(&chars("ab"), 0), chars("a"));
    assert_eq!(t.prefix_match_tenant(&chars("cd"), 1), chars("cd"));
}

#[test]
fn evict_keeps_tree_within_bound_or_root_only() {
    let mut t = Tree::new(1);
    t.insert(&chars("xy"), 0, 1);
    t.evict_tenant_data(0);
    assert_eq!(t.nodes.len(), 1);
}

#[test]
fn unicode_paths_count_scalars() {
    let mut t = Tree::new(1);
    t.insert(&chars("héllo"), 0, 1);
    // root + 5 character nodes
    assert_eq!(t.nodes.len(), 6);
    assert_eq!(t.prefix_match_tenant(&chars("héllo"), 0), chars("héllo"));
}

#[test]
fn prefix_match_picks_lowest_numbered_tenant() {
    let mut t = Tree::new(3);
    t.insert(&chars("shared"), 2, 1);
    t.insert(&chars("shared"), 1, 2);
    let (m, w) = t.prefix_match(&chars("shared"));
    assert_eq!(m, chars("shared"));
    assert_eq!(w, 1);
}
