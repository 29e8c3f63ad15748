use cordiale::links::{build_links_tree, LinksEntry, LinksNode};
use cordiale::radial::{radial_plan, Slice};

fn entry(server: &str, linked_to: Option<&str>, hopcount: i64) -> LinksEntry {
    LinksEntry {
        server: server.to_string(),
        linked_to: linked_to.map(str::to_string),
        hopcount: Some(hopcount),
        description: None,
    }
}

#[test]
fn build_links_tree_is_empty_for_no_entries() {
    assert_eq!(build_links_tree(&[]), Vec::new());
}

#[test]
fn build_links_tree_finds_the_self_linked_root() {
    let entries = vec![
        entry("hub", Some("hub"), 0),
        entry("leaf-a", Some("hub"), 1),
        entry("leaf-b", Some("hub"), 1),
    ];
    let tree = build_links_tree(&entries);

    let root = tree.iter().find(|node| node.server == "hub").unwrap();
    assert!(root.is_root);
    assert_eq!(root.depth, 0);
    assert_eq!(root.parent, None);

    let leaf_a = tree.iter().find(|node| node.server == "leaf-a").unwrap();
    assert_eq!(leaf_a.depth, 1);
    assert_eq!(leaf_a.parent, Some("hub".to_string()));
}

#[test]
fn build_links_tree_reconstructs_multiple_levels() {
    let entries = vec![
        entry("hub", Some("hub"), 0),
        entry("mid", Some("hub"), 1),
        entry("leaf", Some("mid"), 2),
    ];
    let tree = build_links_tree(&entries);

    let leaf = tree.iter().find(|node| node.server == "leaf").unwrap();
    assert_eq!(leaf.depth, 2);
    assert_eq!(leaf.parent, Some("mid".to_string()));
    // hopcount is preserved verbatim, distinct from reconstructed depth.
    assert_eq!(leaf.hopcount, Some(2));
}

#[test]
fn build_links_tree_falls_back_to_smallest_hopcount_without_a_self_link() {
    let entries = vec![entry("a", Some("b"), 2), entry("b", Some("a"), 0)];
    let tree = build_links_tree(&entries);

    let root = tree.iter().find(|node| node.is_root).unwrap();
    assert_eq!(root.server, "b");
}

#[test]
fn build_links_tree_reparents_a_missing_uplink_to_root() {
    let entries = vec![
        entry("hub", Some("hub"), 0),
        entry("orphan", Some("nowhere"), 3),
    ];
    let tree = build_links_tree(&entries);

    let orphan = tree.iter().find(|node| node.server == "orphan").unwrap();
    assert_eq!(orphan.depth, 1);
    assert_eq!(orphan.parent, Some("hub".to_string()));
}

#[test]
fn build_links_tree_never_drops_a_node_in_an_isolated_cycle() {
    let entries = vec![
        entry("hub", Some("hub"), 0),
        entry("a", Some("b"), 5),
        entry("b", Some("a"), 5),
    ];
    let tree = build_links_tree(&entries);

    assert_eq!(tree.len(), 3);
    assert!(tree.iter().all(|node| node.depth < u32::MAX));
}

#[test]
fn build_links_tree_handles_a_chain_of_orphans_progressively() {
    // "grand" and "child" are both disconnected from the resolvable
    // root at the point they're first considered; "child" only
    // resolves once "grand" itself resolves (onto root).
    let entries = vec![
        entry("hub", Some("hub"), 0),
        entry("child", Some("grand"), 2),
        entry("grand", Some("missing"), 1),
    ];
    let tree = build_links_tree(&entries);

    let grand = tree.iter().find(|node| node.server == "grand").unwrap();
    assert_eq!(grand.depth, 1);
    assert_eq!(grand.parent, Some("hub".to_string()));

    let child = tree.iter().find(|node| node.server == "child").unwrap();
    assert_eq!(child.depth, 2);
    assert_eq!(child.parent, Some("grand".to_string()));
}

#[test]
fn slices_follow_the_leaves() {
    let entries = vec![
        entry("hub", Some("hub"), 0),
        entry("z", Some("hub"), 1),
        entry("a", Some("hub"), 1),
        entry("a2", Some("a"), 2),
        entry("a1", Some("a"), 2),
    ];
    let plan = radial_plan(&build_links_tree(&entries)).expect("a plan");
    assert_eq!(plan.total, 3);
    let slice = |first: u32, count: u32| Some(Slice { first, count });
    assert_eq!(
        plan.slices,
        vec![slice(0, 3), slice(2, 1), slice(0, 2), slice(1, 1), slice(0, 1)]
    );
    assert_eq!(plan.edges, vec![(0, 1), (0, 2), (2, 3), (2, 4)]);
}

#[test]
fn nothing_is_laid_out_without_a_root() {
    let plan = radial_plan(&[]).expect("a plan");
    assert_eq!(plan.total, 0);
    assert!(plan.slices.is_empty());
    assert!(plan.edges.is_empty());
}

#[test]
fn a_server_listed_twice_stands_where_it_came_last() {
    let entries = vec![
        entry("hub", Some("hub"), 0),
        entry("a", Some("hub"), 1),
        entry("a", Some("hub"), 1),
    ];
    let plan = radial_plan(&build_links_tree(&entries)).expect("a plan");
    assert_eq!(plan.total, 2);
    assert_eq!(plan.slices[1], Some(Slice { first: 1, count: 1 }));
    assert_eq!(plan.slices[1], plan.slices[2]);
    assert_eq!(plan.edges, vec![(0, 2), (0, 2)]);
}

#[test]
fn the_order_of_a_reply_does_not_change_the_tree() {
    let mut entries = vec![
        entry("hub", Some("hub"), 0),
        entry("a", Some("hub"), 1),
        entry("b", Some("a"), 2),
        entry("lost", Some("gone"), 5),
        entry("x", Some("y"), 3),
        entry("y", Some("x"), 3),
    ];
    let tree = build_links_tree(&entries);
    entries.reverse();
    let mut turned = build_links_tree(&entries);
    turned.reverse();
    assert_eq!(tree, turned);
}

#[test]
fn slices_follow_the_parents_whatever_the_depths() {
    let node = |server: &str, depth: u32, parent: Option<&str>| LinksNode {
        server: server.to_string(),
        description: None,
        hopcount: None,
        depth,
        parent: parent.map(str::to_string),
        is_root: parent.is_none(),
    };
    let chain = vec![
        node("a", 0, None),
        node("b", 1, Some("a")),
        node("c", 1, Some("b")),
        node("d", 1, Some("c")),
    ];
    let plan = radial_plan(&chain).expect("a plan");
    assert_eq!(plan.total, 1);
    assert_eq!(plan.slices, vec![Some(Slice { first: 0, count: 1 }); 4]);
}
