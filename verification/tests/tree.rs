use wad_mount::archive::{ChunkDescriptor, CompressionKind};
use wad_mount::path::{file_name, placeholder};
use wad_mount::resolver::PathResolver;
use wad_mount::tree::{NodeKind, NotFound, TreeNode, VirtualTree, WadItemSelectionUpdate};

fn chunk(hash: u64) -> ChunkDescriptor {
    ChunkDescriptor {
        hash,
        offset: 0,
        length: 0,
        decompressed_length: 0,
        kind: CompressionKind::Stored,
        duplicate: false,
        subchunk_count: 0,
        subchunk_start: 0,
        checksum: 0,
    }
}

fn resolver_of(paths: &[&str]) -> PathResolver {
    PathResolver::from_entries(
        paths.iter().enumerate().map(|(i, p)| (i as u64 + 1, p.to_string())).collect(),
    )
}

fn tree_of(paths: &[&str]) -> VirtualTree {
    let chunks: Vec<ChunkDescriptor> = (0..paths.len()).map(|i| chunk(i as u64 + 1)).collect();
    VirtualTree::build(&chunks, &resolver_of(paths), "game/Champion.wad.client".to_string())
}

fn is_directory(node: &TreeNode) -> bool {
    matches!(node.kind, NodeKind::Directory { .. })
}

fn all_nodes(tree: &VirtualTree) -> Vec<TreeNode> {
    fn walk(tree: &VirtualTree, node: &TreeNode, out: &mut Vec<TreeNode>) {
        out.push(copy_of(node));
        if is_directory(node) {
            for child in tree.children_of(node.id).unwrap() {
                walk(tree, child, out);
            }
        }
    }
    let mut out = Vec::new();
    for root in tree.roots() {
        walk(tree, root, &mut out);
    }
    out
}

fn copy_of(node: &TreeNode) -> TreeNode {
    TreeNode {
        id: node.id,
        name: node.name.clone(),
        path: node.path.clone(),
        parent: node.parent,
        selected: node.selected,
        kind: match &node.kind {
            NodeKind::File { chunk } => NodeKind::File { chunk: *chunk },
            NodeKind::Directory { children } => NodeKind::Directory { children: children.clone() },
        },
    }
}

fn directory_paths(tree: &VirtualTree) -> Vec<String> {
    let mut paths: Vec<String> =
        all_nodes(tree).iter().filter(|n| is_directory(n)).map(|n| n.path.clone()).collect();
    paths.sort();
    paths
}

fn names(nodes: &[&TreeNode]) -> Vec<String> {
    nodes.iter().map(|n| n.name.clone()).collect()
}

fn find(tree: &VirtualTree, path: &str, directory: bool) -> TreeNode {
    all_nodes(tree)
        .into_iter()
        .find(|n| n.path == path && is_directory(n) == directory)
        .unwrap_or_else(|| panic!("no node at {}", path))
}

const SHARED: [&str; 5] =
    ["assets/a/x.bin", "assets/a/y.bin", "assets/b/z.bin", "data/q.txt", "readme.md"];

#[test]
fn build_makes_one_directory_per_prefix() {
    let tree = tree_of(&SHARED);
    assert_eq!(directory_paths(&tree), vec!["assets", "assets/a", "assets/b", "data"]);
    assert_eq!(tree.len(), 9);
    assert_eq!(all_nodes(&tree).len(), 9);
    assert_eq!(names(&tree.roots()), vec!["assets", "data", "readme.md"]);
    let assets = find(&tree, "assets", true);
    assert_eq!(names(&tree.children_of(assets.id).unwrap()), vec!["a", "b"]);
    let a = find(&tree, "assets/a", true);
    assert_eq!(names(&tree.children_of(a.id).unwrap()), vec!["x.bin", "y.bin"]);
}

#[test]
fn build_directories_do_not_depend_on_sibling_order() {
    let shuffled = ["readme.md", "assets/b/z.bin", "assets/a/y.bin", "data/q.txt", "assets/a/x.bin"];
    let first = tree_of(&SHARED);
    let second = tree_of(&shuffled);
    assert_eq!(directory_paths(&first), directory_paths(&second));
    assert_eq!(first.len(), second.len());
    assert_eq!(names(&second.roots()), vec!["readme.md", "assets", "data"]);
    let assets = find(&second, "assets", true);
    assert_eq!(names(&second.children_of(assets.id).unwrap()), vec!["b", "a"]);
}

#[test]
fn build_is_deterministic_up_to_identities() {
    let first = tree_of(&SHARED);
    let second = tree_of(&SHARED);
    let a = all_nodes(&first);
    let b = all_nodes(&second);
    assert_eq!(a.len(), b.len());
    for (x, y) in a.iter().zip(b.iter()) {
        assert_eq!(x.name, y.name);
        assert_eq!(x.path, y.path);
        assert_eq!(is_directory(x), is_directory(y));
    }
    assert_eq!(names(&first.roots()), names(&second.roots()));
    let ids_a: Vec<u128> = a.iter().map(|n| n.id).collect();
    let ids_b: Vec<u128> = b.iter().map(|n| n.id).collect();
    assert_ne!(ids_a, ids_b);
}

#[test]
fn build_gives_every_node_an_identity_of_its_own() {
    let tree = tree_of(&SHARED);
    let mut ids: Vec<u128> = all_nodes(&tree).iter().map(|n| n.id).collect();
    ids.sort();
    ids.dedup();
    assert_eq!(ids.len(), 9);
}

#[test]
fn build_starts_with_nothing_selected() {
    let tree = tree_of(&SHARED);
    assert!(all_nodes(&tree).iter().all(|n| !n.selected));
    assert!(tree.selected_chunks().is_empty());
    assert_eq!(tree.wad_path(), "game/Champion.wad.client");
}

#[test]
fn build_shows_unknown_hashes_under_placeholders() {
    let chunks = vec![chunk(0xff), chunk(0x0123_4567_89ab_cdef), chunk(1)];
    let tree = VirtualTree::build(&chunks, &resolver_of(&["known/file.txt"]), String::new());
    assert_eq!(names(&tree.roots()), vec!["unknown", "known"]);
    let unknown = find(&tree, "unknown", true);
    assert_eq!(
        names(&tree.children_of(unknown.id).unwrap()),
        vec!["00000000000000ff", "0123456789abcdef"]
    );
    assert_eq!(find(&tree, "unknown/00000000000000ff", false).path, placeholder(0xff));
}

#[test]
fn build_of_no_chunks() {
    let tree = VirtualTree::build(&Vec::new(), &PathResolver::new(), "empty.wad".to_string());
    assert_eq!(tree.len(), 0);
    assert!(tree.roots().is_empty());
}

#[test]
fn build_keeps_files_with_one_path_apart() {
    let chunks = vec![chunk(1), chunk(1), chunk(7), chunk(7)];
    let tree = VirtualTree::build(&chunks, &resolver_of(&["dir/same"]), String::new());
    assert_eq!(tree.len(), 6);
    let dir = find(&tree, "dir", true);
    assert_eq!(names(&tree.children_of(dir.id).unwrap()), vec!["same", "same"]);
    let unknown = find(&tree, "unknown", true);
    assert_eq!(tree.children_of(unknown.id).unwrap().len(), 2);
}

#[test]
fn build_splits_exactly_at_separators() {
    let tree = tree_of(&["a//b", "/c", "d/", "", "a"]);
    assert_eq!(directory_paths(&tree), vec!["", "a", "a/", "d"]);
    assert_eq!(names(&tree.roots()), vec!["a", "", "d", "", "a"]);
    let a = find(&tree, "a", true);
    assert_eq!(names(&tree.children_of(a.id).unwrap()), vec![""]);
    assert_eq!(find(&tree, "d/", false).name, "");
    assert!(!is_directory(&find(&tree, "a", false)));
}

#[test]
fn build_files_refer_to_their_chunks() {
    let tree = tree_of(&SHARED);
    let hashes: Vec<u64> = all_nodes(&tree)
        .iter()
        .filter_map(|n| match &n.kind {
            NodeKind::File { chunk } => Some(chunk.hash),
            NodeKind::Directory { .. } => None,
        })
        .collect();
    assert_eq!(hashes, vec![1, 2, 3, 4, 5]);
}

#[test]
fn ancestors_and_children_agree() {
    let tree = tree_of(&["a/b/c/d.bin", "a/b/e.bin", "a/f.bin", "g.bin", "h/i.bin"]);
    for node in all_nodes(&tree) {
        let chain = tree.ancestors_of(node.id).unwrap();
        assert_eq!(chain.len(), node.path.split('/').count());
        assert_eq!(chain.last().unwrap().id, node.id);
        assert_eq!(chain[0].parent, None);
        assert!(tree.roots().iter().any(|r| r.id == chain[0].id));
        for pair in chain.windows(2) {
            assert_eq!(pair[1].parent, Some(pair[0].id));
            let children = tree.children_of(pair[0].id).unwrap();
            assert!(children.iter().any(|c| c.id == pair[1].id));
        }
        let joined: Vec<String> = chain.iter().map(|n| n.name.clone()).collect();
        assert_eq!(joined.join("/"), node.path);
    }
}

#[test]
fn ancestors_of_a_deep_file() {
    let tree = tree_of(&["a/b/c/d.bin"]);
    let file = find(&tree, "a/b/c/d.bin", false);
    let chain = tree.ancestors_of(file.id).unwrap();
    let paths: Vec<&str> = chain.iter().map(|n| n.path.as_str()).collect();
    assert_eq!(paths, vec!["a", "a/b", "a/b/c", "a/b/c/d.bin"]);
    assert_eq!(names(&chain), vec!["a", "b", "c", "d.bin"]);
}

#[test]
fn queries_report_what_is_not_there() {
    let tree = tree_of(&["a/b.bin"]);
    let file = find(&tree, "a/b.bin", false);
    let missing = file.id ^ 1;
    assert!(tree.get(missing).is_none());
    assert_eq!(tree.children_of(missing).err(), Some(NotFound::UnknownNode { id: missing }));
    assert_eq!(tree.children_of(file.id).err(), Some(NotFound::ParentIsFile { id: file.id }));
    assert_eq!(tree.ancestors_of(missing).err(), Some(NotFound::UnknownNode { id: missing }));
    assert_eq!(tree.get(file.id).map(|n| n.path.as_str()), Some("a/b.bin"));
}

#[test]
fn selecting_a_file_shows_in_the_listing() {
    let mut tree = tree_of(&SHARED);
    let file = find(&tree, "assets/a/y.bin", false);
    assert_eq!(tree.set_selected(file.id, true), Ok(()));
    let parent = find(&tree, "assets/a", true);
    let listing: Vec<(String, bool)> =
        tree.children_of(parent.id).unwrap().iter().map(|n| (n.name.clone(), n.selected)).collect();
    assert_eq!(listing, vec![("x.bin".to_string(), false), ("y.bin".to_string(), true)]);
    let selected: Vec<u64> = tree.selected_chunks().iter().map(|c| c.hash).collect();
    assert_eq!(selected, vec![2]);
    assert_eq!(tree.set_selected(file.id, false), Ok(()));
    assert!(all_nodes(&tree).iter().all(|n| !n.selected));
}

#[test]
fn selecting_a_directory_selects_nothing_under_it() {
    let mut tree = tree_of(&SHARED);
    let assets = find(&tree, "assets", true);
    assert_eq!(tree.set_selected(assets.id, true), Ok(()));
    for node in all_nodes(&tree) {
        assert_eq!(node.selected, node.id == assets.id, "{}", node.path);
    }
    assert!(tree.selected_chunks().is_empty());
}

#[test]
fn selecting_an_unknown_node_is_reported() {
    let mut tree = tree_of(&SHARED);
    let missing = find(&tree, "readme.md", false).id ^ 1;
    assert_eq!(tree.set_selected(missing, true), Err(NotFound::UnknownNode { id: missing }));
    assert!(all_nodes(&tree).iter().all(|n| !n.selected));
}

#[test]
fn selected_chunks_come_in_arena_order() {
    let mut tree = tree_of(&SHARED);
    for path in ["readme.md", "assets/a/x.bin", "assets/b/z.bin"] {
        let id = find(&tree, path, false).id;
        tree.set_selected(id, true).unwrap();
    }
    let selected: Vec<u64> = tree.selected_chunks().iter().map(|c| c.hash).collect();
    assert_eq!(selected, vec![1, 3, 5]);
}

#[test]
fn batch_selection_passes_over_unknown_nodes() {
    let mut tree = tree_of(&SHARED);
    let x = find(&tree, "assets/a/x.bin", false).id;
    let y = find(&tree, "assets/a/y.bin", false).id;
    let updates = vec![
        WadItemSelectionUpdate { item_id: x, is_selected: true },
        WadItemSelectionUpdate { item_id: x ^ y ^ 0x55, is_selected: true },
        WadItemSelectionUpdate { item_id: y, is_selected: true },
        WadItemSelectionUpdate { item_id: x, is_selected: false },
    ];
    tree.apply_selections(&updates);
    let selected: Vec<u64> = tree.selected_chunks().iter().map(|c| c.hash).collect();
    assert_eq!(selected, vec![2]);
}

#[test]
fn placeholder_paths_are_exact_and_distinct() {
    assert_eq!(placeholder(0), "unknown/0000000000000000");
    assert_eq!(placeholder(u64::MAX), "unknown/ffffffffffffffff");
    assert_eq!(placeholder(0x0123_4567_89ab_cdef), "unknown/0123456789abcdef");
    assert_eq!(placeholder(0x10), "unknown/0000000000000010");
    assert_ne!(placeholder(1), placeholder(0x10));
}

#[test]
fn file_name_is_what_follows_the_last_slash() {
    assert_eq!(file_name("C:\\Games\\Riot\\Aatrox.wad.client"), "Aatrox.wad.client");
    assert_eq!(file_name("/opt/lol/DATA/FINAL/Map11.wad.client"), "Map11.wad.client");
    assert_eq!(file_name("plain.wad"), "plain.wad");
    assert_eq!(file_name("dir/"), "");
    assert_eq!(file_name(""), "");
    assert_eq!(file_name("mixed\\dir/file"), "file");
}

#[test]
fn resolver_knows_what_it_was_given() {
    let mut resolver = PathResolver::from_entries(vec![
        (1, "first".to_string()),
        (2, "second".to_string()),
        (1, "later".to_string()),
    ]);
    assert_eq!(resolver.resolve(1).map(|s| s.as_str()), Some("later"));
    assert_eq!(resolver.resolve(2).map(|s| s.as_str()), Some("second"));
    assert_eq!(resolver.resolve(3), None);
    assert_eq!(resolver.path_of(2), "second");
    assert_eq!(resolver.path_of(3), "unknown/0000000000000003");
    resolver.insert(3, "third".to_string());
    assert_eq!(resolver.path_of(3), "third");
    assert_eq!(PathResolver::new().resolve(1), None);
}

#[test]
fn nodes_answer_for_themselves() {
    let tree = tree_of(&["dir/file.bin"]);
    let dir = find(&tree, "dir", true);
    let file = find(&tree, "dir/file.bin", false);
    assert_eq!(dir.id(), dir.id);
    assert_eq!(dir.name(), "dir");
    assert_eq!(dir.path(), "dir");
    assert_eq!(dir.parent_id(), None);
    assert!(dir.is_directory());
    assert!(!dir.is_selected());
    assert_eq!(dir.chunk(), None);
    assert_eq!(file.name(), "file.bin");
    assert_eq!(file.path(), "dir/file.bin");
    assert_eq!(file.parent_id(), Some(dir.id()));
    assert!(!file.is_directory());
    assert_eq!(file.chunk(), Some(chunk(1)));
    match &dir.kind {
        NodeKind::Directory { children } => assert_eq!(children, &vec![file.id]),
        NodeKind::File { .. } => panic!("a directory was expected"),
    }
}

#[test]
fn an_empty_tree_has_nothing_to_show() {
    let tree = VirtualTree::empty("nothing.wad".to_string());
    assert_eq!(tree.len(), 0);
    assert!(tree.roots().is_empty());
    assert!(tree.get(0).is_none());
    assert_eq!(tree.wad_path(), "nothing.wad");
}
