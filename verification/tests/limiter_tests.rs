use dirscan::limiter::build_limited_depth_node;
use dirscan::node::FileNode;

fn file(name: &str, path: &str, size: u64) -> FileNode {
    FileNode {
        name: name.to_string(),
        size,
        path: path.to_string(),
        children: None,
        is_directory: false,
    }
}

fn dir(name: &str, path: &str, size: u64, children: Vec<FileNode>) -> FileNode {
    FileNode {
        name: name.to_string(),
        size,
        path: path.to_string(),
        children: Some(children),
        is_directory: true,
    }
}

fn sample_tree() -> FileNode {
    dir(
        "root",
        "/tmp/root",
        12288,
        vec![
            file("a.txt", "/tmp/root/a.txt", 4096),
            dir("b", "/tmp/root/b", 8192, vec![file("c.txt", "/tmp/root/b/c.txt", 8192)]),
        ],
    )
}

fn assert_tree_eq(a: &FileNode, b: &FileNode) {
    assert_eq!(a.name, b.name);
    assert_eq!(a.path, b.path);
    assert_eq!(a.size, b.size);
    assert_eq!(a.is_directory, b.is_directory);
    match (&a.children, &b.children) {
        (Some(ca), Some(cb)) => {
            assert_eq!(ca.len(), cb.len());
            for (x, y) in ca.iter().zip(cb.iter()) {
                assert_tree_eq(x, y);
            }
        }
        (None, None) => {}
        _ => panic!("one node has children, the other does not"),
    }
}

#[test]
fn limit_zero_on_directory_keeps_size_and_empties_children() {
    let tree = sample_tree();
    let limited = build_limited_depth_node(&tree, 0);
    assert_eq!(limited.name, "root");
    assert_eq!(limited.size, 12288);
    assert!(limited.is_directory);
    assert_eq!(limited.children.as_ref().unwrap().len(), 0);
}

#[test]
fn limit_zero_on_file_passes_it_through() {
    let leaf = file("a.txt", "/tmp/a.txt", 4096);
    let limited = build_limited_depth_node(&leaf, 0);
    assert_eq!(limited.name, "a.txt");
    assert_eq!(limited.size, 4096);
    assert!(!limited.is_directory);
    assert!(limited.children.is_none());
}

#[test]
fn limit_at_or_above_height_returns_equal_tree() {
    let tree = sample_tree();
    let limited = build_limited_depth_node(&tree, 2);
    assert_tree_eq(&limited, &tree);
    let deeper = build_limited_depth_node(&tree, 100);
    assert_tree_eq(&deeper, &tree);
}

#[test]
fn limit_mid_depth_cuts_below_and_keeps_sizes() {
    let tree = sample_tree();
    let limited = build_limited_depth_node(&tree, 1);
    let kids = limited.children.as_ref().unwrap();
    assert_eq!(kids.len(), 2);
    assert_eq!(kids[0].name, "a.txt");
    assert_eq!(kids[0].size, 4096);
    assert!(kids[0].children.is_none());
    assert_eq!(kids[1].name, "b");
    assert_eq!(kids[1].size, 8192);
    assert!(kids[1].is_directory);
    assert_eq!(kids[1].children.as_ref().unwrap().len(), 0);
    assert_eq!(limited.size, 12288);
}

#[test]
fn limit_does_not_mutate_input() {
    let tree = sample_tree();
    let _ = build_limited_depth_node(&tree, 0);
    assert_eq!(tree.children.as_ref().unwrap().len(), 2);
    assert_eq!(tree.size, 12288);
}
