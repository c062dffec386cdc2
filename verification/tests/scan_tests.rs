use dirscan::emitter::BATCH_SIZE;
use dirscan::model::{DirNode, EntryKind, EntryMeta, FsSnapshot};
use dirscan::session::{scan_directory_streaming, ScanError};
use dirscan::volume::DiskRecord;
use dirscan::weights::scan_fits_counters;

fn entry(name: &str, path: &str, kind: EntryKind) -> EntryMeta {
    EntryMeta { name: name.to_string(), path: path.to_string(), kind }
}

fn snapshot(root: EntryMeta, dirs: Vec<DirNode>) -> FsSnapshot {
    FsSnapshot { dirs, root }
}

/// Root holding `a.txt` (4096 bytes) and `b/` holding `c.txt` (8192 bytes).
fn two_level_snapshot() -> FsSnapshot {
    snapshot(
        entry("root", "/tmp/root", EntryKind::Dir { dir_id: 0 }),
        vec![
            DirNode {
                identity: 1,
                entries: vec![
                    entry("a.txt", "/tmp/root/a.txt", EntryKind::File { identity: 2, size: 4096 }),
                    entry("b", "/tmp/root/b", EntryKind::Dir { dir_id: 1 }),
                ],
            },
            DirNode {
                identity: 3,
                entries: vec![entry(
                    "c.txt",
                    "/tmp/root/b/c.txt",
                    EntryKind::File { identity: 4, size: 8192 },
                )],
            },
        ],
    )
}

#[test]
fn nonexistent_root_fails_synchronously_with_zero_batches() {
    let r = scan_directory_streaming(None, &vec![]);
    assert_eq!(r.unwrap_err(), ScanError::RootNotFound);
}

#[test]
fn two_level_tree_sizes_counters_and_structure() {
    let snap = two_level_snapshot();
    assert!(scan_fits_counters(&snap));
    let batches = scan_directory_streaming(Some(&snap), &vec![]).unwrap();
    assert_eq!(batches.len(), 1);
    let terminal = &batches[0];
    assert!(terminal.is_complete);
    assert_eq!(terminal.total_scanned, 3);
    assert_eq!(terminal.total_size, 12288);
    assert!(terminal.disk_info.is_none());
    let root = terminal.root_node.as_ref().unwrap();
    assert_eq!(root.name, "root");
    assert_eq!(root.size, 12288);
    assert!(root.is_directory);
    let kids = root.children.as_ref().unwrap();
    assert_eq!(kids.len(), 2);
    assert_eq!(kids[0].name, "a.txt");
    assert!(!kids[0].is_directory);
    assert_eq!(kids[0].size, 4096);
    assert_eq!(kids[1].name, "b");
    assert!(kids[1].is_directory);
    assert_eq!(kids[1].size, 8192);
    let b_kids = kids[1].children.as_ref().unwrap();
    assert_eq!(b_kids.len(), 1);
    assert_eq!(b_kids[0].name, "c.txt");
    assert_eq!(b_kids[0].size, 8192);
}

#[test]
fn streamed_nodes_arrive_in_completion_order() {
    let snap = two_level_snapshot();
    let batches = scan_directory_streaming(Some(&snap), &vec![]).unwrap();
    let names: Vec<&str> = batches
        .iter()
        .flat_map(|b| b.nodes.iter().map(|n| n.name.as_str()))
        .collect();
    assert_eq!(names, vec!["a.txt", "c.txt", "b"]);
}

#[test]
fn symlink_loop_terminates_and_adds_nothing() {
    let snap = snapshot(
        entry("root", "/tmp/loop", EntryKind::Dir { dir_id: 0 }),
        vec![DirNode {
            identity: 1,
            entries: vec![
                entry("link", "/tmp/loop/link", EntryKind::SymlinkDir { dir_id: 0 }),
                entry("f", "/tmp/loop/f", EntryKind::File { identity: 2, size: 100 }),
            ],
        }],
    );
    let batches = scan_directory_streaming(Some(&snap), &vec![]).unwrap();
    let terminal = batches.last().unwrap();
    assert_eq!(terminal.total_size, 100);
    assert_eq!(terminal.total_scanned, 2);
    let root = terminal.root_node.as_ref().unwrap();
    assert_eq!(root.size, 100);
    let kids = root.children.as_ref().unwrap();
    assert_eq!(kids[0].name, "link");
    assert_eq!(kids[0].size, 0);
    assert!(!kids[0].is_directory);
    assert!(kids[0].children.is_none());
}

#[test]
fn hard_links_contribute_the_size_exactly_once() {
    let snap = snapshot(
        entry("root", "/tmp/links", EntryKind::Dir { dir_id: 0 }),
        vec![DirNode {
            identity: 1,
            entries: vec![
                entry("a", "/tmp/links/a", EntryKind::File { identity: 5, size: 500 }),
                entry("b", "/tmp/links/b", EntryKind::File { identity: 5, size: 500 }),
            ],
        }],
    );
    let batches = scan_directory_streaming(Some(&snap), &vec![]).unwrap();
    let terminal = batches.last().unwrap();
    assert_eq!(terminal.total_size, 500);
    let root = terminal.root_node.as_ref().unwrap();
    assert_eq!(root.size, 500);
    let kids = root.children.as_ref().unwrap();
    assert_eq!(kids[0].size, 500);
    assert_eq!(kids[1].size, 0);
}

#[test]
fn symlinked_directory_is_counted_once() {
    let snap = snapshot(
        entry("root", "/tmp/twice", EntryKind::Dir { dir_id: 0 }),
        vec![
            DirNode {
                identity: 1,
                entries: vec![
                    entry("sub", "/tmp/twice/sub", EntryKind::Dir { dir_id: 1 }),
                    entry("link", "/tmp/twice/link", EntryKind::SymlinkDir { dir_id: 1 }),
                ],
            },
            DirNode {
                identity: 2,
                entries: vec![entry(
                    "f",
                    "/tmp/twice/sub/f",
                    EntryKind::File { identity: 3, size: 10 },
                )],
            },
        ],
    );
    let batches = scan_directory_streaming(Some(&snap), &vec![]).unwrap();
    let terminal = batches.last().unwrap();
    assert_eq!(terminal.total_size, 10);
    assert_eq!(terminal.total_scanned, 3);
    let root = terminal.root_node.as_ref().unwrap();
    let kids = root.children.as_ref().unwrap();
    assert_eq!(kids[0].name, "sub");
    assert_eq!(kids[0].size, 10);
    assert_eq!(kids[1].name, "link");
    assert_eq!(kids[1].size, 0);
}

#[test]
fn recovered_entries_degrade_to_zero_size_leaves() {
    let snap = snapshot(
        entry("root", "/tmp/messy", EntryKind::Dir { dir_id: 0 }),
        vec![DirNode {
            identity: 1,
            entries: vec![
                entry("p", "/tmp/messy/p", EntryKind::Unreadable),
                entry("q", "/tmp/messy/q", EntryKind::SymlinkBroken),
                entry("r", "/tmp/messy/r", EntryKind::SymlinkOutside),
                entry("s", "/tmp/messy/s", EntryKind::SymlinkFile { identity: 7, size: 64 }),
            ],
        }],
    );
    let batches = scan_directory_streaming(Some(&snap), &vec![]).unwrap();
    let terminal = batches.last().unwrap();
    assert_eq!(terminal.total_size, 64);
    assert_eq!(terminal.total_scanned, 4);
    let root = terminal.root_node.as_ref().unwrap();
    assert_eq!(root.size, 64);
    for k in &root.children.as_ref().unwrap()[0..3] {
        assert_eq!(k.size, 0);
        assert!(!k.is_directory);
    }
}

#[test]
fn volume_root_scan_carries_capacity_only_on_the_terminal_batch() {
    let snap = snapshot(
        entry("X", "/Volumes/X", EntryKind::Dir { dir_id: 0 }),
        vec![DirNode {
            identity: 1,
            entries: (0..(BATCH_SIZE as u64 + 1))
                .map(|i| {
                    entry(
                        &format!("f{}", i),
                        &format!("/Volumes/X/f{}", i),
                        EntryKind::File { identity: 100 + i, size: 1 },
                    )
                })
                .collect(),
        }],
    );
    let disks = vec![
        DiskRecord {
            mount_point: "/".to_string(),
            total_space: 500_000_000_000,
            available_space: 250_000_000_000,
        },
        DiskRecord {
            mount_point: "/Volumes/X".to_string(),
            total_space: 100_000_000_000,
            available_space: 40_000_000_000,
        },
    ];
    let batches = scan_directory_streaming(Some(&snap), &disks).unwrap();
    assert_eq!(batches.len(), 2);
    assert!(!batches[0].is_complete);
    assert!(batches[0].root_node.is_none());
    assert!(batches[0].disk_info.is_none());
    assert_eq!(batches[0].nodes.len(), BATCH_SIZE);
    let terminal = &batches[1];
    assert!(terminal.is_complete);
    assert!(terminal.root_node.is_some());
    let info = terminal.disk_info.unwrap();
    assert_eq!(info.total_space, 100_000_000_000);
    assert_eq!(info.available_space, 40_000_000_000);
    assert_eq!(info.used_space, 60_000_000_000);
    // Every counted entry arrives exactly once over all batches.
    let delivered: usize = batches.iter().map(|b| b.nodes.len()).sum();
    assert_eq!(delivered as u64, terminal.total_scanned);
    assert_eq!(terminal.total_scanned, BATCH_SIZE as u64 + 1);
}

#[test]
fn exactly_one_terminal_batch_with_the_root_tree() {
    let snap = two_level_snapshot();
    let batches = scan_directory_streaming(Some(&snap), &vec![]).unwrap();
    let terminal_count = batches.iter().filter(|b| b.is_complete).count();
    assert_eq!(terminal_count, 1);
    assert!(batches.last().unwrap().is_complete);
    for b in &batches[0..batches.len() - 1] {
        assert!(!b.is_complete);
        assert!(b.root_node.is_none());
        assert!(b.disk_info.is_none());
    }
}

#[test]
fn file_root_reports_its_own_size() {
    let snap = snapshot(
        entry("lone.bin", "/tmp/lone.bin", EntryKind::File { identity: 9, size: 42 }),
        vec![],
    );
    let batches = scan_directory_streaming(Some(&snap), &vec![]).unwrap();
    assert_eq!(batches.len(), 1);
    let terminal = &batches[0];
    assert!(terminal.is_complete);
    assert_eq!(terminal.total_size, 42);
    assert_eq!(terminal.total_scanned, 0);
    let root = terminal.root_node.as_ref().unwrap();
    assert_eq!(root.size, 42);
    assert!(!root.is_directory);
}

#[test]
fn deep_trees_are_cut_for_display_but_fully_sized() {
    // A chain of 120 nested directories with one file at the bottom.
    let depth = 120usize;
    let mut dirs: Vec<DirNode> = Vec::new();
    for level in 0..depth {
        let entries = if level + 1 < depth {
            vec![entry(
                &format!("d{}", level + 1),
                &format!("/tmp/deep/d{}", level + 1),
                EntryKind::Dir { dir_id: level + 1 },
            )]
        } else {
            vec![entry("f", "/tmp/deep/f", EntryKind::File { identity: 9999, size: 77 })]
        };
        dirs.push(DirNode { identity: 10_000 + level as u64, entries });
    }
    let snap = snapshot(entry("d0", "/tmp/deep/d0", EntryKind::Dir { dir_id: 0 }), dirs);
    let batches = scan_directory_streaming(Some(&snap), &vec![]).unwrap();
    let terminal = batches.last().unwrap();
    assert_eq!(terminal.total_size, 77);
    assert_eq!(terminal.total_scanned, depth as u64);
    // The shipped tree is cut at the depth limit: follow it down.
    let mut node = terminal.root_node.as_ref().unwrap();
    let mut levels = 0usize;
    while let Some(kids) = node.children.as_ref() {
        if kids.is_empty() {
            break;
        }
        node = &kids[0];
        levels += 1;
    }
    assert_eq!(levels, 100);
    assert!(node.is_directory);
    assert_eq!(node.size, 77);
}
