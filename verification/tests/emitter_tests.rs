use dirscan::emitter::{BatchEmitter, BATCH_SIZE};
use dirscan::node::FileNode;

fn leaf(name: &str, size: u64) -> FileNode {
    FileNode {
        name: name.to_string(),
        size,
        path: format!("/{}", name),
        children: None,
        is_directory: false,
    }
}

#[test]
fn counters_accumulate() {
    let mut em = BatchEmitter::new();
    em.increment_counter();
    em.increment_counter();
    em.add_size(4096);
    em.add_size(8192);
    let (count, size) = em.get_stats();
    assert_eq!(count, 2);
    assert_eq!(size, 12288);
}

#[test]
fn buffer_reports_the_flush_threshold() {
    let mut em = BatchEmitter::new();
    for i in 0..BATCH_SIZE - 1 {
        assert!(!em.add_to_buffer(leaf("f", i as u64)));
    }
    assert!(em.add_to_buffer(leaf("f", 0)));
}

#[test]
fn clear_buffer_drains_everything() {
    let mut em = BatchEmitter::new();
    em.add_to_buffer(leaf("a", 1));
    em.add_to_buffer(leaf("b", 2));
    let drained = em.clear_buffer();
    assert_eq!(drained.len(), 2);
    assert_eq!(drained[0].name, "a");
    assert_eq!(drained[1].name, "b");
    assert!(em.clear_buffer().is_empty());
}

#[test]
fn send_batch_is_nonterminal_and_carries_counters() {
    let mut em = BatchEmitter::new();
    em.increment_counter();
    em.add_size(10);
    em.add_to_buffer(leaf("a", 10));
    em.send_batch();
    let batches = em.finish();
    assert_eq!(batches.len(), 1);
    let b = &batches[0];
    assert!(!b.is_complete);
    assert!(b.root_node.is_none());
    assert!(b.disk_info.is_none());
    assert_eq!(b.nodes.len(), 1);
    assert_eq!(b.total_scanned, 1);
    assert_eq!(b.total_size, 10);
}

#[test]
fn final_batch_is_terminal_and_carries_the_root() {
    let mut em = BatchEmitter::new();
    em.increment_counter();
    em.add_size(7);
    em.add_to_buffer(leaf("a", 7));
    em.send_final_batch(leaf("root", 7), None);
    let batches = em.finish();
    assert_eq!(batches.len(), 1);
    let b = &batches[0];
    assert!(b.is_complete);
    assert_eq!(b.nodes.len(), 1);
    assert_eq!(b.root_node.as_ref().unwrap().name, "root");
    assert!(b.disk_info.is_none());
}

#[test]
fn final_batch_is_sent_even_with_an_empty_buffer() {
    let mut em = BatchEmitter::new();
    em.send_final_batch(leaf("root", 0), None);
    let batches = em.finish();
    assert_eq!(batches.len(), 1);
    assert!(batches[0].is_complete);
    assert!(batches[0].nodes.is_empty());
    assert!(batches[0].root_node.is_some());
}
