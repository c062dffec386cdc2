use dirscan::guard::{CycleGuard, EnterOutcome};

#[test]
fn fresh_directory_descends() {
    let mut g = CycleGuard::new();
    assert_eq!(g.enter(0, 100), EnterOutcome::Descend);
}

#[test]
fn active_ancestor_is_a_loop() {
    let mut g = CycleGuard::new();
    assert_eq!(g.enter(0, 100), EnterOutcome::Descend);
    assert_eq!(g.enter(0, 100), EnterOutcome::AncestorLoop);
    assert_eq!(g.enter(0, 999), EnterOutcome::AncestorLoop);
}

#[test]
fn counted_identity_is_a_duplicate() {
    let mut g = CycleGuard::new();
    assert_eq!(g.enter(0, 100), EnterOutcome::Descend);
    assert_eq!(g.enter(1, 100), EnterOutcome::AlreadyCounted);
}

#[test]
fn identity_stays_counted_after_leave() {
    let mut g = CycleGuard::new();
    assert_eq!(g.enter(0, 100), EnterOutcome::Descend);
    g.leave(0);
    assert_eq!(g.enter(0, 100), EnterOutcome::AlreadyCounted);
}

#[test]
fn leave_reopens_the_path_for_fresh_identities() {
    let mut g = CycleGuard::new();
    assert_eq!(g.enter(0, 100), EnterOutcome::Descend);
    assert_eq!(g.enter(1, 200), EnterOutcome::Descend);
    g.leave(1);
    assert!(g.is_in_recursion_stack(0));
    assert!(!g.is_in_recursion_stack(1));
}

#[test]
fn inode_marks_are_observable() {
    let mut g = CycleGuard::new();
    assert!(!g.is_visited_inode(7));
    g.mark_visited_inode(7);
    assert!(g.is_visited_inode(7));
    assert!(!g.is_visited_inode(8));
}
