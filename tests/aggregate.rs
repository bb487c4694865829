use toucca::aggregate::active_snapshot;

fn active(snapshot: &[bool]) -> Vec<usize> {
    (0..snapshot.len()).filter(|i| snapshot[*i]).collect()
}

#[test]
fn snapshot_is_union_of_pointers_and_overrides() {
    let pointers = vec![vec![1, 2], vec![2, 239]];
    let snap = active_snapshot(&pointers, &[5, 1]);
    assert_eq!(snap.len(), 240);
    assert_eq!(active(&snap), vec![1, 2, 5, 239]);
}

#[test]
fn snapshot_of_nothing_is_empty() {
    let snap = active_snapshot(&vec![], &[]);
    assert_eq!(snap.len(), 240);
    assert!(active(&snap).is_empty());
}

#[test]
fn snapshot_with_only_overrides_or_only_pointers() {
    assert_eq!(active(&active_snapshot(&vec![], &[0, 120, 239])), vec![0, 120, 239]);
    assert_eq!(active(&active_snapshot(&vec![vec![], vec![7]], &[])), vec![7]);
}

#[test]
fn snapshot_ignores_cells_beyond_the_playfield() {
    let snap = active_snapshot(&vec![vec![240, 3]], &[300]);
    assert_eq!(active(&snap), vec![3]);
}
