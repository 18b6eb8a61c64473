use fuzz_monitor::myperf::{BTSBranch, BranchStore};

fn edge(from: u64, to: u64) -> BTSBranch {
    BTSBranch { from, to, misc: 0 }
}

#[test]
fn an_empty_store_knows_nothing() {
    let store = BranchStore::empty();
    assert_eq!(store.total_distinct(), 0);
    assert_eq!(store.hits(&edge(1, 2)), 0);
}

#[test]
fn add_counts_new_branches_once() {
    let mut store = BranchStore::empty();
    assert_eq!(store.add(&[edge(1, 2), edge(3, 4), edge(1, 2)]), 2);
    assert_eq!(store.total_distinct(), 2);
    assert_eq!(store.hits(&edge(1, 2)), 2);
    assert_eq!(store.hits(&edge(3, 4)), 1);
    assert_eq!(store.hits(&edge(2, 1)), 0);
}

#[test]
fn add_of_nothing_changes_nothing() {
    let mut store = BranchStore::empty();
    assert_eq!(store.add(&[]), 0);
    assert_eq!(store.total_distinct(), 0);
    store.add(&[edge(1, 2)]);
    assert_eq!(store.add(&[]), 0);
    assert_eq!(store.total_distinct(), 1);
    assert_eq!(store.hits(&edge(1, 2)), 1);
}

#[test]
fn merging_a_batch_twice_adds_nothing_new() {
    let batch = [edge(10, 20), edge(30, 40), edge(10, 20), edge(50, 60)];
    let mut store = BranchStore::empty();
    assert_eq!(store.add(&batch), 3);
    assert_eq!(store.total_distinct(), 3);
    assert_eq!(store.add(&batch), 0);
    assert_eq!(store.total_distinct(), 3);
    assert_eq!(store.hits(&edge(10, 20)), 4);
    assert_eq!(store.hits(&edge(30, 40)), 2);
}

#[test]
fn total_distinct_never_falls_and_counts_distinct_triples() {
    let batches: [&[BTSBranch]; 5] = [
        &[edge(1, 2), edge(2, 3)],
        &[edge(2, 3)],
        &[],
        &[edge(3, 4), edge(1, 2), edge(4, 5)],
        &[edge(1, 2)],
    ];
    let totals: [u64; 5] = [2, 2, 2, 4, 4];
    let mut store = BranchStore::empty();
    let mut last: u64 = 0;
    for (batch, expected) in batches.iter().zip(totals) {
        store.add(batch);
        assert!(store.total_distinct() >= last);
        assert_eq!(store.total_distinct(), expected);
        last = store.total_distinct();
    }
}

#[test]
fn the_order_within_a_batch_does_not_matter() {
    let mut forward = BranchStore::empty();
    let mut backward = BranchStore::empty();
    assert_eq!(forward.add(&[edge(1, 2), edge(3, 4), edge(1, 2)]), 2);
    assert_eq!(backward.add(&[edge(1, 2), edge(1, 2), edge(3, 4)]), 2);
    for e in [edge(1, 2), edge(3, 4)] {
        assert_eq!(forward.hits(&e), backward.hits(&e));
    }
    assert_eq!(forward.total_distinct(), backward.total_distinct());
}

#[test]
fn all_three_fields_tell_branches_apart() {
    let mut store = BranchStore::empty();
    let batch = [
        BTSBranch { from: 1, to: 2, misc: 0 },
        BTSBranch { from: 1, to: 2, misc: 1 },
        BTSBranch { from: 2, to: 1, misc: 0 },
        BTSBranch { from: 1, to: 3, misc: 0 },
        BTSBranch { from: 0, to: 2, misc: 0 },
        BTSBranch { from: 1, to: 2, misc: 0 },
    ];
    assert_eq!(store.add(&batch), 5);
    assert_eq!(store.total_distinct(), 5);
    assert_eq!(store.hits(&BTSBranch { from: 1, to: 2, misc: 0 }), 2);
    assert_eq!(store.hits(&BTSBranch { from: 1, to: 2, misc: 1 }), 1);
    assert_eq!(store.hits(&BTSBranch { from: 1, to: 2, misc: 2 }), 0);
}

#[test]
fn addresses_at_the_ends_of_the_range() {
    let mut store = BranchStore::empty();
    let batch = [
        edge(0, 0),
        edge(u64::MAX, u64::MAX),
        edge(0, u64::MAX),
        edge(u64::MAX, 0),
        edge(1, 0),
        edge(0, 1),
        BTSBranch { from: u64::MAX, to: u64::MAX, misc: u64::MAX },
    ];
    assert_eq!(store.add(&batch), 7);
    assert_eq!(store.add(&batch), 0);
    assert_eq!(store.total_distinct(), 7);
    for e in batch {
        assert_eq!(store.hits(&e), 2);
    }
}

#[test]
fn many_branches() {
    let mut store = BranchStore::empty();
    let batch: Vec<BTSBranch> = (0..1000u64).map(|i| edge(i % 100, i % 7)).collect();
    let mut distinct = std::collections::HashSet::new();
    for e in &batch {
        distinct.insert(*e);
    }
    assert_eq!(store.add(&batch), distinct.len());
    assert_eq!(store.total_distinct(), distinct.len() as u64);
    for e in &distinct {
        let expected = batch.iter().filter(|other| *other == e).count() as u64;
        assert_eq!(store.hits(e), expected);
    }
}

#[test]
fn branches_compare_by_their_fields() {
    assert_eq!(edge(1, 2), BTSBranch { from: 1, to: 2, misc: 0 });
    assert_ne!(edge(1, 2), BTSBranch { from: 1, to: 2, misc: 1 });
    assert_ne!(edge(1, 2), edge(2, 1));
    let copy = edge(1, 2).clone();
    assert_eq!(copy, edge(1, 2));
}

#[test]
fn the_store_agrees_with_a_map_from_branches_to_counts() {
    let mut state: u64 = 7;
    let mut next = move || {
        state = state.wrapping_mul(6364136223846793005).wrapping_add(1442695040888963407);
        state >> 33
    };
    let mut store = BranchStore::empty();
    let mut model: std::collections::HashMap<BTSBranch, u64> = std::collections::HashMap::new();
    for _ in 0..200 {
        let batch: Vec<BTSBranch> = (0..next() % 40)
            .map(|_| BTSBranch { from: next() % 12, to: next() % 12, misc: next() % 2 })
            .collect();
        let mut new: usize = 0;
        for branch in &batch {
            if let Some(entry) = model.get_mut(branch) {
                *entry += 1;
                continue;
            }
            model.insert(*branch, 1);
            new += 1;
        }
        assert_eq!(store.add(&batch), new);
        assert_eq!(store.total_distinct(), model.len() as u64);
        for (branch, count) in &model {
            assert_eq!(store.hits(branch), *count);
        }
    }
    assert_eq!(store.hits(&BTSBranch { from: 99, to: 99, misc: 0 }), 0);
}
