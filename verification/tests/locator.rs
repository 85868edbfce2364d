use contracts_query::locator::MigrationBoundaryLocator;
use contracts_query::probe::BlockInfo;
use contracts_query::QueryError;

fn encode_version(v: u16) -> Vec<u8> {
    vec![(v & 0xff) as u8, (v >> 8) as u8]
}

fn probe(n: u32, f: &dyn Fn(u32) -> (u16, bool)) -> BlockInfo {
    let (version, flag) = f(n);
    let migration_slot = if flag { Some(vec![]) } else { None };
    BlockInfo::from_reads(n, vec![0u8; 32], Some(encode_version(version)), migration_slot)
        .unwrap()
}

/// Run one full search under a synthetic schedule; returns the answer and
/// the number of probes it cost.
fn locate(initial: &BlockInfo, f: &dyn Fn(u32) -> (u16, bool)) -> (BlockInfo, usize) {
    let mut loc = MigrationBoundaryLocator::new(initial).unwrap();
    let mut probes = 0usize;
    loop {
        let n = loc.pending_probe().expect("search still running");
        probes += 1;
        if let Some(answer) = loc.feed(probe(n, f)) {
            return (answer, probes);
        }
    }
}

/// The concrete scenario: versions (8, migrating) on blocks 100..=105,
/// (8, settled) on 106..=200, an older version below 100.
fn p7_schedule(n: u32) -> (u16, bool) {
    if n < 100 {
        (7, false)
    } else if n <= 105 {
        (8, true)
    } else {
        (8, false)
    }
}

#[test]
fn concrete_scenario() {
    let initial = probe(200, &p7_schedule);
    assert_eq!((initial.version, initial.migration_in_progress), (8, false));

    let (boundary, probes) = locate(&initial, &p7_schedule);
    assert_eq!(boundary.block_number, 105);
    assert_eq!(boundary.version, 8);
    assert!(boundary.migration_in_progress);
    // O(log 200) point queries, not a linear scan.
    assert!(probes <= 10, "took {} probes", probes);

    let (earlier, _) = locate(&boundary, &p7_schedule);
    assert_eq!(earlier.block_number, 99);
    assert_eq!(earlier.version, 7);
    assert!(!earlier.migration_in_progress);
}

#[test]
fn single_unknown_transition() {
    // One transition at an arbitrary block; the answer is its predecessor.
    for b in [1u32, 2, 57, 149, 150] {
        let f = move |n: u32| -> (u16, bool) { if n >= b { (5, false) } else { (4, false) } };
        let initial = probe(150, &f);
        let (boundary, probes) = locate(&initial, &f);
        assert_eq!(boundary.block_number, b - 1, "transition at {}", b);
        assert_eq!(boundary.version, 4);
        assert!(probes <= 10, "transition at {} took {} probes", b, probes);
    }
}

#[test]
fn no_transition_in_window() {
    // Every block equivalent to the initial state: the search bottoms out
    // at block zero and returns its (equivalent) state unchanged.
    let f = |_: u32| (6u16, false);
    let initial = probe(10, &f);
    let (boundary, _) = locate(&initial, &f);
    assert_eq!(boundary.block_number, 0);
    assert_eq!(boundary.version, 6);
}

#[test]
fn window_of_one_block() {
    let changed = |n: u32| -> (u16, bool) { if n >= 1 { (2, false) } else { (1, false) } };
    let initial = probe(1, &changed);
    let (boundary, _) = locate(&initial, &changed);
    assert_eq!(boundary.block_number, 0);
    assert_eq!(boundary.version, 1);

    let constant = |_: u32| (2u16, false);
    let initial = probe(1, &constant);
    let (boundary, _) = locate(&initial, &constant);
    assert_eq!(boundary.block_number, 0);
    assert_eq!(boundary.version, 2);
}

#[test]
fn empty_window_rejected() {
    let f = |_: u32| (3u16, false);
    let at_zero = probe(0, &f);
    match MigrationBoundaryLocator::new(&at_zero) {
        Err(e) => assert_eq!(e, QueryError::InvalidRange),
        Ok(_) => panic!("a search below block zero must be rejected"),
    }
}

#[test]
fn repetition_walks_back_through_every_transition() {
    // A schedule with three transitions: repeated searches, each fed the
    // previous answer, walk strictly backward and take exactly three
    // iterations to reach the oldest state.
    let f = |n: u32| -> (u16, bool) {
        if n < 50 {
            (1, false)
        } else if n < 100 {
            (2, false)
        } else if n < 150 {
            (3, true)
        } else {
            (4, false)
        }
    };
    let mut info = probe(180, &f);
    let mut iterations = 0usize;
    while !info.reached_target(1) {
        let previous_number = info.block_number;
        let (next, _) = locate(&info, &f);
        assert!(next.block_number < previous_number, "the walk must strictly descend");
        info = next;
        iterations += 1;
    }
    assert_eq!(iterations, 3);
    assert_eq!(info.block_number, 49);
    assert_eq!(info.version, 1);
}
