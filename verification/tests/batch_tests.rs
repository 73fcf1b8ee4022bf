use roots_core::batch::{released_resources, BufferOp, FrameSet, ResidentSet};

#[test]
fn first_frame_creates_a_buffer_per_key() {
    let mut set = ResidentSet::new();
    let ops = set.reconcile(&vec![(1, 3), (2, 5)]);
    assert_eq!(
        ops,
        vec![
            BufferOp::Create { key: 1, count: 3 },
            BufferOp::Create { key: 2, count: 5 },
        ]
    );
}

#[test]
fn diff_updates_in_place_creates_and_releases() {
    let mut set = ResidentSet::new();
    set.reconcile(&vec![(1, 3), (2, 5)]);

    // Key 1 vanished, key 2 shrank (fits in place), key 3 is new.
    let ops = set.reconcile(&vec![(2, 4), (3, 2)]);
    assert_eq!(
        ops,
        vec![
            BufferOp::Write { key: 2, count: 4 },
            BufferOp::Create { key: 3, count: 2 },
            BufferOp::Release { key: 1 },
        ]
    );
}

#[test]
fn growing_past_capacity_reallocates_exactly_to_the_new_count() {
    let mut set = ResidentSet::new();
    set.reconcile(&vec![(2, 5)]);
    // Shrink: capacity 5 is kept, only the count drops.
    let ops = set.reconcile(&vec![(2, 3)]);
    assert_eq!(ops, vec![BufferOp::Write { key: 2, count: 3 }]);
    // Still fits the retained capacity of 5.
    let ops = set.reconcile(&vec![(2, 5)]);
    assert_eq!(ops, vec![BufferOp::Write { key: 2, count: 5 }]);
    // Outgrows it: reallocate sized to exactly the new count.
    let ops = set.reconcile(&vec![(2, 9)]);
    assert_eq!(ops, vec![BufferOp::Grow { key: 2, count: 9 }]);
}

#[test]
fn empty_frame_releases_everything_and_draws_nothing() {
    let mut set = ResidentSet::new();
    set.reconcile(&vec![(1, 1), (2, 2), (3, 3)]);
    let ops = set.reconcile(&vec![]);
    assert_eq!(
        ops,
        vec![
            BufferOp::Release { key: 1 },
            BufferOp::Release { key: 2 },
            BufferOp::Release { key: 3 },
        ]
    );
    // A further empty frame has nothing left to release.
    assert_eq!(set.reconcile(&vec![]), vec![]);
}

#[test]
fn unreferenced_backing_resources_are_released() {
    let previous = vec![10, 11, 12, 13];
    let used = vec![11, 13];
    assert_eq!(released_resources(&previous, &used), vec![10, 12]);
    assert_eq!(released_resources(&previous, &previous), Vec::<u64>::new());
    assert_eq!(released_resources(&vec![], &used), Vec::<u64>::new());
}

#[test]
fn frame_set_drops_untouched_ids() {
    let mut frame = FrameSet::new();
    assert!(frame.touch(1));
    assert!(frame.touch(2));
    assert!(!frame.touch(1), "an id touched twice is created once");
    assert_eq!(frame.finish(), Vec::<u64>::new());

    // Next frame only wants id 2: id 1 is handed back for release.
    assert!(!frame.touch(2));
    assert_eq!(frame.finish(), vec![1]);

    // A frame that touches nothing releases everything.
    assert_eq!(frame.finish(), vec![2]);
    assert_eq!(frame.finish(), Vec::<u64>::new());
}
