use fixed_queue::sync::{MemoryGroup, MemoryOp, MemorySeek, MemoryState};

#[test]
fn group_counts_laps() {
    assert_eq!(MemoryGroup::max_group(), 0x10000);
    let g = MemoryGroup::new();
    assert_eq!(g.group(), 0);
    assert_eq!(g.next().group(), 1);
    assert_eq!(MemoryGroup::from_idx(7, 3).group(), 2);
    // the lap counter wraps after 0x10000 laps
    assert_eq!(MemoryGroup::from_idx(3 * 0x10000 + 3, 3).group(), 1);
    assert_eq!(MemoryGroup::max_idx(1), usize::MAX / 0x10000 * 0x10000);
}

#[test]
fn op_walks_the_lifecycle() {
    let g = MemoryGroup::new();
    let op = MemoryOp::new(g, MemoryState::Uninitialized);
    let claimed = op.next();
    assert_eq!(claimed.state(), MemoryState::Writting);
    assert_eq!(claimed.group().group(), 0);
    let published = claimed.next();
    assert_eq!(published.state(), MemoryState::Written);
    let reading = published.next();
    assert_eq!(reading.state(), MemoryState::Reading);
    let reused = reading.next();
    // finishing a read advances the slot to its next lap
    assert_eq!(reused.state(), MemoryState::Uninitialized);
    assert_eq!(reused.group().group(), 1);
}

#[test]
fn seek_counts_borrows() {
    let mut seek = MemorySeek::new();
    assert!(seek.is_uninitialized());
    assert!(!seek.can_seek());
    assert!(seek.seek_num().is_err());

    let mut seek = MemorySeek::written();
    assert!(seek.can_seek());
    assert!(!seek.is_uninitialized());
    assert!(!seek.is_writting());
    assert!(!seek.is_reading());
    assert_eq!(seek.seek_num(), Ok(0));
    assert!(seek.seek_sub().is_err());
    assert!(seek.seek_add().is_ok());
    assert_eq!(seek.seek_num(), Ok(1));
    assert!(seek.seek_add().is_ok());
    assert_eq!(seek.seek_num(), Ok(2));
    assert!(seek.seek_sub().is_ok());
    assert!(seek.seek_sub().is_ok());
    assert_eq!(seek.seek_num(), Ok(0));
    assert!(seek.seek_sub().is_err());
}
