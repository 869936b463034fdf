use lfs_core::{Inodes, RawStats, Stats, StatsError};

fn raw(bsize: u64, blocks: u64, bfree: u64, bavail: u64) -> RawStats {
    RawStats {
        bsize,
        blocks,
        bfree,
        bavail,
        files: 100,
        ffree: 50,
        favail: 40,
    }
}

#[test]
fn inodes_consistency() {
    assert!(Inodes::new(0, 0, 0).is_none());
    assert!(Inodes::new(0, 5, 5).is_none());
    assert!(Inodes::new(10, 11, 0).is_none());
    assert!(Inodes::new(10, 0, 11).is_none());
    let inodes = Inodes::new(100, 50, 40).unwrap();
    assert_eq!(inodes.used(), 60);
    assert_eq!(inodes.used() as f64 / inodes.files as f64, 0.6);
}

#[test]
fn unconsistent_counters() {
    assert_eq!(Stats::from_counters(&raw(0, 10, 5, 5)), Err(StatsError::Unconsistent));
    assert_eq!(Stats::from_counters(&raw(4096, 0, 0, 0)), Err(StatsError::Unconsistent));
    assert_eq!(Stats::from_counters(&raw(4096, 10, 11, 5)), Err(StatsError::Unconsistent));
    assert_eq!(Stats::from_counters(&raw(4096, 10, 5, 11)), Err(StatsError::Unconsistent));
}

#[test]
fn consistent_counters() {
    let s = Stats::from_counters(&raw(4096, 1000, 300, 200)).unwrap();
    assert_eq!(s.bused, 800);
    assert_eq!(s.size(), 4_096_000);
    assert_eq!(s.available(), 819_200);
    assert_eq!(s.used(), 3_276_800);
    assert_eq!(s.inodes, Inodes::new(100, 50, 40));
    let mut bad_inodes = raw(512, 10, 0, 0);
    bad_inodes.ffree = 101;
    let s = Stats::from_counters(&bad_inodes).unwrap();
    assert_eq!(s.inodes, None);
    assert_eq!(s.bused, 10);
}
