//! Capacity statistics of a mounted filesystem, and their validation.

use vstd::prelude::*;

use crate::inodes::Inodes;

verus! {

/// inode & blocs information
///
/// The semantics is mostly the one of statvfs, with addition of
///  bused which is necesssary for volumes freely growing in containers
#[derive(Debug, Clone, Copy, PartialEq, Eq, Structural)]
pub struct Stats {
    /// block size
    pub bsize: u64,
    /// number of blocks
    pub blocks: u64,
    /// not provided by statvfs
    pub bused: u64,
    /// number of free blocks
    pub bfree: u64,
    /// number of free blocks for underprivileged users
    pub bavail: u64,
    /// information relative to inodes, if available
    pub inodes: Option<Inodes>,
}

/// Why a mount has no stats.
#[derive(Debug, Clone, Copy, PartialEq, Eq, Structural)]
pub enum StatsError {
    /// the mount point could not be queried
    Unreachable,
    /// the counters make no sense
    Unconsistent,
    /// Options made us not even try
    Excluded,
}

/// The counters of a filesystem as the statvfs call returns them.
#[derive(Debug, Clone, Copy, PartialEq, Eq, Structural)]
pub struct RawStats {
    pub bsize: u64,
    pub blocks: u64,
    pub bfree: u64,
    pub bavail: u64,
    pub files: u64,
    pub ffree: u64,
    pub favail: u64,
}

/// Whether block counters are inconsistent or void.
pub open spec fn unconsistent(raw: RawStats) -> bool {
    raw.bsize == 0 || raw.blocks == 0 || raw.bfree > raw.blocks || raw.bavail > raw.blocks
}

impl Stats {
    /// Stats from the counters of a successful statvfs call: `Unconsistent`
    /// when the block size or the number of blocks is zero or when more blocks
    /// are free than exist; the inodes are kept only when consistent.
    pub fn from_counters(raw: &RawStats) -> (r: Result<Self, StatsError>)
        ensures
            unconsistent(*raw) ==> r == Err::<Self, StatsError>(StatsError::Unconsistent),
            !unconsistent(*raw) ==> r is Ok && r->Ok_0 == (Stats {
                bsize: raw.bsize,
                blocks: raw.blocks,
                bused: (raw.blocks - raw.bavail) as u64,
                bfree: raw.bfree,
                bavail: raw.bavail,
                inodes: if raw.files > 0 && raw.ffree <= raw.files && raw.favail <= raw.files {
                    Some(Inodes { files: raw.files, ffree: raw.ffree, favail: raw.favail })
                } else {
                    None
                },
            }),
    {
        if raw.bsize == 0 || raw.blocks == 0 || raw.bfree > raw.blocks || raw.bavail > raw.blocks {
            return Err(StatsError::Unconsistent);
        }
        let bused = raw.blocks - raw.bavail;
        let inodes = Inodes::new(raw.files, raw.ffree, raw.favail);
        Ok(Stats { bsize: raw.bsize, blocks: raw.blocks, bused, bfree: raw.bfree, bavail: raw.bavail, inodes })
    }

    /// Size of the volume, in bytes.
    pub fn size(&self) -> (r: u64)
        requires
            self.bsize * self.blocks <= u64::MAX,
        ensures
            r == self.bsize * self.blocks,
    {
        self.bsize * self.blocks
    }

    /// Space available to unprivileged users, in bytes.
    pub fn available(&self) -> (r: u64)
        requires
            self.bsize * self.bavail <= u64::MAX,
        ensures
            r == self.bsize * self.bavail,
    {
        self.bsize * self.bavail
    }

    /// Space used in the volume (including unreadable fs metadata)
    pub fn used(&self) -> (r: u64)
        requires
            self.bsize * self.bused <= u64::MAX,
        ensures
            r == self.bsize * self.bused,
    {
        self.bsize * self.bused
    }
}

} // verus!
