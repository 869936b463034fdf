//! Inode counters of a filesystem.

use vstd::prelude::*;

verus! {

/// inode information
///
/// This structure isn't built if data aren't consistent
#[derive(Debug, Clone, Copy, PartialEq, Eq, Structural)]
pub struct Inodes {
    /// number of inodes, always > 0
    pub files: u64,
    /// number of free inodes
    pub ffree: u64,
    /// number of free inodes for underprivileged users
    pub favail: u64,
}

impl Inodes {
    /// Whether the counters are consistent: some inodes, and no more free
    /// ones than there are.
    pub open spec fn wf(&self) -> bool {
        self.files > 0 && self.ffree <= self.files && self.favail <= self.files
    }

    /// Create the structure if the given values are consistent,
    /// return None if they aren't.
    pub fn new(files: u64, ffree: u64, favail: u64) -> (r: Option<Self>)
        ensures
            r is Some <==> (files > 0 && ffree <= files && favail <= files),
            r is Some ==> r->0 == (Inodes { files, ffree, favail }),
            r is Some ==> r->0.wf(),
    {
        if files > 0 && ffree <= files && favail <= files {
            Some(Self { files, ffree, favail })
        } else {
            None
        }
    }

    /// number of non available inodes: between 0 and `files`, so that the
    /// share `used / files` lies in [0, 1]
    pub fn used(&self) -> (r: u64)
        requires
            self.favail <= self.files,
        ensures
            r == self.files - self.favail,
            r <= self.files,
    {
        self.files - self.favail
    }
}

} // verus!
