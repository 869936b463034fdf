//! Mount records: a mount-table entry fused with its disk, labels and stats.

use vstd::prelude::*;

use crate::disk::Disk;
use crate::inodes::Inodes;
use crate::label::{get_label, label_of, opt_string_view, slice_view, Labelling};
use crate::mountinfo::{looks_remote, MountInfo};
use crate::read_options::ReadOptions;
use crate::stats::{Stats, StatsError};

verus! {

/// A mount point
#[derive(Debug)]
pub struct Mount {
    pub info: MountInfo,
    pub fs_label: Option<String>,
    pub disk: Option<Disk>,
    pub stats: Result<Stats, StatsError>,
    pub uuid: Option<String>,
    pub part_uuid: Option<String>,
}

/// Whether the stats of a mount are to be read: not when remote stats are
/// excluded and the mount looks remote.
pub open spec fn stats_wanted(options: ReadOptions, info: MountInfo) -> bool {
    options.remote_stats || !looks_remote(info.fs@, info.fs_type@)
}

/// Whether the stats call is to be made for this mount. When it is not, the
/// mount's stats are `Excluded` and the call must not be made at all.
pub fn needs_stats(options: &ReadOptions, info: &MountInfo) -> (r: bool)
    ensures
        r == stats_wanted(*options, *info),
        !options.remote_stats && looks_remote(info.fs@, info.fs_type@) ==> !r,
{
    options.remote_stats || !info.is_remote()
}

impl Mount {
    /// The record of a mount-table entry. `disk` is the disk of its top block
    /// device; the label, UUID and partition UUID are looked up by the
    /// entry's source in each index that could be read; `read` is the outcome
    /// of the stats call, present exactly when `needs_stats` asked for it.
    pub fn assemble(
        info: MountInfo,
        disk: Option<Disk>,
        by_label: Option<&[Labelling]>,
        by_uuid: Option<&[Labelling]>,
        by_partuuid: Option<&[Labelling]>,
        options: &ReadOptions,
        read: Option<Result<Stats, StatsError>>,
    ) -> (r: Mount)
        requires
            read is Some <==> stats_wanted(*options, info),
        ensures
            r.info == info,
            r.disk == disk,
            opt_string_view(r.fs_label) == label_of(info.fs@, slice_view(by_label)),
            opt_string_view(r.uuid) == label_of(info.fs@, slice_view(by_uuid)),
            opt_string_view(r.part_uuid) == label_of(info.fs@, slice_view(by_partuuid)),
            !stats_wanted(*options, info) ==> r.stats == Err::<Stats, StatsError>(
                StatsError::Excluded,
            ),
            stats_wanted(*options, info) ==> r.stats == read->0,
    {
        let fs_label = get_label(info.fs.as_str(), by_label);
        let uuid = get_label(info.fs.as_str(), by_uuid);
        let part_uuid = get_label(info.fs.as_str(), by_partuuid);
        let stats = match read {
            Some(s) => s,
            None => Err(StatsError::Excluded),
        };
        Mount { info, fs_label, disk, stats, uuid, part_uuid }
    }

    /// Return inodes information, when available and consistent
    pub fn inodes(&self) -> (r: Option<&Inodes>)
        ensures
            r is Some <==> (self.stats is Ok && self.stats->Ok_0.inodes is Some),
            r is Some ==> *r->0 == self.stats->Ok_0.inodes->0,
    {
        match &self.stats {
            Ok(s) => match &s.inodes {
                Some(i) => Some(i),
                None => None,
            },
            Err(_) => None,
        }
    }

    /// Return the stats, if they could be fetched and make sense.
    pub fn stats(&self) -> (r: Option<&Stats>)
        ensures
            r is Some <==> self.stats is Ok,
            r is Some ==> *r->0 == self.stats->Ok_0,
    {
        match &self.stats {
            Ok(s) => Some(s),
            Err(_) => None,
        }
    }

    /// Tell whether the reason we have no stats is because the
    /// filesystem is unreachable
    pub fn is_unreachable(&self) -> (r: bool)
        ensures
            r == (self.stats == Err::<Stats, StatsError>(StatsError::Unreachable)),
    {
        match self.stats {
            Err(StatsError::Unreachable) => true,
            _ => false,
        }
    }

    /// tell whether the mount looks remote
    pub fn is_remote(&self) -> (r: bool)
        ensures
            r == looks_remote(self.info.fs@, self.info.fs_type@),
    {
        self.info.is_remote()
    }
}

} // verus!
