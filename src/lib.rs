//! Inventory of mounted filesystems: mount-table parsing, block-device
//! topology, labels, capacity statistics and their fusion into mount records.
//!
//! The library holds the logic; reading the system files and calling statvfs
//! is left to the caller, who hands the contents to these functions.

pub mod block_device;
pub mod device_id;
pub mod disk;
pub mod error;
pub mod inodes;
pub mod label;
pub mod mount;
pub mod mountinfo;
pub mod read_options;
pub mod stats;
pub mod text;

pub use block_device::{BlockDevice, BlockDeviceList};
pub use device_id::{DeviceId, ParseDeviceIdError};
pub use disk::{new_disk, parse_sys_bool, Disk};
pub use error::Error;
pub use inodes::Inodes;
pub use label::{get_label, labelling_of_link, Labelling};
pub use mount::{needs_stats, Mount};
pub use mountinfo::{parse_mountinfos, MountId, MountInfo, MountOption, ParseMountInfoError};
pub use read_options::{ParseStrategyError, ReadOptions, Strategy};
pub use stats::{RawStats, Stats, StatsError};
pub use text::decode_string;
