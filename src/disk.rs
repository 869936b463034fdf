//! The physical device under a filesystem, and its classification.

use vstd::prelude::*;

use crate::text::{all_digits, chars_of, same_chars, starts_with, trim, trim_chars};

verus! {

/// what we have most looking like a physical device
#[derive(Debug, Clone)]
pub struct Disk {
    /// a name, like "sda", "sdc", "nvme0n1", etc.
    pub name: String,
    /// true for HDD, false for SSD, None for unknown.
    /// This information isn't reliable for USB devices
    pub rotational: Option<bool>,
    /// whether the system thinks the media is removable.
    /// Seems reliable when not mapped
    pub removable: Option<bool>,
    /// whether the disk is read-only
    pub read_only: Option<bool>,
    /// whether it's a RAM disk
    pub ram: bool,
    /// disk image (Mac only right now)
    pub image: bool,
    /// whether it's on LVM
    pub lvm: bool,
    /// whether it's a crypted disk
    pub crypted: bool,
}

/// The classification tag of a disk, by precedence: RAM, image, encrypted,
/// volume manager, then removable / rotational.
pub open spec fn disk_type_of(d: Disk) -> Seq<char> {
    if d.ram {
        "RAM"@
    } else if d.image {
        "imag"@
    } else if d.crypted {
        "crypt"@
    } else if d.lvm {
        "LVM"@
    } else if d.removable == Some(true) {
        "remov"@
    } else if d.removable == Some(false) && d.rotational == Some(true) {
        "HDD"@
    } else if d.removable == Some(false) && d.rotational == Some(false) {
        "SSD"@
    } else {
        ""@
    }
}

/// What a boolean attribute file holds: `0` or `1`, surrounded by whitespace.
pub open spec fn sys_bool(content: Seq<char>) -> Option<bool> {
    if trim(content) == "0"@ {
        Some(false)
    } else if trim(content) == "1"@ {
        Some(true)
    } else {
        None
    }
}

/// Whether a device name is that of a compressed RAM device: `zram` followed by digits.
pub open spec fn is_zram_name(name: Seq<char>) -> bool {
    name.len() >= 4 && name.take(4) == "zram"@ && all_digits(name.skip(4))
}

pub open spec fn starts_with_spec(s: Seq<char>, p: Seq<char>) -> bool {
    p.len() <= s.len() && s.take(p.len() as int) == p
}

impl Disk {
    /// a synthetic code trying to express the essence of the type of media,
    /// an empty str being returned when information couldn't be gathered.
    /// This code is for humans and may change in future minor versions.
    pub fn disk_type(&self) -> (r: &'static str)
        ensures
            r@ == disk_type_of(*self),
    {
        if self.ram {
            "RAM"
        } else if self.image {
            "imag"
        } else if self.crypted {
            "crypt"
        } else if self.lvm {
            "LVM"
        } else {
            match (self.removable, self.rotational) {
                (Some(true), _) => "remov",
                (Some(false), Some(true)) => "HDD",
                (Some(false), Some(false)) => "SSD",
                _ => "",
            }
        }
    }
}

/// Reads a boolean attribute (`0` or `1`).
pub fn parse_sys_bool(content: &str) -> (r: Option<bool>)
    ensures
        r == sys_bool(content@),
{
    let t = trim_chars(&chars_of(content));
    if same_chars(&t, "0") {
        Some(false)
    } else if same_chars(&t, "1") {
        Some(true)
    } else {
        None
    }
}

/// The disk of a block device, from the contents of its `queue/rotational`,
/// `removable` and `dm/uuid` attributes, when they could be read.
pub fn new_disk(
    name: String,
    rotational: Option<&str>,
    removable: Option<&str>,
    dm_uuid: Option<&str>,
) -> (r: Disk)
    ensures
        r.name == name,
        r.rotational == (match rotational {
            Some(c) => sys_bool(c@),
            None => None,
        }),
        r.removable == (match removable {
            Some(c) => sys_bool(c@),
            None => None,
        }),
        r.ram == is_zram_name(name@),
        r.crypted == (dm_uuid is Some && starts_with_spec(dm_uuid->0@, "CRYPT-"@)),
        r.lvm == (dm_uuid is Some && starts_with_spec(dm_uuid->0@, "LVM-"@)),
        !r.image,
        r.read_only is None,
{
    let rotational = match rotational {
        Some(c) => parse_sys_bool(c),
        None => None,
    };
    let removable = match removable {
        Some(c) => parse_sys_bool(c),
        None => None,
    };
    let chars = chars_of(name.as_str());
    let mut ram = false;
    if chars.len() >= 4 && starts_with(&chars, "zram") {
        let mut i: usize = 4;
        while i < chars.len() && '0' <= chars[i] && chars[i] <= '9'
            invariant
                4 <= i <= chars.len(),
                forall|k: int| 4 <= k < i ==> '0' <= chars@[k] && chars@[k] <= '9',
            decreases chars.len() - i,
        {
            i += 1;
        }
        ram = i == chars.len();
        assert(ram ==> all_digits(chars@.skip(4))) by {
            if ram {
                assert forall|k: int| 0 <= k < chars@.skip(4).len() implies '0' <= #[trigger] chars@.skip(4)[k] && chars@.skip(4)[k] <= '9' by {
                    assert(chars@.skip(4)[k] == chars@[k + 4]);
                }
            }
        }
        assert(!ram ==> !all_digits(chars@.skip(4))) by {
            if !ram {
                assert(chars@.skip(4)[i - 4] == chars@[i as int]);
            }
        }
    }
    proof {
        reveal_strlit("zram");
    }
    let (crypted, lvm) = match dm_uuid {
        Some(u) => {
            let uc = chars_of(u);
            (starts_with(&uc, "CRYPT-"), starts_with(&uc, "LVM-"))
        },
        None => (false, false),
    };
    Disk { name, rotational, removable, read_only: None, ram, image: false, lvm, crypted }
}

} // verus!
