//! Identifier of a block device: a major and a minor number.

use vstd::prelude::*;

use crate::text::{
    chars_of, decimal, decimal_value, lemma_decimal_round_trip, lemma_index_of,
    parse_u32, parse_u64, push_decimal, split_chars, split_on, u32_value, views,
};

verus! {

/// Id of a device, as found in the `dev` field of file metadata.
#[derive(Clone, Copy, Debug, PartialEq, Eq, Structural, PartialOrd, Ord, Hash)]
pub struct DeviceId {
    pub major: u32,
    pub minor: u32,
}

/// A text that is not a device id.
#[derive(Clone, Debug)]
pub struct ParseDeviceIdError {
    pub string: String,
}

/// Major number of a combined device number, in the layout of Linux's `dev_t`.
pub open spec fn linux_major(dev: u64) -> u32 {
    (((dev & 0xfff00u64) >> 8u64) | ((dev & 0xfffff00000000000u64) >> 32u64)) as u32
}

/// Minor number of a combined device number, in the layout of Linux's `dev_t`.
pub open spec fn linux_minor(dev: u64) -> u32 {
    ((dev & 0xffu64) | ((dev & 0xffffff00000u64) >> 12u64)) as u32
}

/// Relies on `libc::major`, which on Linux takes bits 8..20 and 44..64 of the
/// combined number.
#[verifier::external_body]
fn dev_major(dev: u64) -> (r: u32)
    ensures
        r == linux_major(dev),
{
    libc::major(dev as libc::dev_t) as u32
}

/// Relies on `libc::minor`, which on Linux takes bits 0..8 and 20..44 of the
/// combined number.
#[verifier::external_body]
fn dev_minor(dev: u64) -> (r: u32)
    ensures
        r == linux_minor(dev),
{
    libc::minor(dev as libc::dev_t) as u32
}

/// The device id that a combined device number stands for.
pub open spec fn device_id_of_number(n: u64) -> DeviceId {
    DeviceId { major: linux_major(n), minor: linux_minor(n) }
}

/// The device id that a text stands for: either `major:minor`, or a single
/// combined number.
pub open spec fn parse_device_id(s: Seq<char>) -> Option<DeviceId> {
    let parts = split_on(s, ':');
    if parts.len() == 2 {
        if u32_value(parts[0]) is Some && u32_value(parts[1]) is Some {
            Some(DeviceId { major: u32_value(parts[0])->0, minor: u32_value(parts[1])->0 })
        } else {
            None
        }
    } else if parts.len() == 1 && decimal_value(s) is Some && decimal_value(s)->0 <= u64::MAX {
        Some(device_id_of_number(decimal_value(s)->0 as u64))
    } else {
        None
    }
}

/// The canonical text of a device id: `major:minor`.
pub open spec fn device_id_text(d: DeviceId) -> Seq<char> {
    decimal(d.major as nat) + seq![':'] + decimal(d.minor as nat)
}

impl DeviceId {
    pub fn new(major: u32, minor: u32) -> (r: Self)
        ensures
            r.major == major,
            r.minor == minor,
    {
        Self { major, minor }
    }

    /// Reads a device id from `major:minor` or from a single combined number.
    pub fn from_str(string: &str) -> (r: Result<Self, ParseDeviceIdError>)
        ensures
            parse_device_id(string@) is Some ==> r == Ok::<Self, ParseDeviceIdError>(
                parse_device_id(string@)->0,
            ),
            parse_device_id(string@) is None ==> r is Err && r->Err_0.string@ == string@,
    {
        let chars = chars_of(string);
        match Self::from_chars(&chars) {
            Some(id) => Ok(id),
            None => Err(ParseDeviceIdError { string: string.to_owned() }),
        }
    }

    /// Reads a device id from its characters.
    pub fn from_chars(chars: &Vec<char>) -> (r: Option<Self>)
        ensures
            r == parse_device_id(chars@),
    {
        let parts = split_chars(chars, ':');
        assert(views(parts@).len() == parts@.len());
        if parts.len() == 2 {
            assert(parts[0]@ == views(parts@)[0] && parts[1]@ == views(parts@)[1]);
            if let (Some(major), Some(minor)) = (parse_u32(&parts[0]), parse_u32(&parts[1])) {
                return Some(Self { major, minor });
            }
        } else if parts.len() == 1 {
            if let Some(n) = parse_u64(chars) {
                return Some(Self::from(n));
            }
        }
        None
    }

    /// The canonical text of this id, `major:minor`, which `from_str` reads back.
    pub fn to_string(&self) -> (r: String)
        ensures
            r@ == device_id_text(*self),
    {
        let mut s = String::new();
        push_decimal(&mut s, self.major);
        crate::text::push_char(&mut s, ':');
        push_decimal(&mut s, self.minor);
        s
    }
}

impl std::str::FromStr for DeviceId {
    type Err = ParseDeviceIdError;

    fn from_str(string: &str) -> Result<Self, Self::Err> {
        DeviceId::from_str(string)
    }
}

impl From<u64> for DeviceId {
    fn from(num: u64) -> Self {
        Self { major: dev_major(num), minor: dev_minor(num) }
    }
}

impl vstd::std_specs::convert::FromSpecImpl<u64> for DeviceId {
    open spec fn obeys_from_spec() -> bool {
        true
    }

    open spec fn from_spec(v: u64) -> Self {
        device_id_of_number(v)
    }
}

/// Writing a device id and reading the text back gives the same id.
pub proof fn lemma_device_id_round_trip(d: DeviceId)
    ensures
        parse_device_id(device_id_text(d)) == Some(d),
{
    let a = decimal(d.major as nat);
    let b = decimal(d.minor as nat);
    lemma_decimal_round_trip(d.major as nat);
    lemma_decimal_round_trip(d.minor as nat);
    let t = device_id_text(d);
    assert forall|k: int| 0 <= k < a.len() implies t[k] != ':' by {
        assert(t[k] == a[k]);
    }
    lemma_index_of(t, ':', a.len() as int);
    assert forall|k: int| 0 <= k < b.len() implies b[k] != ':' by {}
    lemma_index_of(b, ':', b.len() as int);
    assert(t.take(a.len() as int) == a);
    assert(t.skip(a.len() as int + 1) == b);
    assert(split_on(b, ':') == seq![b]);
    assert(split_on(t, ':') == seq![a, b]);
}

/// For every text that reads as a device id, writing that id and reading it
/// again gives the same id.
pub proof fn lemma_parse_format_parse(s: Seq<char>)
    requires
        parse_device_id(s) is Some,
    ensures
        parse_device_id(device_id_text(parse_device_id(s)->0)) == parse_device_id(s),
{
    lemma_device_id_round_trip(parse_device_id(s)->0);
}

} // verus!
