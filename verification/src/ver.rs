//! Common struct for version information
//!
//! This kind of version information occurs in multiple places.

use vstd::prelude::*;

use crate::codec::{le16, push_u16, read_u16};

verus! {

/// A four-part version number, stored as four little-endian `u16` fields.
#[derive(Clone, Copy, Debug, PartialEq, Eq, Structural)]
pub struct Version {
    pub major: u16,
    pub minor: u16,
    pub patch: u16,
    pub build: u16,
}

/// The 8-byte on-disk encoding of a version.
pub open spec fn version_bytes(v: Version) -> Seq<u8> {
    le16(v.major) + le16(v.minor) + le16(v.patch) + le16(v.build)
}

/// Decode a version from 8 bytes at `off`.
pub fn read_version(data: &[u8], off: usize) -> (r: Version)
    requires
        off + 8 <= data@.len(),
    ensures
        version_bytes(r) == data@.subrange(off as int, off + 8),
{
    let n = data.len();
    let major = read_u16(data, off);
    let minor = read_u16(data, off + 2);
    let patch = read_u16(data, off + 4);
    let build = read_u16(data, off + 6);
    let r = Version { major, minor, patch, build };
    assert(version_bytes(r) =~= data@.subrange(off as int, off + 8));
    r
}

/// Append the 8-byte encoding of a version.
pub fn push_version(out: &mut Vec<u8>, v: Version)
    ensures
        final(out)@ == old(out)@ + version_bytes(v),
{
    push_u16(out, v.major);
    push_u16(out, v.minor);
    push_u16(out, v.patch);
    push_u16(out, v.build);
    assert(final(out)@ =~= old(out)@ + version_bytes(v));
}

} // verus!
