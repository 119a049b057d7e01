//! Parsing, validation and surgical editing of Intel Management Engine (ME)
//! firmware images inside a flash chip dump.
//!
//! The library decodes nested, versioned binary layouts (partition tables,
//! code-partition directories, cryptographic manifests, compressed module
//! streams) without trusting the input, and performs a "clean" transformation
//! that removes unnecessary partitions and modules while keeping the image
//! structurally valid: offsets, counts, checksums and compressed-stream
//! bookkeeping stay self-consistent.

use vstd::prelude::*;

pub mod clean;
pub mod codec;
pub mod dir;
pub mod fpt;
pub mod ifd;
pub mod ifwi;
pub mod me;
pub mod meta;
pub mod part;
pub mod ver;

verus! {

/// An empty byte in a NOR flash is all-1's.
pub const EMPTY: u8 = 0xff;

/// A half-open byte interval, relative to the start of a directory or
/// section, that is safe to fill with the erase byte.
#[derive(Clone, Copy, Debug, PartialEq, Eq, Structural)]
pub struct RemovableRange {
    pub start: u64,
    pub end: u64,
}

/// Whether a byte position falls inside a half-open interval.
pub open spec fn spec_range_contains(r: RemovableRange, p: u64) -> bool {
    r.start <= p < r.end
}

/// Common interface for anything that has removable parts, such as
/// directories. Each implementation fixes in `spec_removables` exactly which
/// ranges it hands out.
pub trait Removables {
    /// The removable ranges, relative to the start of the section or
    /// directory, as the implementation defines them. The retention list is
    /// given by the names' character sequences.
    spec fn spec_removables(&self, retention_list: Seq<Seq<char>>) -> Seq<RemovableRange>;

    /// Get removable ranges relative to the start of a section or directory.
    /// The respective section/directory needs to know its own offset.
    fn removables(&self, retention_list: &Vec<String>) -> (r: Vec<RemovableRange>)
        ensures
            r@ == self.spec_removables(retention_list@.map_values(|s: String| s@)),
    ;
}

/// Where the ME region starts, per the descriptor.
pub open spec fn spec_me_start(ifd: ifd::IFD) -> int {
    (ifd.regions.flreg2.0 & 0x1fff) * 4096
}

/// Where the ME region ends, per the descriptor.
pub open spec fn spec_me_end(ifd: ifd::IFD) -> int {
    ((ifd.regions.flreg2.0 >> 16) & 0x1fff) * 4096 + 4096
}

/// A whole flash image: the descriptor and the ME region found through it.
#[derive(Debug)]
pub struct Firmware {
    pub ifd: Result<ifd::IFD, ifd::IfdError>,
    pub me: Option<Result<me::ME, String>>,
}

impl Firmware {
    /// Parse a full image: the descriptor first, then the ME region where
    /// the descriptor places it; without a descriptor, the whole input is
    /// probed as a bare region.
    pub fn parse(data: &[u8], debug: bool) -> (r: Firmware)
        ensures
            (r.ifd is Ok) <==> ifd::spec_ifd_ok(data@),
            r.ifd matches Ok(d) ==> ifd::spec_ifd_parsed(d, data@),
            r.ifd matches Ok(d) ==> ({
                let s = spec_me_start(d);
                let e = spec_me_end(d);
                if s <= e && e <= data@.len() {
                    &&& ((r.me is None) <==> (fpt::spec_fpt_offset(data@.subrange(s, e)) is None))
                    &&& ((r.me matches Some(Ok(_))) <==> fpt::spec_fpt_ok(data@.subrange(s, e)))
                    &&& (r.me matches Some(Ok(m)) ==> (m.base == s && fpt::spec_fpt_parsed(
                        m.fpt_area.fpt,
                        data@.subrange(s, e),
                    )))
                } else {
                    r.me is None
                }
            }),
            r.ifd is Err ==> {
                &&& ((r.me is None) <==> (fpt::spec_fpt_offset(data@) is None))
                &&& ((r.me matches Some(Ok(_))) <==> fpt::spec_fpt_ok(data@))
                &&& (r.me matches Some(Ok(m)) ==> (m.base == 0 && fpt::spec_fpt_parsed(
                    m.fpt_area.fpt,
                    data@,
                )))
            },
    {
        let parsed_ifd = ifd::IFD::parse(data);
        let me = match &parsed_ifd {
            Ok(d) => {
                let (s, e) = d.regions.me_range();
                if s <= e && e <= data.len() {
                    let region = vstd::slice::slice_subrange(data, s, e);
                    me::ME::parse(region, s, debug)
                } else {
                    // The region the descriptor names is not in the given
                    // bytes.
                    None
                }
            },
            Err(_) => me::ME::parse(data, 0, debug),
        };
        Firmware { ifd: parsed_ifd, me }
    }

    /// Probe the whole input for a descriptor and for an ME region anywhere
    /// in it: for update images whose region is not placed by a descriptor.
    pub fn scan(data: &[u8], debug: bool) -> (r: Firmware)
        ensures
            r.me matches Some(Ok(m)) ==> fpt::spec_fpt_parsed(
                m.fpt_area.fpt,
                data@.skip(m.base as int),
            ),
    {
        let parsed_ifd = ifd::IFD::parse(data);
        let me = me::ME::scan(data, debug);
        Firmware { ifd: parsed_ifd, me }
    }
}

} // verus!
