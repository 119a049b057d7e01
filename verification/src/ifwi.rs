//! Integrated firmware image containers: the pre-image entry list that
//! references partition tables, and the boot partition descriptor table
//! (BPDT) with its typed entries.

use vstd::prelude::*;
use vstd::string::StringExecFns;

use crate::codec::{le16, le32, read_u16, read_u32, u16_at, u32_at};
use crate::ver::{read_version, version_bytes, Version};

verus! {

/// The 8-byte header before the entry list: its total size and a checksum
/// over everything with the checksum field zeroed.
#[derive(Clone, Copy, Debug, PartialEq, Eq, Structural)]
pub struct PreIFWIHeader {
    pub size: u32,
    pub checksum: u32,
}

pub const PRE_IFWI_HEADER_SIZE: usize = 8;

/// One entry: where a referenced structure sits and how large it is.
#[derive(Clone, Copy, Debug, PartialEq, Eq, Structural)]
pub struct PreIFWIEntry {
    pub offset: u32,
    pub size: u32,
}

/// The structure before the image with BPDT version 2: references to the
/// partition table and the descriptor tables.
#[derive(Clone, Debug)]
pub struct PreIFWI {
    pub header: PreIFWIHeader,
    pub entries: Vec<PreIFWIEntry>,
}

const PRE_IFWI_MAX_SIZE: u32 = 0x200;

const PRE_IFWI_OFFSET: usize = 16;

/// The 32-bit cyclic redundancy check the header carries; it depends on the
/// input bytes alone.
pub uninterp spec fn spec_crc32(data: Seq<u8>) -> u32;

/// Relies on `crc::Crc` with the 32-bit ISO HDLC algorithm: the CRC-32 of
/// the input bytes.
#[verifier::external_body]
fn crc32(data: &[u8]) -> (r: u32)
    ensures
        r == spec_crc32(data@),
{
    crc::Crc::<u32>::new(&crc::CRC_32_ISO_HDLC).checksum(data)
}

/// The encoding of the header.
pub open spec fn pre_ifwi_header_bytes(h: PreIFWIHeader) -> Seq<u8> {
    le32(h.size) + le32(h.checksum)
}

/// The encoding of the entries, in order.
pub open spec fn pre_ifwi_entries_bytes(s: Seq<PreIFWIEntry>) -> Seq<u8>
    decreases s.len(),
{
    if s.len() == 0 {
        Seq::empty()
    } else {
        pre_ifwi_entries_bytes(s.drop_last()) + le32(s.last().offset) + le32(s.last().size)
    }
}

/// The checksum the header must carry: the CRC-32 of the header with its
/// checksum field zeroed, followed by the entries.
pub open spec fn spec_pre_ifwi_checksum(p: PreIFWI) -> u32 {
    spec_crc32(
        pre_ifwi_header_bytes(PreIFWIHeader { checksum: 0u32, ..p.header })
            + pre_ifwi_entries_bytes(p.entries@),
    )
}

impl PreIFWI {
    /// Parse the structure at its fixed place: the header, a sanity bound on
    /// its size, the entries, and the checksum.
    pub fn parse(data: &[u8]) -> (r: Result<PreIFWI, String>)
        ensures
            r matches Ok(p) ==> {
                &&& pre_ifwi_header_bytes(p.header) == data@.subrange(16, 24)
                &&& p.header.size <= 0x200
                &&& p.header.size >= 8
                &&& pre_ifwi_entries_bytes(p.entries@) == data@.subrange(24, 16 + p.header.size)
                &&& p.header.checksum == spec_pre_ifwi_checksum(p)
            },
    {
        let n = data.len();
        if n < 24 {
            return Err(String::from_str("cannot parse the header"));
        }
        let size = read_u32(data, PRE_IFWI_OFFSET);
        let checksum = read_u32(data, PRE_IFWI_OFFSET + 4);
        let header = PreIFWIHeader { size, checksum };
        proof {
            assert(pre_ifwi_header_bytes(header) =~= data@.subrange(16, 24));
        }
        if size > PRE_IFWI_MAX_SIZE {
            return Err(String::from_str("the structure should not be this large"));
        }
        if size < 8 || (size as u64 - 8) % 8 != 0 {
            return Err(String::from_str("entry list size is not a whole number of entries"));
        }
        let remaining = (size as usize) - 8;
        if 24 + remaining > n {
            return Err(String::from_str("cannot parse the entries"));
        }
        let count = remaining / 8;
        let mut entries: Vec<PreIFWIEntry> = Vec::new();
        let mut i: usize = 0;
        while i < count
            invariant
                n == data@.len(),
                24 + 8 * count <= n,
                i <= count,
                entries@.len() == i,
                pre_ifwi_entries_bytes(entries@) == data@.subrange(24, 24 + 8 * i),
            decreases count - i,
        {
            let offset = read_u32(data, 24 + 8 * i);
            let esize = read_u32(data, 24 + 8 * i + 4);
            let ghost prev = entries@;
            entries.push(PreIFWIEntry { offset, size: esize });
            proof {
                assert(entries@.drop_last() =~= prev);
                assert(pre_ifwi_entries_bytes(entries@) =~= data@.subrange(24, 24 + 8 * (i + 1)));
            }
            i = i + 1;
        }
        let res = PreIFWI { header, entries };
        // See if we get the same checksum value.
        let cs_calculated = res.checksum();
        if cs_calculated != checksum {
            return Err(String::from_str("checksum mismatch"));
        }
        proof {
            assert(8 * count == size - 8);
            assert(data@.subrange(24, 24 + 8 * count) =~= data@.subrange(24, 16 + size));
        }
        Ok(res)
    }

    /// The checksum of the current contents: CRC-32 over the header with its
    /// checksum field zeroed, and the entries.
    pub fn checksum(&self) -> (r: u32)
        ensures
            r == spec_pre_ifwi_checksum(*self),
    {
        let mut c = self.header;
        c.checksum = 0;
        let mut d: Vec<u8> = Vec::new();
        crate::codec::push_u32(&mut d, c.size);
        crate::codec::push_u32(&mut d, c.checksum);
        let n = self.entries.len();
        let mut i: usize = 0;
        proof {
            assert(d@ =~= pre_ifwi_header_bytes(c));
        }
        while i < n
            invariant
                n == self.entries@.len(),
                i <= n,
                d@ == pre_ifwi_header_bytes(c) + pre_ifwi_entries_bytes(
                    self.entries@.subrange(0, i as int),
                ),
            decreases n - i,
        {
            let e = self.entries[i];
            crate::codec::push_u32(&mut d, e.offset);
            crate::codec::push_u32(&mut d, e.size);
            proof {
                let pre = self.entries@.subrange(0, i + 1);
                assert(pre.drop_last() =~= self.entries@.subrange(0, i as int));
                assert(pre.last() == self.entries@[i as int]);
                assert(d@ =~= pre_ifwi_header_bytes(c) + pre_ifwi_entries_bytes(pre));
            }
            i = i + 1;
        }
        proof {
            assert(self.entries@.subrange(0, n as int) =~= self.entries@);
            assert(c == PreIFWIHeader { checksum: 0u32, ..self.header });
        }
        crc32(d.as_slice())
    }
}

/// The BPDT header: 24 bytes, magic `0x000055aa`.
#[derive(Clone, Copy, Debug, PartialEq, Eq, Structural)]
pub struct Header {
    pub magic: u32,
    /// Number of entries.
    pub descriptor_count: u16,
    pub bpdt_version: u16,
    /// Unused, should be 0.
    pub xor_redundant_block: u32,
    pub ifwi_version: u32,
    pub fit_tool_version: Version,
}

pub const BPDT_MAGIC: u32 = 0x0000_55aa;

/// The encoding of a BPDT header.
pub open spec fn bpdt_header_bytes(h: Header) -> Seq<u8> {
    le32(h.magic) + le16(h.descriptor_count) + le16(h.bpdt_version) + le32(h.xor_redundant_block)
        + le32(h.ifwi_version) + version_bytes(h.fit_tool_version)
}

/// The kind of one BPDT entry; most kinds are code-partition directories.
#[derive(Clone, Copy, Debug, PartialEq, Eq, Structural)]
pub enum Etype {
    Smip,
    Rbep,
    Ftpr,
    Ucod,
    Ibbp,
    Sbpdt,
    Obbp,
    Nftp,
    Ishp,
    Dlmp,
    IfpOverride,
    Dtok,
    UfsPhy,
    UfsGpp,
    Pmcp,
    Iunp,
    Nvmc,
    Uep,
    Ufsb,
    Oemp,
    Iomp,
    Nphy,
    Tbtp,
    Fpt,
    Unknown(u16),
}

/// The entry kind a type field decodes to.
pub open spec fn spec_etype_from(t: u16) -> Etype {
    if t == 0 {
        Etype::Smip
    } else if t == 1 {
        Etype::Rbep
    } else if t == 2 {
        Etype::Ftpr
    } else if t == 3 {
        Etype::Ucod
    } else if t == 4 {
        Etype::Ibbp
    } else if t == 5 {
        Etype::Sbpdt
    } else if t == 6 {
        Etype::Obbp
    } else if t == 7 {
        Etype::Nftp
    } else if t == 8 {
        Etype::Ishp
    } else if t == 9 {
        Etype::Dlmp
    } else if t == 10 {
        Etype::IfpOverride
    } else if t == 11 {
        Etype::Dtok
    } else if t == 12 {
        Etype::UfsPhy
    } else if t == 13 {
        Etype::UfsGpp
    } else if t == 14 {
        Etype::Pmcp
    } else if t == 15 {
        Etype::Iunp
    } else if t == 16 {
        Etype::Nvmc
    } else if t == 17 {
        Etype::Uep
    } else if t == 18 {
        Etype::Ufsb
    } else if t == 20 {
        Etype::Oemp
    } else if t == 23 {
        Etype::Iomp
    } else if t == 24 {
        Etype::Nphy
    } else if t == 25 {
        Etype::Tbtp
    } else if t == 32 {
        Etype::Fpt
    } else {
        Etype::Unknown(t)
    }
}

impl Etype {
    /// Decode the type field of an entry.
    pub fn from_u16(t: u16) -> (r: Etype)
        ensures
            r == spec_etype_from(t),
    {
        if t == 0 {
            Etype::Smip
        } else if t == 1 {
            Etype::Rbep
        } else if t == 2 {
            Etype::Ftpr
        } else if t == 3 {
            Etype::Ucod
        } else if t == 4 {
            Etype::Ibbp
        } else if t == 5 {
            Etype::Sbpdt
        } else if t == 6 {
            Etype::Obbp
        } else if t == 7 {
            Etype::Nftp
        } else if t == 8 {
            Etype::Ishp
        } else if t == 9 {
            Etype::Dlmp
        } else if t == 10 {
            Etype::IfpOverride
        } else if t == 11 {
            Etype::Dtok
        } else if t == 12 {
            Etype::UfsPhy
        } else if t == 13 {
            Etype::UfsGpp
        } else if t == 14 {
            Etype::Pmcp
        } else if t == 15 {
            Etype::Iunp
        } else if t == 16 {
            Etype::Nvmc
        } else if t == 17 {
            Etype::Uep
        } else if t == 18 {
            Etype::Ufsb
        } else if t == 20 {
            Etype::Oemp
        } else if t == 23 {
            Etype::Iomp
        } else if t == 24 {
            Etype::Nphy
        } else if t == 25 {
            Etype::Tbtp
        } else if t == 32 {
            Etype::Fpt
        } else {
            Etype::Unknown(t)
        }
    }

    /// Encode back to the type field value.
    pub fn into_u16(self) -> (r: u16)
        ensures
            spec_etype_from(r) == (match self {
                Etype::Unknown(t) => spec_etype_from(t),
                _ => self,
            }),
    {
        match self {
            Etype::Smip => 0,
            Etype::Rbep => 1,
            Etype::Ftpr => 2,
            Etype::Ucod => 3,
            Etype::Ibbp => 4,
            Etype::Sbpdt => 5,
            Etype::Obbp => 6,
            Etype::Nftp => 7,
            Etype::Ishp => 8,
            Etype::Dlmp => 9,
            Etype::IfpOverride => 10,
            Etype::Dtok => 11,
            Etype::UfsPhy => 12,
            Etype::UfsGpp => 13,
            Etype::Pmcp => 14,
            Etype::Iunp => 15,
            Etype::Nvmc => 16,
            Etype::Uep => 17,
            Etype::Ufsb => 18,
            Etype::Oemp => 20,
            Etype::Iomp => 23,
            Etype::Nphy => 24,
            Etype::Tbtp => 25,
            Etype::Fpt => 32,
            Etype::Unknown(t) => t,
        }
    }
}

/// One 12-byte BPDT entry.
#[derive(Clone, Copy, Debug, PartialEq, Eq, Structural)]
pub struct Entry {
    pub etype: u16,
    pub flags: u16,
    pub offset: u32,
    pub size: u32,
}

/// The encoding of one entry.
pub open spec fn bpdt_entry_bytes(e: Entry) -> Seq<u8> {
    le16(e.etype) + le16(e.flags) + le32(e.offset) + le32(e.size)
}

/// The encoding of the entries, in order.
pub open spec fn bpdt_entries_bytes(s: Seq<Entry>) -> Seq<u8>
    decreases s.len(),
{
    if s.len() == 0 {
        Seq::empty()
    } else {
        bpdt_entries_bytes(s.drop_last()) + bpdt_entry_bytes(s.last())
    }
}

/// A boot partition descriptor table.
#[derive(Clone, Debug)]
pub struct BPDT {
    /// Where the table was found.
    pub offset: usize,
    pub header: Header,
    pub entries: Vec<Entry>,
}

/// How parsing a table can fail.
#[derive(Clone, Debug)]
pub enum BpdtError {
    ParseError(String),
    InvalidData(String),
}

/// What it means for a parsed table to come from `data`.
pub open spec fn spec_bpdt_parsed(b: BPDT, data: Seq<u8>, offset: int) -> bool {
    &&& bpdt_header_bytes(b.header) == data.subrange(0, 24)
    &&& b.header.magic == BPDT_MAGIC
    &&& b.entries@.len() == b.header.descriptor_count
    &&& forall|i: int|
        0 <= i < b.entries@.len() ==> #[trigger] bpdt_entry_bytes(b.entries@[i]) == data.subrange(
            24 + 12 * i,
            24 + 12 * i + 12,
        )
    &&& b.offset == offset
}

impl BPDT {
    /// Parse a table: the magic, the header, and the declared entries.
    pub fn parse(data: &[u8], offset: usize) -> (r: Result<BPDT, BpdtError>)
        ensures
            r matches Ok(b) ==> spec_bpdt_parsed(b, data@, offset as int),
            (r is Ok) <==> (data@.len() >= 24 && u32_at(data@, 0) == BPDT_MAGIC && 24 + 12 * (
            u16_at(data@, 4) as int) <= data@.len()),
    {
        let n = data.len();
        if n < 24 {
            return Err(BpdtError::ParseError(String::from_str("cannot parse the header")));
        }
        let magic = read_u32(data, 0);
        let descriptor_count = read_u16(data, 4);
        let bpdt_version = read_u16(data, 6);
        let xor_redundant_block = read_u32(data, 8);
        let ifwi_version = read_u32(data, 12);
        let fit_tool_version = read_version(data, 16);
        let header = Header {
            magic,
            descriptor_count,
            bpdt_version,
            xor_redundant_block,
            ifwi_version,
            fit_tool_version,
        };
        proof {
            assert(bpdt_header_bytes(header) =~= data@.subrange(0, 24));
        }
        if magic != BPDT_MAGIC {
            return Err(BpdtError::InvalidData(String::from_str("wrong magic")));
        }
        let count = descriptor_count as usize;
        if count > (n - 24) / 12 {
            return Err(BpdtError::ParseError(String::from_str("cannot parse the entries")));
        }
        let mut entries: Vec<Entry> = Vec::new();
        let mut i: usize = 0;
        while i < count
            invariant
                n == data@.len(),
                24 + 12 * count <= n,
                i <= count,
                entries@.len() == i,
                forall|j: int|
                    0 <= j < i ==> #[trigger] bpdt_entry_bytes(entries@[j]) == data@.subrange(
                        24 + 12 * j,
                        24 + 12 * j + 12,
                    ),
            decreases count - i,
        {
            let etype = read_u16(data, 24 + 12 * i);
            let flags = read_u16(data, 24 + 12 * i + 2);
            let eoffset = read_u32(data, 24 + 12 * i + 4);
            let esize = read_u32(data, 24 + 12 * i + 8);
            let e = Entry { etype, flags, offset: eoffset, size: esize };
            proof {
                assert(bpdt_entry_bytes(e) =~= data@.subrange(
                    24 + 12 * (i as int),
                    24 + 12 * (i as int) + 12,
                ));
            }
            entries.push(e);
            i = i + 1;
        }
        Ok(BPDT { offset, header, entries })
    }

    /// The secondary table this one references, parsed from its entry's
    /// offset: `None` when there is no secondary entry or it points at zero.
    pub fn next(&self, data: &[u8]) -> (r: Option<Result<BPDT, BpdtError>>) {
        let n = self.entries.len();
        let mut i: usize = 0;
        while i < n
            invariant
                n == self.entries@.len(),
                i <= n,
            decreases n - i,
        {
            let e = self.entries[i];
            if e.etype == 5 {
                // The secondary table entry.
                let o = e.offset as usize;
                if o == 0 {
                    return None;
                }
                let l = data.len();
                if o > l {
                    return Some(
                        Err(BpdtError::InvalidData(String::from_str("offset out of bounds"))),
                    );
                }
                let slice = vstd::slice::slice_subrange(data, o, l);
                return Some(Self::parse(slice, o));
            }
            i = i + 1;
        }
        None
    }
}

} // verus!
