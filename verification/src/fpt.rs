//! Flash Partition Table (FPT)
//!
//! The FPT is the top-level directory of the ME region: a small header
//! followed by fixed-size entries that map partition names to byte ranges.
//! The table's magic may sit at offset 0 or at offset 16 of the probed
//! region; any bytes before the magic are kept verbatim because the header
//! checksum covers them.

use vstd::prelude::*;
use vstd::string::StringExecFns;

use crate::codec::{
    le16, le32, push_bytes, push_u16, push_u32, push_u8, read_arr, read_u16, read_u32, read_u8,
    resize_bytes, spec_tag_name, tag_name, u32_at,
};
use crate::ver::{push_version, read_version, version_bytes, Version};

verus! {

pub const FTPR: &'static str = "FTPR";

pub const FTUP: &'static str = "FTUP";

pub const DLMP: &'static str = "DLMP";

pub const MDMV: &'static str = "MDMV";

pub const PSVN: &'static str = "PSVN";

pub const IVBP: &'static str = "IVBP";

pub const MFS: &'static str = "MFS";

pub const NFTP: &'static str = "NFTP";

pub const ROMB: &'static str = "ROMB";

pub const WCOD: &'static str = "WCOD";

pub const LOCL: &'static str = "LOCL";

pub const FLOG: &'static str = "FLOG";

pub const UTOK: &'static str = "UTOK";

pub const ISHC: &'static str = "ISHC";

pub const AFSP: &'static str = "AFSP";

pub const FTPM: &'static str = "FTPM";

pub const GLUT: &'static str = "GLUT";

pub const EFFS: &'static str = "EFFS";

pub const FOVD: &'static str = "FOVD";

/// Partitions that contain a code directory.
pub fn dir_parts() -> Vec<String> {
    let mut v: Vec<String> = Vec::new();
    v.push(String::from_str(FTPR));
    v.push(String::from_str(FTUP));
    v.push(String::from_str(DLMP));
    v.push(String::from_str(MDMV));
    v.push(String::from_str(NFTP));
    v
}

/// Partitions that hold a filesystem.
pub fn fs_parts() -> (r: Vec<String>)
    ensures
        crate::codec::spec_names(r@) == seq!["MFS"@, "AFSP"@, "EFFS"@],
{
    let mut v: Vec<String> = Vec::new();
    v.push(String::from_str(MFS));
    v.push(String::from_str(AFSP));
    v.push(String::from_str(EFFS));
    proof {
        assert(crate::codec::spec_names(v@) =~= seq!["MFS"@, "AFSP"@, "EFFS"@]);
    }
    v
}

/// Partitions that have been found to be safe to remove whole.
pub fn removable_parts() -> (r: Vec<String>)
    ensures
        crate::codec::spec_names(r@) == seq![
            "FLOG"@,
            "FTUP"@,
            "IVBP"@,
            "MFS"@,
            "NFTP"@,
            "PSVN"@,
            "UTOK"@,
        ],
{
    let mut v: Vec<String> = Vec::new();
    v.push(String::from_str(FLOG));
    v.push(String::from_str(FTUP));
    v.push(String::from_str(IVBP));
    v.push(String::from_str(MFS));
    v.push(String::from_str(NFTP));
    v.push(String::from_str(PSVN));
    v.push(String::from_str(UTOK));
    proof {
        assert(crate::codec::spec_names(v@) =~= seq![
            "FLOG"@,
            "FTUP"@,
            "IVBP"@,
            "MFS"@,
            "NFTP"@,
            "PSVN"@,
            "UTOK"@,
        ]);
    }
    v
}

/// Broad classification of a partition by its known name.
#[derive(Clone, Copy, Debug, PartialEq, Eq, Structural)]
pub enum PartitionType {
    Code,
    Data,
    Other,
}

/// The kind and long name of a known partition name tag; anything else is
/// the unknown fallback row.
pub open spec fn spec_part_info(n: Seq<char>) -> (PartitionType, Seq<char>) {
    if n == "FTPR"@ {
        (PartitionType::Code, "Main code partition"@)
    } else     if n == "FTUP"@ {
        (PartitionType::Code, "[NFTP]+[WCOD]+[LOCL]"@)
    } else     if n == "DLMP"@ {
        (PartitionType::Code, "IDLM partition"@)
    } else     if n == "MDMV"@ {
        (PartitionType::Code, "Media protection (PAVP, JOM)"@)
    } else     if n == "PSVN"@ {
        (PartitionType::Data, "Secure Version Number"@)
    } else     if n == "IVBP"@ {
        (PartitionType::Data, "IV + Bring Up cache"@)
    } else     if n == "MFS"@ {
        (PartitionType::Data, "ME Flash File System"@)
    } else     if n == "NFTP"@ {
        (PartitionType::Code, "Additional code"@)
    } else     if n == "ROMB"@ {
        (PartitionType::Code, "ROM Bypass"@)
    } else     if n == "WCOD"@ {
        (PartitionType::Code, "WLAN uCode"@)
    } else     if n == "LOCL"@ {
        (PartitionType::Code, "AMT Localization"@)
    } else     if n == "FLOG"@ {
        (PartitionType::Data, "Flash Log"@)
    } else     if n == "UTOK"@ {
        (PartitionType::Data, "Debug Unlock Token"@)
    } else     if n == "ISHC"@ {
        (PartitionType::Code, "Integrated Sensors Hub"@)
    } else     if n == "AFSP"@ {
        (PartitionType::Other, "8778 55aa signature like MFS"@)
    } else     if n == "FTPM"@ {
        (PartitionType::Code, "Firmware TPM (unconfirmed)"@)
    } else     if n == "GLUT"@ {
        (PartitionType::Data, "Huffman Look-Up Table"@)
    } else     if n == "EFFS"@ {
        (PartitionType::Data, "EFFS File System"@)
    } else     if n == "FOVD"@ {
        (PartitionType::Data, "FOVD..."@)
    } else {
        (PartitionType::Other, "[> UNKNOWN <]"@)
    }
}

/// Kind and long name for the known partition name tags.
pub fn get_part_info(n: &str) -> (r: (PartitionType, &'static str))
    ensures
        r.0 == spec_part_info(n@).0,
        r.1@ == spec_part_info(n@).1,
{
    let sn = String::from_str(n);
    let r = if sn == String::from_str(FTPR) {
        (PartitionType::Code, "Main code partition")
    } else if sn == String::from_str(FTUP) {
        (PartitionType::Code, "[NFTP]+[WCOD]+[LOCL]")
    } else if sn == String::from_str(DLMP) {
        (PartitionType::Code, "IDLM partition")
    } else if sn == String::from_str(MDMV) {
        (PartitionType::Code, "Media protection (PAVP, JOM)")
    } else if sn == String::from_str(PSVN) {
        (PartitionType::Data, "Secure Version Number")
    } else if sn == String::from_str(IVBP) {
        (PartitionType::Data, "IV + Bring Up cache")
    } else if sn == String::from_str(MFS) {
        (PartitionType::Data, "ME Flash File System")
    } else if sn == String::from_str(NFTP) {
        (PartitionType::Code, "Additional code")
    } else if sn == String::from_str(ROMB) {
        (PartitionType::Code, "ROM Bypass")
    } else if sn == String::from_str(WCOD) {
        (PartitionType::Code, "WLAN uCode")
    } else if sn == String::from_str(LOCL) {
        (PartitionType::Code, "AMT Localization")
    } else if sn == String::from_str(FLOG) {
        (PartitionType::Data, "Flash Log")
    } else if sn == String::from_str(UTOK) {
        (PartitionType::Data, "Debug Unlock Token")
    } else if sn == String::from_str(ISHC) {
        (PartitionType::Code, "Integrated Sensors Hub")
    } else if sn == String::from_str(AFSP) {
        (PartitionType::Other, "8778 55aa signature like MFS")
    } else if sn == String::from_str(FTPM) {
        (PartitionType::Code, "Firmware TPM (unconfirmed)")
    } else if sn == String::from_str(GLUT) {
        (PartitionType::Data, "Huffman Look-Up Table")
    } else if sn == String::from_str(EFFS) {
        (PartitionType::Data, "EFFS File System")
    } else if sn == String::from_str(FOVD) {
        (PartitionType::Data, "FOVD...")
    } else {
        (PartitionType::Other, "[> UNKNOWN <]")
    };
    r
}

/// The table header: 32 bytes, magic `$FPT`.
#[derive(Clone, Copy, Debug)]
pub struct FPTHeader {
    pub signature: [u8; 4],
    pub entries: u32,
    pub header_ver: u8,
    pub entry_ver: u8,
    pub header_len: u8,
    pub checksum: u8,
    pub ticks_to_add: u16,
    pub tokens_to_add: u16,
    pub uma_size_or_reserved: u32,
    pub flash_layout_or_flags: u32,
    /// Version of the image tool the vendor created the image with.
    pub fitc_ver: Version,
}

pub const FPT_HEADER_SIZE: usize = 32;

/// One 32-byte table entry mapping a partition name to a byte range.
#[derive(Clone, Copy, Debug)]
pub struct FPTEntry {
    pub name: [u8; 4],
    pub owner: [u8; 4],
    pub offset: u32,
    pub size: u32,
    pub start_tokens: u32,
    pub max_tokens: u32,
    pub scratch_sectors: u32,
    pub flags: u32,
}

pub const FPT_ENTRY_SIZE: usize = 32;

/// How a header is laid out on disk.
pub open spec fn fpt_header_bytes(h: FPTHeader) -> Seq<u8> {
    h.signature@ + le32(h.entries) + seq![h.header_ver, h.entry_ver, h.header_len, h.checksum]
        + le16(h.ticks_to_add) + le16(h.tokens_to_add) + le32(h.uma_size_or_reserved) + le32(
        h.flash_layout_or_flags,
    ) + version_bytes(h.fitc_ver)
}

/// How an entry is laid out on disk.
pub open spec fn fpt_entry_bytes(e: FPTEntry) -> Seq<u8> {
    e.name@ + e.owner@ + le32(e.offset) + le32(e.size) + le32(e.start_tokens) + le32(e.max_tokens)
        + le32(e.scratch_sectors) + le32(e.flags)
}

/// All entries, encoded in order.
pub open spec fn fpt_entries_bytes(s: Seq<FPTEntry>) -> Seq<u8>
    decreases s.len(),
{
    if s.len() == 0 {
        Seq::empty()
    } else {
        fpt_entries_bytes(s.drop_last()) + fpt_entry_bytes(s.last())
    }
}

pub proof fn lemma_fpt_header_bytes_len(h: FPTHeader)
    ensures
        fpt_header_bytes(h).len() == 32,
{
}

pub proof fn lemma_fpt_entry_bytes_len(e: FPTEntry)
    ensures
        fpt_entry_bytes(e).len() == 32,
{
}

pub proof fn lemma_fpt_entries_bytes_len(s: Seq<FPTEntry>)
    ensures
        fpt_entries_bytes(s).len() == 32 * s.len(),
    decreases s.len(),
{
    if s.len() > 0 {
        lemma_fpt_entries_bytes_len(s.drop_last());
        lemma_fpt_entry_bytes_len(s.last());
    }
}

/// Entries whose encodings sit back to back in a buffer encode, in order, to
/// the whole covered region of the buffer.
pub proof fn lemma_fpt_entries_bytes_concat(s: Seq<FPTEntry>, data: Seq<u8>, base: int)
    requires
        0 <= base,
        base + 32 * s.len() <= data.len(),
        forall|i: int|
            0 <= i < s.len() ==> #[trigger] fpt_entry_bytes(s[i]) == data.subrange(
                base + 32 * i,
                base + 32 * i + 32,
            ),
    ensures
        fpt_entries_bytes(s) == data.subrange(base, base + 32 * s.len()),
    decreases s.len(),
{
    lemma_fpt_entries_bytes_len(s);
    if s.len() == 0 {
        assert(fpt_entries_bytes(s) =~= data.subrange(base, base));
    } else {
        let pre = s.drop_last();
        assert(forall|i: int| 0 <= i < pre.len() ==> pre[i] == s[i]);
        lemma_fpt_entries_bytes_concat(pre, data, base);
        let l = s.len() - 1;
        assert(fpt_entry_bytes(s[l]) == data.subrange(base + 32 * l, base + 32 * l + 32));
        assert(fpt_entries_bytes(s) =~= data.subrange(base, base + 32 * s.len()));
    }
}

/// Decode a header from 32 bytes at `off`.
pub fn read_fpt_header(data: &[u8], off: usize) -> (r: FPTHeader)
    requires
        off + 32 <= data@.len(),
    ensures
        fpt_header_bytes(r) == data@.subrange(off as int, off + 32),
        r.entries == u32_at(data@, off + 4),
{
    let n = data.len();
    let signature = read_arr::<4>(data, off);
    let entries = read_u32(data, off + 4);
    let header_ver = read_u8(data, off + 8);
    let entry_ver = read_u8(data, off + 9);
    let header_len = read_u8(data, off + 10);
    let checksum = read_u8(data, off + 11);
    let ticks_to_add = read_u16(data, off + 12);
    let tokens_to_add = read_u16(data, off + 14);
    let uma_size_or_reserved = read_u32(data, off + 16);
    let flash_layout_or_flags = read_u32(data, off + 20);
    let fitc_ver = read_version(data, off + 24);
    let r = FPTHeader {
        signature,
        entries,
        header_ver,
        entry_ver,
        header_len,
        checksum,
        ticks_to_add,
        tokens_to_add,
        uma_size_or_reserved,
        flash_layout_or_flags,
        fitc_ver,
    };
    assert(fpt_header_bytes(r) =~= data@.subrange(off as int, off + 32));
    r
}

/// Append the 32-byte encoding of a header.
pub fn push_fpt_header(out: &mut Vec<u8>, h: &FPTHeader)
    ensures
        final(out)@ == old(out)@ + fpt_header_bytes(*h),
{
    push_bytes(out, &h.signature);
    push_u32(out, h.entries);
    push_u8(out, h.header_ver);
    push_u8(out, h.entry_ver);
    push_u8(out, h.header_len);
    push_u8(out, h.checksum);
    push_u16(out, h.ticks_to_add);
    push_u16(out, h.tokens_to_add);
    push_u32(out, h.uma_size_or_reserved);
    push_u32(out, h.flash_layout_or_flags);
    push_version(out, h.fitc_ver);
    assert(final(out)@ =~= old(out)@ + fpt_header_bytes(*h));
}

/// Decode an entry from 32 bytes at `off`.
pub fn read_fpt_entry(data: &[u8], off: usize) -> (r: FPTEntry)
    requires
        off + 32 <= data@.len(),
    ensures
        fpt_entry_bytes(r) == data@.subrange(off as int, off + 32),
{
    let n = data.len();
    let name = read_arr::<4>(data, off);
    let owner = read_arr::<4>(data, off + 4);
    let offset = read_u32(data, off + 8);
    let size = read_u32(data, off + 12);
    let start_tokens = read_u32(data, off + 16);
    let max_tokens = read_u32(data, off + 20);
    let scratch_sectors = read_u32(data, off + 24);
    let flags = read_u32(data, off + 28);
    let r = FPTEntry { name, owner, offset, size, start_tokens, max_tokens, scratch_sectors, flags };
    assert(fpt_entry_bytes(r) =~= data@.subrange(off as int, off + 32));
    r
}

/// Append the 32-byte encoding of an entry.
pub fn push_fpt_entry(out: &mut Vec<u8>, e: &FPTEntry)
    ensures
        final(out)@ == old(out)@ + fpt_entry_bytes(*e),
{
    push_bytes(out, &e.name);
    push_bytes(out, &e.owner);
    push_u32(out, e.offset);
    push_u32(out, e.size);
    push_u32(out, e.start_tokens);
    push_u32(out, e.max_tokens);
    push_u32(out, e.scratch_sectors);
    push_u32(out, e.flags);
    assert(final(out)@ =~= old(out)@ + fpt_entry_bytes(*e));
}

/// The entries named `FTPR`, in order.
pub open spec fn spec_ftpr_entries(s: Seq<FPTEntry>) -> Seq<FPTEntry> {
    s.filter(|e: FPTEntry| spec_is_ftpr(e))
}

/// The byte sequence of the name `FTPR`.
pub open spec fn spec_ftpr_name() -> Seq<u8> {
    seq![0x46u8, 0x54u8, 0x50u8, 0x52u8]
}

/// Whether an entry is the always-retained bring-up partition.
pub open spec fn spec_is_ftpr(e: FPTEntry) -> bool {
    e.name@ == spec_ftpr_name()
}

/// NVRAM partitions use this sentinel offset and own no bytes of the image.
pub open spec fn spec_is_nvram(e: FPTEntry) -> bool {
    e.offset == 0xffff_ffffu32
}

impl FPTEntry {
    /// The partition name, trailing NULs stripped.
    pub fn name(&self) -> (r: String)
        ensures
            r@ == spec_tag_name(self.name@),
    {
        tag_name(&self.name)
    }

    /// The meaningful low bits of the offset field.
    pub fn offset(&self) -> (r: usize)
        ensures
            r == self.offset as usize & 0x003f_ffff,
            r <= 0x003f_ffff,
    {
        let r = self.offset as usize & 0x003f_ffff;
        proof {
            let x = self.offset as usize;
            assert((x & 0x003f_ffff) <= 0x003f_ffff) by (bit_vector);
        }
        r
    }

    pub fn size(&self) -> (r: usize)
        ensures
            r == self.size as usize,
    {
        self.size as usize
    }

    /// Whether this entry is named `FTPR`.
    pub fn is_ftpr(&self) -> (r: bool)
        ensures
            r == spec_is_ftpr(*self),
    {
        let r = self.name[0] == 0x46 && self.name[1] == 0x54 && self.name[2] == 0x50
            && self.name[3] == 0x52;
        proof {
            if r {
                assert(self.name@ =~= spec_ftpr_name());
            }
        }
        r
    }

    /// Whether this entry marks an NVRAM partition.
    pub fn is_nvram(&self) -> (r: bool)
        ensures
            r == spec_is_nvram(*self),
    {
        self.offset == 0xffff_ffff
    }
}

/// A parsed partition table.
#[derive(Debug)]
pub struct FPT {
    /// Opaque bytes before the magic (0 or 16 of them), kept verbatim
    /// because the header checksum covers them.
    pub pre_header: Vec<u8>,
    pub header: FPTHeader,
    pub entries: Vec<FPTEntry>,
    /// Byte length needed to reproduce the table region exactly.
    pub original_size: usize,
}

impl Clone for FPT {
    /// An exact copy, field by field.
    fn clone(&self) -> (res: Self)
        ensures
            res.pre_header@ == self.pre_header@,
            res.header == self.header,
            res.entries@ == self.entries@,
            res.original_size == self.original_size,
    {
        let mut pre_header: Vec<u8> = Vec::new();
        push_bytes(&mut pre_header, self.pre_header.as_slice());
        let mut entries: Vec<FPTEntry> = Vec::new();
        let n = self.entries.len();
        let mut i: usize = 0;
        while i < n
            invariant
                n == self.entries@.len(),
                i <= n,
                entries@ == self.entries@.subrange(0, i as int),
            decreases n - i,
        {
            entries.push(self.entries[i]);
            proof {
                assert(entries@ =~= self.entries@.subrange(0, i + 1));
            }
            i = i + 1;
        }
        proof {
            assert(pre_header@ =~= self.pre_header@);
            assert(self.entries@.subrange(0, n as int) =~= self.entries@);
        }
        FPT {
            pre_header,
            header: self.header,
            entries,
            original_size: self.original_size,
        }
    }
}

/// The smallest region an FPT can occupy: a header plus one entry.
pub const MIN_FPT_SIZE: usize = 64;

const POSSIBLE_OFFSET: usize = 16;

/// The byte sequence of the magic `$FPT`.
pub open spec fn spec_fpt_magic() -> Seq<u8> {
    seq![0x24u8, 0x46u8, 0x50u8, 0x54u8]
}

/// Where the magic sits in the probed slice: at 0, at 16, or absent.
pub open spec fn spec_fpt_offset(data: Seq<u8>) -> Option<int> {
    if data.len() >= 4 && data.subrange(0, 4) == spec_fpt_magic() {
        Some(0int)
    } else if data.len() >= 20 && data.subrange(16, 20) == spec_fpt_magic() {
        Some(16int)
    } else {
        None
    }
}

/// The magic is either at the start or at a 16 byte offset.
fn determine_offset(data: &[u8]) -> (r: Option<usize>)
    ensures
        match r {
            Some(o) => spec_fpt_offset(data@) == Some(o as int),
            None => spec_fpt_offset(data@) is None,
        },
{
    let n = data.len();
    if n >= 4 && data[0] == 0x24 && data[1] == 0x46 && data[2] == 0x50 && data[3] == 0x54 {
        proof {
            assert(data@.subrange(0, 4) =~= spec_fpt_magic());
        }
        Some(0)
    } else {
        proof {
            if data@.len() >= 4 && data@.subrange(0, 4) == spec_fpt_magic() {
                assert(data@[0] == 0x24 && data@[1] == 0x46 && data@[2] == 0x50 && data@[3]
                    == 0x54);
            }
        }
        if n >= 20 && data[16] == 0x24 && data[17] == 0x46 && data[18] == 0x50 && data[19] == 0x54 {
            proof {
                assert(data@.subrange(16, 20) =~= spec_fpt_magic());
            }
            Some(16)
        } else {
            proof {
                if data@.len() >= 20 && data@.subrange(16, 20) == spec_fpt_magic() {
                    assert(data@[16] == 0x24 && data@[17] == 0x46 && data@[18] == 0x50 && data@[19]
                        == 0x54);
                }
            }
            None
        }
    }
}

/// Whether a table parses from `data`: the magic, room for the fixed
/// header, and room for the declared number of entries.
pub open spec fn spec_fpt_ok(data: Seq<u8>) -> bool {
    &&& spec_fpt_offset(data) is Some
    &&& data.len() >= spec_fpt_offset(data)->0 + 32
    &&& spec_fpt_offset(data)->0 + 32 + 32 * (u32_at(data, spec_fpt_offset(data)->0 + 4) as int)
        <= data.len()
}

/// How far a scan probes: it stops where the smallest possible table and
/// the largest magic offset no longer fit.
pub open spec fn spec_scan_bound(data: Seq<u8>) -> int {
    if data.len() < 80 {
        0
    } else {
        data.len() - 80
    }
}

/// How a table can fail to parse once its magic was found.
#[derive(Clone, Debug)]
pub enum FptError {
    /// Too few bytes for the fixed header.
    HeaderParseError(String),
    /// Too few bytes for the declared number of entries.
    EntryParseError(String),
}

/// What it means for a parsed table to come from `data`.
pub open spec fn spec_fpt_parsed(fpt: FPT, data: Seq<u8>) -> bool {
    &&& spec_fpt_offset(data) is Some
    &&& {
        let off = spec_fpt_offset(data)->0;
        &&& fpt.pre_header@ == data.subrange(0, off)
        &&& fpt_header_bytes(fpt.header) == data.subrange(off, off + 32)
        &&& fpt.entries@.len() == fpt.header.entries
        &&& forall|i: int|
            0 <= i < fpt.entries@.len() ==> #[trigger] fpt_entry_bytes(fpt.entries@[i])
                == data.subrange(off + 32 + 32 * i, off + 32 + 32 * i + 32)
        &&& fpt.original_size == off + 32 + 32 * (fpt.header.entries as int)
        &&& fpt.original_size <= data.len()
    }
}

/// Sum of all bytes, modulo 256.
pub open spec fn spec_byte_sum(s: Seq<u8>) -> u8
    decreases s.len(),
{
    if s.len() == 0 {
        0u8
    } else {
        ((spec_byte_sum(s.drop_last()) + s.last()) % 256) as u8
    }
}

/// The checksum the header must carry: the two's complement of the byte sum
/// of the pre-header and the header with its checksum field zeroed.
pub open spec fn spec_fpt_checksum(pre: Seq<u8>, h: FPTHeader) -> u8 {
    let zeroed = FPTHeader { checksum: 0u8, ..h };
    let sum = spec_byte_sum(pre + fpt_header_bytes(zeroed));
    ((256 - sum) % 256) as u8
}

/// Sum a byte slice modulo 256.
fn byte_sum(data: &[u8]) -> (r: u8)
    ensures
        r == spec_byte_sum(data@),
{
    let n = data.len();
    let mut acc: u8 = 0;
    let mut i: usize = 0;
    proof {
        assert(data@.subrange(0, 0) =~= Seq::<u8>::empty());
    }
    while i < n
        invariant
            n == data@.len(),
            i <= n,
            acc == spec_byte_sum(data@.subrange(0, i as int)),
        decreases n - i,
    {
        acc = ((acc as u32 + data[i] as u32) % 256) as u8;
        proof {
            let pre = data@.subrange(0, i + 1);
            assert(pre.drop_last() =~= data@.subrange(0, i as int));
            assert(pre.last() == data@[i as int]);
        }
        i = i + 1;
    }
    proof {
        assert(data@.subrange(0, n as int) =~= data@);
    }
    acc
}

impl FPT {
    /// Probe `data` for a table. `None` means no magic; `Some(Err(..))` means
    /// the magic was found but the region is too short for the header or for
    /// the declared entry count.
    pub fn parse(data: &[u8]) -> (r: Option<Result<FPT, FptError>>)
        ensures
            (r is None) <==> (spec_fpt_offset(data@) is None),
            (r matches Some(Err(FptError::HeaderParseError(_)))) <==> (spec_fpt_offset(data@)
                is Some && data@.len() < spec_fpt_offset(data@)->0 + 32),
            (r matches Some(Err(FptError::EntryParseError(_)))) <==> (spec_fpt_offset(data@)
                is Some && data@.len() >= spec_fpt_offset(data@)->0 + 32 && spec_fpt_offset(data@)->0
                + 32 + 32 * (u32_at(data@, spec_fpt_offset(data@)->0 + 4) as int) > data@.len()),
            (r matches Some(Ok(fpt)) ==> spec_fpt_parsed(fpt, data@)),
            (r matches Some(Ok(_))) <==> spec_fpt_ok(data@),
    {
        let n = data.len();
        let offset = match determine_offset(data) {
            Some(o) => o,
            None => {
                return None;
            },
        };
        if n < offset + 32 {
            return Some(Err(FptError::HeaderParseError(String::from_str("too short for header"))));
        }
        let header = read_fpt_header(data, offset);
        let count = header.entries as usize;
        // Entries follow the header; each is 32 bytes.
        if count > (n - offset - 32) / 32 {
            return Some(Err(FptError::EntryParseError(String::from_str("too short for entries"))));
        }
        let mut entries: Vec<FPTEntry> = Vec::new();
        let mut i: usize = 0;
        while i < count
            invariant
                n == data@.len(),
                offset + 32 + 32 * count <= n,
                i <= count,
                entries@.len() == i,
                forall|j: int|
                    0 <= j < i ==> #[trigger] fpt_entry_bytes(entries@[j]) == data@.subrange(
                        offset + 32 + 32 * j,
                        offset + 32 + 32 * j + 32,
                    ),
            decreases count - i,
        {
            let e = read_fpt_entry(data, offset + 32 + 32 * i);
            entries.push(e);
            i = i + 1;
        }
        let original_size = offset + 32 + 32 * count;
        let pre_header = crate::codec::read_vec(data, 0, offset);
        Some(
            Ok(
                FPT { pre_header, header, entries, original_size },
            ),
        )
    }

    /// Find a table in `data` by probing every 64-byte boundary: the first
    /// boundary whose bytes carry the magic wins, and its offset comes back
    /// with the parse result; `None` exactly when no probed boundary carries
    /// the magic.
    pub fn scan(data: &[u8]) -> (r: Option<(Result<FPT, FptError>, usize)>)
        ensures
            (r is None) ==> (forall|a: int|
                0 <= a && 64 * a < spec_scan_bound(data@) ==> (#[trigger] spec_fpt_offset(
                    data@.skip(64 * a),
                )) is None),
            r matches Some((res, o)) ==> {
                &&& o % 64 == 0
                &&& (o as int) < spec_scan_bound(data@)
                &&& spec_fpt_offset(data@.skip(o as int)) is Some
                &&& forall|a: int|
                    0 <= a && 64 * a < o ==> (#[trigger] spec_fpt_offset(data@.skip(64 * a)))
                        is None
                &&& ((res is Ok) <==> spec_fpt_ok(data@.skip(o as int)))
                &&& (res matches Ok(fpt) ==> spec_fpt_parsed(fpt, data@.skip(o as int)))
            },
    {
        let n = data.len();
        if n < MIN_FPT_SIZE + POSSIBLE_OFFSET {
            return None;
        }
        let bound = n - MIN_FPT_SIZE - POSSIBLE_OFFSET;
        let mut o: usize = 0;
        let ghost mut c: int = 0;
        while o < bound
            invariant
                bound == spec_scan_bound(data@),
                bound <= n == data@.len(),
                o == 64 * c,
                0 <= c,
                forall|a: int|
                    0 <= a < c ==> (#[trigger] spec_fpt_offset(data@.skip(64 * a))) is None,
            decreases bound - o,
        {
            let slice = vstd::slice::slice_subrange(data, o, n);
            if let Some(res) = Self::parse(slice) {
                proof {
                    assert(forall|a: int|
                        0 <= a && 64 * a < o ==> a < c && (#[trigger] spec_fpt_offset(
                            data@.skip(64 * a),
                        )) is None);
                }
                return Some((res, o));
            }
            proof {
                c = c + 1;
            }
            if bound - o <= 64 {
                // The next probe would pass the bound.
                proof {
                    assert(forall|a: int|
                        0 <= a && 64 * a < spec_scan_bound(data@) ==> a < c && (
                        #[trigger] spec_fpt_offset(data@.skip(64 * a))) is None);
                }
                return None;
            }
            o = o + 64;
        }
        None
    }

    /// The checksum the header should carry for its current contents:
    /// the two's complement of the byte sum.
    pub fn header_checksum(&self) -> (r: u8)
        ensures
            r == spec_fpt_checksum(self.pre_header@, self.header),
    {
        let mut c = self.header;
        c.checksum = 0;
        let mut d: Vec<u8> = Vec::new();
        push_bytes(&mut d, self.pre_header.as_slice());
        push_fpt_header(&mut d, &c);
        let sum = byte_sum(d.as_slice());
        let r = if sum == 0 {
            0
        } else {
            255 - sum + 1
        };
        proof {
            assert(c == FPTHeader { checksum: 0u8, ..self.header });
            assert(r == ((256 - spec_byte_sum(self.pre_header@ + fpt_header_bytes(c))) % 256));
        }
        r
    }

    /// Remove all entries but `FTPR`, adjusting the header's entry count,
    /// clearing the filesystem-present flag, and recomputing the checksum.
    pub fn clear(&mut self)
        requires
            old(self).entries@.len() <= u32::MAX,
        ensures
            spec_fpt_cleared(*final(self), *old(self)),
    {
        let n = self.entries.len();
        let mut kept: Vec<FPTEntry> = Vec::new();
        let mut i: usize = 0;
        proof {
            reveal(Seq::filter);
            assert(self.entries@.subrange(0, 0) =~= Seq::<FPTEntry>::empty());
        }
        while i < n
            invariant
                n == self.entries@.len(),
                i <= n,
                kept@ == spec_ftpr_entries(self.entries@.subrange(0, i as int)),
                kept@.len() <= i,
            decreases n - i,
        {
            let e = self.entries[i];
            if e.is_ftpr() {
                kept.push(e);
            }
            i = i + 1;
            proof {
                reveal(Seq::filter);
                let pre = self.entries@.subrange(0, i as int);
                assert(pre.drop_last() =~= self.entries@.subrange(0, i - 1));
                assert(pre.last() == self.entries@[i - 1]);
                assert(kept@ == spec_ftpr_entries(pre));
            }
        }
        proof {
            assert(self.entries@.subrange(0, n as int) =~= self.entries@);
        }
        self.entries = kept;
        self.header.entries = self.entries.len() as u32;
        // Clear the EFFS presence flag.
        self.header.flash_layout_or_flags = self.header.flash_layout_or_flags & 0xffff_fffe;
        self.header.checksum = self.header_checksum();
    }

    /// Encode the table: pre-header, header and entries back to back, padded
    /// with the erase byte (or cut) to the size captured at parse time.
    pub fn to_vec(self) -> (r: Vec<u8>)
        ensures
            ({
                let base = self.pre_header@ + fpt_header_bytes(self.header) + fpt_entries_bytes(
                    self.entries@,
                );
                if base.len() <= self.original_size {
                    r@ == base + Seq::new((self.original_size - base.len()) as nat, |i: int| crate::EMPTY)
                } else {
                    r@ == base.subrange(0, self.original_size as int)
                }
            }),
    {
        let mut res: Vec<u8> = Vec::new();
        push_bytes(&mut res, self.pre_header.as_slice());
        push_fpt_header(&mut res, &self.header);
        let n = self.entries.len();
        let mut i: usize = 0;
        while i < n
            invariant
                n == self.entries@.len(),
                i <= n,
                res@ == self.pre_header@ + fpt_header_bytes(self.header) + fpt_entries_bytes(
                    self.entries@.subrange(0, i as int),
                ),
            decreases n - i,
        {
            push_fpt_entry(&mut res, &self.entries[i]);
            proof {
                let pre = self.entries@.subrange(0, i + 1);
                assert(pre.drop_last() =~= self.entries@.subrange(0, i as int));
                assert(pre.last() == self.entries@[i as int]);
                assert(res@ =~= self.pre_header@ + fpt_header_bytes(self.header)
                    + fpt_entries_bytes(pre));
            }
            i = i + 1;
        }
        proof {
            assert(self.entries@.subrange(0, n as int) =~= self.entries@);
        }
        resize_bytes(&mut res, self.original_size, crate::EMPTY);
        res
    }
}

/// What clearing a table leaves: only the `FTPR` entries, the count and
/// checksum recomputed, the filesystem-present flag cleared, and everything
/// else as it was.
pub open spec fn spec_fpt_cleared(new: FPT, old: FPT) -> bool {
    &&& new.entries@ == spec_ftpr_entries(old.entries@)
    &&& new.header.entries == new.entries@.len()
    &&& new.header.flash_layout_or_flags == old.header.flash_layout_or_flags & 0xffff_fffeu32
    &&& new.header.checksum == spec_fpt_checksum(new.pre_header@, new.header)
    &&& new.pre_header@ == old.pre_header@
    &&& new.original_size == old.original_size
    &&& new.header.signature == old.header.signature
    &&& new.header.header_ver == old.header.header_ver
    &&& new.header.entry_ver == old.header.entry_ver
    &&& new.header.header_len == old.header.header_len
    &&& new.header.ticks_to_add == old.header.ticks_to_add
    &&& new.header.tokens_to_add == old.header.tokens_to_add
    &&& new.header.uma_size_or_reserved == old.header.uma_size_or_reserved
    &&& new.header.fitc_ver == old.header.fitc_ver
}

/// Parsing a table and encoding it again reproduces the probed bytes up to
/// the captured size: the byte-exact round trip.
pub proof fn lemma_fpt_round_trip(fpt: FPT, data: Seq<u8>)
    requires
        spec_fpt_parsed(fpt, data),
    ensures
        fpt.pre_header@ + fpt_header_bytes(fpt.header) + fpt_entries_bytes(fpt.entries@)
            == data.subrange(0, fpt.original_size as int),
{
    let off = spec_fpt_offset(data)->0;
    lemma_fpt_entries_bytes_concat(fpt.entries@, data, off + 32);
    lemma_fpt_entries_bytes_len(fpt.entries@);
    assert(fpt.pre_header@ + fpt_header_bytes(fpt.header) + fpt_entries_bytes(fpt.entries@)
        =~= data.subrange(0, fpt.original_size as int));
}

} // verus!
