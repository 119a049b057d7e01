//! Gen 2 directories: a manifest, a 12-byte header, and `$MME` module
//! entries. Huffman-compressed modules share one `LLUT` chunk table per
//! directory; removal reasons about the byte ranges of those chunks, never
//! about the compressed content.

use vstd::prelude::*;
use vstd::string::StringExecFns;

use crate::codec::{
    contains_name, le32, push_bytes, push_u32, read_arr, read_u32, sort_u64s, spec_name_in,
    spec_sorted_u64s, spec_tag_name, tag_name, u32_at,
};
use crate::dir::man::{Manifest, spec_manifest_parsed, MANIFEST_SIZE};
use crate::{RemovableRange, Removables};

verus! {

/// Module names that are essential for platform initialization and must
/// never be removed.
pub fn always_retain() -> (r: Vec<String>)
    ensures
        crate::codec::spec_names(r@) == seq!["BUP"@, "ROMP"@],
{
    let mut v: Vec<String> = Vec::new();
    v.push(String::from_str("BUP"));
    v.push(String::from_str("ROMP"));
    proof {
        assert(crate::codec::spec_names(v@) =~= seq!["BUP"@, "ROMP"@]);
    }
    v
}

/// One 96-byte `$MME` module entry.
#[derive(Clone, Copy, Debug)]
pub struct Entry {
    pub magic: [u8; 4],
    pub name: [u8; 16],
    pub hash: [u8; 32],
    pub mod_base: u32,
    pub offset: u32,
    pub code_size: u32,
    pub size: u32,
    pub memory_size: u32,
    pub pre_uma_size: u32,
    pub entry_point: u32,
    pub flags: Flags,
    pub x54: u32,
    pub x58: u32,
    pub x5c: u32,
}

pub const GEN2_ENTRY_SIZE: usize = 96;

/// The packed flags word of a module entry; named bit ranges are read
/// through the accessors.
#[derive(Clone, Copy, Debug, PartialEq, Eq, Structural)]
pub struct Flags(pub u32);

/// How a module's bytes are compressed, from the 3-bit field of the flags.
#[derive(Clone, Copy, Debug, PartialEq, Eq, Structural)]
pub enum Compression {
    Uncompressed,
    Huffman,
    Lzma,
    Unknown,
}

impl Compression {
    /// Decode the 3-bit compression field.
    pub fn from_bits(val: u8) -> (r: Compression)
        ensures
            r == spec_compression_from_bits(val),
    {
        if val == 0 {
            Compression::Uncompressed
        } else if val == 1 {
            Compression::Huffman
        } else if val == 2 {
            Compression::Lzma
        } else {
            Compression::Unknown
        }
    }

    /// Encode back to the 3-bit field value.
    pub fn into_bits(self) -> (r: u8)
        ensures
            r == spec_compression_into_bits(self),
    {
        match self {
            Compression::Uncompressed => 0,
            Compression::Huffman => 1,
            Compression::Lzma => 2,
            Compression::Unknown => 3,
        }
    }
}

pub open spec fn spec_compression_from_bits(val: u8) -> Compression {
    if val == 0 {
        Compression::Uncompressed
    } else if val == 1 {
        Compression::Huffman
    } else if val == 2 {
        Compression::Lzma
    } else {
        Compression::Unknown
    }
}

pub open spec fn spec_compression_into_bits(c: Compression) -> u8 {
    match c {
        Compression::Uncompressed => 0u8,
        Compression::Huffman => 1u8,
        Compression::Lzma => 2u8,
        Compression::Unknown => 3u8,
    }
}

impl Flags {
    /// The 3-bit compression field, bits 4 to 6.
    pub fn compression(&self) -> (r: Compression)
        ensures
            r == spec_flags_compression(*self),
    {
        let bits = ((self.0 >> 4) & 7) as u8;
        Compression::from_bits(bits)
    }

    /// The 3-bit RAPI field, bits 17 to 19.
    pub fn rapi(&self) -> (r: usize)
        ensures
            r == ((self.0 >> 17) & 7) as usize,
    {
        ((self.0 >> 17) & 7) as usize
    }

    /// The 2-bit KAPI field, bits 20 and 21.
    pub fn kapi(&self) -> (r: usize)
        ensures
            r == ((self.0 >> 20) & 3) as usize,
    {
        ((self.0 >> 20) & 3) as usize
    }
}

pub open spec fn spec_flags_compression(f: Flags) -> Compression {
    spec_compression_from_bits(((f.0 >> 4) & 7) as u8)
}

/// Where a module sits in memory once loaded: code and data bounds derived
/// from its entry.
#[derive(Clone, Copy, Debug)]
pub struct BinaryMap {
    pub rapi: usize,
    pub kapi: usize,
    pub code_start: usize,
    pub code_end: usize,
    pub data_end: usize,
}

impl Entry {
    /// The memory map the entry describes: code starts after the RAPI/KAPI
    /// pages, code and data end at the declared sizes past the base.
    pub fn bin_map(&self) -> (r: BinaryMap)
        requires
            self.mod_base + 10 * 0x1000 <= usize::MAX,
            self.mod_base + self.code_size <= usize::MAX,
            self.mod_base + self.memory_size <= usize::MAX,
        ensures
            r.rapi == (self.flags.0 >> 17) & 7,
            r.kapi == (self.flags.0 >> 20) & 3,
            r.code_start == self.mod_base + (r.rapi + r.kapi) * 0x1000,
            r.code_end == self.mod_base + self.code_size,
            r.data_end == self.mod_base + self.memory_size,
    {
        let b = self.mod_base;
        let rapi = self.flags.rapi();
        let kapi = self.flags.kapi();
        proof {
            let f = self.flags.0;
            assert(((f >> 17u32) & 7) <= 7) by (bit_vector);
            assert(((f >> 20u32) & 3) <= 3) by (bit_vector);
        }
        let code_start = b as usize + (rapi + kapi) * 0x1000;
        let code_end = b as usize + self.code_size as usize;
        let data_end = b as usize + self.memory_size as usize;
        BinaryMap { rapi, kapi, code_start, code_end, data_end }
    }

    /// The module name, trailing NULs stripped.
    pub fn name(&self) -> (r: String)
        ensures
            r@ == spec_tag_name(self.name@),
    {
        tag_name(&self.name)
    }
}

/// How a module entry is laid out on disk.
pub open spec fn gen2_entry_bytes(e: Entry) -> Seq<u8> {
    e.magic@ + e.name@ + e.hash@ + le32(e.mod_base) + le32(e.offset) + le32(e.code_size) + le32(
        e.size,
    ) + le32(e.memory_size) + le32(e.pre_uma_size) + le32(e.entry_point) + le32(e.flags.0) + le32(
        e.x54,
    ) + le32(e.x58) + le32(e.x5c)
}

pub proof fn lemma_gen2_entry_bytes_len(e: Entry)
    ensures
        gen2_entry_bytes(e).len() == 96,
{
}

/// Decode a module entry from 96 bytes at `off`.
#[verifier::rlimit(100)]
pub fn read_gen2_entry(data: &[u8], off: usize) -> (r: Entry)
    requires
        off + 96 <= data@.len(),
    ensures
        gen2_entry_bytes(r) == data@.subrange(off as int, off + 96),
{
    let n = data.len();
    let magic = read_arr::<4>(data, off);
    let name = read_arr::<16>(data, off + 4);
    let hash = read_arr::<32>(data, off + 20);
    let mod_base = read_u32(data, off + 52);
    let offset = read_u32(data, off + 56);
    let code_size = read_u32(data, off + 60);
    let size = read_u32(data, off + 64);
    let memory_size = read_u32(data, off + 68);
    let pre_uma_size = read_u32(data, off + 72);
    let entry_point = read_u32(data, off + 76);
    let flags = Flags(read_u32(data, off + 80));
    let x54 = read_u32(data, off + 84);
    let x58 = read_u32(data, off + 88);
    let x5c = read_u32(data, off + 92);
    let r = Entry {
        magic,
        name,
        hash,
        mod_base,
        offset,
        code_size,
        size,
        memory_size,
        pre_uma_size,
        entry_point,
        flags,
        x54,
        x58,
        x5c,
    };
    assert(gen2_entry_bytes(r) =~= data@.subrange(off as int, off + 96));
    r
}

/// The 64-byte `LLUT` header of the shared Huffman chunk table.
#[derive(Clone, Copy, Debug)]
pub struct HuffmanHeader {
    pub magic: [u8; 4],
    pub chunk_count: u32,
    pub chunk_base: u32,
    pub unk0: u32,
    pub hs0: u32,
    pub hs1: u32,
    pub unk1: u32,
    pub unk2: u32,
    pub r: [u8; 16],
    pub chunk_size: u32,
    pub unk3: u32,
    pub name: [u8; 8],
}

pub const LUT_HEADER_SIZE: usize = 64;

/// How the LUT header is laid out on disk.
pub open spec fn huffman_header_bytes(h: HuffmanHeader) -> Seq<u8> {
    h.magic@ + le32(h.chunk_count) + le32(h.chunk_base) + le32(h.unk0) + le32(h.hs0) + le32(h.hs1)
        + le32(h.unk1) + le32(h.unk2) + h.r@ + le32(h.chunk_size) + le32(h.unk3) + h.name@
}

pub proof fn lemma_huffman_header_bytes_len(h: HuffmanHeader)
    ensures
        huffman_header_bytes(h).len() == 64,
{
}

/// Decode a LUT header from 64 bytes at `off`.
#[verifier::rlimit(100)]
pub fn read_huffman_header(data: &[u8], off: usize) -> (r: HuffmanHeader)
    requires
        off + 64 <= data@.len(),
    ensures
        huffman_header_bytes(r) == data@.subrange(off as int, off + 64),
        r.chunk_count == u32_at(data@, off + 4),
{
    let n = data.len();
    let magic = read_arr::<4>(data, off);
    let chunk_count = read_u32(data, off + 4);
    let chunk_base = read_u32(data, off + 8);
    let unk0 = read_u32(data, off + 12);
    let hs0 = read_u32(data, off + 16);
    let hs1 = read_u32(data, off + 20);
    let unk1 = read_u32(data, off + 24);
    let unk2 = read_u32(data, off + 28);
    let r0 = read_arr::<16>(data, off + 32);
    let chunk_size = read_u32(data, off + 48);
    let unk3 = read_u32(data, off + 52);
    let name = read_arr::<8>(data, off + 56);
    let h = HuffmanHeader {
        magic,
        chunk_count,
        chunk_base,
        unk0,
        hs0,
        hs1,
        unk1,
        unk2,
        r: r0,
        chunk_size,
        unk3,
        name,
    };
    assert(huffman_header_bytes(h) =~= data@.subrange(off as int, off + 64));
    h
}

/// Append the 64-byte encoding of a LUT header.
#[verifier::rlimit(100)]
pub fn push_huffman_header(out: &mut Vec<u8>, h: &HuffmanHeader)
    ensures
        final(out)@ == old(out)@ + huffman_header_bytes(*h),
{
    push_bytes(out, &h.magic);
    push_u32(out, h.chunk_count);
    push_u32(out, h.chunk_base);
    push_u32(out, h.unk0);
    push_u32(out, h.hs0);
    push_u32(out, h.hs1);
    push_u32(out, h.unk1);
    push_u32(out, h.unk2);
    push_bytes(out, &h.r);
    push_u32(out, h.chunk_size);
    push_u32(out, h.unk3);
    push_bytes(out, &h.name);
    assert(final(out)@ =~= old(out)@ + huffman_header_bytes(*h));
}

/// The chunk table values, encoded in order.
pub open spec fn chunks_bytes(s: Seq<u32>) -> Seq<u8>
    decreases s.len(),
{
    if s.len() == 0 {
        Seq::empty()
    } else {
        chunks_bytes(s.drop_last()) + le32(s.last())
    }
}

pub proof fn lemma_chunks_bytes_len(s: Seq<u32>)
    ensures
        chunks_bytes(s).len() == 4 * s.len(),
    decreases s.len(),
{
    if s.len() > 0 {
        lemma_chunks_bytes_len(s.drop_last());
    }
}

/// Decode `count` chunk values from `off`.
pub fn read_chunks(data: &[u8], off: usize, count: usize) -> (r: Vec<u32>)
    requires
        off + 4 * count <= data@.len(),
    ensures
        r@.len() == count,
        forall|i: int| 0 <= i < count ==> r@[i] == u32_at(data@, off + 4 * i),
        chunks_bytes(r@) == data@.subrange(off as int, off + 4 * count),
{
    let n = data.len();
    let mut r: Vec<u32> = Vec::new();
    let mut i: usize = 0;
    while i < count
        invariant
            off + 4 * count <= n == data@.len(),
            i <= count,
            r@.len() == i,
            forall|j: int| 0 <= j < i ==> r@[j] == u32_at(data@, off + 4 * j),
            chunks_bytes(r@) == data@.subrange(off as int, off + 4 * i),
        decreases count - i,
    {
        let c = read_u32(data, off + 4 * i);
        let ghost prev = r@;
        r.push(c);
        proof {
            assert(r@.drop_last() =~= prev);
            assert(r@.last() == c);
            assert(data@.subrange(off as int, off + 4 * i) + data@.subrange(
                off + 4 * i,
                off + 4 * (i + 1),
            ) =~= data@.subrange(off as int, off + 4 * (i + 1)));
            assert(chunks_bytes(r@) =~= data@.subrange(off as int, off + 4 * (i + 1)));
        }
        i = i + 1;
    }
    r
}

/// Append the chunk table values in order.
pub fn push_chunks(out: &mut Vec<u8>, chunks: &Vec<u32>)
    ensures
        final(out)@ == old(out)@ + chunks_bytes(chunks@),
{
    let n = chunks.len();
    let mut i: usize = 0;
    while i < n
        invariant
            n == chunks@.len(),
            i <= n,
            out@ == old(out)@ + chunks_bytes(chunks@.subrange(0, i as int)),
        decreases n - i,
    {
        push_u32(out, chunks[i]);
        proof {
            let pre = chunks@.subrange(0, i + 1);
            assert(pre.drop_last() =~= chunks@.subrange(0, i as int));
            assert(pre.last() == chunks@[i as int]);
            assert(out@ =~= old(out)@ + chunks_bytes(pre));
        }
        i = i + 1;
    }
    proof {
        assert(chunks@.subrange(0, n as int) =~= chunks@);
    }
}

/// The shared Huffman look-up table: header and chunk descriptors.
#[derive(Debug)]
pub struct Huffman {
    pub header: HuffmanHeader,
    pub chunks: Vec<u32>,
}

impl Clone for Huffman {
    /// An exact copy, field by field.
    fn clone(&self) -> (res: Self)
        ensures
            res.header == self.header,
            res.chunks@ == self.chunks@,
    {
        let mut chunks: Vec<u32> = Vec::new();
        let n = self.chunks.len();
        let mut i: usize = 0;
        while i < n
            invariant
                n == self.chunks@.len(),
                i <= n,
                chunks@ == self.chunks@.subrange(0, i as int),
            decreases n - i,
        {
            chunks.push(self.chunks[i]);
            proof {
                assert(chunks@ =~= self.chunks@.subrange(0, i + 1));
            }
            i = i + 1;
        }
        proof {
            assert(self.chunks@.subrange(0, n as int) =~= self.chunks@);
        }
        Huffman { header: self.header, chunks }
    }
}

/// One module of a Gen 2 directory, wrapped by how it is compressed; the
/// compressed kinds keep the reason when their side structures are
/// malformed.
#[derive(Debug)]
pub enum Module {
    Uncompressed(Entry),
    Huffman(Result<(Entry, Huffman), String>),
    Lzma(Result<Entry, String>),
    Unknown(Entry),
}

/// Whether two modules hold the same values; a copy satisfies this.
pub open spec fn spec_module_eq(a: Module, b: Module) -> bool {
    match (a, b) {
        (Module::Uncompressed(x), Module::Uncompressed(y)) => x == y,
        (Module::Unknown(x), Module::Unknown(y)) => x == y,
        (Module::Lzma(x), Module::Lzma(y)) => x == y,
        (Module::Huffman(Ok((e1, h1))), Module::Huffman(Ok((e2, h2)))) => e1 == e2 && h1.header
            == h2.header && h1.chunks@ == h2.chunks@,
        (Module::Huffman(Err(s1)), Module::Huffman(Err(s2))) => s1 == s2,
        _ => false,
    }
}

impl Clone for Module {
    /// An exact copy; Huffman tables are copied chunk by chunk.
    fn clone(&self) -> (res: Self)
        ensures
            spec_module_eq(res, *self),
    {
        match self {
            Module::Uncompressed(e) => Module::Uncompressed(*e),
            Module::Unknown(e) => Module::Unknown(*e),
            Module::Lzma(Ok(e)) => Module::Lzma(Ok(*e)),
            Module::Lzma(Err(s)) => Module::Lzma(Err(s.clone())),
            Module::Huffman(Ok((e, h))) => Module::Huffman(Ok((*e, h.clone()))),
            Module::Huffman(Err(s)) => Module::Huffman(Err(s.clone())),
        }
    }
}

/// The 12-byte directory header that follows the manifest record.
#[derive(Clone, Copy, Debug)]
pub struct Header {
    pub name: [u8; 4],
    pub pad: [u8; 8],
}

/// A parsed Gen 2 directory.
#[derive(Debug)]
pub struct Directory {
    pub manifest: Manifest,
    pub header: Header,
    pub modules: Vec<Module>,
    /// Offset of the directory relative to the region.
    pub offset: usize,
    /// Size of the partition the directory spans.
    pub size: usize,
    pub name: String,
}

/// Whether two directories hold the same values; a copy satisfies this.
pub open spec fn spec_directory_eq(a: Directory, b: Directory) -> bool {
    &&& a.manifest.header == b.manifest.header
    &&& a.manifest.signature == b.manifest.signature
    &&& a.manifest.mdata@ == b.manifest.mdata@
    &&& a.header == b.header
    &&& a.modules@.len() == b.modules@.len()
    &&& forall|i: int|
        0 <= i < a.modules@.len() ==> spec_module_eq(a.modules@[i], b.modules@[i])
    &&& a.offset == b.offset
    &&& a.size == b.size
    &&& a.name@ == b.name@
}

impl Clone for Directory {
    /// An exact copy, modules included.
    fn clone(&self) -> (res: Self)
        ensures
            spec_directory_eq(res, *self),
    {
        let mut modules: Vec<Module> = Vec::new();
        let n = self.modules.len();
        let mut i: usize = 0;
        while i < n
            invariant
                n == self.modules@.len(),
                i <= n,
                modules@.len() == i,
                forall|j: int| 0 <= j < i ==> spec_module_eq(modules@[j], self.modules@[j]),
            decreases n - i,
        {
            modules.push(self.modules[i].clone());
            i = i + 1;
        }
        Directory {
            manifest: self.manifest.clone(),
            header: self.header,
            modules,
            offset: self.offset,
            size: self.size,
            name: self.name.clone(),
        }
    }
}

/// The byte sequence of the module magic `$MME`.
pub open spec fn spec_mme_magic() -> Seq<u8> {
    seq![0x24u8, 0x4du8, 0x4du8, 0x45u8]
}

/// The byte sequence of the LUT magic `LLUT`.
pub open spec fn spec_llut_magic() -> Seq<u8> {
    seq![0x4cu8, 0x4cu8, 0x55u8, 0x54u8]
}

/// The signature bytes an LZMA stream starts with here.
pub open spec fn spec_lzma_sig() -> Seq<u8> {
    seq![0x36u8, 0x00u8, 0x40u8, 0x00u8]
}

/// Whether a well-shaped LUT sits at `o`: magic, full header, and room for
/// the declared chunk count.
pub open spec fn spec_lut_shape_ok(data: Seq<u8>, o: int) -> bool {
    &&& 0 <= o
    &&& o + 64 <= data.len()
    &&& data.subrange(o, o + 4) == spec_llut_magic()
    &&& o + 64 + 4 * (u32_at(data, o + 4) as int) <= data.len()
}

/// What it means for a parsed LUT to come from `data` at `o`.
pub open spec fn spec_lut_parsed(h: Huffman, data: Seq<u8>, o: int) -> bool {
    &&& huffman_header_bytes(h.header) == data.subrange(o, o + 64)
    &&& h.chunks@.len() == h.header.chunk_count
    &&& chunks_bytes(h.chunks@) == data.subrange(o + 64, o + 64 + 4 * (h.header.chunk_count as int))
}

/// What it means for a wrapped module to come from its entry and the
/// directory bytes: the wrapping follows the compression field, and the side
/// structures were read where they are well-shaped.
pub open spec fn spec_module_parsed(m: Module, e: Entry, data: Seq<u8>) -> bool {
    match spec_flags_compression(e.flags) {
        Compression::Uncompressed => m == Module::Uncompressed(e),
        Compression::Unknown => m == Module::Unknown(e),
        Compression::Lzma => {
            let o = e.offset as int;
            if o + 4 <= data.len() && data.subrange(o, o + 4) == spec_lzma_sig() {
                m == Module::Lzma(Ok(e))
            } else {
                m matches Module::Lzma(Err(_))
            }
        },
        Compression::Huffman => {
            let o = e.offset as int;
            if spec_lut_shape_ok(data, o) {
                m matches Module::Huffman(Ok((e2, h))) && e2 == e && spec_lut_parsed(h, data, o)
            } else {
                m matches Module::Huffman(Err(_))
            }
        },
    }
}

/// Whether a module was read from entry slot `i` of the directory bytes:
/// some entry encodes to those bytes and the module wraps it.
pub open spec fn spec_module_slot_ok(m: Module, data: Seq<u8>, i: int) -> bool {
    exists|e: Entry|
        gen2_entry_bytes(e) == data.subrange(684 + 96 * i, 684 + 96 * i + 96)
            && #[trigger] spec_module_parsed(m, e, data)
}

/// What it means for a parsed directory to come from `data` at `offset`.
pub open spec fn spec_gen2_dir_parsed(d: Directory, data: Seq<u8>, offset: int) -> bool {
    &&& spec_manifest_parsed(d.manifest, data)
    &&& data.len() >= 688
    &&& d.header.name@ == data.subrange(672, 676)
    &&& d.header.pad@ == data.subrange(676, 684)
    &&& d.modules@.len() == d.manifest.header.entries
    &&& 684 + 96 * (d.manifest.header.entries as int) <= data.len()
    &&& forall|i: int|
        0 <= i < d.modules@.len() ==> #[trigger] spec_module_slot_ok(d.modules@[i], data, i)
    &&& d.offset == offset
    &&& d.size == data.len()
    &&& d.name@ == spec_tag_name(data.subrange(672, 676))
}

/// Whether a directory parses from `data`: a manifest, room for the
/// directory header, the module magic, and room for the declared entries.
pub open spec fn spec_gen2_dir_ok(data: Seq<u8>) -> bool {
    &&& crate::dir::man::spec_manifest_ok(data)
    &&& data.len() >= 688
    &&& data.subrange(684, 688) == spec_mme_magic()
    &&& 684 + 96 * (u32_at(data, 32) as int) <= data.len()
}

impl Directory {
    /// Parse a directory from the bytes of one partition. `offset` is where
    /// the partition sits in the region.
    pub fn new(data: &[u8], offset: usize) -> (r: Result<Directory, String>)
        ensures
            (r is Ok) <==> spec_gen2_dir_ok(data@),
            r matches Ok(d) ==> spec_gen2_dir_parsed(d, data@, offset as int),
    {
        let n = data.len();
        let manifest = match Manifest::new(data) {
            Ok(m) => m,
            Err(_) => {
                return Err(String::from_str("cannot parse Gen 2 directory manifest"));
            },
        };
        let count = manifest.header.entries as usize;
        if n < 688 {
            return Err(String::from_str("cannot parse ME FW Gen 2 directory header"));
        }
        let name_bytes = read_arr::<4>(data, MANIFEST_SIZE);
        let pad = read_arr::<8>(data, MANIFEST_SIZE + 4);
        let header = Header { name: name_bytes, pad };
        // The module entries follow the directory header and start with the
        // module magic.
        if !(data[684] == 0x24 && data[685] == 0x4d && data[686] == 0x4d && data[687] == 0x45) {
            proof {
                assert(data@.subrange(684, 688) != spec_mme_magic() ==> true);
                if data@.subrange(684, 688) == spec_mme_magic() {
                    assert(data@[684] == 0x24 && data@[685] == 0x4d && data@[686] == 0x4d
                        && data@[687] == 0x45);
                }
            }
            return Err(String::from_str("entry magic not found"));
        }
        proof {
            assert(data@.subrange(684, 688) =~= spec_mme_magic());
        }
        if count > (n - 684) / 96 {
            return Err(String::from_str("cannot parse ME FW Gen 2 directory entries"));
        }
        let mut modules: Vec<Module> = Vec::new();
        let ghost mut es: Seq<Entry> = Seq::empty();
        let mut i: usize = 0;
        while i < count
            invariant
                n == data@.len(),
                684 + 96 * count <= n,
                i <= count,
                modules@.len() == i,
                es.len() == i,
                forall|j: int|
                    #![all_triggers]
                    0 <= j < i ==> gen2_entry_bytes(es[j]) == data@.subrange(
                        684 + 96 * j,
                        684 + 96 * j + 96,
                    ) && spec_module_parsed(modules@[j], es[j], data@),
            decreases count - i,
        {
            let e = read_gen2_entry(data, 684 + 96 * i);
            let m = wrap_module(data, e);
            modules.push(m);
            proof {
                es = es.push(e);
            }
            i = i + 1;
        }
        let name = tag_name(&name_bytes);
        proof {
            assert(name_bytes@ =~= data@.subrange(672, 676));
            assert(pad@ =~= data@.subrange(676, 684));
        }
        let dir = Directory { manifest, header, modules, offset, size: n, name };
        proof {
            assert forall|j: int| 0 <= j < dir.modules@.len() implies #[trigger] spec_module_slot_ok(
                dir.modules@[j],
                data@,
                j,
            ) by {
                let w = es[j];
                assert(gen2_entry_bytes(w) == data@.subrange(684 + 96 * j, 684 + 96 * j + 96)
                    && spec_module_parsed(modules@[j], w, data@));
                assert(dir.modules@[j] == modules@[j]);
            }
            assert(spec_gen2_dir_parsed(dir, data@, offset as int));
        }
        Ok(dir)
    }
}

/// Wrap one module entry according to its compression kind, reading the
/// shared LUT for Huffman modules and checking the stream signature for
/// LZMA ones.
fn wrap_module(data: &[u8], e: Entry) -> (m: Module)
    ensures
        spec_module_parsed(m, e, data@),
{
    let n = data.len();
    let o = e.offset as usize;
    match e.flags.compression() {
        Compression::Uncompressed => Module::Uncompressed(e),
        Compression::Unknown => Module::Unknown(e),
        Compression::Lzma => {
            if (o as u64) + 4 <= n as u64 && data[o] == 0x36 && data[o + 1] == 0x00 && data[o + 2]
                == 0x40 && data[o + 3] == 0x00 {
                proof {
                    assert(data@.subrange(o as int, o + 4) =~= spec_lzma_sig());
                }
                Module::Lzma(Ok(e))
            } else {
                proof {
                    if o + 4 <= n && data@.subrange(o as int, o + 4) == spec_lzma_sig() {
                        assert(data@[o as int] == 0x36 && data@[o + 1] == 0x00 && data@[o + 2]
                            == 0x40 && data@[o + 3] == 0x00);
                    }
                }
                Module::Lzma(Err(String::from_str("LZMA signature not found")))
            }
        },
        Compression::Huffman => {
            if !((o as u64) + 64 <= n as u64 && data[o] == 0x4c && data[o + 1] == 0x4c && data[o
                + 2] == 0x55 && data[o + 3] == 0x54) {
                proof {
                    if o + 64 <= data@.len() && data@.subrange(o as int, o + 4)
                        == spec_llut_magic() {
                        assert(data@[o as int] == 0x4c && data@[o + 1] == 0x4c && data@[o + 2]
                            == 0x55 && data@[o + 3] == 0x54);
                    }
                }
                return Module::Huffman(Err(String::from_str("LUT signature not found")));
            }
            proof {
                assert(data@.subrange(o as int, o + 4) =~= spec_llut_magic());
            }
            let header = read_huffman_header(data, o);
            let count = header.chunk_count as usize;
            if count > (n - o - 64) / 4 {
                return Module::Huffman(Err(String::from_str("LUT chunk table out of bounds")));
            }
            let chunks = read_chunks(data, o + 64, count);
            Module::Huffman(Ok((e, Huffman { header, chunks })))
        },
    }
}

/// The start a raw chunk value encodes: 0 when the top byte marks the slot
/// inactive, else the low 24 bits.
pub open spec fn spec_chunk_start(c: u32) -> u64 {
    if c >> 24 == 0x80 {
        0u64
    } else {
        (c & 0xffffff) as u64
    }
}

/// The nonzero candidate starts among the chunk values, in order.
pub open spec fn spec_nonzero_starts(chunks: Seq<u32>) -> Seq<u64>
    decreases chunks.len(),
{
    if chunks.len() == 0 {
        Seq::empty()
    } else {
        let rest = spec_nonzero_starts(chunks.drop_last());
        if spec_chunk_start(chunks.last()) != 0 {
            rest + seq![spec_chunk_start(chunks.last())]
        } else {
            rest
        }
    }
}

/// The index of the first occurrence of `v`.
pub open spec fn spec_first_index(s: Seq<u64>, v: u64) -> int
    recommends
        s.contains(v),
    decreases s.len(),
{
    if s.len() == 0 {
        0
    } else if s[0] == v {
        0
    } else {
        1 + spec_first_index(s.drop_first(), v)
    }
}

/// A scan that stops at the first hit computes `spec_first_index`.
proof fn lemma_first_index_of(s: Seq<u64>, v: u64, i: int)
    requires
        0 <= i < s.len(),
        s[i] == v,
        forall|j: int| 0 <= j < i ==> s[j] != v,
    ensures
        spec_first_index(s, v) == i,
        s.contains(v),
    decreases i,
{
    assert(s.contains(v));
    if i == 0 {
    } else {
        let t = s.drop_first();
        assert(t[i - 1] == v);
        assert(forall|j: int| 0 <= j < i - 1 ==> t[j] == s[j + 1] && t[j] != v);
        lemma_first_index_of(t, v, i - 1);
    }
}

/// The end of the chunk whose start is `o`: the element after the first
/// occurrence of `o` in the sorted candidate list, or `cap` when `o` is
/// last.
pub open spec fn spec_chunk_end(sorted: Seq<u64>, o: u64, cap: u64) -> u64 {
    let p = spec_first_index(sorted, o);
    if p + 1 < sorted.len() {
        sorted[p + 1]
    } else {
        cap
    }
}

/// Where the chunk stream must end at the latest: the smaller of the
/// stream's own bound and the end of the directory.
pub open spec fn spec_chunk_cap(stream_end: u64, dir_end: u64) -> u64 {
    if stream_end <= dir_end {
        stream_end
    } else {
        dir_end
    }
}

/// The sorted candidate list: the stream end and every nonzero start.
pub open spec fn spec_sorted_starts(chunks: Seq<u32>, stream_end: u64) -> Seq<u64> {
    spec_sorted_u64s(seq![stream_end] + spec_nonzero_starts(chunks))
}

/// The byte range of each chunk, in table order: an inactive or zero-start
/// slot contributes the empty range; any other start runs to the next larger
/// candidate start (a duplicated start collapses to an empty range), the
/// largest to the capped stream end.
pub open spec fn spec_chunk_ranges(chunks: Seq<u32>, stream_end: u64, dir_end: u64) -> Seq<
    RemovableRange,
> {
    let sorted = spec_sorted_starts(chunks, stream_end);
    let cap = spec_chunk_cap(stream_end, dir_end);
    Seq::new(
        chunks.len(),
        |i: int|
            {
                let o = spec_chunk_start(chunks[i]);
                if o == 0 {
                    RemovableRange { start: 0, end: 0 }
                } else {
                    RemovableRange { start: o, end: spec_chunk_end(sorted, o, cap) }
                }
            },
    )
}

impl Directory {
    /// The offset ranges of the chunks of one LUT. The ends come from the
    /// sorted set of candidate starts; the last chunk ends at the stream
    /// end, clipped to the end of this directory.
    fn chunks_as_ranges(&self, chunks: &Vec<u32>, stream_end: u64) -> (r: Vec<RemovableRange>)
        ensures
            r@ == spec_chunk_ranges(chunks@, stream_end, spec_dir_end(*self)),
    {
        let dir_end = dir_end_u64(self);
        let cap = if stream_end <= dir_end {
            stream_end
        } else {
            dir_end
        };
        let n = chunks.len();
        // Candidate starts: the stream end plus every nonzero start.
        let mut nz: Vec<u64> = Vec::new();
        nz.push(stream_end);
        let mut i: usize = 0;
        while i < n
            invariant
                n == chunks@.len(),
                i <= n,
                nz@ == seq![stream_end] + spec_nonzero_starts(chunks@.subrange(0, i as int)),
            decreases n - i,
        {
            let c = chunks[i];
            let o = chunk_start(c);
            if o != 0 {
                nz.push(o);
            }
            proof {
                let pre = chunks@.subrange(0, i + 1);
                assert(pre.drop_last() =~= chunks@.subrange(0, i as int));
                assert(pre.last() == chunks@[i as int]);
                assert(nz@ =~= seq![stream_end] + spec_nonzero_starts(pre));
            }
            i = i + 1;
        }
        proof {
            assert(chunks@.subrange(0, n as int) =~= chunks@);
        }
        sort_u64s(&mut nz);
        let ghost sorted = spec_sorted_starts(chunks@, stream_end);
        proof {
            assert(nz@ == sorted);
        }
        // Turn starts into ranges by finding each start's successor.
        let mut r: Vec<RemovableRange> = Vec::new();
        let mut i: usize = 0;
        while i < n
            invariant
                n == chunks@.len(),
                i <= n,
                nz@ == sorted,
                sorted == spec_sorted_starts(chunks@, stream_end),
                cap == spec_chunk_cap(stream_end, spec_dir_end(*self)),
                r@.len() == i,
                forall|j: int|
                    0 <= j < i ==> r@[j] == spec_chunk_ranges(
                        chunks@,
                        stream_end,
                        spec_dir_end(*self),
                    )[j],
            decreases n - i,
        {
            let c = chunks[i];
            let o = chunk_start(c);
            if o == 0 {
                r.push(RemovableRange { start: 0, end: 0 });
            } else {
                proof {
                    lemma_nonzero_starts_contain(chunks@, i as int);
                    broadcast use vstd::seq_lib::group_to_multiset_ensures;

                    let full = seq![stream_end] + spec_nonzero_starts(chunks@);
                    full.lemma_sort_by_ensures(|x: u64, y: u64| x <= y);
                    let ns = spec_nonzero_starts(chunks@);
                    let k = choose|k: int| 0 <= k < ns.len() && ns[k] == o;
                    assert(full[1 + k] == o);
                    assert(full.contains(o));
                    assert(full.to_multiset() =~= sorted.to_multiset());
                    assert(sorted.to_multiset().count(o) > 0);
                    assert(sorted.contains(o));
                }
                let p = first_index(&nz, o);
                let ln = nz.len();
                let e = if p + 1 < ln {
                    nz[p + 1]
                } else {
                    cap
                };
                r.push(RemovableRange { start: o, end: e });
            }
            proof {
                assert(r@[i as int] == spec_chunk_ranges(
                    chunks@,
                    stream_end,
                    spec_dir_end(*self),
                )[i as int]);
            }
            i = i + 1;
        }
        proof {
            assert(r@ =~= spec_chunk_ranges(chunks@, stream_end, spec_dir_end(*self)));
        }
        r
    }
}

/// A chunk with a nonzero start puts that start into the candidate list.
proof fn lemma_nonzero_starts_contain(chunks: Seq<u32>, i: int)
    requires
        0 <= i < chunks.len(),
        spec_chunk_start(chunks[i]) != 0,
    ensures
        spec_nonzero_starts(chunks).contains(spec_chunk_start(chunks[i])),
    decreases chunks.len(),
{
    if i == chunks.len() - 1 {
        assert(chunks.last() == chunks[i]);
        let rest = spec_nonzero_starts(chunks.drop_last());
        let whole = rest + seq![spec_chunk_start(chunks[i])];
        assert(whole[whole.len() - 1] == spec_chunk_start(chunks[i]));
    } else {
        lemma_nonzero_starts_contain(chunks.drop_last(), i);
        let rest = spec_nonzero_starts(chunks.drop_last());
        let k = choose|k: int| 0 <= k < rest.len() && rest[k] == spec_chunk_start(chunks.drop_last()[i]);
        assert(chunks.drop_last()[i] == chunks[i]);
        if spec_chunk_start(chunks.last()) != 0 {
            let whole = rest + seq![spec_chunk_start(chunks.last())];
            assert(whole[k] == spec_chunk_start(chunks[i]));
        }
    }
}

/// The decoded start of one raw chunk value.
fn chunk_start(c: u32) -> (r: u64)
    ensures
        r == spec_chunk_start(c),
{
    if c >> 24 == 0x80 {
        0
    } else {
        (c & 0xffffff) as u64
    }
}

/// The end of this directory in the region, saturated to 64 bits.
pub open spec fn spec_dir_end(d: Directory) -> u64 {
    if d.offset + d.size <= u64::MAX {
        (d.offset + d.size) as u64
    } else {
        u64::MAX
    }
}

/// The end of the directory in the region.
fn dir_end_u64(d: &Directory) -> (r: u64)
    ensures
        r == spec_dir_end(*d),
{
    let o = d.offset as u64;
    let s = d.size as u64;
    if o <= u64::MAX - s {
        o + s
    } else {
        u64::MAX
    }
}

/// The index of the first occurrence of `x`.
fn first_index(v: &Vec<u64>, x: u64) -> (r: usize)
    requires
        v@.contains(x),
    ensures
        r == spec_first_index(v@, x),
        r < v@.len(),
        v@[r as int] == x,
{
    let n = v.len();
    let mut i: usize = 0;
    while i < n
        invariant
            n == v@.len(),
            i <= n,
            v@.contains(x),
            forall|j: int| 0 <= j < i ==> v@[j] != x,
        decreases n - i,
    {
        if v[i] == x {
            proof {
                lemma_first_index_of(v@, x, i as int);
            }
            return i;
        }
        i = i + 1;
    }
    proof {
        let w = choose|w: int| 0 <= w < v@.len() && v@[w] == x;
        assert(false);
    }
    0
}

/// The first well-formed Huffman module, whose table all Huffman modules of
/// the directory share.
pub open spec fn spec_first_huffman(mods: Seq<Module>) -> Option<(Entry, Huffman)>
    decreases mods.len(),
{
    if mods.len() == 0 {
        None
    } else {
        match mods[0] {
            Module::Huffman(Ok((e, h))) => Some((e, h)),
            _ => spec_first_huffman(mods.drop_first()),
        }
    }
}

/// The shared chunk ranges of the directory: those of the first well-formed
/// Huffman module's table, bounded by its stream end.
pub open spec fn spec_all_chunks(mods: Seq<Module>, dir_end: u64) -> Seq<RemovableRange> {
    match spec_first_huffman(mods) {
        None => Seq::empty(),
        Some((e, h)) => spec_chunk_ranges(
            h.chunks@,
            (h.header.hs0 as u64 + h.header.hs1 as u64) as u64,
            dir_end,
        ),
    }
}

/// The index of the first chunk a Huffman module occupies.
pub open spec fn spec_first_chunk(e: Entry, h: HuffmanHeader) -> int {
    (e.mod_base - (h.chunk_base + 0x1000_0000)) / (h.chunk_size as int)
}

/// How many whole chunks the module's code occupies past the first.
pub open spec fn spec_span_count(e: Entry, h: HuffmanHeader) -> int {
    (e.code_size as int) / (h.chunk_size as int)
}

/// Whether the chunk span of a Huffman module can be computed and lies
/// inside the table: the chunk size is nonzero, the module base is past the
/// rebased chunk base, and the span's last index is within the table.
pub open spec fn spec_span_ok(e: Entry, h: HuffmanHeader, n_chunks: int) -> bool {
    &&& h.chunk_size != 0
    &&& e.mod_base >= h.chunk_base + 0x1000_0000
    &&& spec_first_chunk(e, h) + spec_span_count(e, h) + 1 <= n_chunks
}

/// The chunk ranges with a nonzero start, in order.
pub open spec fn spec_nonzero_ranges(s: Seq<RemovableRange>) -> Seq<RemovableRange>
    decreases s.len(),
{
    if s.len() == 0 {
        Seq::empty()
    } else {
        let rest = spec_nonzero_ranges(s.drop_last());
        if s.last().start != 0 {
            rest + seq![s.last()]
        } else {
            rest
        }
    }
}

/// The chunk ranges a retained Huffman module pins down: the nonzero ranges
/// in its span. A module whose span cannot be computed pins nothing.
pub open spec fn spec_module_unremovables(
    m: Module,
    rl: Seq<Seq<char>>,
    all: Seq<RemovableRange>,
) -> Seq<RemovableRange> {
    match m {
        Module::Huffman(Ok((e, h))) => {
            if spec_name_in(rl, spec_tag_name(e.name@)) && spec_span_ok(
                e,
                h.header,
                all.len() as int,
            ) {
                spec_nonzero_ranges(
                    all.subrange(
                        spec_first_chunk(e, h.header),
                        spec_first_chunk(e, h.header) + spec_span_count(e, h.header) + 1,
                    ),
                )
            } else {
                Seq::empty()
            }
        },
        _ => Seq::empty(),
    }
}

/// All chunk ranges the retained Huffman modules pin down, in module order.
pub open spec fn spec_unremovables(
    mods: Seq<Module>,
    rl: Seq<Seq<char>>,
    all: Seq<RemovableRange>,
) -> Seq<RemovableRange>
    decreases mods.len(),
{
    if mods.len() == 0 {
        Seq::empty()
    } else {
        spec_unremovables(mods.drop_last(), rl, all) + spec_module_unremovables(
            mods.last(),
            rl,
            all,
        )
    }
}

/// The removable range of one plain module: its own bytes, unless its name
/// is retained. Only uncompressed and well-formed LZMA modules are removed
/// this way; everything else is skipped.
pub open spec fn spec_module_removable(m: Module, rl: Seq<Seq<char>>) -> Seq<RemovableRange> {
    match m {
        Module::Uncompressed(e) => {
            if spec_name_in(rl, spec_tag_name(e.name@)) {
                Seq::empty()
            } else {
                seq![RemovableRange { start: e.offset as u64, end: (e.offset as u64 + e.size as u64) as u64 }]
            }
        },
        Module::Lzma(Ok(e)) => {
            if spec_name_in(rl, spec_tag_name(e.name@)) {
                Seq::empty()
            } else {
                seq![RemovableRange { start: e.offset as u64, end: (e.offset as u64 + e.size as u64) as u64 }]
            }
        },
        _ => Seq::empty(),
    }
}

/// The removable ranges of all plain modules, in module order.
pub open spec fn spec_module_removables(mods: Seq<Module>, rl: Seq<Seq<char>>) -> Seq<RemovableRange>
    decreases mods.len(),
{
    if mods.len() == 0 {
        Seq::empty()
    } else {
        spec_module_removables(mods.drop_last(), rl) + spec_module_removable(mods.last(), rl)
    }
}

/// Whether a chunk range survives the filter: it is non-empty, lies past the
/// directory start, and no pinned range contains its first or its last byte.
/// The start-or-end containment test is deliberate and must not be widened
/// to a full interval-overlap test; changing it would change which bytes are
/// considered safe to erase.
pub open spec fn spec_chunk_kept(
    c: RemovableRange,
    unrem: Seq<RemovableRange>,
    dir_off: u64,
) -> bool {
    &&& c.start < c.end
    &&& c.start >= dir_off
    &&& forall|k: int|
        0 <= k < unrem.len() ==> !crate::spec_range_contains(#[trigger] unrem[k], c.start)
            && !crate::spec_range_contains(unrem[k], (c.end - 1) as u64)
}

/// The surviving chunk ranges, rebased from region-relative to
/// directory-relative offsets, in table order.
pub open spec fn spec_chunk_removables(
    all: Seq<RemovableRange>,
    unrem: Seq<RemovableRange>,
    dir_off: u64,
) -> Seq<RemovableRange>
    decreases all.len(),
{
    if all.len() == 0 {
        Seq::empty()
    } else {
        let rest = spec_chunk_removables(all.drop_last(), unrem, dir_off);
        let c = all.last();
        if spec_chunk_kept(c, unrem, dir_off) {
            rest + seq![
                RemovableRange {
                    start: (c.start - dir_off) as u64,
                    end: (c.end - dir_off) as u64,
                },
            ]
        } else {
            rest
        }
    }
}

/// The directory start as a 64-bit offset.
pub open spec fn spec_dir_off(d: Directory) -> u64 {
    d.offset as u64
}

/// Everything a clean pass may erase in this directory, relative to the
/// directory start: the bytes of unretained plain modules, then the shared
/// chunks no retained Huffman module pins down.
pub open spec fn spec_gen2_removables(d: Directory, rl: Seq<Seq<char>>) -> Seq<RemovableRange> {
    let all = spec_all_chunks(d.modules@, spec_dir_end(d));
    spec_module_removables(d.modules@, rl) + spec_chunk_removables(
        all,
        spec_unremovables(d.modules@, rl, all),
        spec_dir_off(d),
    )
}

impl Removables for Directory {
    open spec fn spec_removables(&self, retention_list: Seq<Seq<char>>) -> Seq<RemovableRange> {
        spec_gen2_removables(*self, retention_list)
    }

    /// Removable ranges relative to the start of the directory.
    fn removables(&self, retention_list: &Vec<String>) -> (r: Vec<RemovableRange>)
    {
        let ghost all_spec = spec_all_chunks(self.modules@, spec_dir_end(*self));
        let n = self.modules.len();
        let mut removables: Vec<RemovableRange> = Vec::new();
        let mut unremovable: Vec<RemovableRange> = Vec::new();
        let mut all_chunks: Vec<RemovableRange> = Vec::new();
        let mut have_lut = false;
        let mut i: usize = 0;
        while i < n
            invariant
                n == self.modules@.len(),
                i <= n,
                all_spec == spec_all_chunks(self.modules@, spec_dir_end(*self)),
                have_lut == (spec_first_huffman(self.modules@.subrange(0, i as int)) is Some),
                have_lut ==> all_chunks@ == all_spec,
                !have_lut ==> all_chunks@ == Seq::<RemovableRange>::empty(),
                removables@ == spec_module_removables(
                    self.modules@.subrange(0, i as int),
                    crate::codec::spec_names(retention_list@),
                ),
                unremovable@ == spec_unremovables(
                    self.modules@.subrange(0, i as int),
                    crate::codec::spec_names(retention_list@),
                    all_spec,
                ),
            decreases n - i,
        {
            let ghost pre = self.modules@.subrange(0, i + 1);
            proof {
                assert(pre.drop_last() =~= self.modules@.subrange(0, i as int));
                assert(pre.last() == self.modules@[i as int]);
                lemma_first_huffman_step(self.modules@, i as int);
            }
            match &self.modules[i] {
                Module::Uncompressed(e) => {
                    let name = e.name();
                    if !contains_name(retention_list, &name) {
                        removables.push(
                            RemovableRange {
                                start: e.offset as u64,
                                end: e.offset as u64 + e.size as u64,
                            },
                        );
                        proof {
                            assert(removables@ =~= spec_module_removables(pre, crate::codec::spec_names(retention_list@)));
                        }
                    }
                },
                Module::Lzma(Ok(e)) => {
                    let name = e.name();
                    if !contains_name(retention_list, &name) {
                        removables.push(
                            RemovableRange {
                                start: e.offset as u64,
                                end: e.offset as u64 + e.size as u64,
                            },
                        );
                        proof {
                            assert(removables@ =~= spec_module_removables(pre, crate::codec::spec_names(retention_list@)));
                        }
                    }
                },
                Module::Huffman(Ok((e, h))) => {
                    // All Huffman modules share one table; decode it on the
                    // first well-formed encounter.
                    if !have_lut {
                        let se = h.header.hs0 as u64 + h.header.hs1 as u64;
                        all_chunks = self.chunks_as_ranges(&h.chunks, se);
                        have_lut = true;
                        proof {
                            lemma_first_huffman_found(self.modules@, i as int);
                            assert(all_chunks@ == all_spec);
                        }
                    }
                    let name = e.name();
                    if contains_name(retention_list, &name) {
                        // Mark the chunks of this retained module's span;
                        // skip a module whose span cannot be computed, as
                        // nothing safe can be said about it.
                        let base = h.header.chunk_base as u64 + 0x1000_0000;
                        let cs = h.header.chunk_size as u64;
                        if cs != 0 && e.mod_base as u64 >= base {
                            let first64 = (e.mod_base as u64 - base) / cs;
                            let count64 = e.code_size as u64 / cs;
                            let ac_len = all_chunks.len();
                            if first64 + count64 + 1 <= ac_len as u64 {
                                let first = first64 as usize;
                                let last = (first64 + count64) as usize;
                                proof {
                                    assert(spec_span_ok(*e, h.header, all_chunks@.len() as int));
                                    assert(first == spec_first_chunk(*e, h.header));
                                    assert(last == spec_first_chunk(*e, h.header)
                                        + spec_span_count(*e, h.header));
                                }
                                let mut k: usize = first;
                                while k <= last
                                    invariant
                                        first <= k <= last + 1,
                                        last + 1 <= ac_len == all_chunks@.len(),
                                        unremovable@ == spec_unremovables(
                                            self.modules@.subrange(0, i as int),
                                            crate::codec::spec_names(retention_list@),
                                            all_spec,
                                        ) + spec_nonzero_ranges(
                                            all_chunks@.subrange(first as int, k as int),
                                        ),
                                    decreases last + 1 - k,
                                {
                                    let c = all_chunks[k];
                                    if c.start != 0 {
                                        unremovable.push(c);
                                    }
                                    proof {
                                        let sub = all_chunks@.subrange(first as int, k + 1);
                                        assert(sub.drop_last() =~= all_chunks@.subrange(
                                            first as int,
                                            k as int,
                                        ));
                                        assert(sub.last() == all_chunks@[k as int]);
                                        assert(unremovable@ =~= spec_unremovables(
                                            self.modules@.subrange(0, i as int),
                                            crate::codec::spec_names(retention_list@),
                                            all_spec,
                                        ) + spec_nonzero_ranges(sub));
                                    }
                                    k = k + 1;
                                }
                                proof {
                                    assert(all_chunks@.subrange(first as int, last + 1)
                                        =~= all_spec.subrange(
                                        spec_first_chunk(*e, h.header),
                                        spec_first_chunk(*e, h.header) + spec_span_count(
                                            *e,
                                            h.header,
                                        ) + 1,
                                    ));
                                    assert(unremovable@ =~= spec_unremovables(
                                        pre,
                                        crate::codec::spec_names(retention_list@),
                                        all_spec,
                                    ));
                                }
                            }
                        }
                    }
                },
                _ => {
                    // Unparsable compressed modules and unknown kinds are
                    // skipped: nothing of theirs is marked removable.
                },
            }
            proof {
                assert(removables@ =~= spec_module_removables(pre, crate::codec::spec_names(retention_list@)));
                assert(unremovable@ =~= spec_unremovables(pre, crate::codec::spec_names(retention_list@), all_spec));
            }
            i = i + 1;
        }
        proof {
            assert(self.modules@.subrange(0, n as int) =~= self.modules@);
        }
        // Keep each shared chunk unless a pinned range contains its first or
        // its last byte, and rebase it to a directory-relative offset.
        let dir_off = self.offset as u64;
        let m = all_chunks.len();
        let mut j: usize = 0;
        let ghost mod_rem = removables@;
        while j < m
            invariant
                m == all_chunks@.len(),
                j <= m,
                all_chunks@ == all_spec,
                unremovable@ == spec_unremovables(self.modules@, crate::codec::spec_names(retention_list@), all_spec),
                dir_off == spec_dir_off(*self),
                removables@ == mod_rem + spec_chunk_removables(
                    all_spec.subrange(0, j as int),
                    unremovable@,
                    dir_off,
                ),
            decreases m - j,
        {
            let c = all_chunks[j];
            let keep = c.start < c.end && c.start >= dir_off && !chunk_pinned(&unremovable, c);
            if keep {
                removables.push(
                    RemovableRange { start: c.start - dir_off, end: c.end - dir_off },
                );
            }
            proof {
                let sub = all_spec.subrange(0, j + 1);
                assert(sub.drop_last() =~= all_spec.subrange(0, j as int));
                assert(sub.last() == all_spec[j as int]);
                assert(keep == spec_chunk_kept(c, unremovable@, dir_off));
                assert(removables@ =~= mod_rem + spec_chunk_removables(sub, unremovable@, dir_off));
            }
            j = j + 1;
        }
        proof {
            assert(all_spec.subrange(0, m as int) =~= all_spec);
            assert(removables@ =~= spec_gen2_removables(*self, crate::codec::spec_names(retention_list@)));
        }
        removables
    }
}

/// Whether some pinned range contains the first or the last byte of `c`.
fn chunk_pinned(unrem: &Vec<RemovableRange>, c: RemovableRange) -> (r: bool)
    requires
        c.start < c.end,
    ensures
        r == exists|k: int|
            0 <= k < unrem@.len() && (crate::spec_range_contains(#[trigger] unrem@[k], c.start)
                || crate::spec_range_contains(unrem@[k], (c.end - 1) as u64)),
{
    let n = unrem.len();
    let mut i: usize = 0;
    while i < n
        invariant
            n == unrem@.len(),
            c.start < c.end,
            i <= n,
            forall|k: int|
                0 <= k < i ==> !crate::spec_range_contains(#[trigger] unrem@[k], c.start)
                    && !crate::spec_range_contains(unrem@[k], (c.end - 1) as u64),
        decreases n - i,
    {
        let u = unrem[i];
        let last = c.end - 1;
        if (u.start <= c.start && c.start < u.end) || (u.start <= last && last < u.end) {
            return true;
        }
        i = i + 1;
    }
    false
}

/// Prefixes keep the first Huffman module: stepping the scan one module
/// forward either finds it now or leaves the outcome open.
proof fn lemma_first_huffman_step(mods: Seq<Module>, i: int)
    requires
        0 <= i < mods.len(),
    ensures
        spec_first_huffman(mods.subrange(0, i + 1)) == (match spec_first_huffman(
            mods.subrange(0, i),
        ) {
            Some(x) => Some(x),
            None => match mods[i] {
                Module::Huffman(Ok((e, h))) => Some((e, h)),
                _ => None,
            },
        }),
    decreases i,
{
    reveal_with_fuel(spec_first_huffman, 3);
    let a = mods.subrange(0, i);
    let b = mods.subrange(0, i + 1);
    if i == 0 {
        assert(b.len() == 1);
        assert(b[0] == mods[0]);
        assert(a.len() == 0);
        assert(b.drop_first() =~= Seq::<Module>::empty());
    } else {
        assert(b[0] == mods[0]);
        assert(a[0] == mods[0]);
        match mods[0] {
            Module::Huffman(Ok((e, h))) => {
                assert(spec_first_huffman(a) == Some((e, h)));
                assert(spec_first_huffman(b) == Some((e, h)));
            },
            _ => {
                let rest = mods.subrange(1, mods.len() as int);
                assert(a.drop_first() =~= rest.subrange(0, i - 1));
                assert(b.drop_first() =~= rest.subrange(0, i));
                lemma_first_huffman_step(rest, i - 1);
                assert(rest[i - 1] == mods[i]);
                assert(spec_first_huffman(a) == spec_first_huffman(rest.subrange(0, i - 1)));
                assert(spec_first_huffman(b) == spec_first_huffman(rest.subrange(0, i)));
            },
        }
    }
}

/// When the scan finds its first well-formed Huffman module at `i`, the
/// whole list's first one is that module.
proof fn lemma_first_huffman_found(mods: Seq<Module>, i: int)
    requires
        0 <= i < mods.len(),
        spec_first_huffman(mods.subrange(0, i)) is None,
        mods[i] matches Module::Huffman(Ok(_)),
    ensures
        mods[i] matches Module::Huffman(Ok((e, h))) ==> spec_first_huffman(mods) == Some((e, h)),
    decreases i,
{
    if i == 0 {
    } else {
        let a = mods.subrange(0, i);
        assert(a[0] == mods[0]);
        match mods[0] {
            Module::Huffman(Ok((e, h))) => {
                assert(spec_first_huffman(a) is Some);
            },
            _ => {
                let rest = mods.subrange(1, mods.len() as int);
                assert(a.drop_first() =~= rest.subrange(0, i - 1));
                assert(rest[i - 1] == mods[i]);
                lemma_first_huffman_found(rest, i - 1);
                assert(mods.drop_first() =~= rest);
            },
        }
    }
}

/// Every range the chunk filter emits is clear of every pinned range: put
/// back at its region-relative place, neither its first nor its last byte
/// lies in any pinned range.
pub proof fn lemma_chunk_filter_safe(
    all: Seq<RemovableRange>,
    unrem: Seq<RemovableRange>,
    dir_off: u64,
    i: int,
)
    requires
        0 <= i < spec_chunk_removables(all, unrem, dir_off).len(),
    ensures
        forall|k: int|
            0 <= k < unrem.len() ==> !crate::spec_range_contains(
                #[trigger] unrem[k],
                (spec_chunk_removables(all, unrem, dir_off)[i].start + dir_off) as u64,
            ) && !crate::spec_range_contains(
                unrem[k],
                (spec_chunk_removables(all, unrem, dir_off)[i].end + dir_off - 1) as u64,
            ),
    decreases all.len(),
{
    if all.len() == 0 {
    } else {
        let rest = spec_chunk_removables(all.drop_last(), unrem, dir_off);
        let c = all.last();
        if spec_chunk_kept(c, unrem, dir_off) {
            if i < rest.len() {
                lemma_chunk_filter_safe(all.drop_last(), unrem, dir_off, i);
            } else {
                let r = spec_chunk_removables(all, unrem, dir_off)[i];
                assert(r.start + dir_off == c.start && r.end + dir_off == c.end);
            }
        } else {
            lemma_chunk_filter_safe(all.drop_last(), unrem, dir_off, i);
        }
    }
}

/// A nonzero chunk range inside the span of a retained, well-formed Huffman
/// module is pinned: the filter may not emit it or any range starting or
/// ending inside it.
pub proof fn lemma_retained_span_pinned(
    mods: Seq<Module>,
    rl: Seq<Seq<char>>,
    all: Seq<RemovableRange>,
    i: int,
    j: int,
)
    requires
        0 <= i < mods.len(),
        mods[i] matches Module::Huffman(Ok((e, h))) && spec_name_in(rl, spec_tag_name(e.name@))
            && spec_span_ok(e, h.header, all.len() as int) && spec_first_chunk(e, h.header) <= j
            <= spec_first_chunk(e, h.header) + spec_span_count(e, h.header),
        0 <= j < all.len(),
        all[j].start != 0,
    ensures
        spec_unremovables(mods, rl, all).contains(all[j]),
    decreases mods.len(),
{
    let (e, h) = mods[i]->Huffman_0->Ok_0;
    if i == mods.len() - 1 {
        let pinned_here = spec_module_unremovables(mods.last(), rl, all);
        let first = spec_first_chunk(e, h.header);
        let last = first + spec_span_count(e, h.header);
        let span = all.subrange(first, last + 1);
        lemma_nonzero_ranges_contains(span, j - first);
        let k = choose|k: int|
            0 <= k < spec_nonzero_ranges(span).len() && spec_nonzero_ranges(span)[k] == span[j
                - first];
        let whole = spec_unremovables(mods.drop_last(), rl, all) + pinned_here;
        assert(whole[spec_unremovables(mods.drop_last(), rl, all).len() + k] == all[j]);
    } else {
        lemma_retained_span_pinned(mods.drop_last(), rl, all, i, j);
        let rest = spec_unremovables(mods.drop_last(), rl, all);
        let k = choose|k: int| 0 <= k < rest.len() && rest[k] == all[j];
        let whole = rest + spec_module_unremovables(mods.last(), rl, all);
        assert(whole[k] == all[j]);
    }
}

/// A range with a nonzero start stays in the nonzero filter.
proof fn lemma_nonzero_ranges_contains(s: Seq<RemovableRange>, i: int)
    requires
        0 <= i < s.len(),
        s[i].start != 0,
    ensures
        spec_nonzero_ranges(s).contains(s[i]),
    decreases s.len(),
{
    if i == s.len() - 1 {
        let rest = spec_nonzero_ranges(s.drop_last());
        let whole = rest + seq![s.last()];
        assert(whole[rest.len() as int] == s[i]);
    } else {
        lemma_nonzero_ranges_contains(s.drop_last(), i);
        let rest = spec_nonzero_ranges(s.drop_last());
        let k = choose|k: int| 0 <= k < rest.len() && rest[k] == s.drop_last()[i];
        if s.last().start != 0 {
            let whole = rest + seq![s.last()];
            assert(whole[k] == s[i]);
        }
    }
}

/// Chunk safety: a retained Huffman module's non-empty span chunks never
/// overlap a removable chunk range the directory reports, where overlap is
/// the start-or-end containment test of the filter.
pub proof fn lemma_chunk_safety(d: Directory, rl: Seq<Seq<char>>, i: int, j: int, k: int)
    requires
        0 <= i < d.modules@.len(),
        d.modules@[i] matches Module::Huffman(Ok((e, h))) && spec_name_in(
            rl,
            spec_tag_name(e.name@),
        ) && spec_span_ok(e, h.header, spec_all_chunks(d.modules@, spec_dir_end(d)).len() as int)
            && spec_first_chunk(e, h.header) <= j <= spec_first_chunk(e, h.header)
            + spec_span_count(e, h.header),
        0 <= j < spec_all_chunks(d.modules@, spec_dir_end(d)).len(),
        spec_all_chunks(d.modules@, spec_dir_end(d))[j].start != 0,
        spec_module_removables(d.modules@, rl).len() <= k < spec_gen2_removables(d, rl).len(),
    ensures
        ({
            let all = spec_all_chunks(d.modules@, spec_dir_end(d));
            let r = spec_gen2_removables(d, rl)[k];
            &&& !crate::spec_range_contains(all[j], (r.start + spec_dir_off(d)) as u64)
            &&& !crate::spec_range_contains(all[j], (r.end + spec_dir_off(d) - 1) as u64)
        }),
{
    let all = spec_all_chunks(d.modules@, spec_dir_end(d));
    let unrem = spec_unremovables(d.modules@, rl, all);
    lemma_retained_span_pinned(d.modules@, rl, all, i, j);
    let w = choose|w: int| 0 <= w < unrem.len() && unrem[w] == all[j];
    let kk = k - spec_module_removables(d.modules@, rl).len();
    lemma_chunk_filter_safe(all, unrem, spec_dir_off(d), kk);
    assert(spec_gen2_removables(d, rl)[k] == spec_chunk_removables(all, unrem, spec_dir_off(d))[kk]);
}

/// One raw chunk value after the table is rebased by `diff`: an inactive
/// slot is untouched; an active slot keeps its top byte and has `diff`
/// subtracted from its low 24 bits.
pub open spec fn spec_rebase_chunk(c: u32, diff: u32) -> u32 {
    if c >> 24 == 0x80 {
        c
    } else {
        (c & 0xff00_0000) | (((c & 0xff_ffff) - diff) as u32)
    }
}

/// Whether every active chunk of the table can move down by `diff`.
pub open spec fn spec_rebase_fits(chunks: Seq<u32>, diff: u32) -> bool {
    forall|i: int|
        0 <= i < chunks.len() ==> ((#[trigger] chunks[i]) >> 24 == 0x80 || (chunks[i] & 0xff_ffff)
            >= diff)
}

/// Whether a module's chunk table cannot move down by `diff`: some active
/// chunk already sits below `diff`.
pub open spec fn spec_module_rebase_blocked(m: Module, diff: u32) -> bool {
    match m {
        Module::Huffman(Ok((e, h))) => !spec_rebase_fits(h.chunks@, diff),
        _ => false,
    }
}

/// Every chunk of a table after a rebase by `diff`.
pub open spec fn spec_rebased_chunks(chunks: Seq<u32>, diff: u32) -> Seq<u32> {
    Seq::new(chunks.len(), |i: int| spec_rebase_chunk(chunks[i], diff))
}

/// Whether module `b` is module `a` with its chunk table rebased by `diff`.
pub open spec fn spec_module_rebased(b: Module, a: Module, diff: u32) -> bool {
    match a {
        Module::Huffman(Ok((e, h))) => b matches Module::Huffman(Ok((e2, h2))) && e2 == e
            && h2.header == h.header && h2.chunks@.len() == h.chunks@.len() && forall|i: int|
            0 <= i < h.chunks@.len() ==> h2.chunks@[i] == spec_rebase_chunk(
                #[trigger] h.chunks@[i],
                diff,
            ),
        _ => spec_module_eq(b, a),
    }
}

/// Rebasing the modules keeps the first Huffman module in place: the same
/// entry, the same table header, and its chunks rebased.
pub proof fn lemma_first_huffman_rebased(new: Seq<Module>, old: Seq<Module>, diff: u32)
    requires
        new.len() == old.len(),
        forall|i: int| 0 <= i < old.len() ==> spec_module_rebased(#[trigger] new[i], old[i], diff),
    ensures
        match spec_first_huffman(old) {
            None => spec_first_huffman(new) is None,
            Some((e, h)) => spec_first_huffman(new) matches Some((e2, h2)) && e2 == e && h2.header
                == h.header && h2.chunks@ == spec_rebased_chunks(h.chunks@, diff),
        },
    decreases old.len(),
{
    if old.len() == 0 {
    } else {
        assert(spec_module_rebased(new[0], old[0], diff));
        match old[0] {
            Module::Huffman(Ok((e, h))) => {
                let (e2, h2) = new[0]->Huffman_0->Ok_0;
                assert(h2.chunks@ =~= spec_rebased_chunks(h.chunks@, diff));
            },
            _ => {
                let nr = new.drop_first();
                let or = old.drop_first();
                assert(forall|i: int|
                    0 <= i < or.len() ==> spec_module_rebased(#[trigger] nr[i], or[i], diff));
                lemma_first_huffman_rebased(nr, or, diff);
                match old[0] {
                    Module::Huffman(Ok(_)) => {},
                    Module::Huffman(Err(_)) => {
                        assert(new[0] is Huffman && new[0]->Huffman_0 is Err);
                    },
                    Module::Uncompressed(_) => {},
                    Module::Lzma(_) => {},
                    Module::Unknown(_) => {},
                }
            },
        }
    }
}

impl Directory {
    /// The first well-formed Huffman module: its directory-relative offset
    /// and its table.
    pub fn get_huffman_mod(&self) -> (r: Option<(usize, &Huffman)>)
        ensures
            match r {
                Some((o, h)) => spec_first_huffman(self.modules@) matches Some((e, h2)) && o
                    == e.offset && h.header == h2.header && h.chunks@ == h2.chunks@,
                None => spec_first_huffman(self.modules@) is None,
            },
    {
        let n = self.modules.len();
        let mut i: usize = 0;
        while i < n
            invariant
                n == self.modules@.len(),
                i <= n,
                spec_first_huffman(self.modules@.subrange(0, i as int)) is None,
            decreases n - i,
        {
            proof {
                lemma_first_huffman_step(self.modules@, i as int);
            }
            match &self.modules[i] {
                Module::Huffman(Ok((e, h))) => {
                    proof {
                        lemma_first_huffman_found(self.modules@, i as int);
                    }
                    return Some((e.offset as usize, h));
                },
                _ => {},
            }
            i = i + 1;
        }
        proof {
            assert(self.modules@.subrange(0, n as int) =~= self.modules@);
        }
        None
    }

    /// Move every Huffman chunk table of this directory down by `diff`
    /// bytes: each active chunk descriptor's low 24 bits shrink by `diff`,
    /// inactive ones stay byte-for-byte the same. Nothing changes when some
    /// active chunk sits below `diff`.
    pub fn rebase_huffman_chunks(&mut self, diff: u32) -> (r: Result<(), String>)
        ensures
            (r is Err) <==> (exists|i: int|
                0 <= i < old(self).modules@.len() && spec_module_rebase_blocked(
                    #[trigger] old(self).modules@[i],
                    diff,
                )),
            r is Ok ==> {
                &&& final(self).modules@.len() == old(self).modules@.len()
                &&& forall|i: int|
                    0 <= i < old(self).modules@.len() ==> spec_module_rebased(
                        #[trigger] final(self).modules@[i],
                        old(self).modules@[i],
                        diff,
                    )
                &&& final(self).manifest == old(self).manifest
                &&& final(self).header == old(self).header
                &&& final(self).offset == old(self).offset
                &&& final(self).size == old(self).size
                &&& final(self).name == old(self).name
            },
            r is Err ==> *final(self) == *old(self),
    {
        let n = self.modules.len();
        // First pass: make sure every active chunk can move down by `diff`.
        let mut i: usize = 0;
        while i < n
            invariant
                n == self.modules@.len(),
                i <= n,
                self == old(self),
                forall|j: int|
                    0 <= j < i ==> !spec_module_rebase_blocked(#[trigger] self.modules@[j], diff),
            decreases n - i,
        {
            let mv = self.modules[i].clone();
            proof {
                assert(spec_module_eq(mv, self.modules@[i as int]));
            }
            match mv {
                Module::Huffman(Ok((_e, h))) => {
                    let m = h.chunks.len();
                    let mut k: usize = 0;
                    while k < m
                        invariant
                            m == h.chunks@.len(),
                            k <= m,
                            i < n == self.modules@.len(),
                            self == old(self),
                            spec_module_eq(mv, self.modules@[i as int]),
                            mv == Module::Huffman(Ok((_e, h))),
                            forall|l: int|
                                0 <= l < k ==> ((#[trigger] h.chunks@[l]) >> 24 == 0x80 || (
                                h.chunks@[l] & 0xff_ffff) >= diff),
                        decreases m - k,
                    {
                        let c = h.chunks[k];
                        if c >> 24 != 0x80 && (c & 0xff_ffff) < diff {
                            proof {
                                assert(!spec_rebase_fits(h.chunks@, diff));
                                assert(self.modules@[i as int] matches Module::Huffman(
                                    Ok((e2, h2)),
                                ) && h2.chunks@ == h.chunks@);
                                assert(spec_module_rebase_blocked(
                                    old(self).modules@[i as int],
                                    diff,
                                ));
                            }
                            return Err(String::from_str("chunk table cannot move down this far"));
                        }
                        k = k + 1;
                    }
                    proof {
                        assert(spec_rebase_fits(h.chunks@, diff));
                        assert(!spec_module_rebase_blocked(self.modules@[i as int], diff));
                    }
                },
                _ => {
                    proof {
                        assert(!spec_module_rebase_blocked(self.modules@[i as int], diff));
                    }
                },
            }
            i = i + 1;
        }
        // Second pass: apply.
        let mut i: usize = 0;
        while i < n
            invariant
                n == self.modules@.len() == old(self).modules@.len(),
                i <= n,
                self.manifest == old(self).manifest,
                self.header == old(self).header,
                self.offset == old(self).offset,
                self.size == old(self).size,
                self.name == old(self).name,
                forall|j: int|
                    0 <= j < n ==> !spec_module_rebase_blocked(#[trigger] old(self).modules@[j], diff),
                forall|j: int|
                    i <= j < n ==> #[trigger] self.modules@[j] == old(self).modules@[j],
                forall|j: int|
                    0 <= j < i ==> spec_module_rebased(
                        #[trigger] self.modules@[j],
                        old(self).modules@[j],
                        diff,
                    ),
            decreases n - i,
        {
            let rebased: Option<Module> = match &self.modules[i] {
                Module::Huffman(Ok((e, h))) => {
                    let m = h.chunks.len();
                    let mut chunks: Vec<u32> = Vec::new();
                    let mut k: usize = 0;
                    while k < m
                        invariant
                            m == h.chunks@.len(),
                            k <= m,
                            spec_rebase_fits(h.chunks@, diff),
                            chunks@.len() == k,
                            forall|l: int|
                                0 <= l < k ==> chunks@[l] == spec_rebase_chunk(
                                    #[trigger] h.chunks@[l],
                                    diff,
                                ),
                        decreases m - k,
                    {
                        let c = h.chunks[k];
                        if c >> 24 == 0x80 {
                            chunks.push(c);
                        } else {
                            chunks.push((c & 0xff00_0000) | ((c & 0xff_ffff) - diff));
                        }
                        k = k + 1;
                    }
                    Some(Module::Huffman(Ok((*e, Huffman { header: h.header, chunks }))))
                },
                _ => None,
            };
            if let Some(m) = rebased {
                self.modules[i] = m;
            }
            proof {
                assert(spec_module_rebased(self.modules@[i as int], old(self).modules@[i as int], diff));
            }
            i = i + 1;
        }
        Ok(())
    }

    /// The lowest 4096-aligned offset at or above `min_offset`: where this
    /// directory may be relocated to. Gen 2 chunk descriptors address the
    /// region, so the new base must stay page-aligned for the rebased table
    /// to stay self-consistent.
    pub fn calc_new_offset(&self, min_offset: u32) -> (r: Result<u32, String>)
        ensures
            (r is Ok) <==> (min_offset + 0xfffu32 <= u32::MAX),
            r matches Ok(o) ==> o == (min_offset + 0xfff) / 0x1000 * 0x1000,
    {
        if min_offset > 0xffff_f000 {
            return Err(String::from_str("no aligned offset in range"));
        }
        Ok((min_offset + 0xfff) / 0x1000 * 0x1000)
    }
}

} // verus!
