//! Gen 3 code-partition directories (`$CPD`): a small header followed by
//! 24-byte entries naming the files of one partition; the entry named
//! `<partition>.man` locates the partition's manifest.

use vstd::prelude::*;
use vstd::string::StringExecFns;

use crate::codec::{
    contains_name, le32, read_arr, read_u32, spec_ends_with, spec_name_in, spec_tag_name,
    tag_ends_with, tag_name, u32_at,
};
use crate::dir::man::{spec_manifest_ok, spec_manifest_parsed, Manifest};
use crate::{RemovableRange, Removables};

verus! {

/// Module names that are essential for platform initialization and must
/// never be removed.
pub fn always_retain() -> (r: Vec<String>)
    ensures
        crate::codec::spec_names(r@) == seq!["bup"@, "rbe"@, "kernel"@, "syslib"@],
{
    let mut v: Vec<String> = Vec::new();
    v.push(String::from_str("bup"));
    v.push(String::from_str("rbe"));
    v.push(String::from_str("kernel"));
    v.push(String::from_str("syslib"));
    proof {
        assert(crate::codec::spec_names(v@) =~= seq!["bup"@, "rbe"@, "kernel"@, "syslib"@]);
    }
    v
}

/// The byte sequence of the magic `$CPD`.
pub open spec fn spec_cpd_magic() -> Seq<u8> {
    seq![0x24u8, 0x43u8, 0x50u8, 0x44u8]
}

/// The directory header: 16 bytes, magic `$CPD`. Some layout versions have
/// 4 reserved bytes more before the entries.
#[derive(Clone, Copy, Debug)]
pub struct CPDHeader {
    pub magic: [u8; 4],
    pub entries: u32,
    pub version_or_checksum: u32,
    pub part_name: [u8; 4],
}

impl CPDHeader {
    /// The partition name, trailing NULs stripped.
    pub fn name(&self) -> (r: String)
        ensures
            r@ == spec_tag_name(self.part_name@),
    {
        tag_name(&self.part_name)
    }
}

/// How the directory header is laid out on disk.
pub open spec fn cpd_header_bytes(h: CPDHeader) -> Seq<u8> {
    h.magic@ + le32(h.entries) + le32(h.version_or_checksum) + h.part_name@
}

/// The packed offset word of an entry: a 25-bit offset, one compressed bit,
/// and reserved bits.
#[derive(Clone, Copy, Debug, PartialEq, Eq, Structural)]
pub struct FlagsAndOffset(pub u32);

impl FlagsAndOffset {
    /// The 25-bit offset, relative to the directory.
    pub fn offset(&self) -> (r: u32)
        ensures
            r == self.0 & 0x01ff_ffff,
    {
        self.0 & 0x01ff_ffff
    }

    /// Whether the entry's bytes are Huffman-compressed, bit 25.
    pub fn compressed(&self) -> (r: bool)
        ensures
            r == ((self.0 >> 25) & 1 == 1),
    {
        (self.0 >> 25) & 1 == 1
    }
}

/// One 24-byte directory entry.
#[derive(Clone, Copy, Debug)]
pub struct CPDEntry {
    pub name: [u8; 12],
    pub flags_and_offset: FlagsAndOffset,
    pub size: u32,
    pub compression_flag: u32,
}

pub const CPD_ENTRY_SIZE: usize = 24;

impl CPDEntry {
    /// The file name, trailing NULs stripped.
    pub fn name(&self) -> (r: String)
        ensures
            r@ == spec_tag_name(self.name@),
    {
        tag_name(&self.name)
    }
}

/// How an entry is laid out on disk.
pub open spec fn cpd_entry_bytes(e: CPDEntry) -> Seq<u8> {
    e.name@ + le32(e.flags_and_offset.0) + le32(e.size) + le32(e.compression_flag)
}

/// Decode an entry from 24 bytes at `off`.
pub fn read_cpd_entry(data: &[u8], off: usize) -> (r: CPDEntry)
    requires
        off + 24 <= data@.len(),
    ensures
        cpd_entry_bytes(r) == data@.subrange(off as int, off + 24),
{
    let n = data.len();
    let name = read_arr::<12>(data, off);
    let flags_and_offset = FlagsAndOffset(read_u32(data, off + 12));
    let size = read_u32(data, off + 16);
    let compression_flag = read_u32(data, off + 20);
    let r = CPDEntry { name, flags_and_offset, size, compression_flag };
    assert(cpd_entry_bytes(r) =~= data@.subrange(off as int, off + 24));
    r
}

/// A parsed Gen 3 directory.
#[derive(Debug)]
pub struct CodePartitionDirectory {
    pub header: CPDHeader,
    pub manifest: Result<Manifest, String>,
    pub entries: Vec<CPDEntry>,
    /// Offset of the directory relative to the region.
    pub offset: usize,
    /// Size of the partition the directory spans.
    pub size: usize,
    pub name: String,
}

/// Whether two directories hold the same values; a copy satisfies this.
pub open spec fn spec_cpd_eq(a: CodePartitionDirectory, b: CodePartitionDirectory) -> bool {
    &&& a.header == b.header
    &&& match (a.manifest, b.manifest) {
        (Ok(m1), Ok(m2)) => m1.header == m2.header && m1.signature == m2.signature && m1.mdata@
            == m2.mdata@,
        (Err(s1), Err(s2)) => s1 == s2,
        _ => false,
    }
    &&& a.entries@ == b.entries@
    &&& a.offset == b.offset
    &&& a.size == b.size
    &&& a.name@ == b.name@
}

impl Clone for CodePartitionDirectory {
    /// An exact copy, field by field.
    fn clone(&self) -> (res: Self)
        ensures
            spec_cpd_eq(res, *self),
    {
        let manifest = match &self.manifest {
            Ok(m) => Ok(m.clone()),
            Err(e) => Err(e.clone()),
        };
        let mut entries: Vec<CPDEntry> = Vec::new();
        let n = self.entries.len();
        let mut i: usize = 0;
        while i < n
            invariant
                n == self.entries@.len(),
                i <= n,
                entries@ == self.entries@.subrange(0, i as int),
            decreases n - i,
        {
            entries.push(self.entries[i]);
            proof {
                assert(entries@ =~= self.entries@.subrange(0, i + 1));
            }
            i = i + 1;
        }
        proof {
            assert(self.entries@.subrange(0, n as int) =~= self.entries@);
        }
        CodePartitionDirectory {
            header: self.header,
            manifest,
            entries,
            offset: self.offset,
            size: self.size,
            name: self.name.clone(),
        }
    }
}

/// Where the entries start: 4 reserved bytes more for this one layout
/// version.
pub open spec fn spec_cpd_entries_base(version_or_checksum: u32) -> int {
    if version_or_checksum == 0x0014_0102 {
        20
    } else {
        16
    }
}

/// Whether a directory parses from `data`: the magic, room for the header,
/// and room for the declared entries.
pub open spec fn spec_cpd_ok(data: Seq<u8>) -> bool {
    &&& data.len() >= 20
    &&& data.subrange(0, 4) == spec_cpd_magic()
    &&& spec_cpd_entries_base(u32_at(data, 8)) + 24 * (u32_at(data, 4) as int) <= data.len()
}

/// The name of the manifest entry of a directory with this header: the
/// partition name with `.man` appended.
pub open spec fn spec_man_name(h: CPDHeader) -> Seq<char> {
    spec_tag_name(h.part_name@) + ".man"@
}

/// The first entry whose name is the directory's manifest name.
pub open spec fn spec_first_man_entry(entries: Seq<CPDEntry>, man_name: Seq<char>) -> Option<
    CPDEntry,
>
    decreases entries.len(),
{
    if entries.len() == 0 {
        None
    } else if spec_tag_name(entries[0].name@) == man_name {
        Some(entries[0])
    } else {
        spec_first_man_entry(entries.drop_first(), man_name)
    }
}

/// What it means for a parsed directory to come from `data` at `offset`.
pub open spec fn spec_cpd_parsed(d: CodePartitionDirectory, data: Seq<u8>, offset: int) -> bool {
    &&& cpd_header_bytes(d.header) == data.subrange(0, 16)
    &&& d.entries@.len() == d.header.entries
    &&& forall|i: int|
        0 <= i < d.entries@.len() ==> #[trigger] cpd_entry_bytes(d.entries@[i]) == data.subrange(
            spec_cpd_entries_base(d.header.version_or_checksum) + 24 * i,
            spec_cpd_entries_base(d.header.version_or_checksum) + 24 * i + 24,
        )
    &&& match spec_first_man_entry(d.entries@, spec_man_name(d.header)) {
        Some(e) => {
            let o = (e.flags_and_offset.0 & 0x01ff_ffff) as int;
            let end = o + e.size;
            if end <= data.len() && spec_manifest_ok(data.subrange(o, end)) {
                d.manifest matches Ok(m) && spec_manifest_parsed(m, data.subrange(o, end))
            } else {
                d.manifest is Err
            }
        },
        None => d.manifest is Err,
    }
    &&& d.offset == offset
    &&& d.size == data.len()
    &&& d.name@ == spec_tag_name(data.subrange(12, 16))
}

impl CodePartitionDirectory {
    /// Parse a directory from the bytes of one partition. `offset` is where
    /// the partition sits in the region.
    pub fn new(data: &[u8], offset: usize) -> (r: Result<CodePartitionDirectory, String>)
        ensures
            (r is Ok) <==> spec_cpd_ok(data@),
            r matches Ok(d) ==> spec_cpd_parsed(d, data@, offset as int),
    {
        let n = data.len();
        if n < 20 {
            return Err(String::from_str("could not parse CPD header"));
        }
        if !(data[0] == 0x24 && data[1] == 0x43 && data[2] == 0x50 && data[3] == 0x44) {
            proof {
                if data@.subrange(0, 4) == spec_cpd_magic() {
                    assert(data@[0] == 0x24 && data@[1] == 0x43 && data@[2] == 0x50 && data@[3]
                        == 0x44);
                }
            }
            return Err(String::from_str("could not parse CPD header"));
        }
        proof {
            assert(data@.subrange(0, 4) =~= spec_cpd_magic());
        }
        let magic = read_arr::<4>(data, 0);
        let count32 = read_u32(data, 4);
        let version_or_checksum = read_u32(data, 8);
        let part_name = read_arr::<4>(data, 12);
        let header = CPDHeader { magic, entries: count32, version_or_checksum, part_name };
        proof {
            assert(cpd_header_bytes(header) =~= data@.subrange(0, 16));
        }
        let base: usize = if version_or_checksum == 0x0014_0102 {
            20
        } else {
            16
        };
        let count = count32 as usize;
        if count > (n - base) / 24 {
            return Err(String::from_str("cannot parse ME FW Gen 3 directory entries"));
        }
        let mut entries: Vec<CPDEntry> = Vec::new();
        let mut i: usize = 0;
        while i < count
            invariant
                n == data@.len(),
                base == spec_cpd_entries_base(header.version_or_checksum),
                base + 24 * count <= n,
                i <= count,
                entries@.len() == i,
                forall|j: int|
                    0 <= j < i ==> #[trigger] cpd_entry_bytes(entries@[j]) == data@.subrange(
                        base + 24 * j,
                        base + 24 * j + 24,
                    ),
            decreases count - i,
        {
            let e = read_cpd_entry(data, base + 24 * i);
            entries.push(e);
            i = i + 1;
        }
        let name = tag_name(&part_name);
        // The manifest is located by convention at the entry named
        // `<partition>.man`.
        let manifest_name = name.clone().concat(".man");
        proof {
            assert(manifest_name@ == spec_man_name(header));
        }
        let mut manifest: Result<Manifest, String> = Err(String::from_str("no manifest found"));
        let mut k: usize = 0;
        let mut found = false;
        while k < count
            invariant
                n == data@.len(),
                count == entries@.len(),
                manifest_name@ == spec_man_name(header),
                k <= count,
                !found ==> spec_first_man_entry(
                    entries@.subrange(0, k as int),
                    spec_man_name(header),
                ) is None,
                !found ==> manifest is Err,
                found ==> (match spec_first_man_entry(entries@, spec_man_name(header)) {
                    Some(e) => {
                        let o = (e.flags_and_offset.0 & 0x01ff_ffff) as int;
                        let end = o + e.size;
                        if end <= data@.len() && spec_manifest_ok(data@.subrange(o, end)) {
                            manifest matches Ok(m) && spec_manifest_parsed(
                                m,
                                data@.subrange(o, end),
                            )
                        } else {
                            manifest is Err
                        }
                    },
                    None => false,
                }),
            decreases count - k,
        {
            if !found {
                let e = entries[k];
                let en = e.name();
                if en == manifest_name {
                    proof {
                        lemma_first_man_entry_found(entries@, spec_man_name(header), k as int);
                    }
                    let o = e.flags_and_offset.offset() as usize;
                    let end64 = o as u64 + e.size as u64;
                    if end64 <= n as u64 {
                        let end = o + e.size as usize;
                        let slice = vstd::slice::slice_subrange(data, o, end);
                        manifest = Manifest::new(slice);
                    } else {
                        manifest = Err(String::from_str("manifest out of bounds"));
                    }
                    found = true;
                } else {
                    proof {
                        let pre = entries@.subrange(0, k + 1);
                        assert(pre.drop_first() =~= entries@.subrange(1, k + 1));
                        lemma_first_man_entry_step(entries@, spec_man_name(header), k as int);
                    }
                }
            }
            k = k + 1;
        }
        proof {
            assert(entries@.subrange(0, count as int) =~= entries@);
            if !found {
                assert(spec_first_man_entry(entries@, spec_man_name(header)) is None);
            }
        }
        Ok(
            CodePartitionDirectory {
                header,
                manifest,
                entries,
                offset,
                size: n,
                name,
            },
        )
    }

    /// The entries ordered by ascending offset.
    pub fn sorted_entries(&self) -> (r: Vec<CPDEntry>)
        ensures
            r@.to_multiset() == self.entries@.to_multiset(),
            forall|a: int, b: int|
                0 <= a < b < r@.len() ==> (#[trigger] r@[a]).flags_and_offset.0 & 0x01ff_ffff <= (
                #[trigger] r@[b]).flags_and_offset.0 & 0x01ff_ffff,
    {
        let mut v: Vec<CPDEntry> = Vec::new();
        let n = self.entries.len();
        let mut i: usize = 0;
        while i < n
            invariant
                n == self.entries@.len(),
                i <= n,
                v@ == self.entries@.subrange(0, i as int),
            decreases n - i,
        {
            v.push(self.entries[i]);
            proof {
                assert(v@ =~= self.entries@.subrange(0, i + 1));
            }
            i = i + 1;
        }
        proof {
            assert(self.entries@.subrange(0, n as int) =~= self.entries@);
        }
        sort_cpd_entries(&mut v);
        v
    }

    /// Whether the manifest's signature verifies; an unparsable manifest
    /// never verifies.
    pub fn check_signature(&self) -> (r: Result<(), String>)
        ensures
            (r is Ok) <==> (self.manifest matches Ok(m)
                && crate::dir::man::spec_manifest_verified(m)),
    {
        match &self.manifest {
            Ok(m) => {
                if m.verify() {
                    Ok(())
                } else {
                    Err(String::from_str("hash mismatch"))
                }
            },
            Err(_) => Err(String::from_str("no manifest")),
        }
    }
}

/// Sort entries by their 25-bit offsets: insertion sort.
fn sort_cpd_entries(v: &mut Vec<CPDEntry>)
    ensures
        final(v)@.to_multiset() == old(v)@.to_multiset(),
        forall|a: int, b: int|
            0 <= a < b < final(v)@.len() ==> (#[trigger] final(v)@[a]).flags_and_offset.0
                & 0x01ff_ffff <= (#[trigger] final(v)@[b]).flags_and_offset.0 & 0x01ff_ffff,
{
    let n = v.len();
    proof {
        broadcast use vstd::seq_lib::group_to_multiset_ensures;

    }
    if n <= 1 {
        return ;
    }
    let mut i: usize = 1;
    while i < n
        invariant
            n == v@.len() == old(v)@.len(),
            1 <= i <= n,
            v@.to_multiset() == old(v)@.to_multiset(),
            forall|a: int, b: int|
                0 <= a < b < i ==> (#[trigger] v@[a]).flags_and_offset.0 & 0x01ff_ffff <= (
                #[trigger] v@[b]).flags_and_offset.0 & 0x01ff_ffff,
        decreases n - i,
    {
        let mut j: usize = i;
        while j > 0 && v[j - 1].flags_and_offset.0 & 0x01ff_ffff > v[j].flags_and_offset.0
            & 0x01ff_ffff
            invariant
                n == v@.len() == old(v)@.len(),
                j <= i < n,
                v@.to_multiset() == old(v)@.to_multiset(),
                forall|a: int, b: int|
                    0 <= a < b <= i && b != j ==> (#[trigger] v@[a]).flags_and_offset.0
                        & 0x01ff_ffff <= (#[trigger] v@[b]).flags_and_offset.0 & 0x01ff_ffff,
            decreases j,
        {
            let ghost old_view = v@;
            let x = v[j - 1];
            let y = v[j];
            v[j - 1] = y;
            v[j] = x;
            proof {
                lemma_swap_adjacent_multiset_entries(old_view, j - 1);
                assert(v@ =~= old_view.update(j - 1, y).update(j as int, x));
            }
            j = j - 1;
        }
        i = i + 1;
    }
}

/// Swapping two adjacent positions keeps the multiset of elements.
proof fn lemma_swap_adjacent_multiset_entries(s: Seq<CPDEntry>, i: int)
    requires
        0 <= i,
        i + 2 <= s.len(),
    ensures
        s.update(i, s[i + 1]).update(i + 1, s[i]).to_multiset() == s.to_multiset(),
{
    broadcast use vstd::seq_lib::group_to_multiset_ensures;
    broadcast use vstd::multiset::group_multiset_axioms;

    let t = s.update(i, s[i + 1]).update(i + 1, s[i]);
    let pre = s.subrange(0, i);
    let post = s.subrange(i + 2, s.len() as int);
    let mid_s = seq![s[i], s[i + 1]];
    let mid_t = seq![s[i + 1], s[i]];
    assert(s =~= (pre + mid_s) + post);
    assert(t =~= (pre + mid_t) + post);
    vstd::seq_lib::lemma_multiset_commutative(pre + mid_s, post);
    vstd::seq_lib::lemma_multiset_commutative(pre, mid_s);
    vstd::seq_lib::lemma_multiset_commutative(pre + mid_t, post);
    vstd::seq_lib::lemma_multiset_commutative(pre, mid_t);
    assert(mid_s.to_multiset() =~= mid_t.to_multiset()) by {
        assert(mid_s =~= Seq::<CPDEntry>::empty().push(s[i]).push(s[i + 1]));
        assert(mid_t =~= Seq::<CPDEntry>::empty().push(s[i + 1]).push(s[i]));
        assert(Seq::<CPDEntry>::empty().to_multiset().insert(s[i]).insert(s[i + 1])
            =~= Seq::<CPDEntry>::empty().to_multiset().insert(s[i + 1]).insert(s[i]));
    }
    assert(t.to_multiset() =~= s.to_multiset());
}

/// Scanning one entry forward: a hit at `k` settles the search when nothing
/// before `k` matched.
proof fn lemma_first_man_entry_found(entries: Seq<CPDEntry>, man_name: Seq<char>, k: int)
    requires
        0 <= k < entries.len(),
        spec_first_man_entry(entries.subrange(0, k), man_name) is None,
        spec_tag_name(entries[k].name@) == man_name,
    ensures
        spec_first_man_entry(entries, man_name) == Some(entries[k]),
    decreases k,
{
    reveal_with_fuel(spec_first_man_entry, 3);
    if k == 0 {
    } else {
        let pre = entries.subrange(0, k);
        assert(pre[0] == entries[0]);
        assert(spec_tag_name(entries[0].name@) != man_name);
        let rest = entries.drop_first();
        assert(pre.drop_first() =~= rest.subrange(0, k - 1));
        assert(rest[k - 1] == entries[k]);
        lemma_first_man_entry_found(rest, man_name, k - 1);
    }
}

/// Scanning one entry forward without a hit leaves the search open.
proof fn lemma_first_man_entry_step(entries: Seq<CPDEntry>, man_name: Seq<char>, k: int)
    requires
        0 <= k < entries.len(),
        spec_first_man_entry(entries.subrange(0, k), man_name) is None,
        spec_tag_name(entries[k].name@) != man_name,
    ensures
        spec_first_man_entry(entries.subrange(0, k + 1), man_name) is None,
    decreases k,
{
    reveal_with_fuel(spec_first_man_entry, 3);
    let pre = entries.subrange(0, k);
    let cur = entries.subrange(0, k + 1);
    if k == 0 {
        assert(cur.len() == 1);
        assert(cur[0] == entries[0]);
        assert(cur.drop_first() =~= Seq::<CPDEntry>::empty());
    } else {
        assert(cur[0] == entries[0]);
        assert(pre[0] == entries[0]);
        assert(spec_tag_name(entries[0].name@) != man_name);
        let rest = entries.drop_first();
        assert(pre.drop_first() =~= rest.subrange(0, k - 1));
        assert(cur.drop_first() =~= rest.subrange(0, k));
        assert(rest[k - 1] == entries[k]);
        lemma_first_man_entry_step(rest, man_name, k - 1);
    }
}

/// The `.man` suffix, as characters.
pub open spec fn spec_man_suffix() -> Seq<char> {
    seq![0x2eu8, 0x6du8, 0x61u8, 0x6eu8].map_values(|c: u8| c as char)
}

/// The `.met` suffix, as characters.
pub open spec fn spec_met_suffix() -> Seq<char> {
    seq![0x2eu8, 0x6du8, 0x65u8, 0x74u8].map_values(|c: u8| c as char)
}

/// Whether an entry is kept by a clean pass: manifests, metadata files, and
/// retained names stay.
pub open spec fn spec_cpd_entry_kept(e: CPDEntry, rl: Seq<Seq<char>>) -> bool {
    ||| spec_ends_with(spec_tag_name(e.name@), spec_man_suffix())
    ||| spec_ends_with(spec_tag_name(e.name@), spec_met_suffix())
    ||| spec_name_in(rl, spec_tag_name(e.name@))
}

/// The byte range of one entry, relative to the directory.
pub open spec fn spec_cpd_entry_range(e: CPDEntry) -> RemovableRange {
    RemovableRange {
        start: (e.flags_and_offset.0 & 0x01ff_ffff) as u64,
        end: ((e.flags_and_offset.0 & 0x01ff_ffff) as u64 + e.size as u64) as u64,
    }
}

/// The ranges of all entries a clean pass removes, in entry order.
pub open spec fn spec_cpd_entry_removables(entries: Seq<CPDEntry>, rl: Seq<Seq<char>>) -> Seq<
    RemovableRange,
>
    decreases entries.len(),
{
    if entries.len() == 0 {
        Seq::empty()
    } else {
        let rest = spec_cpd_entry_removables(entries.drop_last(), rl);
        if spec_cpd_entry_kept(entries.last(), rl) {
            rest
        } else {
            rest + seq![spec_cpd_entry_range(entries.last())]
        }
    }
}

/// The entry with the highest offset; among equals, the later one.
pub open spec fn spec_last_max_entry(entries: Seq<CPDEntry>) -> CPDEntry
    recommends
        entries.len() > 0,
    decreases entries.len(),
{
    if entries.len() <= 1 {
        entries[0]
    } else {
        let r = spec_last_max_entry(entries.drop_last());
        if entries.last().flags_and_offset.0 & 0x01ff_ffff >= r.flags_and_offset.0 & 0x01ff_ffff {
            entries.last()
        } else {
            r
        }
    }
}

/// The next multiple of 4096 at or above `x`.
pub open spec fn spec_round_up_4k(x: int) -> int {
    ((x + 4095) / 4096) * 4096
}

/// The trailing free space of a directory: from the next 4096-byte boundary
/// past the last entry's end, to the directory's declared size; empty when
/// the directory has no entries or the boundary is not below the size.
pub open spec fn spec_cpd_trailing(d: CodePartitionDirectory) -> Seq<RemovableRange> {
    if d.entries@.len() == 0 {
        Seq::empty()
    } else {
        let e = spec_last_max_entry(d.entries@);
        let end = (e.flags_and_offset.0 & 0x01ff_ffff) + e.size;
        let o = spec_round_up_4k(end as int);
        if o < d.size {
            seq![RemovableRange { start: o as u64, end: d.size as u64 }]
        } else {
            Seq::empty()
        }
    }
}

/// Everything a clean pass may erase in this directory, relative to the
/// directory start: the bytes of unkept entries, then the free space after
/// the last entry.
pub open spec fn spec_cpd_removables(d: CodePartitionDirectory, rl: Seq<Seq<char>>) -> Seq<
    RemovableRange,
> {
    spec_cpd_entry_removables(d.entries@, rl) + spec_cpd_trailing(d)
}

impl Removables for CodePartitionDirectory {
    open spec fn spec_removables(&self, retention_list: Seq<Seq<char>>) -> Seq<RemovableRange> {
        spec_cpd_removables(*self, retention_list)
    }

    /// Removable ranges relative to the start of the directory.
    fn removables(&self, retention_list: &Vec<String>) -> (r: Vec<RemovableRange>)
    {
        let n = self.entries.len();
        let mut removables: Vec<RemovableRange> = Vec::new();
        let mut i: usize = 0;
        while i < n
            invariant
                n == self.entries@.len(),
                i <= n,
                removables@ == spec_cpd_entry_removables(
                    self.entries@.subrange(0, i as int),
                    crate::codec::spec_names(retention_list@),
                ),
            decreases n - i,
        {
            let e = self.entries[i];
            let name = e.name();
            let kept = tag_ends_with(&e.name, &[0x2e, 0x6d, 0x61, 0x6e]) || tag_ends_with(
                &e.name,
                &[0x2e, 0x6d, 0x65, 0x74],
            ) || contains_name(retention_list, &name);
            proof {
                let sm: Seq<u8> = seq![0x2eu8, 0x6du8, 0x61u8, 0x6eu8];
                let st: Seq<u8> = seq![0x2eu8, 0x6du8, 0x65u8, 0x74u8];
                assert(kept == spec_cpd_entry_kept(e, crate::codec::spec_names(retention_list@)));
            }
            if !kept {
                removables.push(
                    RemovableRange {
                        start: (e.flags_and_offset.0 & 0x01ff_ffff) as u64,
                        end: (e.flags_and_offset.0 & 0x01ff_ffff) as u64 + e.size as u64,
                    },
                );
            }
            proof {
                let pre = self.entries@.subrange(0, i + 1);
                assert(pre.drop_last() =~= self.entries@.subrange(0, i as int));
                assert(pre.last() == self.entries@[i as int]);
                assert(removables@ =~= spec_cpd_entry_removables(pre, crate::codec::spec_names(retention_list@)));
            }
            i = i + 1;
        }
        proof {
            assert(self.entries@.subrange(0, n as int) =~= self.entries@);
        }
        // Remaining space to free after the last entry.
        if n > 0 {
            let mut best = self.entries[0];
            let mut i: usize = 1;
            proof {
                assert(self.entries@.subrange(0, 1).len() == 1);
                assert(best == spec_last_max_entry(self.entries@.subrange(0, 1)));
            }
            while i < n
                invariant
                    n == self.entries@.len(),
                    1 <= i <= n,
                    best == spec_last_max_entry(self.entries@.subrange(0, i as int)),
                decreases n - i,
            {
                let e = self.entries[i];
                if e.flags_and_offset.0 & 0x01ff_ffff >= best.flags_and_offset.0 & 0x01ff_ffff {
                    best = e;
                }
                proof {
                    let pre = self.entries@.subrange(0, i + 1);
                    assert(pre.drop_last() =~= self.entries@.subrange(0, i as int));
                    assert(pre.last() == self.entries@[i as int]);
                }
                i = i + 1;
            }
            proof {
                assert(self.entries@.subrange(0, n as int) =~= self.entries@);
            }
            let end = (best.flags_and_offset.0 & 0x01ff_ffff) as u64 + best.size as u64;
            let o = (end + 4095) / 4096 * 4096;
            if o < self.size as u64 {
                removables.push(RemovableRange { start: o, end: self.size as u64 });
            }
        }
        proof {
            assert(removables@ =~= spec_cpd_removables(*self, crate::codec::spec_names(retention_list@)));
        }
        removables
    }
}

} // verus!
