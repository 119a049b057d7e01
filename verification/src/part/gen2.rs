//! Gen 2 partitions: each table entry's byte range, classified as a
//! directory, plain data, or malformed.

use vstd::prelude::*;
use vstd::string::StringExecFns;

use crate::codec::{push_bytes, splice_bytes, spec_tag_name};
use crate::dir::gen2::{
    always_retain, push_chunks, push_huffman_header, spec_gen2_dir_ok, spec_gen2_dir_parsed,
    Directory,
};
use crate::fpt::{spec_is_ftpr, FPT, FPTEntry};
use crate::part::generic::{
    dir_clean, spec_erase_ranges, ClearOptions, DataPartition, Partition,
    UnknownOrMalformedPartition,
};
use crate::Removables;

verus! {

/// A partition that holds a parsed Gen 2 directory, along with its own copy
/// of the partition bytes.
#[derive(Debug)]
pub struct DirPartition {
    pub dir: Directory,
    pub entry: FPTEntry,
    pub data: Vec<u8>,
}

impl Clone for DirPartition {
    /// An exact copy, field by field.
    fn clone(&self) -> (res: Self)
        ensures
            crate::dir::gen2::spec_directory_eq(res.dir, self.dir),
            res.entry == self.entry,
            res.data@ == self.data@,
    {
        let mut data: Vec<u8> = Vec::new();
        push_bytes(&mut data, self.data.as_slice());
        proof {
            assert(data@ =~= self.data@);
        }
        DirPartition { dir: self.dir.clone(), entry: self.entry, data }
    }
}

impl DirPartition {
    /// Whether the directory manifest's signature verifies.
    pub fn check_signature(&self) -> (r: Result<(), String>)
        ensures
            (r is Ok) == crate::dir::man::spec_manifest_verified(self.dir.manifest),
    {
        if self.dir.manifest.verify() {
            Ok(())
        } else {
            Err(String::from_str("hash mismatch"))
        }
    }
}

/// One Gen 2 partition.
#[derive(Clone, Debug)]
pub enum Gen2Partition {
    Dir(Box<DirPartition>),
    Data(DataPartition),
    MalformedOrUnknown(UnknownOrMalformedPartition),
}

impl Partition for Gen2Partition {
    open spec fn spec_entry(&self) -> FPTEntry {
        match *self {
            Gen2Partition::Dir(ref d) => d.entry,
            Gen2Partition::Data(ref d) => d.entry,
            Gen2Partition::MalformedOrUnknown(ref d) => d.entry,
        }
    }

    open spec fn spec_data(&self) -> Seq<u8> {
        match *self {
            Gen2Partition::Dir(ref d) => d.data@,
            Gen2Partition::Data(ref d) => d.data@,
            Gen2Partition::MalformedOrUnknown(ref d) => d.data@,
        }
    }

    fn entry(&self) -> (r: &FPTEntry) {
        match self {
            Gen2Partition::Dir(d) => &d.entry,
            Gen2Partition::Data(d) => &d.entry,
            Gen2Partition::MalformedOrUnknown(d) => &d.entry,
        }
    }

    fn data(&self) -> (r: &Vec<u8>) {
        match self {
            Gen2Partition::Dir(d) => &d.data,
            Gen2Partition::Data(d) => &d.data,
            Gen2Partition::MalformedOrUnknown(d) => &d.data,
        }
    }

    fn set_entry(&mut self, entry: FPTEntry) {
        match self {
            Gen2Partition::Dir(d) => d.entry = entry,
            Gen2Partition::Data(d) => d.entry = entry,
            Gen2Partition::MalformedOrUnknown(d) => d.entry = entry,
        }
    }

    fn set_data(&mut self, data: Vec<u8>) {
        match self {
            Gen2Partition::Dir(d) => d.data = data,
            Gen2Partition::Data(d) => d.data = data,
            Gen2Partition::MalformedOrUnknown(d) => d.data = data,
        }
    }
}

/// Whether moving this partition down to `offset` is blocked: only a
/// directory partition can refuse, when the move would go up, when some
/// active chunk sits below the distance moved, or when the re-encoded table
/// would not fit back into the partition bytes.
pub open spec fn spec_gen2_reloc_blocked(p: Gen2Partition, offset: u32) -> bool {
    match p {
        Gen2Partition::Dir(d) => {
            let old_off = d.entry.offset & 0x003f_ffff;
            ||| offset > old_off
            ||| (offset <= old_off && exists|i: int|
                0 <= i < d.dir.modules@.len()
                    && crate::dir::gen2::spec_module_rebase_blocked(
                    #[trigger] d.dir.modules@[i],
                    (old_off - offset) as u32,
                ))
            ||| (match crate::dir::gen2::spec_first_huffman(d.dir.modules@) {
                Some((e, h)) => !(64 + 4 * h.chunks@.len() <= d.data@.len() && e.offset
                    <= d.data@.len() - (64 + 4 * h.chunks@.len())),
                None => false,
            })
        },
        _ => false,
    }
}

/// A directory partition's bytes after relocation: the first table,
/// rebased, re-encoded over its old place.
pub open spec fn spec_gen2_reloc_data(d: DirPartition, diff: u32) -> Seq<u8> {
    match crate::dir::gen2::spec_first_huffman(d.dir.modules@) {
        None => d.data@,
        Some((e, h)) => {
            let enc = crate::dir::gen2::huffman_header_bytes(h.header)
                + crate::dir::gen2::chunks_bytes(
                crate::dir::gen2::spec_rebased_chunks(h.chunks@, diff),
            );
            d.data@.subrange(0, e.offset as int) + enc + d.data@.subrange(
                e.offset + enc.len(),
                d.data@.len() as int,
            )
        },
    }
}

/// What a successful relocation leaves: the entry at the new offset; for a
/// directory partition also every module's chunk table rebased by the
/// distance moved, everything else of the directory untouched, and the first
/// table re-encoded over its old bytes.
pub open spec fn spec_gen2_relocated(new: Gen2Partition, old: Gen2Partition, offset: u32) -> bool {
    match (new, old) {
        (Gen2Partition::Dir(nd), Gen2Partition::Dir(od)) => {
            let diff = ((od.entry.offset & 0x003f_ffff) - offset) as u32;
            &&& nd.entry == (FPTEntry { offset, ..od.entry })
            &&& nd.dir.modules@.len() == od.dir.modules@.len()
            &&& forall|i: int|
                0 <= i < od.dir.modules@.len() ==> crate::dir::gen2::spec_module_rebased(
                    #[trigger] nd.dir.modules@[i],
                    od.dir.modules@[i],
                    diff,
                )
            &&& nd.dir.manifest == od.dir.manifest
            &&& nd.dir.header == od.dir.header
            &&& nd.dir.offset == od.dir.offset
            &&& nd.dir.size == od.dir.size
            &&& nd.dir.name == od.dir.name
            &&& nd.data@ == spec_gen2_reloc_data(*od, diff)
        },
        (Gen2Partition::Data(nd), Gen2Partition::Data(od)) => nd.entry == (FPTEntry {
            offset,
            ..od.entry
        }) && nd.data@ == od.data@,
        (Gen2Partition::MalformedOrUnknown(nd), Gen2Partition::MalformedOrUnknown(od)) => nd.entry
            == (FPTEntry { offset, ..od.entry }) && nd.data@ == od.data@ && nd.note == od.note,
        _ => false,
    }
}

/// How one Gen 2 partition classifies its bytes: a parsed directory where
/// one parses, plain data otherwise; either way the partition owns the
/// bytes and the entry.
pub open spec fn spec_gen2_part_parsed(r: Gen2Partition, entry: FPTEntry, data: Seq<u8>) -> bool {
    &&& r.spec_entry() == entry
    &&& r.spec_data() == data
    &&& (if spec_gen2_dir_ok(data) {
        r matches Gen2Partition::Dir(d) && spec_gen2_dir_parsed(
            d.dir,
            data,
            (entry.offset as usize & 0x003f_ffff) as int,
        )
    } else {
        r is Data
    })
}

impl Gen2Partition {
    /// Classify one partition's bytes; see `spec_gen2_part_parsed`.
    pub fn parse(data: &[u8], entry: FPTEntry, debug: bool) -> (r: Gen2Partition)
        ensures
            spec_gen2_part_parsed(r, entry, data@),
    {
        let o = entry.offset();
        let owned = crate::codec::read_vec(data, 0, data.len());
        proof {
            assert(owned@ =~= data@);
        }
        match Directory::new(owned.as_slice(), o) {
            Ok(dir) => Gen2Partition::Dir(Box::new(DirPartition { dir, entry, data: owned })),
            Err(_) => Gen2Partition::Data(DataPartition { entry, data: owned }),
        }
    }

    /// Move a partition to a new, lower base offset. A directory partition
    /// also has its shared Huffman chunk table rebased by the distance moved
    /// and re-encoded at its place inside the partition bytes; a blocked
    /// move changes nothing.
    pub fn relocate(&mut self, offset: u32) -> (r: Result<(), String>)
        ensures
            (r is Err) <==> spec_gen2_reloc_blocked(*old(self), offset),
            r is Err ==> *final(self) == *old(self),
            r is Ok ==> spec_gen2_relocated(*final(self), *old(self), offset),
    {
        match self {
            Gen2Partition::Dir(p) => {
                let old_offset = p.entry.offset & 0x003f_ffff;
                if offset > old_offset {
                    return Err(String::from_str("cannot relocate to a higher offset"));
                }
                let offset_diff = old_offset - offset;
                // The re-encoded table must fit back where it was; check
                // before anything moves.
                if let Some((mod_offset, huffman_mod)) = p.dir.get_huffman_mod() {
                    let el = 64u128 + 4 * (huffman_mod.chunks.len() as u128);
                    let dl = p.data.len() as u128;
                    if !(el <= dl && mod_offset as u128 <= dl - el) {
                        return Err(String::from_str("chunk table does not fit its partition"));
                    }
                }
                // Rebase the shared Huffman chunk table.
                if let Err(e) = p.dir.rebase_huffman_chunks(offset_diff) {
                    return Err(e);
                }
                p.entry.offset = offset;
                // Re-encode the rebased table over its original bytes.
                proof {
                    crate::dir::gen2::lemma_first_huffman_rebased(
                        p.dir.modules@,
                        old(self)->Dir_0.dir.modules@,
                        offset_diff,
                    );
                }
                if let Some((mod_offset, huffman_mod)) = p.dir.get_huffman_mod() {
                    let mut encoded: Vec<u8> = Vec::new();
                    push_huffman_header(&mut encoded, &huffman_mod.header);
                    push_chunks(&mut encoded, &huffman_mod.chunks);
                    proof {
                        crate::dir::gen2::lemma_huffman_header_bytes_len(huffman_mod.header);
                        crate::dir::gen2::lemma_chunks_bytes_len(huffman_mod.chunks@);
                    }
                    splice_bytes(&mut p.data, mod_offset, encoded.as_slice());
                }
                proof {
                    assert(spec_gen2_relocated(*self, *old(self), offset));
                }
                Ok(())
            },
            Gen2Partition::Data(p) => {
                p.entry.offset = offset;
                Ok(())
            },
            Gen2Partition::MalformedOrUnknown(p) => {
                p.entry.offset = offset;
                Ok(())
            },
        }
    }
}

/// Split the region into one partition per table entry: each partition owns
/// the exact byte slice its entry describes, classified by
/// `spec_gen2_part_parsed`; an entry whose range runs past the region
/// becomes a malformed partition with no bytes.
pub fn parse(fpt: &FPT, data: &[u8], debug: bool) -> (r: Vec<Gen2Partition>)
    ensures
        r@.len() == fpt.entries@.len(),
        forall|i: int|
            0 <= i < r@.len() ==> (#[trigger] r@[i]).spec_entry() == fpt.entries@[i],
        forall|i: int|
            0 <= i < r@.len() ==> {
                let e = fpt.entries@[i];
                let off = (e.offset as usize & 0x003f_ffff) as int;
                if off + e.size <= data@.len() {
                    spec_gen2_part_parsed(#[trigger] r@[i], e, data@.subrange(off, off + e.size))
                } else {
                    r@[i] is MalformedOrUnknown && r@[i].spec_data() == Seq::<u8>::empty()
                }
            },
{
    let n = fpt.entries.len();
    let dl = data.len();
    let mut r: Vec<Gen2Partition> = Vec::new();
    let mut i: usize = 0;
    while i < n
        invariant
            n == fpt.entries@.len(),
            dl == data@.len(),
            i <= n,
            r@.len() == i,
            forall|j: int| 0 <= j < i ==> (#[trigger] r@[j]).spec_entry() == fpt.entries@[j],
            forall|j: int|
                0 <= j < i ==> {
                    let e = fpt.entries@[j];
                    let off = (e.offset as usize & 0x003f_ffff) as int;
                    if off + e.size <= data@.len() {
                        spec_gen2_part_parsed(
                            #[trigger] r@[j],
                            e,
                            data@.subrange(off, off + e.size),
                        )
                    } else {
                        r@[j] is MalformedOrUnknown && r@[j].spec_data() == Seq::<u8>::empty()
                    }
                },
        decreases n - i,
    {
        let e = fpt.entries[i];
        let offset = e.offset();
        let size = e.size as usize;
        if offset as u64 + size as u64 > dl as u64 {
            let note = String::from_str("entry range out of bounds");
            r.push(
                Gen2Partition::MalformedOrUnknown(
                    UnknownOrMalformedPartition { entry: e, data: Vec::new(), note },
                ),
            );
        } else {
            // The partition keeps the exact slice its entry describes.
            let end = offset + size;
            let slice = vstd::slice::slice_subrange(data, offset, end);
            r.push(Gen2Partition::parse(slice, e, debug));
        }
        i = i + 1;
    }
    r
}

/// Whether this partition is named `FTPR`.
pub open spec fn spec_part_is_ftpr(p: Gen2Partition) -> bool {
    spec_is_ftpr(p.spec_entry())
}

/// The partitions a clean pass keeps, in order.
pub open spec fn spec_gen2_retained(parts: Seq<Gen2Partition>, options: &ClearOptions) -> Seq<
    Gen2Partition,
>
    decreases parts.len(),
{
    if parts.len() == 0 {
        Seq::empty()
    } else {
        let rest = spec_gen2_retained(parts.drop_last(), options);
        if crate::part::generic::spec_part_kept(
            spec_tag_name(parts.last().spec_entry().name@),
            options,
            crate::part::gen3::spec_removable_part_names(),
        ) {
            rest + seq![parts.last()]
        } else {
            rest
        }
    }
}

/// How the output of a clean pass relates to its input: the retained
/// partitions in order, with the `FTPR` directory's bytes cleared unless
/// modules are kept.
pub open spec fn spec_gen2_clean_rel(
    parts: Seq<Gen2Partition>,
    r: Seq<Gen2Partition>,
    options: &ClearOptions,
) -> bool {
    let kept = spec_gen2_retained(parts, options);
    &&& r.len() == kept.len()
    &&& forall|i: int|
        0 <= i < kept.len() ==> {
            let k = #[trigger] kept[i];
            match k {
                Gen2Partition::Dir(d) => {
                    if spec_part_is_ftpr(k) && !options.keep_modules {
                        r[i] matches Gen2Partition::Dir(d2) && crate::dir::gen2::spec_directory_eq(
                            d2.dir,
                            d.dir,
                        ) && d2.entry == d.entry && d2.data@ == spec_erase_ranges(
                            d.data@,
                            d.dir.spec_removables(seq!["BUP"@, "ROMP"@]),
                        )
                    } else {
                        r[i].spec_entry() == k.spec_entry() && r[i].spec_data() == k.spec_data()
                    }
                },
                _ => r[i].spec_entry() == k.spec_entry() && r[i].spec_data() == k.spec_data(),
            }
        }
}

/// Keep only the retained partitions, and clear the removable ranges of the
/// `FTPR` directory in its byte copy unless modules are kept.
pub fn clean(parts: &Vec<Gen2Partition>, options: &ClearOptions) -> (r: Vec<Gen2Partition>)
    ensures
        spec_gen2_clean_rel(parts@, r@, options),
{
    let n = parts.len();
    let mut r: Vec<Gen2Partition> = Vec::new();
    let retention_list = always_retain();
    let removable = crate::fpt::removable_parts();
    proof {
        assert(crate::codec::spec_names(retention_list@) =~= seq!["BUP"@, "ROMP"@]);
        assert(crate::codec::spec_names(removable@)
            =~= crate::part::gen3::spec_removable_part_names());
    }
    let mut i: usize = 0;
    while i < n
        invariant
            n == parts@.len(),
            i <= n,
            crate::codec::spec_names(retention_list@) == seq!["BUP"@, "ROMP"@],
            crate::codec::spec_names(removable@)
                == crate::part::gen3::spec_removable_part_names(),
            ({
                let kept = spec_gen2_retained(parts@.subrange(0, i as int), options);
                &&& r@.len() == kept.len()
                &&& forall|j: int|
                    0 <= j < kept.len() ==> {
                        let k = #[trigger] kept[j];
                        match k {
                            Gen2Partition::Dir(d) => {
                                if spec_part_is_ftpr(k) && !options.keep_modules {
                                    r@[j] matches Gen2Partition::Dir(d2)
                                        && crate::dir::gen2::spec_directory_eq(d2.dir, d.dir)
                                        && d2.entry == d.entry && d2.data@ == spec_erase_ranges(
                                        d.data@,
                                        d.dir.spec_removables(seq!["BUP"@, "ROMP"@]),
                                    )
                                } else {
                                    r@[j].spec_entry() == k.spec_entry() && r@[j].spec_data()
                                        == k.spec_data()
                                }
                            },
                            _ => r@[j].spec_entry() == k.spec_entry() && r@[j].spec_data()
                                == k.spec_data(),
                        }
                    }
            }),
        decreases n - i,
    {
        let p = &parts[i];
        let name = p.entry().name();
        let ghost pre = parts@.subrange(0, i + 1);
        proof {
            assert(pre.drop_last() =~= parts@.subrange(0, i as int));
            assert(pre.last() == parts@[i as int]);
        }
        if crate::part::generic::part_kept(name, options, &removable) {
            let is_ftpr = p.entry().is_ftpr();
            if is_ftpr && !options.keep_modules {
                match p {
                    Gen2Partition::Dir(d) => {
                        // Zero the removable ranges inside a fresh copy of
                        // the partition bytes.
                        let mut cleaned_data: Vec<u8> = Vec::new();
                        push_bytes(&mut cleaned_data, d.data.as_slice());
                        proof {
                            assert(cleaned_data@ =~= d.data@);
                        }
                        dir_clean(&d.dir, &retention_list, &mut cleaned_data);
                        r.push(
                            Gen2Partition::Dir(
                                Box::new(
                                    DirPartition {
                                        dir: d.dir.clone(),
                                        entry: d.entry,
                                        data: cleaned_data,
                                    },
                                ),
                            ),
                        );
                    },
                    _ => {
                        r.push(p.clone_part());
                    },
                }
            } else {
                r.push(p.clone_part());
            }
        }
        i = i + 1;
    }
    proof {
        assert(parts@.subrange(0, n as int) =~= parts@);
    }
    r
}

impl Gen2Partition {
    /// A copy whose entry, bytes, and directory hold the same values.
    pub fn clone_part(&self) -> (r: Gen2Partition)
        ensures
            r.spec_entry() == self.spec_entry(),
            r.spec_data() == self.spec_data(),
    {
        match self {
            Gen2Partition::Dir(d) => Gen2Partition::Dir(Box::new((**d).clone())),
            Gen2Partition::Data(d) => Gen2Partition::Data(d.clone()),
            Gen2Partition::MalformedOrUnknown(d) => Gen2Partition::MalformedOrUnknown(d.clone()),
        }
    }
}

} // verus!
