//! Gen 3 partitions: each table entry's byte range, classified as a
//! code-partition directory, plain data with a manifest, or malformed.

use vstd::prelude::*;
use vstd::string::StringExecFns;

use crate::codec::{push_bytes, spec_tag_name};
use crate::dir::gen3::{always_retain, spec_cpd_ok, spec_cpd_parsed, CodePartitionDirectory};
use crate::dir::man::{spec_manifest_ok, spec_manifest_parsed, Manifest};
use crate::fpt::{spec_is_ftpr, FPT, FPTEntry};
use crate::part::generic::{
    dir_clean, spec_erase_ranges, ClearOptions, DataPartition, Partition,
    UnknownOrMalformedPartition,
};
use crate::Removables;

verus! {

/// A partition that holds a parsed directory, along with its own copy of the
/// partition bytes.
#[derive(Debug)]
pub struct CPDPartition {
    pub entry: FPTEntry,
    pub data: Vec<u8>,
    pub cpd: CodePartitionDirectory,
}

impl Clone for CPDPartition {
    /// An exact copy, field by field.
    fn clone(&self) -> (res: Self)
        ensures
            res.entry == self.entry,
            res.data@ == self.data@,
            crate::dir::gen3::spec_cpd_eq(res.cpd, self.cpd),
    {
        let mut data: Vec<u8> = Vec::new();
        push_bytes(&mut data, self.data.as_slice());
        proof {
            assert(data@ =~= self.data@);
        }
        CPDPartition { entry: self.entry, data, cpd: self.cpd.clone() }
    }
}

impl CPDPartition {
    /// Whether the directory manifest's signature verifies; an unparsable
    /// manifest never does.
    pub fn check_signature(&self) -> (r: Result<(), String>)
        ensures
            (r is Ok) <==> (self.cpd.manifest matches Ok(m)
                && crate::dir::man::spec_manifest_verified(m)),
    {
        self.cpd.check_signature()
    }
}

/// A data partition that carries its own manifest.
#[derive(Debug)]
pub struct DataPartitionWithManifest {
    pub entry: FPTEntry,
    pub data: Vec<u8>,
    pub manifest: Manifest,
}

impl Clone for DataPartitionWithManifest {
    /// An exact copy, field by field.
    fn clone(&self) -> (res: Self)
        ensures
            res.entry == self.entry,
            res.data@ == self.data@,
            res.manifest.header == self.manifest.header,
            res.manifest.signature == self.manifest.signature,
            res.manifest.mdata@ == self.manifest.mdata@,
    {
        let mut data: Vec<u8> = Vec::new();
        push_bytes(&mut data, self.data.as_slice());
        proof {
            assert(data@ =~= self.data@);
        }
        DataPartitionWithManifest { entry: self.entry, data, manifest: self.manifest.clone() }
    }
}

/// One Gen 3 partition.
#[derive(Clone, Debug)]
pub enum Gen3Partition {
    Dir(CPDPartition),
    Data(DataPartitionWithManifest),
    MalformedOrUnknown(UnknownOrMalformedPartition),
}

impl Partition for Gen3Partition {
    open spec fn spec_entry(&self) -> FPTEntry {
        match *self {
            Gen3Partition::Dir(ref d) => d.entry,
            Gen3Partition::Data(ref d) => d.entry,
            Gen3Partition::MalformedOrUnknown(ref d) => d.entry,
        }
    }

    open spec fn spec_data(&self) -> Seq<u8> {
        match *self {
            Gen3Partition::Dir(ref d) => d.data@,
            Gen3Partition::Data(ref d) => d.data@,
            Gen3Partition::MalformedOrUnknown(ref d) => d.data@,
        }
    }

    fn entry(&self) -> (r: &FPTEntry) {
        match self {
            Gen3Partition::Dir(d) => &d.entry,
            Gen3Partition::Data(d) => &d.entry,
            Gen3Partition::MalformedOrUnknown(d) => &d.entry,
        }
    }

    fn data(&self) -> (r: &Vec<u8>) {
        match self {
            Gen3Partition::Dir(d) => &d.data,
            Gen3Partition::Data(d) => &d.data,
            Gen3Partition::MalformedOrUnknown(d) => &d.data,
        }
    }

    fn set_entry(&mut self, entry: FPTEntry) {
        match self {
            Gen3Partition::Dir(d) => d.entry = entry,
            Gen3Partition::Data(d) => d.entry = entry,
            Gen3Partition::MalformedOrUnknown(d) => d.entry = entry,
        }
    }

    fn set_data(&mut self, data: Vec<u8>) {
        match self {
            Gen3Partition::Dir(d) => d.data = data,
            Gen3Partition::Data(d) => d.data = data,
            Gen3Partition::MalformedOrUnknown(d) => d.data = data,
        }
    }
}

/// Whether the partition bytes start with the directory magic, with at
/// least one byte after it.
pub open spec fn spec_has_cpd_magic(data: Seq<u8>) -> bool {
    data.len() > 4 && data.subrange(0, 4) == crate::dir::gen3::spec_cpd_magic()
}

/// Whether the entry carries a filesystem partition's name; those are kept
/// opaque rather than read as manifests.
pub open spec fn spec_is_fs_name(e: FPTEntry) -> bool {
    crate::codec::spec_name_in(seq!["MFS"@, "AFSP"@, "EFFS"@], spec_tag_name(e.name@))
}

/// How one Gen 3 partition classifies its bytes: a directory behind the
/// directory magic (malformed when the magic is there but the directory is
/// not); filesystem partitions kept opaque; a manifest-bearing data
/// partition where a bare manifest sits at the start; and a malformed
/// record otherwise.
pub open spec fn spec_gen3_part_parsed(r: Gen3Partition, entry: FPTEntry, data: Seq<u8>) -> bool {
    &&& r.spec_entry() == entry
    &&& r.spec_data() == data
    &&& (if spec_has_cpd_magic(data) {
        if spec_cpd_ok(data) {
            r matches Gen3Partition::Dir(d) && spec_cpd_parsed(
                d.cpd,
                data,
                (entry.offset as usize & 0x003f_ffff) as int,
            )
        } else {
            r is MalformedOrUnknown
        }
    } else if spec_is_fs_name(entry) {
        r is MalformedOrUnknown
    } else if spec_manifest_ok(data) {
        r matches Gen3Partition::Data(d) && spec_manifest_parsed(d.manifest, data)
    } else {
        r is MalformedOrUnknown
    })
}

impl Gen3Partition {
    /// Classify one partition's bytes; see `spec_gen3_part_parsed`.
    pub fn parse(data: &[u8], entry: FPTEntry, debug: bool) -> (r: Gen3Partition)
        ensures
            spec_gen3_part_parsed(r, entry, data@),
    {
        let o = entry.offset();
        let owned = crate::codec::read_vec(data, 0, data.len());
        proof {
            assert(owned@ =~= data@);
        }
        let n = owned.len();
        if n > 4 && owned[0] == 0x24 && owned[1] == 0x43 && owned[2] == 0x50 && owned[3] == 0x44 {
            proof {
                assert(owned@.subrange(0, 4) =~= crate::dir::gen3::spec_cpd_magic());
            }
            return match CodePartitionDirectory::new(owned.as_slice(), o) {
                Ok(cpd) => Gen3Partition::Dir(CPDPartition { entry, data: owned, cpd }),
                Err(_) => {
                    let note = String::from_str("a directory magic, but no directory parses");
                    Gen3Partition::MalformedOrUnknown(
                        UnknownOrMalformedPartition { entry, data: owned, note },
                    )
                },
            };
        }
        proof {
            if spec_has_cpd_magic(owned@) {
                assert(owned@[0] == 0x24 && owned@[1] == 0x43 && owned@[2] == 0x50 && owned@[3]
                    == 0x44);
            }
        }
        let fs_names = crate::fpt::fs_parts();
        let name = entry.name();
        if crate::codec::contains_name(&fs_names, &name) {
            // Filesystem partitions are not read; they are kept whole.
            let note = String::from_str("file system parsing is not supported");
            return Gen3Partition::MalformedOrUnknown(
                UnknownOrMalformedPartition { entry, data: owned, note },
            );
        }
        match Manifest::new(owned.as_slice()) {
            Ok(manifest) => Gen3Partition::Data(
                DataPartitionWithManifest { entry, data: owned, manifest },
            ),
            Err(_) => {
                let note = String::from_str("cannot classify this partition");
                Gen3Partition::MalformedOrUnknown(
                    UnknownOrMalformedPartition { entry, data: owned, note },
                )
            },
        }
    }
}

/// Split the region into one partition per table entry: each partition owns
/// the exact byte slice its entry describes, classified by
/// `spec_gen3_part_parsed`; an entry whose range runs past the region
/// becomes a malformed partition with no bytes.
pub fn parse(fpt: &FPT, data: &[u8], debug: bool) -> (r: Vec<Gen3Partition>)
    ensures
        r@.len() == fpt.entries@.len(),
        forall|i: int|
            0 <= i < r@.len() ==> (#[trigger] r@[i]).spec_entry() == fpt.entries@[i],
        forall|i: int|
            0 <= i < r@.len() ==> {
                let e = fpt.entries@[i];
                let off = (e.offset as usize & 0x003f_ffff) as int;
                if off + e.size <= data@.len() {
                    spec_gen3_part_parsed(#[trigger] r@[i], e, data@.subrange(off, off + e.size))
                } else {
                    r@[i] is MalformedOrUnknown && r@[i].spec_data() == Seq::<u8>::empty()
                }
            },
{
    let n = fpt.entries.len();
    let dl = data.len();
    let mut r: Vec<Gen3Partition> = Vec::new();
    let mut i: usize = 0;
    while i < n
        invariant
            n == fpt.entries@.len(),
            dl == data@.len(),
            i <= n,
            r@.len() == i,
            forall|j: int| 0 <= j < i ==> (#[trigger] r@[j]).spec_entry() == fpt.entries@[j],
            forall|j: int|
                0 <= j < i ==> {
                    let e = fpt.entries@[j];
                    let off = (e.offset as usize & 0x003f_ffff) as int;
                    if off + e.size <= data@.len() {
                        spec_gen3_part_parsed(
                            #[trigger] r@[j],
                            e,
                            data@.subrange(off, off + e.size),
                        )
                    } else {
                        r@[j] is MalformedOrUnknown && r@[j].spec_data() == Seq::<u8>::empty()
                    }
                },
        decreases n - i,
    {
        let e = fpt.entries[i];
        let offset = e.offset();
        let size = e.size as usize;
        if offset as u64 + size as u64 > dl as u64 {
            let note = String::from_str("entry range out of bounds");
            r.push(
                Gen3Partition::MalformedOrUnknown(
                    UnknownOrMalformedPartition { entry: e, data: Vec::new(), note },
                ),
            );
        } else {
            // The partition keeps the exact slice its entry describes.
            let end = offset + size;
            let slice = vstd::slice::slice_subrange(data, offset, end);
            r.push(Gen3Partition::parse(slice, e, debug));
        }
        i = i + 1;
    }
    r
}

/// Whether this partition is named `FTPR`.
pub open spec fn spec_part_is_ftpr(p: Gen3Partition) -> bool {
    spec_is_ftpr(p.spec_entry())
}

/// The partitions a clean pass keeps, in order.
pub open spec fn spec_gen3_retained(parts: Seq<Gen3Partition>, options: &ClearOptions) -> Seq<
    Gen3Partition,
>
    decreases parts.len(),
{
    if parts.len() == 0 {
        Seq::empty()
    } else {
        let rest = spec_gen3_retained(parts.drop_last(), options);
        if crate::part::generic::spec_part_kept(
            spec_tag_name(parts.last().spec_entry().name@),
            options,
            spec_removable_part_names(),
        ) {
            rest + seq![parts.last()]
        } else {
            rest
        }
    }
}

/// The names of the partitions found to be safe to remove whole.
pub open spec fn spec_removable_part_names() -> Seq<Seq<char>> {
    seq!["FLOG"@, "FTUP"@, "IVBP"@, "MFS"@, "NFTP"@, "PSVN"@, "UTOK"@]
}

/// How the output of a clean pass relates to its input: the retained
/// partitions in order, with the `FTPR` directory's bytes cleared unless
/// modules are kept.
pub open spec fn spec_gen3_clean_rel(
    parts: Seq<Gen3Partition>,
    r: Seq<Gen3Partition>,
    options: &ClearOptions,
) -> bool {
    let kept = spec_gen3_retained(parts, options);
    &&& r.len() == kept.len()
    &&& forall|i: int|
        0 <= i < kept.len() ==> (#[trigger] r[i]).spec_entry() == kept[i].spec_entry()
    &&& forall|i: int|
        0 <= i < kept.len() ==> ((!spec_part_is_ftpr(#[trigger] kept[i]) || options.keep_modules)
            ==> r[i].spec_data() == kept[i].spec_data())
    &&& !options.keep_modules ==> forall|i: int|
        0 <= i < kept.len() ==> (spec_part_is_ftpr(#[trigger] kept[i]) ==> (match kept[i] {
            Gen3Partition::Dir(d) => r[i].spec_data() == spec_erase_ranges(
                d.data@,
                d.cpd.spec_removables(seq!["bup"@, "rbe"@, "kernel"@, "syslib"@]),
            ),
            _ => r[i].spec_data() == kept[i].spec_data(),
        }))
}

/// Drop the fully removable partitions, and clear the removable ranges of
/// the first `FTPR` directory in its byte copy unless modules are kept.
pub fn clean(parts: &Vec<Gen3Partition>, options: &ClearOptions) -> (r: Vec<Gen3Partition>)
    ensures
        spec_gen3_clean_rel(parts@, r@, options),
{
    let n = parts.len();
    let removable = crate::fpt::removable_parts();
    let retention_list = always_retain();
    proof {
        assert(crate::codec::spec_names(removable@) =~= spec_removable_part_names());
        assert(crate::codec::spec_names(retention_list@) =~= seq![
            "bup"@,
            "rbe"@,
            "kernel"@,
            "syslib"@,
        ]);
    }
    let mut r: Vec<Gen3Partition> = Vec::new();
    let mut i: usize = 0;
    while i < n
        invariant
            n == parts@.len(),
            i <= n,
            crate::codec::spec_names(removable@) == spec_removable_part_names(),
            crate::codec::spec_names(retention_list@) == seq![
                "bup"@,
                "rbe"@,
                "kernel"@,
                "syslib"@,
            ],
            ({
                let kept = spec_gen3_retained(parts@.subrange(0, i as int), options);
                &&& r@.len() == kept.len()
                &&& forall|j: int|
                    0 <= j < kept.len() ==> (#[trigger] r@[j]).spec_entry() == kept[j].spec_entry()
                &&& forall|j: int|
                    0 <= j < kept.len() ==> ((!spec_part_is_ftpr(#[trigger] kept[j])
                        || options.keep_modules) ==> r@[j].spec_data() == kept[j].spec_data())
                &&& !options.keep_modules ==> forall|j: int|
                    0 <= j < kept.len() ==> (spec_part_is_ftpr(#[trigger] kept[j]) ==> (
                    match kept[j] {
                        Gen3Partition::Dir(d) => r@[j].spec_data() == spec_erase_ranges(
                            d.data@,
                            d.cpd.spec_removables(seq!["bup"@, "rbe"@, "kernel"@, "syslib"@]),
                        ),
                        _ => r@[j].spec_data() == kept[j].spec_data(),
                    }))
            }),
        decreases n - i,
    {
        let p = &parts[i];
        let name = p.entry().name();
        let ghost pre = parts@.subrange(0, i + 1);
        proof {
            assert(pre.drop_last() =~= parts@.subrange(0, i as int));
            assert(pre.last() == parts@[i as int]);
        }
        if crate::part::generic::part_kept(name, options, &removable) {
            let is_ftpr = p.entry().is_ftpr();
            if is_ftpr && !options.keep_modules {
                match p {
                    Gen3Partition::Dir(d) => {
                        // Zero the removable ranges inside a fresh copy of
                        // the partition bytes.
                        let mut cleaned_data: Vec<u8> = Vec::new();
                        push_bytes(&mut cleaned_data, d.data.as_slice());
                        proof {
                            assert(cleaned_data@ =~= d.data@);
                        }
                        dir_clean(&d.cpd, &retention_list, &mut cleaned_data);
                        r.push(
                            Gen3Partition::Dir(
                                CPDPartition {
                                    entry: d.entry,
                                    data: cleaned_data,
                                    cpd: d.cpd.clone(),
                                },
                            ),
                        );
                    },
                    _ => {
                        r.push(p.clone_part());
                    },
                }
            } else {
                r.push(p.clone_part());
            }
        }
        i = i + 1;
    }
    proof {
        assert(parts@.subrange(0, n as int) =~= parts@);
    }
    r
}

impl Gen3Partition {
    /// A copy whose entry, bytes, and directory hold the same values.
    pub fn clone_part(&self) -> (r: Gen3Partition)
        ensures
            r.spec_entry() == self.spec_entry(),
            r.spec_data() == self.spec_data(),
    {
        match self {
            Gen3Partition::Dir(d) => Gen3Partition::Dir(d.clone()),
            Gen3Partition::Data(d) => Gen3Partition::Data(d.clone()),
            Gen3Partition::MalformedOrUnknown(d) => Gen3Partition::MalformedOrUnknown(d.clone()),
        }
    }
}

} // verus!
