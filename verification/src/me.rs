//! The ME region: its partition table, its partitions, and the operations a
//! clean pass performs on them.

use vstd::prelude::*;
use vstd::string::StringExecFns;

use crate::codec::{push_bytes, resize_bytes, spec_tag_name, tag_name};
use crate::dir::gen2::{Directory as Gen2Directory, Module};
use crate::dir::gen3::CodePartitionDirectory;
use crate::fpt::{spec_fpt_offset, spec_fpt_parsed, FPT, FPTEntry, MIN_FPT_SIZE};
use crate::part::gen2::Gen2Partition;
use crate::part::gen3::Gen3Partition;
use crate::part::generic::{ClearOptions, Partition};
use crate::part::partitions::{spec_entries, spec_entry_offset, Partitions};
use crate::ver::Version;
use crate::EMPTY;

verus! {

/// The broad hardware generation of the firmware.
#[derive(Clone, Copy, Debug, PartialEq, Eq, Structural)]
pub enum Generation {
    Gen1,
    Gen2,
    Gen3,
    Unknown,
}

/// The directories of a region, by generation.
#[derive(Debug)]
pub enum Directories {
    Gen2(Vec<Gen2Directory>),
    Gen3(Vec<CodePartitionDirectory>),
    Unknown,
}

/// A stretch of region bytes no table entry covers, kept for write-back.
#[derive(Debug)]
pub struct Data {
    pub offset: usize,
    pub data: Vec<u8>,
}

impl Clone for Data {
    /// An exact copy, field by field.
    fn clone(&self) -> (res: Self)
        ensures
            res.offset == self.offset,
            res.data@ == self.data@,
    {
        let mut data: Vec<u8> = Vec::new();
        push_bytes(&mut data, self.data.as_slice());
        proof {
            assert(data@ =~= self.data@);
        }
        Data { offset: self.offset, data }
    }
}

/// The partition table and everything it describes.
#[derive(Clone, Debug)]
pub struct FPTArea {
    pub fpt: FPT,
    pub partitions: Partitions,
    /// Region stretches between entries, preserved verbatim.
    pub non_covered: Vec<Data>,
    /// Byte length of the region at parse time.
    pub original_size: usize,
}

/// The first entry with a nonzero size and the lowest offset; among equals,
/// the earlier one.
pub open spec fn spec_first_sized_entry(entries: Seq<FPTEntry>) -> Option<FPTEntry>
    decreases entries.len(),
{
    if entries.len() == 0 {
        None
    } else {
        let rest = spec_first_sized_entry(entries.drop_last());
        let e = entries.last();
        if e.size == 0 {
            rest
        } else {
            match rest {
                None => Some(e),
                Some(b) => if spec_entry_offset(e) < spec_entry_offset(b) {
                    Some(e)
                } else {
                    Some(b)
                },
            }
        }
    }
}

/// The files of one Gen 2 directory: the name and bytes of every plain or
/// well-formed LZMA module whose range fits the partition.
pub open spec fn spec_gen2_files(mods: Seq<Module>, data: Seq<u8>) -> Seq<(Seq<char>, Seq<u8>)>
    decreases mods.len(),
{
    if mods.len() == 0 {
        Seq::empty()
    } else {
        let rest = spec_gen2_files(mods.drop_last(), data);
        let one = match mods.last() {
            Module::Uncompressed(e) => {
                if e.offset + e.size <= data.len() {
                    seq![
                        (
                            spec_tag_name(e.name@),
                            data.subrange(e.offset as int, e.offset + e.size),
                        ),
                    ]
                } else {
                    Seq::empty()
                }
            },
            Module::Lzma(Ok(e)) => {
                if e.offset + e.size <= data.len() {
                    seq![
                        (
                            spec_tag_name(e.name@),
                            data.subrange(e.offset as int, e.offset + e.size),
                        ),
                    ]
                } else {
                    Seq::empty()
                }
            },
            _ => Seq::empty(),
        };
        rest + one
    }
}

/// The files of one Gen 3 directory: the name and bytes of every entry whose
/// range fits the partition.
pub open spec fn spec_gen3_files(
    entries: Seq<crate::dir::gen3::CPDEntry>,
    data: Seq<u8>,
) -> Seq<(Seq<char>, Seq<u8>)>
    decreases entries.len(),
{
    if entries.len() == 0 {
        Seq::empty()
    } else {
        let rest = spec_gen3_files(entries.drop_last(), data);
        let e = entries.last();
        let o = (e.flags_and_offset.0 & 0x01ff_ffff) as int;
        if o + e.size <= data.len() {
            rest + seq![(spec_tag_name(e.name@), data.subrange(o, o + e.size))]
        } else {
            rest
        }
    }
}

/// Whether a relocation request must fail: no partition has any bytes, the
/// generation is unknown, a Gen 2 region has no directory partition, or the
/// move of the lowest partition is itself blocked.
pub open spec fn spec_relocation_blocked(parts: Partitions) -> bool {
    ||| spec_first_sized_entry(spec_entries(parts)) is None
    ||| parts is Unknown
    ||| (match parts {
        Partitions::Gen2(ps) => !spec_has_dir2(ps@),
        _ => false,
    })
    ||| (match spec_first_sized_entry(spec_entries(parts)) {
        Some(fm) => crate::part::partitions::spec_parts_reloc_blocked(
            parts,
            spec_tag_name(fm.name@),
            spec_new_offset(parts, fm),
        ),
        None => true,
    })
}

/// Whether some partition holds a parsed Gen 2 directory.
pub open spec fn spec_has_dir2(parts: Seq<Gen2Partition>) -> bool {
    exists|i: int| 0 <= i < parts.len() && (#[trigger] parts[i]) is Dir
}

/// The offsets and bytes of the preserved gaps, in order.
pub open spec fn spec_gap_views(gaps: Seq<Data>) -> Seq<(int, Seq<u8>)> {
    gaps.map_values(|d: Data| (d.offset as int, d.data@))
}

/// The gaps kept after a relocation into `[rs, re)`: exactly those whose
/// start and end both lie outside the relocated range.
pub open spec fn spec_kept_gap_views(gaps: Seq<Data>, rs: int, re: int) -> Seq<(int, Seq<u8>)>
    decreases gaps.len(),
{
    if gaps.len() == 0 {
        Seq::empty()
    } else {
        let rest = spec_kept_gap_views(gaps.drop_last(), rs, re);
        let d = gaps.last();
        let o = d.offset as int;
        let e = d.offset + d.data@.len();
        if (rs <= o < re) || (rs <= e < re) {
            rest
        } else {
            rest + seq![(o, d.data@)]
        }
    }
}

impl FPTArea {
    /// Clear out fully removable partitions and adjust the table: only
    /// `FTPR` stays listed, and the retained directory's removable ranges
    /// are zero-filled unless modules are kept.
    pub fn clean(&mut self, options: &ClearOptions)
        requires
            old(self).fpt.entries@.len() <= u32::MAX,
        ensures
            crate::fpt::spec_fpt_cleared(final(self).fpt, old(self).fpt),
            match old(self).partitions {
                Partitions::Gen2(parts) => (final(self).partitions) matches Partitions::Gen2(r)
                    && crate::part::gen2::spec_gen2_clean_rel(parts@, r@, options),
                Partitions::Gen3(parts) => (final(self).partitions) matches Partitions::Gen3(r)
                    && crate::part::gen3::spec_gen3_clean_rel(parts@, r@, options),
                Partitions::Unknown(parts) => (final(self).partitions) matches Partitions::Unknown(
                    r,
                ) && r@.len() == parts@.len() && (forall|i: int|
                    0 <= i < parts@.len() ==> (#[trigger] r@[i]).spec_entry()
                        == parts@[i].spec_entry() && r@[i].spec_data() == parts@[i].spec_data()),
            },
            final(self).non_covered == old(self).non_covered,
            final(self).original_size == old(self).original_size,
    {
        self.fpt.clear();
        self.partitions.clear(options);
    }

    /// The name and bytes of every module of the first directory partition
    /// with the given name; empty when there is none.
    pub fn files_for_dir(&self, part_name: &String) -> (r: Vec<(String, Vec<u8>)>)
        ensures
            match self.partitions {
                Partitions::Gen2(parts) => match spec_first_named_gen2(parts@, part_name@) {
                    Some(p) => (p matches Gen2Partition::Dir(d) ==> spec_files_eq(
                        r@,
                        spec_gen2_files(d.dir.modules@, d.data@),
                    )) && (!(p is Dir) ==> r@.len() == 0),
                    None => r@.len() == 0,
                },
                Partitions::Gen3(parts) => match spec_first_named_gen3(parts@, part_name@) {
                    Some(p) => (p matches Gen3Partition::Dir(d) ==> spec_files_eq(
                        r@,
                        spec_gen3_files(d.cpd.entries@, d.data@),
                    )) && (!(p is Dir) ==> r@.len() == 0),
                    None => r@.len() == 0,
                },
                Partitions::Unknown(_) => r@.len() == 0,
            },
    {
        let mut r: Vec<(String, Vec<u8>)> = Vec::new();
        match &self.partitions {
            Partitions::Gen2(parts) => {
                let n = parts.len();
                let mut i: usize = 0;
                while i < n
                    invariant
                        n == parts@.len(),
                        self.partitions matches Partitions::Gen2(ps) && ps@ == parts@,
                        i <= n,
                        r@.len() == 0,
                        spec_first_named_gen2(parts@.subrange(0, i as int), part_name@) is None,
                    decreases n - i,
                {
                    let name = parts[i].entry().name();
                    proof {
                        lemma_first_named_gen2_step(parts@, part_name@, i as int);
                    }
                    if name == *part_name {
                        match &parts[i] {
                            Gen2Partition::Dir(d) => {
                                let m = d.dir.modules.len();
                                let mut k: usize = 0;
                                proof {
                                    assert(d.dir.modules@.subrange(0, 0)
                                        =~= Seq::<Module>::empty());
                                }
                                while k < m
                                    invariant
                                        m == d.dir.modules@.len(),
                                        k <= m,
                                        spec_files_eq(
                                            r@,
                                            spec_gen2_files(
                                                d.dir.modules@.subrange(0, k as int),
                                                d.data@,
                                            ),
                                        ),
                                    decreases m - k,
                                {
                                    let ghost pre = d.dir.modules@.subrange(0, k + 1);
                                    let ghost prev_r = r@;
                                    proof {
                                        assert(pre.drop_last() =~= d.dir.modules@.subrange(
                                            0,
                                            k as int,
                                        ));
                                        assert(pre.last() == d.dir.modules@[k as int]);
                                    }
                                    match &d.dir.modules[k] {
                                        Module::Uncompressed(e) => {
                                            push_file(&mut r, &e.name, e.offset, e.size, &d.data);
                                        },
                                        Module::Lzma(Ok(e)) => {
                                            push_file(&mut r, &e.name, e.offset, e.size, &d.data);
                                        },
                                        _ => {},
                                    }
                                    proof {
                                        let rest = spec_gen2_files(
                                            d.dir.modules@.subrange(0, k as int),
                                            d.data@,
                                        );
                                        let whole = spec_gen2_files(pre, d.data@);
                                        assert(forall|t: int|
                                            0 <= t < rest.len() ==> whole[t] == rest[t]);
                                        assert forall|t: int| 0 <= t < prev_r.len() implies r@[t]
                                            == prev_r[t] by {
                                            if r@.len() == prev_r.len() {
                                            } else {
                                                assert(r@.subrange(0, prev_r.len() as int)[t]
                                                    == r@[t]);
                                            }
                                        }
                                        assert(r@.len() == whole.len());
                                        assert forall|t: int| 0 <= t < r@.len() implies ((
                                        #[trigger] r@[t]).0@ == whole[t].0 && r@[t].1@
                                            == whole[t].1) by {
                                            if t < prev_r.len() {
                                                assert(r@[t] == prev_r[t]);
                                                assert((prev_r[t]).0@ == rest[t].0 && (
                                                prev_r[t]).1@ == rest[t].1);
                                                assert(whole[t] == rest[t]);
                                            } else {
                                                assert(r@[t] == r@.last());
                                            }
                                        }
                                        assert(spec_files_eq(r@, whole));
                                    }
                                    k = k + 1;
                                }
                                proof {
                                    assert(d.dir.modules@.subrange(0, m as int)
                                        =~= d.dir.modules@);
                                }
                                return r;
                            },
                            _ => {
                                return r;
                            },
                        }
                    }
                    i = i + 1;
                }
                proof {
                    assert(parts@.subrange(0, n as int) =~= parts@);
                }
                r
            },
            Partitions::Gen3(parts) => {
                let n = parts.len();
                let mut i: usize = 0;
                while i < n
                    invariant
                        n == parts@.len(),
                        self.partitions matches Partitions::Gen3(ps) && ps@ == parts@,
                        i <= n,
                        r@.len() == 0,
                        spec_first_named_gen3(parts@.subrange(0, i as int), part_name@) is None,
                    decreases n - i,
                {
                    let name = parts[i].entry().name();
                    proof {
                        lemma_first_named_gen3_step(parts@, part_name@, i as int);
                    }
                    if name == *part_name {
                        match &parts[i] {
                            Gen3Partition::Dir(d) => {
                                let m = d.cpd.entries.len();
                                let mut k: usize = 0;
                                proof {
                                    assert(d.cpd.entries@.subrange(0, 0)
                                        =~= Seq::<crate::dir::gen3::CPDEntry>::empty());
                                }
                                while k < m
                                    invariant
                                        m == d.cpd.entries@.len(),
                                        k <= m,
                                        spec_files_eq(
                                            r@,
                                            spec_gen3_files(
                                                d.cpd.entries@.subrange(0, k as int),
                                                d.data@,
                                            ),
                                        ),
                                    decreases m - k,
                                {
                                    let ghost pre = d.cpd.entries@.subrange(0, k + 1);
                                    let ghost prev_r = r@;
                                    proof {
                                        assert(pre.drop_last() =~= d.cpd.entries@.subrange(
                                            0,
                                            k as int,
                                        ));
                                        assert(pre.last() == d.cpd.entries@[k as int]);
                                    }
                                    let e = d.cpd.entries[k];
                                    push_file(
                                        &mut r,
                                        &e.name,
                                        e.flags_and_offset.0 & 0x01ff_ffff,
                                        e.size,
                                        &d.data,
                                    );
                                    proof {
                                        let rest = spec_gen3_files(
                                            d.cpd.entries@.subrange(0, k as int),
                                            d.data@,
                                        );
                                        let whole = spec_gen3_files(pre, d.data@);
                                        assert(forall|t: int|
                                            0 <= t < rest.len() ==> whole[t] == rest[t]);
                                        assert forall|t: int| 0 <= t < prev_r.len() implies r@[t]
                                            == prev_r[t] by {
                                            if r@.len() == prev_r.len() {
                                            } else {
                                                assert(r@.subrange(0, prev_r.len() as int)[t]
                                                    == r@[t]);
                                            }
                                        }
                                        assert(r@.len() == whole.len());
                                        assert forall|t: int| 0 <= t < r@.len() implies ((
                                        #[trigger] r@[t]).0@ == whole[t].0 && r@[t].1@
                                            == whole[t].1) by {
                                            if t < prev_r.len() {
                                                assert(r@[t] == prev_r[t]);
                                                assert((prev_r[t]).0@ == rest[t].0 && (
                                                prev_r[t]).1@ == rest[t].1);
                                                assert(whole[t] == rest[t]);
                                            } else {
                                                assert(r@[t] == r@.last());
                                            }
                                        }
                                        assert(spec_files_eq(r@, whole));
                                    }
                                    k = k + 1;
                                }
                                proof {
                                    assert(d.cpd.entries@.subrange(0, m as int)
                                        =~= d.cpd.entries@);
                                }
                                return r;
                            },
                            _ => {
                                return r;
                            },
                        }
                    }
                    i = i + 1;
                }
                proof {
                    assert(parts@.subrange(0, n as int) =~= parts@);
                }
                r
            },
            Partitions::Unknown(_) => r,
        }
    }

    /// The signature verdict of every directory partition, by name.
    pub fn check_dir_sigs(&self) -> (r: Vec<(String, Result<(), String>)>)
        ensures
            match self.partitions {
                Partitions::Gen2(parts) => spec_sig_results_eq(r@, spec_dir_sigs_gen2(parts@)),
                Partitions::Gen3(parts) => spec_sig_results_eq(r@, spec_dir_sigs_gen3(parts@)),
                Partitions::Unknown(_) => r@.len() == 0,
            },
    {
        let mut r: Vec<(String, Result<(), String>)> = Vec::new();
        match &self.partitions {
            Partitions::Gen2(parts) => {
                let n = parts.len();
                let mut i: usize = 0;
                while i < n
                    invariant
                        n == parts@.len(),
                        i <= n,
                        spec_sig_results_eq(
                            r@,
                            spec_dir_sigs_gen2(parts@.subrange(0, i as int)),
                        ),
                    decreases n - i,
                {
                    let ghost pre = parts@.subrange(0, i + 1);
                    proof {
                        assert(pre.drop_last() =~= parts@.subrange(0, i as int));
                        assert(pre.last() == parts@[i as int]);
                    }
                    match &parts[i] {
                        Gen2Partition::Dir(d) => {
                            let name = d.entry.name();
                            let verdict = d.check_signature();
                            r.push((name, verdict));
                        },
                        _ => {},
                    }
                    i = i + 1;
                }
                proof {
                    assert(parts@.subrange(0, n as int) =~= parts@);
                }
            },
            Partitions::Gen3(parts) => {
                let n = parts.len();
                let mut i: usize = 0;
                while i < n
                    invariant
                        n == parts@.len(),
                        i <= n,
                        spec_sig_results_eq(
                            r@,
                            spec_dir_sigs_gen3(parts@.subrange(0, i as int)),
                        ),
                    decreases n - i,
                {
                    let ghost pre = parts@.subrange(0, i + 1);
                    proof {
                        assert(pre.drop_last() =~= parts@.subrange(0, i as int));
                        assert(pre.last() == parts@[i as int]);
                    }
                    match &parts[i] {
                        Gen3Partition::Dir(d) => {
                            let name = d.entry.name();
                            let verdict = d.check_signature();
                            r.push((name, verdict));
                        },
                        _ => {},
                    }
                    i = i + 1;
                }
                proof {
                    assert(parts@.subrange(0, n as int) =~= parts@);
                }
            },
            Partitions::Unknown(_) => {},
        }
        r
    }

    /// Whether some partition is named `FTPR`; a region whose generation is
    /// unknown reports an error.
    pub fn check_ftpr_presence(&self) -> (r: Result<(), String>)
        ensures
            (r is Ok) <==> (!(self.partitions is Unknown) && exists|i: int|
                0 <= i < spec_entries(self.partitions).len() && crate::fpt::spec_is_ftpr(
                    #[trigger] spec_entries(self.partitions)[i],
                )),
    {
        if let Partitions::Unknown(_) = &self.partitions {
            return Err(String::from_str("not recognized as ME generation 2 or 3"));
        }
        let entries = self.partitions.get_entries();
        let n = entries.len();
        let mut i: usize = 0;
        while i < n
            invariant
                n == entries@.len(),
                entries@ == spec_entries(self.partitions),
                !(self.partitions is Unknown),
                i <= n,
                forall|j: int| 0 <= j < i ==> !crate::fpt::spec_is_ftpr(#[trigger] entries@[j]),
            decreases n - i,
        {
            if entries[i].is_ftpr() {
                proof {
                    assert(crate::fpt::spec_is_ftpr(spec_entries(self.partitions)[i as int]));
                }
                return Ok(());
            }
            i = i + 1;
        }
        Err(String::from_str("not found"))
    }

    /// Move the lowest partition with any bytes down to the smallest legal
    /// offset, update its table entry, and drop preserved gap bytes its new
    /// range overlaps. Gen 3 moves to the lowest of its old offset and the
    /// table's end; Gen 2 moves to the first page boundary past the table,
    /// where its rebased chunk table stays self-consistent. Fails exactly
    /// when no partition has any bytes, the generation is unknown, a Gen 2
    /// region has no directory partition to seed the offset, or the move
    /// itself is blocked.
    pub fn relocate_partitions(&mut self) -> (r: Result<(), String>)
        ensures
            (r is Err) <==> spec_relocation_blocked(old(self).partitions),
            final(self).fpt.pre_header@ == old(self).fpt.pre_header@,
            final(self).fpt.original_size == old(self).fpt.original_size,
            final(self).original_size == old(self).original_size,
            r is Ok ==> (spec_first_sized_entry(spec_entries(old(self).partitions)) matches Some(
                fm,
            ) && {
                let new_offset = spec_new_offset(old(self).partitions, fm);
                &&& crate::part::partitions::spec_parts_relocated(
                    final(self).partitions,
                    old(self).partitions,
                    spec_tag_name(fm.name@),
                    new_offset,
                )
                &&& spec_gap_views(final(self).non_covered@) == spec_kept_gap_views(
                    old(self).non_covered@,
                    new_offset as int,
                    new_offset + fm.size,
                )
                &&& final(self).fpt.entries@.len() == old(self).fpt.entries@.len()
                &&& forall|j: int|
                    0 <= j < old(self).fpt.entries@.len()
                        ==> #[trigger] final(self).fpt.entries@[j] == (if spec_tag_name(
                        old(self).fpt.entries@[j].name@,
                    ) == spec_tag_name(fm.name@) {
                        FPTEntry { offset: new_offset, ..old(self).fpt.entries@[j] }
                    } else {
                        old(self).fpt.entries@[j]
                    })
            }),
    {
        let entries = self.partitions.get_entries();
        let n = entries.len();
        let ghost es = spec_entries(self.partitions);
        let mut first: Option<FPTEntry> = None;
        let mut i: usize = 0;
        proof {
            assert(es.subrange(0, 0) =~= Seq::<FPTEntry>::empty());
        }
        while i < n
            invariant
                n == entries@.len() == es.len(),
                entries@ == es,
                i <= n,
                first == spec_first_sized_entry(es.subrange(0, i as int)),
            decreases n - i,
        {
            let e = entries[i];
            if e.size != 0 {
                match first {
                    None => {
                        first = Some(e);
                    },
                    Some(b) => {
                        if e.offset() < b.offset() {
                            first = Some(e);
                        }
                    },
                }
            }
            proof {
                let pre = es.subrange(0, i + 1);
                assert(pre.drop_last() =~= es.subrange(0, i as int));
                assert(pre.last() == es[i as int]);
            }
            i = i + 1;
        }
        proof {
            assert(es.subrange(0, n as int) =~= es);
        }
        let fm = match first {
            Some(f) => f,
            None => {
                return Err(String::from_str("no FPT partitions found"));
            },
        };
        let new_offset: u32 = match &self.partitions {
            Partitions::Gen2(parts) => {
                // A directory partition must seed the calculation; its chunk
                // descriptors address the region.
                let mut found: Option<u32> = None;
                let m = parts.len();
                let mut k: usize = 0;
                while k < m && found.is_none()
                    invariant
                        m == parts@.len(),
                        k <= m,
                        found matches Some(o) ==> o == 0x1000u32,
                        found is Some ==> spec_has_dir2(parts@),
                        found is None ==> (forall|l: int|
                            0 <= l < k ==> !((#[trigger] parts@[l]) is Dir)),
                    decreases m - k,
                {
                    match &parts[k] {
                        Gen2Partition::Dir(d) => {
                            match d.dir.calc_new_offset(MIN_FPT_SIZE as u32) {
                                Ok(o) => {
                                    found = Some(o);
                                },
                                Err(_) => {
                                    // The smallest legal offset always has a
                                    // page boundary above it.
                                    proof {
                                        assert(false);
                                    }
                                },
                            }
                            proof {
                                assert(parts@[k as int] is Dir);
                                assert(spec_has_dir2(parts@));
                            }
                        },
                        _ => {},
                    }
                    k = k + 1;
                }
                match found {
                    Some(o) => o,
                    None => {
                        proof {
                            assert(!spec_has_dir2(parts@));
                        }
                        return Err(String::from_str("no directory partition found"));
                    },
                }
            },
            Partitions::Gen3(_) => {
                let o = fm.offset();
                if o < MIN_FPT_SIZE {
                    o as u32
                } else {
                    MIN_FPT_SIZE as u32
                }
            },
            Partitions::Unknown(_) => {
                return Err(String::from_str("unsupported generation"));
            },
        };
        proof {
            assert(new_offset == spec_new_offset(old(self).partitions, fm));
        }
        let name = tag_name(&fm.name);
        if let Err(e) = self.partitions.relocate(&name, new_offset) {
            return Err(e);
        }
        // Preserved gap bytes that the relocated range now overlaps are
        // stale; drop them.
        let reloc_start = new_offset as u128;
        let reloc_end = new_offset as u128 + fm.size as u128;
        let ghost rs = new_offset as int;
        let ghost re = new_offset + fm.size;
        let nc = self.non_covered.len();
        let mut kept: Vec<Data> = Vec::new();
        let mut k: usize = 0;
        while k < nc
            invariant
                nc == self.non_covered@.len(),
                k <= nc,
                rs == new_offset as int,
                re == new_offset + fm.size,
                reloc_start == rs,
                reloc_end == re,
                spec_gap_views(kept@) == spec_kept_gap_views(
                    self.non_covered@.subrange(0, k as int),
                    rs,
                    re,
                ),
            decreases nc - k,
        {
            let d = &self.non_covered[k];
            let o = d.offset as u128;
            let e = d.offset as u128 + d.data.len() as u128;
            let ghost pre = self.non_covered@.subrange(0, k + 1);
            proof {
                assert(pre.drop_last() =~= self.non_covered@.subrange(0, k as int));
                assert(pre.last() == self.non_covered@[k as int]);
            }
            let ghost prev_views = spec_gap_views(kept@);
            if (reloc_start <= o && o < reloc_end) || (reloc_start <= e && e < reloc_end) {
                // stale
                proof {
                    let ld = pre.last();
                    assert(ld == self.non_covered@[k as int]);
                    assert(o == ld.offset as u128 && e == ld.offset as u128 + ld.data@.len());
                    assert(((rs <= ld.offset as int) && ((ld.offset as int) < re)) || ((rs
                        <= ld.offset + ld.data@.len()) && (ld.offset + ld.data@.len() < re)));
                    assert(spec_kept_gap_views(pre, rs, re) == spec_kept_gap_views(
                        self.non_covered@.subrange(0, k as int),
                        rs,
                        re,
                    ));
                }
            } else {
                let c = d.clone();
                let ghost co = c.offset as int;
                let ghost cd = c.data@;
                kept.push(c);
                proof {
                    assert(spec_gap_views(kept@) =~= prev_views + seq![(co, cd)]);
                    assert(spec_kept_gap_views(pre, rs, re) == spec_kept_gap_views(
                        self.non_covered@.subrange(0, k as int),
                        rs,
                        re,
                    ) + seq![
                        (
                            self.non_covered@[k as int].offset as int,
                            self.non_covered@[k as int].data@,
                        ),
                    ]);
                }
            }
            proof {
                assert(spec_gap_views(kept@) =~= spec_kept_gap_views(pre, rs, re));
            }
            k = k + 1;
        }
        proof {
            assert(self.non_covered@.subrange(0, nc as int) =~= self.non_covered@);
        }
        self.non_covered = kept;
        // Update the table entry of the moved partition.
        let en = self.fpt.entries.len();
        let mut j: usize = 0;
        while j < en
            invariant
                en == self.fpt.entries@.len() == old(self).fpt.entries@.len(),
                j <= en,
                self.fpt.pre_header@ == old(self).fpt.pre_header@,
                self.fpt.header == old(self).fpt.header,
                self.fpt.original_size == old(self).fpt.original_size,
                self.original_size == old(self).original_size,
                name@ == spec_tag_name(fm.name@),
                spec_first_sized_entry(spec_entries(old(self).partitions)) == Some(fm),
                new_offset == spec_new_offset(old(self).partitions, fm),
                crate::part::partitions::spec_parts_relocated(
                    self.partitions,
                    old(self).partitions,
                    spec_tag_name(fm.name@),
                    new_offset,
                ),
                spec_gap_views(self.non_covered@) == spec_kept_gap_views(
                    old(self).non_covered@,
                    new_offset as int,
                    new_offset + fm.size,
                ),
                forall|l: int|
                    0 <= l < j ==> #[trigger] self.fpt.entries@[l] == (if spec_tag_name(
                        old(self).fpt.entries@[l].name@,
                    ) == spec_tag_name(fm.name@) {
                        FPTEntry { offset: new_offset, ..old(self).fpt.entries@[l] }
                    } else {
                        old(self).fpt.entries@[l]
                    }),
                forall|l: int|
                    j <= l < en ==> #[trigger] self.fpt.entries@[l] == old(self).fpt.entries@[l],
        decreases en - j,
        {
            let ename = self.fpt.entries[j].name();
            if ename == name {
                let mut e = self.fpt.entries[j];
                e.offset = new_offset;
                self.fpt.entries[j] = e;
            }
            j = j + 1;
        }
        Ok(())
    }

    /// Rebuild the region: the partitions written at their offsets, padded
    /// to a page boundary, the preserved gaps restored, and the re-encoded
    /// table written over the start.
    pub fn to_vec(&self) -> (r: Result<Vec<u8>, String>)
        ensures
            r matches Ok(v) ==> v@ == spec_fpt_area_bytes(*self),
            (r is Ok) <==> (crate::part::partitions::spec_last_entry(
                spec_entries(self.partitions),
            ) matches Some(last) && spec_entry_offset(last) + last.size + 4095 <= usize::MAX),
    {
        let mut res = match self.partitions.to_vec() {
            Ok(v) => v,
            Err(e) => {
                return Err(e);
            },
        };
        // Round to the next page boundary.
        let rl = res.len();
        let ghost views = crate::part::partitions::spec_part_views(self.partitions);
        let ghost last_e = crate::part::partitions::spec_last_entry(
            spec_entries(self.partitions),
        )->0;
        let ghost size0 = spec_entry_offset(last_e) + last_e.size;
        proof {
            crate::part::partitions::lemma_copy_parts_len(
                views,
                Seq::new(size0 as nat, |i: int| EMPTY),
            );
            assert(rl == size0);
        }
        if rl > usize::MAX - 4095 {
            return Err(String::from_str("region size does not fit this machine"));
        }
        let min_size = (rl + 4095) / 4096 * 4096;
        resize_bytes(&mut res, min_size, EMPTY);
        // Restore the stretches no entry covers.
        let nc = self.non_covered.len();
        let ghost padded = res@;
        let mut k: usize = 0;
        while k < nc
            invariant
                nc == self.non_covered@.len(),
                k <= nc,
                res@ == spec_restore_gaps(self.non_covered@.subrange(0, k as int), padded),
            decreases nc - k,
        {
            let ghost pre = self.non_covered@.subrange(0, k + 1);
            proof {
                assert(pre.drop_last() =~= self.non_covered@.subrange(0, k as int));
                assert(pre.last() == self.non_covered@[k as int]);
            }
            let d = &self.non_covered[k];
            let dl = d.data.len();
            let rlen = res.len();
            if dl <= rlen && d.offset < rlen - dl {
                let b = crate::codec::read_vec(d.data.as_slice(), 0, dl);
                crate::codec::splice_bytes(&mut res, d.offset, b.as_slice());
            }
            k = k + 1;
        }
        proof {
            assert(self.non_covered@.subrange(0, nc as int) =~= self.non_covered@);
        }
        // The table is not covered by any entry of its own: write it last.
        let ghost restored = res@;
        let raw_fpt = self.fpt.clone().to_vec();
        proof {
            assert(raw_fpt@ == spec_fpt_vec_bytes(self.fpt));
        }
        let s = raw_fpt.len();
        let rlen = res.len();
        if s <= rlen {
            crate::codec::splice_bytes(&mut res, 0, raw_fpt.as_slice());
            proof {
                assert(res@.subrange(0, 0) =~= Seq::<u8>::empty());
            }
        }
        proof {
            let parts_bytes = crate::part::partitions::spec_copy_parts(
                views,
                Seq::new(size0 as nat, |i: int| EMPTY),
            );
            let min_sz = ((size0 + 4095) / 4096) * 4096;
            assert(padded =~= (if parts_bytes.len() <= min_sz {
                parts_bytes + Seq::new((min_sz - parts_bytes.len()) as nat, |i: int| EMPTY)
            } else {
                parts_bytes.subrange(0, min_sz as int)
            }));
            assert(res@ =~= spec_fpt_area_bytes(*self));
        }
        Ok(res)
    }
}

/// The offset a relocation moves the lowest partition to.
pub open spec fn spec_new_offset(parts: Partitions, fm: FPTEntry) -> u32 {
    match parts {
        Partitions::Gen2(_) => 0x1000u32,
        Partitions::Gen3(_) => if spec_entry_offset(fm) < MIN_FPT_SIZE as int {
            (fm.offset as usize & 0x003f_ffff) as u32
        } else {
            MIN_FPT_SIZE as u32
        },
        Partitions::Unknown(_) => 0u32,
    }
}

/// A buffer after the preserved gaps are written back, in order; a gap that
/// does not fit is skipped.
pub open spec fn spec_restore_gaps(gaps: Seq<Data>, acc: Seq<u8>) -> Seq<u8>
    decreases gaps.len(),
{
    if gaps.len() == 0 {
        acc
    } else {
        let prev = spec_restore_gaps(gaps.drop_last(), acc);
        let d = gaps.last();
        if d.data@.len() <= prev.len() && d.offset < prev.len() - d.data@.len() {
            prev.subrange(0, d.offset as int) + d.data@ + prev.subrange(
                d.offset + d.data@.len(),
                prev.len() as int,
            )
        } else {
            prev
        }
    }
}

/// The preserved gap records a parse builds from the uncovered ranges: the
/// bytes of each range that lies inside the region, an empty record for one
/// that does not, and nothing for a range starting past the machine's
/// address width.
pub open spec fn spec_gaps_to_data(rs: Seq<crate::RemovableRange>, data: Seq<u8>) -> Seq<
    (int, Seq<u8>),
>
    decreases rs.len(),
{
    if rs.len() == 0 {
        Seq::empty()
    } else {
        let rest = spec_gaps_to_data(rs.drop_last(), data);
        let rg = rs.last();
        if rg.start < rg.end && rg.end <= data.len() {
            rest + seq![
                (rg.start as int, data.subrange(rg.start as int, rg.end as int)),
            ]
        } else if rg.start <= usize::MAX {
            rest + seq![(rg.start as int, Seq::<u8>::empty())]
        } else {
            rest
        }
    }
}

/// Restoring the gaps keeps the buffer length.
pub proof fn lemma_restore_gaps_len(gaps: Seq<Data>, acc: Seq<u8>)
    ensures
        spec_restore_gaps(gaps, acc).len() == acc.len(),
    decreases gaps.len(),
{
    if gaps.len() > 0 {
        lemma_restore_gaps_len(gaps.drop_last(), acc);
    }
}

/// The rebuilt region is exactly as long as the page-rounded end of the
/// last entry.
pub proof fn lemma_fpt_area_bytes_len(a: FPTArea)
    requires
        crate::part::partitions::spec_last_entry(spec_entries(a.partitions)) is Some,
    ensures
        ({
            let last = crate::part::partitions::spec_last_entry(spec_entries(a.partitions))->0;
            spec_fpt_area_bytes(a).len() == ((spec_entry_offset(last) + last.size + 4095) / 4096)
                * 4096
        }),
{
    let last = crate::part::partitions::spec_last_entry(spec_entries(a.partitions))->0;
    let size = spec_entry_offset(last) + last.size;
    crate::part::partitions::lemma_copy_parts_len(
        crate::part::partitions::spec_part_views(a.partitions),
        Seq::new(size as nat, |i: int| EMPTY),
    );
    let min_size = ((size + 4095) / 4096) * 4096;
    lemma_restore_gaps_len(
        a.non_covered@,
        spec_fpt_area_bytes_padded(a),
    );
}

/// The rebuilt region before the gaps and the table are written back.
pub open spec fn spec_fpt_area_bytes_padded(a: FPTArea) -> Seq<u8> {
    let last = crate::part::partitions::spec_last_entry(spec_entries(a.partitions))->0;
    let size = spec_entry_offset(last) + last.size;
    let parts = crate::part::partitions::spec_copy_parts(
        crate::part::partitions::spec_part_views(a.partitions),
        Seq::new(size as nat, |i: int| EMPTY),
    );
    let min_size = ((size + 4095) / 4096) * 4096;
    if parts.len() <= min_size {
        parts + Seq::new((min_size - parts.len()) as nat, |i: int| EMPTY)
    } else {
        parts.subrange(0, min_size as int)
    }
}

/// The bytes `FPTArea::to_vec` rebuilds: partitions copied at their offsets,
/// padded to a page boundary, gaps restored, and the table written over the
/// start.
pub open spec fn spec_fpt_area_bytes(a: FPTArea) -> Seq<u8> {
    let last = crate::part::partitions::spec_last_entry(spec_entries(a.partitions))->0;
    let size = spec_entry_offset(last) + last.size;
    let parts = crate::part::partitions::spec_copy_parts(
        crate::part::partitions::spec_part_views(a.partitions),
        Seq::new(size as nat, |i: int| EMPTY),
    );
    let min_size = ((size + 4095) / 4096) * 4096;
    let padded = if parts.len() <= min_size {
        parts + Seq::new((min_size - parts.len()) as nat, |i: int| EMPTY)
    } else {
        parts.subrange(0, min_size as int)
    };
    let restored = spec_restore_gaps(a.non_covered@, padded);
    let fpt_bytes = spec_fpt_vec_bytes(a.fpt);
    if fpt_bytes.len() <= restored.len() {
        fpt_bytes + restored.subrange(fpt_bytes.len() as int, restored.len() as int)
    } else {
        restored
    }
}

/// The bytes `FPT::to_vec` encodes.
pub open spec fn spec_fpt_vec_bytes(fpt: FPT) -> Seq<u8> {
    let base = fpt.pre_header@ + crate::fpt::fpt_header_bytes(fpt.header)
        + crate::fpt::fpt_entries_bytes(fpt.entries@);
    if base.len() <= fpt.original_size {
        base + Seq::new((fpt.original_size - base.len()) as nat, |i: int| EMPTY)
    } else {
        base.subrange(0, fpt.original_size as int)
    }
}

/// Whether two file lists hold the same names and bytes.
pub open spec fn spec_files_eq(a: Seq<(String, Vec<u8>)>, b: Seq<(Seq<char>, Seq<u8>)>) -> bool {
    a.len() == b.len() && forall|i: int|
        0 <= i < a.len() ==> (#[trigger] a[i]).0@ == b[i].0 && a[i].1@ == b[i].1
}

/// Whether two signature verdict lists agree, name for name.
pub open spec fn spec_sig_results_eq(
    a: Seq<(String, Result<(), String>)>,
    b: Seq<(Seq<char>, bool)>,
) -> bool {
    a.len() == b.len() && forall|i: int|
        0 <= i < a.len() ==> (#[trigger] a[i]).0@ == b[i].0 && ((a[i].1 is Ok) == b[i].1)
}

/// The signature verdicts of the Gen 2 directory partitions, in order.
pub open spec fn spec_dir_sigs_gen2(parts: Seq<Gen2Partition>) -> Seq<(Seq<char>, bool)>
    decreases parts.len(),
{
    if parts.len() == 0 {
        Seq::empty()
    } else {
        let rest = spec_dir_sigs_gen2(parts.drop_last());
        match parts.last() {
            Gen2Partition::Dir(d) => rest + seq![
                (
                    spec_tag_name(d.entry.name@),
                    crate::dir::man::spec_manifest_verified(d.dir.manifest),
                ),
            ],
            _ => rest,
        }
    }
}

/// The signature verdicts of the Gen 3 directory partitions, in order.
pub open spec fn spec_dir_sigs_gen3(parts: Seq<Gen3Partition>) -> Seq<(Seq<char>, bool)>
    decreases parts.len(),
{
    if parts.len() == 0 {
        Seq::empty()
    } else {
        let rest = spec_dir_sigs_gen3(parts.drop_last());
        match parts.last() {
            Gen3Partition::Dir(d) => rest + seq![
                (
                    spec_tag_name(d.entry.name@),
                    (d.cpd.manifest matches Ok(m) && crate::dir::man::spec_manifest_verified(m)),
                ),
            ],
            _ => rest,
        }
    }
}

/// The first partition whose entry carries the given name.
pub open spec fn spec_first_named_gen2(parts: Seq<Gen2Partition>, nm: Seq<char>) -> Option<
    Gen2Partition,
>
    decreases parts.len(),
{
    if parts.len() == 0 {
        None
    } else if spec_tag_name(parts[0].spec_entry().name@) == nm {
        Some(parts[0])
    } else {
        spec_first_named_gen2(parts.drop_first(), nm)
    }
}

/// The first partition whose entry carries the given name.
pub open spec fn spec_first_named_gen3(parts: Seq<Gen3Partition>, nm: Seq<char>) -> Option<
    Gen3Partition,
>
    decreases parts.len(),
{
    if parts.len() == 0 {
        None
    } else if spec_tag_name(parts[0].spec_entry().name@) == nm {
        Some(parts[0])
    } else {
        spec_first_named_gen3(parts.drop_first(), nm)
    }
}

/// Scanning one partition forward: either the name matches now, settling the
/// search, or the search stays open.
proof fn lemma_first_named_gen2_step(parts: Seq<Gen2Partition>, nm: Seq<char>, k: int)
    requires
        0 <= k < parts.len(),
        spec_first_named_gen2(parts.subrange(0, k), nm) is None,
    ensures
        spec_tag_name(parts[k].spec_entry().name@) == nm ==> spec_first_named_gen2(parts, nm)
            == Some(parts[k]),
        spec_tag_name(parts[k].spec_entry().name@) != nm ==> spec_first_named_gen2(
            parts.subrange(0, k + 1),
            nm,
        ) is None,
    decreases k,
{
    reveal_with_fuel(spec_first_named_gen2, 3);
    let pre = parts.subrange(0, k);
    let cur = parts.subrange(0, k + 1);
    if k == 0 {
        assert(cur.len() == 1);
        assert(cur[0] == parts[0]);
        assert(cur.drop_first() =~= Seq::<Gen2Partition>::empty());
    } else {
        assert(pre[0] == parts[0]);
        assert(cur[0] == parts[0]);
        assert(spec_tag_name(parts[0].spec_entry().name@) != nm);
        let rest = parts.drop_first();
        assert(pre.drop_first() =~= rest.subrange(0, k - 1));
        assert(cur.drop_first() =~= rest.subrange(0, k));
        assert(rest[k - 1] == parts[k]);
        lemma_first_named_gen2_step(rest, nm, k - 1);
    }
}

/// Scanning one partition forward: either the name matches now, settling the
/// search, or the search stays open.
proof fn lemma_first_named_gen3_step(parts: Seq<Gen3Partition>, nm: Seq<char>, k: int)
    requires
        0 <= k < parts.len(),
        spec_first_named_gen3(parts.subrange(0, k), nm) is None,
    ensures
        spec_tag_name(parts[k].spec_entry().name@) == nm ==> spec_first_named_gen3(parts, nm)
            == Some(parts[k]),
        spec_tag_name(parts[k].spec_entry().name@) != nm ==> spec_first_named_gen3(
            parts.subrange(0, k + 1),
            nm,
        ) is None,
    decreases k,
{
    reveal_with_fuel(spec_first_named_gen3, 3);
    let pre = parts.subrange(0, k);
    let cur = parts.subrange(0, k + 1);
    if k == 0 {
        assert(cur.len() == 1);
        assert(cur[0] == parts[0]);
        assert(cur.drop_first() =~= Seq::<Gen3Partition>::empty());
    } else {
        assert(pre[0] == parts[0]);
        assert(cur[0] == parts[0]);
        assert(spec_tag_name(parts[0].spec_entry().name@) != nm);
        let rest = parts.drop_first();
        assert(pre.drop_first() =~= rest.subrange(0, k - 1));
        assert(cur.drop_first() =~= rest.subrange(0, k));
        assert(rest[k - 1] == parts[k]);
        lemma_first_named_gen3_step(rest, nm, k - 1);
    }
}

/// Append one file entry: the module's name and its bytes, when its range
/// fits the partition.
fn push_file(
    r: &mut Vec<(String, Vec<u8>)>,
    name: &[u8],
    offset: u32,
    size: u32,
    data: &Vec<u8>,
)
    ensures
        offset + size <= data@.len() ==> (final(r)@.len() == old(r)@.len() + 1
            && final(r)@.subrange(0, old(r)@.len() as int) == old(r)@
            && (final(r)@.last()).0@ == spec_tag_name(name@)
            && (final(r)@.last()).1@ == data@.subrange(offset as int, offset + size)),
        offset + size > data@.len() ==> final(r)@ == old(r)@,
{
    let o = offset as usize;
    let s = size as usize;
    let dl = data.len();
    if s <= dl && o <= dl - s {
        let nm = tag_name(name);
        let bytes = crate::codec::read_vec(data.as_slice(), o, s);
        r.push((nm, bytes));
    }
}

/// A parsed ME firmware region.
#[derive(Clone, Debug)]
pub struct ME {
    /// Where the region starts in the image.
    pub base: usize,
    pub generation: Generation,
    pub version: Option<Version>,
    pub fpt_area: FPTArea,
    /// Directories found outside the table's entries.
    pub cpds: Vec<CodePartitionDirectory>,
}

/// Whether a directory parses somewhere in the given bytes.
pub open spec fn spec_cpd_found(d: CodePartitionDirectory, data: Seq<u8>) -> bool {
    exists|o: int|
        0 <= o <= data.len() && #[trigger] crate::dir::gen3::spec_cpd_parsed(d, data.skip(o), o)
}

impl ME {
    /// Probe the region for a partition table and build the whole model:
    /// the table, the partitions, the preserved gaps, and any directories
    /// found outside the table.
    pub fn parse(data: &[u8], base: usize, debug: bool) -> (r: Option<Result<ME, String>>)
        ensures
            (r is None) <==> (spec_fpt_offset(data@) is None),
            (r matches Some(Ok(_))) <==> crate::fpt::spec_fpt_ok(data@),
            r matches Some(Ok(me)) ==> {
                &&& me.base == base
                &&& spec_fpt_parsed(me.fpt_area.fpt, data@)
                &&& me.fpt_area.original_size == data@.len()
                &&& spec_entries(me.fpt_area.partitions).len()
                    == me.fpt_area.fpt.entries@.len()
                &&& (me.generation == Generation::Gen2 || me.generation == Generation::Gen3)
                &&& (me.generation == Generation::Gen3) == crate::part::partitions::spec_is_gen3(
                    me.fpt_area.fpt.entries@,
                    data@,
                )
                &&& exists|rs: Seq<crate::RemovableRange>|
                    #[trigger] crate::part::partitions::spec_gaps_of(
                        rs,
                        spec_entries(me.fpt_area.partitions),
                    ) && spec_gap_views(me.fpt_area.non_covered@) == spec_gaps_to_data(rs, data@)
            },
    {
        let parsed = match FPT::parse(data) {
            Some(p) => p,
            None => {
                return None;
            },
        };
        let fpt = match parsed {
            Ok(f) => f,
            Err(e) => {
                return Some(Err(String::from_str("cannot parse the partition table")));
            },
        };
        let original_size = data.len();
        let partitions = Partitions::parse(&fpt, data, debug);
        let generation = match &partitions {
            Partitions::Gen2(_) => Generation::Gen2,
            _ => Generation::Gen3,
        };
        let version = partitions.get_me_version();
        // Keep the stretches between entries; they are written back verbatim.
        let ranges = partitions.non_covered_ranges();
        let mut non_covered: Vec<Data> = Vec::new();
        let nr = ranges.len();
        let mut k: usize = 0;
        while k < nr
            invariant
                nr == ranges@.len(),
                k <= nr,
                data@.len() <= usize::MAX,
                spec_gap_views(non_covered@) == spec_gaps_to_data(
                    ranges@.subrange(0, k as int),
                    data@,
                ),
            decreases nr - k,
        {
            let ghost pre = ranges@.subrange(0, k + 1);
            proof {
                assert(pre.drop_last() =~= ranges@.subrange(0, k as int));
                assert(pre.last() == ranges@[k as int]);
            }
            let rg = ranges[k];
            if rg.start < rg.end && rg.end <= data.len() as u64 {
                let offset = rg.start as usize;
                let gap = crate::codec::read_vec(data, offset, (rg.end - rg.start) as usize);
                non_covered.push(Data { offset, data: gap });
            } else if rg.start <= usize::MAX as u64 {
                non_covered.push(Data { offset: rg.start as usize, data: Vec::new() });
            }
            proof {
                assert(spec_gap_views(non_covered@) =~= spec_gaps_to_data(pre, data@));
            }
            k = k + 1;
        }
        proof {
            assert(ranges@.subrange(0, nr as int) =~= ranges@);
        }
        let fpt_area = FPTArea { fpt, partitions, non_covered, original_size };
        let cpds = Self::cpd_scan(data);
        Some(Ok(ME { base, generation, version, fpt_area, cpds }))
    }

    /// Find a table in the given bytes by probing every 64-byte boundary:
    /// the first boundary whose bytes carry the magic wins, and the model is
    /// built there; the directory scan then runs over all the bytes. `None`
    /// exactly when no probed boundary carries the magic.
    pub fn scan(data: &[u8], debug: bool) -> (r: Option<Result<ME, String>>)
        ensures
            (r is None) ==> (forall|a: int|
                0 <= a && 64 * a < crate::fpt::spec_scan_bound(data@)
                    ==> (#[trigger] spec_fpt_offset(data@.skip(64 * a))) is None),
            r matches Some(Ok(me)) ==> {
                &&& me.base % 64 == 0
                &&& (me.base as int) < crate::fpt::spec_scan_bound(data@)
                &&& forall|a: int|
                    0 <= a && 64 * a < me.base ==> (#[trigger] spec_fpt_offset(
                        data@.skip(64 * a),
                    )) is None
                &&& spec_fpt_parsed(me.fpt_area.fpt, data@.skip(me.base as int))
                &&& crate::fpt::spec_fpt_ok(data@.skip(me.base as int))
            },
            r matches Some(Err(_)) ==> (exists|o: int|
                0 <= o && o % 64 == 0 && o < crate::fpt::spec_scan_bound(data@)
                    && (#[trigger] spec_fpt_offset(data@.skip(o))) is Some
                    && !crate::fpt::spec_fpt_ok(data@.skip(o))),
    {
        let n = data.len();
        if n < crate::fpt::MIN_FPT_SIZE + 0x10 {
            return None;
        }
        let bound = n - crate::fpt::MIN_FPT_SIZE - 0x10;
        let mut o: usize = 0;
        let ghost mut c: int = 0;
        while o < bound
            invariant
                bound == crate::fpt::spec_scan_bound(data@),
                bound <= n == data@.len(),
                o == 64 * c,
                0 <= c,
                forall|a: int|
                    0 <= a < c ==> (#[trigger] spec_fpt_offset(data@.skip(64 * a))) is None,
            decreases bound - o,
        {
            let slice = vstd::slice::slice_subrange(data, o, n);
            if let Some(res) = Self::parse(slice, o, debug) {
                proof {
                    assert(forall|a: int|
                        0 <= a && 64 * a < o ==> a < c && (#[trigger] spec_fpt_offset(
                            data@.skip(64 * a),
                        )) is None);
                }
                match res {
                    Ok(me) => {
                        // Directories may also sit outside the probed window.
                        let mut me = me;
                        let all_cpds = Self::cpd_scan(data);
                        me.cpds = all_cpds;
                        return Some(Ok(me));
                    },
                    Err(e) => {
                        return Some(Err(e));
                    },
                }
            }
            proof {
                c = c + 1;
            }
            if bound - o <= 64 {
                // The next probe would pass the bound.
                proof {
                    assert(forall|a: int|
                        0 <= a && 64 * a < crate::fpt::spec_scan_bound(data@) ==> a < c && (
                        #[trigger] spec_fpt_offset(data@.skip(64 * a))) is None);
                }
                return None;
            }
            o = o + 64;
        }
        None
    }

    /// Find a boot partition descriptor table by probing every 64-byte
    /// boundary.
    pub fn bpdt_scan(data: &[u8]) -> (r: Result<crate::ifwi::BPDT, String>)
        ensures
            r matches Ok(b) ==> (0 <= b.offset <= data@.len() && crate::ifwi::spec_bpdt_parsed(
                b,
                data@.skip(b.offset as int),
                b.offset as int,
            )),
    {
        let n = data.len();
        let mut o: usize = 0;
        while o < n
            invariant
                n == data@.len(),
                o <= n,
            decreases n - o,
        {
            let slice = vstd::slice::slice_subrange(data, o, n);
            if let Ok(b) = crate::ifwi::BPDT::parse(slice, o) {
                return Ok(b);
            }
            if n - o <= 64 {
                return Err(String::from_str("not found"));
            }
            o = o + 64;
        }
        Err(String::from_str("not found"))
    }

    /// Scan all the bytes for directories, at every 16-byte boundary; there
    /// may be directories no table entry lists.
    pub fn cpd_scan(data: &[u8]) -> (r: Vec<CodePartitionDirectory>)
        ensures
            forall|i: int| 0 <= i < r@.len() ==> spec_cpd_found(#[trigger] r@[i], data@),
    {
        let n = data.len();
        let mut r: Vec<CodePartitionDirectory> = Vec::new();
        let mut o: usize = 0;
        while o < n
            invariant
                n == data@.len(),
                o <= n,
                forall|i: int| 0 <= i < r@.len() ==> spec_cpd_found(#[trigger] r@[i], data@),
            decreases n - o,
        {
            if n - o >= 4 && data[o] == 0x24 && data[o + 1] == 0x43 && data[o + 2] == 0x50 && data[o
                + 3] == 0x44 {
                let slice = vstd::slice::slice_subrange(data, o, n);
                if let Ok(cpd) = CodePartitionDirectory::new(slice, o) {
                    proof {
                        assert(crate::dir::gen3::spec_cpd_parsed(
                            cpd,
                            data@.skip(o as int),
                            o as int,
                        ));
                        assert(spec_cpd_found(cpd, data@));
                    }
                    r.push(cpd);
                }
            }
            if n - o < 16 {
                break ;
            }
            o = o + 16;
        }
        r
    }
}

} // verus!
