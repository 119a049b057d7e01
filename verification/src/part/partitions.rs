//! The set of partitions of one ME region, tagged by the firmware
//! generation the region was recognized as.

use vstd::prelude::*;
use vstd::string::StringExecFns;

use crate::fpt::{spec_is_nvram, FPT, FPTEntry};
use crate::part::gen2::{self, Gen2Partition};
use crate::part::gen3::{self, Gen3Partition};
use crate::part::generic::{ClearOptions, GenUnknownPartition, Partition};
use crate::ver::Version;
use crate::{RemovableRange, EMPTY};

verus! {

/// All partitions of a region, by generation.
#[derive(Clone, Debug)]
pub enum Partitions {
    Gen2(Vec<Gen2Partition>),
    Gen3(Vec<Gen3Partition>),
    Unknown(Vec<GenUnknownPartition>),
}

/// The table entries of all partitions, in order.
pub open spec fn spec_entries(p: Partitions) -> Seq<FPTEntry> {
    match p {
        Partitions::Gen2(v) => v@.map_values(|q: Gen2Partition| q.spec_entry()),
        Partitions::Gen3(v) => v@.map_values(|q: Gen3Partition| q.spec_entry()),
        Partitions::Unknown(v) => v@.map_values(|q: GenUnknownPartition| q.spec_entry()),
    }
}

/// The table entries and byte copies of all partitions, in order.
pub open spec fn spec_part_views(p: Partitions) -> Seq<(FPTEntry, Seq<u8>)> {
    match p {
        Partitions::Gen2(v) => v@.map_values(|q: Gen2Partition| (q.spec_entry(), q.spec_data())),
        Partitions::Gen3(v) => v@.map_values(|q: Gen3Partition| (q.spec_entry(), q.spec_data())),
        Partitions::Unknown(v) => v@.map_values(
            |q: GenUnknownPartition| (q.spec_entry(), q.spec_data()),
        ),
    }
}

/// The meaningful low bits of an entry's offset.
pub open spec fn spec_entry_offset(e: FPTEntry) -> int {
    (e.offset as usize & 0x003f_ffff) as int
}

/// Whether the probed region holds a Gen 3 directory at some entry's
/// offset: the heuristic that tells the generations apart.
pub open spec fn spec_is_gen3(entries: Seq<FPTEntry>, data: Seq<u8>) -> bool {
    exists|i: int|
        0 <= i < entries.len() && spec_entry_offset(#[trigger] entries[i]) + 4 < data.len()
            && data.subrange(
            spec_entry_offset(entries[i]),
            spec_entry_offset(entries[i]) + 4,
        ) == crate::dir::gen3::spec_cpd_magic()
}

/// The non-NVRAM entry with the highest offset; among equals, the later one.
pub open spec fn spec_last_entry(entries: Seq<FPTEntry>) -> Option<FPTEntry>
    decreases entries.len(),
{
    if entries.len() == 0 {
        None
    } else {
        let rest = spec_last_entry(entries.drop_last());
        let e = entries.last();
        if spec_is_nvram(e) {
            rest
        } else {
            match rest {
                None => Some(e),
                Some(b) => if spec_entry_offset(e) >= spec_entry_offset(b) {
                    Some(e)
                } else {
                    Some(b)
                },
            }
        }
    }
}

/// A buffer after every partition's bytes are copied to its entry's offset,
/// in order; NVRAM entries and partitions that do not fit are skipped.
pub open spec fn spec_copy_parts(views: Seq<(FPTEntry, Seq<u8>)>, acc: Seq<u8>) -> Seq<u8>
    decreases views.len(),
{
    if views.len() == 0 {
        acc
    } else {
        let prev = spec_copy_parts(views.drop_last(), acc);
        let (e, d) = views.last();
        if spec_is_nvram(e) {
            prev
        } else {
            let o = spec_entry_offset(e);
            if o + d.len() <= prev.len() {
                prev.subrange(0, o) + d + prev.subrange(o + d.len(), prev.len() as int)
            } else {
                prev
            }
        }
    }
}

/// Copying partitions never changes the buffer length.
pub proof fn lemma_copy_parts_len(views: Seq<(FPTEntry, Seq<u8>)>, acc: Seq<u8>)
    ensures
        spec_copy_parts(views, acc).len() == acc.len(),
    decreases views.len(),
{
    if views.len() > 0 {
        lemma_copy_parts_len(views.drop_last(), acc);
    }
}

/// The index of the first partition carrying the given entry name.
pub open spec fn spec_first_named_idx2(parts: Seq<Gen2Partition>, nm: Seq<char>) -> Option<int>
    decreases parts.len(),
{
    if parts.len() == 0 {
        None
    } else if crate::codec::spec_tag_name(parts[0].spec_entry().name@) == nm {
        Some(0int)
    } else {
        match spec_first_named_idx2(parts.drop_first(), nm) {
            Some(i) => Some(i + 1),
            None => None,
        }
    }
}

/// The index of the first partition carrying the given entry name.
pub open spec fn spec_first_named_idx3(parts: Seq<Gen3Partition>, nm: Seq<char>) -> Option<int>
    decreases parts.len(),
{
    if parts.len() == 0 {
        None
    } else if crate::codec::spec_tag_name(parts[0].spec_entry().name@) == nm {
        Some(0int)
    } else {
        match spec_first_named_idx3(parts.drop_first(), nm) {
            Some(i) => Some(i + 1),
            None => None,
        }
    }
}

/// The first partition holding a parsed directory.
pub open spec fn spec_first_dir2(parts: Seq<Gen2Partition>) -> Option<Gen2Partition>
    decreases parts.len(),
{
    if parts.len() == 0 {
        None
    } else if parts[0] is Dir {
        Some(parts[0])
    } else {
        spec_first_dir2(parts.drop_first())
    }
}

/// The first partition holding a parsed directory.
pub open spec fn spec_first_dir3(parts: Seq<Gen3Partition>) -> Option<Gen3Partition>
    decreases parts.len(),
{
    if parts.len() == 0 {
        None
    } else if parts[0] is Dir {
        Some(parts[0])
    } else {
        spec_first_dir3(parts.drop_first())
    }
}

/// The firmware version of the region: the manifest version of the first
/// directory partition, when there is one and (for Gen 3) its manifest
/// parsed.
pub open spec fn spec_me_version(p: Partitions) -> Option<Version> {
    match p {
        Partitions::Gen2(ps) => match spec_first_dir2(ps@) {
            Some(d) => Some(d->Dir_0.dir.manifest.header.version),
            None => None,
        },
        Partitions::Gen3(ps) => match spec_first_dir3(ps@) {
            Some(d) => match d->Dir_0.cpd.manifest {
                Ok(m) => Some(m.header.version),
                Err(_) => None,
            },
            None => None,
        },
        Partitions::Unknown(_) => None,
    }
}

/// The gaps between consecutive entries of an offset-sorted sequence: one
/// range per adjacent pair whose first ends below the second's offset.
pub open spec fn spec_gaps(sorted: Seq<FPTEntry>) -> Seq<RemovableRange>
    decreases sorted.len(),
{
    if sorted.len() < 2 {
        Seq::empty()
    } else {
        let rest = spec_gaps(sorted.drop_last());
        let a = sorted[sorted.len() - 2];
        let b = sorted.last();
        let aend = spec_entry_offset(a) + a.size;
        if aend < spec_entry_offset(b) {
            rest + seq![
                RemovableRange { start: aend as u64, end: spec_entry_offset(b) as u64 },
            ]
        } else {
            rest
        }
    }
}

/// Whether `r` holds exactly the gaps of some offset-sorted arrangement of
/// the given entries.
pub open spec fn spec_gaps_of(r: Seq<RemovableRange>, entries: Seq<FPTEntry>) -> bool {
    exists|sorted: Seq<FPTEntry>|
        {
            &&& #[trigger] spec_gaps(sorted) == r
            &&& sorted.to_multiset() == entries.to_multiset()
            &&& forall|a: int, b: int|
                0 <= a < b < sorted.len() ==> spec_entry_offset(#[trigger] sorted[a])
                    <= spec_entry_offset(#[trigger] sorted[b])
        }
}

/// Scanning one partition forward: a directory at `k` settles the search
/// when nothing before was one.
proof fn lemma_first_dir2_found(parts: Seq<Gen2Partition>, k: int)
    requires
        0 <= k < parts.len(),
        spec_first_dir2(parts.subrange(0, k)) is None,
        parts[k] is Dir,
    ensures
        spec_first_dir2(parts) == Some(parts[k]),
    decreases k,
{
    reveal_with_fuel(spec_first_dir2, 3);
    let pre = parts.subrange(0, k);
    if k == 0 {
    } else {
        assert(pre[0] == parts[0]);
        let rest = parts.drop_first();
        assert(pre.drop_first() =~= rest.subrange(0, k - 1));
        assert(rest[k - 1] == parts[k]);
        lemma_first_dir2_found(rest, k - 1);
    }
}

/// Scanning one partition forward without a directory leaves the search
/// open.
proof fn lemma_first_dir2_step(parts: Seq<Gen2Partition>, k: int)
    requires
        0 <= k < parts.len(),
        spec_first_dir2(parts.subrange(0, k)) is None,
        !(parts[k] is Dir),
    ensures
        spec_first_dir2(parts.subrange(0, k + 1)) is None,
    decreases k,
{
    reveal_with_fuel(spec_first_dir2, 3);
    let pre = parts.subrange(0, k);
    let cur = parts.subrange(0, k + 1);
    if k == 0 {
        assert(cur.len() == 1);
        assert(cur[0] == parts[0]);
        assert(cur.drop_first() =~= Seq::<Gen2Partition>::empty());
    } else {
        assert(pre[0] == parts[0]);
        assert(cur[0] == parts[0]);
        let rest = parts.drop_first();
        assert(pre.drop_first() =~= rest.subrange(0, k - 1));
        assert(cur.drop_first() =~= rest.subrange(0, k));
        assert(rest[k - 1] == parts[k]);
        lemma_first_dir2_step(rest, k - 1);
    }
}

/// Scanning one partition forward: a directory at `k` settles the search
/// when nothing before was one.
proof fn lemma_first_dir3_found(parts: Seq<Gen3Partition>, k: int)
    requires
        0 <= k < parts.len(),
        spec_first_dir3(parts.subrange(0, k)) is None,
        parts[k] is Dir,
    ensures
        spec_first_dir3(parts) == Some(parts[k]),
    decreases k,
{
    reveal_with_fuel(spec_first_dir3, 3);
    let pre = parts.subrange(0, k);
    if k == 0 {
    } else {
        assert(pre[0] == parts[0]);
        let rest = parts.drop_first();
        assert(pre.drop_first() =~= rest.subrange(0, k - 1));
        assert(rest[k - 1] == parts[k]);
        lemma_first_dir3_found(rest, k - 1);
    }
}

/// Scanning one partition forward without a directory leaves the search
/// open.
proof fn lemma_first_dir3_step(parts: Seq<Gen3Partition>, k: int)
    requires
        0 <= k < parts.len(),
        spec_first_dir3(parts.subrange(0, k)) is None,
        !(parts[k] is Dir),
    ensures
        spec_first_dir3(parts.subrange(0, k + 1)) is None,
    decreases k,
{
    reveal_with_fuel(spec_first_dir3, 3);
    let pre = parts.subrange(0, k);
    let cur = parts.subrange(0, k + 1);
    if k == 0 {
        assert(cur.len() == 1);
        assert(cur[0] == parts[0]);
        assert(cur.drop_first() =~= Seq::<Gen3Partition>::empty());
    } else {
        assert(pre[0] == parts[0]);
        assert(cur[0] == parts[0]);
        let rest = parts.drop_first();
        assert(pre.drop_first() =~= rest.subrange(0, k - 1));
        assert(cur.drop_first() =~= rest.subrange(0, k));
        assert(rest[k - 1] == parts[k]);
        lemma_first_dir3_step(rest, k - 1);
    }
}

/// Whether a relocation request is refused: only when the first partition of
/// that name is a Gen 2 directory whose move is blocked.
pub open spec fn spec_parts_reloc_blocked(p: Partitions, nm: Seq<char>, offset: u32) -> bool {
    match p {
        Partitions::Gen2(parts) => match spec_first_named_idx2(parts@, nm) {
            Some(i) => crate::part::gen2::spec_gen2_reloc_blocked(parts@[i], offset),
            None => false,
        },
        _ => false,
    }
}

/// Whether two partition sets hold the same variant and the same partitions.
pub open spec fn spec_parts_same(new: Partitions, old: Partitions) -> bool {
    match (new, old) {
        (Partitions::Gen2(a), Partitions::Gen2(b)) => a@ == b@,
        (Partitions::Gen3(a), Partitions::Gen3(b)) => a@ == b@,
        (Partitions::Unknown(a), Partitions::Unknown(b)) => a@ == b@,
        _ => false,
    }
}

/// A Gen 3 partition after only its entry offset moved.
pub open spec fn spec_gen3_entry_set(new: Gen3Partition, old: Gen3Partition, offset: u32) -> bool {
    match (new, old) {
        (Gen3Partition::Dir(nd), Gen3Partition::Dir(od)) => nd.entry == (FPTEntry {
            offset,
            ..od.entry
        }) && nd.data == od.data && nd.cpd == od.cpd,
        (Gen3Partition::Data(nd), Gen3Partition::Data(od)) => nd.entry == (FPTEntry {
            offset,
            ..od.entry
        }) && nd.data == od.data && nd.manifest == od.manifest,
        (Gen3Partition::MalformedOrUnknown(nd), Gen3Partition::MalformedOrUnknown(od)) => nd.entry
            == (FPTEntry { offset, ..od.entry }) && nd.data == od.data && nd.note == od.note,
        _ => false,
    }
}

/// What a successful relocation leaves: the first partition of that name
/// moved (a Gen 2 one fully relocated, a Gen 3 one with its entry offset
/// set), everything else untouched; nothing at all when no name matches.
pub open spec fn spec_parts_relocated(
    new: Partitions,
    old: Partitions,
    nm: Seq<char>,
    offset: u32,
) -> bool {
    match (new, old) {
        (Partitions::Gen2(np), Partitions::Gen2(op)) => match spec_first_named_idx2(op@, nm) {
            None => np@ == op@,
            Some(i) => np@.len() == op@.len() && (forall|j: int|
                0 <= j < op@.len() && j != i ==> #[trigger] np@[j] == op@[j])
                && crate::part::gen2::spec_gen2_relocated(np@[i], op@[i], offset),
        },
        (Partitions::Gen3(np), Partitions::Gen3(op)) => match spec_first_named_idx3(op@, nm) {
            None => np@ == op@,
            Some(i) => np@.len() == op@.len() && (forall|j: int|
                0 <= j < op@.len() && j != i ==> #[trigger] np@[j] == op@[j])
                && spec_gen3_entry_set(np@[i], op@[i], offset),
        },
        (Partitions::Unknown(np), Partitions::Unknown(op)) => np@ == op@,
        _ => false,
    }
}

/// Scanning one partition forward: a name hit at `k` settles the search at
/// `k` when nothing before matched.
proof fn lemma_first_named_idx2_found(parts: Seq<Gen2Partition>, nm: Seq<char>, k: int)
    requires
        0 <= k < parts.len(),
        spec_first_named_idx2(parts.subrange(0, k), nm) is None,
        crate::codec::spec_tag_name(parts[k].spec_entry().name@) == nm,
    ensures
        spec_first_named_idx2(parts, nm) == Some(k),
    decreases k,
{
    reveal_with_fuel(spec_first_named_idx2, 3);
    let pre = parts.subrange(0, k);
    if k == 0 {
    } else {
        assert(pre[0] == parts[0]);
        let rest = parts.drop_first();
        assert(pre.drop_first() =~= rest.subrange(0, k - 1));
        assert(rest[k - 1] == parts[k]);
        lemma_first_named_idx2_found(rest, nm, k - 1);
    }
}

/// Scanning one partition forward without a hit leaves the search open.
proof fn lemma_first_named_idx2_step(parts: Seq<Gen2Partition>, nm: Seq<char>, k: int)
    requires
        0 <= k < parts.len(),
        spec_first_named_idx2(parts.subrange(0, k), nm) is None,
        crate::codec::spec_tag_name(parts[k].spec_entry().name@) != nm,
    ensures
        spec_first_named_idx2(parts.subrange(0, k + 1), nm) is None,
    decreases k,
{
    reveal_with_fuel(spec_first_named_idx2, 3);
    let pre = parts.subrange(0, k);
    let cur = parts.subrange(0, k + 1);
    if k == 0 {
        assert(cur.len() == 1);
        assert(cur[0] == parts[0]);
        assert(cur.drop_first() =~= Seq::<Gen2Partition>::empty());
    } else {
        assert(pre[0] == parts[0]);
        assert(cur[0] == parts[0]);
        let rest = parts.drop_first();
        assert(pre.drop_first() =~= rest.subrange(0, k - 1));
        assert(cur.drop_first() =~= rest.subrange(0, k));
        assert(rest[k - 1] == parts[k]);
        lemma_first_named_idx2_step(rest, nm, k - 1);
    }
}

/// Scanning one partition forward: a name hit at `k` settles the search at
/// `k` when nothing before matched.
proof fn lemma_first_named_idx3_found(parts: Seq<Gen3Partition>, nm: Seq<char>, k: int)
    requires
        0 <= k < parts.len(),
        spec_first_named_idx3(parts.subrange(0, k), nm) is None,
        crate::codec::spec_tag_name(parts[k].spec_entry().name@) == nm,
    ensures
        spec_first_named_idx3(parts, nm) == Some(k),
    decreases k,
{
    reveal_with_fuel(spec_first_named_idx3, 3);
    let pre = parts.subrange(0, k);
    if k == 0 {
    } else {
        assert(pre[0] == parts[0]);
        let rest = parts.drop_first();
        assert(pre.drop_first() =~= rest.subrange(0, k - 1));
        assert(rest[k - 1] == parts[k]);
        lemma_first_named_idx3_found(rest, nm, k - 1);
    }
}

/// Scanning one partition forward without a hit leaves the search open.
proof fn lemma_first_named_idx3_step(parts: Seq<Gen3Partition>, nm: Seq<char>, k: int)
    requires
        0 <= k < parts.len(),
        spec_first_named_idx3(parts.subrange(0, k), nm) is None,
        crate::codec::spec_tag_name(parts[k].spec_entry().name@) != nm,
    ensures
        spec_first_named_idx3(parts.subrange(0, k + 1), nm) is None,
    decreases k,
{
    reveal_with_fuel(spec_first_named_idx3, 3);
    let pre = parts.subrange(0, k);
    let cur = parts.subrange(0, k + 1);
    if k == 0 {
        assert(cur.len() == 1);
        assert(cur[0] == parts[0]);
        assert(cur.drop_first() =~= Seq::<Gen3Partition>::empty());
    } else {
        assert(pre[0] == parts[0]);
        assert(cur[0] == parts[0]);
        let rest = parts.drop_first();
        assert(pre.drop_first() =~= rest.subrange(0, k - 1));
        assert(cur.drop_first() =~= rest.subrange(0, k));
        assert(rest[k - 1] == parts[k]);
        lemma_first_named_idx3_step(rest, nm, k - 1);
    }
}

impl Partitions {
    /// The table entries of all partitions, in order.
    pub fn get_entries(&self) -> (r: Vec<FPTEntry>)
        ensures
            r@ == spec_entries(*self),
    {
        let mut r: Vec<FPTEntry> = Vec::new();
        match self {
            Partitions::Gen2(v) => {
                let n = v.len();
                let mut i: usize = 0;
                while i < n
                    invariant
                        n == v@.len(),
                        i <= n,
                        r@ == v@.subrange(0, i as int).map_values(
                            |q: Gen2Partition| q.spec_entry(),
                        ),
                    decreases n - i,
                {
                    r.push(*v[i].entry());
                    proof {
                        assert(r@ =~= v@.subrange(0, i + 1).map_values(
                            |q: Gen2Partition| q.spec_entry(),
                        ));
                    }
                    i = i + 1;
                }
                proof {
                    assert(v@.subrange(0, n as int) =~= v@);
                }
            },
            Partitions::Gen3(v) => {
                let n = v.len();
                let mut i: usize = 0;
                while i < n
                    invariant
                        n == v@.len(),
                        i <= n,
                        r@ == v@.subrange(0, i as int).map_values(
                            |q: Gen3Partition| q.spec_entry(),
                        ),
                    decreases n - i,
                {
                    r.push(*v[i].entry());
                    proof {
                        assert(r@ =~= v@.subrange(0, i + 1).map_values(
                            |q: Gen3Partition| q.spec_entry(),
                        ));
                    }
                    i = i + 1;
                }
                proof {
                    assert(v@.subrange(0, n as int) =~= v@);
                }
            },
            Partitions::Unknown(v) => {
                let n = v.len();
                let mut i: usize = 0;
                while i < n
                    invariant
                        n == v@.len(),
                        i <= n,
                        r@ == v@.subrange(0, i as int).map_values(
                            |q: GenUnknownPartition| q.spec_entry(),
                        ),
                    decreases n - i,
                {
                    r.push(*v[i].entry());
                    proof {
                        assert(r@ =~= v@.subrange(0, i + 1).map_values(
                            |q: GenUnknownPartition| q.spec_entry(),
                        ));
                    }
                    i = i + 1;
                }
                proof {
                    assert(v@.subrange(0, n as int) =~= v@);
                }
            },
        }
        r
    }

    /// The table entries ordered by ascending offset.
    pub fn get_sorted_entries(&self) -> (r: Vec<FPTEntry>)
        ensures
            r@.to_multiset() == spec_entries(*self).to_multiset(),
            forall|a: int, b: int|
                0 <= a < b < r@.len() ==> spec_entry_offset(#[trigger] r@[a]) <= spec_entry_offset(
                    #[trigger] r@[b],
                ),
    {
        let mut entries = self.get_entries();
        sort_fpt_entries(&mut entries);
        entries
    }

    /// Split the region into partitions, deciding the generation by whether
    /// some entry points at a Gen 3 directory magic.
    pub fn parse(fpt: &FPT, data: &[u8], debug: bool) -> (r: Partitions)
        ensures
            (r is Gen3) == spec_is_gen3(fpt.entries@, data@),
            (r is Gen2) == !spec_is_gen3(fpt.entries@, data@),
            spec_entries(r).len() == fpt.entries@.len(),
            forall|i: int|
                0 <= i < fpt.entries@.len() ==> #[trigger] spec_entries(r)[i] == fpt.entries@[i],
    {
        let n = fpt.entries.len();
        let dl = data.len();
        let mut is_gen3 = false;
        let mut i: usize = 0;
        while i < n
            invariant
                n == fpt.entries@.len(),
                dl == data@.len(),
                i <= n,
                is_gen3 == exists|j: int|
                    0 <= j < i && spec_entry_offset(#[trigger] fpt.entries@[j]) + 4 < data@.len()
                        && data@.subrange(
                        spec_entry_offset(fpt.entries@[j]),
                        spec_entry_offset(fpt.entries@[j]) + 4,
                    ) == crate::dir::gen3::spec_cpd_magic(),
            decreases n - i,
        {
            let e = fpt.entries[i];
            let o = e.offset();
            if o as u64 + 4 < dl as u64 && data[o] == 0x24 && data[o + 1] == 0x43 && data[o + 2]
                == 0x50 && data[o + 3] == 0x44 {
                proof {
                    assert(data@.subrange(o as int, o + 4)
                        =~= crate::dir::gen3::spec_cpd_magic());
                }
                is_gen3 = true;
            }
            proof {
                if !is_gen3 {
                    if spec_entry_offset(fpt.entries@[i as int]) + 4 < data@.len()
                        && data@.subrange(
                        spec_entry_offset(fpt.entries@[i as int]),
                        spec_entry_offset(fpt.entries@[i as int]) + 4,
                    ) == crate::dir::gen3::spec_cpd_magic() {
                        assert(data@[o as int] == 0x24 && data@[o + 1] == 0x43 && data@[o + 2]
                            == 0x50 && data@[o + 3] == 0x44);
                    }
                }
            }
            i = i + 1;
        }
        if is_gen3 {
            let parts = gen3::parse(fpt, data, debug);
            let r = Partitions::Gen3(parts);
            proof {
                assert(spec_entries(r) =~= parts@.map_values(|q: Gen3Partition| q.spec_entry()));
                assert(forall|k: int|
                    0 <= k < fpt.entries@.len() ==> #[trigger] spec_entries(r)[k]
                        == fpt.entries@[k]);
            }
            r
        } else {
            let parts = gen2::parse(fpt, data, debug);
            let r = Partitions::Gen2(parts);
            proof {
                assert(spec_entries(r) =~= parts@.map_values(|q: Gen2Partition| q.spec_entry()));
                assert(forall|k: int|
                    0 <= k < fpt.entries@.len() ==> #[trigger] spec_entries(r)[k]
                        == fpt.entries@[k]);
            }
            r
        }
    }

    /// The firmware version from the first directory partition's manifest,
    /// when one is there.
    pub fn get_me_version(&self) -> (r: Option<Version>)
        ensures
            r == spec_me_version(*self),
    {
        match self {
            Partitions::Gen2(parts) => {
                let n = parts.len();
                let mut i: usize = 0;
                while i < n
                    invariant
                        n == parts@.len(),
                        self matches Partitions::Gen2(ps) && ps@ == parts@,
                        i <= n,
                        spec_first_dir2(parts@.subrange(0, i as int)) is None,
                    decreases n - i,
                {
                    match &parts[i] {
                        Gen2Partition::Dir(d) => {
                            proof {
                                lemma_first_dir2_found(parts@, i as int);
                            }
                            return Some(d.dir.manifest.header.version);
                        },
                        _ => {
                            proof {
                                lemma_first_dir2_step(parts@, i as int);
                            }
                        },
                    }
                    i = i + 1;
                }
                proof {
                    assert(parts@.subrange(0, n as int) =~= parts@);
                }
                None
            },
            Partitions::Gen3(parts) => {
                let n = parts.len();
                let mut i: usize = 0;
                while i < n
                    invariant
                        n == parts@.len(),
                        self matches Partitions::Gen3(ps) && ps@ == parts@,
                        i <= n,
                        spec_first_dir3(parts@.subrange(0, i as int)) is None,
                    decreases n - i,
                {
                    match &parts[i] {
                        Gen3Partition::Dir(d) => {
                            proof {
                                lemma_first_dir3_found(parts@, i as int);
                            }
                            return match &d.cpd.manifest {
                                Ok(m) => Some(m.header.version),
                                Err(_) => None,
                            };
                        },
                        _ => {
                            proof {
                                lemma_first_dir3_step(parts@, i as int);
                            }
                        },
                    }
                    i = i + 1;
                }
                proof {
                    assert(parts@.subrange(0, n as int) =~= parts@);
                }
                None
            },
            Partitions::Unknown(_) => None,
        }
    }

    /// The gaps between consecutive entries, in ascending offset order:
    /// exactly the ranges of the region that no entry of an offset-sorted
    /// arrangement covers up to its successor.
    pub fn non_covered_ranges(&self) -> (r: Vec<RemovableRange>)
        ensures
            spec_gaps_of(r@, spec_entries(*self)),
            forall|k: int| 0 <= k < r@.len() ==> (#[trigger] r@[k]).start < r@[k].end,
    {
        let sorted = self.get_sorted_entries();
        let ghost ss = sorted@;
        let n = sorted.len();
        let mut r: Vec<RemovableRange> = Vec::new();
        if n < 2 {
            proof {
                assert(spec_gaps(ss) == r@);
            }
            return r;
        }
        let mut i: usize = 0;
        proof {
            assert(spec_gaps(ss.subrange(0, 1)) == r@);
        }
        while i < n - 1
            invariant
                n == ss.len() == sorted@.len(),
                sorted@ == ss,
                n >= 2,
                i <= n - 1,
                r@ == spec_gaps(ss.subrange(0, i + 1)),
                forall|k: int| 0 <= k < r@.len() ==> (#[trigger] r@[k]).start < r@[k].end,
            decreases n - 1 - i,
        {
            let curr = sorted[i];
            let next = sorted[i + 1];
            let o = curr.offset() as u64 + curr.size as u64;
            let no = next.offset() as u64;
            let ghost pre = ss.subrange(0, i + 2);
            proof {
                assert(pre.drop_last() =~= ss.subrange(0, i + 1));
                assert(pre[pre.len() - 2] == ss[i as int]);
                assert(pre.last() == ss[i + 1]);
            }
            if o < no {
                r.push(RemovableRange { start: o, end: no });
            }
            proof {
                assert(r@ =~= spec_gaps(pre));
            }
            i = i + 1;
        }
        proof {
            assert(ss.subrange(0, n as int) =~= ss);
            assert(spec_gaps(ss) == r@);
        }
        r
    }

    /// Clear out fully removable partitions; the retained `FTPR` directory
    /// has its removable ranges zero-filled unless modules are kept.
    pub fn clear(&mut self, options: &ClearOptions)
        ensures
            match *old(self) {
                Partitions::Gen2(parts) => (*final(self)) matches Partitions::Gen2(r)
                    && gen2::spec_gen2_clean_rel(parts@, r@, options),
                Partitions::Gen3(parts) => (*final(self)) matches Partitions::Gen3(r)
                    && gen3::spec_gen3_clean_rel(parts@, r@, options),
                Partitions::Unknown(parts) => (*final(self)) matches Partitions::Unknown(r) && r@.len()
                    == parts@.len() && (forall|i: int|
                    0 <= i < parts@.len() ==> (#[trigger] r@[i]).spec_entry()
                        == parts@[i].spec_entry() && r@[i].spec_data() == parts@[i].spec_data()),
            },
    {
        match self {
            Partitions::Gen2(parts) => {
                let res = gen2::clean(parts, options);
                *self = Partitions::Gen2(res);
            },
            Partitions::Gen3(parts) => {
                let res = gen3::clean(parts, options);
                *self = Partitions::Gen3(res);
            },
            Partitions::Unknown(parts) => {
                let n = parts.len();
                let mut res: Vec<GenUnknownPartition> = Vec::new();
                let mut i: usize = 0;
                while i < n
                    invariant
                        n == parts@.len(),
                        i <= n,
                        res@.len() == i,
                        forall|j: int|
                            0 <= j < i ==> (#[trigger] res@[j]).spec_entry()
                                == parts@[j].spec_entry() && res@[j].spec_data()
                                == parts@[j].spec_data(),
                    decreases n - i,
                {
                    match &parts[i] {
                        GenUnknownPartition::Data(d) => {
                            res.push(GenUnknownPartition::Data(d.clone()));
                        },
                        GenUnknownPartition::Unknown(d) => {
                            res.push(GenUnknownPartition::Unknown(d.clone()));
                        },
                    }
                    i = i + 1;
                }
                *self = Partitions::Unknown(res);
            },
        }
    }

    /// The first partition of the given name, moved to a new base offset;
    /// nothing changes when no partition carries the name or the move is
    /// blocked, and every other partition is untouched.
    pub fn relocate(&mut self, part_name: &String, offset: u32) -> (r: Result<(), String>)
        ensures
            (r is Err) <==> spec_parts_reloc_blocked(*old(self), part_name@, offset),
            r is Err ==> spec_parts_same(*final(self), *old(self)),
            r is Ok ==> spec_parts_relocated(*final(self), *old(self), part_name@, offset),
    {
        let mut res: Result<(), String> = Ok(());
        match self {
            Partitions::Gen2(parts) => {
                let ghost old_parts = parts@;
                let n = parts.len();
                let mut i: usize = 0;
                let mut done = false;
                while i < n && !done
                    invariant
                        n == parts@.len() == old_parts.len(),
                        old_parts == old(self)->Gen2_0@,
                        i <= n,
                        !done ==> (parts@ == old_parts && res is Ok && spec_first_named_idx2(
                            old_parts.subrange(0, i as int),
                            part_name@,
                        ) is None),
                        done ==> (match spec_first_named_idx2(old_parts, part_name@) {
                            Some(k) => {
                                &&& (res is Err) == crate::part::gen2::spec_gen2_reloc_blocked(old_parts[k], offset)
                                &&& (res is Err ==> parts@ == old_parts)
                                &&& (res is Ok ==> parts@.len() == old_parts.len() && (forall|
                                    j: int,
                                |
                                    0 <= j < old_parts.len() && j != k
                                        ==> #[trigger] parts@[j] == old_parts[j])
                                    && crate::part::gen2::spec_gen2_relocated(parts@[k], old_parts[k], offset))
                            },
                            None => false,
                        }),
                    decreases n - i,
                {
                    let name = parts[i].entry().name();
                    if name == *part_name {
                        proof {
                            lemma_first_named_idx2_found(old_parts, part_name@, i as int);
                        }
                        let ghost before = parts@;
                        let rr = {
                            let p = &mut parts[i];
                            p.relocate(offset)
                        };
                        proof {
                            if rr is Err {
                                assert(parts@ =~= old_parts);
                            }
                        }
                        res = rr;
                        done = true;
                    } else {
                        proof {
                            lemma_first_named_idx2_step(old_parts, part_name@, i as int);
                        }
                    }
                    i = i + 1;
                }
                proof {
                    if !done {
                        assert(old_parts.subrange(0, n as int) =~= old_parts);
                    }
                }
            },
            Partitions::Gen3(parts) => {
                let ghost old_parts = parts@;
                let n = parts.len();
                let mut i: usize = 0;
                let mut done = false;
                while i < n && !done
                    invariant
                        n == parts@.len() == old_parts.len(),
                        old_parts == old(self)->Gen3_0@,
                        i <= n,
                        !done ==> (parts@ == old_parts && spec_first_named_idx3(
                            old_parts.subrange(0, i as int),
                            part_name@,
                        ) is None),
                        done ==> (match spec_first_named_idx3(old_parts, part_name@) {
                            Some(k) => parts@.len() == old_parts.len() && (forall|j: int|
                                0 <= j < old_parts.len() && j != k ==> #[trigger] parts@[j]
                                    == old_parts[j]) && spec_gen3_entry_set(
                                parts@[k],
                                old_parts[k],
                                offset,
                            ),
                            None => false,
                        }),
                        res is Ok,
                    decreases n - i,
                {
                    let name = parts[i].entry().name();
                    if name == *part_name {
                        proof {
                            lemma_first_named_idx3_found(old_parts, part_name@, i as int);
                        }
                        match &mut parts[i] {
                            Gen3Partition::Dir(d) => {
                                d.entry.offset = offset;
                            },
                            Gen3Partition::Data(d) => {
                                d.entry.offset = offset;
                            },
                            Gen3Partition::MalformedOrUnknown(d) => {
                                d.entry.offset = offset;
                            },
                        }
                        done = true;
                    } else {
                        proof {
                            lemma_first_named_idx3_step(old_parts, part_name@, i as int);
                        }
                    }
                    i = i + 1;
                }
                proof {
                    if !done {
                        assert(old_parts.subrange(0, n as int) =~= old_parts);
                    }
                }
            },
            Partitions::Unknown(_) => {},
        }
        res
    }

    /// A copy of all partitions, ordered by ascending entry offset: the same
    /// variant, and a permutation of the partitions with their bytes.
    pub fn get_sorted(&self) -> (r: Partitions)
        ensures
            spec_entries(r).to_multiset() == spec_entries(*self).to_multiset(),
            forall|a: int, b: int|
                0 <= a < b < spec_entries(r).len() ==> spec_entry_offset(
                    #[trigger] spec_entries(r)[a],
                ) <= spec_entry_offset(#[trigger] spec_entries(r)[b]),
            spec_part_views(r).to_multiset() == spec_part_views(*self).to_multiset(),
            (r is Gen2) == (*self is Gen2),
            (r is Gen3) == (*self is Gen3),
            (r is Unknown) == (*self is Unknown),
    {
        match self {
            Partitions::Gen2(parts) => {
                let sorted = sort_gen2_parts(parts);
                let r = Partitions::Gen2(sorted);
                proof {
                    assert(*self == Partitions::Gen2(*parts));
                }
                r
            },
            Partitions::Gen3(parts) => {
                let sorted = sort_gen3_parts(parts);
                let r = Partitions::Gen3(sorted);
                proof {
                    assert(*self == Partitions::Gen3(*parts));
                }
                r
            },
            Partitions::Unknown(parts) => {
                let sorted = sort_unknown_parts(parts);
                let r = Partitions::Unknown(sorted);
                proof {
                    assert(*self == Partitions::Unknown(*parts));
                }
                r
            },
        }
    }

    /// The non-NVRAM entry with the highest offset: its end bounds the
    /// smallest possible region.
    pub fn last_entry(&self) -> (r: Option<FPTEntry>)
        ensures
            r == spec_last_entry(spec_entries(*self)),
    {
        let entries = self.get_entries();
        let n = entries.len();
        let ghost es = spec_entries(*self);
        let mut best: Option<FPTEntry> = None;
        let mut i: usize = 0;
        proof {
            assert(es.subrange(0, 0) =~= Seq::<FPTEntry>::empty());
        }
        while i < n
            invariant
                n == entries@.len() == es.len(),
                entries@ == es,
                i <= n,
                best == spec_last_entry(es.subrange(0, i as int)),
            decreases n - i,
        {
            let e = entries[i];
            if !e.is_nvram() {
                match best {
                    None => {
                        best = Some(e);
                    },
                    Some(b) => {
                        if e.offset() >= b.offset() {
                            best = Some(e);
                        }
                    },
                }
            }
            proof {
                let pre = es.subrange(0, i + 1);
                assert(pre.drop_last() =~= es.subrange(0, i as int));
                assert(pre.last() == es[i as int]);
            }
            i = i + 1;
        }
        proof {
            assert(es.subrange(0, n as int) =~= es);
        }
        best
    }

    /// Rebuild the region from the partitions: a buffer of erase bytes up to
    /// the last entry's end, with every non-NVRAM partition's bytes copied to
    /// its entry's offset. Fails only when there are no entries.
    pub fn to_vec(&self) -> (r: Result<Vec<u8>, String>)
        ensures
            (r is Ok) <==> (spec_last_entry(spec_entries(*self)) matches Some(last)
                && spec_entry_offset(last) + last.size <= usize::MAX),
            r matches Ok(v) ==> (spec_last_entry(spec_entries(*self)) matches Some(last) && v@
                == spec_copy_parts(
                spec_part_views(*self),
                Seq::new(
                    (spec_entry_offset(last) + last.size as int) as nat,
                    |i: int| EMPTY,
                ),
            )),
    {
        let last = match self.last_entry() {
            Some(l) => l,
            None => {
                return Err(String::from_str("no partition entries found"));
            },
        };
        let o = last.offset();
        if o as u64 + last.size as u64 > usize::MAX as u64 {
            return Err(String::from_str("region size does not fit this machine"));
        }
        let size = o + last.size as usize;
        let mut data: Vec<u8> = Vec::new();
        crate::codec::resize_bytes(&mut data, size, EMPTY);
        let ghost base = Seq::new(size as nat, |i: int| EMPTY);
        proof {
            assert(data@ =~= base);
        }
        let ghost views = spec_part_views(*self);
        match self {
            Partitions::Gen2(parts) => {
                let n = parts.len();
                let mut i: usize = 0;
                while i < n
                    invariant
                        n == parts@.len(),
                        views == spec_part_views(*self),
                        self matches Partitions::Gen2(ps) && ps@ == parts@,
                        views.len() == n,
                        forall|j: int|
                            0 <= j < n ==> #[trigger] views[j] == (
                            parts@[j].spec_entry(),
                            parts@[j].spec_data(),
                            ),
                        i <= n,
                        data@ == spec_copy_parts(views.subrange(0, i as int), base),
                    decreases n - i,
                {
                    let ghost prev = data@;
                    copy_part_gen2(&parts[i], &mut data);
                    proof {
                        let single: Seq<(FPTEntry, Seq<u8>)> = seq![
                            (parts@[i as int].spec_entry(), parts@[i as int].spec_data()),
                        ];
                        assert(single.drop_last() =~= Seq::<(FPTEntry, Seq<u8>)>::empty());
                        assert(spec_copy_parts(single.drop_last(), prev) == prev);
                        let pre = views.subrange(0, i + 1);
                        assert(pre.drop_last() =~= views.subrange(0, i as int));
                        assert(pre.last() == views[i as int]);
                        assert(data@ == spec_copy_parts(pre, base));
                    }
                    i = i + 1;
                }
                proof {
                    assert(views.subrange(0, n as int) =~= views);
                }
            },
            Partitions::Gen3(parts) => {
                let n = parts.len();
                let mut i: usize = 0;
                while i < n
                    invariant
                        n == parts@.len(),
                        views == spec_part_views(*self),
                        self matches Partitions::Gen3(ps) && ps@ == parts@,
                        views.len() == n,
                        forall|j: int|
                            0 <= j < n ==> #[trigger] views[j] == (
                            parts@[j].spec_entry(),
                            parts@[j].spec_data(),
                            ),
                        i <= n,
                        data@ == spec_copy_parts(views.subrange(0, i as int), base),
                    decreases n - i,
                {
                    let ghost prev = data@;
                    copy_part_gen3(&parts[i], &mut data);
                    proof {
                        let single: Seq<(FPTEntry, Seq<u8>)> = seq![
                            (parts@[i as int].spec_entry(), parts@[i as int].spec_data()),
                        ];
                        assert(single.drop_last() =~= Seq::<(FPTEntry, Seq<u8>)>::empty());
                        assert(spec_copy_parts(single.drop_last(), prev) == prev);
                        let pre = views.subrange(0, i + 1);
                        assert(pre.drop_last() =~= views.subrange(0, i as int));
                        assert(pre.last() == views[i as int]);
                        assert(data@ == spec_copy_parts(pre, base));
                    }
                    i = i + 1;
                }
                proof {
                    assert(views.subrange(0, n as int) =~= views);
                }
            },
            Partitions::Unknown(parts) => {
                let n = parts.len();
                let mut i: usize = 0;
                while i < n
                    invariant
                        n == parts@.len(),
                        views == spec_part_views(*self),
                        self matches Partitions::Unknown(ps) && ps@ == parts@,
                        views.len() == n,
                        forall|j: int|
                            0 <= j < n ==> #[trigger] views[j] == (
                            parts@[j].spec_entry(),
                            parts@[j].spec_data(),
                            ),
                        i <= n,
                        data@ == spec_copy_parts(views.subrange(0, i as int), base),
                    decreases n - i,
                {
                    let ghost prev = data@;
                    copy_part_unknown(&parts[i], &mut data);
                    proof {
                        let single: Seq<(FPTEntry, Seq<u8>)> = seq![
                            (parts@[i as int].spec_entry(), parts@[i as int].spec_data()),
                        ];
                        assert(single.drop_last() =~= Seq::<(FPTEntry, Seq<u8>)>::empty());
                        assert(spec_copy_parts(single.drop_last(), prev) == prev);
                        let pre = views.subrange(0, i + 1);
                        assert(pre.drop_last() =~= views.subrange(0, i as int));
                        assert(pre.last() == views[i as int]);
                        assert(data@ == spec_copy_parts(pre, base));
                    }
                    i = i + 1;
                }
                proof {
                    assert(views.subrange(0, n as int) =~= views);
                }
            },
        }
        Ok(data)
    }
}

/// Copy one partition's bytes to its entry's offset, skipping NVRAM entries
/// and partitions that do not fit.
fn copy_part_gen2(p: &Gen2Partition, data: &mut Vec<u8>)
    ensures
        final(data)@ == spec_copy_parts(seq![(p.spec_entry(), p.spec_data())], old(data)@),
{
    proof {
        let vs: Seq<(FPTEntry, Seq<u8>)> = seq![(p.spec_entry(), p.spec_data())];
        assert(vs.drop_last() =~= Seq::<(FPTEntry, Seq<u8>)>::empty());
        assert(spec_copy_parts(vs.drop_last(), old(data)@) == old(data)@);
    }
    let e = *p.entry();
    if e.is_nvram() {
        return ;
    }
    let o = e.offset();
    let bytes = p.data();
    let dl = data.len();
    let bl = bytes.len();
    if bl <= dl && o <= dl - bl {
        let b = crate::codec::read_vec(bytes.as_slice(), 0, bl);
        crate::codec::splice_bytes(data, o, b.as_slice());
    }
}

/// Copy one partition's bytes to its entry's offset, skipping NVRAM entries
/// and partitions that do not fit.
fn copy_part_gen3(p: &Gen3Partition, data: &mut Vec<u8>)
    ensures
        final(data)@ == spec_copy_parts(seq![(p.spec_entry(), p.spec_data())], old(data)@),
{
    proof {
        let vs: Seq<(FPTEntry, Seq<u8>)> = seq![(p.spec_entry(), p.spec_data())];
        assert(vs.drop_last() =~= Seq::<(FPTEntry, Seq<u8>)>::empty());
        assert(spec_copy_parts(vs.drop_last(), old(data)@) == old(data)@);
    }
    let e = *p.entry();
    if e.is_nvram() {
        return ;
    }
    let o = e.offset();
    let bytes = p.data();
    let dl = data.len();
    let bl = bytes.len();
    if bl <= dl && o <= dl - bl {
        let b = crate::codec::read_vec(bytes.as_slice(), 0, bl);
        crate::codec::splice_bytes(data, o, b.as_slice());
    }
}

/// Copy one partition's bytes to its entry's offset, skipping NVRAM entries
/// and partitions that do not fit.
fn copy_part_unknown(p: &GenUnknownPartition, data: &mut Vec<u8>)
    ensures
        final(data)@ == spec_copy_parts(seq![(p.spec_entry(), p.spec_data())], old(data)@),
{
    proof {
        let vs: Seq<(FPTEntry, Seq<u8>)> = seq![(p.spec_entry(), p.spec_data())];
        assert(vs.drop_last() =~= Seq::<(FPTEntry, Seq<u8>)>::empty());
        assert(spec_copy_parts(vs.drop_last(), old(data)@) == old(data)@);
    }
    let e = *p.entry();
    if e.is_nvram() {
        return ;
    }
    let o = e.offset();
    let bytes = p.data();
    let dl = data.len();
    let bl = bytes.len();
    if bl <= dl && o <= dl - bl {
        let b = crate::codec::read_vec(bytes.as_slice(), 0, bl);
        crate::codec::splice_bytes(data, o, b.as_slice());
    }
}

/// Sort table entries by their offsets: insertion sort.
fn sort_fpt_entries(v: &mut Vec<FPTEntry>)
    ensures
        final(v)@.to_multiset() == old(v)@.to_multiset(),
        forall|a: int, b: int|
            0 <= a < b < final(v)@.len() ==> spec_entry_offset(#[trigger] final(v)@[a])
                <= spec_entry_offset(#[trigger] final(v)@[b]),
{
    let n = v.len();
    proof {
        broadcast use vstd::seq_lib::group_to_multiset_ensures;

    }
    if n <= 1 {
        return ;
    }
    let mut i: usize = 1;
    while i < n
        invariant
            n == v@.len() == old(v)@.len(),
            1 <= i <= n,
            v@.to_multiset() == old(v)@.to_multiset(),
            forall|a: int, b: int|
                0 <= a < b < i ==> spec_entry_offset(#[trigger] v@[a]) <= spec_entry_offset(
                    #[trigger] v@[b],
                ),
        decreases n - i,
    {
        let mut j: usize = i;
        while j > 0 && v[j - 1].offset() > v[j].offset()
            invariant
                n == v@.len() == old(v)@.len(),
                j <= i < n,
                v@.to_multiset() == old(v)@.to_multiset(),
                forall|a: int, b: int|
                    0 <= a < b <= i && b != j ==> spec_entry_offset(#[trigger] v@[a])
                        <= spec_entry_offset(#[trigger] v@[b]),
            decreases j,
        {
            let ghost old_view = v@;
            let x = v[j - 1];
            let y = v[j];
            v[j - 1] = y;
            v[j] = x;
            proof {
                lemma_swap_adjacent_multiset_fpt(old_view, j - 1);
                assert(v@ =~= old_view.update(j - 1, y).update(j as int, x));
            }
            j = j - 1;
        }
        i = i + 1;
    }
}

/// Swapping two adjacent positions keeps the multiset of elements.
proof fn lemma_swap_adjacent_multiset_fpt(s: Seq<FPTEntry>, i: int)
    requires
        0 <= i,
        i + 2 <= s.len(),
    ensures
        s.update(i, s[i + 1]).update(i + 1, s[i]).to_multiset() == s.to_multiset(),
{
    broadcast use vstd::seq_lib::group_to_multiset_ensures;
    broadcast use vstd::multiset::group_multiset_axioms;

    let t = s.update(i, s[i + 1]).update(i + 1, s[i]);
    let pre = s.subrange(0, i);
    let post = s.subrange(i + 2, s.len() as int);
    let mid_s = seq![s[i], s[i + 1]];
    let mid_t = seq![s[i + 1], s[i]];
    assert(s =~= (pre + mid_s) + post);
    assert(t =~= (pre + mid_t) + post);
    vstd::seq_lib::lemma_multiset_commutative(pre + mid_s, post);
    vstd::seq_lib::lemma_multiset_commutative(pre, mid_s);
    vstd::seq_lib::lemma_multiset_commutative(pre + mid_t, post);
    vstd::seq_lib::lemma_multiset_commutative(pre, mid_t);
    assert(mid_s.to_multiset() =~= mid_t.to_multiset()) by {
        assert(mid_s =~= Seq::<FPTEntry>::empty().push(s[i]).push(s[i + 1]));
        assert(mid_t =~= Seq::<FPTEntry>::empty().push(s[i + 1]).push(s[i]));
        assert(Seq::<FPTEntry>::empty().to_multiset().insert(s[i]).insert(s[i + 1])
            =~= Seq::<FPTEntry>::empty().to_multiset().insert(s[i + 1]).insert(s[i]));
    }
    assert(t.to_multiset() =~= s.to_multiset());
}

/// A sorted copy, by ascending entry offset: selection sort into a new
/// vector, taking the earliest minimum first.
fn sort_gen2_parts(parts: &Vec<Gen2Partition>) -> (r: Vec<Gen2Partition>)
    ensures
        r@.len() == parts@.len(),
        forall|a: int, b: int|
            0 <= a < b < r@.len() ==> spec_entry_offset((#[trigger] r@[a]).spec_entry())
                <= spec_entry_offset((#[trigger] r@[b]).spec_entry()),
        r@.map_values(|q: Gen2Partition| q.spec_entry()).to_multiset() == parts@.map_values(
            |q: Gen2Partition| q.spec_entry(),
        ).to_multiset(),
        r@.map_values(|q: Gen2Partition| (q.spec_entry(), q.spec_data())).to_multiset()
            == parts@.map_values(|q: Gen2Partition| (q.spec_entry(), q.spec_data())).to_multiset(),
{
    let mut work: Vec<Gen2Partition> = Vec::new();
    let n = parts.len();
    let mut i: usize = 0;
    while i < n
        invariant
            n == parts@.len(),
            i <= n,
            work@.len() == i,
            forall|j: int|
                0 <= j < i ==> (#[trigger] work@[j]).spec_entry() == parts@[j].spec_entry()
                    && work@[j].spec_data() == parts@[j].spec_data(),
        decreases n - i,
    {
        work.push(parts[i].clone_part());
        i = i + 1;
    }
    proof {
        broadcast use vstd::seq_lib::group_to_multiset_ensures;

        assert(work@.map_values(|q: Gen2Partition| q.spec_entry()) =~= parts@.map_values(
            |q: Gen2Partition| q.spec_entry(),
        ));
    }
    proof {
        broadcast use vstd::seq_lib::group_to_multiset_ensures;

        assert(work@.map_values(|q: Gen2Partition| (q.spec_entry(), q.spec_data())) =~= parts@.map_values(
            |q: Gen2Partition| (q.spec_entry(), q.spec_data()),
        ));
    }
    let mut r: Vec<Gen2Partition> = Vec::new();
    let ghost all = work@.map_values(|q: Gen2Partition| q.spec_entry()).to_multiset();
    let ghost all_v = work@.map_values(|q: Gen2Partition| (q.spec_entry(), q.spec_data())).to_multiset();
    while work.len() > 0
        invariant
            r@.map_values(|q: Gen2Partition| q.spec_entry()).to_multiset().add(
                work@.map_values(|q: Gen2Partition| q.spec_entry()).to_multiset(),
            ) == all,
            r@.map_values(|q: Gen2Partition| (q.spec_entry(), q.spec_data())).to_multiset().add(
                work@.map_values(|q: Gen2Partition| (q.spec_entry(), q.spec_data())).to_multiset(),
            ) == all_v,
            forall|a: int, b: int|
                0 <= a < b < r@.len() ==> spec_entry_offset((#[trigger] r@[a]).spec_entry())
                    <= spec_entry_offset((#[trigger] r@[b]).spec_entry()),
            forall|a: int, b: int|
                0 <= a < r@.len() && 0 <= b < work@.len() ==> spec_entry_offset(
                    (#[trigger] r@[a]).spec_entry(),
                ) <= spec_entry_offset((#[trigger] work@[b]).spec_entry()),
        decreases work@.len(),
    {
        let m = work.len();
        let mut best: usize = 0;
        let mut k: usize = 1;
        while k < m
            invariant
                m == work@.len(),
                best < k <= m,
                forall|j: int|
                    0 <= j < k ==> spec_entry_offset((#[trigger] work@[best as int]).spec_entry())
                        <= spec_entry_offset(work@[j].spec_entry()),
            decreases m - k,
        {
            if work[k].entry().offset() < work[best].entry().offset() {
                best = k;
            }
            k = k + 1;
        }
        let ghost pre_work = work@;
        let p = work.remove(best);
        let ghost pre_r = r@;
        r.push(p);
        proof {
            broadcast use vstd::seq_lib::group_to_multiset_ensures;

            let f = |q: Gen2Partition| q.spec_entry();
            assert(pre_work.map_values(f).remove(best as int) =~= work@.map_values(f));
            assert(pre_work.map_values(f).to_multiset().remove(pre_work.map_values(f)[best as int])
                =~= work@.map_values(f).to_multiset());
            assert(r@.map_values(f) =~= pre_r.map_values(f).push(p.spec_entry()));
            assert(r@.map_values(f).to_multiset() =~= pre_r.map_values(f).to_multiset().insert(
                p.spec_entry(),
            ));
            assert(r@.map_values(f).to_multiset().add(work@.map_values(f).to_multiset()) =~= all);
            let g = |q: Gen2Partition| (q.spec_entry(), q.spec_data());
            assert(pre_work.map_values(g).remove(best as int) =~= work@.map_values(g));
            assert(pre_work.map_values(g).to_multiset().remove(pre_work.map_values(g)[best as int])
                =~= work@.map_values(g).to_multiset());
            assert(r@.map_values(g) =~= pre_r.map_values(g).push((p.spec_entry(), p.spec_data())));
            assert(r@.map_values(g).to_multiset() =~= pre_r.map_values(g).to_multiset().insert(
                (p.spec_entry(), p.spec_data()),
            ));
            assert(r@.map_values(g).to_multiset().add(work@.map_values(g).to_multiset())
                =~= all_v);
        }
    }
    proof {
        broadcast use vstd::seq_lib::group_to_multiset_ensures;

        assert(work@.map_values(|q: Gen2Partition| q.spec_entry()) =~= Seq::<FPTEntry>::empty());
        assert(r@.map_values(|q: Gen2Partition| q.spec_entry()).to_multiset() =~= all);
        assert(work@.map_values(|q: Gen2Partition| (q.spec_entry(), q.spec_data()))
            =~= Seq::<(FPTEntry, Seq<u8>)>::empty());
        assert(r@.map_values(|q: Gen2Partition| (q.spec_entry(), q.spec_data())).to_multiset() =~= all_v);
        assert(r@.map_values(|q: Gen2Partition| q.spec_entry()).to_multiset().len() == r@.map_values(
            |q: Gen2Partition| q.spec_entry(),
        ).len());
        assert(all.len() == parts@.map_values(|q: Gen2Partition| q.spec_entry()).len());
    }
    r
}

/// A sorted copy, by ascending entry offset: selection sort into a new
/// vector, taking the earliest minimum first.
fn sort_gen3_parts(parts: &Vec<Gen3Partition>) -> (r: Vec<Gen3Partition>)
    ensures
        r@.len() == parts@.len(),
        forall|a: int, b: int|
            0 <= a < b < r@.len() ==> spec_entry_offset((#[trigger] r@[a]).spec_entry())
                <= spec_entry_offset((#[trigger] r@[b]).spec_entry()),
        r@.map_values(|q: Gen3Partition| q.spec_entry()).to_multiset() == parts@.map_values(
            |q: Gen3Partition| q.spec_entry(),
        ).to_multiset(),
        r@.map_values(|q: Gen3Partition| (q.spec_entry(), q.spec_data())).to_multiset()
            == parts@.map_values(|q: Gen3Partition| (q.spec_entry(), q.spec_data())).to_multiset(),
{
    let mut work: Vec<Gen3Partition> = Vec::new();
    let n = parts.len();
    let mut i: usize = 0;
    while i < n
        invariant
            n == parts@.len(),
            i <= n,
            work@.len() == i,
            forall|j: int|
                0 <= j < i ==> (#[trigger] work@[j]).spec_entry() == parts@[j].spec_entry()
                    && work@[j].spec_data() == parts@[j].spec_data(),
        decreases n - i,
    {
        work.push(parts[i].clone_part());
        i = i + 1;
    }
    proof {
        broadcast use vstd::seq_lib::group_to_multiset_ensures;

        assert(work@.map_values(|q: Gen3Partition| q.spec_entry()) =~= parts@.map_values(
            |q: Gen3Partition| q.spec_entry(),
        ));
    }
    proof {
        broadcast use vstd::seq_lib::group_to_multiset_ensures;

        assert(work@.map_values(|q: Gen3Partition| (q.spec_entry(), q.spec_data())) =~= parts@.map_values(
            |q: Gen3Partition| (q.spec_entry(), q.spec_data()),
        ));
    }
    let mut r: Vec<Gen3Partition> = Vec::new();
    let ghost all = work@.map_values(|q: Gen3Partition| q.spec_entry()).to_multiset();
    let ghost all_v = work@.map_values(|q: Gen3Partition| (q.spec_entry(), q.spec_data())).to_multiset();
    while work.len() > 0
        invariant
            r@.map_values(|q: Gen3Partition| q.spec_entry()).to_multiset().add(
                work@.map_values(|q: Gen3Partition| q.spec_entry()).to_multiset(),
            ) == all,
            r@.map_values(|q: Gen3Partition| (q.spec_entry(), q.spec_data())).to_multiset().add(
                work@.map_values(|q: Gen3Partition| (q.spec_entry(), q.spec_data())).to_multiset(),
            ) == all_v,
            forall|a: int, b: int|
                0 <= a < b < r@.len() ==> spec_entry_offset((#[trigger] r@[a]).spec_entry())
                    <= spec_entry_offset((#[trigger] r@[b]).spec_entry()),
            forall|a: int, b: int|
                0 <= a < r@.len() && 0 <= b < work@.len() ==> spec_entry_offset(
                    (#[trigger] r@[a]).spec_entry(),
                ) <= spec_entry_offset((#[trigger] work@[b]).spec_entry()),
        decreases work@.len(),
    {
        let m = work.len();
        let mut best: usize = 0;
        let mut k: usize = 1;
        while k < m
            invariant
                m == work@.len(),
                best < k <= m,
                forall|j: int|
                    0 <= j < k ==> spec_entry_offset((#[trigger] work@[best as int]).spec_entry())
                        <= spec_entry_offset(work@[j].spec_entry()),
            decreases m - k,
        {
            if work[k].entry().offset() < work[best].entry().offset() {
                best = k;
            }
            k = k + 1;
        }
        let ghost pre_work = work@;
        let p = work.remove(best);
        let ghost pre_r = r@;
        r.push(p);
        proof {
            broadcast use vstd::seq_lib::group_to_multiset_ensures;

            let f = |q: Gen3Partition| q.spec_entry();
            assert(pre_work.map_values(f).remove(best as int) =~= work@.map_values(f));
            assert(pre_work.map_values(f).to_multiset().remove(pre_work.map_values(f)[best as int])
                =~= work@.map_values(f).to_multiset());
            assert(r@.map_values(f) =~= pre_r.map_values(f).push(p.spec_entry()));
            assert(r@.map_values(f).to_multiset() =~= pre_r.map_values(f).to_multiset().insert(
                p.spec_entry(),
            ));
            assert(r@.map_values(f).to_multiset().add(work@.map_values(f).to_multiset()) =~= all);
            let g = |q: Gen3Partition| (q.spec_entry(), q.spec_data());
            assert(pre_work.map_values(g).remove(best as int) =~= work@.map_values(g));
            assert(pre_work.map_values(g).to_multiset().remove(pre_work.map_values(g)[best as int])
                =~= work@.map_values(g).to_multiset());
            assert(r@.map_values(g) =~= pre_r.map_values(g).push((p.spec_entry(), p.spec_data())));
            assert(r@.map_values(g).to_multiset() =~= pre_r.map_values(g).to_multiset().insert(
                (p.spec_entry(), p.spec_data()),
            ));
            assert(r@.map_values(g).to_multiset().add(work@.map_values(g).to_multiset())
                =~= all_v);
        }
    }
    proof {
        broadcast use vstd::seq_lib::group_to_multiset_ensures;

        assert(work@.map_values(|q: Gen3Partition| q.spec_entry()) =~= Seq::<FPTEntry>::empty());
        assert(r@.map_values(|q: Gen3Partition| q.spec_entry()).to_multiset() =~= all);
        assert(work@.map_values(|q: Gen3Partition| (q.spec_entry(), q.spec_data()))
            =~= Seq::<(FPTEntry, Seq<u8>)>::empty());
        assert(r@.map_values(|q: Gen3Partition| (q.spec_entry(), q.spec_data())).to_multiset() =~= all_v);
        assert(r@.map_values(|q: Gen3Partition| q.spec_entry()).to_multiset().len() == r@.map_values(
            |q: Gen3Partition| q.spec_entry(),
        ).len());
        assert(all.len() == parts@.map_values(|q: Gen3Partition| q.spec_entry()).len());
    }
    r
}

/// A sorted copy, by ascending entry offset: selection sort into a new
/// vector, taking the earliest minimum first.
fn sort_unknown_parts(parts: &Vec<GenUnknownPartition>) -> (r: Vec<GenUnknownPartition>)
    ensures
        r@.len() == parts@.len(),
        forall|a: int, b: int|
            0 <= a < b < r@.len() ==> spec_entry_offset((#[trigger] r@[a]).spec_entry())
                <= spec_entry_offset((#[trigger] r@[b]).spec_entry()),
        r@.map_values(|q: GenUnknownPartition| q.spec_entry()).to_multiset() == parts@.map_values(
            |q: GenUnknownPartition| q.spec_entry(),
        ).to_multiset(),
        r@.map_values(|q: GenUnknownPartition| (q.spec_entry(), q.spec_data())).to_multiset()
            == parts@.map_values(|q: GenUnknownPartition| (q.spec_entry(), q.spec_data())).to_multiset(),
{
    let mut work: Vec<GenUnknownPartition> = Vec::new();
    let n = parts.len();
    let mut i: usize = 0;
    while i < n
        invariant
            n == parts@.len(),
            i <= n,
            work@.len() == i,
            forall|j: int|
                0 <= j < i ==> (#[trigger] work@[j]).spec_entry() == parts@[j].spec_entry()
                    && work@[j].spec_data() == parts@[j].spec_data(),
        decreases n - i,
    {
        match &parts[i] {
            GenUnknownPartition::Data(d) => work.push(GenUnknownPartition::Data(d.clone())),
            GenUnknownPartition::Unknown(d) => work.push(GenUnknownPartition::Unknown(d.clone())),
        }
        i = i + 1;
    }
    proof {
        broadcast use vstd::seq_lib::group_to_multiset_ensures;

        assert(work@.map_values(|q: GenUnknownPartition| q.spec_entry()) =~= parts@.map_values(
            |q: GenUnknownPartition| q.spec_entry(),
        ));
    }
    proof {
        broadcast use vstd::seq_lib::group_to_multiset_ensures;

        assert(work@.map_values(|q: GenUnknownPartition| (q.spec_entry(), q.spec_data())) =~= parts@.map_values(
            |q: GenUnknownPartition| (q.spec_entry(), q.spec_data()),
        ));
    }
    let mut r: Vec<GenUnknownPartition> = Vec::new();
    let ghost all = work@.map_values(|q: GenUnknownPartition| q.spec_entry()).to_multiset();
    let ghost all_v = work@.map_values(|q: GenUnknownPartition| (q.spec_entry(), q.spec_data())).to_multiset();
    while work.len() > 0
        invariant
            r@.map_values(|q: GenUnknownPartition| q.spec_entry()).to_multiset().add(
                work@.map_values(|q: GenUnknownPartition| q.spec_entry()).to_multiset(),
            ) == all,
            r@.map_values(|q: GenUnknownPartition| (q.spec_entry(), q.spec_data())).to_multiset().add(
                work@.map_values(|q: GenUnknownPartition| (q.spec_entry(), q.spec_data())).to_multiset(),
            ) == all_v,
            forall|a: int, b: int|
                0 <= a < b < r@.len() ==> spec_entry_offset((#[trigger] r@[a]).spec_entry())
                    <= spec_entry_offset((#[trigger] r@[b]).spec_entry()),
            forall|a: int, b: int|
                0 <= a < r@.len() && 0 <= b < work@.len() ==> spec_entry_offset(
                    (#[trigger] r@[a]).spec_entry(),
                ) <= spec_entry_offset((#[trigger] work@[b]).spec_entry()),
        decreases work@.len(),
    {
        let m = work.len();
        let mut best: usize = 0;
        let mut k: usize = 1;
        while k < m
            invariant
                m == work@.len(),
                best < k <= m,
                forall|j: int|
                    0 <= j < k ==> spec_entry_offset((#[trigger] work@[best as int]).spec_entry())
                        <= spec_entry_offset(work@[j].spec_entry()),
            decreases m - k,
        {
            if work[k].entry().offset() < work[best].entry().offset() {
                best = k;
            }
            k = k + 1;
        }
        let ghost pre_work = work@;
        let p = work.remove(best);
        let ghost pre_r = r@;
        r.push(p);
        proof {
            broadcast use vstd::seq_lib::group_to_multiset_ensures;

            let f = |q: GenUnknownPartition| q.spec_entry();
            assert(pre_work.map_values(f).remove(best as int) =~= work@.map_values(f));
            assert(pre_work.map_values(f).to_multiset().remove(pre_work.map_values(f)[best as int])
                =~= work@.map_values(f).to_multiset());
            assert(r@.map_values(f) =~= pre_r.map_values(f).push(p.spec_entry()));
            assert(r@.map_values(f).to_multiset() =~= pre_r.map_values(f).to_multiset().insert(
                p.spec_entry(),
            ));
            assert(r@.map_values(f).to_multiset().add(work@.map_values(f).to_multiset()) =~= all);
            let g = |q: GenUnknownPartition| (q.spec_entry(), q.spec_data());
            assert(pre_work.map_values(g).remove(best as int) =~= work@.map_values(g));
            assert(pre_work.map_values(g).to_multiset().remove(pre_work.map_values(g)[best as int])
                =~= work@.map_values(g).to_multiset());
            assert(r@.map_values(g) =~= pre_r.map_values(g).push((p.spec_entry(), p.spec_data())));
            assert(r@.map_values(g).to_multiset() =~= pre_r.map_values(g).to_multiset().insert(
                (p.spec_entry(), p.spec_data()),
            ));
            assert(r@.map_values(g).to_multiset().add(work@.map_values(g).to_multiset())
                =~= all_v);
        }
    }
    proof {
        broadcast use vstd::seq_lib::group_to_multiset_ensures;

        assert(work@.map_values(|q: GenUnknownPartition| q.spec_entry())
            =~= Seq::<FPTEntry>::empty());
        assert(r@.map_values(|q: GenUnknownPartition| q.spec_entry()).to_multiset() =~= all);
        assert(r@.map_values(|q: GenUnknownPartition| q.spec_entry()).to_multiset().len()
            == r@.map_values(|q: GenUnknownPartition| q.spec_entry()).len());
        assert(all.len() == parts@.map_values(|q: GenUnknownPartition| q.spec_entry()).len());
    }
    r
}

} // verus!
