//! Generic data structures and helpers for partitions.

use vstd::prelude::*;
use vstd::string::StringExecFns;

use crate::codec::{contains_name, spec_name_in, spec_names, spec_tag_name};
use crate::fpt::{FPTEntry, FTPR};
use crate::{RemovableRange, Removables, EMPTY};

verus! {

/// Data partitions are for now treated uniformly, but may carry semantics.
#[derive(Debug)]
pub struct DataPartition {
    pub entry: FPTEntry,
    pub data: Vec<u8>,
}

impl Clone for DataPartition {
    /// An exact copy, field by field.
    fn clone(&self) -> (res: Self)
        ensures
            res.entry == self.entry,
            res.data@ == self.data@,
    {
        let mut data: Vec<u8> = Vec::new();
        crate::codec::push_bytes(&mut data, self.data.as_slice());
        proof {
            assert(data@ =~= self.data@);
        }
        DataPartition { entry: self.entry, data }
    }
}

/// Last resort if a partition cannot be classified.
#[derive(Debug)]
pub struct UnknownOrMalformedPartition {
    pub entry: FPTEntry,
    pub data: Vec<u8>,
    pub note: String,
}

impl Clone for UnknownOrMalformedPartition {
    /// An exact copy, field by field.
    fn clone(&self) -> (res: Self)
        ensures
            res.entry == self.entry,
            res.data@ == self.data@,
            res.note == self.note,
    {
        let mut data: Vec<u8> = Vec::new();
        crate::codec::push_bytes(&mut data, self.data.as_slice());
        proof {
            assert(data@ =~= self.data@);
        }
        UnknownOrMalformedPartition { entry: self.entry, data, note: self.note.clone() }
    }
}

/// Common trait for partitions and their relationship with the FPT.
pub trait Partition {
    /// The table entry of this partition.
    spec fn spec_entry(&self) -> FPTEntry;

    /// The bytes this partition owns.
    spec fn spec_data(&self) -> Seq<u8>;

    fn entry(&self) -> (r: &FPTEntry)
        ensures
            *r == self.spec_entry(),
    ;

    fn data(&self) -> (r: &Vec<u8>)
        ensures
            r@ == self.spec_data(),
    ;

    fn set_entry(&mut self, entry: FPTEntry)
        ensures
            final(self).spec_entry() == entry,
            final(self).spec_data() == old(self).spec_data(),
    ;

    fn set_data(&mut self, data: Vec<u8>)
        ensures
            final(self).spec_data() == data@,
            final(self).spec_entry() == old(self).spec_entry(),
    ;
}

/// A partition of an image whose generation could not be told.
#[derive(Clone, Debug)]
pub enum GenUnknownPartition {
    Data(DataPartition),
    Unknown(UnknownOrMalformedPartition),
}

impl Partition for GenUnknownPartition {
    open spec fn spec_entry(&self) -> FPTEntry {
        match *self {
            GenUnknownPartition::Data(ref d) => d.entry,
            GenUnknownPartition::Unknown(ref d) => d.entry,
        }
    }

    open spec fn spec_data(&self) -> Seq<u8> {
        match *self {
            GenUnknownPartition::Data(ref d) => d.data@,
            GenUnknownPartition::Unknown(ref d) => d.data@,
        }
    }

    fn entry(&self) -> (r: &FPTEntry) {
        match self {
            GenUnknownPartition::Data(d) => &d.entry,
            GenUnknownPartition::Unknown(d) => &d.entry,
        }
    }

    fn data(&self) -> (r: &Vec<u8>) {
        match self {
            GenUnknownPartition::Data(d) => &d.data,
            GenUnknownPartition::Unknown(d) => &d.data,
        }
    }

    fn set_entry(&mut self, entry: FPTEntry) {
        match self {
            GenUnknownPartition::Data(d) => d.entry = entry,
            GenUnknownPartition::Unknown(d) => d.entry = entry,
        }
    }

    fn set_data(&mut self, data: Vec<u8>) {
        match self {
            GenUnknownPartition::Data(d) => d.data = data,
            GenUnknownPartition::Unknown(d) => d.data = data,
        }
    }
}

/// Copies of the given names, as owned strings.
pub fn strs_to_strings(strs: &[&str]) -> (r: Vec<String>)
    ensures
        r@.len() == strs@.len(),
        forall|i: int| 0 <= i < strs@.len() ==> #[trigger] r@[i]@ == strs@[i]@,
{
    let n = strs.len();
    let mut r: Vec<String> = Vec::new();
    let mut i: usize = 0;
    while i < n
        invariant
            n == strs@.len(),
            i <= n,
            r@.len() == i,
            forall|j: int| 0 <= j < i ==> #[trigger] r@[j]@ == strs@[j]@,
        decreases n - i,
    {
        r.push(String::from_str(strs[i]));
        i = i + 1;
    }
    r
}

/// Options for clearing partitions and directories.
pub struct ClearOptions {
    /// Keep the modules of the retained code partition untouched.
    pub keep_modules: bool,
    /// Partition names to keep unconditionally.
    pub parts_force_retention: Vec<String>,
    /// Partition names to remove unconditionally; when non-empty, everything
    /// not listed is kept.
    pub parts_force_deletion: Vec<String>,
}

/// Whether a partition is kept by a clean pass: `FTPR` always is; a name on
/// the force-retention list is; and when the force-deletion list is
/// non-empty, every name not on it is.
pub open spec fn spec_retain(nm: Seq<char>, options: &ClearOptions) -> bool {
    ||| nm == "FTPR"@
    ||| spec_name_in(spec_names(options.parts_force_retention@), nm)
    ||| (options.parts_force_deletion@.len() > 0 && !spec_name_in(
        spec_names(options.parts_force_deletion@),
        nm,
    ))
}

/// Shared logic for deciding whether a partition should be retained.
pub fn retain(part_name: String, options: &ClearOptions) -> (r: bool)
    ensures
        r == spec_retain(part_name@, options),
{
    let ftpr = String::from_str(FTPR);
    part_name == ftpr || contains_name(&options.parts_force_retention, &part_name) || (
    options.parts_force_deletion.len() > 0 && !contains_name(
        &options.parts_force_deletion,
        &part_name,
    ))
}

/// Retention invariant: a partition named `FTPR` is kept, whatever the
/// force lists hold.
pub proof fn lemma_retain_ftpr(options: &ClearOptions)
    ensures
        spec_retain("FTPR"@, options),
{
}

/// Whether a clean pass keeps a partition: `FTPR` always stays; a name on
/// the force-retention list stays; with a non-empty force-deletion list,
/// exactly the names not listed stay; otherwise the names not on the
/// generation's removable list stay.
pub open spec fn spec_part_kept(
    nm: Seq<char>,
    options: &ClearOptions,
    removable: Seq<Seq<char>>,
) -> bool {
    ||| nm == "FTPR"@
    ||| spec_name_in(spec_names(options.parts_force_retention@), nm)
    ||| (if options.parts_force_deletion@.len() > 0 {
        !spec_name_in(spec_names(options.parts_force_deletion@), nm)
    } else {
        !spec_name_in(removable, nm)
    })
}

/// Retention invariant: a partition named `FTPR` is kept by a clean pass,
/// whatever the force lists and the removable list hold.
pub proof fn lemma_part_kept_ftpr(options: &ClearOptions, removable: Seq<Seq<char>>)
    ensures
        spec_part_kept("FTPR"@, options, removable),
{
}

/// Decide whether a clean pass keeps the partition of this name.
pub fn part_kept(part_name: String, options: &ClearOptions, removable: &Vec<String>) -> (r: bool)
    ensures
        r == spec_part_kept(part_name@, options, spec_names(removable@)),
{
    let ftpr = String::from_str(FTPR);
    if part_name == ftpr {
        return true;
    }
    if contains_name(&options.parts_force_retention, &part_name) {
        return true;
    }
    if options.parts_force_deletion.len() > 0 {
        !contains_name(&options.parts_force_deletion, &part_name)
    } else {
        !contains_name(removable, &part_name)
    }
}

/// A byte buffer after the given ranges, in order, are filled with the
/// erase byte; a range that is backwards or does not fit is skipped.
pub open spec fn spec_erase_ranges(s: Seq<u8>, rs: Seq<RemovableRange>) -> Seq<u8>
    decreases rs.len(),
{
    if rs.len() == 0 {
        s
    } else {
        let prev = spec_erase_ranges(s, rs.drop_last());
        let r = rs.last();
        if r.start <= r.end && r.end <= prev.len() {
            crate::codec::spec_fill_range(prev, r.start as int, r.end as int, EMPTY)
        } else {
            prev
        }
    }
}

/// Erasing ranges keeps the buffer length.
pub proof fn lemma_erase_ranges_len(s: Seq<u8>, rs: Seq<RemovableRange>)
    ensures
        spec_erase_ranges(s, rs).len() == s.len(),
    decreases rs.len(),
{
    if rs.len() > 0 {
        lemma_erase_ranges_len(s, rs.drop_last());
    }
}

/// Clear out the removable ranges of a directory inside its byte buffer. A
/// range that is backwards or runs past the buffer is skipped.
pub fn dir_clean<D: Removables>(dir: &D, retention_list: &Vec<String>, data: &mut Vec<u8>)
    ensures
        final(data)@ == spec_erase_ranges(
            old(data)@,
            dir.spec_removables(spec_names(retention_list@)),
        ),
{
    let ranges = dir.removables(retention_list);
    let n = ranges.len();
    let ghost rs = dir.spec_removables(spec_names(retention_list@));
    let mut i: usize = 0;
    while i < n
        invariant
            n == rs.len() == ranges@.len(),
            ranges@ == rs,
            i <= n,
            data@ == spec_erase_ranges(old(data)@, rs.subrange(0, i as int)),
        decreases n - i,
    {
        let r = ranges[i];
        let len = data.len();
        if r.start <= r.end && r.end <= len as u64 {
            crate::codec::fill_range(data, r.start as usize, r.end as usize, EMPTY);
        }
        proof {
            let pre = rs.subrange(0, i + 1);
            assert(pre.drop_last() =~= rs.subrange(0, i as int));
            assert(pre.last() == rs[i as int]);
        }
        i = i + 1;
    }
    proof {
        assert(rs.subrange(0, n as int) =~= rs);
    }
}

/// Whether every range of `rs` that fits is already filled with the erase
/// byte in `t`.
pub open spec fn spec_ranges_filled(t: Seq<u8>, rs: Seq<RemovableRange>) -> bool {
    forall|k: int, p: int|
        #![trigger rs[k], t[p]]
        0 <= k < rs.len() && rs[k].start <= p < rs[k].end && rs[k].end <= t.len() ==> t[p] == EMPTY
}

/// Erasing ranges that are already erased changes nothing.
proof fn lemma_erase_filled(t: Seq<u8>, rs: Seq<RemovableRange>)
    requires
        spec_ranges_filled(t, rs),
    ensures
        spec_erase_ranges(t, rs) == t,
    decreases rs.len(),
{
    if rs.len() > 0 {
        assert(forall|k: int, p: int|
            #![trigger rs.drop_last()[k], t[p]]
            0 <= k < rs.drop_last().len() && rs.drop_last()[k].start <= p < rs.drop_last()[k].end
                && rs.drop_last()[k].end <= t.len() ==> t[p] == EMPTY) by {
            assert(forall|k: int| 0 <= k < rs.drop_last().len() ==> rs.drop_last()[k] == rs[k]);
        }
        lemma_erase_filled(t, rs.drop_last());
        let r = rs.last();
        if r.start <= r.end && r.end <= t.len() {
            assert(crate::codec::spec_fill_range(t, r.start as int, r.end as int, EMPTY) =~= t);
        }
    }
}

/// A pass over the ranges leaves every one of them filled.
proof fn lemma_erase_fills(s: Seq<u8>, rs: Seq<RemovableRange>, k: int, p: int)
    requires
        0 <= k < rs.len(),
        rs[k].start <= p < rs[k].end,
        rs[k].end <= spec_erase_ranges(s, rs).len(),
    ensures
        spec_erase_ranges(s, rs)[p] == EMPTY,
    decreases rs.len(),
{
    lemma_erase_ranges_len(s, rs);
    let prev = spec_erase_ranges(s, rs.drop_last());
    lemma_erase_ranges_len(s, rs.drop_last());
    let r = rs.last();
    if k == rs.len() - 1 {
        assert(r.start <= r.end && r.end <= prev.len());
    } else {
        lemma_erase_fills(s, rs.drop_last(), k, p);
        assert(rs.drop_last()[k] == rs[k]);
    }
}

/// Idempotence: erasing the removable ranges a second time changes nothing;
/// the second pass finds every range already filled with the erase byte.
pub proof fn lemma_erase_ranges_idempotent(s: Seq<u8>, rs: Seq<RemovableRange>)
    ensures
        spec_erase_ranges(spec_erase_ranges(s, rs), rs) == spec_erase_ranges(s, rs),
{
    let t = spec_erase_ranges(s, rs);
    assert forall|k: int, p: int|
        #![trigger rs[k], t[p]]
        0 <= k < rs.len() && rs[k].start <= p < rs[k].end && rs[k].end <= t.len() implies t[p]
        == EMPTY by {
        lemma_erase_fills(s, rs, k, p);
    }
    lemma_erase_filled(t, rs);
}

/// Idempotence: a partition the table's clean pass keeps is kept again by a
/// second pass; filtering the kept entries removes nothing more.
pub proof fn lemma_ftpr_entries_idempotent(s: Seq<crate::fpt::FPTEntry>)
    ensures
        crate::fpt::spec_ftpr_entries(crate::fpt::spec_ftpr_entries(s)) == crate::fpt::spec_ftpr_entries(
            s,
        ),
{
    reveal(Seq::filter);
    let kept = crate::fpt::spec_ftpr_entries(s);
    assert forall|i: int| 0 <= i < kept.len() implies crate::fpt::spec_is_ftpr(#[trigger] kept[i]) by {
        s.lemma_filter_pred(|e: crate::fpt::FPTEntry| crate::fpt::spec_is_ftpr(e), i);
    }
    lemma_filter_all_kept(kept);
}

/// Filtering entries that all carry the kept name removes nothing.
proof fn lemma_filter_all_kept(s: Seq<crate::fpt::FPTEntry>)
    requires
        forall|i: int| 0 <= i < s.len() ==> crate::fpt::spec_is_ftpr(#[trigger] s[i]),
    ensures
        crate::fpt::spec_ftpr_entries(s) == s,
    decreases s.len(),
{
    reveal(Seq::filter);
    if s.len() == 0 {
        assert(crate::fpt::spec_ftpr_entries(s) =~= s);
    } else {
        assert(forall|i: int| 0 <= i < s.drop_last().len() ==> crate::fpt::spec_is_ftpr(
            #[trigger] s.drop_last()[i],
        ));
        lemma_filter_all_kept(s.drop_last());
        assert(crate::fpt::spec_is_ftpr(s.last()));
        assert(crate::fpt::spec_ftpr_entries(s) =~= s);
    }
}

} // verus!
