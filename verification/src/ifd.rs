//! The flash descriptor: the map at the start of a full image that places
//! the flash regions and carries the platform strap bits, among them the
//! bits that soft-disable the ME.
//!
//! The descriptor starts with a signature and a map of section base
//! addresses; the base addresses are compact values meaning bits 4 to 11 of
//! the real addresses, so they are expanded by a 4-bit shift.

use vstd::prelude::*;
use vstd::string::StringExecFns;

use crate::codec::{le32, push_u32, read_u32, u32_at};
use crate::me::Generation;
use crate::ver::Version;
use crate::EMPTY;

verus! {

/// The descriptor magic, in its little-endian representation.
pub const IFD_MAGIC: u32 = 0x0ff0_a55a;

/// The descriptor section written back: signature to straps, excluding the
/// component capability table and what follows it.
pub const IFD_SIZE: usize = 0x800;

const OFFSET: usize = 16;

/// The first map word: where components and regions sit, and how many
/// there are.
#[derive(Clone, Copy, Debug, PartialEq, Eq, Structural)]
pub struct FLMAP0(pub u32);

impl FLMAP0 {
    /// Flash component base address.
    pub fn fcba(&self) -> (r: usize)
        ensures
            r == ((self.0 & 0xff) << 4),
            r <= 0xff0,
    {
        proof {
            let x = self.0;
            assert(((x & 0xff) << 4u32) <= 0xff0) by (bit_vector);
        }
        ((self.0 & 0xff) << 4) as usize
    }

    /// Number of components.
    pub fn nc(&self) -> (r: usize)
        ensures
            r == ((self.0 >> 8) & 3) + 1,
    {
        proof {
            let x = self.0;
            assert(((x >> 8u32) & 3) <= 3) by (bit_vector);
        }
        (((self.0 >> 8) & 3) + 1) as usize
    }

    /// Flash region base address.
    pub fn frba(&self) -> (r: usize)
        ensures
            r == (((self.0 >> 16) & 0xff) << 4),
            r <= 0xff0,
    {
        proof {
            let x = self.0;
            assert((((x >> 16u32) & 0xff) << 4u32) <= 0xff0) by (bit_vector);
        }
        (((self.0 >> 16) & 0xff) << 4) as usize
    }

    /// Number of regions.
    pub fn nr(&self) -> (r: usize)
        ensures
            r == ((self.0 >> 24) & 7) + 1,
    {
        proof {
            let x = self.0;
            assert(((x >> 24u32) & 7) <= 7) by (bit_vector);
        }
        (((self.0 >> 24) & 7) + 1) as usize
    }
}

/// The second map word: where masters and straps sit.
#[derive(Clone, Copy, Debug, PartialEq, Eq, Structural)]
pub struct FLMAP1(pub u32);

impl FLMAP1 {
    /// Flash master base address.
    pub fn fmba(&self) -> (r: usize)
        ensures
            r == ((self.0 & 0xff) << 4),
            r <= 0xff0,
    {
        proof {
            let x = self.0;
            assert(((x & 0xff) << 4u32) <= 0xff0) by (bit_vector);
        }
        ((self.0 & 0xff) << 4) as usize
    }

    /// Number of masters.
    pub fn nm(&self) -> (r: usize)
        ensures
            r == ((self.0 >> 8) & 7) + 1,
    {
        proof {
            let x = self.0;
            assert(((x >> 8u32) & 7) <= 7) by (bit_vector);
        }
        (((self.0 >> 8) & 7) + 1) as usize
    }

    /// Strap section base address.
    pub fn fisba(&self) -> (r: usize)
        ensures
            r == (((self.0 >> 16) & 0xff) << 4),
            r <= 0xff0,
    {
        proof {
            let x = self.0;
            assert((((x >> 16u32) & 0xff) << 4u32) <= 0xff0) by (bit_vector);
        }
        (((self.0 >> 16) & 0xff) << 4) as usize
    }

    /// Strap section length, in words.
    pub fn isl(&self) -> (r: usize)
        ensures
            r == (self.0 >> 24),
            r <= 0xff,
    {
        proof {
            let x = self.0;
            assert((x >> 24u32) <= 0xff) by (bit_vector);
        }
        (self.0 >> 24) as usize
    }
}

/// The third map word: where the processor straps sit.
#[derive(Clone, Copy, Debug, PartialEq, Eq, Structural)]
pub struct FLMAP2(pub u32);

impl FLMAP2 {
    /// Processor strap base address.
    pub fn fmsba(&self) -> (r: usize)
        ensures
            r == ((self.0 & 0xff) << 4),
            r <= 0xff0,
    {
        proof {
            let x = self.0;
            assert(((x & 0xff) << 4u32) <= 0xff0) by (bit_vector);
        }
        ((self.0 & 0xff) << 4) as usize
    }

    /// Processor strap section length, in words.
    pub fn msl(&self) -> (r: usize)
        ensures
            r == ((self.0 >> 8) & 0xff),
            r <= 0xff,
    {
        proof {
            let x = self.0;
            assert(((x >> 8u32) & 0xff) <= 0xff) by (bit_vector);
        }
        ((self.0 >> 8) & 0xff) as usize
    }
}

/// The descriptor header: the magic and the three map words.
#[derive(Clone, Copy, Debug, PartialEq, Eq, Structural)]
pub struct Header {
    pub magic: u32,
    pub flmap0: FLMAP0,
    pub flmap1: FLMAP1,
    pub flmap2: FLMAP2,
    pub flmap3: u32,
}

/// The encoding of the header.
pub open spec fn ifd_header_bytes(h: Header) -> Seq<u8> {
    le32(h.magic) + le32(h.flmap0.0) + le32(h.flmap1.0) + le32(h.flmap2.0) + le32(h.flmap3)
}

/// The packed capability word of one flash component pair.
#[derive(Clone, Copy, Debug, PartialEq, Eq, Structural)]
pub struct FlashComponentConfig(pub u32);

/// Four opcodes the controller refuses.
#[derive(Clone, Copy, Debug, PartialEq, Eq, Structural)]
pub struct FlashInvalidInstructions {
    pub inst1: u8,
    pub inst2: u8,
    pub inst3: u8,
    pub inst4: u8,
}

/// The component section: capabilities and refused opcodes.
#[derive(Clone, Copy, Debug, PartialEq, Eq, Structural)]
pub struct Components {
    pub flcomp: FlashComponentConfig,
    pub flill0: FlashInvalidInstructions,
    pub flill1: FlashInvalidInstructions,
}

/// The encoding of the component section.
pub open spec fn components_bytes(c: Components) -> Seq<u8> {
    le32(c.flcomp.0) + seq![c.flill0.inst1, c.flill0.inst2, c.flill0.inst3, c.flill0.inst4] + seq![
        c.flill1.inst1,
        c.flill1.inst2,
        c.flill1.inst3,
        c.flill1.inst4,
    ]
}

/// One region word: a base and a limit, in 4096-byte units.
#[derive(Clone, Copy, Debug, PartialEq, Eq, Structural)]
pub struct FlashRegion(pub u32);

impl FlashRegion {
    /// The first byte of the region.
    pub fn ba(&self) -> (r: usize)
        ensures
            r == (self.0 & 0x1fff) * 4096,
            r <= 0x1fff000,
    {
        proof {
            let x = self.0;
            assert((x & 0x1fff) <= 0x1fff) by (bit_vector);
        }
        ((self.0 & 0x1fff) as usize) * 4096
    }

    /// The last byte of the region.
    pub fn la(&self) -> (r: usize)
        ensures
            r == ((self.0 >> 16) & 0x1fff) * 4096 + 4095,
            r <= 0x1fff_fff,
    {
        proof {
            let x = self.0;
            assert(((x >> 16u32) & 0x1fff) <= 0x1fff) by (bit_vector);
        }
        (((self.0 >> 16) & 0x1fff) as usize) * 4096 + 4095
    }

    /// The half-open byte range of the region.
    pub fn range(&self) -> (r: (usize, usize))
        ensures
            r.0 == (self.0 & 0x1fff) * 4096,
            r.1 == ((self.0 >> 16) & 0x1fff) * 4096 + 4096,
    {
        (self.ba(), self.la() + 1)
    }
}

/// The region section: where each flash region sits.
#[derive(Clone, Copy, Debug, PartialEq, Eq, Structural)]
pub struct Regions {
    pub flreg0: FlashRegion,
    pub flreg1: FlashRegion,
    pub flreg2: FlashRegion,
    pub flreg3: FlashRegion,
    pub flreg4: FlashRegion,
    pub flreg5: FlashRegion,
    pub flreg6: FlashRegion,
    pub flreg7: FlashRegion,
    pub flreg8: FlashRegion,
    pub flreg9: FlashRegion,
}

impl Regions {
    /// The byte range of the ME region.
    pub fn me_range(&self) -> (r: (usize, usize))
        ensures
            r.0 == (self.flreg2.0 & 0x1fff) * 4096,
            r.1 == ((self.flreg2.0 >> 16) & 0x1fff) * 4096 + 4096,
    {
        self.flreg2.range()
    }

    /// The byte range of the descriptor region.
    pub fn ifd_range(&self) -> (r: (usize, usize))
        ensures
            r.0 == (self.flreg0.0 & 0x1fff) * 4096,
            r.1 == ((self.flreg0.0 >> 16) & 0x1fff) * 4096 + 4096,
    {
        self.flreg0.range()
    }
}

/// The encoding of the region section.
pub open spec fn regions_bytes(r: Regions) -> Seq<u8> {
    le32(r.flreg0.0) + le32(r.flreg1.0) + le32(r.flreg2.0) + le32(r.flreg3.0) + le32(r.flreg4.0)
        + le32(r.flreg5.0) + le32(r.flreg6.0) + le32(r.flreg7.0) + le32(r.flreg8.0) + le32(
        r.flreg9.0,
    )
}

/// One master word of the first access-control layout.
#[derive(Clone, Copy, Debug, PartialEq, Eq, Structural)]
pub struct FlashMasterV1(pub u32);

impl FlashMasterV1 {
    /// The packed word as read from the master section.
    pub fn from_bits(v: u32) -> (r: FlashMasterV1)
        ensures
            r.0 == v,
    {
        FlashMasterV1(v)
    }
}

/// One master word of the second access-control layout.
#[derive(Clone, Copy, Debug, PartialEq, Eq, Structural)]
pub struct FlashMasterV2(pub u32);

impl FlashMasterV2 {
    /// The packed word as read from the master section.
    pub fn from_bits(v: u32) -> (r: FlashMasterV2)
        ensures
            r.0 == v,
    {
        FlashMasterV2(v)
    }
}

/// The parsed descriptor: header, components, regions, masters and straps.
#[derive(Debug)]
pub struct IFD {
    pub header: Header,
    pub components: Components,
    pub regions: Regions,
    pub masters: Vec<u32>,
    pub pch_straps: Vec<u32>,
    pub mch_straps: Vec<u32>,
}

impl Clone for IFD {
    /// An exact copy, field by field.
    fn clone(&self) -> (res: Self)
        ensures
            res.header == self.header,
            res.components == self.components,
            res.regions == self.regions,
            res.masters@ == self.masters@,
            res.pch_straps@ == self.pch_straps@,
            res.mch_straps@ == self.mch_straps@,
    {
        IFD {
            header: self.header,
            components: self.components,
            regions: self.regions,
            masters: clone_words(&self.masters),
            pch_straps: clone_words(&self.pch_straps),
            mch_straps: clone_words(&self.mch_straps),
        }
    }
}

/// An exact copy of a word list.
fn clone_words(v: &Vec<u32>) -> (r: Vec<u32>)
    ensures
        r@ == v@,
{
    let n = v.len();
    let mut r: Vec<u32> = Vec::new();
    let mut i: usize = 0;
    while i < n
        invariant
            n == v@.len(),
            i <= n,
            r@ == v@.subrange(0, i as int),
        decreases n - i,
    {
        r.push(v[i]);
        proof {
            assert(r@ =~= v@.subrange(0, i + 1));
        }
        i = i + 1;
    }
    proof {
        assert(v@.subrange(0, n as int) =~= v@);
    }
    r
}

/// Whether a bit of a strap word list is set; an out-of-range word reads as
/// clear.
pub open spec fn spec_strap_bit(straps: Seq<u32>, word: int, bit: u32) -> bool {
    0 <= word < straps.len() && (straps[word] >> bit) & 1 == 1
}

/// Read one strap bit.
fn extract_bit(straps: &Vec<u32>, word: usize, bit: u32) -> (r: bool)
    requires
        bit < 32,
    ensures
        r == spec_strap_bit(straps@, word as int, bit),
{
    if word < straps.len() {
        (straps[word] >> bit) & 1 == 1
    } else {
        false
    }
}

/// A strap word list after one bit is set or cleared; nothing changes for an
/// out-of-range word.
pub open spec fn spec_set_strap_bit(straps: Seq<u32>, word: int, bit: u32, s: bool) -> Seq<u32> {
    if 0 <= word < straps.len() {
        straps.update(word, ((straps[word] & !(1u32 << bit)) | ((if s { 1u32 } else { 0u32 }) << bit)) as u32)
    } else {
        straps
    }
}

/// Set or clear one strap bit.
fn set_bit(straps: &mut Vec<u32>, word: usize, bit: u32, s: bool)
    requires
        bit < 32,
    ensures
        final(straps)@ == spec_set_strap_bit(old(straps)@, word as int, bit, s),
{
    if word < straps.len() {
        let b = straps[word];
        let v: u32 = if s {
            1u32
        } else {
            0u32
        };
        straps[word] = (b & !(1u32 << bit)) | (v << bit);
    }
}

impl IFD {
    /// Direct connect interface strap.
    pub fn dci(&self) -> (r: bool)
        ensures
            r == spec_strap_bit(self.pch_straps@, 0, 17),
    {
        extract_bit(&self.pch_straps, 0, 17)
    }

    /// Direct connect interface strap.
    pub fn set_dci(&mut self, s: bool)
        ensures
            final(self).pch_straps@ == spec_set_strap_bit(old(self).pch_straps@, 0, 17, s),
            final(self).mch_straps@ == old(self).mch_straps@,
            final(self).header == old(self).header,
            final(self).regions == old(self).regions,
            final(self).components == old(self).components,
            final(self).masters@ == old(self).masters@,
    {
        set_bit(&mut self.pch_straps, 0, 17, s)
    }

    /// High-assurance platform strap: the ME soft-disable for Gen 3.
    pub fn hap(&self) -> (r: bool)
        ensures
            r == spec_strap_bit(self.pch_straps@, 0, 16),
    {
        extract_bit(&self.pch_straps, 0, 16)
    }

    /// High-assurance platform strap: the ME soft-disable for Gen 3.
    pub fn set_hap(&mut self, s: bool)
        ensures
            final(self).pch_straps@ == spec_set_strap_bit(old(self).pch_straps@, 0, 16, s),
            final(self).mch_straps@ == old(self).mch_straps@,
            final(self).header == old(self).header,
            final(self).regions == old(self).regions,
            final(self).components == old(self).components,
            final(self).masters@ == old(self).masters@,
    {
        set_bit(&mut self.pch_straps, 0, 16, s)
    }

    /// I/O controller hub disable strap, Gen 1.
    pub fn ich_me_disabled(&self) -> (r: bool)
        ensures
            r == spec_strap_bit(self.pch_straps@, 0, 0),
    {
        extract_bit(&self.pch_straps, 0, 0)
    }

    /// I/O controller hub disable strap, Gen 1.
    pub fn set_ich_me_disabled(&mut self, s: bool)
        ensures
            final(self).pch_straps@ == spec_set_strap_bit(old(self).pch_straps@, 0, 0, s),
            final(self).mch_straps@ == old(self).mch_straps@,
            final(self).header == old(self).header,
            final(self).regions == old(self).regions,
            final(self).components == old(self).components,
            final(self).masters@ == old(self).masters@,
    {
        set_bit(&mut self.pch_straps, 0, 0, s)
    }

    /// Memory controller hub disable strap, Gen 1.
    pub fn mch_me_disabled(&self) -> (r: bool)
        ensures
            r == spec_strap_bit(self.mch_straps@, 0, 0),
    {
        extract_bit(&self.mch_straps, 0, 0)
    }

    /// Memory controller hub disable strap, Gen 1.
    pub fn set_mch_me_disabled(&mut self, s: bool)
        ensures
            final(self).mch_straps@ == spec_set_strap_bit(old(self).mch_straps@, 0, 0, s),
            final(self).pch_straps@ == old(self).pch_straps@,
            final(self).header == old(self).header,
            final(self).regions == old(self).regions,
            final(self).components == old(self).components,
            final(self).masters@ == old(self).masters@,
    {
        set_bit(&mut self.mch_straps, 0, 0, s)
    }

    /// Alternative memory controller hub disable strap, Gen 1.
    pub fn mch_alt_me_disabled(&self) -> (r: bool)
        ensures
            r == spec_strap_bit(self.mch_straps@, 0, 7),
    {
        extract_bit(&self.mch_straps, 0, 7)
    }

    /// Alternative memory controller hub disable strap, Gen 1.
    pub fn set_mch_alt_me_disabled(&mut self, s: bool)
        ensures
            final(self).mch_straps@ == spec_set_strap_bit(old(self).mch_straps@, 0, 7, s),
            final(self).pch_straps@ == old(self).pch_straps@,
            final(self).header == old(self).header,
            final(self).regions == old(self).regions,
            final(self).components == old(self).components,
            final(self).masters@ == old(self).masters@,
    {
        set_bit(&mut self.mch_straps, 0, 7, s)
    }

    /// Alternative disable strap, Gen 2.
    pub fn alt_me_disabled(&self) -> (r: bool)
        ensures
            r == spec_strap_bit(self.pch_straps@, 10, 7),
    {
        extract_bit(&self.pch_straps, 10, 7)
    }

    /// Alternative disable strap, Gen 2.
    pub fn set_alt_me_disabled(&mut self, s: bool)
        ensures
            final(self).pch_straps@ == spec_set_strap_bit(old(self).pch_straps@, 10, 7, s),
            final(self).mch_straps@ == old(self).mch_straps@,
            final(self).header == old(self).header,
            final(self).regions == old(self).regions,
            final(self).components == old(self).components,
            final(self).masters@ == old(self).masters@,
    {
        set_bit(&mut self.pch_straps, 10, 7, s)
    }

    /// Disable the ME for Gen 3: set the high-assurance platform bit. Only
    /// major version 11 is known to carry the bit here.
    ///
    /// See `spec_strap_ok` for when any generation's strap can be set.
    pub fn disable_me_gen3(&mut self, me_ver: &Option<Version>) -> (r: Result<(), String>)
        ensures
            (r is Err) <==> (*me_ver matches Some(v) && v.major != 11),
            final(self).header == old(self).header,
            final(self).components == old(self).components,
            final(self).regions == old(self).regions,
            final(self).masters@ == old(self).masters@,
            final(self).mch_straps@ == old(self).mch_straps@,
            r is Ok ==> (match *me_ver {
                Some(_) => final(self).pch_straps@ == spec_set_strap_bit(
                    old(self).pch_straps@,
                    0,
                    16,
                    true,
                ),
                None => final(self).pch_straps@ == old(self).pch_straps@,
            }),
            r is Err ==> final(self).pch_straps@ == old(self).pch_straps@,
    {
        match me_ver {
            Some(ver) => {
                if ver.major == 11 {
                    self.set_hap(true);
                    Ok(())
                } else {
                    Err(String::from_str("this major version is not yet supported"))
                }
            },
            None => Ok(()),
        }
    }

    /// Disable the ME with the strap of the given generation: Gen 1 sets the
    /// two controller-hub bits, Gen 2 the alternative disable bit, Gen 3 the
    /// high-assurance platform bit; nothing else changes, and on failure
    /// nothing at all does.
    pub fn disable_me(&mut self, me_gen: &Generation, me_ver: &Option<Version>) -> (r: Result<
        (),
        String,
    >)
        ensures
            (r is Err) <==> !spec_strap_ok(*me_gen, *me_ver),
            final(self).header == old(self).header,
            final(self).components == old(self).components,
            final(self).regions == old(self).regions,
            final(self).masters@ == old(self).masters@,
            r is Ok ==> final(self).pch_straps@ == spec_disabled_pch(
                old(self).pch_straps@,
                *me_gen,
                *me_ver,
            ),
            r is Ok ==> final(self).mch_straps@ == spec_disabled_mch(
                old(self).mch_straps@,
                *me_gen,
            ),
            r is Err ==> (final(self).pch_straps@ == old(self).pch_straps@
                && final(self).mch_straps@ == old(self).mch_straps@),
    {
        match me_gen {
            Generation::Gen1 => {
                self.set_ich_me_disabled(true);
                self.set_mch_me_disabled(true);
                Ok(())
            },
            Generation::Gen2 => {
                self.set_alt_me_disabled(true);
                Ok(())
            },
            Generation::Gen3 => self.disable_me_gen3(me_ver),
            Generation::Unknown => Err(String::from_str("unknown generation")),
        }
    }
}

/// Whether the soft-disable strap of this generation and version can be
/// set: every generation but an unknown one, and for Gen 3 only major
/// version 11 (or an unknown version, which leaves the straps alone).
pub open spec fn spec_strap_ok(gen: Generation, ver: Option<Version>) -> bool {
    match gen {
        Generation::Unknown => false,
        Generation::Gen3 => match ver {
            Some(v) => v.major == 11,
            None => true,
        },
        _ => true,
    }
}

/// The platform strap words after the generation's disable bits are set.
pub open spec fn spec_disabled_pch(pch: Seq<u32>, gen: Generation, ver: Option<Version>) -> Seq<
    u32,
> {
    match gen {
        Generation::Gen1 => spec_set_strap_bit(pch, 0, 0, true),
        Generation::Gen2 => spec_set_strap_bit(pch, 10, 7, true),
        Generation::Gen3 => match ver {
            Some(_) => spec_set_strap_bit(pch, 0, 16, true),
            None => pch,
        },
        Generation::Unknown => pch,
    }
}

/// The processor strap words after the generation's disable bits are set.
pub open spec fn spec_disabled_mch(mch: Seq<u32>, gen: Generation) -> Seq<u32> {
    match gen {
        Generation::Gen1 => spec_set_strap_bit(mch, 0, 0, true),
        _ => mch,
    }
}

/// A buffer after `bytes` are written at `off`; nothing changes when they do
/// not fit.
pub open spec fn spec_write_at(acc: Seq<u8>, off: int, bytes: Seq<u8>) -> Seq<u8> {
    if 0 <= off && off + bytes.len() <= acc.len() {
        acc.subrange(0, off) + bytes + acc.subrange(off + bytes.len(), acc.len() as int)
    } else {
        acc
    }
}

/// The words of a list, encoded in order.
pub open spec fn words_bytes(s: Seq<u32>) -> Seq<u8>
    decreases s.len(),
{
    if s.len() == 0 {
        Seq::empty()
    } else {
        words_bytes(s.drop_last()) + le32(s.last())
    }
}

/// An encoded descriptor is always one section-table page.
pub proof fn lemma_ifd_bytes_len(ifd: IFD)
    ensures
        spec_ifd_bytes(ifd).len() == 0x800,
{
}

/// The bytes of the descriptor with the generation's disable strap bits
/// set: `spec_ifd_bytes` over the strap-updated words.
pub open spec fn spec_disabled_ifd_bytes(ifd: IFD, gen: Generation, ver: Option<Version>) -> Seq<
    u8,
> {
    let acc = Seq::new(0x800nat, |i: int| EMPTY);
    let acc = spec_write_at(acc, 16, ifd_header_bytes(ifd.header));
    let acc = spec_write_at(
        acc,
        ((ifd.header.flmap0.0 & 0xff) << 4) as int,
        components_bytes(ifd.components),
    );
    let acc = spec_write_at(
        acc,
        (((ifd.header.flmap0.0 >> 16) & 0xff) << 4) as int,
        regions_bytes(ifd.regions),
    );
    let acc = spec_write_at(
        acc,
        ((ifd.header.flmap1.0 & 0xff) << 4) as int,
        words_bytes(ifd.masters@),
    );
    let acc = spec_write_at(
        acc,
        (((ifd.header.flmap1.0 >> 16) & 0xff) << 4) as int,
        words_bytes(spec_disabled_pch(ifd.pch_straps@, gen, ver)),
    );
    spec_write_at(
        acc,
        ((ifd.header.flmap2.0 & 0xff) << 4) as int,
        words_bytes(spec_disabled_mch(ifd.mch_straps@, gen)),
    )
}

/// The bytes `IFD::to_vec` writes: each section at its mapped base inside an
/// erased buffer; a section that does not fit is skipped.
pub open spec fn spec_ifd_bytes(ifd: IFD) -> Seq<u8> {
    let acc = Seq::new(0x800nat, |i: int| EMPTY);
    let acc = spec_write_at(acc, 16, ifd_header_bytes(ifd.header));
    let acc = spec_write_at(acc, ((ifd.header.flmap0.0 & 0xff) << 4) as int, components_bytes(ifd.components));
    let acc = spec_write_at(
        acc,
        (((ifd.header.flmap0.0 >> 16) & 0xff) << 4) as int,
        regions_bytes(ifd.regions),
    );
    let acc = spec_write_at(acc, ((ifd.header.flmap1.0 & 0xff) << 4) as int, words_bytes(ifd.masters@));
    let acc = spec_write_at(
        acc,
        (((ifd.header.flmap1.0 >> 16) & 0xff) << 4) as int,
        words_bytes(ifd.pch_straps@),
    );
    spec_write_at(acc, ((ifd.header.flmap2.0 & 0xff) << 4) as int, words_bytes(ifd.mch_straps@))
}

impl IFD {
    /// Encode the descriptor: every section written at its mapped base
    /// inside an erased buffer.
    pub fn to_vec(self) -> (r: Vec<u8>)
        ensures
            r@ == spec_ifd_bytes(self),
    {
        let mut res: Vec<u8> = Vec::new();
        crate::codec::resize_bytes(&mut res, IFD_SIZE, EMPTY);
        proof {
            assert(res@ =~= Seq::new(0x800nat, |i: int| EMPTY));
        }
        let mut hdr: Vec<u8> = Vec::new();
        push_u32(&mut hdr, self.header.magic);
        push_u32(&mut hdr, self.header.flmap0.0);
        push_u32(&mut hdr, self.header.flmap1.0);
        push_u32(&mut hdr, self.header.flmap2.0);
        push_u32(&mut hdr, self.header.flmap3);
        proof {
            assert(hdr@ =~= ifd_header_bytes(self.header));
        }
        write_section(&mut res, OFFSET, &hdr);
        let mut comp: Vec<u8> = Vec::new();
        push_u32(&mut comp, self.components.flcomp.0);
        comp.push(self.components.flill0.inst1);
        comp.push(self.components.flill0.inst2);
        comp.push(self.components.flill0.inst3);
        comp.push(self.components.flill0.inst4);
        comp.push(self.components.flill1.inst1);
        comp.push(self.components.flill1.inst2);
        comp.push(self.components.flill1.inst3);
        comp.push(self.components.flill1.inst4);
        proof {
            assert(comp@ =~= components_bytes(self.components));
        }
        write_section(&mut res, self.header.flmap0.fcba(), &comp);
        let mut regs: Vec<u8> = Vec::new();
        push_u32(&mut regs, self.regions.flreg0.0);
        push_u32(&mut regs, self.regions.flreg1.0);
        push_u32(&mut regs, self.regions.flreg2.0);
        push_u32(&mut regs, self.regions.flreg3.0);
        push_u32(&mut regs, self.regions.flreg4.0);
        push_u32(&mut regs, self.regions.flreg5.0);
        push_u32(&mut regs, self.regions.flreg6.0);
        push_u32(&mut regs, self.regions.flreg7.0);
        push_u32(&mut regs, self.regions.flreg8.0);
        push_u32(&mut regs, self.regions.flreg9.0);
        proof {
            assert(regs@ =~= regions_bytes(self.regions));
        }
        write_section(&mut res, self.header.flmap0.frba(), &regs);
        let masters = push_words(&self.masters);
        write_section(&mut res, self.header.flmap1.fmba(), &masters);
        let pch = push_words(&self.pch_straps);
        write_section(&mut res, self.header.flmap1.fisba(), &pch);
        let mch = push_words(&self.mch_straps);
        write_section(&mut res, self.header.flmap2.fmsba(), &mch);
        res
    }

    /// Parse a descriptor: the magic at its fixed place, then each section
    /// from its mapped base. Fails exactly when the bytes are too short for
    /// the map, the magic is wrong, or a section runs past the given bytes.
    #[verifier::rlimit(100)]
    pub fn parse(data: &[u8]) -> (r: Result<IFD, IfdError>)
        ensures
            (r is Ok) <==> spec_ifd_ok(data@),
            r matches Ok(ifd) ==> spec_ifd_parsed(ifd, data@),
    {
        let n = data.len();
        if n < 36 {
            return Err(IfdError::NoIfd(String::from_str("too short for the descriptor map")));
        }
        let magic = read_u32(data, OFFSET);
        if magic != IFD_MAGIC {
            return Err(IfdError::NoIfd(String::from_str("magic not as expected")));
        }
        let flmap0 = FLMAP0(read_u32(data, OFFSET + 4));
        let flmap1 = FLMAP1(read_u32(data, OFFSET + 8));
        let flmap2 = FLMAP2(read_u32(data, OFFSET + 12));
        let flmap3 = read_u32(data, OFFSET + 16);
        let header = Header { magic, flmap0, flmap1, flmap2, flmap3 };
        proof {
            assert(ifd_header_bytes(header) =~= data@.subrange(16, 36));
        }
        let components_offset = flmap0.fcba();
        let regions_offset = flmap0.frba();
        let masters_offset = flmap1.fmba();
        let pch_straps_offset = flmap1.fisba();
        let mch_straps_offset = flmap2.fmsba();
        let isl = flmap1.isl();
        let msl = flmap2.msl();
        if components_offset + 12 > n || regions_offset + 40 > n || masters_offset + 32 > n
            || pch_straps_offset + 4 * isl > n || mch_straps_offset + 4 * msl > n {
            return Err(IfdError::NoIfd(String::from_str("a section runs past the given bytes")));
        }
        let flcomp = FlashComponentConfig(read_u32(data, components_offset));
        let flill0 = FlashInvalidInstructions {
            inst1: data[components_offset + 4],
            inst2: data[components_offset + 5],
            inst3: data[components_offset + 6],
            inst4: data[components_offset + 7],
        };
        let flill1 = FlashInvalidInstructions {
            inst1: data[components_offset + 8],
            inst2: data[components_offset + 9],
            inst3: data[components_offset + 10],
            inst4: data[components_offset + 11],
        };
        let components = Components { flcomp, flill0, flill1 };
        proof {
            assert(components_bytes(components) =~= data@.subrange(
                components_offset as int,
                components_offset + 12,
            ));
        }
        let regions = Regions {
            flreg0: FlashRegion(read_u32(data, regions_offset)),
            flreg1: FlashRegion(read_u32(data, regions_offset + 4)),
            flreg2: FlashRegion(read_u32(data, regions_offset + 8)),
            flreg3: FlashRegion(read_u32(data, regions_offset + 12)),
            flreg4: FlashRegion(read_u32(data, regions_offset + 16)),
            flreg5: FlashRegion(read_u32(data, regions_offset + 20)),
            flreg6: FlashRegion(read_u32(data, regions_offset + 24)),
            flreg7: FlashRegion(read_u32(data, regions_offset + 28)),
            flreg8: FlashRegion(read_u32(data, regions_offset + 32)),
            flreg9: FlashRegion(read_u32(data, regions_offset + 36)),
        };
        proof {
            assert(regions_bytes(regions) =~= data@.subrange(
                regions_offset as int,
                regions_offset + 40,
            ));
        }
        let masters = read_words(data, masters_offset, 8);
        let pch_straps = read_words(data, pch_straps_offset, isl);
        let mch_straps = read_words(data, mch_straps_offset, msl);
        Ok(IFD { header, components, regions, masters, pch_straps, mch_straps })
    }
}

/// How a descriptor can fail to parse.
#[derive(Clone, Debug)]
pub enum IfdError {
    NoIfd(String),
}

/// Whether a descriptor parses from `data`: enough bytes for the map, the
/// magic at its fixed place, and every mapped section within the bytes.
pub open spec fn spec_ifd_ok(data: Seq<u8>) -> bool {
    &&& data.len() >= 36
    &&& u32_at(data, 16) == IFD_MAGIC
    &&& ((u32_at(data, 20) & 0xff) << 4) + 12 <= data.len()
    &&& (((u32_at(data, 20) >> 16) & 0xff) << 4) + 40 <= data.len()
    &&& ((u32_at(data, 24) & 0xff) << 4) + 32 <= data.len()
    &&& (((u32_at(data, 24) >> 16) & 0xff) << 4) + 4 * (u32_at(data, 24) >> 24) <= data.len()
    &&& ((u32_at(data, 28) & 0xff) << 4) + 4 * ((u32_at(data, 28) >> 8) & 0xff) <= data.len()
}

/// What it means for a parsed descriptor to come from `data`.
pub open spec fn spec_ifd_parsed(ifd: IFD, data: Seq<u8>) -> bool {
    &&& ifd_header_bytes(ifd.header) == data.subrange(16, 36)
    &&& ifd.header.magic == IFD_MAGIC
    &&& components_bytes(ifd.components) == data.subrange(
        ((ifd.header.flmap0.0 & 0xff) << 4) as int,
        ((ifd.header.flmap0.0 & 0xff) << 4) + 12,
    )
    &&& regions_bytes(ifd.regions) == data.subrange(
        (((ifd.header.flmap0.0 >> 16) & 0xff) << 4) as int,
        (((ifd.header.flmap0.0 >> 16) & 0xff) << 4) + 40,
    )
    &&& ifd.masters@.len() == 8
    &&& words_bytes(ifd.masters@) == data.subrange(
        ((ifd.header.flmap1.0 & 0xff) << 4) as int,
        ((ifd.header.flmap1.0 & 0xff) << 4) + 32,
    )
    &&& ifd.pch_straps@.len() == ifd.header.flmap1.0 >> 24
    &&& words_bytes(ifd.pch_straps@) == data.subrange(
        (((ifd.header.flmap1.0 >> 16) & 0xff) << 4) as int,
        (((ifd.header.flmap1.0 >> 16) & 0xff) << 4) + 4 * (ifd.header.flmap1.0 >> 24),
    )
    &&& ifd.mch_straps@.len() == (ifd.header.flmap2.0 >> 8) & 0xff
    &&& words_bytes(ifd.mch_straps@) == data.subrange(
        ((ifd.header.flmap2.0 & 0xff) << 4) as int,
        ((ifd.header.flmap2.0 & 0xff) << 4) + 4 * ((ifd.header.flmap2.0 >> 8) & 0xff),
    )
}

/// Decode `count` words from `off`.
fn read_words(data: &[u8], off: usize, count: usize) -> (r: Vec<u32>)
    requires
        off + 4 * count <= data@.len(),
    ensures
        r@.len() == count,
        words_bytes(r@) == data@.subrange(off as int, off + 4 * count),
{
    let n = data.len();
    let mut r: Vec<u32> = Vec::new();
    let mut i: usize = 0;
    proof {
        assert(words_bytes(r@) =~= data@.subrange(off as int, off as int));
    }
    while i < count
        invariant
            off + 4 * count <= n == data@.len(),
            i <= count,
            r@.len() == i,
            words_bytes(r@) == data@.subrange(off as int, off + 4 * i),
        decreases count - i,
    {
        let w = read_u32(data, off + 4 * i);
        let ghost prev = r@;
        r.push(w);
        proof {
            assert(r@.drop_last() =~= prev);
            assert(data@.subrange(off as int, off + 4 * i) + data@.subrange(
                off + 4 * i,
                off + 4 * (i + 1),
            ) =~= data@.subrange(off as int, off + 4 * (i + 1)));
            assert(words_bytes(r@) =~= data@.subrange(off as int, off + 4 * (i + 1)));
        }
        i = i + 1;
    }
    r
}

/// The words of a list, encoded in order.
fn push_words(v: &Vec<u32>) -> (r: Vec<u8>)
    ensures
        r@ == words_bytes(v@),
{
    let n = v.len();
    let mut r: Vec<u8> = Vec::new();
    let mut i: usize = 0;
    proof {
        assert(r@ =~= words_bytes(v@.subrange(0, 0)));
    }
    while i < n
        invariant
            n == v@.len(),
            i <= n,
            r@ == words_bytes(v@.subrange(0, i as int)),
        decreases n - i,
    {
        push_u32(&mut r, v[i]);
        proof {
            let pre = v@.subrange(0, i + 1);
            assert(pre.drop_last() =~= v@.subrange(0, i as int));
            assert(pre.last() == v@[i as int]);
            assert(r@ =~= words_bytes(pre));
        }
        i = i + 1;
    }
    proof {
        assert(v@.subrange(0, n as int) =~= v@);
    }
    r
}

/// Write a section over the buffer at `off`; skip it when it does not fit.
fn write_section(res: &mut Vec<u8>, off: usize, bytes: &Vec<u8>)
    ensures
        final(res)@ == spec_write_at(old(res)@, off as int, bytes@),
{
    let bl = bytes.len();
    let rl = res.len();
    if bl <= rl && off <= rl - bl {
        crate::codec::splice_bytes(res, off, bytes.as_slice());
    }
}

} // verus!
