//! The clean pass over a whole image: soft-disable straps first when asked,
//! then the region rebuilt with only the retained partitions and modules.

use vstd::prelude::*;
use vstd::string::StringExecFns;

use crate::ifd::{
    spec_disabled_ifd_bytes, spec_strap_ok, spec_write_at, IfdError, IFD,
};
use crate::me::{spec_fpt_area_bytes, FPTArea, ME};
use crate::part::generic::{ClearOptions, Partition};
use crate::part::partitions::{spec_entries, spec_entry_offset, spec_last_entry, Partitions};

verus! {

/// What a clean pass should do.
pub struct Options {
    /// Keep the modules of the retained code partition untouched.
    pub keep_modules: bool,
    /// Move the retained partition down and rebase what it holds.
    pub relocate: bool,
    /// Partition names to keep unconditionally.
    pub parts_force_retention: Vec<String>,
    /// Partition names to remove unconditionally.
    pub parts_force_deletion: Vec<String>,
    /// Also set the generation's soft-disable strap.
    pub disable_me: bool,
    /// Only set the soft-disable strap and change nothing else.
    pub disable_me_only: bool,
}

/// The partition-filter options a clean request carries.
pub open spec fn spec_clear_options(options: Options) -> ClearOptions {
    ClearOptions {
        keep_modules: options.keep_modules,
        parts_force_retention: options.parts_force_retention,
        parts_force_deletion: options.parts_force_deletion,
    }
}

/// The image after the strap phase: the descriptor re-encoded with the
/// generation's disable bits set and written over the image start, when a
/// strap was asked for, a descriptor is there, and its strap can be set;
/// the image unchanged otherwise.
pub open spec fn spec_strap_phase(
    data: Seq<u8>,
    ifd: Result<IFD, IfdError>,
    me: ME,
    options: Options,
) -> Seq<u8> {
    if (options.disable_me || options.disable_me_only) && ifd is Ok && spec_strap_ok(
        me.generation,
        me.version,
    ) {
        spec_write_at(data, 0, spec_disabled_ifd_bytes(ifd->Ok_0, me.generation, me.version))
    } else {
        data
    }
}

/// The table entries the clean pass keeps, per generation.
pub open spec fn spec_cleaned_entries(parts: Partitions, co: &ClearOptions) -> Seq<
    crate::fpt::FPTEntry,
> {
    match parts {
        Partitions::Gen2(ps) => crate::part::gen2::spec_gen2_retained(ps@, co).map_values(
            |q: crate::part::gen2::Gen2Partition| q.spec_entry(),
        ),
        Partitions::Gen3(ps) => crate::part::gen3::spec_gen3_retained(ps@, co).map_values(
            |q: crate::part::gen3::Gen3Partition| q.spec_entry(),
        ),
        Partitions::Unknown(ps) => ps@.map_values(
            |q: crate::part::generic::GenUnknownPartition| q.spec_entry(),
        ),
    }
}

/// When a full clean pass without relocation is owed success: the table is
/// countable, some retained partition still has bytes, and the rebuilt
/// region fits the image at the region's base.
pub open spec fn spec_clean_ok(me: ME, options: Options, dl: int) -> bool {
    let co = spec_clear_options(options);
    let entries = spec_cleaned_entries(me.fpt_area.partitions, &co);
    &&& me.fpt_area.fpt.entries@.len() <= u32::MAX
    &&& match spec_last_entry(entries) {
        Some(last) => {
            let size = spec_entry_offset(last) + last.size;
            &&& size + 4095 <= usize::MAX
            &&& me.base + ((size + 4095) / 4096) * 4096 <= dl
        },
        None => false,
    }
}

/// What the region bytes spliced back are built from. Without relocation it
/// is exactly the cleaned area; with relocation, the area the clean pass
/// produced before the move, whose table framing survives.
pub open spec fn spec_cleaned_region(area: FPTArea, me: ME, options: Options) -> bool {
    if options.relocate {
        &&& area.fpt.pre_header@ == me.fpt_area.fpt.pre_header@
        &&& area.fpt.original_size == me.fpt_area.fpt.original_size
        &&& area.original_size == me.fpt_area.original_size
    } else {
        spec_cleaned_area(area, me, options)
    }
}

/// The area a clean pass without relocation produces: the table cleared, the
/// partitions filtered and their retained directory erased, the gaps and
/// sizes untouched.
pub open spec fn spec_cleaned_area(area: FPTArea, me: ME, options: Options) -> bool {
    let co = spec_clear_options(options);
    &&& crate::fpt::spec_fpt_cleared(area.fpt, me.fpt_area.fpt)
    &&& (match me.fpt_area.partitions {
        Partitions::Gen2(ps) => area.partitions matches Partitions::Gen2(r)
            && crate::part::gen2::spec_gen2_clean_rel(ps@, r@, &co),
        Partitions::Gen3(ps) => area.partitions matches Partitions::Gen3(r)
            && crate::part::gen3::spec_gen3_clean_rel(ps@, r@, &co),
        Partitions::Unknown(ps) => area.partitions matches Partitions::Unknown(r) && r@.len()
            == ps@.len() && (forall|i: int|
            0 <= i < ps@.len() ==> (#[trigger] r@[i]).spec_entry() == ps@[i].spec_entry()
                && r@[i].spec_data() == ps@[i].spec_data()),
    })
    &&& area.non_covered == me.fpt_area.non_covered
    &&& area.original_size == me.fpt_area.original_size
}

/// Run a clean pass over the image bytes: set the soft-disable strap when
/// asked, drop the removable partitions and modules of the region, relocate
/// when asked, and splice the rebuilt region back over the region's base.
/// The returned bytes are the mutated image.
pub fn clean(ifd: &Result<IFD, IfdError>, me: ME, data: &mut Vec<u8>, options: Options) -> (r:
    Result<Vec<u8>, String>)
    ensures
        r matches Ok(v) ==> v@ == final(data)@,
        final(data)@.len() == old(data)@.len(),
        options.disable_me_only ==> ((r is Ok) <==> (ifd is Ok && spec_strap_ok(
            me.generation,
            me.version,
        ))),
        options.disable_me_only ==> (r is Ok ==> final(data)@ == spec_strap_phase(
            old(data)@,
            *ifd,
            me,
            options,
        )),
        !options.disable_me_only ==> ({
            let d1 = spec_strap_phase(old(data)@, *ifd, me, options);
            &&& (!options.relocate ==> ((r is Ok) <==> spec_clean_ok(
                me,
                options,
                old(data)@.len() as int,
            )))
            &&& (r is Ok ==> exists|area: FPTArea|
                #[trigger] spec_cleaned_region(area, me, options) && final(data)@ == spec_write_at(
                    d1,
                    me.base as int,
                    spec_fpt_area_bytes(area),
                ))
        }),
{
    let ghost d0 = data@;
    if options.disable_me || options.disable_me_only {
        if let Ok(parsed) = ifd {
            let mut new_ifd = parsed.clone();
            match new_ifd.disable_me(&me.generation, &me.version) {
                Err(e) => {
                    if options.disable_me_only {
                        return Err(e);
                    }
                    // The strap could not be set; the clean pass itself goes
                    // on with the image unchanged.
                },
                Ok(_) => {
                    let encoded = new_ifd.to_vec();
                    proof {
                        crate::ifd::lemma_ifd_bytes_len(new_ifd);
                        assert(encoded@ == spec_disabled_ifd_bytes(
                            *parsed,
                            me.generation,
                            me.version,
                        ));
                    }
                    let el = encoded.len();
                    if el <= data.len() {
                        crate::codec::splice_bytes(data, 0, encoded.as_slice());
                        proof {
                            assert(data@.subrange(0, 0) =~= Seq::<u8>::empty());
                            assert(data@ =~= spec_write_at(d0, 0, encoded@));
                        }
                    }
                    proof {
                        assert(data@ == spec_strap_phase(d0, *ifd, me, options));
                    }
                },
            }
            if options.disable_me_only {
                let copy = crate::codec::read_vec(data.as_slice(), 0, data.len());
                proof {
                    assert(copy@ =~= data@);
                }
                return Ok(copy);
            }
        } else if options.disable_me_only {
            return Err(String::from_str("no descriptor to set the strap in"));
        }
    }
    proof {
        assert(data@ == spec_strap_phase(d0, *ifd, me, options));
    }
    let ghost d1 = data@;
    let mut area = me.fpt_area;
    if area.fpt.entries.len() > 0xffff_ffffusize {
        return Err(String::from_str("too many table entries"));
    }
    let opts = ClearOptions {
        keep_modules: options.keep_modules,
        parts_force_retention: options.parts_force_retention,
        parts_force_deletion: options.parts_force_deletion,
    };
    proof {
        assert(opts == spec_clear_options(options));
    }
    area.clean(&opts);
    proof {
        assert(spec_cleaned_area(area, me, options));
        if !options.relocate {
            lemma_cleaned_entries(area, me, options);
        }
    }
    if options.relocate {
        // A failed relocation does not stop the clean pass.
        let _ = area.relocate_partitions();
    }
    match area.to_vec() {
        Ok(cleaned) => {
            proof {
                crate::me::lemma_fpt_area_bytes_len(area);
            }
            let cl = cleaned.len();
            let dl = data.len();
            if me.base <= dl && cl <= dl - me.base {
                crate::codec::splice_bytes(data, me.base, cleaned.as_slice());
                proof {
                    assert(data@ =~= spec_write_at(d1, me.base as int, cleaned@));
                }
                let copy = crate::codec::read_vec(data.as_slice(), 0, data.len());
                proof {
                    assert(copy@ =~= data@);
                    assert(spec_cleaned_region(area, me, options) && copy@ == spec_write_at(
                        d1,
                        me.base as int,
                        spec_fpt_area_bytes(area),
                    ));
                }
                Ok(copy)
            } else {
                proof {
                    if !options.relocate {
                        assert(!spec_clean_ok(me, options, old(data)@.len() as int));
                    }
                }
                Err(String::from_str("the rebuilt region does not fit the image"))
            }
        },
        Err(e) => {
            proof {
                if !options.relocate {
                    assert(!spec_clean_ok(me, options, old(data)@.len() as int));
                }
            }
            Err(e)
        },
    }
}

/// The entries of the cleaned partitions are exactly the retained entries.
proof fn lemma_cleaned_entries(area: FPTArea, me: ME, options: Options)
    requires
        spec_cleaned_area(area, me, options),
    ensures
        spec_entries(area.partitions) == spec_cleaned_entries(
            me.fpt_area.partitions,
            &spec_clear_options(options),
        ),
{
    let co = spec_clear_options(options);
    match me.fpt_area.partitions {
        Partitions::Gen2(ps) => {
            let r = area.partitions->Gen2_0;
            let kept = crate::part::gen2::spec_gen2_retained(ps@, &co);
            assert forall|i: int| 0 <= i < kept.len() implies #[trigger] spec_entries(
                area.partitions,
            )[i] == kept[i].spec_entry() by {
                assert(r@[i].spec_entry() == kept[i].spec_entry());
            }
            assert(spec_entries(area.partitions) =~= spec_cleaned_entries(
                me.fpt_area.partitions,
                &co,
            ));
        },
        Partitions::Gen3(ps) => {
            let r = area.partitions->Gen3_0;
            let kept = crate::part::gen3::spec_gen3_retained(ps@, &co);
            assert forall|i: int| 0 <= i < kept.len() implies #[trigger] spec_entries(
                area.partitions,
            )[i] == kept[i].spec_entry() by {
                assert(r@[i].spec_entry() == kept[i].spec_entry());
            }
            assert(spec_entries(area.partitions) =~= spec_cleaned_entries(
                me.fpt_area.partitions,
                &co,
            ));
        },
        Partitions::Unknown(ps) => {
            assert(spec_entries(area.partitions) =~= spec_cleaned_entries(
                me.fpt_area.partitions,
                &co,
            ));
        },
    }
}

} // verus!
