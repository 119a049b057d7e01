use intel_fw::fpt::FPT;
use intel_fw::ifwi::{BPDT, PreIFWI};
use intel_fw::me::{Generation, ME};
use intel_fw::meta::{get_meta_for_key, Variant};
use intel_fw::part::generic::ClearOptions;
use intel_fw::part::partitions::Partitions;

fn push_u32(v: &mut Vec<u8>, x: u32) {
    v.extend_from_slice(&x.to_le_bytes());
}

fn push_u16(v: &mut Vec<u8>, x: u16) {
    v.extend_from_slice(&x.to_le_bytes());
}

fn push_fpt_header(v: &mut Vec<u8>, entries: u32, checksum: u8, flags: u32) {
    v.extend_from_slice(b"$FPT");
    push_u32(v, entries);
    v.push(0x20);
    v.push(0x10);
    v.push(0x30);
    v.push(checksum);
    push_u16(v, 0);
    push_u16(v, 0);
    push_u32(v, 0);
    push_u32(v, flags);
    push_u16(v, 11);
    push_u16(v, 0);
    push_u16(v, 25);
    push_u16(v, 1341);
}

fn push_fpt_entry(v: &mut Vec<u8>, name: &[u8; 4], offset: u32, size: u32) {
    v.extend_from_slice(name);
    v.extend_from_slice(b"\0\0\0\0");
    push_u32(v, offset);
    push_u32(v, size);
    push_u32(v, 0);
    push_u32(v, 0);
    push_u32(v, 0);
    push_u32(v, 0);
}

/// A small Gen 3 region: a table with two entries, a directory partition
/// named FTPR, and a data partition that the clean pass removes.
fn gen3_region() -> Vec<u8> {
    let mut v = Vec::new();
    push_fpt_header(&mut v, 2, 0, 1);
    push_fpt_entry(&mut v, b"FTPR", 0x1000, 0x3000);
    push_fpt_entry(&mut v, b"MFS\0", 0x4000, 0x1000);
    // The FTPR partition: a directory at 0x1000.
    v.resize(0x1000, 0xff);
    v.extend_from_slice(b"$CPD");
    push_u32(&mut v, 1);
    push_u32(&mut v, 0x14);
    v.extend_from_slice(b"FTPR");
    let mut name = [0u8; 12];
    name[..7].copy_from_slice(b"bringup");
    v.extend_from_slice(&name);
    push_u32(&mut v, 0x100);
    push_u32(&mut v, 0x134);
    push_u32(&mut v, 0);
    // The MFS partition: plain bytes at 0x4000.
    v.resize(0x4000, 0xaa);
    v.resize(0x5000, 0xbb);
    // Fix up the table checksum.
    let fpt = FPT::parse(&v).unwrap().unwrap();
    let cs = fpt.header_checksum();
    v[11] = cs;
    v
}

#[test]
fn me_parse_classifies_gen3() {
    let region = gen3_region();
    let me = ME::parse(&region, 0, false).unwrap().unwrap();
    assert!(matches!(me.generation, Generation::Gen3));
    assert_eq!(me.fpt_area.fpt.entries.len(), 2);
    assert_eq!(me.fpt_area.original_size, region.len());
    // The directory scan sees the one directory.
    assert_eq!(me.cpds.len(), 1);
    assert_eq!(me.cpds[0].name, "FTPR");
}

#[test]
fn me_parse_rejects_no_magic() {
    let v = vec![0u8; 0x1000];
    assert!(ME::parse(&v, 0, false).is_none());
}

#[test]
fn ftpr_presence() {
    let region = gen3_region();
    let me = ME::parse(&region, 0, false).unwrap().unwrap();
    assert!(me.fpt_area.check_ftpr_presence().is_ok());
}

#[test]
fn clean_drops_removable_partition() {
    let region = gen3_region();
    let me = ME::parse(&region, 0, false).unwrap().unwrap();
    let mut area = me.fpt_area;
    let options = ClearOptions {
        keep_modules: false,
        parts_force_retention: vec![],
        parts_force_deletion: vec![],
    };
    area.clean(&options);
    assert_eq!(area.fpt.entries.len(), 1);
    assert_eq!(area.fpt.entries[0].name(), "FTPR");
    match &area.partitions {
        Partitions::Gen3(parts) => {
            assert_eq!(parts.len(), 1);
        },
        _ => unreachable!(),
    }
}

#[test]
fn clean_then_to_vec_round_trips_idempotently() {
    // A second clean pass on the already-cleaned region removes nothing
    // more.
    let region = gen3_region();
    let me = ME::parse(&region, 0, false).unwrap().unwrap();
    let mut area = me.fpt_area;
    let options = ClearOptions {
        keep_modules: false,
        parts_force_retention: vec![],
        parts_force_deletion: vec![],
    };
    area.clean(&options);
    let once = area.to_vec().unwrap();
    let me2 = ME::parse(&once, 0, false).unwrap().unwrap();
    let mut area2 = me2.fpt_area;
    area2.clean(&options);
    let twice = area2.to_vec().unwrap();
    assert_eq!(once, twice);
}

#[test]
fn files_for_dir_lists_entries() {
    let region = gen3_region();
    let me = ME::parse(&region, 0, false).unwrap().unwrap();
    let files = me.fpt_area.files_for_dir(&"FTPR".to_string());
    assert_eq!(files.len(), 1);
    assert_eq!(files[0].0, "bringup");
    assert_eq!(files[0].1.len(), 0x134);
    let none = me.fpt_area.files_for_dir(&"ZZZZ".to_string());
    assert_eq!(none.len(), 0);
}

#[test]
fn check_dir_sigs_reports_missing_manifest() {
    let region = gen3_region();
    let me = ME::parse(&region, 0, false).unwrap().unwrap();
    let sigs = me.fpt_area.check_dir_sigs();
    assert_eq!(sigs.len(), 1);
    assert_eq!(sigs[0].0, "FTPR");
    assert!(sigs[0].1.is_err());
}

#[test]
fn relocate_moves_lowest_partition() {
    let region = gen3_region();
    let me = ME::parse(&region, 0, false).unwrap().unwrap();
    let mut area = me.fpt_area;
    area.relocate_partitions().unwrap();
    // The FTPR partition moves down to the smallest legal offset.
    assert_eq!(area.fpt.entries[0].name(), "FTPR");
    assert_eq!(area.fpt.entries[0].offset, 64);
    // The other entry stays put.
    assert_eq!(area.fpt.entries[1].offset, 0x4000);
}

#[test]
fn clean_honors_force_lists() {
    let region = gen3_region();
    // Force-retaining MFS keeps it though it is on the removable list.
    let me = ME::parse(&region, 0, false).unwrap().unwrap();
    let mut area = me.fpt_area;
    let keep_mfs = ClearOptions {
        keep_modules: true,
        parts_force_retention: vec!["MFS".to_string()],
        parts_force_deletion: vec![],
    };
    area.clean(&keep_mfs);
    match &area.partitions {
        Partitions::Gen3(parts) => assert_eq!(parts.len(), 2),
        _ => unreachable!(),
    }
    // A non-empty force-deletion list replaces the removable list: MFS is
    // not on it, so it stays; FTPR stays whatever the list holds.
    let me = ME::parse(&region, 0, false).unwrap().unwrap();
    let mut area = me.fpt_area;
    let delete_other = ClearOptions {
        keep_modules: true,
        parts_force_retention: vec![],
        parts_force_deletion: vec!["FTPR".to_string(), "GLUT".to_string()],
    };
    area.clean(&delete_other);
    match &area.partitions {
        Partitions::Gen3(parts) => assert_eq!(parts.len(), 2),
        _ => unreachable!(),
    }
}

#[test]
fn region_round_trip_without_mutation() {
    // Parsing the region and writing it back without any mutation
    // reproduces the original bytes exactly.
    let region = gen3_region();
    let me = ME::parse(&region, 0, false).unwrap().unwrap();
    let rebuilt = me.fpt_area.to_vec().unwrap();
    assert_eq!(rebuilt, region);
}

#[test]
fn filesystem_partitions_stay_opaque() {
    // A partition named MFS is never read as a manifest, whatever its
    // bytes; it is kept whole as an unclassified record.
    let region = gen3_region();
    let me = ME::parse(&region, 0, false).unwrap().unwrap();
    match &me.fpt_area.partitions {
        Partitions::Gen3(parts) => {
            assert!(matches!(
                parts[1],
                intel_fw::part::gen3::Gen3Partition::MalformedOrUnknown(_)
            ));
            // Its bytes are owned verbatim.
            match &parts[1] {
                intel_fw::part::gen3::Gen3Partition::MalformedOrUnknown(d) => {
                    assert_eq!(d.data, region[0x4000..0x5000].to_vec());
                }
                _ => unreachable!(),
            }
        }
        _ => unreachable!(),
    }
}

#[test]
fn meta_lookup_known_and_unknown() {
    let m = get_meta_for_key("986a78e481f185f7d54e4af06eb413f6").unwrap();
    assert!(matches!(m.variant, Variant::ME));
    assert_eq!(m.version, vec!["11.x.x.x".to_string()]);
    let t = get_meta_for_key("1d0a36e9f5881540d8e4b382c6612ed8").unwrap();
    assert!(matches!(t.variant, Variant::TXE));
    let s = get_meta_for_key("31ef3d950eac99d18e187375c0764ca4").unwrap();
    assert!(matches!(s.variant, Variant::SPS));
    assert!(get_meta_for_key("0000000000000000").is_none());
}

#[test]
fn bpdt_parse_and_scan() {
    let mut v = vec![0u8; 0x40];
    v.extend_from_slice(&0x0000_55aau32.to_le_bytes());
    v.extend_from_slice(&2u16.to_le_bytes()); // entries
    v.extend_from_slice(&1u16.to_le_bytes()); // table version
    v.extend_from_slice(&0u32.to_le_bytes());
    v.extend_from_slice(&9u32.to_le_bytes()); // image version
    for x in [1u16, 0, 25, 1341] {
        v.extend_from_slice(&x.to_le_bytes());
    }
    // Two entries of 12 bytes.
    for (t, o, s) in [(2u16, 0x100u32, 0x40u32), (7, 0x200, 0x80)] {
        v.extend_from_slice(&t.to_le_bytes());
        v.extend_from_slice(&0u16.to_le_bytes());
        v.extend_from_slice(&o.to_le_bytes());
        v.extend_from_slice(&s.to_le_bytes());
    }
    v.resize(0x400, 0);
    let b = ME::bpdt_scan(&v).unwrap();
    assert_eq!(b.offset, 0x40);
    assert_eq!(b.header.descriptor_count, 2);
    assert_eq!(b.entries.len(), 2);
    assert_eq!(b.entries[0].etype, 2);
    assert_eq!(b.entries[1].offset, 0x200);
    assert!(b.next(&v[0x40..]).is_none());
    // A direct parse at the boundary agrees.
    let direct = BPDT::parse(&v[0x40..], 0x40).unwrap();
    assert_eq!(direct.entries.len(), 2);
}

#[test]
fn pre_ifwi_checksum_matches_reference() {
    // Build the structure, compute its checksum with the library, and hold
    // it against the same polynomial computed directly.
    let mut v = vec![0u8; 16];
    v.extend_from_slice(&16u32.to_le_bytes()); // size: header and one entry
    v.extend_from_slice(&0u32.to_le_bytes()); // checksum, patched below
    v.extend_from_slice(&0x1000u32.to_le_bytes());
    v.extend_from_slice(&0x2000u32.to_le_bytes());
    let mut stream = Vec::new();
    stream.extend_from_slice(&16u32.to_le_bytes());
    stream.extend_from_slice(&0u32.to_le_bytes());
    stream.extend_from_slice(&0x1000u32.to_le_bytes());
    stream.extend_from_slice(&0x2000u32.to_le_bytes());
    let expected = crc::Crc::<u32>::new(&crc::CRC_32_ISO_HDLC).checksum(&stream);
    v[20..24].copy_from_slice(&expected.to_le_bytes());
    let p = PreIFWI::parse(&v).unwrap();
    assert_eq!(p.checksum(), expected);
    assert_eq!(p.entries.len(), 1);
    assert_eq!(p.entries[0].offset, 0x1000);
    // A corrupted checksum is refused.
    let mut bad = v.clone();
    bad[20] ^= 1;
    assert!(PreIFWI::parse(&bad).is_err());
}

#[test]
fn etype_round_trip() {
    for t in [0u16, 1, 2, 5, 14, 18, 25, 32] {
        let e = intel_fw::ifwi::Etype::from_u16(t);
        assert_eq!(e.into_u16(), t);
    }
    assert!(matches!(
        intel_fw::ifwi::Etype::from_u16(19),
        intel_fw::ifwi::Etype::Unknown(19)
    ));
    assert!(matches!(intel_fw::ifwi::Etype::from_u16(2), intel_fw::ifwi::Etype::Ftpr));
}
