use intel_fw::fpt::{FptError, FPT, FPTEntry, FPTHeader};
use intel_fw::part::generic::{retain, ClearOptions};
use intel_fw::ver::Version;

fn push_u32(v: &mut Vec<u8>, x: u32) {
    v.extend_from_slice(&x.to_le_bytes());
}

fn push_u16(v: &mut Vec<u8>, x: u16) {
    v.extend_from_slice(&x.to_le_bytes());
}

fn push_header(v: &mut Vec<u8>, entries: u32, checksum: u8, flags: u32) {
    v.extend_from_slice(b"$FPT");
    push_u32(v, entries);
    v.push(0x20); // header version
    v.push(0x10); // entry version
    v.push(0x30); // header length
    v.push(checksum);
    push_u16(v, 0); // ticks
    push_u16(v, 0); // tokens
    push_u32(v, 0); // uma
    push_u32(v, flags);
    // image tool version
    push_u16(v, 11);
    push_u16(v, 0);
    push_u16(v, 25);
    push_u16(v, 1341);
}

fn push_entry(v: &mut Vec<u8>, name: &[u8; 4], offset: u32, size: u32) {
    v.extend_from_slice(name);
    v.extend_from_slice(b"\0\0\0\0");
    push_u32(v, offset);
    push_u32(v, size);
    push_u32(v, 0); // start tokens
    push_u32(v, 0); // max tokens
    push_u32(v, 0); // scratch sectors
    push_u32(v, 0); // entry flags
}

/// A table image with a 16-byte pre-header and four entries, its checksum
/// correct.
fn sample_image() -> Vec<u8> {
    let mut v = Vec::new();
    v.extend_from_slice(&[0u8; 16]);
    push_header(&mut v, 4, 0, 1);
    push_entry(&mut v, b"FTPR", 0x1000, 0x2000);
    push_entry(&mut v, b"MFS\0", 0x3000, 0x1000);
    push_entry(&mut v, b"FLOG", 0x4000, 0x800);
    push_entry(&mut v, b"NFTP", 0x5000, 0x400);
    // Fix up the checksum.
    let fpt = FPT::parse(&v).unwrap().unwrap();
    let cs = fpt.header_checksum();
    v[16 + 11] = cs;
    v
}

#[test]
fn parse_size_error() {
    let data = sample_image();
    let parsed = FPT::parse(&data[..70]);
    assert!(parsed.is_some());
    let fpt_res = parsed.unwrap();
    assert!(matches!(fpt_res, Err(FptError::EntryParseError(_))));
}

#[test]
fn parse_okay_fpt() {
    let data = sample_image();
    let parsed = FPT::parse(&data[16..]);
    assert!(parsed.is_some());
    let fpt_res = parsed.unwrap();
    assert!(fpt_res.is_ok());
    let fpt = fpt_res.unwrap();
    assert_eq!(fpt.header.entries as usize, fpt.entries.len());
}

#[test]
fn parse_okay_fpt_with_offset() {
    let data = sample_image();
    let parsed = FPT::parse(&data);
    assert!(parsed.is_some());
    let fpt_res = parsed.unwrap();
    assert!(fpt_res.is_ok());
    let fpt = fpt_res.unwrap();
    assert_eq!(fpt.header.entries as usize, fpt.entries.len());
}

#[test]
fn checksum() {
    let data = sample_image();
    let parsed = FPT::parse(&data);
    let fpt = parsed.unwrap().unwrap();
    assert_eq!(fpt.header_checksum(), fpt.header.checksum);
}

#[test]
fn clear() {
    let data = sample_image();
    let mut fpt = FPT::parse(&data).unwrap().unwrap();
    let s = fpt.original_size;
    fpt.clear();
    let cs = fpt.header.checksum;
    let cleaned = fpt.to_vec();
    // The expected bytes: the pre-header, the adjusted header, the one kept
    // entry, and erase bytes up to the captured size.
    let mut expected = Vec::new();
    expected.extend_from_slice(&[0u8; 16]);
    push_header(&mut expected, 1, cs, 0);
    push_entry(&mut expected, b"FTPR", 0x1000, 0x2000);
    expected.resize(s, 0xff);
    assert_eq!(cleaned, expected);
}

#[test]
fn round_trip_without_mutation() {
    let data = sample_image();
    let fpt = FPT::parse(&data).unwrap().unwrap();
    let s = fpt.original_size;
    assert_eq!(fpt.to_vec(), data[..s].to_vec());
}

#[test]
fn clear_four_entries_keeps_one() {
    // An FPT with 4 entries where FTPR is first: after the clean pass one
    // entry is listed and the checksum changed.
    let data = sample_image();
    let mut fpt = FPT::parse(&data).unwrap().unwrap();
    let original_checksum = fpt.header.checksum;
    fpt.clear();
    assert_eq!(fpt.header.entries, 1);
    assert_eq!(fpt.entries.len(), 1);
    assert_eq!(fpt.entries[0].name(), "FTPR");
    assert_ne!(fpt.header.checksum, original_checksum);
    assert_eq!(fpt.header_checksum(), fpt.header.checksum);
}

#[test]
fn clear_is_idempotent_on_entries() {
    let data = sample_image();
    let mut fpt = FPT::parse(&data).unwrap().unwrap();
    fpt.clear();
    let first = fpt.to_vec();
    // A second pass on the cleaned bytes removes nothing more; the captured
    // size shrinks to the one remaining entry.
    let mut again = FPT::parse(&first).unwrap().unwrap();
    let s = again.original_size;
    again.clear();
    assert_eq!(again.to_vec(), first[..s].to_vec());
}

#[test]
fn retain_keeps_ftpr_always() {
    let no_lists = ClearOptions {
        keep_modules: false,
        parts_force_retention: vec![],
        parts_force_deletion: vec![],
    };
    assert!(retain("FTPR".to_string(), &no_lists));
    assert!(!retain("MFS".to_string(), &no_lists));
    let deletion_lists_ftpr = ClearOptions {
        keep_modules: false,
        parts_force_retention: vec![],
        parts_force_deletion: vec!["FTPR".to_string(), "MFS".to_string()],
    };
    assert!(retain("FTPR".to_string(), &deletion_lists_ftpr));
    assert!(!retain("MFS".to_string(), &deletion_lists_ftpr));
    assert!(retain("NFTP".to_string(), &deletion_lists_ftpr));
    let retention = ClearOptions {
        keep_modules: false,
        parts_force_retention: vec!["MFS".to_string()],
        parts_force_deletion: vec![],
    };
    assert!(retain("MFS".to_string(), &retention));
    assert!(retain("FTPR".to_string(), &retention));
}

#[test]
fn entry_accessors() {
    let e = FPTEntry {
        name: *b"MDES",
        owner: [0; 4],
        offset: 0xffc0_1234,
        size: 0x800,
        start_tokens: 0,
        max_tokens: 0,
        scratch_sectors: 0,
        flags: 0,
    };
    assert_eq!(e.offset(), 0x1234);
    assert_eq!(e.size(), 0x800);
    assert_eq!(e.name(), "MDES");
    assert!(!e.is_ftpr());
}

#[test]
fn entry_name_trims_and_falls_back() {
    let mut e = FPTEntry {
        name: *b"GLU\0",
        owner: [0; 4],
        offset: 0,
        size: 0,
        start_tokens: 0,
        max_tokens: 0,
        scratch_sectors: 0,
        flags: 0,
    };
    assert_eq!(e.name(), "GLU");
    // A name that is valid UTF-8 but not ASCII decodes.
    e.name = [0xc3, 0xa9, 0x00, 0x00];
    assert_eq!(e.name(), "\u{e9}");
    // A name that does not decode falls back to hex.
    e.name = [0x80, 0xff, 0x01, 0x02];
    assert_eq!(e.name(), "[80, ff, 01, 02]");
}

#[test]
fn part_info_kinds() {
    let (kind, long) = intel_fw::fpt::get_part_info("FTPR");
    assert!(matches!(kind, intel_fw::fpt::PartitionType::Code));
    assert_eq!(long, "Main code partition");
    let (kind, _) = intel_fw::fpt::get_part_info("MFS");
    assert!(matches!(kind, intel_fw::fpt::PartitionType::Data));
    let (kind, long) = intel_fw::fpt::get_part_info("ZZZZ");
    assert!(matches!(kind, intel_fw::fpt::PartitionType::Other));
    assert_eq!(long, "[> UNKNOWN <]");
}

#[test]
fn scan_finds_offset_table() {
    let mut image = vec![0u8; 0x100];
    let data = sample_image();
    image.extend_from_slice(&data);
    image.resize(0x1000, 0);
    let (res, o) = FPT::scan(&image).unwrap();
    assert_eq!(o, 0x100);
    let fpt = res.unwrap();
    assert_eq!(fpt.entries.len(), 4);
}

#[test]
fn version_fields() {
    let data = sample_image();
    let fpt = FPT::parse(&data).unwrap().unwrap();
    assert_eq!(
        fpt.header.fitc_ver,
        Version { major: 11, minor: 0, patch: 25, build: 1341 }
    );
}
