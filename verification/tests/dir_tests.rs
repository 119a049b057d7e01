use intel_fw::dir::gen2::Directory;
use intel_fw::dir::gen3::CodePartitionDirectory;
use intel_fw::dir::man::Manifest;
use intel_fw::part::gen2::Gen2Partition;
use intel_fw::part::generic::Partition;
use intel_fw::fpt::FPTEntry;
use intel_fw::{RemovableRange, Removables};

fn push_u32(v: &mut Vec<u8>, x: u32) {
    v.extend_from_slice(&x.to_le_bytes());
}

fn push_u16(v: &mut Vec<u8>, x: u16) {
    v.extend_from_slice(&x.to_le_bytes());
}

/// A 644-byte manifest: a header declaring itself 161 dwords long (header
/// and signature, no trailing data), and a signature block.
fn push_manifest(v: &mut Vec<u8>, entries: u32, key: &[u8; 256], exp: u32, sig: &[u8; 256]) {
    push_u16(v, 4); // module type
    push_u16(v, 0); // subtype
    push_u32(v, 161); // header length in dwords
    push_u16(v, 0); // header version minor
    push_u16(v, 1); // header version major
    push_u32(v, 0); // flags
    push_u32(v, 0x8086); // vendor
    v.push(11); // day
    v.push(10); // month
    push_u16(v, 0x2016); // year
    push_u32(v, 161); // manifest length in dwords
    v.extend_from_slice(b"$MN2");
    push_u32(v, entries);
    push_u16(v, 9); // version major
    push_u16(v, 1); // minor
    push_u16(v, 20); // patch
    push_u16(v, 1336); // build
    push_u32(v, 1);
    push_u32(v, 0);
    push_u32(v, 3);
    v.extend_from_slice(&[0u8; 64]);
    push_u32(v, 64); // key size in dwords
    push_u32(v, 0); // scratch size
    v.extend_from_slice(key);
    push_u32(v, exp);
    v.extend_from_slice(sig);
}

/// A Gen 2 directory image with one Huffman module named BUP spanning
/// chunks 2 to 5 of an 8-chunk table. The directory sits at `dir_offset` in
/// the region; chunk starts are region-relative.
fn gen2_dir_image(dir_offset: u32) -> Vec<u8> {
    let mut v = Vec::new();
    push_manifest(&mut v, 1, &[0u8; 256], 17, &[0u8; 256]);
    v.resize(672, 0);
    v.extend_from_slice(b"GDIR"); // directory header name
    v.extend_from_slice(&[0u8; 8]); // padding
    // One $MME module entry, 96 bytes.
    v.extend_from_slice(b"$MME");
    let mut name = [0u8; 16];
    name[..3].copy_from_slice(b"BUP");
    v.extend_from_slice(&name);
    v.extend_from_slice(&[0u8; 32]); // hash
    // chunk size 0x400; the module base places its first chunk at index 2
    push_u32(&mut v, 0x1000_0800); // module base
    push_u32(&mut v, 0x2000); // offset of the LUT, directory-relative
    push_u32(&mut v, 0xc00); // code size: 3 whole chunks past the first
    push_u32(&mut v, 0x1000); // size
    push_u32(&mut v, 0x1000); // memory size
    push_u32(&mut v, 0x1000); // pre-uma size
    push_u32(&mut v, 0); // entry point
    push_u32(&mut v, 1 << 4); // flags: the Huffman compression kind
    push_u32(&mut v, 8);
    push_u32(&mut v, 0);
    push_u32(&mut v, 0);
    // The LUT at 0x2000.
    v.resize(0x2000, 0);
    v.extend_from_slice(b"LLUT");
    push_u32(&mut v, 8); // chunk count
    push_u32(&mut v, 0); // chunk base
    push_u32(&mut v, 0); // reserved
    // stream bounds: the stream ends right after the last chunk
    push_u32(&mut v, dir_offset + 0x1000); // hs0
    push_u32(&mut v, 8 * 0x400); // hs1
    push_u32(&mut v, 0);
    push_u32(&mut v, 0);
    v.extend_from_slice(&[0u8; 16]);
    push_u32(&mut v, 0x400); // chunk size
    push_u32(&mut v, 0);
    v.extend_from_slice(b"lutname\0");
    // Eight active chunks, back to back from dir_offset + 0x1000.
    for i in 0..8u32 {
        push_u32(&mut v, dir_offset + 0x1000 + i * 0x400);
    }
    v.resize(0x8000, 0);
    v
}

#[test]
fn gen2_removables_spare_retained_chunks() {
    // A retained Huffman module on chunks 2 to 5 of an 8-chunk table: the
    // removable ranges hold chunks 0, 1, 6 and 7 and nothing of the span.
    let dir_offset = 0x3000u32;
    let data = gen2_dir_image(dir_offset);
    let dir = Directory::new(&data, dir_offset as usize).unwrap();
    assert_eq!(dir.modules.len(), 1);
    let ranges = dir.removables(&vec!["BUP".to_string()]);
    let base = 0x1000u64; // chunk stream start, directory-relative
    let expected: Vec<RemovableRange> = vec![
        RemovableRange { start: base, end: base + 0x400 },
        RemovableRange { start: base + 0x400, end: base + 0x800 },
        RemovableRange { start: base + 6 * 0x400, end: base + 7 * 0x400 },
        RemovableRange { start: base + 7 * 0x400, end: base + 8 * 0x400 },
    ];
    assert_eq!(ranges, expected);
}

#[test]
fn gen2_removables_take_unretained_chunks() {
    // Without the module on the retention list, all eight chunks go.
    let dir_offset = 0x3000u32;
    let data = gen2_dir_image(dir_offset);
    let dir = Directory::new(&data, dir_offset as usize).unwrap();
    let ranges = dir.removables(&vec![]);
    assert_eq!(ranges.len(), 8);
    let base = 0x1000u64;
    assert_eq!(ranges[0], RemovableRange { start: base, end: base + 0x400 });
    assert_eq!(
        ranges[7],
        RemovableRange { start: base + 7 * 0x400, end: base + 8 * 0x400 }
    );
}

#[test]
fn gen2_relocation_rebases_chunks() {
    // Relocating the partition from 0x3000 down to 0x2000 shifts every
    // active chunk descriptor's low 24 bits down by 0x1000; an inactive
    // descriptor stays byte-for-byte the same.
    let dir_offset = 0x3000u32;
    let mut data = gen2_dir_image(dir_offset);
    // Mark chunk 3 inactive.
    let lut_chunks = 0x2000 + 64;
    let inactive: u32 = 0x8000_0000 | (dir_offset + 0x1000 + 3 * 0x400);
    data[lut_chunks + 12..lut_chunks + 16].copy_from_slice(&inactive.to_le_bytes());
    let entry = FPTEntry {
        name: *b"BUP\0",
        owner: [0; 4],
        offset: dir_offset,
        size: 0x8000,
        start_tokens: 0,
        max_tokens: 0,
        scratch_sectors: 0,
        flags: 0,
    };
    let mut part = Gen2Partition::parse(&data, entry, false);
    assert!(matches!(part, Gen2Partition::Dir(_)));
    part.relocate(0x2000).unwrap();
    assert_eq!(part.entry().offset, 0x2000);
    match &part {
        Gen2Partition::Dir(d) => {
            let (_, lut) = d.dir.get_huffman_mod().unwrap();
            for i in 0..8usize {
                let original = if i == 3 {
                    inactive
                } else {
                    dir_offset + 0x1000 + (i as u32) * 0x400
                };
                if i == 3 {
                    assert_eq!(lut.chunks[i], original);
                } else {
                    assert_eq!(lut.chunks[i], original - 0x1000);
                }
            }
            // The partition's bytes carry the re-encoded table.
            let raw = &d.data[lut_chunks..lut_chunks + 4];
            let first = u32::from_le_bytes([raw[0], raw[1], raw[2], raw[3]]);
            assert_eq!(first, dir_offset + 0x1000 - 0x1000);
        },
        _ => unreachable!(),
    }
}

/// A Gen 3 directory image: a header and two entries, the manifest entry
/// and one module.
fn gen3_dir_image() -> Vec<u8> {
    let mut v = Vec::new();
    v.extend_from_slice(b"$CPD");
    push_u32(&mut v, 2); // entries
    push_u32(&mut v, 0x14); // version or checksum
    v.extend_from_slice(b"FTPR");
    // Entry names are 12 bytes.
    let mut name = [0u8; 12];
    name[..8].copy_from_slice(b"FTPR.man");
    v.extend_from_slice(&name);
    push_u32(&mut v, 0x100); // offset
    push_u32(&mut v, 644); // size
    push_u32(&mut v, 0);
    let mut name2 = [0u8; 12];
    name2[..7].copy_from_slice(b"bringup");
    v.extend_from_slice(&name2);
    push_u32(&mut v, 0x1000); // offset
    push_u32(&mut v, 0x234); // size: the last entry ends at 0x1234
    push_u32(&mut v, 0);
    v.resize(0x100, 0);
    push_manifest(&mut v, 0, &[0u8; 256], 17, &[0u8; 256]);
    v.resize(0x3000, 0);
    v
}

#[test]
fn gen3_removables_round_trailing_space() {
    // The last entry ends at 0x1234; the trailing free range starts at the
    // next 4096-byte boundary, 0x2000, and runs to the directory's size.
    let data = gen3_dir_image();
    let cpd = CodePartitionDirectory::new(&data, 0).unwrap();
    assert!(cpd.manifest.is_ok());
    let ranges = cpd.removables(&vec![]);
    assert_eq!(
        ranges,
        vec![
            RemovableRange { start: 0x1000, end: 0x1234 },
            RemovableRange { start: 0x2000, end: 0x3000 },
        ]
    );
}

#[test]
fn gen3_removables_keep_retained_and_metadata() {
    let data = gen3_dir_image();
    let cpd = CodePartitionDirectory::new(&data, 0).unwrap();
    // The .man entry is always kept; retaining the module leaves only the
    // trailing space.
    let ranges = cpd.removables(&vec!["bringup".to_string()]);
    assert_eq!(ranges, vec![RemovableRange { start: 0x2000, end: 0x3000 }]);
}

#[test]
fn gen3_sorted_entries_order() {
    let data = gen3_dir_image();
    let cpd = CodePartitionDirectory::new(&data, 0).unwrap();
    let sorted = cpd.sorted_entries();
    assert_eq!(sorted.len(), 2);
    assert_eq!(sorted[0].name(), "FTPR.man");
    assert_eq!(sorted[1].name(), "bringup");
}

#[test]
fn gen2_relocation_upward_is_refused() {
    // A move to a higher offset is refused and changes nothing.
    let dir_offset = 0x3000u32;
    let data = gen2_dir_image(dir_offset);
    let entry = FPTEntry {
        name: *b"BUP\0",
        owner: [0; 4],
        offset: dir_offset,
        size: 0x8000,
        start_tokens: 0,
        max_tokens: 0,
        scratch_sectors: 0,
        flags: 0,
    };
    let mut part = Gen2Partition::parse(&data, entry, false);
    assert!(part.relocate(0x4000).is_err());
    assert_eq!(part.entry().offset, dir_offset);
    // A move the chunk table cannot follow is refused too: an active chunk
    // whose offset is below the distance moved cannot be rebased.
    let mut low_data = data.clone();
    let lut_chunks = 0x2000 + 64;
    low_data[lut_chunks..lut_chunks + 4].copy_from_slice(&0x100u32.to_le_bytes());
    let mut part = Gen2Partition::parse(&low_data, entry, false);
    assert!(part.relocate(0x1000).is_err());
    assert_eq!(part.entry().offset, dir_offset);
}

#[test]
fn manifest_rejects_bad_magic() {
    let mut v = Vec::new();
    push_manifest(&mut v, 0, &[0u8; 256], 17, &[0u8; 256]);
    v[28] = b'X';
    assert!(Manifest::new(&v).is_err());
}

#[test]
fn manifest_rejects_short_input() {
    let mut v = Vec::new();
    push_manifest(&mut v, 0, &[0u8; 256], 17, &[0u8; 256]);
    assert!(Manifest::new(&v[..600]).is_err());
}

#[test]
fn manifest_header_lengths() {
    let mut v = Vec::new();
    push_manifest(&mut v, 3, &[0u8; 256], 17, &[0u8; 256]);
    let m = Manifest::new(&v).unwrap();
    assert_eq!(m.header.header_len(), 644);
    assert_eq!(m.header.manifest_len(), 644);
    assert_eq!(m.header.data_len(), 0);
    assert_eq!(m.header.entries, 3);
    assert_eq!(m.mdata.len(), 0);
}

#[test]
fn manifest_verify_accepts_consistent_signature() {
    // With exponent 1 and a modulus larger than the signature, the
    // decrypted signature is the signature itself; its trailing big-endian
    // bytes are made to hold the digest of header and metadata.
    let mut key = [0u8; 256];
    key[255] = 0xff; // a large modulus
    let mut sig = [0u8; 256];
    sig[255] = 0x01; // keep the big-endian form 256 bytes long
    let mut v = Vec::new();
    push_manifest(&mut v, 0, &key, 1, &sig);
    let digest = <sha2::Sha256 as sha2::Digest>::digest(&v[..128]);
    for i in 0..32 {
        sig[i] = digest[31 - i];
    }
    let mut v = Vec::new();
    push_manifest(&mut v, 0, &key, 1, &sig);
    let m = Manifest::new(&v).unwrap();
    assert!(m.verify());
}

#[test]
fn manifest_verify_rejects_mismatch() {
    let mut key = [0u8; 256];
    key[255] = 0xff;
    let mut sig = [0u8; 256];
    sig[255] = 0x01;
    let mut v = Vec::new();
    push_manifest(&mut v, 0, &key, 1, &sig);
    let m = Manifest::new(&v).unwrap();
    assert!(!m.verify());
}

#[test]
fn manifest_verify_rejects_zero_key() {
    let mut v = Vec::new();
    push_manifest(&mut v, 0, &[0u8; 256], 1, &[0u8; 256]);
    let m = Manifest::new(&v).unwrap();
    assert!(!m.verify());
}

#[test]
fn hash_key_digests_key_material() {
    let mut v = Vec::new();
    push_manifest(&mut v, 0, &[0u8; 256], 17, &[0u8; 256]);
    let m = Manifest::new(&v).unwrap();
    let h = m.hash_key();
    assert_eq!(h.len(), 16);
    // A different exponent gives a different key hash.
    let mut v2 = Vec::new();
    push_manifest(&mut v2, 0, &[0u8; 256], 18, &[0u8; 256]);
    let m2 = Manifest::new(&v2).unwrap();
    assert_ne!(m.hash_key(), m2.hash_key());
    // The reference digest, computed directly.
    let mut ke = [0u8; 256].to_vec();
    ke.extend_from_slice(&17u32.to_le_bytes());
    let expected = md5::compute(ke).0.to_vec();
    assert_eq!(h, expected);
}
