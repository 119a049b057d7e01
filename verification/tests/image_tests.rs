use intel_fw::clean::{clean, Options};
use intel_fw::Firmware;

fn put_u32(v: &mut Vec<u8>, off: usize, x: u32) {
    v[off..off + 4].copy_from_slice(&x.to_le_bytes());
}

fn push_u32(v: &mut Vec<u8>, x: u32) {
    v.extend_from_slice(&x.to_le_bytes());
}

fn push_u16(v: &mut Vec<u8>, x: u16) {
    v.extend_from_slice(&x.to_le_bytes());
}

/// A 644-byte manifest declaring firmware version 11.
fn push_manifest(v: &mut Vec<u8>) {
    push_u16(v, 4);
    push_u16(v, 0);
    push_u32(v, 161);
    push_u16(v, 0);
    push_u16(v, 1);
    push_u32(v, 0);
    push_u32(v, 0x8086);
    v.push(11);
    v.push(10);
    push_u16(v, 0x2016);
    push_u32(v, 161);
    v.extend_from_slice(b"$MN2");
    push_u32(v, 0);
    push_u16(v, 11); // version major
    push_u16(v, 0);
    push_u16(v, 25);
    push_u16(v, 1341);
    push_u32(v, 1);
    push_u32(v, 0);
    push_u32(v, 3);
    v.extend_from_slice(&[0u8; 64]);
    push_u32(v, 64);
    push_u32(v, 0);
    v.extend_from_slice(&[0u8; 256]);
    push_u32(v, 17);
    v.extend_from_slice(&[0u8; 256]);
}

/// A full image: a descriptor placing the ME region at 0x1000..0x6000, and
/// a small Gen 3 region there.
fn full_image() -> Vec<u8> {
    let mut v = vec![0xffu8; 0x6000];
    // The descriptor.
    put_u32(&mut v, 16, 0x0ff0_a55a);
    put_u32(&mut v, 20, 0x0704_0103);
    put_u32(&mut v, 24, 0x0b10_0008);
    put_u32(&mut v, 28, 0x0000_0218);
    put_u32(&mut v, 32, 0);
    put_u32(&mut v, 0x30, 0);
    put_u32(&mut v, 0x34, 0);
    put_u32(&mut v, 0x38, 0);
    put_u32(&mut v, 0x40, 0);
    put_u32(&mut v, 0x44, 0x0fff_0600);
    put_u32(&mut v, 0x48, 0x0005_0001); // ME region: 0x1000..0x6000
    for i in 3..10 {
        put_u32(&mut v, 0x40 + 4 * i, 0);
    }
    for i in 0..8 {
        put_u32(&mut v, 0x80 + 4 * i, 0);
    }
    for i in 0..11 {
        put_u32(&mut v, 0x100 + 4 * i, 0);
    }
    for i in 0..2 {
        put_u32(&mut v, 0x180 + 4 * i, 0);
    }
    // The region: a table with one directory partition.
    let mut region = Vec::new();
    region.extend_from_slice(b"$FPT");
    push_u32(&mut region, 1);
    region.push(0x20);
    region.push(0x10);
    region.push(0x30);
    region.push(0);
    push_u16(&mut region, 0);
    push_u16(&mut region, 0);
    push_u32(&mut region, 0);
    push_u32(&mut region, 1);
    for x in [11u16, 0, 25, 1341] {
        push_u16(&mut region, x);
    }
    region.extend_from_slice(b"FTPR");
    region.extend_from_slice(b"\0\0\0\0");
    push_u32(&mut region, 0x1000);
    push_u32(&mut region, 0x3000);
    for _ in 0..4 {
        push_u32(&mut region, 0);
    }
    region.resize(0x1000, 0xff);
    region.extend_from_slice(b"$CPD");
    push_u32(&mut region, 2);
    push_u32(&mut region, 0x14);
    region.extend_from_slice(b"FTPR");
    let mut man_name = [0u8; 12];
    man_name[..8].copy_from_slice(b"FTPR.man");
    region.extend_from_slice(&man_name);
    push_u32(&mut region, 0x100);
    push_u32(&mut region, 644);
    push_u32(&mut region, 0);
    let mut name = [0u8; 12];
    name[..7].copy_from_slice(b"bringup");
    region.extend_from_slice(&name);
    push_u32(&mut region, 0x1000);
    push_u32(&mut region, 0x234);
    push_u32(&mut region, 0);
    region.resize(0x1100, 0xff);
    push_manifest(&mut region);
    region.resize(0x5000, 0xff);
    // Fix the table checksum.
    let fpt = intel_fw::fpt::FPT::parse(&region).unwrap().unwrap();
    region[11] = fpt.header_checksum();
    v[0x1000..0x6000].copy_from_slice(&region);
    v
}

#[test]
fn firmware_parse_finds_region_through_descriptor() {
    let image = full_image();
    let fw = Firmware::parse(&image, false);
    assert!(fw.ifd.is_ok());
    let me = fw.me.unwrap().unwrap();
    assert_eq!(me.base, 0x1000);
    assert_eq!(me.fpt_area.fpt.entries.len(), 1);
    let v = me.version.unwrap();
    assert_eq!(v.major, 11);
}

#[test]
fn firmware_scan_finds_bare_region() {
    let image = full_image();
    // A bare region with no descriptor in front.
    let region = image[0x1000..0x6000].to_vec();
    let fw = Firmware::scan(&region, false);
    let me = fw.me.unwrap().unwrap();
    assert_eq!(me.base, 0);
}

#[test]
fn clean_writes_back_strap_and_region() {
    let image = full_image();
    let fw = Firmware::parse(&image, false);
    let me = fw.me.unwrap().unwrap();
    let mut data = image.clone();
    let options = Options {
        keep_modules: false,
        relocate: false,
        parts_force_retention: vec![],
        parts_force_deletion: vec![],
        disable_me: true,
        disable_me_only: false,
    };
    let cleaned = clean(&fw.ifd, me, &mut data, options).unwrap();
    assert_eq!(cleaned.len(), image.len());
    // The strap bit is now set in the descriptor bytes.
    let strap = u32::from_le_bytes([
        cleaned[0x100],
        cleaned[0x101],
        cleaned[0x102],
        cleaned[0x103],
    ]);
    assert_eq!(strap & (1 << 16), 1 << 16);
    // The region still starts with its table.
    assert_eq!(&cleaned[0x1000..0x1004], b"$FPT");
    // The module bytes of the unretained directory entry were erased.
    assert!(cleaned[0x2000 + 0x1000..0x2000 + 0x1234].iter().all(|b| *b == 0xff));
    // The manifest entry stays.
    assert_eq!(&cleaned[0x2000 + 0x100..0x2000 + 0x104], b"\x04\x00\x00\x00");
}

#[test]
fn disable_only_leaves_region_alone() {
    let image = full_image();
    let fw = Firmware::parse(&image, false);
    let me = fw.me.unwrap().unwrap();
    let mut data = image.clone();
    let options = Options {
        keep_modules: false,
        relocate: false,
        parts_force_retention: vec![],
        parts_force_deletion: vec![],
        disable_me: false,
        disable_me_only: true,
    };
    let cleaned = clean(&fw.ifd, me, &mut data, options).unwrap();
    assert_eq!(&cleaned[0x1000..], &image[0x1000..]);
    let strap = u32::from_le_bytes([
        cleaned[0x100],
        cleaned[0x101],
        cleaned[0x102],
        cleaned[0x103],
    ]);
    assert_eq!(strap & (1 << 16), 1 << 16);
}
