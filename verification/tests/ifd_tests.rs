use intel_fw::ifd::IFD;
use intel_fw::me::Generation;
use intel_fw::ver::Version;

fn put_u32(v: &mut Vec<u8>, off: usize, x: u32) {
    v[off..off + 4].copy_from_slice(&x.to_le_bytes());
}

/// A descriptor image: the map at 16, components at 0x30, regions at 0x40,
/// masters at 0x80, straps at 0x100 and 0x180, everything else erased.
fn ifd_image(pch_straps: &[u32], mch_straps: &[u32]) -> Vec<u8> {
    let mut v = vec![0xffu8; 0x800];
    put_u32(&mut v, 16, 0x0ff0_a55a);
    // components at 0x30, 2 components, regions at 0x40, 8 regions
    put_u32(&mut v, 20, 0x0704_0103);
    // masters at 0x80, strap base 0x100, strap length per the list
    put_u32(&mut v, 24, 0x0010_0008 | ((pch_straps.len() as u32) << 24));
    // processor straps at 0x180
    put_u32(&mut v, 28, 0x0000_0018 | ((mch_straps.len() as u32) << 8));
    put_u32(&mut v, 32, 0);
    // components
    put_u32(&mut v, 0x30, 0x1234_5678);
    put_u32(&mut v, 0x34, 0);
    put_u32(&mut v, 0x38, 0);
    // regions: the descriptor, the host firmware, and the ME region
    put_u32(&mut v, 0x40, 0x0000_0000);
    put_u32(&mut v, 0x44, 0x0fff_0600);
    put_u32(&mut v, 0x48, 0x05ff_0001); // ME region: 0x1000 to 0x600000
    for i in 3..10 {
        put_u32(&mut v, 0x40 + 4 * i, 0);
    }
    // masters
    for i in 0..8 {
        put_u32(&mut v, 0x80 + 4 * i, 0xaaaa_0000 + i as u32);
    }
    for (i, s) in pch_straps.iter().enumerate() {
        put_u32(&mut v, 0x100 + 4 * i, *s);
    }
    for (i, s) in mch_straps.iter().enumerate() {
        put_u32(&mut v, 0x180 + 4 * i, *s);
    }
    v
}

#[test]
fn to_vec_gen2() {
    let image = ifd_image(&[0u32; 11], &[0u32; 2]);
    let ifd = IFD::parse(&image).unwrap();
    assert_eq!(ifd.to_vec(), image);
}

#[test]
fn to_vec_gen3() {
    let image = ifd_image(&[0x55u32; 3], &[0x11u32]);
    let ifd = IFD::parse(&image).unwrap();
    assert_eq!(ifd.to_vec(), image);
}

#[test]
fn parse_rejects_wrong_magic() {
    let mut image = ifd_image(&[0u32; 2], &[0u32]);
    image[16] = 0;
    assert!(IFD::parse(&image).is_err());
}

#[test]
fn me_region_range() {
    let image = ifd_image(&[0u32; 2], &[0u32]);
    let ifd = IFD::parse(&image).unwrap();
    assert_eq!(ifd.regions.me_range(), (0x1000, 0x600000));
    assert_eq!(ifd.regions.ifd_range(), (0, 0x1000));
}

#[test]
fn strap_bits_round_trip() {
    let image = ifd_image(&[0u32; 11], &[0u32; 2]);
    let mut ifd = IFD::parse(&image).unwrap();
    assert!(!ifd.hap());
    ifd.set_hap(true);
    assert!(ifd.hap());
    assert!(!ifd.dci());
    ifd.set_dci(true);
    assert!(ifd.dci());
    ifd.set_dci(false);
    assert!(!ifd.dci());
    assert!(!ifd.alt_me_disabled());
    ifd.set_alt_me_disabled(true);
    assert!(ifd.alt_me_disabled());
    assert!(!ifd.mch_me_disabled());
    ifd.set_mch_me_disabled(true);
    assert!(ifd.mch_me_disabled());
    ifd.set_mch_alt_me_disabled(true);
    assert!(ifd.mch_alt_me_disabled());
    ifd.set_ich_me_disabled(true);
    assert!(ifd.ich_me_disabled());
}

#[test]
fn disable_me_by_generation() {
    let image = ifd_image(&[0u32; 11], &[0u32; 2]);
    let mut ifd = IFD::parse(&image).unwrap();
    let ver = Some(Version { major: 11, minor: 0, patch: 0, build: 0 });
    ifd.disable_me(&Generation::Gen3, &ver).unwrap();
    assert!(ifd.hap());
    let mut ifd = IFD::parse(&image).unwrap();
    ifd.disable_me(&Generation::Gen2, &None).unwrap();
    assert!(ifd.alt_me_disabled());
    let mut ifd = IFD::parse(&image).unwrap();
    ifd.disable_me(&Generation::Gen1, &None).unwrap();
    assert!(ifd.ich_me_disabled());
    assert!(ifd.mch_me_disabled());
    let mut ifd = IFD::parse(&image).unwrap();
    let newer = Some(Version { major: 12, minor: 0, patch: 0, build: 0 });
    assert!(ifd.disable_me(&Generation::Gen3, &newer).is_err());
    assert!(ifd.disable_me(&Generation::Unknown, &None).is_err());
}

#[test]
fn flash_region_decoding() {
    let r = intel_fw::ifd::FlashRegion(0x05ff_0001);
    assert_eq!(r.ba(), 0x1000);
    assert_eq!(r.la(), 0x5fffff);
    assert_eq!(r.range(), (0x1000, 0x600000));
}

#[test]
fn map_word_accessors() {
    let f0 = intel_fw::ifd::FLMAP0(0x0704_0103);
    assert_eq!(f0.fcba(), 0x30);
    assert_eq!(f0.nc(), 2);
    assert_eq!(f0.frba(), 0x40);
    assert_eq!(f0.nr(), 8);
    let f1 = intel_fw::ifd::FLMAP1(0x0210_0008);
    assert_eq!(f1.fmba(), 0x80);
    assert_eq!(f1.nm(), 1);
    assert_eq!(f1.fisba(), 0x100);
    assert_eq!(f1.isl(), 2);
    let f2 = intel_fw::ifd::FLMAP2(0x0000_0118);
    assert_eq!(f2.fmsba(), 0x180);
    assert_eq!(f2.msl(), 1);
}
