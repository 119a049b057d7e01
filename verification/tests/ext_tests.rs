use intel_fw::dir::gen3_man::{
    CertRevocationExt, ExtTag, FeaturePermissionsExt, InitScriptExtV11, ManExtension,
    ManExtensions, PartitionInfoExt,
};
use intel_fw::ver::Version;

fn push_u32(v: &mut Vec<u8>, x: u32) {
    v.extend_from_slice(&x.to_le_bytes());
}

#[test]
fn init_script_entries_decode() {
    let mut v = Vec::new();
    push_u32(&mut v, 0);
    push_u32(&mut v, 2); // two entries
    for (name, flags) in [(b"bup\0\0\0\0\0\0\0\0\0", 1u32), (b"kernel\0\0\0\0\0\0", 4)] {
        v.extend_from_slice(b"FTPR");
        v.extend_from_slice(name);
        push_u32(&mut v, flags);
        push_u32(&mut v, 0x11);
    }
    let x = InitScriptExtV11::parse(&v).unwrap();
    assert_eq!(x.header.entries, 2);
    assert_eq!(x.entries.len(), 2);
    assert!(x.entries[0].init_flags.ibl());
    assert!(!x.entries[0].init_flags.init_immediately());
    assert!(x.entries[1].init_flags.init_immediately());
    assert!(x.entries[0].boot_type.normal());
    assert!(x.entries[0].boot_type.recovery());
    // Too few bytes for the declared count.
    assert!(InitScriptExtV11::parse(&v[..20]).is_err());
}

#[test]
fn partition_info_entry_names() {
    let mut v = vec![0u8; 80];
    v[..4].copy_from_slice(b"FTPR");
    // One 52-byte record.
    let mut rec = [0u8; 52];
    rec[..7].copy_from_slice(b"bringup");
    v.extend_from_slice(&rec);
    let x = PartitionInfoExt::parse(&v).unwrap();
    assert_eq!(x.entries.len(), 1);
    assert_eq!(x.entries[0].name(), "bringup.met");
}

#[test]
fn feature_permissions_count() {
    let mut v = Vec::new();
    push_u32(&mut v, 3);
    for uid in [7u16, 8, 9] {
        v.extend_from_slice(&uid.to_le_bytes());
        v.extend_from_slice(&0u16.to_le_bytes());
    }
    let x = FeaturePermissionsExt::parse(&v).unwrap();
    assert_eq!(x.header.count, 3);
    assert_eq!(x.entries.len(), 3);
    assert_eq!(x.entries[1].uid, 8);
}

#[test]
fn cert_revocation_reads_two_integers() {
    let mut v = Vec::new();
    push_u32(&mut v, 10); // notice length
    v.push(0x30); // sequence
    v.push(8); // of eight bytes
    v.extend_from_slice(&[0x02, 2, 0x01, 0x02]); // first integer, 0x0102
    v.extend_from_slice(&[0x02, 2, 0x03, 0x04]); // second integer, 0x0304
    let x = CertRevocationExt::parse(&v).unwrap();
    assert_eq!(x.header.size, 10);
    assert_eq!(x.data.r, 0x0102);
    assert_eq!(x.data.s, 0x0304);
    // A wrong wrapper tag is refused.
    let mut bad = v.clone();
    bad[4] = 0x31;
    assert!(CertRevocationExt::parse(&bad).is_err());
}

#[test]
fn hash_byte_order() {
    let mut raw = [0u8; 32];
    raw[0] = 0xaa;
    raw[31] = 0xbb;
    let h = intel_fw::dir::gen3_man::Hash(raw);
    let shown = h.get();
    assert_eq!(shown[0], 0xbb);
    assert_eq!(shown[31], 0xaa);
}

#[test]
fn extension_walk_dispatches_by_tag() {
    let mut v = Vec::new();
    // A feature permission block.
    push_u32(&mut v, 2); // tag
    push_u32(&mut v, 16); // size, descriptor included
    push_u32(&mut v, 1);
    push_u32(&mut v, 5);
    // A block of an unknown tag, passed over.
    push_u32(&mut v, 40);
    push_u32(&mut v, 12);
    push_u32(&mut v, 0);
    let ver = Version { major: 11, minor: 0, patch: 0, build: 0 };
    let walked = ManExtensions::parse(&v, ver).unwrap();
    assert_eq!(walked.exts.len(), 1);
    match &walked.exts[0] {
        ManExtension::FeaturePermissions(Ok(f)) => {
            assert_eq!(f.header.count, 1);
        },
        _ => unreachable!(),
    }
    // A block running past the trailer is refused.
    let mut bad = Vec::new();
    push_u32(&mut bad, 2);
    push_u32(&mut bad, 64);
    push_u32(&mut bad, 0);
    assert!(ManExtensions::parse(&bad, ver).is_err());
    let _ = ExtTag::from_u32(15);
}
