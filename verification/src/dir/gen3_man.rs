//! The extensions in a Gen 3 manifest's metadata trailer: a walk over
//! tagged, sized blocks, each decoded by its own fixed layout.

use vstd::prelude::*;
use vstd::string::StringExecFns;

use crate::codec::{read_arr, read_u16, read_u32, read_u64, spec_tag_name, tag_name, u16_at, u32_at};
use crate::ver::Version;

verus! {

/// A directory name tag, 4 bytes.
#[derive(Clone, Copy, Debug)]
pub struct DirName(pub [u8; 4]);

/// A hash in reverse byte order; it occurs in several extensions.
#[derive(Clone, Copy, Debug)]
pub struct Hash(pub [u8; 32]);

impl Hash {
    /// The hash with its bytes put back in display order.
    pub fn get(&self) -> (r: [u8; 32])
        ensures
            r@.len() == 32,
            forall|i: int| 0 <= i < 32 ==> r@[i] == self.0@[31 - i],
    {
        let mut r = [0u8; 32];
        let mut i: usize = 0;
        while i < 32
            invariant
                i <= 32,
                r@.len() == 32,
                forall|j: int| 0 <= j < i ==> r@[j] == self.0@[31 - j],
            decreases 32 - i,
        {
            r[i] = self.0[31 - i];
            i = i + 1;
        }
        r
    }
}

/// The fixed head of an init script extension.
#[derive(Clone, Copy, Debug, PartialEq, Eq, Structural)]
pub struct InitScriptHeader {
    pub r: u32,
    pub entries: u32,
}

/// The packed init flags word of a script entry.
#[derive(Clone, Copy, Debug, PartialEq, Eq, Structural)]
pub struct InitFlags(pub u32);

impl InitFlags {
    /// Whether the module belongs to the initial boot loader set.
    pub fn ibl(&self) -> (r: bool)
        ensures
            r == (self.0 & 1 == 1),
    {
        self.0 & 1 == 1
    }

    /// Whether the module starts right away.
    pub fn init_immediately(&self) -> (r: bool)
        ensures
            r == ((self.0 >> 2) & 1 == 1),
    {
        (self.0 >> 2) & 1 == 1
    }
}

/// The packed boot type word of a script entry.
#[derive(Clone, Copy, Debug, PartialEq, Eq, Structural)]
pub struct BootType(pub u32);

impl BootType {
    /// Whether the module runs on a normal boot.
    pub fn normal(&self) -> (r: bool)
        ensures
            r == (self.0 & 1 == 1),
    {
        self.0 & 1 == 1
    }

    /// Whether the module runs on a recovery boot.
    pub fn recovery(&self) -> (r: bool)
        ensures
            r == ((self.0 >> 4) & 1 == 1),
    {
        (self.0 >> 4) & 1 == 1
    }
}

/// One 24-byte init script entry of the older layout.
#[derive(Clone, Copy, Debug)]
pub struct InitScriptEntryV11 {
    pub dir: DirName,
    pub name: [u8; 12],
    pub init_flags: InitFlags,
    pub boot_type: BootType,
}

/// One 28-byte init script entry of the newer layout.
#[derive(Clone, Copy, Debug)]
pub struct InitScriptEntryV12 {
    pub dir: DirName,
    pub name: [u8; 12],
    pub init_flags: InitFlags,
    pub boot_type: BootType,
    pub unk: u32,
}

/// The init script of the older layout: which modules start, and when.
#[derive(Clone, Debug)]
pub struct InitScriptExtV11 {
    pub header: InitScriptHeader,
    pub entries: Vec<InitScriptEntryV11>,
}

impl InitScriptExtV11 {
    /// Decode the extension: the head, then the declared number of entries.
    pub fn parse(data: &[u8]) -> (r: Result<Box<InitScriptExtV11>, String>)
        ensures
            (r is Ok) <==> (data@.len() >= 8 && 8 + 24 * (u32_at(data@, 4) as int)
                <= data@.len()),
            r matches Ok(x) ==> {
                &&& x.header.r == u32_at(data@, 0)
                &&& x.header.entries == u32_at(data@, 4)
                &&& x.entries@.len() == x.header.entries
                &&& forall|i: int|
                    0 <= i < x.entries@.len() ==> (#[trigger] x.entries@[i]).dir.0@
                        == data@.subrange(8 + 24 * i, 8 + 24 * i + 4) && x.entries@[i].name@
                        == data@.subrange(8 + 24 * i + 4, 8 + 24 * i + 16)
                        && x.entries@[i].init_flags.0 == u32_at(data@, 8 + 24 * i + 16)
                        && x.entries@[i].boot_type.0 == u32_at(data@, 8 + 24 * i + 20)
            },
    {
        let n = data.len();
        if n < 8 {
            return Err(String::from_str("cannot parse the init script head"));
        }
        let r0 = read_u32(data, 0);
        let count32 = read_u32(data, 4);
        let count = count32 as usize;
        if count > (n - 8) / 24 {
            return Err(String::from_str("cannot parse the init script entries"));
        }
        let mut entries: Vec<InitScriptEntryV11> = Vec::new();
        let mut i: usize = 0;
        while i < count
            invariant
                n == data@.len(),
                8 + 24 * count <= n,
                i <= count,
                entries@.len() == i,
                forall|j: int|
                    0 <= j < i ==> (#[trigger] entries@[j]).dir.0@ == data@.subrange(
                        8 + 24 * j,
                        8 + 24 * j + 4,
                    ) && entries@[j].name@ == data@.subrange(8 + 24 * j + 4, 8 + 24 * j + 16)
                        && entries@[j].init_flags.0 == u32_at(data@, 8 + 24 * j + 16)
                        && entries@[j].boot_type.0 == u32_at(data@, 8 + 24 * j + 20),
            decreases count - i,
        {
            let base = 8 + 24 * i;
            let e = InitScriptEntryV11 {
                dir: DirName(read_arr::<4>(data, base)),
                name: read_arr::<12>(data, base + 4),
                init_flags: InitFlags(read_u32(data, base + 16)),
                boot_type: BootType(read_u32(data, base + 20)),
            };
            entries.push(e);
            i = i + 1;
        }
        Ok(Box::new(InitScriptExtV11 { header: InitScriptHeader { r: r0, entries: count32 }, entries }))
    }
}

/// The init script of the newer layout.
#[derive(Clone, Debug)]
pub struct InitScriptExtV12 {
    pub header: InitScriptHeader,
    pub entries: Vec<InitScriptEntryV12>,
}

impl InitScriptExtV12 {
    /// Decode the extension: the head, then the declared number of entries.
    pub fn parse(data: &[u8]) -> (r: Result<Box<InitScriptExtV12>, String>)
        ensures
            (r is Ok) <==> (data@.len() >= 8 && 8 + 28 * (u32_at(data@, 4) as int)
                <= data@.len()),
            r matches Ok(x) ==> {
                &&& x.header.entries == u32_at(data@, 4)
                &&& x.entries@.len() == x.header.entries
                &&& forall|i: int|
                    0 <= i < x.entries@.len() ==> (#[trigger] x.entries@[i]).init_flags.0
                        == u32_at(data@, 8 + 28 * i + 16) && x.entries@[i].boot_type.0 == u32_at(
                        data@,
                        8 + 28 * i + 20,
                    ) && x.entries@[i].unk == u32_at(data@, 8 + 28 * i + 24) && x.entries@[i].name@
                        == data@.subrange(8 + 28 * i + 4, 8 + 28 * i + 16)
            },
    {
        let n = data.len();
        if n < 8 {
            return Err(String::from_str("cannot parse the init script head"));
        }
        let r0 = read_u32(data, 0);
        let count32 = read_u32(data, 4);
        let count = count32 as usize;
        if count > (n - 8) / 28 {
            return Err(String::from_str("cannot parse the init script entries"));
        }
        let mut entries: Vec<InitScriptEntryV12> = Vec::new();
        let mut i: usize = 0;
        while i < count
            invariant
                n == data@.len(),
                8 + 28 * count <= n,
                i <= count,
                entries@.len() == i,
                forall|j: int|
                    0 <= j < i ==> (#[trigger] entries@[j]).init_flags.0 == u32_at(
                        data@,
                        8 + 28 * j + 16,
                    ) && entries@[j].boot_type.0 == u32_at(data@, 8 + 28 * j + 20)
                        && entries@[j].unk == u32_at(data@, 8 + 28 * j + 24) && entries@[j].name@
                        == data@.subrange(8 + 28 * j + 4, 8 + 28 * j + 16),
            decreases count - i,
        {
            let base = 8 + 28 * i;
            let e = InitScriptEntryV12 {
                dir: DirName(read_arr::<4>(data, base)),
                name: read_arr::<12>(data, base + 4),
                init_flags: InitFlags(read_u32(data, base + 16)),
                boot_type: BootType(read_u32(data, base + 20)),
                unk: read_u32(data, base + 24),
            };
            entries.push(e);
            i = i + 1;
        }
        Ok(Box::new(InitScriptExtV12 { header: InitScriptHeader { r: r0, entries: count32 }, entries }))
    }
}

/// Per-file metadata of one partition: a head about the partition, then one
/// record per metadata file.
#[derive(Clone, Debug)]
pub struct PartitionInfoExt {
    pub header: PartitionInfoHeader,
    pub entries: Vec<PartitionInfoEntry>,
}

/// The 80-byte head of the partition info extension.
#[derive(Clone, Copy, Debug)]
pub struct PartitionInfoHeader {
    pub dir: DirName,
    pub size: u32,
    pub hash: Hash,
    /// Version control number.
    pub vcn: u32,
    pub part_ver: u32,
    pub data_ver: u32,
    pub inst_id: u32,
    pub flags: u32,
    pub r: [u8; 16],
    pub u: u32,
}

/// One 52-byte record: a metadata file and its digest.
#[derive(Clone, Copy, Debug)]
pub struct PartitionInfoEntry {
    pub name: [u8; 12],
    pub y1: u32,
    pub size: u32,
    pub hash: Hash,
}

impl PartitionInfoEntry {
    /// The metadata file's name: the module name with `.met` appended.
    pub fn name(&self) -> (r: String)
        ensures
            r@ == spec_tag_name(self.name@) + ".met"@,
    {
        tag_name(&self.name).concat(".met")
    }
}

impl PartitionInfoExt {
    /// Decode the extension: the head, then as many whole records as the
    /// remaining bytes hold.
    pub fn parse(data: &[u8]) -> (r: Result<Box<PartitionInfoExt>, String>)
        ensures
            (r is Ok) <==> data@.len() >= 80,
            r matches Ok(x) ==> {
                &&& x.header.dir.0@ == data@.subrange(0, 4)
                &&& x.header.size == u32_at(data@, 4)
                &&& x.header.hash.0@ == data@.subrange(8, 40)
                &&& x.header.vcn == u32_at(data@, 40)
                &&& x.entries@.len() == (data@.len() - 80) / 52
                &&& forall|i: int|
                    0 <= i < x.entries@.len() ==> (#[trigger] x.entries@[i]).name@
                        == data@.subrange(80 + 52 * i, 80 + 52 * i + 12) && x.entries@[i].size
                        == u32_at(data@, 80 + 52 * i + 16) && x.entries@[i].hash.0@
                        == data@.subrange(80 + 52 * i + 20, 80 + 52 * i + 52)
            },
    {
        let n = data.len();
        if n < 80 {
            return Err(String::from_str("cannot parse the partition info head"));
        }
        let header = PartitionInfoHeader {
            dir: DirName(read_arr::<4>(data, 0)),
            size: read_u32(data, 4),
            hash: Hash(read_arr::<32>(data, 8)),
            vcn: read_u32(data, 40),
            part_ver: read_u32(data, 44),
            data_ver: read_u32(data, 48),
            inst_id: read_u32(data, 52),
            flags: read_u32(data, 56),
            r: read_arr::<16>(data, 60),
            u: read_u32(data, 76),
        };
        let count = (n - 80) / 52;
        let mut entries: Vec<PartitionInfoEntry> = Vec::new();
        let mut i: usize = 0;
        while i < count
            invariant
                n == data@.len(),
                80 + 52 * count <= n,
                i <= count,
                entries@.len() == i,
                forall|j: int|
                    0 <= j < i ==> (#[trigger] entries@[j]).name@ == data@.subrange(
                        80 + 52 * j,
                        80 + 52 * j + 12,
                    ) && entries@[j].size == u32_at(data@, 80 + 52 * j + 16) && entries@[j].hash.0@
                        == data@.subrange(80 + 52 * j + 20, 80 + 52 * j + 52),
            decreases count - i,
        {
            let base = 80 + 52 * i;
            entries.push(
                PartitionInfoEntry {
                    name: read_arr::<12>(data, base),
                    y1: read_u32(data, base + 12),
                    size: read_u32(data, base + 16),
                    hash: Hash(read_arr::<32>(data, base + 20)),
                },
            );
            i = i + 1;
        }
        Ok(Box::new(PartitionInfoExt { header, entries }))
    }
}

/// The feature permission list: a count, then one 4-byte record per grant.
#[derive(Clone, Debug)]
pub struct FeaturePermissionsExt {
    pub header: FeaturePermissionsHeader,
    pub entries: Vec<FeaturePermissionsEntry>,
}

/// The 4-byte head of the feature permission extension.
#[derive(Clone, Copy, Debug, PartialEq, Eq, Structural)]
pub struct FeaturePermissionsHeader {
    pub count: u32,
}

/// One grant record.
#[derive(Clone, Copy, Debug, PartialEq, Eq, Structural)]
pub struct FeaturePermissionsEntry {
    pub uid: u16,
    pub r: u16,
}

impl FeaturePermissionsExt {
    /// Decode the extension: the count, then as many whole records as the
    /// remaining bytes hold.
    pub fn parse(data: &[u8]) -> (r: Result<Box<FeaturePermissionsExt>, String>)
        ensures
            (r is Ok) <==> data@.len() >= 4,
            r matches Ok(x) ==> {
                &&& x.header.count == u32_at(data@, 0)
                &&& x.entries@.len() == (data@.len() - 4) / 4
                &&& forall|i: int|
                    0 <= i < x.entries@.len() ==> (#[trigger] x.entries@[i]).uid == u16_at(
                        data@,
                        4 + 4 * i,
                    )
            },
    {
        let n = data.len();
        if n < 4 {
            return Err(String::from_str("cannot parse the feature permission head"));
        }
        let header = FeaturePermissionsHeader { count: read_u32(data, 0) };
        let count = (n - 4) / 4;
        let mut entries: Vec<FeaturePermissionsEntry> = Vec::new();
        let mut i: usize = 0;
        while i < count
            invariant
                n == data@.len(),
                4 + 4 * count <= n,
                i <= count,
                entries@.len() == i,
                forall|j: int|
                    0 <= j < i ==> (#[trigger] entries@[j]).uid == u16_at(data@, 4 + 4 * j),
            decreases count - i,
        {
            let base = 4 + 4 * i;
            entries.push(
                FeaturePermissionsEntry {
                    uid: read_u16(data, base),
                    r: read_u16(data, base + 2),
                },
            );
            i = i + 1;
        }
        Ok(Box::new(FeaturePermissionsExt { header, entries }))
    }
}

/// The client system info: platform capabilities, then per-directory
/// digests.
#[derive(Clone, Debug)]
pub struct ClientSystemInfoExt {
    pub header: ClientSysInfoHeader,
    pub entries: Vec<ClientSysInfoEntry>,
}

/// The 40-byte head of the client system info extension.
#[derive(Clone, Copy, Debug)]
pub struct ClientSysInfoHeader {
    pub fw_sku_caps: u32,
    pub r: [u8; 28],
    pub bf_fw_sku_attrs: u64,
}

/// One 48-byte record: a directory and its digest.
#[derive(Clone, Copy, Debug)]
pub struct ClientSysInfoEntry {
    pub z1: u32,
    pub z2: u32,
    pub dir: DirName,
    pub size: u32,
    pub hash: Hash,
}

impl ClientSystemInfoExt {
    /// Decode the extension: the head, then as many whole records as the
    /// remaining bytes hold.
    pub fn parse(data: &[u8]) -> (r: Result<Box<ClientSystemInfoExt>, String>)
        ensures
            (r is Ok) <==> data@.len() >= 40,
            r matches Ok(x) ==> {
                &&& x.header.fw_sku_caps == u32_at(data@, 0)
                &&& x.entries@.len() == (data@.len() - 40) / 48
                &&& forall|i: int|
                    0 <= i < x.entries@.len() ==> (#[trigger] x.entries@[i]).dir.0@
                        == data@.subrange(40 + 48 * i + 8, 40 + 48 * i + 12) && x.entries@[i].size
                        == u32_at(data@, 40 + 48 * i + 12)
            },
    {
        let n = data.len();
        if n < 40 {
            return Err(String::from_str("cannot parse the client system info head"));
        }
        let header = ClientSysInfoHeader {
            fw_sku_caps: read_u32(data, 0),
            r: read_arr::<28>(data, 4),
            bf_fw_sku_attrs: read_u64(data, 32),
        };
        let count = (n - 40) / 48;
        let mut entries: Vec<ClientSysInfoEntry> = Vec::new();
        let mut i: usize = 0;
        while i < count
            invariant
                n == data@.len(),
                40 + 48 * count <= n,
                i <= count,
                entries@.len() == i,
                forall|j: int|
                    0 <= j < i ==> (#[trigger] entries@[j]).dir.0@ == data@.subrange(
                        40 + 48 * j + 8,
                        40 + 48 * j + 12,
                    ) && entries@[j].size == u32_at(data@, 40 + 48 * j + 12),
            decreases count - i,
        {
            let base = 40 + 48 * i;
            entries.push(
                ClientSysInfoEntry {
                    z1: read_u32(data, base),
                    z2: read_u32(data, base + 4),
                    dir: DirName(read_arr::<4>(data, base + 8)),
                    size: read_u32(data, base + 12),
                    hash: Hash(read_arr::<32>(data, base + 16)),
                },
            );
            i = i + 1;
        }
        Ok(Box::new(ClientSystemInfoExt { header, entries }))
    }
}

/// The system info of the older layout: memory sizes, then per-directory
/// words.
#[derive(Clone, Debug)]
pub struct SystemInfoExtV11 {
    pub header: SystemInfoHeaderV11,
    pub entries: Vec<SystemInfoEntry>,
}

/// The system info of the newer layout.
#[derive(Clone, Debug)]
pub struct SystemInfoExtV15 {
    pub header: SystemInfoHeaderV15,
    pub entries: Vec<SystemInfoEntry>,
}

/// The 56-byte head of the older system info layout.
#[derive(Clone, Copy, Debug)]
pub struct SystemInfoHeaderV11 {
    pub uma_size: u32,
    pub chipset_ver: u32,
    pub hash: Hash,
    pub pageable_uma_size: u32,
    pub r0: u64,
    pub r1: u32,
}

/// The 72-byte head of the newer system info layout.
#[derive(Clone, Copy, Debug)]
pub struct SystemInfoHeaderV15 {
    pub uma_size: u32,
    pub chipset_ver: u32,
    pub hash: Hash,
    pub pageable_uma_size: u32,
    pub r0: u64,
    pub r1: u32,
    pub r2: u32,
    pub r3: u32,
    pub r4: u32,
    pub r5: u32,
}

/// One 12-byte record.
#[derive(Clone, Copy, Debug)]
pub struct SystemInfoEntry {
    pub dir: DirName,
    pub d1: u32,
    pub d2: u32,
}

impl SystemInfoExtV11 {
    /// Decode the extension: the head, then as many whole records as the
    /// remaining bytes hold.
    pub fn parse(data: &[u8]) -> (r: Result<Box<SystemInfoExtV11>, String>)
        ensures
            (r is Ok) <==> data@.len() >= 56,
            r matches Ok(x) ==> {
                &&& x.header.uma_size == u32_at(data@, 0)
                &&& x.header.chipset_ver == u32_at(data@, 4)
                &&& x.entries@.len() == (data@.len() - 56) / 12
                &&& forall|i: int|
                    0 <= i < x.entries@.len() ==> (#[trigger] x.entries@[i]).dir.0@
                        == data@.subrange(56 + 12 * i, 56 + 12 * i + 4) && x.entries@[i].d1
                        == u32_at(data@, 56 + 12 * i + 4) && x.entries@[i].d2 == u32_at(
                        data@,
                        56 + 12 * i + 8,
                    )
            },
    {
        let n = data.len();
        if n < 56 {
            return Err(String::from_str("cannot parse the system info head"));
        }
        let header = SystemInfoHeaderV11 {
            uma_size: read_u32(data, 0),
            chipset_ver: read_u32(data, 4),
            hash: Hash(read_arr::<32>(data, 8)),
            pageable_uma_size: read_u32(data, 40),
            r0: read_u64(data, 44),
            r1: read_u32(data, 52),
        };
        let entries = read_sysinfo_entries(data, 56);
        Ok(Box::new(SystemInfoExtV11 { header, entries }))
    }
}

impl SystemInfoExtV15 {
    /// Decode the extension: the head, then as many whole records as the
    /// remaining bytes hold.
    pub fn parse(data: &[u8]) -> (r: Result<Box<SystemInfoExtV15>, String>)
        ensures
            (r is Ok) <==> data@.len() >= 72,
            r matches Ok(x) ==> {
                &&& x.header.uma_size == u32_at(data@, 0)
                &&& x.header.chipset_ver == u32_at(data@, 4)
                &&& x.entries@.len() == (data@.len() - 72) / 12
            },
    {
        let n = data.len();
        if n < 72 {
            return Err(String::from_str("cannot parse the system info head"));
        }
        let header = SystemInfoHeaderV15 {
            uma_size: read_u32(data, 0),
            chipset_ver: read_u32(data, 4),
            hash: Hash(read_arr::<32>(data, 8)),
            pageable_uma_size: read_u32(data, 40),
            r0: read_u64(data, 44),
            r1: read_u32(data, 52),
            r2: read_u32(data, 56),
            r3: read_u32(data, 60),
            r4: read_u32(data, 64),
            r5: read_u32(data, 68),
        };
        let entries = read_sysinfo_entries(data, 72);
        Ok(Box::new(SystemInfoExtV15 { header, entries }))
    }
}

/// Decode as many whole 12-byte records as fit past `off`.
fn read_sysinfo_entries(data: &[u8], off: usize) -> (r: Vec<SystemInfoEntry>)
    requires
        off <= data@.len(),
    ensures
        r@.len() == (data@.len() - off) / 12,
        forall|i: int|
            0 <= i < r@.len() ==> (#[trigger] r@[i]).dir.0@ == data@.subrange(
                off + 12 * i,
                off + 12 * i + 4,
            ) && r@[i].d1 == u32_at(data@, off + 12 * i + 4) && r@[i].d2 == u32_at(
                data@,
                off + 12 * i + 8,
            ),
{
    let n = data.len();
    let count = (n - off) / 12;
    let mut r: Vec<SystemInfoEntry> = Vec::new();
    let mut i: usize = 0;
    while i < count
        invariant
            off + 12 * count <= n == data@.len(),
            i <= count,
            r@.len() == i,
            forall|j: int|
                0 <= j < i ==> (#[trigger] r@[j]).dir.0@ == data@.subrange(
                    off + 12 * j,
                    off + 12 * j + 4,
                ) && r@[j].d1 == u32_at(data@, off + 12 * j + 4) && r@[j].d2 == u32_at(
                    data@,
                    off + 12 * j + 8,
                ),
        decreases count - i,
    {
        let base = off + 12 * i;
        r.push(
            SystemInfoEntry {
                dir: DirName(read_arr::<4>(data, base)),
                d1: read_u32(data, base + 4),
                d2: read_u32(data, base + 8),
            },
        );
        i = i + 1;
    }
    r
}

/// The package info: what one update package holds.
#[derive(Clone, Debug)]
pub struct PackageInfoExt {
    pub header: PackageInfoHeader,
    pub entries: Vec<PackageInfoEntry>,
}

/// The 44-byte head of the package info extension.
#[derive(Clone, Copy, Debug)]
pub struct PackageInfoHeader {
    pub dir: DirName,
    pub vcn: u32,
    pub usage: [u8; 16],
    pub svn: u32,
    pub r0: u32,
    pub r: [u8; 12],
}

/// One 52-byte record: a module's metadata digest.
#[derive(Clone, Copy, Debug)]
pub struct PackageInfoEntry {
    pub name: [u8; 12],
    pub pkg_type: u8,
    pub hash_algo: u8,
    pub hash_size: u16,
    pub metadata_size: u32,
    pub metadata_hash: Hash,
}

impl PackageInfoExt {
    /// Decode the extension: the head, then as many whole records as the
    /// remaining bytes hold; trailing spare bytes are left alone.
    pub fn parse(data: &[u8]) -> (r: Result<Box<PackageInfoExt>, String>)
        ensures
            (r is Ok) <==> data@.len() >= 44,
            r matches Ok(x) ==> {
                &&& x.header.dir.0@ == data@.subrange(0, 4)
                &&& x.header.vcn == u32_at(data@, 4)
                &&& x.header.svn == u32_at(data@, 24)
                &&& x.entries@.len() == (data@.len() - 44) / 52
                &&& forall|i: int|
                    0 <= i < x.entries@.len() ==> (#[trigger] x.entries@[i]).name@
                        == data@.subrange(44 + 52 * i, 44 + 52 * i + 12)
                        && x.entries@[i].metadata_size == u32_at(data@, 44 + 52 * i + 16)
            },
    {
        let n = data.len();
        if n < 44 {
            return Err(String::from_str("cannot parse the package info head"));
        }
        let header = PackageInfoHeader {
            dir: DirName(read_arr::<4>(data, 0)),
            vcn: read_u32(data, 4),
            usage: read_arr::<16>(data, 8),
            svn: read_u32(data, 24),
            r0: read_u32(data, 28),
            r: read_arr::<12>(data, 32),
        };
        let count = (n - 44) / 52;
        let mut entries: Vec<PackageInfoEntry> = Vec::new();
        let mut i: usize = 0;
        while i < count
            invariant
                n == data@.len(),
                44 + 52 * count <= n,
                i <= count,
                entries@.len() == i,
                forall|j: int|
                    0 <= j < i ==> (#[trigger] entries@[j]).name@ == data@.subrange(
                        44 + 52 * j,
                        44 + 52 * j + 12,
                    ) && entries@[j].metadata_size == u32_at(data@, 44 + 52 * j + 16),
            decreases count - i,
        {
            let base = 44 + 52 * i;
            entries.push(
                PackageInfoEntry {
                    name: read_arr::<12>(data, base),
                    pkg_type: data[base + 12],
                    hash_algo: data[base + 13],
                    hash_size: read_u16(data, base + 14),
                    metadata_size: read_u32(data, base + 16),
                    metadata_hash: Hash(read_arr::<32>(data, base + 20)),
                },
            );
            i = i + 1;
        }
        Ok(Box::new(PackageInfoExt { header, entries }))
    }
}

/// An extension whose meaning is not yet known; its 80 bytes are kept.
#[derive(Clone, Copy, Debug)]
pub struct Unk22Ext {
    pub data: Unk22Data,
}

/// The fixed 80-byte body of the extension.
#[derive(Clone, Copy, Debug)]
pub struct Unk22Data {
    pub dir: DirName,
    pub xx: [u8; 24],
    pub hash: Hash,
    pub r: [u8; 20],
}

impl Unk22Ext {
    /// Decode the fixed body.
    pub fn parse(data: &[u8]) -> (r: Result<Box<Unk22Ext>, String>)
        ensures
            (r is Ok) <==> data@.len() >= 80,
            r matches Ok(x) ==> x.data.dir.0@ == data@.subrange(0, 4) && x.data.hash.0@
                == data@.subrange(28, 60),
    {
        let n = data.len();
        if n < 80 {
            return Err(String::from_str("cannot parse the body"));
        }
        Ok(
            Box::new(
                Unk22Ext {
                    data: Unk22Data {
                        dir: DirName(read_arr::<4>(data, 0)),
                        xx: read_arr::<24>(data, 4),
                        hash: Hash(read_arr::<32>(data, 28)),
                        r: read_arr::<20>(data, 60),
                    },
                },
            ),
        )
    }
}

/// An extension whose meaning is not yet known; its 80 bytes are kept.
#[derive(Clone, Copy, Debug)]
pub struct Unk31Ext {
    pub data: Unk31Data,
}

/// The fixed 80-byte body of the extension.
#[derive(Clone, Copy, Debug)]
pub struct Unk31Data {
    pub dir: DirName,
    pub xx: [u8; 24],
    pub hash: Hash,
    pub r: [u8; 20],
}

impl Unk31Ext {
    /// Decode the fixed body.
    pub fn parse(data: &[u8]) -> (r: Result<Box<Unk31Ext>, String>)
        ensures
            (r is Ok) <==> data@.len() >= 80,
            r matches Ok(x) ==> x.data.dir.0@ == data@.subrange(0, 4) && x.data.hash.0@
                == data@.subrange(28, 60),
    {
        let n = data.len();
        if n < 80 {
            return Err(String::from_str("cannot parse the body"));
        }
        Ok(
            Box::new(
                Unk31Ext {
                    data: Unk31Data {
                        dir: DirName(read_arr::<4>(data, 0)),
                        xx: read_arr::<24>(data, 4),
                        hash: Hash(read_arr::<32>(data, 28)),
                        r: read_arr::<20>(data, 60),
                    },
                },
            ),
        )
    }
}

/// A certificate revocation notice: a length, then two encoded integers.
#[derive(Clone, Copy, Debug)]
pub struct CertRevocationExt {
    pub header: CertRevocationHeader,
    pub data: CertRevocationData,
}

/// The 4-byte head: how many bytes the encoded notice holds.
#[derive(Clone, Copy, Debug, PartialEq, Eq, Structural)]
pub struct CertRevocationHeader {
    pub size: u32,
}

/// The decoded notice: two integers from a distinguished-encoding sequence.
#[derive(Clone, Copy, Debug, PartialEq, Eq, Structural)]
pub struct CertRevocationData {
    pub r: u32,
    pub s: u32,
}

/// The big-endian value of `len` bytes at `off`, below 2^32.
pub open spec fn spec_be_u32(data: Seq<u8>, off: int, len: int) -> u32
    decreases len,
{
    if len <= 0 {
        0u32
    } else {
        ((spec_be_u32(data, off, len - 1) as int * 256 + data[off + len - 1]) % 0x1_0000_0000) as u32
    }
}

impl CertRevocationExt {
    /// Decode the notice: the length, then a distinguished-encoding sequence
    /// of two integers of at most four meaningful bytes each.
    pub fn parse(data: &[u8]) -> (r: Result<Box<CertRevocationExt>, String>)
        ensures
            r matches Ok(x) ==> x.header.size == u32_at(data@, 0),
    {
        let n = data.len();
        if n < 4 {
            return Err(String::from_str("cannot parse the head"));
        }
        let size = read_u32(data, 0);
        if (size as u64) > (n as u64 - 4) {
            return Err(String::from_str("the notice runs past the block"));
        }
        let end = 4 + size as usize;
        // The sequence wrapper.
        if end < 6 || data[4] != 0x30 || data[5] as usize != end - 6 {
            return Err(String::from_str("not a sequence of the declared length"));
        }
        let (r_val, after_r) = match der_u32(data, 6, end) {
            Some(p) => p,
            None => {
                return Err(String::from_str("the first integer cannot be read"));
            },
        };
        let (s_val, after_s) = match der_u32(data, after_r, end) {
            Some(p) => p,
            None => {
                return Err(String::from_str("the second integer cannot be read"));
            },
        };
        if after_s != end {
            return Err(String::from_str("spare bytes after the second integer"));
        }
        Ok(
            Box::new(
                CertRevocationExt {
                    header: CertRevocationHeader { size },
                    data: CertRevocationData { r: r_val, s: s_val },
                },
            ),
        )
    }
}

/// Read one distinguished-encoding integer that fits 32 bits: the tag, a
/// short length, an optional leading zero, and the value bytes.
fn der_u32(data: &[u8], pos: usize, end: usize) -> (r: Option<(u32, usize)>)
    requires
        pos <= end <= data@.len(),
    ensures
        r matches Some((v, next)) ==> {
            &&& pos + 2 <= end
            &&& data@[pos as int] == 0x02
            &&& next == pos + 2 + data@[pos + 1]
            &&& next <= end
            &&& v == spec_be_u32(data@, pos + 2, data@[pos + 1] as int)
        },
{
    if end - pos < 2 {
        return None;
    }
    if data[pos] != 0x02 {
        return None;
    }
    let l = data[pos + 1] as usize;
    if l < 1 || l > 5 {
        return None;
    }
    if l > end - pos - 2 {
        return None;
    }
    if l == 5 && data[pos + 2] != 0 {
        // Five meaningful bytes do not fit 32 bits.
        return None;
    }
    let mut v: u32 = 0;
    let mut k: usize = 0;
    while k < l
        invariant
            pos + 2 + l <= end <= data@.len(),
            k <= l,
            l <= 5,
            v == spec_be_u32(data@, pos + 2, k as int),
        decreases l - k,
    {
        let b = data[pos + 2 + k];
        v = ((v as u64 * 256 + b as u64) % 0x1_0000_0000) as u32;
        k = k + 1;
    }
    Some((v, pos + 2 + l))
}

/// The tag that names an extension's kind.
#[derive(Clone, Copy, Debug, PartialEq, Eq, Structural)]
pub enum ExtTag {
    SystemInfo,
    InitScript,
    FeaturePermissions,
    PartitionInfo,
    SharedLib,
    ManProcess,
    Threads,
    DeviceIds,
    MmioRanges,
    SpecialFileProducer,
    ModAttr,
    LockedRanges,
    ClientSystemInfo,
    UserInfo,
    Nothing,
    PackageInfo,
    CertRevocation,
    Other,
}

/// The kind a tag value names.
pub open spec fn spec_ext_tag(t: u32) -> ExtTag {
    if t == 0 {
        ExtTag::SystemInfo
    } else if t == 1 {
        ExtTag::InitScript
    } else if t == 2 {
        ExtTag::FeaturePermissions
    } else if t == 3 {
        ExtTag::PartitionInfo
    } else if t == 4 {
        ExtTag::SharedLib
    } else if t == 5 {
        ExtTag::ManProcess
    } else if t == 6 {
        ExtTag::Threads
    } else if t == 7 {
        ExtTag::DeviceIds
    } else if t == 8 {
        ExtTag::MmioRanges
    } else if t == 9 {
        ExtTag::SpecialFileProducer
    } else if t == 10 {
        ExtTag::ModAttr
    } else if t == 11 {
        ExtTag::LockedRanges
    } else if t == 12 {
        ExtTag::ClientSystemInfo
    } else if t == 13 {
        ExtTag::UserInfo
    } else if t == 14 {
        ExtTag::Nothing
    } else if t == 15 {
        ExtTag::PackageInfo
    } else if t == 30 {
        ExtTag::CertRevocation
    } else {
        ExtTag::Other
    }
}

impl ExtTag {
    /// Decode a tag value.
    pub fn from_u32(t: u32) -> (r: ExtTag)
        ensures
            r == spec_ext_tag(t),
    {
        if t == 0 {
            ExtTag::SystemInfo
        } else if t == 1 {
            ExtTag::InitScript
        } else if t == 2 {
            ExtTag::FeaturePermissions
        } else if t == 3 {
            ExtTag::PartitionInfo
        } else if t == 4 {
            ExtTag::SharedLib
        } else if t == 5 {
            ExtTag::ManProcess
        } else if t == 6 {
            ExtTag::Threads
        } else if t == 7 {
            ExtTag::DeviceIds
        } else if t == 8 {
            ExtTag::MmioRanges
        } else if t == 9 {
            ExtTag::SpecialFileProducer
        } else if t == 10 {
            ExtTag::ModAttr
        } else if t == 11 {
            ExtTag::LockedRanges
        } else if t == 12 {
            ExtTag::ClientSystemInfo
        } else if t == 13 {
            ExtTag::UserInfo
        } else if t == 14 {
            ExtTag::Nothing
        } else if t == 15 {
            ExtTag::PackageInfo
        } else if t == 30 {
            ExtTag::CertRevocation
        } else {
            ExtTag::Other
        }
    }
}

/// What every extension starts with: its tag and its total size, the
/// descriptor included.
#[derive(Clone, Copy, Debug, PartialEq, Eq, Structural)]
pub struct ExtDescriptor {
    pub tag: u32,
    pub size: u32,
}

/// One decoded extension; a kind whose side structure is malformed keeps the
/// reason.
#[derive(Debug)]
pub enum ManExtension {
    SystemInfoV11(Result<Box<SystemInfoExtV11>, String>),
    SystemInfoV15(Result<Box<SystemInfoExtV15>, String>),
    InitScriptV11(Result<Box<InitScriptExtV11>, String>),
    InitScriptV12(Result<Box<InitScriptExtV12>, String>),
    FeaturePermissions(Result<Box<FeaturePermissionsExt>, String>),
    PartitionInfo(Result<Box<PartitionInfoExt>, String>),
    ClientSystemInfo(Result<Box<ClientSystemInfoExt>, String>),
    PackageInfo(Result<Box<PackageInfoExt>, String>),
    Unk22(Result<Box<Unk22Ext>, String>),
    CertRevocation(Result<Box<CertRevocationExt>, String>),
    Unk31(Result<Box<Unk31Ext>, String>),
}

/// All extensions of one manifest's metadata trailer, in order.
pub struct ManExtensions {
    pub exts: Vec<ManExtension>,
}

impl ManExtensions {
    /// Walk the trailer: every extension starts with a tag and a size; the
    /// known kinds are decoded by their layout, picked by the firmware
    /// version where layouts differ; unknown kinds are passed over. Fails
    /// when a descriptor is malformed or runs past the trailer.
    pub fn parse(data: &[u8], me_ver: Version) -> (r: Result<ManExtensions, String>) {
        let mut exts: Vec<ManExtension> = Vec::new();
        let n = data.len();
        let mut o: usize = 0;
        while n - o > 8
            invariant
                n == data@.len(),
                o <= n,
            decreases n - o,
        {
            // Every extension starts with a descriptor.
            let tag = read_u32(data, o);
            let size = read_u32(data, o + 4);
            let ext_size = size as usize;
            if ext_size < 8 {
                return Err(String::from_str("an extension smaller than its descriptor"));
            }
            let data_size = ext_size - 8;
            if data_size > n - o - 8 {
                return Err(String::from_str("an extension runs past the trailer"));
            }
            let body = vstd::slice::slice_subrange(data, o + 8, o + 8 + data_size);
            match ExtTag::from_u32(tag) {
                ExtTag::SystemInfo => {
                    if me_ver.major == 15 {
                        exts.push(ManExtension::SystemInfoV15(SystemInfoExtV15::parse(body)));
                    } else {
                        exts.push(ManExtension::SystemInfoV11(SystemInfoExtV11::parse(body)));
                    }
                },
                ExtTag::InitScript => {
                    if me_ver.major == 11 {
                        exts.push(ManExtension::InitScriptV11(InitScriptExtV11::parse(body)));
                    } else if me_ver.major >= 12 && me_ver.major <= 15 {
                        exts.push(ManExtension::InitScriptV12(InitScriptExtV12::parse(body)));
                    } else {
                        return Err(String::from_str("no init script layout for this version"));
                    }
                },
                ExtTag::FeaturePermissions => {
                    exts.push(ManExtension::FeaturePermissions(FeaturePermissionsExt::parse(body)));
                },
                ExtTag::PartitionInfo => {
                    exts.push(ManExtension::PartitionInfo(PartitionInfoExt::parse(body)));
                },
                ExtTag::ClientSystemInfo => {
                    exts.push(ManExtension::ClientSystemInfo(ClientSystemInfoExt::parse(body)));
                },
                ExtTag::PackageInfo => {
                    exts.push(ManExtension::PackageInfo(PackageInfoExt::parse(body)));
                },
                ExtTag::CertRevocation => {
                    exts.push(ManExtension::CertRevocation(CertRevocationExt::parse(body)));
                },
                ExtTag::Other => {
                    if tag == 22 {
                        exts.push(ManExtension::Unk22(Unk22Ext::parse(body)));
                    } else if tag == 31 {
                        exts.push(ManExtension::Unk31(Unk31Ext::parse(body)));
                    }
                    // Anything else is passed over.
                },
                _ => {
                    // A known tag with no side structure to decode.
                },
            }
            o = o + ext_size;
        }
        Ok(ManExtensions { exts })
    }
}

} // verus!
