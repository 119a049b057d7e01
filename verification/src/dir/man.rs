//! The `$MN2` manifest: a signed header that identifies a firmware version
//! and authenticates a partition's contents.
//!
//! The manifest is a 128-byte header, an RSA-2048 public key with exponent
//! and signature, and a variable-length metadata trailer. Verification
//! decrypts the signature with the embedded key and compares the trailing
//! bytes of the result against the SHA-256 digest of header and metadata.

use vstd::prelude::*;
use vstd::string::StringExecFns;

use crate::codec::{
    le16, le32, push_bytes, push_u16, push_u32, read_arr, read_u16, read_u32, read_vec,
};
use crate::ver::{push_version, read_version, version_bytes, Version};

verus! {

/// A date as the manifest stores it: day, month, and year, each a
/// binary-coded decimal field.
#[derive(Clone, Copy, Debug, PartialEq, Eq, Structural)]
pub struct Date {
    pub day: u8,
    pub month: u8,
    pub year: u16,
}

/// A PCI vendor id; 0x8086 is Intel.
#[derive(Clone, Copy, Debug, PartialEq, Eq, Structural)]
pub struct Vendor(pub u32);

pub const VENDOR_INTEL: u32 = 0x8086;

/// The version of the manifest header layout itself.
#[derive(Clone, Copy, Debug, PartialEq, Eq, Structural)]
pub struct HeaderVersion {
    pub minor: u16,
    pub major: u16,
}

/// The 128-byte manifest header, magic `$MN2`.
#[derive(Clone, Copy, Debug)]
pub struct Header {
    pub mod_type: u16,
    pub mod_subtype: u16,
    /// Header length in dwords, including the signature block.
    pub header_len: u32,
    pub header_ver: HeaderVersion,
    pub flags: u32,
    pub vendor: Vendor,
    pub date: Date,
    /// Total manifest length in dwords, header and data together.
    pub manifest_len: u32,
    pub magic: [u8; 4],
    /// Module entry count; meaningful for Gen 2 firmware only.
    pub entries: u32,
    pub version: Version,
    pub xx0: u32,
    pub x30: u32,
    pub xxx: u32,
    pub x38: [u8; 64],
    /// Key size in dwords.
    pub key_size: u32,
    pub scratch_size: u32,
}

pub const MANIFEST_HEADER_SIZE: usize = 128;

/// The RSA-2048 key material and signature that follow the header.
#[derive(Clone, Copy, Debug)]
pub struct Signature {
    pub rsa_pub_key: [u8; 256],
    pub rsa_pub_exp: u32,
    pub rsa_sig: [u8; 256],
}

pub const SIGNATURE_SIZE: usize = 516;

/// A parsed manifest: header, signature block, and metadata trailer.
#[derive(Debug)]
pub struct Manifest {
    pub header: Header,
    pub signature: Signature,
    pub mdata: Vec<u8>,
}

impl Clone for Manifest {
    /// An exact copy, field by field.
    fn clone(&self) -> (res: Self)
        ensures
            res.header == self.header,
            res.signature == self.signature,
            res.mdata@ == self.mdata@,
    {
        let mut mdata: Vec<u8> = Vec::new();
        push_bytes(&mut mdata, self.mdata.as_slice());
        proof {
            assert(mdata@ =~= self.mdata@);
        }
        Manifest { header: self.header, signature: self.signature, mdata }
    }
}

/// Bytes a Gen 2 directory reserves for its manifest record before the
/// directory header: header, signature block, and record bookkeeping.
pub const MANIFEST_SIZE: usize = 672;

/// How the manifest header is laid out on disk.
pub open spec fn manifest_header_bytes(h: Header) -> Seq<u8> {
    le16(h.mod_type) + le16(h.mod_subtype) + le32(h.header_len) + le16(h.header_ver.minor) + le16(
        h.header_ver.major,
    ) + le32(h.flags) + le32(h.vendor.0) + seq![h.date.day, h.date.month] + le16(h.date.year)
        + le32(h.manifest_len) + h.magic@ + le32(h.entries) + version_bytes(h.version) + le32(
        h.xx0,
    ) + le32(h.x30) + le32(h.xxx) + h.x38@ + le32(h.key_size) + le32(h.scratch_size)
}

/// How the signature block is laid out on disk.
pub open spec fn signature_bytes(s: Signature) -> Seq<u8> {
    s.rsa_pub_key@ + le32(s.rsa_pub_exp) + s.rsa_sig@
}

pub proof fn lemma_manifest_header_bytes_len(h: Header)
    ensures
        manifest_header_bytes(h).len() == 128,
{
}

pub proof fn lemma_signature_bytes_len(s: Signature)
    ensures
        signature_bytes(s).len() == 516,
{
}

/// The byte sequence of the magic `$MN2`.
pub open spec fn spec_mn2_magic() -> Seq<u8> {
    seq![0x24u8, 0x4du8, 0x4eu8, 0x32u8]
}

/// Decode a manifest header from 128 bytes at `off`.
#[verifier::rlimit(100)]
pub fn read_manifest_header(data: &[u8], off: usize) -> (r: Header)
    requires
        off + 128 <= data@.len(),
    ensures
        manifest_header_bytes(r) == data@.subrange(off as int, off + 128),
        r.magic@ == data@.subrange(off + 28, off + 32),
        le32(r.header_len) == data@.subrange(off + 4, off + 8),
        le32(r.manifest_len) == data@.subrange(off + 24, off + 28),
        r.entries == crate::codec::u32_at(data@, off + 32),
{
    let n = data.len();
    let mod_type = read_u16(data, off);
    let mod_subtype = read_u16(data, off + 2);
    let header_len = read_u32(data, off + 4);
    let hv_minor = read_u16(data, off + 8);
    let hv_major = read_u16(data, off + 10);
    let flags = read_u32(data, off + 12);
    let vendor = read_u32(data, off + 16);
    let day = data[off + 20];
    let month = data[off + 21];
    let year = read_u16(data, off + 22);
    let manifest_len = read_u32(data, off + 24);
    let magic = read_arr::<4>(data, off + 28);
    let entries = read_u32(data, off + 32);
    let version = read_version(data, off + 36);
    let xx0 = read_u32(data, off + 44);
    let x30 = read_u32(data, off + 48);
    let xxx = read_u32(data, off + 52);
    let x38 = read_arr::<64>(data, off + 56);
    let key_size = read_u32(data, off + 120);
    let scratch_size = read_u32(data, off + 124);
    let r = Header {
        mod_type,
        mod_subtype,
        header_len,
        header_ver: HeaderVersion { minor: hv_minor, major: hv_major },
        flags,
        vendor: Vendor(vendor),
        date: Date { day, month, year },
        manifest_len,
        magic,
        entries,
        version,
        xx0,
        x30,
        xxx,
        x38,
        key_size,
        scratch_size,
    };
    assert(manifest_header_bytes(r) =~= data@.subrange(off as int, off + 128));
    r
}

/// Append the 128-byte encoding of a manifest header.
#[verifier::rlimit(100)]
pub fn push_manifest_header(out: &mut Vec<u8>, h: &Header)
    ensures
        final(out)@ == old(out)@ + manifest_header_bytes(*h),
{
    push_u16(out, h.mod_type);
    push_u16(out, h.mod_subtype);
    push_u32(out, h.header_len);
    push_u16(out, h.header_ver.minor);
    push_u16(out, h.header_ver.major);
    push_u32(out, h.flags);
    push_u32(out, h.vendor.0);
    out.push(h.date.day);
    out.push(h.date.month);
    push_u16(out, h.date.year);
    push_u32(out, h.manifest_len);
    push_bytes(out, &h.magic);
    push_u32(out, h.entries);
    push_version(out, h.version);
    push_u32(out, h.xx0);
    push_u32(out, h.x30);
    push_u32(out, h.xxx);
    push_bytes(out, &h.x38);
    push_u32(out, h.key_size);
    push_u32(out, h.scratch_size);
    assert(final(out)@ =~= old(out)@ + manifest_header_bytes(*h));
}

/// Decode a signature block from 516 bytes at `off`.
pub fn read_signature(data: &[u8], off: usize) -> (r: Signature)
    requires
        off + 516 <= data@.len(),
    ensures
        signature_bytes(r) == data@.subrange(off as int, off + 516),
{
    let n = data.len();
    let rsa_pub_key = read_arr::<256>(data, off);
    let rsa_pub_exp = read_u32(data, off + 256);
    let rsa_sig = read_arr::<256>(data, off + 260);
    let r = Signature { rsa_pub_key, rsa_pub_exp, rsa_sig };
    assert(signature_bytes(r) =~= data@.subrange(off as int, off + 516));
    r
}

impl Header {
    /// The header length in bytes, signature block included.
    pub fn header_len(&self) -> (r: usize)
        requires
            4 * self.header_len <= usize::MAX,
        ensures
            r == 4 * self.header_len,
    {
        (self.header_len as usize) * 4
    }

    /// The total manifest length in bytes, data included.
    pub fn manifest_len(&self) -> (r: usize)
        requires
            4 * self.manifest_len <= usize::MAX,
        ensures
            r == 4 * self.manifest_len,
    {
        (self.manifest_len as usize) * 4
    }

    /// The length of the data after the header.
    pub fn data_len(&self) -> (r: usize)
        requires
            4 * self.manifest_len <= usize::MAX,
            self.header_len <= self.manifest_len,
        ensures
            r == 4 * self.manifest_len - 4 * self.header_len,
    {
        self.manifest_len() - self.header_len()
    }
}

/// The 16-byte MD5 digest; it depends on the input bytes alone.
pub uninterp spec fn spec_md5(data: Seq<u8>) -> Seq<u8>;

/// Relies on `md5::compute`: the MD5 digest of the input, 16 bytes.
#[verifier::external_body]
fn md5_digest(data: &[u8]) -> (r: Vec<u8>)
    ensures
        r@ == spec_md5(data@),
        r@.len() == 16,
{
    md5::compute(data).0.to_vec()
}

/// The 32-byte SHA-256 digest; it depends on the input bytes alone.
pub uninterp spec fn spec_sha256(data: Seq<u8>) -> Seq<u8>;

/// Relies on `sha2::Sha256`: the SHA-256 digest of the input, 32 bytes.
#[verifier::external_body]
fn sha256_digest(data: &[u8]) -> (r: Vec<u8>)
    ensures
        r@ == spec_sha256(data@),
        r@.len() == 32,
{
    <sha2::Sha256 as sha2::Digest>::digest(data).to_vec()
}

/// `base^exp mod modulus` over little-endian operand bytes, as big-endian
/// result bytes; it depends on the arguments alone.
pub uninterp spec fn spec_mod_pow_be(base_le: Seq<u8>, exp: u32, modulus_le: Seq<u8>) -> Seq<u8>;

/// Relies on `num_bigint::BigUint::modpow`: modular exponentiation over the
/// bytes, read little-endian, with the result written big-endian. It panics
/// on a zero modulus, so a nonzero modulus byte is required.
#[verifier::external_body]
fn mod_pow_be(base_le: &[u8], exp: u32, modulus_le: &[u8]) -> (r: Vec<u8>)
    requires
        exists|i: int| 0 <= i < modulus_le@.len() && modulus_le@[i] != 0,
    ensures
        r@ == spec_mod_pow_be(base_le@, exp, modulus_le@),
{
    let m = num_bigint::BigUint::from_bytes_le(modulus_le);
    let b = num_bigint::BigUint::from_bytes_le(base_le);
    let e = num_bigint::BigUint::from(exp);
    b.modpow(&e, &m).to_bytes_be()
}

/// Whether the trailing bytes of `sb` equal `hb`: how a decrypted RSA
/// signature is compared against a digest.
pub open spec fn spec_trailing_match(sb: Seq<u8>, hb: Seq<u8>) -> bool {
    sb.len() >= hb.len() && sb.subrange(sb.len() - hb.len(), sb.len() as int) == hb
}

/// Compare the trailing bytes of `sb` against `hb`.
pub fn trailing_bytes_match(sb: &[u8], hb: &[u8]) -> (r: bool)
    ensures
        r == spec_trailing_match(sb@, hb@),
{
    let sl = sb.len();
    let hl = hb.len();
    if sl < hl {
        return false;
    }
    let tail = vstd::slice::slice_subrange(sb, sl - hl, sl);
    crate::codec::bytes_eq(tail, hb)
}

/// Whether a manifest parses from `data`: enough bytes for header and
/// signature, the right magic, and consistent declared lengths.
pub open spec fn spec_manifest_ok(data: Seq<u8>) -> bool {
    &&& data.len() >= 644
    &&& data.subrange(28, 32) == spec_mn2_magic()
    &&& u32_of(data, 4) <= u32_of(data, 24)
    &&& 4 * (u32_of(data, 24) as int) <= data.len()
}

/// What it means for a parsed manifest to come from `data`.
pub open spec fn spec_manifest_parsed(m: Manifest, data: Seq<u8>) -> bool {
    &&& manifest_header_bytes(m.header) == data.subrange(0, 128)
    &&& signature_bytes(m.signature) == data.subrange(128, 644)
    &&& m.header.magic@ == spec_mn2_magic()
    &&& m.header.header_len <= m.header.manifest_len
    &&& 4 * m.header.manifest_len <= data.len()
    &&& m.mdata@ == data.subrange(4 * m.header.header_len, 4 * m.header.manifest_len)
}

/// The digest the signature must authenticate: SHA-256 over the header bytes
/// and the metadata trailer.
pub open spec fn spec_manifest_digest(m: Manifest) -> Seq<u8> {
    spec_sha256(manifest_header_bytes(m.header) + m.mdata@)
}

/// The big-endian bytes of the decrypted signature.
pub open spec fn spec_manifest_decrypted(m: Manifest) -> Seq<u8> {
    spec_mod_pow_be(m.signature.rsa_sig@, m.signature.rsa_pub_exp, m.signature.rsa_pub_key@)
}

/// Whether the manifest's signature verifies: the key is usable and the
/// decrypted signature ends in the digest of header and metadata.
pub open spec fn spec_manifest_verified(m: Manifest) -> bool {
    &&& exists|i: int| 0 <= i < m.signature.rsa_pub_key@.len() && m.signature.rsa_pub_key@[i] != 0
    &&& spec_trailing_match(spec_manifest_decrypted(m), spec_manifest_digest(m))
}

impl Manifest {
    /// Parse a manifest. Fails when the region is too short for header and
    /// signature, the magic is wrong, or the declared lengths are
    /// inconsistent or larger than the region.
    pub fn new(data: &[u8]) -> (r: Result<Manifest, String>)
        ensures
            (r is Ok) <==> spec_manifest_ok(data@),
            r matches Ok(m) ==> spec_manifest_parsed(m, data@) && m.header.entries == crate::codec::u32_at(
                data@,
                32,
            ),
    {
        let n = data.len();
        if n < 644 {
            return Err(String::from_str("manifest too short"));
        }
        let header = read_manifest_header(data, 0);
        proof {
            lemma_le32_at(data@, 4, header.header_len);
            lemma_le32_at(data@, 24, header.manifest_len);
        }
        if !(header.magic[0] == 0x24 && header.magic[1] == 0x4d && header.magic[2] == 0x4e
            && header.magic[3] == 0x32) {
            proof {
                assert(header.magic@ != spec_mn2_magic());
            }
            return Err(String::from_str("manifest magic not found"));
        }
        proof {
            assert(header.magic@ =~= spec_mn2_magic());
        }
        let signature = read_signature(data, 128);
        // The manifest carries additional data after its header and
        // signature. The header length includes the signature.
        let hl64 = header.header_len as u64 * 4;
        let ml64 = header.manifest_len as u64 * 4;
        if hl64 > ml64 || ml64 > n as u64 {
            return Err(String::from_str("manifest lengths inconsistent"));
        }
        let header_len = (header.header_len as usize) * 4;
        let size = (header.manifest_len as usize) * 4;
        let mdata = read_vec(data, header_len, size - header_len);
        proof {
            assert(mdata@ =~= data@.subrange(4 * header.header_len, 4 * header.manifest_len));
        }
        Ok(Manifest { header, signature, mdata })
    }

    /// The MD5 hash over the RSA public key and exponent; it names the
    /// signing key.
    pub fn hash_key(&self) -> (r: Vec<u8>)
        ensures
            r@ == spec_md5(self.signature.rsa_pub_key@ + le32(self.signature.rsa_pub_exp)),
            r@.len() == 16,
    {
        let mut ke: Vec<u8> = Vec::new();
        push_bytes(&mut ke, &self.signature.rsa_pub_key);
        push_u32(&mut ke, self.signature.rsa_pub_exp);
        md5_digest(ke.as_slice())
    }

    /// Verify the manifest: decrypt the signature with the embedded key and
    /// compare its trailing bytes against the digest of header and metadata.
    /// A manifest whose key bytes are all zero never verifies.
    pub fn verify(&self) -> (r: bool)
        ensures
            r == spec_manifest_verified(*self),
    {
        let mut nonzero = false;
        let mut i: usize = 0;
        while i < 256
            invariant
                i <= 256,
                self.signature.rsa_pub_key@.len() == 256,
                nonzero == exists|j: int| 0 <= j < i && self.signature.rsa_pub_key@[j] != 0,
            decreases 256 - i,
        {
            if self.signature.rsa_pub_key[i] != 0 {
                nonzero = true;
            }
            i = i + 1;
        }
        if !nonzero {
            return false;
        }
        let decrypted = mod_pow_be(
            &self.signature.rsa_sig,
            self.signature.rsa_pub_exp,
            &self.signature.rsa_pub_key,
        );
        let mut signed: Vec<u8> = Vec::new();
        push_manifest_header(&mut signed, &self.header);
        push_bytes(&mut signed, self.mdata.as_slice());
        let digest = sha256_digest(signed.as_slice());
        trailing_bytes_match(decrypted.as_slice(), digest.as_slice())
    }
}

/// The `u32` whose little-endian bytes sit at `off`.
pub open spec fn u32_of(data: Seq<u8>, off: int) -> u32 {
    crate::codec::u32_at(data, off)
}

/// A value whose encoding sits at `off` is the value decoded there.
proof fn lemma_le32_at(data: Seq<u8>, off: int, x: u32)
    requires
        0 <= off,
        off + 4 <= data.len(),
        le32(x) == data.subrange(off, off + 4),
    ensures
        x == u32_of(data, off),
{
    assert(data[off] == le32(x)[0] && data[off + 1] == le32(x)[1] && data[off + 2] == le32(x)[2]
        && data[off + 3] == le32(x)[3]);
    let b0 = (x & 0xff) as u8;
    let b1 = ((x >> 8u32) & 0xff) as u8;
    let b2 = ((x >> 16u32) & 0xff) as u8;
    let b3 = ((x >> 24u32) & 0xff) as u8;
    assert(x == ((b0 as u32) | ((b1 as u32) << 8u32) | ((b2 as u32) << 16u32) | ((b3 as u32)
        << 24u32))) by (bit_vector)
        requires
            b0 == (x & 0xff) as u8 && b1 == ((x >> 8u32) & 0xff) as u8 && b2 == ((x >> 16u32)
                & 0xff) as u8 && b3 == ((x >> 24u32) & 0xff) as u8,
    ;
}

} // verus!
