//! Bounds-checked little-endian readers and writers for the fixed-size
//! records of the firmware image formats.
//!
//! Every reader states which bytes of the input it decodes, and every writer
//! states the exact byte sequence it appends, so that record-level encoders
//! and decoders can be proved inverse to each other. All contracts speak of
//! the encoding functions `le16`, `le32` and `le64`.

use vstd::prelude::*;
use vstd::string::StrSliceExecFns;

verus! {

/// Little-endian encoding of a `u16`.
pub open spec fn le16(x: u16) -> Seq<u8> {
    seq![(x & 0xff) as u8, ((x >> 8) & 0xff) as u8]
}

/// Little-endian encoding of a `u32`.
pub open spec fn le32(x: u32) -> Seq<u8> {
    seq![
        (x & 0xff) as u8,
        ((x >> 8) & 0xff) as u8,
        ((x >> 16) & 0xff) as u8,
        ((x >> 24) & 0xff) as u8,
    ]
}

/// Little-endian encoding of a `u64`.
pub open spec fn le64(x: u64) -> Seq<u8> {
    seq![
        (x & 0xff) as u8,
        ((x >> 8) & 0xff) as u8,
        ((x >> 16) & 0xff) as u8,
        ((x >> 24) & 0xff) as u8,
        ((x >> 32) & 0xff) as u8,
        ((x >> 40) & 0xff) as u8,
        ((x >> 48) & 0xff) as u8,
        ((x >> 56) & 0xff) as u8,
    ]
}

/// The `u16` decoded from two little-endian bytes at `off`.
pub open spec fn u16_at(data: Seq<u8>, off: int) -> u16 {
    (data[off] as u16) | (data[off + 1] as u16) << 8
}

/// The `u32` decoded from four little-endian bytes at `off`.
pub open spec fn u32_at(data: Seq<u8>, off: int) -> u32 {
    (data[off] as u32) | (data[off + 1] as u32) << 8 | (data[off + 2] as u32) << 16 | (data[off
        + 3] as u32) << 24
}

/// Read one byte.
pub fn read_u8(data: &[u8], off: usize) -> (r: u8)
    requires
        off < data@.len(),
    ensures
        r == data@[off as int],
{
    data[off]
}

/// Read a little-endian `u16` at `off`.
pub fn read_u16(data: &[u8], off: usize) -> (r: u16)
    requires
        off + 2 <= data@.len(),
    ensures
        le16(r) == data@.subrange(off as int, off + 2),
        r == u16_at(data@, off as int),
{
    let n = data.len();
    let b0 = data[off];
    let b1 = data[off + 1];
    let r = (b0 as u16) | (b1 as u16) << 8;
    proof {
        assert(((((b0 as u16) | ((b1 as u16) << 8u16)) & 0xff) as u8) == b0) by (bit_vector);
        assert((((((b0 as u16) | ((b1 as u16) << 8u16)) >> 8u16) & 0xff) as u8) == b1)
            by (bit_vector);
        assert(le16(r) =~= data@.subrange(off as int, off + 2));
    }
    r
}

/// Read a little-endian `u32` at `off`.
pub fn read_u32(data: &[u8], off: usize) -> (r: u32)
    requires
        off + 4 <= data@.len(),
    ensures
        le32(r) == data@.subrange(off as int, off + 4),
        r == u32_at(data@, off as int),
{
    let n = data.len();
    let b0 = data[off];
    let b1 = data[off + 1];
    let b2 = data[off + 2];
    let b3 = data[off + 3];
    let r = (b0 as u32) | (b1 as u32) << 8 | (b2 as u32) << 16 | (b3 as u32) << 24;
    proof {
        assert(

            ((((b0 as u32) | ((b1 as u32) << 8u32) | ((b2 as u32) << 16u32) | ((b3 as u32)
                << 24u32)) & 0xff) as u8) == b0 && (((((b0 as u32) | ((b1 as u32) << 8u32) | ((
            b2 as u32) << 16u32) | ((b3 as u32) << 24u32)) >> 8u32) & 0xff) as u8) == b1 && (((((
            b0 as u32) | ((b1 as u32) << 8u32) | ((b2 as u32) << 16u32) | ((b3 as u32) << 24u32))
                >> 16u32) & 0xff) as u8) == b2 && (((((b0 as u32) | ((b1 as u32) << 8u32) | ((
            b2 as u32) << 16u32) | ((b3 as u32) << 24u32)) >> 24u32) & 0xff) as u8) == b3) by (bit_vector);
        assert(le32(r) =~= data@.subrange(off as int, off + 4));
    }
    r
}

/// Read a little-endian `u64` at `off`.
pub fn read_u64(data: &[u8], off: usize) -> (r: u64)
    requires
        off + 8 <= data@.len(),
    ensures
        le64(r) == data@.subrange(off as int, off + 8),
{
    let n = data.len();
    let lo = read_u32(data, off);
    let hi = read_u32(data, off + 4);
    let r = (lo as u64) | (hi as u64) << 32;
    proof {
        assert(

            ((((lo as u64) | ((hi as u64) << 32u64)) & 0xff) as u8) == (lo & 0xff) as u8 && ((((
            (lo as u64) | ((hi as u64) << 32u64)) >> 8u64) & 0xff) as u8) == ((lo >> 8u32)
                & 0xff) as u8 && (((((lo as u64) | ((hi as u64) << 32u64)) >> 16u64)
                & 0xff) as u8) == ((lo >> 16u32) & 0xff) as u8 && (((((lo as u64) | ((hi as u64)
                << 32u64)) >> 24u64) & 0xff) as u8) == ((lo >> 24u32) & 0xff) as u8 && (((((
            lo as u64) | ((hi as u64) << 32u64)) >> 32u64) & 0xff) as u8) == (hi & 0xff) as u8 && ((
            (((lo as u64) | ((hi as u64) << 32u64)) >> 40u64) & 0xff) as u8) == ((hi >> 8u32)
                & 0xff) as u8 && (((((lo as u64) | ((hi as u64) << 32u64)) >> 48u64)
                & 0xff) as u8) == ((hi >> 16u32) & 0xff) as u8 && (((((lo as u64) | ((hi as u64)
                << 32u64)) >> 56u64) & 0xff) as u8) == ((hi >> 24u32) & 0xff) as u8) by (bit_vector);
        assert(data@.subrange(off as int, off + 4) + data@.subrange(off + 4, off + 8)
            =~= data@.subrange(off as int, off + 8));
        assert(le64(r) =~= data@.subrange(off as int, off + 8));
    }
    r
}

/// Copy `N` bytes starting at `off` into a fixed-size array.
pub fn read_arr<const N: usize>(data: &[u8], off: usize) -> (r: [u8; N])
    requires
        off + N <= data@.len(),
    ensures
        r@ == data@.subrange(off as int, off + N),
{
    let n = data.len();
    let mut r = [0u8; N];
    let mut i: usize = 0;
    while i < N
        invariant
            off + N <= n == data@.len(),
            i <= N,
            r@.len() == N,
            forall|j: int| 0 <= j < i ==> r@[j] == data@[off + j],
        decreases N - i,
    {
        r[i] = data[off + i];
        i = i + 1;
    }
    assert(r@ =~= data@.subrange(off as int, off + N));
    r
}

/// Copy `len` bytes starting at `off` into a fresh vector.
pub fn read_vec(data: &[u8], off: usize, len: usize) -> (r: Vec<u8>)
    requires
        off + len <= data@.len(),
    ensures
        r@ == data@.subrange(off as int, off + len),
{
    let n = data.len();
    let mut r: Vec<u8> = Vec::new();
    let mut i: usize = 0;
    while i < len
        invariant
            off + len <= n == data@.len(),
            i <= len,
            r@.len() == i,
            forall|j: int| 0 <= j < i ==> r@[j] == data@[off + j],
        decreases len - i,
    {
        r.push(data[off + i]);
        i = i + 1;
    }
    assert(r@ =~= data@.subrange(off as int, off + len));
    r
}

/// Append one byte.
pub fn push_u8(out: &mut Vec<u8>, x: u8)
    ensures
        final(out)@ == old(out)@.push(x),
{
    out.push(x);
}

/// Append a `u16` in little-endian order.
pub fn push_u16(out: &mut Vec<u8>, x: u16)
    ensures
        final(out)@ == old(out)@ + le16(x),
{
    out.push((x & 0xff) as u8);
    out.push(((x >> 8) & 0xff) as u8);
    assert(final(out)@ =~= old(out)@ + le16(x));
}

/// Append a `u32` in little-endian order.
pub fn push_u32(out: &mut Vec<u8>, x: u32)
    ensures
        final(out)@ == old(out)@ + le32(x),
{
    out.push((x & 0xff) as u8);
    out.push(((x >> 8) & 0xff) as u8);
    out.push(((x >> 16) & 0xff) as u8);
    out.push(((x >> 24) & 0xff) as u8);
    assert(final(out)@ =~= old(out)@ + le32(x));
}

/// Append a `u64` in little-endian order.
pub fn push_u64(out: &mut Vec<u8>, x: u64)
    ensures
        final(out)@ == old(out)@ + le64(x),
{
    out.push((x & 0xff) as u8);
    out.push(((x >> 8) & 0xff) as u8);
    out.push(((x >> 16) & 0xff) as u8);
    out.push(((x >> 24) & 0xff) as u8);
    out.push(((x >> 32) & 0xff) as u8);
    out.push(((x >> 40) & 0xff) as u8);
    out.push(((x >> 48) & 0xff) as u8);
    out.push(((x >> 56) & 0xff) as u8);
    assert(final(out)@ =~= old(out)@ + le64(x));
}

/// Append all bytes of a slice.
pub fn push_bytes(out: &mut Vec<u8>, src: &[u8])
    ensures
        final(out)@ == old(out)@ + src@,
{
    let n = src.len();
    let mut i: usize = 0;
    while i < n
        invariant
            n == src@.len(),
            i <= n,
            out@ == old(out)@ + src@.subrange(0, i as int),
        decreases n - i,
    {
        out.push(src[i]);
        i = i + 1;
        assert(out@ =~= old(out)@ + src@.subrange(0, i as int));
    }
    assert(out@ =~= old(out)@ + src@);
}

/// Overwrite `out[off .. off + src.len()]` with the bytes of `src`.
pub fn splice_bytes(out: &mut Vec<u8>, off: usize, src: &[u8])
    requires
        off + src@.len() <= old(out)@.len(),
    ensures
        final(out)@.len() == old(out)@.len(),
        final(out)@ == old(out)@.subrange(0, off as int) + src@ + old(out)@.subrange(
            off + src@.len(),
            old(out)@.len() as int,
        ),
{
    let n = out.len();
    let m = src.len();
    let mut i: usize = 0;
    while i < m
        invariant
            m == src@.len(),
            off + m <= n == old(out)@.len(),
            i <= m,
            out@.len() == old(out)@.len(),
            forall|j: int| 0 <= j < i ==> out@[off + j] == src@[j],
            forall|j: int|
                0 <= j < old(out)@.len() && !(off <= j < off + i) ==> out@[j] == old(out)@[j],
        decreases m - i,
    {
        out[off + i] = src[i];
        i = i + 1;
    }
    assert(out@ =~= old(out)@.subrange(0, off as int) + src@ + old(out)@.subrange(
        off + src@.len(),
        old(out)@.len() as int,
    ));
}

/// What a byte buffer looks like after a half-open range is overwritten with
/// one filler byte.
pub open spec fn spec_fill_range(s: Seq<u8>, start: int, end: int, b: u8) -> Seq<u8> {
    Seq::new(s.len(), |i: int| if start <= i < end { b } else { s[i] })
}

/// Overwrite every byte of `out[start .. end]` with `b`.
pub fn fill_range(out: &mut Vec<u8>, start: usize, end: usize, b: u8)
    requires
        start <= end <= old(out)@.len(),
    ensures
        final(out)@ == spec_fill_range(old(out)@, start as int, end as int, b),
{
    let n = out.len();
    let mut i: usize = start;
    while i < end
        invariant
            start <= i <= end <= n == old(out)@.len(),
            out@.len() == old(out)@.len(),
            forall|j: int| start <= j < i ==> out@[j] == b,
            forall|j: int|
                0 <= j < old(out)@.len() && !(start <= j < i) ==> out@[j] == old(out)@[j],
        decreases end - i,
    {
        out[i] = b;
        i = i + 1;
    }
    assert(out@ =~= spec_fill_range(old(out)@, start as int, end as int, b));
}

/// Pad with `b` up to `len` bytes, or cut down to `len` bytes, exactly as
/// `Vec::resize` would.
pub fn resize_bytes(out: &mut Vec<u8>, len: usize, b: u8)
    ensures
        old(out)@.len() <= len ==> final(out)@ == old(out)@ + Seq::new(
            (len - old(out)@.len()) as nat,
            |i: int| b,
        ),
        old(out)@.len() > len ==> final(out)@ == old(out)@.subrange(0, len as int),
{
    if out.len() > len {
        out.truncate(len);
    } else {
        while out.len() < len
            invariant
                old(out)@.len() <= len,
                old(out)@.len() <= out@.len() <= len,
                out@ == old(out)@ + Seq::new((out@.len() - old(out)@.len()) as nat, |i: int| b),
            decreases len - out@.len(),
        {
            out.push(b);
            assert(out@ =~= old(out)@ + Seq::new((out@.len() - old(out)@.len()) as nat, |i: int| b));
        }
    }
}

/// Compare two byte slices for equality.
pub fn bytes_eq(a: &[u8], b: &[u8]) -> (r: bool)
    ensures
        r == (a@ == b@),
{
    if a.len() != b.len() {
        return false;
    }
    let n = a.len();
    let mut i: usize = 0;
    while i < n
        invariant
            n == a@.len() == b@.len(),
            i <= n,
            forall|j: int| 0 <= j < i ==> a@[j] == b@[j],
        decreases n - i,
    {
        if a[i] != b[i] {
            return false;
        }
        i = i + 1;
    }
    proof {
        assert(a@ =~= b@);
    }
    true
}

/// Trailing NUL bytes stripped, as tag names are compared and displayed.
pub open spec fn spec_trim_zeros(s: Seq<u8>) -> Seq<u8>
    decreases s.len(),
{
    if s.len() > 0 && s[s.len() - 1] == 0 {
        spec_trim_zeros(s.drop_last())
    } else {
        s
    }
}

/// The trimmed sequence is the prefix of `s` up to its last non-NUL byte.
pub proof fn lemma_trim_zeros_prefix(s: Seq<u8>)
    ensures
        spec_trim_zeros(s).len() <= s.len(),
        spec_trim_zeros(s) == s.subrange(0, spec_trim_zeros(s).len() as int),
        forall|j: int| spec_trim_zeros(s).len() <= j < s.len() ==> s[j] == 0,
        spec_trim_zeros(s).len() > 0 ==> s[spec_trim_zeros(s).len() - 1] != 0,
    decreases s.len(),
{
    if s.len() > 0 && s[s.len() - 1] == 0 {
        lemma_trim_zeros_prefix(s.drop_last());
        let t = spec_trim_zeros(s);
        assert(t == spec_trim_zeros(s.drop_last()));
        assert(s.drop_last() =~= s.subrange(0, s.len() - 1));
        assert(t == s.drop_last().subrange(0, t.len() as int));
        assert(s.drop_last().subrange(0, t.len() as int) =~= s.subrange(0, t.len() as int));
        assert(forall|j: int|
            t.len() <= j < s.len() - 1 ==> s.drop_last()[j] == 0 && s[j] == s.drop_last()[j]);
    } else {
        assert(spec_trim_zeros(s) =~= s.subrange(0, spec_trim_zeros(s).len() as int));
    }
}

/// Number of bytes left after trailing NULs are stripped.
pub fn trimmed_len(data: &[u8]) -> (r: usize)
    ensures
        r == spec_trim_zeros(data@).len(),
{
    let mut i: usize = data.len();
    proof {
        assert(data@.subrange(0, data@.len() as int) =~= data@);
    }
    while i > 0
        invariant
            i <= data@.len(),
            spec_trim_zeros(data@) == spec_trim_zeros(data@.subrange(0, i as int)),
        decreases i,
    {
        if data[i - 1] != 0 {
            proof {
                let pre = data@.subrange(0, i as int);
                assert(pre[i - 1] != 0);
            }
            return i;
        }
        proof {
            let pre = data@.subrange(0, i as int);
            assert(pre[i - 1] == 0);
            assert(pre.drop_last() =~= data@.subrange(0, i - 1));
        }
        i = i - 1;
    }
    proof {
        assert(data@.subrange(0, 0) =~= Seq::<u8>::empty());
    }
    0
}

/// The ascending order of a sequence of sizes.
pub open spec fn spec_sorted_usizes(s: Seq<usize>) -> Seq<usize> {
    s.sort_by(|x: usize, y: usize| x <= y)
}

/// Sort in place, ascending: insertion sort.
pub fn sort_usizes(v: &mut Vec<usize>)
    ensures
        final(v)@ == spec_sorted_usizes(old(v)@),
{
    let ghost leq = |x: usize, y: usize| x <= y;
    proof {
        old(v)@.lemma_sort_by_ensures(leq);
        broadcast use vstd::seq_lib::group_to_multiset_ensures;

    }
    let n = v.len();
    if n <= 1 {
        proof {
            vstd::seq_lib::lemma_sorted_unique(v@, spec_sorted_usizes(old(v)@), leq);
            assert(v@ =~= spec_sorted_usizes(old(v)@));
        }
        return ;
    }
    let mut i: usize = 1;
    while i < n
        invariant
            n == v@.len() == old(v)@.len(),
            1 <= i <= n,
            v@.to_multiset() == old(v)@.to_multiset(),
            forall|a: int, b: int| 0 <= a < b < i ==> v@[a] <= v@[b],
        decreases n - i,
    {
        let mut j: usize = i;
        while j > 0 && v[j - 1] > v[j]
            invariant
                n == v@.len() == old(v)@.len(),
                j <= i < n,
                v@.to_multiset() == old(v)@.to_multiset(),
                forall|a: int, b: int| 0 <= a < b <= i && b != j ==> v@[a] <= v@[b],
            decreases j,
        {
            let ghost old_view = v@;
            let x = v[j - 1];
            let y = v[j];
            v[j - 1] = y;
            v[j] = x;
            proof {
                lemma_swap_adjacent_multiset(old_view, j - 1);
                assert(v@ =~= old_view.update(j - 1, y).update(j as int, x));
            }
            j = j - 1;
        }
        i = i + 1;
    }
    proof {
        assert(vstd::relations::sorted_by(v@, leq));
        vstd::seq_lib::lemma_sorted_unique(v@, spec_sorted_usizes(old(v)@), leq);
        assert(v@ =~= spec_sorted_usizes(old(v)@));
    }
}

/// The ascending order of a sequence of 64-bit values.
pub open spec fn spec_sorted_u64s(s: Seq<u64>) -> Seq<u64> {
    s.sort_by(|x: u64, y: u64| x <= y)
}

/// Sort in place, ascending: insertion sort.
pub fn sort_u64s(v: &mut Vec<u64>)
    ensures
        final(v)@ == spec_sorted_u64s(old(v)@),
{
    let ghost leq = |x: u64, y: u64| x <= y;
    proof {
        old(v)@.lemma_sort_by_ensures(leq);
        broadcast use vstd::seq_lib::group_to_multiset_ensures;

    }
    let n = v.len();
    if n <= 1 {
        proof {
            vstd::seq_lib::lemma_sorted_unique(v@, spec_sorted_u64s(old(v)@), leq);
            assert(v@ =~= spec_sorted_u64s(old(v)@));
        }
        return ;
    }
    let mut i: usize = 1;
    while i < n
        invariant
            n == v@.len() == old(v)@.len(),
            1 <= i <= n,
            v@.to_multiset() == old(v)@.to_multiset(),
            forall|a: int, b: int| 0 <= a < b < i ==> v@[a] <= v@[b],
        decreases n - i,
    {
        let mut j: usize = i;
        while j > 0 && v[j - 1] > v[j]
            invariant
                n == v@.len() == old(v)@.len(),
                j <= i < n,
                v@.to_multiset() == old(v)@.to_multiset(),
                forall|a: int, b: int| 0 <= a < b <= i && b != j ==> v@[a] <= v@[b],
            decreases j,
        {
            let ghost old_view = v@;
            let x = v[j - 1];
            let y = v[j];
            v[j - 1] = y;
            v[j] = x;
            proof {
                lemma_swap_adjacent_multiset_u64(old_view, j - 1);
                assert(v@ =~= old_view.update(j - 1, y).update(j as int, x));
            }
            j = j - 1;
        }
        i = i + 1;
    }
    proof {
        assert(vstd::relations::sorted_by(v@, leq));
        vstd::seq_lib::lemma_sorted_unique(v@, spec_sorted_u64s(old(v)@), leq);
        assert(v@ =~= spec_sorted_u64s(old(v)@));
    }
}

/// Swapping two adjacent positions keeps the multiset of elements.
proof fn lemma_swap_adjacent_multiset(s: Seq<usize>, i: int)
    requires
        0 <= i,
        i + 2 <= s.len(),
    ensures
        s.update(i, s[i + 1]).update(i + 1, s[i]).to_multiset() == s.to_multiset(),
{
    broadcast use vstd::seq_lib::group_to_multiset_ensures;
    broadcast use vstd::multiset::group_multiset_axioms;

    let t = s.update(i, s[i + 1]).update(i + 1, s[i]);
    let pre = s.subrange(0, i);
    let post = s.subrange(i + 2, s.len() as int);
    let mid_s = seq![s[i], s[i + 1]];
    let mid_t = seq![s[i + 1], s[i]];
    assert(s =~= (pre + mid_s) + post);
    assert(t =~= (pre + mid_t) + post);
    vstd::seq_lib::lemma_multiset_commutative(pre + mid_s, post);
    vstd::seq_lib::lemma_multiset_commutative(pre, mid_s);
    vstd::seq_lib::lemma_multiset_commutative(pre + mid_t, post);
    vstd::seq_lib::lemma_multiset_commutative(pre, mid_t);
    assert(mid_s.to_multiset() =~= mid_t.to_multiset()) by {
        assert(mid_s =~= Seq::<usize>::empty().push(s[i]).push(s[i + 1]));
        assert(mid_t =~= Seq::<usize>::empty().push(s[i + 1]).push(s[i]));
        assert(Seq::<usize>::empty().to_multiset().insert(s[i]).insert(s[i + 1])
            =~= Seq::<usize>::empty().to_multiset().insert(s[i + 1]).insert(s[i]));
    }
    assert(t.to_multiset() =~= s.to_multiset());
}

/// Swapping two adjacent positions keeps the multiset of elements.
proof fn lemma_swap_adjacent_multiset_u64(s: Seq<u64>, i: int)
    requires
        0 <= i,
        i + 2 <= s.len(),
    ensures
        s.update(i, s[i + 1]).update(i + 1, s[i]).to_multiset() == s.to_multiset(),
{
    broadcast use vstd::seq_lib::group_to_multiset_ensures;
    broadcast use vstd::multiset::group_multiset_axioms;

    let t = s.update(i, s[i + 1]).update(i + 1, s[i]);
    let pre = s.subrange(0, i);
    let post = s.subrange(i + 2, s.len() as int);
    let mid_s = seq![s[i], s[i + 1]];
    let mid_t = seq![s[i + 1], s[i]];
    assert(s =~= (pre + mid_s) + post);
    assert(t =~= (pre + mid_t) + post);
    vstd::seq_lib::lemma_multiset_commutative(pre + mid_s, post);
    vstd::seq_lib::lemma_multiset_commutative(pre, mid_s);
    vstd::seq_lib::lemma_multiset_commutative(pre + mid_t, post);
    vstd::seq_lib::lemma_multiset_commutative(pre, mid_t);
    assert(mid_s.to_multiset() =~= mid_t.to_multiset()) by {
        assert(mid_s =~= Seq::<u64>::empty().push(s[i]).push(s[i + 1]));
        assert(mid_t =~= Seq::<u64>::empty().push(s[i + 1]).push(s[i]));
        assert(Seq::<u64>::empty().to_multiset().insert(s[i]).insert(s[i + 1])
            =~= Seq::<u64>::empty().to_multiset().insert(s[i + 1]).insert(s[i]));
    }
    assert(t.to_multiset() =~= s.to_multiset());
}

/// Whether a sequence of names holds one equal to `nm`.
pub open spec fn spec_name_in(names: Seq<Seq<char>>, nm: Seq<char>) -> bool {
    exists|k: int| 0 <= k < names.len() && names[k] == nm
}

/// The character sequences of a list of names.
pub open spec fn spec_names(names: Seq<String>) -> Seq<Seq<char>> {
    names.map_values(|s: String| s@)
}

/// Whether the list holds a name equal to `nm`.
pub fn contains_name(names: &Vec<String>, nm: &String) -> (r: bool)
    ensures
        r == spec_name_in(spec_names(names@), nm@),
{
    let n = names.len();
    let mut i: usize = 0;
    while i < n
        invariant
            n == names@.len(),
            i <= n,
            forall|k: int| 0 <= k < i ==> names@[k]@ != nm@,
        decreases n - i,
    {
        if names[i] == *nm {
            proof {
                assert(spec_names(names@)[i as int] == nm@);
            }
            return true;
        }
        i = i + 1;
    }
    proof {
        assert(forall|k: int| 0 <= k < n ==> spec_names(names@)[k] == names@[k]@);
    }
    false
}

/// Whether every byte is plain ASCII.
pub open spec fn spec_all_ascii(s: Seq<u8>) -> bool {
    forall|i: int| 0 <= i < s.len() ==> s[i] < 0x80
}

/// The lower-case hex digit for a value below 16, as a byte.
pub open spec fn spec_hex_digit(n: u8) -> u8
    recommends
        n < 16,
{
    if n < 10 {
        (0x30 + n) as u8
    } else {
        (0x57 + n) as u8
    }
}

/// Two lower-case hex digits for one byte.
pub open spec fn spec_hex_pair(b: u8) -> Seq<u8> {
    seq![spec_hex_digit(b / 16), spec_hex_digit((b % 16) as u8)]
}

/// Hex pairs joined by ", ", in order.
pub open spec fn spec_hex_list(s: Seq<u8>) -> Seq<u8>
    decreases s.len(),
{
    if s.len() == 0 {
        Seq::empty()
    } else if s.len() == 1 {
        spec_hex_pair(s[0])
    } else {
        spec_hex_list(s.drop_last()) + seq![0x2cu8, 0x20u8] + spec_hex_pair(s.last())
    }
}

/// The hex fallback rendering of a tag: its raw bytes as a bracketed list.
pub open spec fn spec_hex_fallback(s: Seq<u8>) -> Seq<char> {
    (seq![0x5bu8] + spec_hex_list(s) + seq![0x5du8]).map_values(|c: u8| c as char)
}

/// What `String::from_utf8` decodes a byte sequence to, when it decodes at
/// all; the decode depends on the bytes alone.
pub uninterp spec fn spec_utf8_decode(s: Seq<u8>) -> Option<Seq<char>>;

/// The display form of a fixed-size tag: trailing NULs stripped, the rest
/// decoded as UTF-8; bytes that do not decode are shown as a bracketed hex
/// list of the whole tag. Trailing NULs are single-byte characters, so
/// stripping them before the decode strips exactly the decoded name's
/// trailing NUL characters.
pub open spec fn spec_tag_name(s: Seq<u8>) -> Seq<char> {
    let t = spec_trim_zeros(s);
    if spec_all_ascii(t) {
        t.map_values(|c: u8| c as char)
    } else {
        match spec_utf8_decode(t) {
            Some(cs) => cs,
            None => spec_hex_fallback(s),
        }
    }
}

/// Every byte of a hex list is ASCII.
proof fn lemma_hex_list_ascii(s: Seq<u8>)
    ensures
        spec_all_ascii(spec_hex_list(s)),
    decreases s.len(),
{
    if s.len() == 0 {
    } else if s.len() == 1 {
    } else {
        lemma_hex_list_ascii(s.drop_last());
    }
}

/// Relies on `String::from_utf8`: ASCII bytes always decode, to the
/// characters with the same code points; what any other byte sequence
/// decodes to, when it decodes at all, is named by `spec_utf8_decode`.
#[verifier::external_body]
fn utf8_string(b: Vec<u8>) -> (r: Option<String>)
    ensures
        match r {
            Some(s) => (if spec_all_ascii(b@) {
                s@ == b@.map_values(|c: u8| c as char)
            } else {
                spec_utf8_decode(b@) == Some(s@)
            }),
            None => !spec_all_ascii(b@) && spec_utf8_decode(b@) is None,
        },
{
    match String::from_utf8(b) {
        Ok(s) => Some(s),
        Err(_) => None,
    }
}

/// Append the two hex digits of one byte.
fn push_hex_pair(out: &mut Vec<u8>, b: u8)
    ensures
        final(out)@ == old(out)@ + spec_hex_pair(b),
{
    let hi = b / 16;
    let lo = b % 16;
    out.push(if hi < 10 {
        0x30 + hi
    } else {
        0x57 + hi
    });
    out.push(if lo < 10 {
        0x30 + lo
    } else {
        0x57 + lo
    });
    assert(final(out)@ =~= old(out)@ + spec_hex_pair(b));
}

/// The display form of a fixed-size tag, as the contracts define it.
pub fn tag_name(b: &[u8]) -> (r: String)
    ensures
        r@ == spec_tag_name(b@),
{
    let tl = trimmed_len(b);
    proof {
        lemma_trim_zeros_prefix(b@);
    }
    let trimmed = read_vec(b, 0, tl);
    proof {
        assert(trimmed@ =~= spec_trim_zeros(b@));
    }
    match utf8_string(trimmed) {
        Some(s) => s,
        None => {
            // The tag does not decode: render the raw bytes as hex.
            let n = b.len();
            let mut bytes: Vec<u8> = Vec::new();
            bytes.push(0x5b);
            let mut i: usize = 0;
            while i < n
                invariant
                    n == b@.len(),
                    i <= n,
                    bytes@ == seq![0x5bu8] + spec_hex_list(b@.subrange(0, i as int)),
                decreases n - i,
            {
                if i > 0 {
                    bytes.push(0x2c);
                    bytes.push(0x20);
                }
                push_hex_pair(&mut bytes, b[i]);
                proof {
                    let pre = b@.subrange(0, i + 1);
                    assert(pre.drop_last() =~= b@.subrange(0, i as int));
                    assert(pre.last() == b@[i as int]);
                    assert(bytes@ =~= seq![0x5bu8] + spec_hex_list(pre));
                }
                i = i + 1;
            }
            bytes.push(0x5d);
            proof {
                assert(b@.subrange(0, n as int) =~= b@);
                assert(bytes@ =~= seq![0x5bu8] + spec_hex_list(b@) + seq![0x5du8]);
                lemma_hex_list_ascii(b@);
            }
            let ghost hex_bytes = bytes@;
            match utf8_string(bytes) {
                Some(h) => {
                    proof {
                        assert(h@ =~= spec_hex_fallback(b@));
                    }
                    h
                },
                None => {
                    // ASCII bytes always decode.
                    proof {
                        assert(false);
                    }
                    String::new()
                },
            }
        },
    }
}

/// Whether a character sequence ends with the given suffix.
pub open spec fn spec_ends_with(s: Seq<char>, suf: Seq<char>) -> bool {
    s.len() >= suf.len() && s.subrange(s.len() - suf.len(), s.len() as int) == suf
}

/// Whether the display form of the tag `b` ends with the ASCII suffix
/// `suf`.
pub fn tag_ends_with(b: &[u8], suf: &[u8]) -> (r: bool)
    requires
        spec_all_ascii(suf@),
    ensures
        r == spec_ends_with(spec_tag_name(b@), suf@.map_values(|c: u8| c as char)),
{
    let name = tag_name(b);
    string_ends_with(&name, suf)
}

/// Whether the characters of `s` end with the ASCII suffix `suf`.
pub fn string_ends_with(s: &String, suf: &[u8]) -> (r: bool)
    requires
        spec_all_ascii(suf@),
    ensures
        r == spec_ends_with(s@, suf@.map_values(|c: u8| c as char)),
{
    let ghost sufc = suf@.map_values(|c: u8| c as char);
    let n = s.as_str().unicode_len();
    let m = suf.len();
    if n < m {
        return false;
    }
    let mut k: usize = 0;
    while k < m
        invariant
            m == suf@.len() <= n == s@.len(),
            spec_all_ascii(suf@),
            sufc == suf@.map_values(|c: u8| c as char),
            k <= m,
            forall|j: int| 0 <= j < k ==> s@[n - m + j] == suf@[j] as char,
        decreases m - k,
    {
        let c = s.as_str().get_char(n - m + k);
        if c as u32 != suf[k] as u32 {
            proof {
                assert(c != suf@[k as int] as char);
                if spec_ends_with(s@, sufc) {
                    assert(s@.subrange(s@.len() - sufc.len(), s@.len() as int)[k as int]
                        == sufc[k as int]);
                    assert(s@[n - m + k] == suf@[k as int] as char);
                }
            }
            return false;
        }
        proof {
            assert(c == suf@[k as int] as char);
        }
        k = k + 1;
    }
    proof {
        assert forall|j: int| 0 <= j < sufc.len() implies s@.subrange(
            s@.len() - sufc.len(),
            s@.len() as int,
        )[j] == sufc[j] by {
            assert(s@.subrange(s@.len() - sufc.len(), s@.len() as int)[j] == s@[n - m + j]);
            assert(sufc[j] == suf@[j] as char);
        }
        assert(s@.subrange(s@.len() - sufc.len(), s@.len() as int) =~= sufc);
    }
    true
}

} // verus!
