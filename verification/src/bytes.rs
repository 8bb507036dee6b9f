//! Little-endian integers inside byte sequences.
use vstd::arithmetic::power::pow;
use vstd::prelude::*;

verus! {

/// The unsigned 16-bit little-endian integer at offset `at` of `s`.
pub open spec fn le16(s: Seq<u8>, at: int) -> int {
    s[at] + 0x100 * s[at + 1]
}

/// The unsigned 32-bit little-endian integer at offset `at` of `s`.
pub open spec fn le32(s: Seq<u8>, at: int) -> int {
    le16(s, at) + 0x1_0000 * le16(s, at + 2)
}

/// The unsigned 64-bit little-endian integer at offset `at` of `s`.
pub open spec fn le64(s: Seq<u8>, at: int) -> int {
    le32(s, at) + 0x1_0000_0000 * le32(s, at + 4)
}

/// `s` with `part` written over the bytes that start at `at`.
pub open spec fn splice(s: Seq<u8>, at: int, part: Seq<u8>) -> Seq<u8> {
    Seq::new(
        s.len(),
        |i: int|
            if at <= i < at + part.len() {
                part[i - at]
            } else {
                s[i]
            },
    )
}

/// The four little-endian bytes of `v`.
pub open spec fn le_bytes32(v: u32) -> Seq<u8> {
    seq![
        (v % 0x100) as u8,
        (v / 0x100 % 0x100) as u8,
        (v / 0x1_0000 % 0x100) as u8,
        (v / 0x100_0000) as u8,
    ]
}

/// The eight little-endian bytes of `v`.
pub open spec fn le_bytes64(v: u64) -> Seq<u8> {
    le_bytes32((v % 0x1_0000_0000) as u32) + le_bytes32((v / 0x1_0000_0000) as u32)
}

/// The two little-endian bytes of `v`.
pub open spec fn le_bytes16(v: u16) -> Seq<u8> {
    seq![(v % 0x100) as u8, (v / 0x100) as u8]
}

/// Reads the little-endian `u16` at `at`.
pub fn read_u16(s: &[u8], at: usize) -> (r: u16)
    requires
        at + 2 <= s@.len(),
    ensures
        r == le16(s@, at as int),
{
    s[at] as u16 + 0x100 * (s[at + 1] as u16)
}

/// Reads the little-endian `u32` at `at`.
pub fn read_u32(s: &[u8], at: usize) -> (r: u32)
    requires
        at + 4 <= s@.len(),
    ensures
        r == le32(s@, at as int),
{
    assert(at + 4 <= s.len());
    read_u16(s, at) as u32 + 0x1_0000 * (read_u16(s, at + 2) as u32)
}

/// Reads the little-endian `u64` at `at`.
pub fn read_u64(s: &[u8], at: usize) -> (r: u64)
    requires
        at + 8 <= s@.len(),
    ensures
        r == le64(s@, at as int),
{
    assert(at + 8 <= s.len());
    read_u32(s, at) as u64 + 0x1_0000_0000 * (read_u32(s, at + 4) as u64)
}

/// Writes `v` as four little-endian bytes at `off`.
pub fn put_u32(attr: &mut [u8], off: usize, v: u32)
    requires
        off + 4 <= old(attr)@.len(),
    ensures
        final(attr)@ == splice(old(attr)@, off as int, le_bytes32(v)),
{
    let ghost before = attr@;
    attr[off] = (v % 0x100) as u8;
    attr[off + 1] = (v / 0x100 % 0x100) as u8;
    attr[off + 2] = (v / 0x1_0000 % 0x100) as u8;
    attr[off + 3] = (v / 0x100_0000) as u8;
    assert(attr@ =~= splice(before, off as int, le_bytes32(v)));
}

/// Writes `v` as eight little-endian bytes at `off`.
pub fn put_u64(attr: &mut [u8], off: usize, v: u64)
    requires
        off + 8 <= old(attr)@.len(),
    ensures
        final(attr)@ == splice(old(attr)@, off as int, le_bytes64(v)),
{
    assert(off + 8 <= attr.len());
    let ghost before = attr@;
    put_u32(attr, off, (v % 0x1_0000_0000) as u32);
    put_u32(attr, off + 4, (v / 0x1_0000_0000) as u32);
    assert(attr@ =~= splice(before, off as int, le_bytes64(v)));
}

/// The four bytes of a `u32` are read as that `u32`, wherever they stand.
pub proof fn lemma_le32(s: Seq<u8>, at: int, v: u32)
    requires
        0 <= at,
        at + 4 <= s.len(),
        s.subrange(at, at + 4) == le_bytes32(v),
    ensures
        le32(s, at) == v,
{
    let b = s.subrange(at, at + 4);
    assert(b[0] == s[at] && b[1] == s[at + 1] && b[2] == s[at + 2] && b[3] == s[at + 3]);
    assert(v == v % 0x100 + 0x100 * (v / 0x100 % 0x100) + 0x1_0000 * (v / 0x1_0000 % 0x100)
        + 0x100_0000 * (v / 0x100_0000));
}

/// The eight bytes of a `u64` are read as that `u64`, wherever they stand.
pub proof fn lemma_le64(s: Seq<u8>, at: int, v: u64)
    requires
        0 <= at,
        at + 8 <= s.len(),
        s.subrange(at, at + 8) == le_bytes64(v),
    ensures
        le64(s, at) == v,
{
    let lo = (v % 0x1_0000_0000) as u32;
    let hi = (v / 0x1_0000_0000) as u32;
    let b = s.subrange(at, at + 8);
    assert(s.subrange(at, at + 4) =~= b.take(4));
    assert(b.take(4) =~= le_bytes32(lo));
    assert(s.subrange(at + 4, at + 8) =~= b.skip(4));
    assert(b.skip(4) =~= le_bytes32(hi));
    lemma_le32(s, at, lo);
    lemma_le32(s, at + 4, hi);
}

/// Reading the place where a `u32` was written gives that `u32` back.
pub proof fn law_read_back32(s: Seq<u8>, at: int, v: u32)
    requires
        0 <= at,
        at + 4 <= s.len(),
    ensures
        le32(splice(s, at, le_bytes32(v)), at) == v,
{
    assert(splice(s, at, le_bytes32(v)).subrange(at, at + 4) =~= le_bytes32(v));
    lemma_le32(splice(s, at, le_bytes32(v)), at, v);
}

/// Reading the place where a `u64` was written gives that `u64` back.
pub proof fn law_read_back64(s: Seq<u8>, at: int, v: u64)
    requires
        0 <= at,
        at + 8 <= s.len(),
    ensures
        le64(splice(s, at, le_bytes64(v)), at) == v,
{
    assert(splice(s, at, le_bytes64(v)).subrange(at, at + 8) =~= le_bytes64(v));
    lemma_le64(splice(s, at, le_bytes64(v)), at, v);
}

/// The two bytes of a `u16` are read as that `u16`, wherever they stand.
pub proof fn lemma_le16(s: Seq<u8>, at: int, v: u16)
    requires
        0 <= at,
        at + 2 <= s.len(),
        s.subrange(at, at + 2) == le_bytes16(v),
    ensures
        le16(s, at) == v,
{
    let b = s.subrange(at, at + 2);
    assert(b[0] == s[at] && b[1] == s[at + 1]);
}

/// Bytes that are all zero are read as zero.
pub proof fn law_zero_bytes(s: Seq<u8>, at: int)
    requires
        0 <= at,
        at + 8 <= s.len(),
        forall|i: int| at <= i < at + 8 ==> s[i] == 0,
    ensures
        le16(s, at) == 0,
        le32(s, at) == 0,
        le64(s, at) == 0,
{
}

/// A byte counts by its place: changing byte `k` of an integer changes the
/// integer by the difference times 256 to the power of `k`.
pub proof fn law_byte_weight(s: Seq<u8>, at: int, k: nat, b: u8)
    requires
        0 <= at,
        at + 8 <= s.len(),
        k < 8,
    ensures
        k < 2 ==> le16(s.update(at + k, b), at) - le16(s, at) == (b - s[at + k]) * pow(0x100, k),
        k < 4 ==> le32(s.update(at + k, b), at) - le32(s, at) == (b - s[at + k]) * pow(0x100, k),
        le64(s.update(at + k, b), at) - le64(s, at) == (b - s[at + k]) * pow(0x100, k),
{
    reveal_with_fuel(pow, 9);
    assert(pow(0x100, 0) == 1);
    assert(pow(0x100, 1) == 0x100);
    assert(pow(0x100, 2) == 0x1_0000);
    assert(pow(0x100, 3) == 0x100_0000);
    assert(pow(0x100, 4) == 0x1_0000_0000);
    assert(pow(0x100, 5) == 0x100_0000_0000);
    assert(pow(0x100, 6) == 0x1_0000_0000_0000);
    assert(pow(0x100, 7) == 0x100_0000_0000_0000);
    let d = b - s[at + k];
    let p = pow(0x100, k);
    if k == 0 {
        assert(d * p == d * 1);
    } else if k == 1 {
        assert(d * p == d * 0x100);
    } else if k == 2 {
        assert(d * p == d * 0x1_0000);
    } else if k == 3 {
        assert(d * p == d * 0x100_0000);
    } else if k == 4 {
        assert(d * p == d * 0x1_0000_0000);
    } else if k == 5 {
        assert(d * p == d * 0x100_0000_0000);
    } else if k == 6 {
        assert(d * p == d * 0x1_0000_0000_0000);
    } else {
        assert(d * p == d * 0x100_0000_0000_0000);
    }
}

/// An integer is read from its own bytes alone: what stands before and after
/// them does not matter.
pub proof fn law_only_own_bytes_count(s: Seq<u8>, at: int, t: Seq<u8>, from: int, n: int)
    requires
        0 <= at,
        at + n <= s.len(),
        0 <= from,
        from + n <= t.len(),
        s.subrange(at, at + n) == t.subrange(from, from + n),
    ensures
        n >= 2 ==> le16(s, at) == le16(t, from),
        n >= 4 ==> le32(s, at) == le32(t, from),
        n >= 8 ==> le64(s, at) == le64(t, from),
{
    let a = s.subrange(at, at + n);
    let b = t.subrange(from, from + n);
    if n >= 2 {
        assert(a[0] == s[at] && b[0] == t[from]);
        assert(a[1] == s[at + 1] && b[1] == t[from + 1]);
    }
    if n >= 4 {
        assert(a[2] == s[at + 2] && b[2] == t[from + 2]);
        assert(a[3] == s[at + 3] && b[3] == t[from + 3]);
    }
    if n >= 8 {
        assert(a[4] == s[at + 4] && b[4] == t[from + 4]);
        assert(a[5] == s[at + 5] && b[5] == t[from + 5]);
        assert(a[6] == s[at + 6] && b[6] == t[from + 6]);
        assert(a[7] == s[at + 7] && b[7] == t[from + 7]);
    }
}

/// Integers are encoded by as many bytes as they have, and those are read as
/// the integer they encode.
pub proof fn law_encoded_integers_read_back(a: u16, b: u32, c: u64)
    ensures
        le_bytes16(a).len() == 2,
        le_bytes32(b).len() == 4,
        le_bytes64(c).len() == 8,
        le16(le_bytes16(a), 0) == a,
        le32(le_bytes32(b), 0) == b,
        le64(le_bytes64(c), 0) == c,
{
    assert(le_bytes16(a).subrange(0, 2) =~= le_bytes16(a));
    assert(le_bytes32(b).subrange(0, 4) =~= le_bytes32(b));
    assert(le_bytes64(c).subrange(0, 8) =~= le_bytes64(c));
    lemma_le16(le_bytes16(a), 0, a);
    lemma_le32(le_bytes32(b), 0, b);
    lemma_le64(le_bytes64(c), 0, c);
}

/// A write puts its bytes at its place and changes nothing else.
pub proof fn law_write_changes_its_bytes_only(s: Seq<u8>, at: int, part: Seq<u8>)
    requires
        0 <= at,
        at + part.len() <= s.len(),
    ensures
        splice(s, at, part) == s.take(at) + part + s.skip(at + part.len()),
{
    assert(splice(s, at, part) =~= s.take(at) + part + s.skip(at + part.len()));
}

/// A write leaves every integer that lies wholly outside the written bytes
/// as it was.
pub proof fn law_write_leaves_rest(s: Seq<u8>, at: int, part: Seq<u8>, other: int)
    requires
        0 <= at,
        at + part.len() <= s.len(),
        0 <= other,
        other + 4 <= s.len(),
        other + 4 <= at || at + part.len() <= other,
    ensures
        le32(splice(s, at, part), other) == le32(s, other),
{
}

} // verus!
