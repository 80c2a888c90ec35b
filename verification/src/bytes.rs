//! Fixed-width integers as byte sequences.

use vstd::prelude::*;

verus! {

/// The two bytes at `at`, most significant last.
pub open spec fn le16(b: Seq<u8>, at: int) -> u16 {
    (b[at] + b[at + 1] * 0x100) as u16
}

/// The four bytes at `at`, most significant last.
pub open spec fn le32(b: Seq<u8>, at: int) -> u32 {
    (b[at] + b[at + 1] * 0x100 + b[at + 2] * 0x1_0000 + b[at + 3] * 0x100_0000) as u32
}

/// The eight bytes at `at`, most significant last.
pub open spec fn le64(b: Seq<u8>, at: int) -> u64 {
    (le32(b, at) + le32(b, at + 4) * 0x1_0000_0000) as u64
}

/// The four bytes at `at`, most significant first.
pub open spec fn be32(b: Seq<u8>, at: int) -> u32 {
    (b[at] * 0x100_0000 + b[at + 1] * 0x1_0000 + b[at + 2] * 0x100 + b[at + 3]) as u32
}

/// The eight bytes at `at`, most significant first.
pub open spec fn be64(b: Seq<u8>, at: int) -> u64 {
    (be32(b, at) * 0x1_0000_0000 + be32(b, at + 4)) as u64
}

/// The bytes of `v`, most significant last.
pub open spec fn le32_bytes(v: u32) -> Seq<u8> {
    seq![
        (v % 0x100) as u8,
        (v / 0x100 % 0x100) as u8,
        (v / 0x1_0000 % 0x100) as u8,
        (v / 0x100_0000) as u8,
    ]
}

/// The bytes of `v`, most significant first.
pub open spec fn be32_bytes(v: u32) -> Seq<u8> {
    le32_bytes(v).reverse()
}

/// The bytes of `v`, most significant last.
pub open spec fn le64_bytes(v: u64) -> Seq<u8> {
    le32_bytes((v % 0x1_0000_0000) as u32) + le32_bytes((v / 0x1_0000_0000) as u32)
}

/// Reading back the bytes of a 32-bit value yields the value.
pub proof fn le32_roundtrip(v: u32)
    ensures
        le32_bytes(v).len() == 4,
        le32(le32_bytes(v), 0) == v,
{
}

/// Reading back the bytes of a 32-bit value yields the value, most significant
/// byte first as well.
pub proof fn be32_roundtrip(v: u32)
    ensures
        be32_bytes(v).len() == 4,
        be32(be32_bytes(v), 0) == v,
{
    le32_roundtrip(v);
}

/// Reading back the bytes of a 64-bit value yields the value.
pub proof fn le64_roundtrip(v: u64)
    ensures
        le64_bytes(v).len() == 8,
        le64(le64_bytes(v), 0) == v,
{
    let lo = (v % 0x1_0000_0000) as u32;
    let hi = (v / 0x1_0000_0000) as u32;
    le32_roundtrip(lo);
    le32_roundtrip(hi);
    let b = le64_bytes(v);
    assert(le32(b, 0) == le32(le32_bytes(lo), 0));
    assert(le32(b, 4) == le32(le32_bytes(hi), 0));
}

/// Decode two bytes, most significant last.
pub fn get_le16(b: &[u8], at: usize) -> (r: u16)
    requires
        at + 2 <= b@.len(),
    ensures
        r == le16(b@, at as int),
{
    b[at] as u16 + b[at + 1] as u16 * 0x100
}

/// Decode four bytes, most significant last.
pub fn get_le32(b: &[u8], at: usize) -> (r: u32)
    requires
        at + 4 <= b@.len(),
    ensures
        r == le32(b@, at as int),
{
    b[at] as u32 + b[at + 1] as u32 * 0x100 + b[at + 2] as u32 * 0x1_0000 + b[at + 3] as u32
        * 0x100_0000
}

/// Decode eight bytes, most significant last.
pub fn get_le64(b: &[u8], at: usize) -> (r: u64)
    requires
        at + 8 <= b@.len(),
    ensures
        r == le64(b@, at as int),
{
    assert(b.len() == b@.len());
    get_le32(b, at) as u64 + get_le32(b, at + 4) as u64 * 0x1_0000_0000
}

/// Decode four bytes, most significant first.
pub fn get_be32(b: &[u8], at: usize) -> (r: u32)
    requires
        at + 4 <= b@.len(),
    ensures
        r == be32(b@, at as int),
{
    b[at] as u32 * 0x100_0000 + b[at + 1] as u32 * 0x1_0000 + b[at + 2] as u32 * 0x100 + b[at
        + 3] as u32
}

/// Decode eight bytes, most significant first.
pub fn get_be64(b: &[u8], at: usize) -> (r: u64)
    requires
        at + 8 <= b@.len(),
    ensures
        r == be64(b@, at as int),
{
    assert(b.len() == b@.len());
    get_be32(b, at) as u64 * 0x1_0000_0000 + get_be32(b, at + 4) as u64
}

/// Encode a 32-bit value, most significant byte last.
pub fn put_le32(v: u32) -> (r: Vec<u8>)
    ensures
        r@ == le32_bytes(v),
{
    let r = vec![
        (v % 0x100) as u8,
        (v / 0x100 % 0x100) as u8,
        (v / 0x1_0000 % 0x100) as u8,
        (v / 0x100_0000) as u8,
    ];
    assert(r@ =~= le32_bytes(v));
    r
}

/// Encode a 64-bit value, most significant byte last.
pub fn put_le64(v: u64) -> (r: Vec<u8>)
    ensures
        r@ == le64_bytes(v),
{
    let mut r = put_le32((v % 0x1_0000_0000) as u32);
    let mut hi = put_le32((v / 0x1_0000_0000) as u32);
    r.append(&mut hi);
    r
}

/// Overwrite `dst` with `src`.
pub fn copy(dst: &mut [u8], src: &[u8])
    requires
        old(dst)@.len() == src@.len(),
    ensures
        final(dst)@ == src@,
{
    let mut i: usize = 0;
    while i < src.len()
        invariant
            i <= src@.len(),
            dst@.len() == src@.len(),
            forall|k: int| 0 <= k < i ==> dst@[k] == src@[k],
        decreases src@.len() - i,
    {
        dst[i] = src[i];
        i += 1;
    }
    assert(dst@ =~= src@);
}

/// Overwrite every byte of `dst` with `byte`.
pub fn fill(dst: &mut [u8], byte: u8)
    ensures
        final(dst)@ == Seq::new(old(dst)@.len(), |i: int| byte),
{
    let mut i: usize = 0;
    let n: usize = dst.len();
    while i < n
        invariant
            i <= n,
            dst@.len() == n,
            forall|k: int| 0 <= k < i ==> dst@[k] == byte,
        decreases n - i,
    {
        dst[i] = byte;
        i += 1;
    }
    assert(dst@ =~= Seq::new(n as nat, |i: int| byte));
}

/// Lexicographic order of byte sequences: -1, 0 or 1.
pub open spec fn order(a: Seq<u8>, b: Seq<u8>) -> int
    decreases a.len(),
{
    if a.len() == 0 && b.len() == 0 {
        0
    } else if a.len() == 0 {
        -1
    } else if b.len() == 0 {
        1
    } else if a[0] < b[0] {
        -1
    } else if b[0] < a[0] {
        1
    } else {
        order(a.drop_first(), b.drop_first())
    }
}

/// The order is decided by the first difference.
pub proof fn lemma_order_skip(a: Seq<u8>, b: Seq<u8>, k: int)
    requires
        0 <= k <= a.len(),
        k <= b.len(),
        forall|j: int| 0 <= j < k ==> a[j] == b[j],
    ensures
        order(a, b) == order(a.skip(k), b.skip(k)),
    decreases k,
{
    if k == 0 {
        assert(a.skip(0) =~= a);
        assert(b.skip(0) =~= b);
    } else {
        lemma_order_skip(a.drop_first(), b.drop_first(), k - 1);
        assert(a.drop_first().skip(k - 1) =~= a.skip(k));
        assert(b.drop_first().skip(k - 1) =~= b.skip(k));
    }
}

/// The bytes `from..to` as a vector of their own.
pub fn slice(b: &[u8], from: usize, to: usize) -> (r: Vec<u8>)
    requires
        from <= to <= b@.len(),
    ensures
        r@ == b@.subrange(from as int, to as int),
{
    let r = vstd::slice::slice_to_vec(vstd::slice::slice_subrange(b, from, to));
    assert(r@ =~= b@.subrange(from as int, to as int));
    r
}

/// Position of the first byte `c` at or after `from`, else the length.
pub open spec fn next(b: Seq<u8>, from: int, c: u8) -> int
    decreases b.len() - from,
{
    if from < 0 || from >= b.len() {
        b.len() as int
    } else if b[from] == c {
        from
    } else {
        next(b, from + 1, c)
    }
}

/// `next` is the first position of `c`, and a position of `c` unless it is the
/// end.
pub proof fn lemma_next(b: Seq<u8>, from: int, c: u8)
    requires
        0 <= from <= b.len(),
    ensures
        from <= next(b, from, c) <= b.len(),
        next(b, from, c) < b.len() ==> b[next(b, from, c)] == c,
        forall|k: int| from <= k < next(b, from, c) ==> b[k] != c,
    decreases b.len() - from,
{
    if from < b.len() && b[from] != c {
        lemma_next(b, from + 1, c);
    }
}

/// Find the first byte `c` at or after `from`.
pub fn find(b: &[u8], from: usize, c: u8) -> (r: usize)
    requires
        from <= b@.len(),
    ensures
        r == next(b@, from as int, c),
        from <= r <= b@.len(),
{
    let mut i: usize = from;
    while i < b.len() && b[i] != c
        invariant
            from <= i <= b@.len(),
            next(b@, i as int, c) == next(b@, from as int, c),
        decreases b@.len() - i,
    {
        i += 1;
    }
    i
}

/// Whether `p` stands in `b` at position `at`.
pub open spec fn stands_at(b: Seq<u8>, at: int, p: Seq<u8>) -> bool {
    0 <= at && at + p.len() <= b.len() && b.subrange(at, at + p.len()) == p
}

/// Whether `p` stands anywhere in `b`.
pub open spec fn occurs(b: Seq<u8>, p: Seq<u8>) -> bool {
    exists|at: int| #[trigger] stands_at(b, at, p)
}

/// Whether `p` stands at position `at`.
pub fn matches_at(b: &[u8], at: usize, p: &[u8]) -> (r: bool)
    requires
        at <= b@.len(),
    ensures
        r == stands_at(b@, at as int, p@),
{
    if p.len() > b.len() - at {
        return false;
    }
    let mut i: usize = 0;
    while i < p.len()
        invariant
            i <= p@.len(),
            at + p@.len() <= b@.len() <= usize::MAX,
            forall|k: int| 0 <= k < i ==> b@[at + k] == p@[k],
        decreases p@.len() - i,
    {
        if b[at + i] != p[i] {
            assert(b@.subrange(at as int, at + p@.len())[i as int] != p@[i as int]);
            return false;
        }
        i += 1;
    }
    assert(b@.subrange(at as int, at + p@.len()) =~= p@);
    true
}

/// Whether `p` stands anywhere in `b`.
pub fn contains(b: &[u8], p: &[u8]) -> (r: bool)
    ensures
        r == occurs(b@, p@),
{
    let mut at: usize = 0;
    loop
        invariant
            at <= b@.len(),
            forall|k: int| 0 <= k < at ==> !#[trigger] stands_at(b@, k, p@),
        decreases b@.len() - at,
    {
        if matches_at(b, at, p) {
            return true;
        }
        if at >= b.len() {
            return false;
        }
        at += 1;
    }
}

} // verus!
