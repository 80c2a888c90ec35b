//! Bytes and characters as the digits of numbers.

use vstd::prelude::*;

use crate::bytes;
use crate::text;

verus! {

/// The number whose digits to the base 256 are `b`, the lowest first.
pub open spec fn numeral(b: Seq<u8>) -> nat
    decreases b.len(),
{
    if b.len() == 0 {
        0
    } else {
        b[0] as nat + 0x100 * numeral(b.drop_first())
    }
}

/// Little-endian values are the numbers with the bytes as digits, the first the
/// lowest; big-endian values are those with the last the lowest.
pub proof fn values_are_numerals(b: Seq<u8>, at: int)
    requires
        0 <= at,
    ensures
        at + 2 <= b.len() ==> bytes::le16(b, at) == numeral(b.subrange(at, at + 2)),
        at + 4 <= b.len() ==> bytes::le32(b, at) == numeral(b.subrange(at, at + 4)),
        at + 8 <= b.len() ==> bytes::le64(b, at) == numeral(b.subrange(at, at + 8)),
        at + 4 <= b.len() ==> bytes::be32(b, at) == numeral(b.subrange(at, at + 4).reverse()),
        at + 8 <= b.len() ==> bytes::be64(b, at) == numeral(b.subrange(at, at + 8).reverse()),
{
    if at + 2 <= b.len() {
        lemma_numeral2(b.subrange(at, at + 2));
    }
    if at + 4 <= b.len() {
        lemma_numeral4(b.subrange(at, at + 4));
        lemma_numeral4(b.subrange(at, at + 4).reverse());
    }
    if at + 8 <= b.len() {
        let s = b.subrange(at, at + 8);
        lemma_numeral8(s);
        lemma_numeral8(s.reverse());
        assert(bytes::le32(s, 0) == bytes::le32(b, at));
        assert(bytes::le32(s, 4) == bytes::le32(b, at + 4));
        assert(bytes::le32(s.reverse(), 0) == bytes::be32(b, at + 4));
        assert(bytes::le32(s.reverse(), 4) == bytes::be32(b, at));
    }
}

proof fn lemma_numeral2(s: Seq<u8>)
    requires
        s.len() == 2,
    ensures
        numeral(s) == s[0] + s[1] * 0x100,
{
    reveal_with_fuel(numeral, 3);
}

proof fn lemma_numeral4(s: Seq<u8>)
    requires
        s.len() == 4,
    ensures
        numeral(s) == s[0] + s[1] * 0x100 + s[2] * 0x1_0000 + s[3] * 0x100_0000,
{
    let t = s.drop_first().drop_first();
    lemma_numeral2(t);
    reveal_with_fuel(numeral, 3);
    assert(numeral(s.drop_first()) == s[1] + 0x100 * numeral(t));
}

proof fn lemma_numeral8(s: Seq<u8>)
    requires
        s.len() == 8,
    ensures
        numeral(s) == bytes::le32(s, 0) + bytes::le32(s, 4) * 0x1_0000_0000,
{
    let a = s.drop_first();
    let b = a.drop_first();
    let c = b.drop_first();
    let d = c.drop_first();
    lemma_numeral4(d);
    assert(numeral(c) == s[3] + 0x100 * numeral(d));
    assert(numeral(b) == s[2] + 0x100 * numeral(c));
    assert(numeral(a) == s[1] + 0x100 * numeral(b));
    assert(numeral(s) == s[0] + 0x100 * numeral(a));
}

/// The bytes of a value are its digits to the base 256.
pub proof fn bytes_are_digits(v: u32, w: u64)
    ensures
        numeral(bytes::le32_bytes(v)) == v,
        numeral(bytes::be32_bytes(v).reverse()) == v,
        numeral(bytes::le64_bytes(w)) == w,
{
    bytes::le32_roundtrip(v);
    bytes::be32_roundtrip(v);
    bytes::le64_roundtrip(w);
    values_are_numerals(bytes::le32_bytes(v), 0);
    values_are_numerals(bytes::be32_bytes(v), 0);
    values_are_numerals(bytes::le64_bytes(w), 0);
    assert(bytes::le32_bytes(v).subrange(0, 4) =~= bytes::le32_bytes(v));
    assert(bytes::be32_bytes(v).subrange(0, 4) =~= bytes::be32_bytes(v));
    assert(bytes::le64_bytes(w).subrange(0, 8) =~= bytes::le64_bytes(w));
}

/// An address is printed as `0x` and sixteen digits that write it.
pub proof fn addresses_are_printed_in_full(a: u64)
    ensures
        text::address_text(a).len() == 18,
        text::address_text(a).take(2) == seq!['0', 'x'],
        text::hex_value(text::address_text(a).skip(2)) == a,
{
    reveal_strlit("0x");
    assert(text::hex_span(16) == 0x1_0000_0000_0000_0000) by {
        reveal_with_fuel(text::hex_span, 17);
    }
    text::lemma_hex_group(a as nat, false, 16);
    let t = text::address_text(a);
    assert(t.take(2) =~= seq!['0', 'x']);
    assert(t.skip(2) =~= text::zero_padded(text::hex(a as nat), 16));
}

} // verus!
