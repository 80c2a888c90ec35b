//! Apple's binary property-list format, version 0.
//!
//! The last 32 bytes of a file are its trailer: how wide the entries of the
//! offset table and the object references are, how many objects there are,
//! which of them is the top one, and where the offset table stands. The input is
//! not trusted: the trailer, every count and every reference is checked.

use vstd::prelude::*;

use crate::bytes;
use crate::ipa::plist;
use crate::ipa::plist::{PlistError, PlistErrorView, PlistReal, PlistValue, PlistView, RealView};
use crate::text;

verus! {

/// How deeply containers may nest.
pub const MAX_DEPTH: usize = 128;

/// The bytes `b` as one number, most significant first.
pub open spec fn be_nat(b: Seq<u8>) -> nat
    decreases b.len(),
{
    if b.len() == 0 {
        0
    } else {
        be_nat(b.drop_last()) * 256 + b.last() as nat
    }
}

/// The low 64 bits of `n`.
pub open spec fn low64(n: nat) -> u64 {
    (n % 0x1_0000_0000_0000_0000) as u64
}

/// The number whose two's complement form is `u`.
pub open spec fn signed(u: u64) -> i64 {
    if u < 0x8000_0000_0000_0000 {
        u as i64
    } else {
        (u - 0x1_0000_0000_0000_0000) as i64
    }
}

proof fn lemma_low64_step(n: nat, x: nat)
    requires
        x < 256,
    ensures
        low64(n * 256 + x) == (low64(n) as nat % 0x100_0000_0000_0000) * 256 + x,
{
    let m = n % 0x1_0000_0000_0000_0000;
    let s = m % 0x100_0000_0000_0000;
    let q = n / 0x1_0000_0000_0000_0000;
    let r = m / 0x100_0000_0000_0000;
    assert(n * 256 + x == 0x1_0000_0000_0000_0000 * (256 * q + r) + (s * 256 + x));
    vstd::arithmetic::div_mod::lemma_fundamental_div_mod_converse(
        (n * 256 + x) as int,
        0x1_0000_0000_0000_0000,
        (256 * q + r) as int,
        (s * 256 + x) as int,
    );
}

/// Eight bytes hold at most 64 bits.
proof fn lemma_be_nat_bound(b: Seq<u8>)
    requires
        b.len() <= 8,
    ensures
        be_nat(b) < 0x1_0000_0000_0000_0000,
        b.len() == 1 ==> be_nat(b) < 0x100,
        b.len() == 2 ==> be_nat(b) < 0x1_0000,
        b.len() == 3 ==> be_nat(b) < 0x100_0000,
        b.len() == 4 ==> be_nat(b) < 0x1_0000_0000,
        b.len() == 5 ==> be_nat(b) < 0x100_0000_0000,
        b.len() == 6 ==> be_nat(b) < 0x1_0000_0000_0000,
        b.len() == 7 ==> be_nat(b) < 0x100_0000_0000_0000,
    decreases b.len(),
{
    if b.len() > 0 {
        lemma_be_nat_bound(b.drop_last());
    }
}

/// Decode an unsigned number of any width, most significant byte first; of a
/// number wider than 64 bits the low 64 are kept.
pub fn be_uint(b: &[u8]) -> (r: u64)
    ensures
        r == low64(be_nat(b@)),
        b@.len() <= 8 ==> r == be_nat(b@),
{
    let mut r: u64 = 0;
    let mut i: usize = 0;
    assert(b@.take(0) =~= Seq::<u8>::empty());
    while i < b.len()
        invariant
            i <= b@.len(),
            r == low64(be_nat(b@.take(i as int))),
        decreases b@.len() - i,
    {
        proof {
            assert(b@.take(i + 1).drop_last() =~= b@.take(i as int));
            assert(b@.take(i + 1).last() == b@[i as int]);
            lemma_low64_step(be_nat(b@.take(i as int)), b@[i as int] as nat);
        }
        r = (r % 0x100_0000_0000_0000) * 0x100 + b[i] as u64;
        i += 1;
    }
    proof {
        assert(b@.take(i as int) =~= b@);
        if b@.len() <= 8 {
            lemma_be_nat_bound(b@);
        }
    }
    r
}

/// Decode a signed number: eight bytes are two's complement, fewer are not
/// negative, and of more the low eight count.
pub fn be_int(b: &[u8]) -> (r: i64)
    ensures
        r == signed(low64(be_nat(b@))),
{
    let u = be_uint(b);
    if u < 0x8000_0000_0000_0000 {
        u as i64
    } else {
        ((u as i128) - 0x1_0000_0000_0000_0000) as i64
    }
}

// ---- the trailer ------------------------------------------------------------

/// What the trailer and the offset table say.
#[verifier::ext_equal]
pub struct LayoutView {
    /// Bytes per object reference.
    pub ref_size: nat,
    /// Where each object starts.
    pub offsets: Seq<nat>,
    /// The number of the top object.
    pub top: nat,
}

/// The first `n` entries of an offset table at `table`, each of `size` bytes.
pub open spec fn offset_table(b: Seq<u8>, table: nat, size: nat, n: nat) -> Seq<nat> {
    Seq::new(
        n,
        |i: int| be_nat(b.subrange(table + i * size, table + i * size + size)),
    )
}

/// Read the trailer of `b`.
pub open spec fn layout(b: Seq<u8>) -> Result<LayoutView, PlistErrorView> {
    let n = b.len() as int;
    if n < 40 {
        Err(PlistErrorView::Truncated)
    } else {
        let size = b[n - 26] as nat;
        let ref_size = b[n - 25] as nat;
        let count = bytes::be64(b, n - 24) as nat;
        let top = bytes::be64(b, n - 16) as nat;
        let table = bytes::be64(b, n - 8) as nat;
        if !(1 <= size <= 8 && 1 <= ref_size <= 8) || table + count * size > n || top >= count {
            Err(PlistErrorView::BadTrailer)
        } else {
            Ok(LayoutView { ref_size, offsets: offset_table(b, table, size, count), top })
        }
    }
}

// ---- objects ----------------------------------------------------------------

/// Two to the `n`: the widths an integer or a real may have.
pub open spec fn width(n: nat) -> nat
    decreases n,
{
    if n == 0 {
        1
    } else {
        2 * width((n - 1) as nat)
    }
}

/// The `len` bytes at `at`.
pub open spec fn slice(b: Seq<u8>, at: nat, len: nat) -> Result<Seq<u8>, PlistErrorView> {
    if at + len > b.len() {
        Err(PlistErrorView::Truncated)
    } else {
        Ok(b.subrange(at as int, (at + len) as int))
    }
}

/// The object reference at `at`.
pub open spec fn reference(b: Seq<u8>, l: LayoutView, at: nat) -> Result<nat, PlistErrorView> {
    match slice(b, at, l.ref_size) {
        Ok(s) => Ok(be_nat(s)),
        Err(e) => Err(e),
    }
}

/// The element count of the object at `off` whose marker has the low nibble `n`,
/// and where its elements start. The nibble is the count, unless it is fifteen:
/// then the count follows as an integer object.
pub open spec fn count_and_start(b: Seq<u8>, off: nat, n: nat) -> Result<
    (nat, nat),
    PlistErrorView,
> {
    if n != 15 {
        Ok((n, off + 1))
    } else if off + 1 >= b.len() {
        Err(PlistErrorView::Truncated)
    } else if b[off as int + 1] / 16 != 1 {
        Err(PlistErrorView::BadTrailer)
    } else {
        let len = width((b[off as int + 1] % 16) as nat);
        match slice(b, off + 2, len) {
            Ok(s) => Ok((low64(be_nat(s)) as nat, off + 2 + len)),
            Err(e) => Err(e),
        }
    }
}

/// The character that the UTF-16 unit or surrogate pair at the start of `u`
/// stands for, and how many units it takes. A surrogate without its partner
/// stands for U+FFFD.
pub open spec fn utf16_char(u: Seq<u16>) -> (char, int) {
    if u[0] < 0xd800 || u[0] >= 0xe000 {
        (u[0] as char, 1)
    } else if u[0] < 0xdc00 && u.len() > 1 && 0xdc00 <= u[1] < 0xe000 {
        ((0x1_0000 + (u[0] - 0xd800) * 0x400 + (u[1] - 0xdc00)) as char, 2)
    } else {
        (0xfffd as char, 1)
    }
}

/// The text of the UTF-16 units `u`.
pub open spec fn utf16(u: Seq<u16>) -> Seq<char>
    decreases u.len(),
{
    if u.len() == 0 {
        seq![]
    } else {
        let (c, k) = utf16_char(u);
        seq![c] + utf16(u.skip(k))
    }
}

/// Bytes as 16-bit units, most significant byte first.
pub open spec fn units(b: Seq<u8>) -> Seq<u16> {
    Seq::new(b.len() / 2, |i: int| (b[2 * i] * 0x100 + b[2 * i + 1]) as u16)
}

/// The number of bytes, or why they cannot be read, as an integer node.
pub open spec fn integer(s: Result<Seq<u8>, PlistErrorView>) -> Result<PlistView, PlistErrorView> {
    match s {
        Ok(s) => Ok(PlistView::Integer(signed(low64(be_nat(s))))),
        Err(e) => Err(e),
    }
}

/// The real number of marker `marker` held by the bytes `s`.
pub open spec fn float(marker: u8, s: Seq<u8>) -> Result<PlistView, PlistErrorView> {
    if s.len() == 4 {
        Ok(PlistView::Real(RealView::Single(bytes::be32(s, 0))))
    } else if s.len() == 8 {
        Ok(PlistView::Real(RealView::Double(bytes::be64(s, 0))))
    } else {
        Err(PlistErrorView::UnsupportedType(marker))
    }
}

/// The object numbered `index`, met `depth` containers deep.
pub open spec fn object(b: Seq<u8>, l: LayoutView, index: nat, depth: nat) -> Result<
    PlistView,
    PlistErrorView,
>
    decreases MAX_DEPTH + 2 - depth, 0nat,
{
    if depth > MAX_DEPTH || index >= l.offsets.len() {
        Err(PlistErrorView::BadReference)
    } else if l.offsets[index as int] >= b.len() {
        Err(PlistErrorView::Truncated)
    } else {
        let off = l.offsets[index as int];
        let marker = b[off as int];
        let n = (marker % 16) as nat;
        match marker / 16 {
            0 => if n == 8 || n == 9 {
                Ok(PlistView::Bool(n == 9))
            } else {
                Err(PlistErrorView::UnsupportedType(marker))
            },
            1 => integer(slice(b, off + 1, width(n))),
            2 => match slice(b, off + 1, width(n)) {
                Ok(s) => float(marker, s),
                Err(e) => Err(e),
            },
            3 => match slice(b, off + 1, 8) {
                Ok(s) => Ok(PlistView::Real(RealView::Double(bytes::be64(s, 0)))),
                Err(e) => Err(e),
            },
            8 => integer(slice(b, off + 1, n + 1)),
            4 | 5 | 6 | 10 | 13 => match count_and_start(b, off, n) {
                Err(e) => Err(e),
                Ok((count, at)) => match marker / 16 {
                    4 => match slice(b, at, count) {
                        Ok(s) => Ok(PlistView::Data(s)),
                        Err(e) => Err(e),
                    },
                    5 => match slice(b, at, count) {
                        Ok(s) => Ok(PlistView::Text(text::utf8_lossy(s))),
                        Err(e) => Err(e),
                    },
                    6 => match slice(b, at, count * 2) {
                        Ok(s) => Ok(PlistView::Text(utf16(units(s)))),
                        Err(e) => Err(e),
                    },
                    10 => match items(b, l, at, count, depth + 1) {
                        Ok(v) => Ok(PlistView::Array(v)),
                        Err(e) => Err(e),
                    },
                    _ => match entries(b, l, at, at + count * l.ref_size, count, depth + 1) {
                        Ok(v) => Ok(PlistView::Dict(plist::map_of(v))),
                        Err(e) => Err(e),
                    },
                },
            },
            _ => Err(PlistErrorView::UnsupportedType(marker)),
        }
    }
}

/// The objects that the `n` references at `at` name.
pub open spec fn items(b: Seq<u8>, l: LayoutView, at: nat, n: nat, depth: nat) -> Result<
    Seq<PlistView>,
    PlistErrorView,
>
    decreases MAX_DEPTH + 2 - depth, n + 1,
{
    if n == 0 {
        Ok(seq![])
    } else {
        match reference(b, l, at) {
            Err(e) => Err(e),
            Ok(r) => match object(b, l, r, depth) {
                Err(e) => Err(e),
                Ok(v) => match items(b, l, at + l.ref_size, (n - 1) as nat, depth) {
                    Err(e) => Err(e),
                    Ok(rest) => Ok(seq![v] + rest),
                },
            },
        }
    }
}

/// The pairs of objects that the `n` references at `keys` and at `values` name.
/// A key is a string.
pub open spec fn entries(
    b: Seq<u8>,
    l: LayoutView,
    keys: nat,
    values: nat,
    n: nat,
    depth: nat,
) -> Result<Seq<(Seq<char>, PlistView)>, PlistErrorView>
    decreases MAX_DEPTH + 2 - depth, n + 1,
{
    if n == 0 {
        Ok(seq![])
    } else {
        match (reference(b, l, keys), reference(b, l, values)) {
            (Err(e), _) => Err(e),
            (_, Err(e)) => Err(e),
            (Ok(k), Ok(r)) => match object(b, l, k, depth) {
                Err(e) => Err(e),
                Ok(PlistView::Text(key)) => match object(b, l, r, depth) {
                    Err(e) => Err(e),
                    Ok(v) => match entries(
                        b,
                        l,
                        keys + l.ref_size,
                        values + l.ref_size,
                        (n - 1) as nat,
                        depth,
                    ) {
                        Err(e) => Err(e),
                        Ok(rest) => Ok(seq![(key, v)] + rest),
                    },
                },
                Ok(_) => Err(PlistErrorView::BadReference),
            },
        }
    }
}

/// The value a binary plist describes.
pub open spec fn document(b: Seq<u8>) -> Result<PlistView, PlistErrorView> {
    match layout(b) {
        Err(e) => Err(e),
        Ok(l) => object(b, l, l.top, 0),
    }
}

/// Whether containers nest at most `n` deep in `v`.
pub open spec fn nests_within(v: PlistView, n: int) -> bool
    decreases n,
{
    match v {
        PlistView::Array(a) => n > 0 && forall|i: int|
            0 <= i < a.len() ==> nests_within(#[trigger] a[i], n - 1),
        PlistView::Dict(m) => n > 0 && forall|k: Seq<char>| #[trigger]
            m.dom().contains(k) ==> nests_within(m[k], n - 1),
        _ => true,
    }
}

/// Every value of a map of pairs is the value of a pair.
proof fn lemma_map_values(pairs: Seq<(Seq<char>, PlistView)>, k: Seq<char>)
    requires
        plist::map_of(pairs).dom().contains(k),
    ensures
        exists|i: int| 0 <= i < pairs.len() && plist::map_of(pairs)[k] == (#[trigger] pairs[i]).1,
    decreases pairs.len(),
{
    let last = pairs.len() - 1;
    if pairs[last].0 == k {
        assert(plist::map_of(pairs)[k] == pairs[last].1);
    } else {
        let front = pairs.drop_last();
        lemma_map_values(front, k);
        let i = choose|i: int|
            0 <= i < front.len() && plist::map_of(front)[k] == (#[trigger] front[i]).1;
        assert(pairs[i] == front[i]);
    }
}

proof fn lemma_items_nest(b: Seq<u8>, l: LayoutView, at: nat, n: nat, depth: nat)
    ensures
        items(b, l, at, n, depth) matches Ok(v) ==> forall|i: int|
            0 <= i < v.len() ==> nests_within(#[trigger] v[i], MAX_DEPTH + 1 - depth),
    decreases MAX_DEPTH + 2 - depth, n + 1,
{
    if n > 0 {
        if let Ok(r) = reference(b, l, at) {
            decoded_nesting_is_bounded(b, l, r, depth);
            lemma_items_nest(b, l, at + l.ref_size, (n - 1) as nat, depth);
        }
    }
}

proof fn lemma_entries_nest(
    b: Seq<u8>,
    l: LayoutView,
    keys: nat,
    values: nat,
    n: nat,
    depth: nat,
)
    ensures
        entries(b, l, keys, values, n, depth) matches Ok(v) ==> forall|i: int|
            0 <= i < v.len() ==> nests_within((#[trigger] v[i]).1, MAX_DEPTH + 1 - depth),
    decreases MAX_DEPTH + 2 - depth, n + 1,
{
    if n > 0 {
        if let Ok(r) = reference(b, l, values) {
            decoded_nesting_is_bounded(b, l, r, depth);
            lemma_entries_nest(
                b,
                l,
                keys + l.ref_size,
                values + l.ref_size,
                (n - 1) as nat,
                depth,
            );
        }
    }
}

/// However the objects of a file refer to each other, what is decoded nests at
/// most so deep that the limit is kept; in particular no cycle is followed for
/// ever.
pub proof fn decoded_nesting_is_bounded(b: Seq<u8>, l: LayoutView, index: nat, depth: nat)
    ensures
        object(b, l, index, depth) matches Ok(v) ==> nests_within(v, MAX_DEPTH + 1 - depth),
    decreases MAX_DEPTH + 2 - depth, 0nat,
{
    if depth <= MAX_DEPTH && index < l.offsets.len() && l.offsets[index as int] < b.len() {
        let off = l.offsets[index as int];
        let marker = b[off as int];
        if let Ok((count, at)) = count_and_start(b, off, (marker % 16) as nat) {
            if marker / 16 == 10 {
                lemma_items_nest(b, l, at, count, depth + 1);
            } else if marker / 16 == 13 {
                lemma_entries_nest(b, l, at, at + count * l.ref_size, count, depth + 1);
                if let Ok(pairs) = entries(b, l, at, at + count * l.ref_size, count, depth + 1) {
                    assert forall|k: Seq<char>| #[trigger]
                        plist::map_of(pairs).dom().contains(k) implies nests_within(
                        plist::map_of(pairs)[k],
                        MAX_DEPTH - depth,
                    ) by {
                        lemma_map_values(pairs, k);
                    }
                }
            }
        }
    }
}

/// A container that holds itself is refused: an array whose first element is the
/// array, however deep it is met, is not decoded.
pub proof fn self_containing_arrays_are_refused(
    b: Seq<u8>,
    l: LayoutView,
    index: nat,
    count: nat,
    at: nat,
    depth: nat,
)
    requires
        index < l.offsets.len(),
        l.offsets[index as int] < b.len(),
        b[l.offsets[index as int] as int] / 16 == 10,
        count_and_start(
            b,
            l.offsets[index as int],
            (b[l.offsets[index as int] as int] % 16) as nat,
        ) == Ok::<_, PlistErrorView>((count, at)),
        count > 0,
        reference(b, l, at) == Ok::<_, PlistErrorView>(index),
    ensures
        object(b, l, index, depth) is Err,
    decreases MAX_DEPTH + 1 - depth,
{
    if depth <= MAX_DEPTH {
        self_containing_arrays_are_refused(b, l, index, count, at, depth + 1);
        assert(items(b, l, at, count, depth + 1) is Err);
    }
}

// ---- decoding ---------------------------------------------------------------

/// A binary plist whose trailer and offset table have been read.
pub struct BinaryPlist<'a> {
    pub buf: &'a [u8],
    /// Bytes per object reference.
    pub ref_size: usize,
    /// Where each object starts.
    pub offsets: Vec<u64>,
    /// The number of the top object.
    pub top: u64,
}

/// `1 << n`.
fn power(n: u8) -> (r: usize)
    requires
        n < 16,
    ensures
        r == width(n as nat),
        1 <= r <= 0x8000,
{
    let mut r: usize = 1;
    let mut i: u8 = 0;
    proof {
        assert(width(0) == 1);
        assert(width(15) == 0x8000) by {
            reveal_with_fuel(width, 16);
        }
    }
    while i < n
        invariant
            i <= n < 16,
            r == width(i as nat),
            1 <= r,
            i == 0 ==> r == 1,
            i == 1 ==> r == 2,
            i == 2 ==> r == 4,
            i == 3 ==> r == 8,
            i == 4 ==> r == 0x10,
            i == 5 ==> r == 0x20,
            i == 6 ==> r == 0x40,
            i == 7 ==> r == 0x80,
            i == 8 ==> r == 0x100,
            i == 9 ==> r == 0x200,
            i == 10 ==> r == 0x400,
            i == 11 ==> r == 0x800,
            i == 12 ==> r == 0x1000,
            i == 13 ==> r == 0x2000,
            i == 14 ==> r == 0x4000,
            i == 15 ==> r == 0x8000,
        decreases n - i,
    {
        r = r * 2;
        i += 1;
    }
    r
}

/// Decode big-endian 16-bit units.
fn decode_units(b: &[u8]) -> (r: Vec<u16>)
    ensures
        r@ == units(b@),
{
    let mut r: Vec<u16> = Vec::new();
    let n: usize = b.len() / 2;
    let mut i: usize = 0;
    while i < n
        invariant
            n == b@.len() / 2,
            2 * n <= b@.len() <= usize::MAX,
            i <= n,
            r@ == units(b@).take(i as int),
        decreases n - i,
    {
        let u: u16 = b[2 * i] as u16 * 0x100 + b[2 * i + 1] as u16;
        r.push(u);
        assert(units(b@).take(i + 1) =~= units(b@).take(i as int).push(u));
        i += 1;
    }
    assert(units(b@).take(n as int) =~= units(b@));
    r
}

/// The character with code `u`, or U+FFFD if there is none.
fn char_of(u: u32) -> (c: char)
    ensures
        u < 0xd800 || 0xe000 <= u <= 0x10ffff ==> c == u as char,
{
    match char::from_u32(u) {
        Some(c) => c,
        None => '\u{fffd}',
    }
}

/// Decode UTF-16, writing U+FFFD for a surrogate without its partner.
pub fn utf16_lossy(u: &[u16]) -> (r: String)
    ensures
        r@ == utf16(u@),
{
    let mut r = String::new();
    let mut i: usize = 0;
    assert(u@.skip(0) =~= u@);
    while i < u.len()
        invariant
            i <= u@.len(),
            utf16(u@) == r@ + utf16(u@.skip(i as int)),
        decreases u@.len() - i,
    {
        let ghost rest = u@.skip(i as int);
        let ghost done = r@;
        let a: u16 = u[i];
        let (c, k): (char, usize) = if a < 0xd800 || a >= 0xe000 {
            (char_of(a as u32), 1)
        } else if a < 0xdc00 && i + 1 < u.len() && 0xdc00 <= u[i + 1] && u[i + 1] < 0xe000 {
            let b: u16 = u[i + 1];
            (char_of(0x1_0000 + (a - 0xd800) as u32 * 0x400 + (b - 0xdc00) as u32), 2)
        } else {
            (char_of(0xfffd), 1)
        };
        r.push(c);
        proof {
            assert((c, k as int) == utf16_char(rest));
            assert(rest.skip(k as int) =~= u@.skip(i + k));
            assert(done + (seq![c] + utf16(rest.skip(k as int))) =~= r@ + utf16(u@.skip(i + k)));
        }
        i += k;
    }
    assert(u@.skip(i as int) =~= Seq::<u16>::empty());
    assert(r@ + Seq::<char>::empty() =~= r@);
    r
}

impl<'a> BinaryPlist<'a> {
    /// What the trailer and the offset table said.
    pub open spec fn layout(&self) -> LayoutView {
        LayoutView {
            ref_size: self.ref_size as nat,
            offsets: self.offsets@.map_values(|o: u64| o as nat),
            top: self.top as nat,
        }
    }

    /// References are one to eight bytes wide.
    pub open spec fn valid(&self) -> bool {
        1 <= self.ref_size <= 8
    }

    /// Decode the plist `buf`.
    pub fn parse(buf: &'a [u8]) -> (r: Result<PlistValue, PlistError>)
        ensures
            plist::parsed(r) == document(buf@),
            r matches Ok(v) ==> v.valid(),
    {
        let n: usize = buf.len();
        if n < 40 {
            return Err(PlistError::Truncated);
        }
        let offset_size: usize = buf[n - 26] as usize;
        let ref_size: usize = buf[n - 25] as usize;
        let num_objects: u64 = bytes::get_be64(buf, n - 24);
        let top: u64 = bytes::get_be64(buf, n - 16);
        let table: u64 = bytes::get_be64(buf, n - 8);
        if offset_size == 0 || offset_size > 8 || ref_size == 0 || ref_size > 8 {
            return Err(PlistError::BadTrailer);
        }
        assert(num_objects <= num_objects * offset_size <= num_objects * 8) by (nonlinear_arith)
            requires
                1 <= offset_size <= 8,
                0 <= num_objects,
        ;
        if table as u128 + num_objects as u128 * offset_size as u128 > n as u128 || top
            >= num_objects {
            return Err(PlistError::BadTrailer);
        }
        let offsets = read_table(buf, table as usize, offset_size, num_objects as usize);
        let this = BinaryPlist { buf, ref_size, offsets, top };
        assert(this.layout() =~= layout(buf@)->Ok_0);
        this.object_at(top, 0)
    }

    /// Decode object number `index`, met `depth` containers deep.
    fn object_at(&self, index: u64, depth: usize) -> (r: Result<PlistValue, PlistError>)
        requires
            self.valid(),
            depth <= MAX_DEPTH + 1,
        ensures
            plist::parsed(r) == object(self.buf@, self.layout(), index as nat, depth as nat),
            r matches Ok(v) ==> v.valid(),
        decreases MAX_DEPTH + 2 - depth, 0nat,
    {
        if depth > MAX_DEPTH || index >= self.offsets.len() as u64 {
            return Err(PlistError::BadReference);
        }
        let start: u64 = self.offsets[index as usize];
        if start >= self.buf.len() as u64 {
            return Err(PlistError::Truncated);
        }
        let off: usize = start as usize;
        let marker: u8 = self.buf[off];
        let n: u8 = marker % 16;
        match marker / 16 {
            0 => if n == 8 || n == 9 {
                Ok(PlistValue::Bool(n == 9))
            } else {
                Err(PlistError::UnsupportedType(marker))
            },
            1 => {
                let bytes = self.slice(off + 1, power(n) as u128)?;
                Ok(PlistValue::Integer(be_int(bytes)))
            },
            2 => {
                let len = power(n);
                let b = self.slice(off + 1, len as u128)?;
                if len == 4 {
                    Ok(PlistValue::Real(PlistReal::Single(bytes::get_be32(b, 0))))
                } else if len == 8 {
                    Ok(PlistValue::Real(PlistReal::Double(bytes::get_be64(b, 0))))
                } else {
                    Err(PlistError::UnsupportedType(marker))
                }
            },
            3 => {
                let b = self.slice(off + 1, 8)?;
                Ok(PlistValue::Real(PlistReal::Double(bytes::get_be64(b, 0))))
            },
            4 => {
                let (count, at) = self.count_and_offset(off, n)?;
                let b = self.slice(at, count as u128)?;
                Ok(PlistValue::Data(vstd::slice::slice_to_vec(b)))
            },
            5 => {
                let (count, at) = self.count_and_offset(off, n)?;
                let b = self.slice(at, count as u128)?;
                Ok(PlistValue::String(text::from_utf8_lossy(b)))
            },
            6 => {
                let (count, at) = self.count_and_offset(off, n)?;
                let b = self.slice(at, count as u128 * 2)?;
                let u = decode_units(b);
                Ok(PlistValue::String(utf16_lossy(&u)))
            },
            8 => {
                let b = self.slice(off + 1, n as u128 + 1)?;
                Ok(PlistValue::Integer(be_int(b)))
            },
            10 => {
                let (count, at) = self.count_and_offset(off, n)?;
                self.array_at(at, count, depth + 1)
            },
            13 => {
                let (count, at) = self.count_and_offset(off, n)?;
                self.dict_at(at, count, depth + 1)
            },
            _ => Err(PlistError::UnsupportedType(marker)),
        }
    }

    /// Decode the array of the `count` references at `at`.
    fn array_at(&self, at: usize, count: u64, depth: usize) -> (r: Result<PlistValue, PlistError>)
        requires
            self.valid(),
            at <= self.buf@.len(),
            depth <= MAX_DEPTH + 1,
        ensures
            plist::parsed(r) == (match items(
                self.buf@,
                self.layout(),
                at as nat,
                count as nat,
                depth as nat,
            ) {
                Ok(v) => Ok(PlistView::Array(v)),
                Err(e) => Err(e),
            }),
            r matches Ok(v) ==> v.valid(),
        decreases MAX_DEPTH + 2 - depth, 1nat,
    {
        assert(self.buf.len() == self.buf@.len());
        let ghost whole = items(self.buf@, self.layout(), at as nat, count as nat, depth as nat);
        let mut out: Vec<PlistValue> = Vec::new();
        let mut from: usize = at;
        let mut left: u64 = count;
        proof {
            if whole is Ok {
                assert(Seq::<PlistView>::empty() + whole->Ok_0 =~= whole->Ok_0);
            }
        }
        while left > 0
            invariant
                self.valid(),
                depth <= MAX_DEPTH + 1,
                from <= self.buf@.len() <= usize::MAX,
                whole == items(self.buf@, self.layout(), at as nat, count as nat, depth as nat),
                whole == (match items(
                    self.buf@,
                    self.layout(),
                    from as nat,
                    left as nat,
                    depth as nat,
                ) {
                    Ok(rest) => Ok(plist::item_views(out@) + rest),
                    Err(e) => Err(e),
                }),
                forall|i: int| 0 <= i < out@.len() ==> (#[trigger] out@[i]).valid(),
            decreases left,
        {
            let r = self.read_ref(from as u128)?;
            let v = self.object_at(r, depth)?;
            let ghost before = out@;
            out.push(v);
            proof {
                assert(out@.drop_last() =~= before);
                let rest = items(
                    self.buf@,
                    self.layout(),
                    (from + self.ref_size) as nat,
                    (left - 1) as nat,
                    depth as nat,
                );
                if rest is Ok {
                    assert(plist::item_views(before) + (seq![v@] + rest->Ok_0)
                        =~= plist::item_views(out@) + rest->Ok_0);
                }
            }
            from += self.ref_size;
            left -= 1;
        }
        assert(plist::item_views(out@) + Seq::<PlistView>::empty() =~= plist::item_views(out@));
        Ok(PlistValue::Array(out))
    }

    /// Decode the dictionary of the `count` key references at `at` and as many
    /// value references after them.
    fn dict_at(&self, at: usize, count: u64, depth: usize) -> (r: Result<PlistValue, PlistError>)
        requires
            self.valid(),
            at <= self.buf@.len(),
            depth <= MAX_DEPTH + 1,
        ensures
            plist::parsed(r) == (match entries(
                self.buf@,
                self.layout(),
                at as nat,
                (at + count * self.ref_size) as nat,
                count as nat,
                depth as nat,
            ) {
                Ok(v) => Ok(PlistView::Dict(plist::map_of(v))),
                Err(e) => Err(e),
            }),
            r matches Ok(v) ==> v.valid(),
        decreases MAX_DEPTH + 2 - depth, 1nat,
    {
        assert(self.buf.len() == self.buf@.len());
        let ghost base = (at + count * self.ref_size) as nat;
        let ghost whole = entries(
            self.buf@,
            self.layout(),
            at as nat,
            base,
            count as nat,
            depth as nat,
        );
        let ghost mut pairs: Seq<(Seq<char>, PlistView)> = seq![];
        let mut out: Vec<(String, PlistValue)> = Vec::new();
        let mut keys: usize = at;
        assert(0 <= count * self.ref_size <= count * 8) by (nonlinear_arith)
            requires
                1 <= self.ref_size <= 8,
                0 <= count,
        ;
        let mut values: u128 = at as u128 + count as u128 * self.ref_size as u128;
        let mut left: u64 = count;
        proof {
            if whole is Ok {
                assert(pairs + whole->Ok_0 =~= whole->Ok_0);
            }
        }
        while left > 0
            invariant
                self.valid(),
                depth <= MAX_DEPTH + 1,
                keys <= self.buf@.len() <= usize::MAX,
                values <= 0x100_0000_0000_0000_0000 - 8 * left,
                base == at + count * self.ref_size,
                whole == entries(
                    self.buf@,
                    self.layout(),
                    at as nat,
                    base,
                    count as nat,
                    depth as nat,
                ),
                whole == (match entries(
                    self.buf@,
                    self.layout(),
                    keys as nat,
                    values as nat,
                    left as nat,
                    depth as nat,
                ) {
                    Ok(rest) => Ok(pairs + rest),
                    Err(e) => Err(e),
                }),
                plist::map_of(plist::entry_views(out@)) == plist::map_of(pairs),
                plist::keys_increase(out@),
                forall|i: int| 0 <= i < out@.len() ==> (#[trigger] out@[i]).1.valid(),
            decreases left,
        {
            let k = self.read_ref(keys as u128)?;
            let r = self.read_ref(values)?;
            let key = match self.object_at(k, depth)? {
                PlistValue::String(s) => s,
                _ => {
                    return Err(PlistError::BadReference);
                },
            };
            let v = self.object_at(r, depth)?;
            proof {
                let rest = entries(
                    self.buf@,
                    self.layout(),
                    (keys + self.ref_size) as nat,
                    (values + self.ref_size) as nat,
                    (left - 1) as nat,
                    depth as nat,
                );
                if rest is Ok {
                    assert(pairs + (seq![(key@, v@)] + rest->Ok_0) =~= pairs.push((key@, v@))
                        + rest->Ok_0);
                }
                assert(pairs.push((key@, v@)).drop_last() =~= pairs);
                pairs = pairs.push((key@, v@));
            }
            plist::insert(&mut out, key, v);
            keys += self.ref_size;
            values += self.ref_size as u128;
            left -= 1;
        }
        assert(pairs + Seq::<(Seq<char>, PlistView)>::empty() =~= pairs);
        Ok(PlistValue::Dict(out))
    }

    /// The `len` bytes at `at`.
    fn slice(&self, at: usize, len: u128) -> (r: Result<&'a [u8], PlistError>)
        requires
            at <= self.buf@.len(),
        ensures
            match r {
                Ok(s) => slice(self.buf@, at as nat, len as nat) == Ok::<_, PlistErrorView>(s@),
                Err(e) => slice(self.buf@, at as nat, len as nat) == Err::<Seq<u8>, _>(e@),
            },
    {
        if len > (self.buf.len() - at) as u128 {
            return Err(PlistError::Truncated);
        }
        Ok(vstd::slice::slice_subrange(self.buf, at, at + len as usize))
    }

    /// The object reference at `at`.
    fn read_ref(&self, at: u128) -> (r: Result<u64, PlistError>)
        requires
            self.valid(),
            at <= 0x100_0000_0000_0000_0000,
        ensures
            match r {
                Ok(i) => reference(self.buf@, self.layout(), at as nat) == Ok::<_, PlistErrorView>(
                    i as nat,
                ),
                Err(e) => reference(self.buf@, self.layout(), at as nat) == Err::<nat, _>(e@),
            },
    {
        if at + self.ref_size as u128 > self.buf.len() as u128 {
            return Err(PlistError::Truncated);
        }
        let s = vstd::slice::slice_subrange(self.buf, at as usize, at as usize + self.ref_size);
        Ok(be_uint(s))
    }

    /// The element count of the object at `off`, and where its elements start.
    fn count_and_offset(&self, off: usize, n: u8) -> (r: Result<(u64, usize), PlistError>)
        requires
            off < usize::MAX,
            n < 16,
        ensures
            match r {
                Ok((count, at)) => {
                    &&& count_and_start(self.buf@, off as nat, n as nat) == Ok::<_, PlistErrorView>(
                        (count as nat, at as nat),
                    )
                    &&& off < self.buf@.len() ==> at <= self.buf@.len()
                },
                Err(e) => count_and_start(self.buf@, off as nat, n as nat) == Err::<(nat, nat), _>(e@),
            },
    {
        assert(self.buf.len() == self.buf@.len());
        if n != 15 {
            return Ok((n as u64, off + 1));
        }
        if off + 1 >= self.buf.len() {
            return Err(PlistError::Truncated);
        }
        let size_marker: u8 = self.buf[off + 1];
        if size_marker / 16 != 1 {
            return Err(PlistError::BadTrailer);
        }
        let len = power(size_marker % 16);
        match self.slice(off + 2, len as u128) {
            Ok(s) => Ok((be_uint(s), off + 2 + len)),
            Err(e) => Err(e),
        }
    }
}

/// Decode an offset table.
fn read_table(buf: &[u8], table: usize, size: usize, n: usize) -> (r: Vec<u64>)
    requires
        1 <= size <= 8,
        table + n * size <= buf@.len(),
    ensures
        r@.map_values(|o: u64| o as nat) == offset_table(buf@, table as nat, size as nat, n as nat),
{
    assert(buf.len() == buf@.len());
    let mut r: Vec<u64> = Vec::new();
    let mut i: usize = 0;
    let mut at: usize = table;
    let ghost whole = offset_table(buf@, table as nat, size as nat, n as nat);
    while i < n
        invariant
            i <= n,
            1 <= size <= 8,
            at == table + i * size,
            table + n * size <= buf@.len() <= usize::MAX,
            whole == offset_table(buf@, table as nat, size as nat, n as nat),
            r@.len() == i,
            forall|k: int| 0 <= k < i ==> #[trigger] r@[k] as nat == whole[k],
        decreases n - i,
    {
        proof {
            assert((i + 1) * size == i * size + size) by (nonlinear_arith);
            assert((i + 1) * size <= n * size) by (nonlinear_arith)
                requires
                    i + 1 <= n,
                    1 <= size,
            ;
        }
        let s = vstd::slice::slice_subrange(buf, at, at + size);
        r.push(be_uint(s));
        at += size;
        i += 1;
    }
    assert(r@.map_values(|o: u64| o as nat) =~= whole);
    r
}

} // verus!
