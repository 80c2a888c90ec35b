//! What the encodings of a binary property list stand for.

use vstd::prelude::*;

use crate::bytes;
use crate::digits;
use crate::ipa::bplist;
use crate::ipa::bplist::{LayoutView, MAX_DEPTH};
use crate::ipa::plist;
use crate::ipa::plist::{PlistErrorView, PlistView, RealView};
use crate::text;

verus! {

/// The number whose digits to the base 256 are `s`, the highest first.
pub open spec fn value(s: Seq<u8>) -> nat {
    digits::numeral(s.reverse())
}

/// Whether object number `i` is encoded as `code`.
pub open spec fn encodes(b: Seq<u8>, l: LayoutView, i: nat, code: Seq<u8>) -> bool {
    &&& i < l.offsets.len()
    &&& code.len() > 0
    &&& bytes::stands_at(b, l.offsets[i as int] as int, code)
}

/// Whether `head` announces `n` elements of the kind `kind`: with the number in
/// the low half of the marker if it is small, else with the number behind it, as
/// an integer.
pub open spec fn announces(head: Seq<u8>, kind: u8, n: nat) -> bool {
    ||| n < 15 && head == seq![(kind * 16 + n) as u8]
    ||| {
        &&& head.len() == 3 || head.len() == 4 || head.len() == 6 || head.len() == 10
        &&& head[0] == kind * 16 + 15
        &&& head[1] == 0x10 + (if head.len() == 3 {
            0int
        } else if head.len() == 4 {
            1
        } else if head.len() == 6 {
            2
        } else {
            3
        })
        &&& value(head.skip(2)) == n
    }
}

// ---- lemmas -----------------------------------------------------------------

proof fn lemma_value(s: Seq<u8>)
    ensures
        bplist::be_nat(s) == value(s),
    decreases s.len(),
{
    if s.len() > 0 {
        lemma_value(s.drop_last());
        assert(s.reverse().drop_first() =~= s.drop_last().reverse());
        assert(s.reverse()[0] == s.last());
    } else {
        assert(s.reverse() =~= Seq::<u8>::empty());
    }
}

proof fn lemma_bound(s: Seq<u8>)
    requires
        s.len() <= 8,
    ensures
        value(s) <= u64::MAX,
        s.len() <= 4 ==> value(s) <= u32::MAX,
{
    let r = s.reverse();
    lemma_digits(r);
}

proof fn lemma_digits(r: Seq<u8>)
    ensures
        r.len() == 0 ==> digits::numeral(r) == 0,
        r.len() == 1 ==> digits::numeral(r) < 0x100,
        r.len() == 2 ==> digits::numeral(r) < 0x1_0000,
        r.len() == 3 ==> digits::numeral(r) < 0x100_0000,
        r.len() == 4 ==> digits::numeral(r) < 0x1_0000_0000,
        r.len() == 5 ==> digits::numeral(r) < 0x100_0000_0000,
        r.len() == 6 ==> digits::numeral(r) < 0x1_0000_0000_0000,
        r.len() == 7 ==> digits::numeral(r) < 0x100_0000_0000_0000,
        r.len() == 8 ==> digits::numeral(r) < 0x1_0000_0000_0000_0000,
    decreases r.len(),
{
    if r.len() > 0 {
        lemma_digits(r.drop_first());
    }
}

/// Where the parts of a code stand.
proof fn lemma_parts(b: Seq<u8>, at: int, x: Seq<u8>, y: Seq<u8>)
    requires
        bytes::stands_at(b, at, x + y),
    ensures
        bytes::stands_at(b, at, x),
        bytes::stands_at(b, at + x.len(), y),
        bplist::slice(b, (at + x.len()) as nat, y.len()) == Ok::<Seq<u8>, PlistErrorView>(y),
        x.len() > 0 ==> b[at] == x[0],
        x.len() > 1 ==> b[at + 1] == x[1],
{
    let s = b.subrange(at, at + (x + y).len());
    assert(b.subrange(at, at + x.len()) =~= x) by {
        assert forall|k: int| 0 <= k < x.len() implies b[at + k] == x[k] by {
            assert(s[k] == (x + y)[k]);
        }
    }
    assert(b.subrange(at + x.len(), at + x.len() + y.len()) =~= y) by {
        assert forall|k: int| 0 <= k < y.len() implies b[at + x.len() + k] == y[k] by {
            assert(s[x.len() + k] == (x + y)[x.len() + k]);
        }
    }
    if x.len() > 0 {
        assert(s[0] == (x + y)[0]);
    }
    if x.len() > 1 {
        assert(s[1] == (x + y)[1]);
    }
}

proof fn lemma_width()
    ensures
        bplist::width(0) == 1,
        bplist::width(1) == 2,
        bplist::width(2) == 4,
        bplist::width(3) == 8,
{
    reveal_with_fuel(bplist::width, 4);
}

/// An announced number of elements is found, and where they start.
proof fn lemma_announced(b: Seq<u8>, off: int, head: Seq<u8>, kind: u8, n: nat)
    requires
        kind < 16,
        announces(head, kind, n),
        bytes::stands_at(b, off, head),
    ensures
        b[off] / 16 == kind,
        bplist::count_and_start(b, off as nat, (b[off] % 16) as nat) == Ok::<
            (nat, nat),
            PlistErrorView,
        >((n, (off + head.len()) as nat)),
{
    let m = head.take(2);
    if head.len() == 1 {
        assert(b.subrange(off, off + 1)[0] == head[0]);
    } else {
        lemma_width();
        let d = head.skip(2);
        assert(head =~= m + d);
        lemma_parts(b, off, m, d);
        lemma_value(d);
        lemma_bound(d);
        assert(d.len() == 1 || d.len() == 2 || d.len() == 4 || d.len() == 8);
    }
}

// ---- scalars ----------------------------------------------------------------

/// A marker of `0x10` to `0x13` and one, two, four or eight bytes are an integer,
/// which is signed if it takes eight bytes.
pub proof fn integers_are_read(b: Seq<u8>, l: LayoutView, i: nat, depth: nat, e: u8, s: Seq<u8>)
    requires
        depth <= MAX_DEPTH,
        e == 0 && s.len() == 1 || e == 1 && s.len() == 2 || e == 2 && s.len() == 4 || e == 3
            && s.len() == 8,
        encodes(b, l, i, seq![(0x10 + e) as u8] + s),
    ensures
        bplist::object(b, l, i, depth) matches Ok(PlistView::Integer(v)) && if s.len() == 8
            && value(s) >= 0x8000_0000_0000_0000 {
            v == value(s) - 0x1_0000_0000_0000_0000
        } else {
            v == value(s)
        },
{
    lemma_width();
    lemma_parts(b, l.offsets[i as int] as int, seq![(0x10 + e) as u8], s);
    lemma_value(s);
    lemma_bound(s);
}

/// The markers 8 and 9 are false and true.
pub proof fn booleans_are_read(b: Seq<u8>, l: LayoutView, i: nat, depth: nat)
    requires
        depth <= MAX_DEPTH,
    ensures
        encodes(b, l, i, seq![8]) ==> bplist::object(b, l, i, depth) == Ok::<
            PlistView,
            PlistErrorView,
        >(PlistView::Bool(false)),
        encodes(b, l, i, seq![9]) ==> bplist::object(b, l, i, depth) == Ok::<
            PlistView,
            PlistErrorView,
        >(PlistView::Bool(true)),
{
    let off = l.offsets[i as int] as int;
    if encodes(b, l, i, seq![8]) {
        assert(b.subrange(off, off + 1)[0] == 8);
    }
    if encodes(b, l, i, seq![9]) {
        assert(b.subrange(off, off + 1)[0] == 9);
    }
}

/// The markers `0x22` and `0x23` are real numbers of single and double precision,
/// `0x33` is a date, kept as a real number; the highest byte comes first.
pub proof fn reals_are_read(b: Seq<u8>, l: LayoutView, i: nat, depth: nat, s: Seq<u8>)
    requires
        depth <= MAX_DEPTH,
    ensures
        s.len() == 4 && encodes(b, l, i, seq![0x22] + s) ==> bplist::object(b, l, i, depth) == Ok::<
            PlistView,
            PlistErrorView,
        >(PlistView::Real(RealView::Single(value(s) as u32))),
        s.len() == 8 && (encodes(b, l, i, seq![0x23] + s) || encodes(b, l, i, seq![0x33] + s))
            ==> bplist::object(b, l, i, depth) == Ok::<PlistView, PlistErrorView>(
            PlistView::Real(RealView::Double(value(s) as u64)),
        ),
{
    lemma_width();
    let off = l.offsets[i as int] as int;
    digits::values_are_numerals(s, 0);
    if s.len() == 4 && encodes(b, l, i, seq![0x22] + s) {
        lemma_parts(b, off, seq![0x22], s);
        assert(s.subrange(0, 4) =~= s);
    }
    if s.len() == 8 && encodes(b, l, i, seq![0x23] + s) {
        lemma_parts(b, off, seq![0x23], s);
        assert(s.subrange(0, 8) =~= s);
    }
    if s.len() == 8 && encodes(b, l, i, seq![0x33] + s) {
        lemma_parts(b, off, seq![0x33], s);
        assert(s.subrange(0, 8) =~= s);
    }
}

/// A marker of `0x80` to `0x87` and as many bytes and one more are a unique
/// identifier, kept as an integer.
pub proof fn identifiers_are_read(b: Seq<u8>, l: LayoutView, i: nat, depth: nat, s: Seq<u8>)
    requires
        depth <= MAX_DEPTH,
        1 <= s.len() <= 7,
        encodes(b, l, i, seq![(0x7f + s.len()) as u8] + s),
    ensures
        bplist::object(b, l, i, depth) matches Ok(PlistView::Integer(v)) && v == value(s),
{
    lemma_parts(b, l.offsets[i as int] as int, seq![(0x7f + s.len()) as u8], s);
    lemma_value(s);
    lemma_digits(s.reverse());
}

/// Announced bytes are data, or a text, as the marker says.
pub proof fn strings_are_read(
    b: Seq<u8>,
    l: LayoutView,
    i: nat,
    depth: nat,
    head: Seq<u8>,
    s: Seq<u8>,
)
    requires
        depth <= MAX_DEPTH,
        encodes(b, l, i, head + s),
    ensures
        announces(head, 4, s.len()) ==> bplist::object(b, l, i, depth) == Ok::<
            PlistView,
            PlistErrorView,
        >(PlistView::Data(s)),
        announces(head, 5, s.len()) ==> bplist::object(b, l, i, depth) == Ok::<
            PlistView,
            PlistErrorView,
        >(PlistView::Text(text::utf8_lossy(s))),
{
    let off = l.offsets[i as int] as int;
    lemma_parts(b, off, head, s);
    if announces(head, 4, s.len()) {
        lemma_announced(b, off, head, 4, s.len());
    }
    if announces(head, 5, s.len()) {
        lemma_announced(b, off, head, 5, s.len());
    }
}

// ---- wide texts -------------------------------------------------------------

/// The UTF-16 units of a character.
pub open spec fn char_units(c: char) -> Seq<u16> {
    if c as u32 <= 0xffff {
        seq![c as u16]
    } else {
        seq![
            (0xd800 + (c as u32 - 0x1_0000) / 0x400) as u16,
            (0xdc00 + (c as u32 - 0x1_0000) % 0x400) as u16,
        ]
    }
}

/// The UTF-16 units of a text.
pub open spec fn text_units(t: Seq<char>) -> Seq<u16>
    decreases t.len(),
{
    if t.len() == 0 {
        seq![]
    } else {
        char_units(t[0]) + text_units(t.drop_first())
    }
}

/// Units as bytes, the high one first.
pub open spec fn unit_bytes(u: Seq<u16>) -> Seq<u8> {
    Seq::new(
        2 * u.len(),
        |k: int|
            if k % 2 == 0 {
                (u[k / 2] / 0x100) as u8
            } else {
                (u[k / 2] % 0x100) as u8
            },
    )
}

proof fn lemma_char(c: char, more: Seq<u16>)
    ensures
        bplist::utf16_char(char_units(c) + more) == (c, char_units(c).len() as int),
{
    let u = char_units(c) + more;
    assert(c as u32 <= 0x10ffff && !(0xd800 <= c as u32 <= 0xdfff));
    if c as u32 <= 0xffff {
        assert(u[0] == c as u16);
        assert(u[0] as char == c);
    } else {
        let v = (c as u32 - 0x1_0000) as int;
        assert(u[0] == 0xd800 + v / 0x400 && u[1] == 0xdc00 + v % 0x400);
        assert(0x1_0000 + (u[0] - 0xd800) * 0x400 + (u[1] - 0xdc00) == c as u32);
    }
}

proof fn lemma_utf16(t: Seq<char>)
    ensures
        bplist::utf16(text_units(t)) == t,
    decreases t.len(),
{
    if t.len() > 0 {
        let c = t[0];
        let rest = t.drop_first();
        lemma_utf16(rest);
        let u = text_units(t);
        let n = char_units(c).len() as int;
        assert(u.skip(n) =~= text_units(rest));
        lemma_char(c, text_units(rest));
        assert(seq![c] + rest =~= t);
    } else {
        assert(t =~= Seq::<char>::empty());
    }
}

proof fn lemma_units(u: Seq<u16>)
    ensures
        bplist::units(unit_bytes(u)) == u,
{
    let b = unit_bytes(u);
    assert(b.len() == 2 * u.len());
    assert forall|i: int| 0 <= i < u.len() implies bplist::units(b)[i] == u[i] by {
        assert(b[2 * i] == (u[i] / 0x100) as u8);
        assert(b[2 * i + 1] == (u[i] % 0x100) as u8);
    }
    assert(bplist::units(b) =~= u);
}

/// Announced UTF-16 units, the high byte of each first, are the text that they
/// encode.
pub proof fn wide_texts_are_read(
    b: Seq<u8>,
    l: LayoutView,
    i: nat,
    depth: nat,
    head: Seq<u8>,
    t: Seq<char>,
)
    requires
        depth <= MAX_DEPTH,
        announces(head, 6, text_units(t).len()),
        encodes(b, l, i, head + unit_bytes(text_units(t))),
    ensures
        bplist::object(b, l, i, depth) == Ok::<PlistView, PlistErrorView>(PlistView::Text(t)),
{
    let off = l.offsets[i as int] as int;
    let u = text_units(t);
    lemma_parts(b, off, head, unit_bytes(u));
    lemma_announced(b, off, head, 6, u.len());
    lemma_units(u);
    lemma_utf16(t);
    assert(unit_bytes(u).len() == u.len() * 2);
}

// ---- containers -------------------------------------------------------------

/// Whether the reference at `p` is `r`.
pub open spec fn refers_at(b: Seq<u8>, l: LayoutView, p: int, r: nat) -> bool {
    0 <= p && p + l.ref_size <= b.len() && value(b.subrange(p, p + l.ref_size)) == r
}

/// Whether the references from `at` on are `refs`.
pub open spec fn refers(b: Seq<u8>, l: LayoutView, at: int, refs: Seq<nat>) -> bool {
    forall|j: int| 0 <= j < refs.len() ==> refers_at(b, l, at + j * l.ref_size, #[trigger] refs[j])
}

proof fn lemma_refers(b: Seq<u8>, l: LayoutView, at: int, refs: Seq<nat>)
    requires
        refers(b, l, at, refs),
        refs.len() > 0,
    ensures
        0 <= at,
        bplist::reference(b, l, at as nat) == Ok::<nat, PlistErrorView>(refs[0]),
        refers(b, l, at + l.ref_size, refs.drop_first()),
{
    assert(refers_at(b, l, at + 0 * l.ref_size, refs[0]));
    lemma_value(b.subrange(at, at + l.ref_size));
    let rest = refs.drop_first();
    assert forall|j: int| 0 <= j < rest.len() implies refers_at(
        b,
        l,
        at + l.ref_size + j * l.ref_size,
        #[trigger] rest[j],
    ) by {
        let w = l.ref_size as int;
        assert((j + 1) * w == j * w + w) by (nonlinear_arith);
        assert(refers_at(b, l, at + (j + 1) * l.ref_size, refs[j + 1]));
    }
}

proof fn lemma_items(
    b: Seq<u8>,
    l: LayoutView,
    at: int,
    refs: Seq<nat>,
    vs: Seq<PlistView>,
    depth: nat,
)
    requires
        0 <= at,
        refers(b, l, at, refs),
        vs.len() == refs.len(),
        forall|j: int|
            0 <= j < refs.len() ==> bplist::object(b, l, #[trigger] refs[j], depth) == Ok::<
                PlistView,
                PlistErrorView,
            >(vs[j]),
    ensures
        bplist::items(b, l, at as nat, refs.len(), depth) == Ok::<Seq<PlistView>, PlistErrorView>(
            vs,
        ),
    decreases refs.len(),
{
    if refs.len() > 0 {
        lemma_refers(b, l, at, refs);
        let rest = refs.drop_first();
        assert forall|j: int| 0 <= j < rest.len() implies bplist::object(
            b,
            l,
            #[trigger] rest[j],
            depth,
        ) == Ok::<PlistView, PlistErrorView>(vs.drop_first()[j]) by {
            assert(rest[j] == refs[j + 1]);
        }
        lemma_items(b, l, at + l.ref_size, rest, vs.drop_first(), depth);
        assert(seq![vs[0]] + vs.drop_first() =~= vs);
    } else {
        assert(vs =~= Seq::empty());
    }
}

/// Announced references are the array of the objects that they name.
pub proof fn arrays_are_read(
    b: Seq<u8>,
    l: LayoutView,
    i: nat,
    depth: nat,
    head: Seq<u8>,
    refs: Seq<nat>,
    vs: Seq<PlistView>,
)
    requires
        depth < MAX_DEPTH,
        announces(head, 10, refs.len()),
        encodes(b, l, i, head),
        refers(b, l, l.offsets[i as int] as int + head.len(), refs),
        vs.len() == refs.len(),
        forall|j: int|
            0 <= j < refs.len() ==> bplist::object(b, l, #[trigger] refs[j], depth + 1) == Ok::<
                PlistView,
                PlistErrorView,
            >(vs[j]),
    ensures
        bplist::object(b, l, i, depth) == Ok::<PlistView, PlistErrorView>(PlistView::Array(vs)),
{
    let off = l.offsets[i as int] as int;
    lemma_announced(b, off, head, 10, refs.len());
    lemma_items(b, l, off + head.len(), refs, vs, depth + 1);
}

proof fn lemma_entries(
    b: Seq<u8>,
    l: LayoutView,
    at: int,
    other: int,
    keys: Seq<nat>,
    values: Seq<nat>,
    ks: Seq<Seq<char>>,
    vs: Seq<PlistView>,
    depth: nat,
)
    requires
        0 <= at,
        0 <= other,
        refers(b, l, at, keys),
        refers(b, l, other, values),
        keys.len() == values.len(),
        ks.len() == keys.len(),
        vs.len() == keys.len(),
        forall|j: int|
            0 <= j < keys.len() ==> bplist::object(b, l, #[trigger] keys[j], depth) == Ok::<
                PlistView,
                PlistErrorView,
            >(PlistView::Text(ks[j])),
        forall|j: int|
            0 <= j < keys.len() ==> bplist::object(b, l, #[trigger] values[j], depth) == Ok::<
                PlistView,
                PlistErrorView,
            >(vs[j]),
    ensures
        bplist::entries(b, l, at as nat, other as nat, keys.len(), depth) == Ok::<
            Seq<(Seq<char>, PlistView)>,
            PlistErrorView,
        >(Seq::new(keys.len(), |j: int| (ks[j], vs[j]))),
    decreases keys.len(),
{
    let all = Seq::new(keys.len(), |j: int| (ks[j], vs[j]));
    if keys.len() > 0 {
        lemma_refers(b, l, at, keys);
        lemma_refers(b, l, other, values);
        let k2 = keys.drop_first();
        let v2 = values.drop_first();
        let ks2 = ks.drop_first();
        let vs2 = vs.drop_first();
        assert forall|j: int| 0 <= j < k2.len() implies bplist::object(
            b,
            l,
            #[trigger] k2[j],
            depth,
        ) == Ok::<PlistView, PlistErrorView>(PlistView::Text(ks2[j])) by {
            assert(k2[j] == keys[j + 1]);
        }
        assert forall|j: int| 0 <= j < k2.len() implies bplist::object(
            b,
            l,
            #[trigger] v2[j],
            depth,
        ) == Ok::<PlistView, PlistErrorView>(vs2[j]) by {
            assert(v2[j] == values[j + 1]);
        }
        lemma_entries(b, l, at + l.ref_size, other + l.ref_size, k2, v2, ks2, vs2, depth);
        assert(bplist::object(b, l, keys[0], depth) == Ok::<PlistView, PlistErrorView>(
            PlistView::Text(ks[0]),
        ));
        assert(bplist::object(b, l, values[0], depth) == Ok::<PlistView, PlistErrorView>(vs[0]));
        let rest = Seq::new(k2.len(), |j: int| (ks2[j], vs2[j]));
        assert(seq![(ks[0], vs[0])] + rest =~= all);
    } else {
        assert(all =~= Seq::empty());
    }
}

proof fn lemma_map_of(pairs: Seq<(Seq<char>, PlistView)>, j: int)
    requires
        forall|x: int, y: int|
            0 <= x < y < pairs.len() ==> (#[trigger] pairs[x]).0 != (#[trigger] pairs[y]).0,
        0 <= j < pairs.len(),
    ensures
        plist::map_of(pairs).contains_key(pairs[j].0),
        plist::map_of(pairs)[pairs[j].0] == pairs[j].1,
    decreases pairs.len(),
{
    let head = pairs.drop_last();
    if j < head.len() {
        assert(head[j] == pairs[j]);
        assert(pairs[j].0 != pairs[pairs.len() - 1].0);
        lemma_map_of(head, j);
    }
}

/// A dictionary maps a key to the last value that is given with it.
pub proof fn later_pairs_win(
    before: Seq<(Seq<char>, PlistView)>,
    k: Seq<char>,
    v: PlistView,
    after: Seq<(Seq<char>, PlistView)>,
)
    requires
        forall|j: int| 0 <= j < after.len() ==> (#[trigger] after[j]).0 != k,
    ensures
        plist::map_of(before.push((k, v)) + after).contains_key(k),
        plist::map_of(before.push((k, v)) + after)[k] == v,
    decreases after.len(),
{
    let all = before.push((k, v)) + after;
    if after.len() > 0 {
        let head = after.drop_last();
        assert(after[after.len() - 1].0 != k);
        assert forall|j: int| 0 <= j < head.len() implies (#[trigger] head[j]).0 != k by {
            assert(head[j] == after[j]);
        }
        assert(all.drop_last() =~= before.push((k, v)) + head);
        later_pairs_win(before, k, v, head);
    } else {
        assert(all =~= before.push((k, v)));
        assert(all.drop_last() =~= before);
    }
}

/// Announced references, first those of the keys and then those of the values,
/// are the dictionary that maps each key to its value.
pub proof fn dictionaries_are_read(
    b: Seq<u8>,
    l: LayoutView,
    i: nat,
    depth: nat,
    head: Seq<u8>,
    keys: Seq<nat>,
    values: Seq<nat>,
    ks: Seq<Seq<char>>,
    vs: Seq<PlistView>,
    j: int,
)
    requires
        depth < MAX_DEPTH,
        announces(head, 13, keys.len()),
        encodes(b, l, i, head),
        refers(b, l, l.offsets[i as int] as int + head.len(), keys),
        refers(b, l, l.offsets[i as int] as int + head.len() + keys.len() * l.ref_size, values),
        keys.len() == values.len(),
        ks.len() == keys.len(),
        vs.len() == keys.len(),
        forall|j: int|
            0 <= j < keys.len() ==> bplist::object(b, l, #[trigger] keys[j], depth + 1) == Ok::<
                PlistView,
                PlistErrorView,
            >(PlistView::Text(ks[j])),
        forall|j: int|
            0 <= j < keys.len() ==> bplist::object(b, l, #[trigger] values[j], depth + 1) == Ok::<
                PlistView,
                PlistErrorView,
            >(vs[j]),
        forall|x: int, y: int|
            0 <= x < y < ks.len() ==> #[trigger] ks[x] != #[trigger] ks[y],
        0 <= j < keys.len(),
    ensures
        bplist::object(b, l, i, depth) matches Ok(PlistView::Dict(d)) && d.contains_key(ks[j])
            && d[ks[j]] == vs[j],
{
    let off = l.offsets[i as int] as int;
    let at = off + head.len();
    lemma_announced(b, off, head, 13, keys.len());
    assert(keys.len() * l.ref_size >= 0) by (nonlinear_arith);
    lemma_entries(b, l, at, at + keys.len() * l.ref_size, keys, values, ks, vs, depth + 1);
    let pairs = Seq::new(keys.len(), |j: int| (ks[j], vs[j]));
    assert forall|x: int, y: int| 0 <= x < y < pairs.len() implies (#[trigger] pairs[x]).0 != (
    #[trigger] pairs[y]).0 by {
        assert(ks[x] != ks[y]);
    }
    lemma_map_of(pairs, j);
    assert(pairs[j] == (ks[j], vs[j]));
}

// ---- the trailer ------------------------------------------------------------

/// The last 32 bytes say where the objects are: behind six others come the widths
/// of an offset and of a reference, then the number of objects, the number of
/// the outermost one and the place of the offset table, in eight bytes each. The
/// property list is the outermost object.
pub proof fn trailers_are_read(
    b: Seq<u8>,
    size: u8,
    ref_size: u8,
    count: Seq<u8>,
    top: Seq<u8>,
    table: Seq<u8>,
    i: int,
)
    requires
        b.len() >= 40,
        b.len() <= u64::MAX,
        count.len() == 8 && top.len() == 8 && table.len() == 8,
        bytes::stands_at(b, b.len() - 26, seq![size, ref_size] + count + top + table),
        1 <= size <= 8,
        1 <= ref_size <= 8,
        value(table) + value(count) * size <= b.len(),
        value(top) < value(count),
        0 <= i < value(count),
    ensures
        bplist::layout(b) matches Ok(l) && {
            &&& l.ref_size == ref_size
            &&& l.top == value(top)
            &&& l.offsets.len() == value(count)
            &&& l.offsets[i] == value(
                b.subrange(value(table) + i * size, value(table) + i * size + size),
            )
            &&& bplist::document(b) == bplist::object(b, l, value(top), 0)
        },
{
    let n = b.len() as int;
    let two = seq![size, ref_size];
    assert(two + count + top + table =~= two + (count + (top + table)));
    lemma_parts(b, n - 26, two, count + (top + table));
    lemma_parts(b, n - 24, count, top + table);
    lemma_parts(b, n - 16, top, table);
    digits::values_are_numerals(b, n - 24);
    digits::values_are_numerals(b, n - 16);
    digits::values_are_numerals(b, n - 8);
    let t = value(table);
    lemma_value(b.subrange(t + i * size, t + i * size + size));
}

} // verus!
