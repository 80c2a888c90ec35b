//! What the linker's opcode streams mean, opcode by opcode.

use vstd::prelude::*;

use crate::bytes;
use crate::common::error::ErrorView;
use crate::loader::dyld::bind;
use crate::loader::dyld::bind::{BindKind, BindView, LazyStep, LazyView, Step};
use crate::loader::dyld::leb;
use crate::loader::dyld::rebase;
use crate::loader::dyld::rebase::{RebaseLocation, RebaseStep};
use crate::text;

verus! {

// ---- integers ---------------------------------------------------------------

/// An unsigned number as LEB128.
pub open spec fn uleb_bytes(v: nat) -> Seq<u8>
    decreases v,
{
    if v < 128 {
        seq![v as u8]
    } else {
        seq![(v % 128 + 128) as u8] + uleb_bytes(v / 128)
    }
}

/// A signed number as LEB128.
pub open spec fn sleb_bytes(v: int) -> Seq<u8>
    decreases if v < 0 {
        -v
    } else {
        v
    },
{
    let low = v % 128;
    let high = v / 128;
    if (high == 0 && low < 64) || (high == -1 && low >= 64) {
        seq![low as u8]
    } else {
        seq![(low + 128) as u8] + sleb_bytes(high)
    }
}

/// What stands at `p` stands there piece by piece.
proof fn lemma_pieces(s: Seq<u8>, p: int, x: Seq<u8>, y: Seq<u8>)
    requires
        bytes::stands_at(s, p, x + y),
    ensures
        bytes::stands_at(s, p, x),
        bytes::stands_at(s, p + x.len(), y),
        x.len() > 0 ==> s[p] == x[0],
{
    let z = s.subrange(p, p + (x + y).len());
    assert(s.subrange(p, p + x.len()) =~= z.take(x.len() as int));
    assert(z.take(x.len() as int) =~= x);
    assert(s.subrange(p + x.len(), p + x.len() + y.len()) =~= z.skip(x.len() as int));
    assert(z.skip(x.len() as int) =~= y);
    if x.len() > 0 {
        assert(z[0] == x[0]);
    }
}

proof fn lemma_uleb_digits(s: Seq<u8>, p: int, v: nat)
    requires
        bytes::stands_at(s, p, uleb_bytes(v)),
    ensures
        uleb_bytes(v).len() > 0,
        leb::leb_end(s, p) == Some(p + uleb_bytes(v).len()),
        leb::digits(s, p, p + uleb_bytes(v).len(), 0) == v,
    decreases v,
{
    reveal_with_fuel(leb::digits, 2);
    if v < 128 {
        assert(s.subrange(p, p + 1)[0] == uleb_bytes(v)[0]);
        assert(s[p] == v as u8);
    } else {
        let head = seq![(v % 128 + 128) as u8];
        lemma_pieces(s, p, head, uleb_bytes(v / 128));
        lemma_uleb_digits(s, p + 1, v / 128);
        assert(s[p] == (v % 128 + 128) as u8);
        assert(s[p] % 128 == v % 128);
        assert(v == v % 128 + 128 * (v / 128));
    }
}

/// An unsigned number is read back from its encoding, wherever that stands.
pub proof fn uleb_roundtrip(s: Seq<u8>, p: int, v: u64)
    requires
        bytes::stands_at(s, p, uleb_bytes(v as nat)),
    ensures
        leb::uleb(s, p) == Some((v, p + uleb_bytes(v as nat).len())),
{
    lemma_uleb_digits(s, p, v as nat);
}

proof fn lemma_sleb_digits(s: Seq<u8>, p: int, v: int)
    requires
        bytes::stands_at(s, p, sleb_bytes(v)),
    ensures
        ({
            let e = p + sleb_bytes(v).len();
            let top: int = if s[e - 1] / 64 % 2 == 1 {
                -1
            } else {
                0
            };
            &&& sleb_bytes(v).len() > 0
            &&& leb::leb_end(s, p) == Some(e)
            &&& leb::digits(s, p, e, top) == v
        }),
    decreases if v < 0 {
        -v
    } else {
        v
    },
{
    reveal_with_fuel(leb::digits, 2);
    let low = v % 128;
    let high = v / 128;
    if (high == 0 && low < 64) || (high == -1 && low >= 64) {
        assert(s.subrange(p, p + 1)[0] == sleb_bytes(v)[0]);
        assert(s[p] == low as u8);
    } else {
        let head = seq![(low + 128) as u8];
        lemma_pieces(s, p, head, sleb_bytes(high));
        lemma_sleb_digits(s, p + 1, high);
        assert(s[p] == (low + 128) as u8);
        assert(s[p] % 128 == low);
        assert(v == low + 128 * high);
    }
}

/// A signed number is read back from its encoding, wherever that stands.
pub proof fn sleb_roundtrip(s: Seq<u8>, p: int, v: i64)
    requires
        bytes::stands_at(s, p, sleb_bytes(v as int)),
    ensures
        leb::sleb(s, p) == Some((v, p + sleb_bytes(v as int).len())),
{
    lemma_sleb_digits(s, p, v as int);
}

/// A text of bytes without NUL is read back from in front of its NUL.
proof fn lemma_terminated(s: Seq<u8>, p: int, name: Seq<u8>)
    requires
        bytes::stands_at(s, p, name.push(0)),
        !name.contains(0),
    ensures
        bind::terminated(s, p) == Some((text::utf8_lossy(name), p + name.len() + 1)),
{
    assert(name.push(0) =~= name + seq![0u8]);
    lemma_pieces(s, p, name, seq![0u8]);
    assert(s.subrange(p, p + name.len()) == name);
    assert(s[p + name.len()] == 0) by {
        assert(s.subrange(p + name.len(), p + name.len() + 1)[0] == 0);
    }
    lemma_next_at(s, p, p + name.len());
}

proof fn lemma_next_at(s: Seq<u8>, p: int, e: int)
    requires
        0 <= p <= e < s.len(),
        s[e] == 0,
        !s.subrange(p, e).contains(0),
    ensures
        bytes::next(s, p, 0) == e,
    decreases e - p,
{
    if p < e {
        assert(s.subrange(p, e)[0] == s[p]);
        assert(s[p] != 0);
        assert forall|k: int| 0 <= k < e - p - 1 implies #[trigger] s.subrange(p + 1, e)[k] != 0 by {
            assert(s.subrange(p, e)[k + 1] == s[p + 1 + k]);
        }
        lemma_next_at(s, p + 1, e);
    }
}

// ---- bind streams -----------------------------------------------------------

/// `out`, then what follows.
pub open spec fn followed<T>(out: Seq<T>, rest: Result<Seq<T>, ErrorView>) -> Result<
    Seq<T>,
    ErrorView,
> {
    match rest {
        Ok(r) => Ok(out + r),
        Err(e) => Err(e),
    }
}

/// Opcodes without an operand: `0x0_` does nothing, `0x1_` sets the library,
/// `0x3_` a special library (0, or -15 to -1), `0x5_` the kind of pointer (1 is
/// an ordinary one), and each leaves everything else as it is and binds
/// nothing.
pub proof fn immediates_set_one_thing(s: Seq<u8>, p: int, st: BindView)
    requires
        0 <= p < s.len(),
    ensures
        s[p] <= 0x0f ==> bind::bind_records(s, p, st) == bind::bind_records(s, p + 1, st),
        0x10 <= s[p] <= 0x1f ==> bind::bind_records(s, p, st) == bind::bind_records(
            s,
            p + 1,
            BindView { lib_ordinal: (s[p] - 0x10) as i64, ..st },
        ),
        s[p] == 0x30 ==> bind::bind_records(s, p, st) == bind::bind_records(
            s,
            p + 1,
            BindView { lib_ordinal: 0, ..st },
        ),
        0x31 <= s[p] <= 0x3f ==> bind::bind_records(s, p, st) == bind::bind_records(
            s,
            p + 1,
            BindView { lib_ordinal: (s[p] - 0x40) as i64, ..st },
        ),
        s[p] == 0x51 ==> bind::bind_records(s, p, st) == bind::bind_records(
            s,
            p + 1,
            BindView { kind: BindKind::Pointer, ..st },
        ),
        0x50 <= s[p] <= 0x5f && s[p] != 0x51 ==> bind::bind_records(s, p, st) == bind::bind_records(
            s,
            p + 1,
            BindView { kind: BindKind::Other((s[p] - 0x50) as u8), ..st },
        ),
{
    let state = if s[p] <= 0x0f {
        st
    } else if s[p] <= 0x1f {
        BindView { lib_ordinal: (s[p] - 0x10) as i64, ..st }
    } else if s[p] == 0x30 {
        BindView { lib_ordinal: 0, ..st }
    } else if s[p] <= 0x3f {
        BindView { lib_ordinal: (s[p] - 0x40) as i64, ..st }
    } else if s[p] == 0x51 {
        BindView { kind: BindKind::Pointer, ..st }
    } else {
        BindView { kind: BindKind::Other((s[p] - 0x50) as u8), ..st }
    };
    let out = Seq::<BindView>::empty();
    if s[p] <= 0x1f || 0x30 <= s[p] <= 0x3f || 0x50 <= s[p] <= 0x5f {
        assert(bind::step(s, p, st) == Ok::<Step, ErrorView>(Step { next: p + 1, state, out })) by {
            reveal(bind::step);
        }
        lemma_step(s, p, st, p + 1, state, out);
    }
}

/// The stream goes on from where a step leads.
proof fn lemma_step(
    s: Seq<u8>,
    p: int,
    st: BindView,
    next: int,
    state: BindView,
    out: Seq<BindView>,
)
    requires
        0 <= p < s.len(),
        bind::step(s, p, st) == Ok::<Step, ErrorView>(Step { next, state, out }),
    ensures
        bind::bind_records(s, p, st) == followed(out, bind::bind_records(s, next, state)),
        out.len() == 0 ==> bind::bind_records(s, p, st) == bind::bind_records(s, next, state),
{
    if out.len() == 0 {
        if let Ok(rest) = bind::bind_records(s, next, state) {
            assert(out + rest =~= rest);
        }
    }
}

/// `0x20` and a number set the library.
pub proof fn ordinals_set_the_library(s: Seq<u8>, p: int, st: BindView, v: u64)
    requires
        0 <= p < s.len(),
        0x20 <= s[p] <= 0x2f,
        v < 0x8000_0000_0000_0000,
        bytes::stands_at(s, p + 1, uleb_bytes(v as nat)),
    ensures
        bind::bind_records(s, p, st) == bind::bind_records(
            s,
            p + 1 + uleb_bytes(v as nat).len(),
            BindView { lib_ordinal: v as i64, ..st },
        ),
{
    let state = BindView { lib_ordinal: v as i64, ..st };
    let out: Seq<BindView> = seq![];
    assert(bind::step(s, p, st) == Ok::<Step, ErrorView>(Step { next: p + 1 + uleb_bytes(v as nat).len(), state, out })) by {
        reveal(bind::step);
        uleb_roundtrip(s, p + 1, v);
    }
    lemma_step(s, p, st, p + 1 + uleb_bytes(v as nat).len(), state, out);
}

/// `0x4_` and a text set the symbol; the lowest bit says whether it is weak.
pub proof fn symbols_are_named(s: Seq<u8>, p: int, st: BindView, name: Seq<u8>)
    requires
        0 <= p < s.len(),
        0x40 <= s[p] <= 0x4f,
        !name.contains(0),
        bytes::stands_at(s, p + 1, name.push(0)),
    ensures
        bind::bind_records(s, p, st) == bind::bind_records(
            s,
            p + 2 + name.len(),
            BindView { symbol: text::utf8_lossy(name), weak: s[p] % 2 == 1, ..st },
        ),
{
    let state = BindView { symbol: text::utf8_lossy(name), weak: s[p] % 2 == 1, ..st };
    let out: Seq<BindView> = seq![];
    assert(bind::step(s, p, st) == Ok::<Step, ErrorView>(Step { next: p + 2 + name.len(), state, out })) by {
        reveal(bind::step);
        lemma_terminated(s, p + 1, name);
    }
    lemma_step(s, p, st, p + 2 + name.len(), state, out);
}

/// `0x60` and a signed number set the addend.
pub proof fn addends_are_set(s: Seq<u8>, p: int, st: BindView, v: i64)
    requires
        0 <= p < s.len(),
        0x60 <= s[p] <= 0x6f,
        bytes::stands_at(s, p + 1, sleb_bytes(v as int)),
    ensures
        bind::bind_records(s, p, st) == bind::bind_records(
            s,
            p + 1 + sleb_bytes(v as int).len(),
            BindView { addend: v, ..st },
        ),
{
    let state = BindView { addend: v, ..st };
    let out: Seq<BindView> = seq![];
    assert(bind::step(s, p, st) == Ok::<Step, ErrorView>(Step { next: p + 1 + sleb_bytes(v as int).len(), state, out })) by {
        reveal(bind::step);
        sleb_roundtrip(s, p + 1, v);
    }
    lemma_step(s, p, st, p + 1 + sleb_bytes(v as int).len(), state, out);
}

/// `0x7_` and a number set the segment and the offset in it.
pub proof fn locations_are_set(s: Seq<u8>, p: int, st: BindView, v: u64)
    requires
        0 <= p < s.len(),
        0x70 <= s[p] <= 0x7f,
        bytes::stands_at(s, p + 1, uleb_bytes(v as nat)),
    ensures
        bind::bind_records(s, p, st) == bind::bind_records(
            s,
            p + 1 + uleb_bytes(v as nat).len(),
            BindView { seg_index: (s[p] - 0x70) as u8, seg_offset: v, ..st },
        ),
{
    let state = BindView { seg_index: (s[p] - 0x70) as u8, seg_offset: v, ..st };
    let out: Seq<BindView> = seq![];
    assert(bind::step(s, p, st) == Ok::<Step, ErrorView>(Step { next: p + 1 + uleb_bytes(v as nat).len(), state, out })) by {
        reveal(bind::step);
        uleb_roundtrip(s, p + 1, v);
    }
    lemma_step(s, p, st, p + 1 + uleb_bytes(v as nat).len(), state, out);
}

/// `0x80` and a number move the location on by that number, modulo 2^64, and
/// change nothing else.
pub proof fn advances_move_the_location(s: Seq<u8>, p: int, st: BindView, v: u64)
    requires
        0 <= p < s.len(),
        0x80 <= s[p] <= 0x8f,
        bytes::stands_at(s, p + 1, uleb_bytes(v as nat)),
    ensures
        bind::bind_records(s, p, st) == bind::bind_records(
            s,
            p + 1 + uleb_bytes(v as nat).len(),
            BindView { seg_offset: ((st.seg_offset + v) % 0x1_0000_0000_0000_0000) as u64, ..st },
        ),
{
    let state = BindView { seg_offset: ((st.seg_offset + v) % 0x1_0000_0000_0000_0000) as u64, ..st };
    let out: Seq<BindView> = seq![];
    assert(bind::step(s, p, st) == Ok::<Step, ErrorView>(Step { next: p + 1 + uleb_bytes(v as nat).len(), state, out })) by {
        reveal(bind::step);
        uleb_roundtrip(s, p + 1, v);
    }
    lemma_step(s, p, st, p + 1 + uleb_bytes(v as nat).len(), state, out);
}

/// `0x90` binds once and moves on by one pointer.
pub proof fn binds_move_on_by_a_pointer(s: Seq<u8>, p: int, st: BindView)
    requires
        0 <= p < s.len(),
        0x90 <= s[p] <= 0x9f,
    ensures
        bind::bind_records(s, p, st) == followed(
            seq![st],
            bind::bind_records(s, p + 1, BindView { seg_offset: ((st.seg_offset + 8) % 0x1_0000_0000_0000_0000) as u64, ..st }),
        ),
{
    let state = BindView { seg_offset: ((st.seg_offset + 8) % 0x1_0000_0000_0000_0000) as u64, ..st };
    let out: Seq<BindView> = seq![st];
    assert(bind::step(s, p, st) == Ok::<Step, ErrorView>(Step { next: p + 1, state, out })) by {
        reveal(bind::step);
    }
    lemma_step(s, p, st, p + 1, state, out);
}

/// `0xb_` binds once and moves on by one pointer and as many more as it says.
pub proof fn binds_can_skip_pointers(s: Seq<u8>, p: int, st: BindView)
    requires
        0 <= p < s.len(),
        0xb0 <= s[p] <= 0xbf,
    ensures
        bind::bind_records(s, p, st) == followed(
            seq![st],
            bind::bind_records(s, p + 1, BindView { seg_offset: ((st.seg_offset + 8 + 8 * (s[p] - 0xb0)) % 0x1_0000_0000_0000_0000) as u64, ..st }),
        ),
{
    let state = BindView { seg_offset: ((st.seg_offset + 8 + 8 * (s[p] - 0xb0)) % 0x1_0000_0000_0000_0000) as u64, ..st };
    let out: Seq<BindView> = seq![st];
    assert(bind::step(s, p, st) == Ok::<Step, ErrorView>(Step { next: p + 1, state, out })) by {
        reveal(bind::step);
    }
    lemma_step(s, p, st, p + 1, state, out);
}

/// `0xa0` and a number bind once and move on by a pointer and that number.
pub proof fn binds_can_advance(s: Seq<u8>, p: int, st: BindView, v: u64)
    requires
        0 <= p < s.len(),
        0xa0 <= s[p] <= 0xaf,
        bytes::stands_at(s, p + 1, uleb_bytes(v as nat)),
    ensures
        bind::bind_records(s, p, st) == followed(
            seq![st],
            bind::bind_records(
                s,
                p + 1 + uleb_bytes(v as nat).len(),
                BindView {
                    seg_offset: ((st.seg_offset + 8 + v) % 0x1_0000_0000_0000_0000) as u64,
                    ..st
                },
            ),
        ),
{
    let state = BindView { seg_offset: ((st.seg_offset + 8 + v) % 0x1_0000_0000_0000_0000) as u64, ..st };
    let out: Seq<BindView> = seq![st];
    assert(bind::step(s, p, st) == Ok::<Step, ErrorView>(Step { next: p + 1 + uleb_bytes(v as nat).len(), state, out })) by {
        reveal(bind::step);
        uleb_roundtrip(s, p + 1, v);
    }
    lemma_step(s, p, st, p + 1 + uleb_bytes(v as nat).len(), state, out);
}

/// `0xc0` and two numbers bind as often as the first says, and move on by a
/// pointer and the second each time.
pub proof fn binds_can_repeat(
    s: Seq<u8>,
    p: int,
    st: BindView,
    count: u64,
    skip: u64,
    out: Seq<BindView>,
)
    requires
        0 <= p < s.len(),
        0xc0 <= s[p] <= 0xcf,
        bytes::stands_at(s, p + 1, uleb_bytes(count as nat) + uleb_bytes(skip as nat)),
        out.len() == count,
        forall|k: int|
            0 <= k < count ==> #[trigger] out[k] == (BindView {
                seg_offset: ((st.seg_offset + k * (8 + skip)) % 0x1_0000_0000_0000_0000) as u64,
                ..st
            }),
    ensures
        bind::bind_records(s, p, st) == followed(
            out,
            bind::bind_records(
                s,
                p + 1 + uleb_bytes(count as nat).len() + uleb_bytes(skip as nat).len(),
                BindView {
                    seg_offset: ((st.seg_offset + count * (8 + skip))
                        % 0x1_0000_0000_0000_0000) as u64,
                    ..st
                },
            ),
        ),
{
    let next = p + 1 + uleb_bytes(count as nat).len() + uleb_bytes(skip as nat).len();
    let state = BindView {
        seg_offset: ((st.seg_offset + count * (8 + skip)) % 0x1_0000_0000_0000_0000) as u64,
        ..st
    };
    assert(bind::step(s, p, st) == Ok::<Step, ErrorView>(Step { next, state, out })) by {
        reveal(bind::step);
        lemma_pieces(s, p + 1, uleb_bytes(count as nat), uleb_bytes(skip as nat));
        uleb_roundtrip(s, p + 1, count);
        uleb_roundtrip(s, p + 1 + uleb_bytes(count as nat).len(), skip);
        assert(st.repeated(count as nat, 8 + skip) =~= out);
    }
    lemma_step(s, p, st, next, state, out);
}

/// A stream ends where its bytes do, and from `0xd0` on there is no opcode.
pub proof fn bind_streams_end(s: Seq<u8>, p: int, st: BindView)
    requires
        0 <= p <= s.len(),
    ensures
        p == s.len() ==> bind::bind_records(s, p, st) == Ok::<_, ErrorView>(
            Seq::<BindView>::empty(),
        ),
        p < s.len() && s[p] >= 0xd0 ==> bind::bind_records(s, p, st) is Err,
{
    if p < s.len() && s[p] >= 0xd0 {
        assert(bind::step(s, p, st) is Err) by {
            reveal(bind::step);
        }
    }
}

/// Two binds with an advance between them: the second location is the first,
/// one pointer and the advance further.
pub proof fn advances_add_up(s: Seq<u8>, p: int, st: BindView, o: u64, v: u64)
    requires
        0 <= p < s.len(),
        0x70 <= s[p] <= 0x7f,
        o + 8 + v < 0x1_0000_0000_0000_0000,
        bytes::stands_at(
            s,
            p + 1,
            uleb_bytes(o as nat) + (seq![0x90u8, 0x80] + (uleb_bytes(v as nat) + seq![0x90u8])),
        ),
    ensures
        ({
            let at = BindView { seg_index: (s[p] - 0x70) as u8, ..st };
            bind::bind_records(s, p, st) == followed(
                seq![
                    (BindView { seg_offset: o, ..at }),
                    (BindView { seg_offset: (o + 8 + v) as u64, ..at }),
                ],
                bind::bind_records(
                    s,
                    p + 4 + uleb_bytes(o as nat).len() + uleb_bytes(v as nat).len(),
                    BindView {
                        seg_offset: ((o + 16 + v) % 0x1_0000_0000_0000_0000) as u64,
                        ..at
                    },
                ),
            )
        }),
{
    let at = BindView { seg_index: (s[p] - 0x70) as u8, seg_offset: o, ..st };
    let ob = uleb_bytes(o as nat);
    let vb = uleb_bytes(v as nat);
    let q = p + 1 + ob.len();
    lemma_pieces(s, p + 1, ob, seq![0x90u8, 0x80] + (vb + seq![0x90u8]));
    lemma_pieces(s, q, seq![0x90u8, 0x80], vb + seq![0x90u8]);
    lemma_pieces(s, q + 2, vb, seq![0x90u8]);
    assert(seq![0x90u8, 0x80] =~= seq![0x90u8] + seq![0x80u8]);
    lemma_pieces(s, q, seq![0x90u8], seq![0x80u8]);
    assert(s.subrange(q + 1, q + 2)[0] == 0x80u8);
    assert(s.subrange(q + 2 + vb.len(), q + 2 + vb.len() + 1)[0] == 0x90u8);
    locations_are_set(s, p, st, o);
    binds_move_on_by_a_pointer(s, q, at);
    let at8 = BindView { seg_offset: (o + 8) as u64, ..at };
    advances_move_the_location(s, q + 1, at8, v);
    let at2 = BindView { seg_offset: (o + 8 + v) as u64, ..at };
    binds_move_on_by_a_pointer(s, q + 2 + vb.len(), at2);
    let end = BindView { seg_offset: ((o + 16 + v) % 0x1_0000_0000_0000_0000) as u64, ..at };
    if let Ok(rest) = bind::bind_records(s, q + 3 + vb.len(), end) {
        assert(seq![at] + (seq![at2] + rest) =~= seq![at, at2] + rest);
    }
}

// ---- lazy streams -----------------------------------------------------------

/// The stream goes on from where a step leads.
proof fn lemma_lazy_step(s: Seq<u8>, p: int, st: LazyView, next: int, state: LazyView, emit: bool)
    requires
        0 <= p < s.len(),
        bind::lazy_step(s, p, st) == Ok::<LazyStep, ErrorView>(LazyStep { next, state, emit }),
    ensures
        bind::lazy_entries(s, p, st) == if emit {
            followed(seq![st], bind::lazy_entries(s, next, state))
        } else {
            bind::lazy_entries(s, next, state)
        },
{
}

/// The end of a sequence (`0x0_`) starts the next one behind it; a bind
/// (`0x9_`) makes an entry of the current sequence; a lazy stream ends where
/// its bytes do. Opcodes that only an eager stream needs are passed over.
pub proof fn lazy_sequences_end_and_bind(s: Seq<u8>, p: int, st: LazyView)
    requires
        0 <= p <= s.len() <= u64::MAX,
    ensures
        p == s.len() ==> bind::lazy_entries(s, p, st) == Ok::<_, ErrorView>(
            Seq::<LazyView>::empty(),
        ),
        p < s.len() && s[p] <= 0x0f ==> bind::lazy_entries(s, p, st) == bind::lazy_entries(
            s,
            p + 1,
            LazyView { offset: (p + 1) as u64, ..st },
        ),
        p < s.len() && 0x90 <= s[p] <= 0x9f ==> bind::lazy_entries(s, p, st) == followed(
            seq![st],
            bind::lazy_entries(s, p + 1, st),
        ),
        p < s.len() && (0x10 <= s[p] <= 0x1f || 0x30 <= s[p] <= 0x3f || 0x50 <= s[p] <= 0x5f)
            ==> bind::lazy_entries(s, p, st) == bind::lazy_entries(s, p + 1, st),
{
    if p < s.len() && s[p] <= 0x0f {
        let state = LazyView { offset: (p + 1) as u64, ..st };
        assert(bind::lazy_step(s, p, st) == Ok::<LazyStep, ErrorView>(
            LazyStep { next: p + 1, state, emit: false },
        )) by {
            reveal(bind::lazy_step);
        }
        lemma_lazy_step(s, p, st, p + 1, state, false);
    }
    if p < s.len() && 0x90 <= s[p] <= 0x9f {
        let state = st;
        assert(bind::lazy_step(s, p, st) == Ok::<LazyStep, ErrorView>(
            LazyStep { next: p + 1, state, emit: true },
        )) by {
            reveal(bind::lazy_step);
        }
        lemma_lazy_step(s, p, st, p + 1, state, true);
    }
    if p < s.len() && (0x10 <= s[p] <= 0x1f || 0x30 <= s[p] <= 0x3f || 0x50 <= s[p] <= 0x5f) {
        let state = st;
        assert(bind::lazy_step(s, p, st) == Ok::<LazyStep, ErrorView>(
            LazyStep { next: p + 1, state, emit: false },
        )) by {
            reveal(bind::lazy_step);
        }
        lemma_lazy_step(s, p, st, p + 1, state, false);
    }
}

/// The symbol of a lazy sequence.
pub proof fn lazy_symbols_are_named(s: Seq<u8>, p: int, st: LazyView, name: Seq<u8>)
    requires
        0 <= p < s.len(),
        0x40 <= s[p] <= 0x4f,
        !name.contains(0),
        bytes::stands_at(s, p + 1, name.push(0)),
    ensures
        bind::lazy_entries(s, p, st) == bind::lazy_entries(
            s,
            p + 2 + name.len(),
            LazyView { symbol: text::utf8_lossy(name), ..st },
        ),
{
    let state = LazyView { symbol: text::utf8_lossy(name), ..st };
    assert(bind::lazy_step(s, p, st) == Ok::<LazyStep, ErrorView>(
        LazyStep { next: p + 2 + name.len(), state, emit: false },
    )) by {
        reveal(bind::lazy_step);
        lemma_terminated(s, p + 1, name);
    }
    lemma_lazy_step(s, p, st, p + 2 + name.len(), state, false);
}

/// The location of a lazy sequence: `0x7_` sets it, `0x80` moves it on, `0x20`
/// (a library) does not matter.
pub proof fn lazy_locations_are_set(s: Seq<u8>, p: int, st: LazyView, v: u64)
    requires
        0 <= p < s.len(),
        bytes::stands_at(s, p + 1, uleb_bytes(v as nat)),
    ensures
        0x70 <= s[p] <= 0x7f ==> bind::lazy_entries(s, p, st) == bind::lazy_entries(
            s,
            p + 1 + uleb_bytes(v as nat).len(),
            LazyView { seg_index: (s[p] - 0x70) as u8, seg_offset: v, ..st },
        ),
        0x80 <= s[p] <= 0x8f ==> bind::lazy_entries(s, p, st) == bind::lazy_entries(
            s,
            p + 1 + uleb_bytes(v as nat).len(),
            LazyView { seg_offset: ((st.seg_offset + v) % 0x1_0000_0000_0000_0000) as u64, ..st },
        ),
        0x20 <= s[p] <= 0x2f ==> bind::lazy_entries(s, p, st) == bind::lazy_entries(
            s,
            p + 1 + uleb_bytes(v as nat).len(),
            st,
        ),
{
    if 0x70 <= s[p] <= 0x7f {
        let state = LazyView { seg_index: (s[p] - 0x70) as u8, seg_offset: v, ..st };
        assert(bind::lazy_step(s, p, st) == Ok::<LazyStep, ErrorView>(
            LazyStep { next: p + 1 + uleb_bytes(v as nat).len(), state, emit: false },
        )) by {
            reveal(bind::lazy_step);
            uleb_roundtrip(s, p + 1, v);
        }
        lemma_lazy_step(s, p, st, p + 1 + uleb_bytes(v as nat).len(), state, false);
    }
    if 0x80 <= s[p] <= 0x8f {
        let state = LazyView { seg_offset: ((st.seg_offset + v) % 0x1_0000_0000_0000_0000) as u64, ..st };
        assert(bind::lazy_step(s, p, st) == Ok::<LazyStep, ErrorView>(
            LazyStep { next: p + 1 + uleb_bytes(v as nat).len(), state, emit: false },
        )) by {
            reveal(bind::lazy_step);
            uleb_roundtrip(s, p + 1, v);
        }
        lemma_lazy_step(s, p, st, p + 1 + uleb_bytes(v as nat).len(), state, false);
    }
    if 0x20 <= s[p] <= 0x2f {
        let state = st;
        assert(bind::lazy_step(s, p, st) == Ok::<LazyStep, ErrorView>(
            LazyStep { next: p + 1 + uleb_bytes(v as nat).len(), state, emit: false },
        )) by {
            reveal(bind::lazy_step);
            uleb_roundtrip(s, p + 1, v);
        }
        lemma_lazy_step(s, p, st, p + 1 + uleb_bytes(v as nat).len(), state, false);
    }
}

/// The addend of a lazy sequence does not matter.
pub proof fn lazy_addends_do_not_matter(s: Seq<u8>, p: int, st: LazyView, v: i64)
    requires
        0 <= p < s.len(),
        0x60 <= s[p] <= 0x6f,
        bytes::stands_at(s, p + 1, sleb_bytes(v as int)),
    ensures
        bind::lazy_entries(s, p, st) == bind::lazy_entries(
            s,
            p + 1 + sleb_bytes(v as int).len(),
            st,
        ),
{
    let state = st;
    assert(bind::lazy_step(s, p, st) == Ok::<LazyStep, ErrorView>(
        LazyStep { next: p + 1 + sleb_bytes(v as int).len(), state, emit: false },
    )) by {
        reveal(bind::lazy_step);
        sleb_roundtrip(s, p + 1, v);
    }
    lemma_lazy_step(s, p, st, p + 1 + sleb_bytes(v as int).len(), state, false);
}

// ---- rebase streams ---------------------------------------------------------

/// The stream goes on from where a step leads.
proof fn lemma_rebase_step(
    s: Seq<u8>,
    p: int,
    st: RebaseLocation,
    next: int,
    state: RebaseLocation,
    out: Seq<RebaseLocation>,
)
    requires
        0 <= p < s.len(),
        rebase::step(s, p, st) == Ok::<RebaseStep, ErrorView>(RebaseStep { next, state, out }),
    ensures
        rebase::rebase_slots(s, p, st) == followed(out, rebase::rebase_slots(s, next, state)),
        out.len() == 0 ==> rebase::rebase_slots(s, p, st) == rebase::rebase_slots(s, next, state),
{
    if out.len() == 0 {
        if let Ok(rest) = rebase::rebase_slots(s, next, state) {
            assert(out + rest =~= rest);
        }
    }
}

/// A rebase stream ends where its bytes do, and from `0x90` on there is no
/// opcode.
pub proof fn rebase_streams_end(s: Seq<u8>, p: int, st: RebaseLocation)
    requires
        0 <= p <= s.len(),
    ensures
        p == s.len() ==> rebase::rebase_slots(s, p, st) == Ok::<_, ErrorView>(
            Seq::<RebaseLocation>::empty(),
        ),
        p < s.len() && s[p] >= 0x90 ==> rebase::rebase_slots(s, p, st) is Err,
{
    if p < s.len() && s[p] >= 0x90 {
        assert(rebase::step(s, p, st) is Err) by {
            reveal(rebase::step);
        }
    }
}

/// `0x0_` does nothing.
pub proof fn rebase_ends_do_nothing(s: Seq<u8>, p: int, st: RebaseLocation)
    requires
        0 <= p < s.len(),
        s[p] <= 0x0f,
    ensures
        rebase::rebase_slots(s, p, st) == rebase::rebase_slots(s, p + 1, st),
{
    let state = st;
    let out: Seq<RebaseLocation> = seq![];
    assert(rebase::step(s, p, st) == Ok::<RebaseStep, ErrorView>(RebaseStep { next: p + 1, state, out })) by {
        reveal(rebase::step);
    }
    lemma_rebase_step(s, p, st, p + 1, state, out);
}

/// `0x1_` sets the type.
pub proof fn rebase_types_are_set(s: Seq<u8>, p: int, st: RebaseLocation)
    requires
        0 <= p < s.len(),
        0x10 <= s[p] <= 0x1f,
    ensures
        rebase::rebase_slots(s, p, st) == rebase::rebase_slots(s, p + 1, RebaseLocation { rtype: (s[p] - 0x10) as u8, ..st }),
{
    let state = RebaseLocation { rtype: (s[p] - 0x10) as u8, ..st };
    let out: Seq<RebaseLocation> = seq![];
    assert(rebase::step(s, p, st) == Ok::<RebaseStep, ErrorView>(RebaseStep { next: p + 1, state, out })) by {
        reveal(rebase::step);
    }
    lemma_rebase_step(s, p, st, p + 1, state, out);
}

/// `0x2_` and a number set the segment and the offset in it.
pub proof fn rebase_locations_are_set(s: Seq<u8>, p: int, st: RebaseLocation, v: u64)
    requires
        0 <= p < s.len(),
        0x20 <= s[p] <= 0x2f,
        bytes::stands_at(s, p + 1, uleb_bytes(v as nat)),
    ensures
        rebase::rebase_slots(s, p, st) == rebase::rebase_slots(s, p + 1 + uleb_bytes(v as nat).len(), RebaseLocation { seg_index: (s[p] - 0x20) as u8, seg_offset: v, ..st }),
{
    let state = RebaseLocation { seg_index: (s[p] - 0x20) as u8, seg_offset: v, ..st };
    let out: Seq<RebaseLocation> = seq![];
    assert(rebase::step(s, p, st) == Ok::<RebaseStep, ErrorView>(RebaseStep { next: p + 1 + uleb_bytes(v as nat).len(), state, out })) by {
        reveal(rebase::step);
        uleb_roundtrip(s, p + 1, v);
    }
    lemma_rebase_step(s, p, st, p + 1 + uleb_bytes(v as nat).len(), state, out);
}

/// `0x30` and a number move on by that number.
pub proof fn rebase_advances_move_on(s: Seq<u8>, p: int, st: RebaseLocation, v: u64)
    requires
        0 <= p < s.len(),
        0x30 <= s[p] <= 0x3f,
        bytes::stands_at(s, p + 1, uleb_bytes(v as nat)),
    ensures
        rebase::rebase_slots(s, p, st) == rebase::rebase_slots(s, p + 1 + uleb_bytes(v as nat).len(), RebaseLocation { seg_offset: ((st.seg_offset + v) % 0x1_0000_0000_0000_0000) as u64, ..st }),
{
    let state = RebaseLocation { seg_offset: ((st.seg_offset + v) % 0x1_0000_0000_0000_0000) as u64, ..st };
    let out: Seq<RebaseLocation> = seq![];
    assert(rebase::step(s, p, st) == Ok::<RebaseStep, ErrorView>(RebaseStep { next: p + 1 + uleb_bytes(v as nat).len(), state, out })) by {
        reveal(rebase::step);
        uleb_roundtrip(s, p + 1, v);
    }
    lemma_rebase_step(s, p, st, p + 1 + uleb_bytes(v as nat).len(), state, out);
}

/// `0x4_` moves on by so many pointers.
pub proof fn rebase_advances_can_count_pointers(s: Seq<u8>, p: int, st: RebaseLocation)
    requires
        0 <= p < s.len(),
        0x40 <= s[p] <= 0x4f,
    ensures
        rebase::rebase_slots(s, p, st) == rebase::rebase_slots(s, p + 1, RebaseLocation { seg_offset: ((st.seg_offset + 8 * (s[p] - 0x40)) % 0x1_0000_0000_0000_0000) as u64, ..st }),
{
    let state = RebaseLocation { seg_offset: ((st.seg_offset + 8 * (s[p] - 0x40)) % 0x1_0000_0000_0000_0000) as u64, ..st };
    let out: Seq<RebaseLocation> = seq![];
    assert(rebase::step(s, p, st) == Ok::<RebaseStep, ErrorView>(RebaseStep { next: p + 1, state, out })) by {
        reveal(rebase::step);
    }
    lemma_rebase_step(s, p, st, p + 1, state, out);
}

/// `0x70` and a number relocate once and move on by a pointer and the number.
pub proof fn rebases_can_advance(s: Seq<u8>, p: int, st: RebaseLocation, v: u64)
    requires
        0 <= p < s.len(),
        0x70 <= s[p] <= 0x7f,
        bytes::stands_at(s, p + 1, uleb_bytes(v as nat)),
    ensures
        rebase::rebase_slots(s, p, st) == followed(
            seq![st],
            rebase::rebase_slots(s, p + 1 + uleb_bytes(v as nat).len(), RebaseLocation { seg_offset: ((st.seg_offset + 8 + v) % 0x1_0000_0000_0000_0000) as u64, ..st }),
        ),
{
    let state = RebaseLocation { seg_offset: ((st.seg_offset + 8 + v) % 0x1_0000_0000_0000_0000) as u64, ..st };
    let out: Seq<RebaseLocation> = seq![st];
    assert(rebase::step(s, p, st) == Ok::<RebaseStep, ErrorView>(RebaseStep { next: p + 1 + uleb_bytes(v as nat).len(), state, out })) by {
        reveal(rebase::step);
        uleb_roundtrip(s, p + 1, v);
    }
    lemma_rebase_step(s, p, st, p + 1 + uleb_bytes(v as nat).len(), state, out);
}

/// Whether `out` are `n` slots, each `stride` bytes behind the one before and
/// the first of them `st`.
pub open spec fn evenly_spaced(
    out: Seq<RebaseLocation>,
    st: RebaseLocation,
    n: int,
    stride: int,
) -> bool {
    &&& out.len() == n
    &&& forall|k: int|
        0 <= k < n ==> #[trigger] out[k] == (RebaseLocation {
            seg_offset: ((st.seg_offset + k * stride) % 0x1_0000_0000_0000_0000) as u64,
            ..st
        })
}

/// `0x5_` relocates so many pointers, one after the other.
pub proof fn rebases_can_repeat(
    s: Seq<u8>,
    p: int,
    st: RebaseLocation,
    out: Seq<RebaseLocation>,
)
    requires
        0 <= p < s.len(),
        0x50 <= s[p] <= 0x5f,
        evenly_spaced(out, st, s[p] - 0x50, 8),
    ensures
        rebase::rebase_slots(s, p, st) == followed(
            out,
            rebase::rebase_slots(s, p + 1, RebaseLocation { seg_offset: ((st.seg_offset + (s[p] - 0x50) * 8) % 0x1_0000_0000_0000_0000) as u64, ..st }),
        ),
{
    let next = p + 1;
    let state = RebaseLocation { seg_offset: ((st.seg_offset + (s[p] - 0x50) * 8) % 0x1_0000_0000_0000_0000) as u64, ..st };
    assert(rebase::step(s, p, st) == Ok::<RebaseStep, ErrorView>(
        RebaseStep { next, state, out },
    )) by {
        reveal(rebase::step);
        assert(st.repeated((s[p] - 0x50) as nat, 8) =~= out);
    }
    lemma_rebase_step(s, p, st, next, state, out);
}

/// `0x60` and a number relocate so many pointers, one after the other.
pub proof fn rebases_can_repeat_often(
    s: Seq<u8>,
    p: int,
    st: RebaseLocation,
    count: u64,
    out: Seq<RebaseLocation>,
)
    requires
        0 <= p < s.len(),
        0x60 <= s[p] <= 0x6f,
        bytes::stands_at(s, p + 1, uleb_bytes(count as nat)),
        evenly_spaced(out, st, count as int, 8),
    ensures
        rebase::rebase_slots(s, p, st) == followed(
            out,
            rebase::rebase_slots(s, p + 1 + uleb_bytes(count as nat).len(), RebaseLocation { seg_offset: ((st.seg_offset + count * 8) % 0x1_0000_0000_0000_0000) as u64, ..st }),
        ),
{
    let next = p + 1 + uleb_bytes(count as nat).len();
    let state = RebaseLocation { seg_offset: ((st.seg_offset + count * 8) % 0x1_0000_0000_0000_0000) as u64, ..st };
    assert(rebase::step(s, p, st) == Ok::<RebaseStep, ErrorView>(
        RebaseStep { next, state, out },
    )) by {
        reveal(rebase::step);
        uleb_roundtrip(s, p + 1, count);
        assert(st.repeated(count as nat, 8) =~= out);
    }
    lemma_rebase_step(s, p, st, next, state, out);
}

/// `0x80` and two numbers relocate as many pointers as the first says, with as
/// many bytes between them as the second says.
pub proof fn rebases_can_skip(
    s: Seq<u8>,
    p: int,
    st: RebaseLocation,
    count: u64,
    skip: u64,
    out: Seq<RebaseLocation>,
)
    requires
        0 <= p < s.len(),
        0x80 <= s[p] <= 0x8f,
        bytes::stands_at(s, p + 1, uleb_bytes(count as nat) + uleb_bytes(skip as nat)),
        evenly_spaced(out, st, count as int, 8 + skip),
    ensures
        rebase::rebase_slots(s, p, st) == followed(
            out,
            rebase::rebase_slots(s, p + 1 + uleb_bytes(count as nat).len() + uleb_bytes(skip as nat).len(), RebaseLocation { seg_offset: ((st.seg_offset + count * (8 + skip)) % 0x1_0000_0000_0000_0000) as u64, ..st }),
        ),
{
    let next = p + 1 + uleb_bytes(count as nat).len() + uleb_bytes(skip as nat).len();
    let state = RebaseLocation { seg_offset: ((st.seg_offset + count * (8 + skip)) % 0x1_0000_0000_0000_0000) as u64, ..st };
    assert(rebase::step(s, p, st) == Ok::<RebaseStep, ErrorView>(
        RebaseStep { next, state, out },
    )) by {
        reveal(rebase::step);
        lemma_pieces(s, p + 1, uleb_bytes(count as nat), uleb_bytes(skip as nat));
        uleb_roundtrip(s, p + 1, count);
        uleb_roundtrip(s, p + 1 + uleb_bytes(count as nat).len(), skip);
        assert(st.repeated(count as nat, 8 + skip) =~= out);
    }
    lemma_rebase_step(s, p, st, next, state, out);
}

/// Streams start with nothing set: the location is the start of the first
/// segment, there is no symbol, no addend and no library, and pointers are
/// ordinary and not weak.
pub proof fn streams_start_blank()
    ensures
        bind::initial() == (BindView {
            seg_index: 0,
            seg_offset: 0,
            symbol: Seq::empty(),
            lib_ordinal: 0,
            addend: 0,
            kind: BindKind::Pointer,
            weak: false,
        }),
        bind::lazy_initial() == (LazyView {
            offset: 0,
            seg_index: 0,
            seg_offset: 0,
            symbol: Seq::empty(),
        }),
        rebase::initial() == (RebaseLocation { seg_index: 0, seg_offset: 0, rtype: 1 }),
{
}

// ---- integers ---------------------------------------------------------------

/// An integer goes on as long as the bytes have their highest bit set, each of
/// them with seven more bits, the lowest first; what does not fit into 64 bits is
/// dropped; and one that does not end is none.
pub proof fn integers_go_on_while_the_high_bit_is_set(s: Seq<u8>, p: int)
    requires
        0 <= p < s.len(),
    ensures
        s[p] < 0x80 ==> leb::uleb(s, p) == Some((s[p] as u64, p + 1)),
        s[p] >= 0x80 ==> match leb::uleb(s, p + 1) {
            Some((v, e)) => leb::uleb(s, p) matches Some((w, f)) && f == e && w == (s[p] - 0x80
                + 0x80 * v) % 0x1_0000_0000_0000_0000,
            None => leb::uleb(s, p) is None,
        },
        leb::uleb(s, s.len() as int) is None,
{
    reveal_with_fuel(leb::digits, 2);
    leb::lemma_leb_end(s, p + 1);
    if s[p] >= 0x80 {
        if let Some(e) = leb::leb_end(s, p + 1) {
            lemma_carry((s[p] - 0x80) as int, leb::digits(s, p + 1, e, 0));
        }
    }
}

/// Signed integers go on in the same way; the last byte is signed.
pub proof fn signed_integers_end_in_a_signed_byte(s: Seq<u8>, p: int)
    requires
        0 <= p < s.len(),
    ensures
        s[p] < 0x40 ==> leb::sleb(s, p) == Some((s[p] as i64, p + 1)),
        0x40 <= s[p] < 0x80 ==> leb::sleb(s, p) == Some(((s[p] - 0x80) as i64, p + 1)),
        s[p] >= 0x80 ==> match leb::sleb(s, p + 1) {
            Some((v, e)) => leb::sleb(s, p) matches Some((w, f)) && f == e && (w - (s[p] - 0x80
                + 0x80 * v)) % 0x1_0000_0000_0000_0000 == 0,
            None => leb::sleb(s, p) is None,
        },
        leb::sleb(s, s.len() as int) is None,
{
    reveal_with_fuel(leb::digits, 2);
    leb::lemma_leb_end(s, p + 1);
    if s[p] >= 0x80 {
        if let Some(e) = leb::leb_end(s, p + 1) {
            let top: int = if s[e - 1] / 64 % 2 == 1 {
                -1
            } else {
                0
            };
            lemma_carry((s[p] - 0x80) as int, leb::digits(s, p + 1, e, top));
        }
    }
}

proof fn lemma_carry(d: int, n: int)
    ensures
        (d + 0x80 * n) % 0x1_0000_0000_0000_0000 == (d + 0x80 * (n % 0x1_0000_0000_0000_0000))
            % 0x1_0000_0000_0000_0000,
{
}

} // verus!
