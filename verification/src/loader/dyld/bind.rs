//! Parser for the compressed bind opcode stream.
//!
//! The output is a flat list of records: at segment `seg_index` plus
//! `seg_offset`, store a pointer to `symbol` (from dylib `lib_ordinal`) plus
//! `addend`.

use vstd::prelude::*;

use crate::bytes;
use crate::common::error::ErrorView;
use crate::common::{EmuError, EmuResult};
use crate::loader::dyld::leb;
use crate::text;

verus! {

pub const BIND_OPCODE_DONE: u8 = 0x00;

pub const BIND_OPCODE_SET_DYLIB_ORDINAL_IMM: u8 = 0x10;

pub const BIND_OPCODE_SET_DYLIB_ORDINAL_ULEB: u8 = 0x20;

pub const BIND_OPCODE_SET_DYLIB_SPECIAL_IMM: u8 = 0x30;

pub const BIND_OPCODE_SET_SYMBOL_TRAILING_FLAGS_IMM: u8 = 0x40;

pub const BIND_OPCODE_SET_TYPE_IMM: u8 = 0x50;

pub const BIND_OPCODE_SET_ADDEND_SLEB: u8 = 0x60;

pub const BIND_OPCODE_SET_SEGMENT_AND_OFFSET_ULEB: u8 = 0x70;

pub const BIND_OPCODE_ADD_ADDR_ULEB: u8 = 0x80;

pub const BIND_OPCODE_DO_BIND: u8 = 0x90;

pub const BIND_OPCODE_DO_BIND_ADD_ADDR_ULEB: u8 = 0xA0;

pub const BIND_OPCODE_DO_BIND_ADD_ADDR_IMM_SCALED: u8 = 0xB0;

pub const BIND_OPCODE_DO_BIND_ULEB_TIMES_SKIPPING_ULEB: u8 = 0xC0;

/// The relocation type; only pointer binds are meaningful on arm64.
#[derive(Clone, Copy, Debug, PartialEq, Eq, Structural)]
pub enum BindKind {
    Pointer,
    Other(u8),
}

/// What a type immediate stands for.
pub open spec fn kind_of(v: u8) -> BindKind {
    if v == 1 {
        BindKind::Pointer
    } else {
        BindKind::Other(v)
    }
}

impl From<u8> for BindKind {
    fn from(v: u8) -> (r: BindKind) {
        if v == 1 {
            BindKind::Pointer
        } else {
            BindKind::Other(v)
        }
    }
}

impl vstd::std_specs::convert::FromSpecImpl<u8> for BindKind {
    open spec fn obeys_from_spec() -> bool {
        true
    }

    open spec fn from_spec(v: u8) -> BindKind {
        kind_of(v)
    }
}

/// One location awaiting a pointer.
#[derive(Clone, Debug)]
pub struct BindRecord {
    pub seg_index: u8,
    pub seg_offset: u64,
    pub symbol: String,
    pub lib_ordinal: i64,
    pub addend: i64,
    pub kind: BindKind,
    pub weak: bool,
}

/// View of a [`BindRecord`].
#[verifier::ext_equal]
pub struct BindView {
    pub seg_index: u8,
    pub seg_offset: u64,
    pub symbol: Seq<char>,
    pub lib_ordinal: i64,
    pub addend: i64,
    pub kind: BindKind,
    pub weak: bool,
}

impl View for BindRecord {
    type V = BindView;

    open spec fn view(&self) -> BindView {
        BindView {
            seg_index: self.seg_index,
            seg_offset: self.seg_offset,
            symbol: self.symbol@,
            lib_ordinal: self.lib_ordinal,
            addend: self.addend,
            kind: self.kind,
            weak: self.weak,
        }
    }
}

/// The views of a sequence of records.
pub open spec fn records(v: Seq<BindRecord>) -> Seq<BindView> {
    v.map_values(|r: BindRecord| r@)
}

/// The binding state at the start of a stream.
pub open spec fn initial() -> BindView {
    BindView {
        seg_index: 0,
        seg_offset: 0,
        symbol: Seq::empty(),
        lib_ordinal: 0,
        addend: 0,
        kind: BindKind::Pointer,
        weak: false,
    }
}

impl BindView {
    /// The state with the location moved by `by` (modulo 2^64).
    pub open spec fn moved(self, by: int) -> BindView {
        BindView { seg_offset: leb::wrapped(self.seg_offset + by), ..self }
    }

    /// `n` records, each `stride` behind the one before.
    pub open spec fn repeated(self, n: nat, stride: int) -> Seq<BindView> {
        Seq::new(n, |k: int| self.moved(k * stride))
    }
}

/// The text that ends before the first NUL at or after `p`, and the position
/// behind that NUL.
pub open spec fn terminated(s: Seq<u8>, p: int) -> Option<(Seq<char>, int)> {
    let end = bytes::next(s, p, 0);
    if end >= s.len() {
        None
    } else {
        Some((text::utf8_lossy(s.subrange(p, end)), end + 1))
    }
}

/// What one opcode does: where the next one is, the binding state after it,
/// and the records it emits.
pub struct Step {
    pub next: int,
    pub state: BindView,
    pub out: Seq<BindView>,
}

/// A step that emits nothing.
pub open spec fn quiet(next: int, state: BindView) -> Result<Step, ErrorView> {
    Ok(Step { next, state, out: Seq::empty() })
}

/// The error for an integer that is cut off.
pub open spec fn cut_off(what: Seq<char>) -> ErrorView {
    ErrorView::Dyld(what + " truncated"@)
}

/// The opcode at `p`, applied to the binding state `st`.
#[verifier::opaque]
pub open spec fn step(s: Seq<u8>, p: int, st: BindView) -> Result<Step, ErrorView> {
    let imm = s[p] % 16;
    let op = s[p] - imm;
    let q = p + 1;
    if op == BIND_OPCODE_DONE {
        quiet(q, st)
    } else if op == BIND_OPCODE_SET_DYLIB_ORDINAL_IMM {
        quiet(q, BindView { lib_ordinal: imm as i64, ..st })
    } else if op == BIND_OPCODE_SET_DYLIB_ORDINAL_ULEB {
        match leb::uleb(s, q) {
            None => Err(cut_off("uleb"@)),
            Some((v, e)) => quiet(e, BindView { lib_ordinal: leb::signed64(v as int), ..st }),
        }
    } else if op == BIND_OPCODE_SET_DYLIB_SPECIAL_IMM {
        // A four-bit two's-complement number, negative unless zero.
        let ordinal = if imm == 0 {
            0
        } else {
            imm - 16
        };
        quiet(q, BindView { lib_ordinal: ordinal as i64, ..st })
    } else if op == BIND_OPCODE_SET_SYMBOL_TRAILING_FLAGS_IMM {
        match terminated(s, q) {
            None => Err(ErrorView::Dyld("bind symbol string not terminated"@)),
            Some((symbol, e)) => quiet(e, BindView { symbol, weak: imm % 2 == 1, ..st }),
        }
    } else if op == BIND_OPCODE_SET_TYPE_IMM {
        quiet(q, BindView { kind: kind_of(imm), ..st })
    } else if op == BIND_OPCODE_SET_ADDEND_SLEB {
        match leb::sleb(s, q) {
            None => Err(cut_off("sleb"@)),
            Some((addend, e)) => quiet(e, BindView { addend, ..st }),
        }
    } else if op == BIND_OPCODE_SET_SEGMENT_AND_OFFSET_ULEB {
        match leb::uleb(s, q) {
            None => Err(cut_off("uleb"@)),
            Some((seg_offset, e)) => quiet(e, BindView { seg_index: imm, seg_offset, ..st }),
        }
    } else if op == BIND_OPCODE_ADD_ADDR_ULEB {
        match leb::uleb(s, q) {
            None => Err(cut_off("uleb"@)),
            Some((v, e)) => quiet(e, st.moved(v as int)),
        }
    } else if op == BIND_OPCODE_DO_BIND {
        Ok(Step { next: q, state: st.moved(8), out: seq![st] })
    } else if op == BIND_OPCODE_DO_BIND_ADD_ADDR_ULEB {
        match leb::uleb(s, q) {
            None => Err(cut_off("uleb"@)),
            Some((v, e)) => Ok(Step { next: e, state: st.moved(8 + v), out: seq![st] }),
        }
    } else if op == BIND_OPCODE_DO_BIND_ADD_ADDR_IMM_SCALED {
        Ok(Step { next: q, state: st.moved(8 + imm * 8), out: seq![st] })
    } else if op == BIND_OPCODE_DO_BIND_ULEB_TIMES_SKIPPING_ULEB {
        match leb::uleb(s, q) {
            None => Err(cut_off("uleb"@)),
            Some((count, e)) => match leb::uleb(s, e) {
                None => Err(cut_off("uleb"@)),
                Some((skip, e2)) => Ok(
                    Step {
                        next: e2,
                        state: st.moved(count * (8 + skip)),
                        out: st.repeated(count as nat, 8 + skip),
                    },
                ),
            },
        }
    } else {
        Err(ErrorView::Dyld("unknown bind opcode 0x"@ + text::hex(op as nat)))
    }
}

/// Every opcode moves forward.
pub proof fn lemma_step_advances(s: Seq<u8>, p: int, st: BindView)
    requires
        0 <= p < s.len(),
    ensures
        step(s, p, st) matches Ok(x) ==> p < x.next <= s.len(),
{
    reveal(step);
    leb::lemma_leb_end(s, p + 1);
    match leb::uleb(s, p + 1) {
        Some((_, e)) => leb::lemma_leb_end(s, e),
        None => {},
    }
    bytes::lemma_next(s, p + 1, 0);
}

/// The records of the stream from `p` on, starting in state `st`.
pub open spec fn bind_records(s: Seq<u8>, p: int, st: BindView) -> Result<Seq<BindView>, ErrorView>
    decreases s.len() - p,
{
    if p < 0 || p >= s.len() {
        Ok(Seq::empty())
    } else {
        proof {
            lemma_step_advances(s, p, st);
        }
        match step(s, p, st) {
            Err(e) => Err(e),
            Ok(x) => match bind_records(s, x.next, x.state) {
                Err(e) => Err(e),
                Ok(rest) => Ok(x.out + rest),
            },
        }
    }
}

fn copy_of(r: &BindRecord) -> (c: BindRecord)
    ensures
        c@ == r@,
{
    BindRecord {
        seg_index: r.seg_index,
        seg_offset: r.seg_offset,
        symbol: r.symbol.clone(),
        lib_ordinal: r.lib_ordinal,
        addend: r.addend,
        kind: r.kind,
        weak: r.weak,
    }
}

/// Where a cursor at `p` is left by an item that the buffer does not hold to its
/// end: at the end of the buffer, or where it was if that is further on.
pub open spec fn stuck(buf: Seq<u8>, p: usize) -> int {
    if p < buf.len() {
        buf.len() as int
    } else {
        p as int
    }
}

/// Decode an unsigned LEB128 integer at `*p` and move behind it.
pub fn read_uleb(buf: &[u8], p: &mut usize) -> (r: EmuResult<u64>)
    ensures
        match leb::uleb(buf@, *old(p) as int) {
            Some((v, e)) => r == Ok::<u64, EmuError>(v) && *final(p) == e && *old(p) < e
                <= buf@.len(),
            None => r matches Err(x) && x@ == cut_off("uleb"@) && *final(p) == stuck(buf@, *old(p)),
        },
{
    match leb::uleb_at(buf, *p) {
        Some((v, e)) => {
            *p = e;
            Ok(v)
        },
        None => {
            if *p < buf.len() {
                *p = buf.len();
            }
            Err(EmuError::Dyld(text::cat("uleb", " truncated")))
        },
    }
}

/// Decode a signed LEB128 integer at `*p` and move behind it.
pub fn read_sleb(buf: &[u8], p: &mut usize) -> (r: EmuResult<i64>)
    ensures
        match leb::sleb(buf@, *old(p) as int) {
            Some((v, e)) => r == Ok::<i64, EmuError>(v) && *final(p) == e && *old(p) < e
                <= buf@.len(),
            None => r matches Err(x) && x@ == cut_off("sleb"@) && *final(p) == stuck(buf@, *old(p)),
        },
{
    match leb::sleb_at(buf, *p) {
        Some((v, e)) => {
            *p = e;
            Ok(v)
        },
        None => {
            if *p < buf.len() {
                *p = buf.len();
            }
            Err(EmuError::Dyld(text::cat("sleb", " truncated")))
        },
    }
}

/// Decode the NUL-terminated text at `*p` and move behind it.
pub fn read_cstr(buf: &[u8], p: &mut usize) -> (r: EmuResult<String>)
    ensures
        match terminated(buf@, *old(p) as int) {
            Some((t, e)) => r matches Ok(v) && v@ == t && *final(p) == e && *old(p) < e
                <= buf@.len(),
            None => r matches Err(x) && x@ == ErrorView::Dyld(
                "bind symbol string not terminated"@,
            ) && *final(p) == stuck(buf@, *old(p)),
        },
{
    if *p >= buf.len() {
        return Err(EmuError::Dyld("bind symbol string not terminated".to_owned()));
    }
    let end = bytes::find(buf, *p, 0);
    if end >= buf.len() {
        *p = end;
        return Err(EmuError::Dyld("bind symbol string not terminated".to_owned()));
    }
    let s = text::from_utf8_lossy(vstd::slice::slice_subrange(buf, *p, end));
    *p = end + 1;
    Ok(s)
}

/// Two moves are one.
pub proof fn lemma_moves_add(off: u64, a: int, b: int)
    ensures
        leb::wrapped(leb::wrapped(off + a) + b) == leb::wrapped(off + a + b),
{
    vstd::arithmetic::div_mod::lemma_add_mod_noop(off + a, b, leb::two64());
    vstd::arithmetic::div_mod::lemma_mod_twice(off + a, leb::two64());
    vstd::arithmetic::div_mod::lemma_add_mod_noop((off + a) % leb::two64(), b, leb::two64());
}

/// Emit `count` records, `skip` bytes between them.
fn emit_times(out: &mut Vec<BindRecord>, st: &mut BindRecord, count: u64, skip: u64)
    ensures
        records(final(out)@) == records(old(out)@) + old(st)@.repeated(count as nat, 8 + skip),
        final(st)@ == old(st)@.moved(count * (8 + skip)),
{
    let ghost start = st@;
    let ghost first = records(out@);
    let ghost stride: int = 8 + skip;
    let mut k: u64 = 0;
    proof {
        assert(start.moved(0 * stride) =~= start);
        assert(first + start.repeated(0, stride) =~= first);
    }
    while k < count
        invariant
            k <= count,
            stride == 8 + skip,
            records(out@) == first + start.repeated(k as nat, stride),
            st@ == start.moved(k * stride),
        decreases count - k,
    {
        let c = copy_of(st);
        let ghost before = records(out@);
        out.push(c);
        proof {
            assert(records(out@) =~= before.push(c@));
            assert(first + start.repeated((k + 1) as nat, stride) =~= (first + start.repeated(
                k as nat,
                stride,
            )).push(start.moved(k * stride)));
            let at = k * stride;
            lemma_moves_add(start.seg_offset, at, 8);
            lemma_moves_add(start.seg_offset, at + 8, skip as int);
            assert((k + 1) * stride == k * stride + stride) by (nonlinear_arith);
        }
        st.seg_offset = st.seg_offset.wrapping_add(8).wrapping_add(skip);
        k += 1;
    }
}

/// Apply the opcode at `p`, one that changes the binding state and emits
/// nothing.
fn apply_set(s: &[u8], p: usize, st: &mut BindRecord) -> (r: EmuResult<usize>)
    requires
        p < s@.len(),
        s@[p as int] < BIND_OPCODE_DO_BIND,
    ensures
        match step(s@, p as int, old(st)@) {
            Ok(x) => r matches Ok(next) && next == x.next && p < next <= s@.len() && final(st)@
                == x.state && x.out == Seq::<BindView>::empty(),
            Err(e) => r matches Err(x) && x@ == e,
        },
{
    proof {
        reveal(step);
    }
    let imm = s[p] % 16;
    let op = s[p] - imm;
    let mut q: usize = p + 1;
    if op == BIND_OPCODE_DONE {
        // End of one symbol's sequence; the stream goes on.
    } else if op == BIND_OPCODE_SET_DYLIB_ORDINAL_IMM {
        st.lib_ordinal = imm as i64;
    } else if op == BIND_OPCODE_SET_DYLIB_ORDINAL_ULEB {
        let v = read_uleb(s, &mut q)?;
        st.lib_ordinal = leb::to_signed(v);
    } else if op == BIND_OPCODE_SET_DYLIB_SPECIAL_IMM {
        st.lib_ordinal = if imm == 0 {
            0
        } else {
            imm as i64 - 16
        };
    } else if op == BIND_OPCODE_SET_SYMBOL_TRAILING_FLAGS_IMM {
        st.symbol = read_cstr(s, &mut q)?;
        st.weak = imm % 2 == 1;
    } else if op == BIND_OPCODE_SET_TYPE_IMM {
        st.kind = BindKind::from(imm);
    } else if op == BIND_OPCODE_SET_ADDEND_SLEB {
        st.addend = read_sleb(s, &mut q)?;
    } else if op == BIND_OPCODE_SET_SEGMENT_AND_OFFSET_ULEB {
        st.seg_offset = read_uleb(s, &mut q)?;
        st.seg_index = imm;
    } else {
        let v = read_uleb(s, &mut q)?;
        st.seg_offset = st.seg_offset.wrapping_add(v);
    }
    Ok(q)
}

/// Apply the opcode at `p`, one that binds.
#[verifier::rlimit(60)]
#[verifier::spinoff_prover]
fn apply_bind(s: &[u8], p: usize, st: &mut BindRecord, out: &mut Vec<BindRecord>) -> (r: EmuResult<
    usize,
>)
    requires
        p < s@.len(),
        s@[p as int] >= BIND_OPCODE_DO_BIND,
        s@[p as int] / 16 != BIND_OPCODE_DO_BIND_ULEB_TIMES_SKIPPING_ULEB / 16,
    ensures
        match step(s@, p as int, old(st)@) {
            Ok(x) => r matches Ok(next) && next == x.next && p < next <= s@.len() && final(st)@
                == x.state && records(final(out)@) == records(old(out)@) + x.out,
            Err(e) => r matches Err(x) && x@ == e,
        },
{
    proof {
        reveal(step);
    }
    let ghost before = records(out@);
    let ghost was = st@;
    let imm = s[p] % 16;
    let op = s[p] - imm;
    let mut q: usize = p + 1;
    if op > BIND_OPCODE_DO_BIND_ULEB_TIMES_SKIPPING_ULEB {
        let h = text::hex_string(op as u64);
        return Err(EmuError::Dyld(text::cat("unknown bind opcode 0x", h.as_str())));
    }
    let c = copy_of(st);
    out.push(c);
    assert(records(out@) =~= before + seq![was]);
    let extra: u64 = if op == BIND_OPCODE_DO_BIND {
        0
    } else if op == BIND_OPCODE_DO_BIND_ADD_ADDR_ULEB {
        read_uleb(s, &mut q)?
    } else {
        imm as u64 * 8
    };
    proof {
        lemma_moves_add(was.seg_offset, 8, extra as int);
    }
    st.seg_offset = st.seg_offset.wrapping_add(8).wrapping_add(extra);
    Ok(q)
}

/// Apply the opcode at `p`, one that binds several times.
fn apply_times(s: &[u8], p: usize, st: &mut BindRecord, out: &mut Vec<BindRecord>) -> (r: EmuResult<
    usize,
>)
    requires
        p < s@.len(),
        s@[p as int] / 16 == BIND_OPCODE_DO_BIND_ULEB_TIMES_SKIPPING_ULEB / 16,
    ensures
        match step(s@, p as int, old(st)@) {
            Ok(x) => r matches Ok(next) && next == x.next && p < next <= s@.len() && final(st)@
                == x.state && records(final(out)@) == records(old(out)@) + x.out,
            Err(e) => r matches Err(x) && x@ == e,
        },
{
    proof {
        reveal(step);
    }
    assert(s.len() == s@.len());
    let mut q: usize = p + 1;
    let count = read_uleb(s, &mut q)?;
    let skip = read_uleb(s, &mut q)?;
    emit_times(out, st, count, skip);
    Ok(q)
}

/// Apply the opcode at `p`.
fn apply(s: &[u8], p: usize, st: &mut BindRecord, out: &mut Vec<BindRecord>) -> (r: EmuResult<
    usize,
>)
    requires
        p < s@.len(),
    ensures
        match step(s@, p as int, old(st)@) {
            Ok(x) => r matches Ok(next) && next == x.next && p < next <= s@.len() && final(st)@
                == x.state && records(final(out)@) == records(old(out)@) + x.out,
            Err(e) => r matches Err(x) && x@ == e,
        },
{
    if s[p] < BIND_OPCODE_DO_BIND {
        assert(records(out@) + Seq::empty() =~= records(out@));
        apply_set(s, p, st)
    } else if s[p] / 16 == BIND_OPCODE_DO_BIND_ULEB_TIMES_SKIPPING_ULEB / 16 {
        apply_times(s, p, st, out)
    } else {
        apply_bind(s, p, st, out)
    }
}

/// Decode the whole bind stream into records.
pub fn parse_bind_info(stream: &[u8]) -> (r: EmuResult<Vec<BindRecord>>)
    ensures
        match bind_records(stream@, 0, initial()) {
            Ok(v) => r matches Ok(x) && records(x@) == v,
            Err(e) => r matches Err(x) && x@ == e,
        },
{
    let mut out: Vec<BindRecord> = Vec::new();
    let mut st = BindRecord {
        seg_index: 0,
        seg_offset: 0,
        symbol: String::new(),
        lib_ordinal: 0,
        addend: 0,
        kind: BindKind::Pointer,
        weak: false,
    };
    let mut p: usize = 0;
    let ghost whole = bind_records(stream@, 0, initial());
    proof {
        assert(st@ =~= initial());
        match whole {
            Ok(v) => {
                assert(records(out@) + v =~= v);
            },
            Err(_) => {},
        }
    }
    while p < stream.len()
        invariant
            p <= stream@.len(),
            whole == bind_records(stream@, 0, initial()),
            whole == (match bind_records(stream@, p as int, st@) {
                Ok(rest) => Ok(records(out@) + rest),
                Err(e) => Err(e),
            }),
        decreases stream@.len() - p,
    {
        let ghost before = records(out@);
        let ghost was = st@;
        let ghost at = p as int;
        p = apply(stream, p, &mut st, &mut out)?;
        proof {
            let x = step(stream@, at, was)->Ok_0;
            match bind_records(stream@, x.next, x.state) {
                Ok(rest) => {
                    assert(before + (x.out + rest) =~= records(out@) + rest);
                },
                Err(_) => {},
            }
        }
    }
    assert(records(out@) + Seq::empty() =~= records(out@));
    Ok(out)
}

// ---- lazy binding -----------------------------------------------------------

/// One entry of the lazy binding information, keyed by the byte `offset` at
/// which its opcode sequence begins.
#[derive(Clone, Debug)]
pub struct LazyBind {
    pub offset: u64,
    pub seg_index: u8,
    pub seg_offset: u64,
    pub symbol: String,
}

/// View of a [`LazyBind`].
#[verifier::ext_equal]
pub struct LazyView {
    pub offset: u64,
    pub seg_index: u8,
    pub seg_offset: u64,
    pub symbol: Seq<char>,
}

impl View for LazyBind {
    type V = LazyView;

    open spec fn view(&self) -> LazyView {
        LazyView {
            offset: self.offset,
            seg_index: self.seg_index,
            seg_offset: self.seg_offset,
            symbol: self.symbol@,
        }
    }
}

/// The views of a sequence of entries.
pub open spec fn lazy_views(v: Seq<LazyBind>) -> Seq<LazyView> {
    v.map_values(|r: LazyBind| r@)
}

/// What one opcode of a lazy stream does.
pub struct LazyStep {
    pub next: int,
    pub state: LazyView,
    pub emit: bool,
}

/// The opcode at `p` of a lazy stream, applied to the state `st`. A lazy
/// sequence sets segment, ordinal and symbol, binds, and ends with `DONE`;
/// opcodes that have no place in it are passed over.
#[verifier::opaque]
pub open spec fn lazy_step(s: Seq<u8>, p: int, st: LazyView) -> Result<LazyStep, ErrorView> {
    let imm = s[p] % 16;
    let op = s[p] - imm;
    let q = p + 1;
    if op == BIND_OPCODE_DONE {
        Ok(LazyStep { next: q, state: LazyView { offset: q as u64, ..st }, emit: false })
    } else if op == BIND_OPCODE_SET_DYLIB_ORDINAL_ULEB {
        match leb::uleb(s, q) {
            None => Err(cut_off("uleb"@)),
            Some((_, e)) => Ok(LazyStep { next: e, state: st, emit: false }),
        }
    } else if op == BIND_OPCODE_SET_SYMBOL_TRAILING_FLAGS_IMM {
        match terminated(s, q) {
            None => Err(ErrorView::Dyld("bind symbol string not terminated"@)),
            Some((symbol, e)) => Ok(
                LazyStep { next: e, state: LazyView { symbol, ..st }, emit: false },
            ),
        }
    } else if op == BIND_OPCODE_SET_ADDEND_SLEB {
        match leb::sleb(s, q) {
            None => Err(cut_off("sleb"@)),
            Some((_, e)) => Ok(LazyStep { next: e, state: st, emit: false }),
        }
    } else if op == BIND_OPCODE_SET_SEGMENT_AND_OFFSET_ULEB {
        match leb::uleb(s, q) {
            None => Err(cut_off("uleb"@)),
            Some((seg_offset, e)) => Ok(
                LazyStep {
                    next: e,
                    state: LazyView { seg_index: imm, seg_offset, ..st },
                    emit: false,
                },
            ),
        }
    } else if op == BIND_OPCODE_ADD_ADDR_ULEB {
        match leb::uleb(s, q) {
            None => Err(cut_off("uleb"@)),
            Some((v, e)) => Ok(
                LazyStep {
                    next: e,
                    state: LazyView { seg_offset: leb::wrapped(st.seg_offset + v), ..st },
                    emit: false,
                },
            ),
        }
    } else {
        Ok(LazyStep { next: q, state: st, emit: op == BIND_OPCODE_DO_BIND })
    }
}

/// Every opcode moves forward.
pub proof fn lemma_lazy_step_advances(s: Seq<u8>, p: int, st: LazyView)
    requires
        0 <= p < s.len(),
    ensures
        lazy_step(s, p, st) matches Ok(x) ==> p < x.next <= s.len(),
{
    reveal(lazy_step);
    leb::lemma_leb_end(s, p + 1);
    bytes::lemma_next(s, p + 1, 0);
}

/// The entries of a lazy stream from `p` on, starting in state `st`.
pub open spec fn lazy_entries(s: Seq<u8>, p: int, st: LazyView) -> Result<Seq<LazyView>, ErrorView>
    decreases s.len() - p,
{
    if p < 0 || p >= s.len() {
        Ok(Seq::empty())
    } else {
        proof {
            lemma_lazy_step_advances(s, p, st);
        }
        match lazy_step(s, p, st) {
            Err(e) => Err(e),
            Ok(x) => match lazy_entries(s, x.next, x.state) {
                Err(e) => Err(e),
                Ok(rest) => if x.emit {
                    Ok(seq![st] + rest)
                } else {
                    Ok(rest)
                },
            },
        }
    }
}

/// The state at the start of a lazy stream.
pub open spec fn lazy_initial() -> LazyView {
    LazyView { offset: 0, seg_index: 0, seg_offset: 0, symbol: Seq::empty() }
}

/// Apply the opcode at `p` of a lazy stream; whether it binds, and where the
/// next one is.
fn lazy_apply(s: &[u8], p: usize, st: &mut LazyBind) -> (r: EmuResult<(bool, usize)>)
    requires
        p < s@.len(),
    ensures
        match lazy_step(s@, p as int, old(st)@) {
            Ok(x) => r matches Ok(v) && v.0 == x.emit && v.1 == x.next && p < v.1 <= s@.len()
                && final(st)@ == x.state && (x.emit ==> final(st)@ == old(st)@),
            Err(e) => r matches Err(x) && x@ == e,
        },
{
    proof {
        reveal(lazy_step);
    }
    let imm = s[p] % 16;
    let op = s[p] - imm;
    let mut q: usize = p + 1;
    if op == BIND_OPCODE_DONE {
        st.offset = q as u64;
    } else if op == BIND_OPCODE_SET_DYLIB_ORDINAL_ULEB {
        read_uleb(s, &mut q)?;
    } else if op == BIND_OPCODE_SET_SYMBOL_TRAILING_FLAGS_IMM {
        st.symbol = read_cstr(s, &mut q)?;
    } else if op == BIND_OPCODE_SET_ADDEND_SLEB {
        read_sleb(s, &mut q)?;
    } else if op == BIND_OPCODE_SET_SEGMENT_AND_OFFSET_ULEB {
        st.seg_offset = read_uleb(s, &mut q)?;
        st.seg_index = imm;
    } else if op == BIND_OPCODE_ADD_ADDR_ULEB {
        let v = read_uleb(s, &mut q)?;
        st.seg_offset = st.seg_offset.wrapping_add(v);
    } else if op == BIND_OPCODE_DO_BIND {
        return Ok((true, q));
    }
    Ok((false, q))
}

/// Parse the lazy bind stream, recording the start offset of every symbol's
/// sequence: the value a stub helper hands to the binder.
pub fn parse_lazy_bind_info(stream: &[u8]) -> (r: EmuResult<Vec<LazyBind>>)
    ensures
        match lazy_entries(stream@, 0, lazy_initial()) {
            Ok(v) => r matches Ok(x) && lazy_views(x@) == v,
            Err(e) => r matches Err(x) && x@ == e,
        },
{
    let mut out: Vec<LazyBind> = Vec::new();
    let mut st = LazyBind { offset: 0, seg_index: 0, seg_offset: 0, symbol: String::new() };
    let mut p: usize = 0;
    let ghost whole = lazy_entries(stream@, 0, lazy_initial());
    proof {
        assert(st@ =~= lazy_initial());
        match whole {
            Ok(v) => {
                assert(lazy_views(out@) + v =~= v);
            },
            Err(_) => {},
        }
    }
    while p < stream.len()
        invariant
            p <= stream@.len(),
            whole == lazy_entries(stream@, 0, lazy_initial()),
            whole == (match lazy_entries(stream@, p as int, st@) {
                Ok(rest) => Ok(lazy_views(out@) + rest),
                Err(e) => Err(e),
            }),
        decreases stream@.len() - p,
    {
        let ghost before = lazy_views(out@);
        let ghost was = st@;
        let ghost at = p as int;
        let (emit, next) = lazy_apply(stream, p, &mut st)?;
        if emit {
            let c = LazyBind {
                offset: st.offset,
                seg_index: st.seg_index,
                seg_offset: st.seg_offset,
                symbol: st.symbol.clone(),
            };
            out.push(c);
            assert(c@ =~= was);
            assert(lazy_views(out@) =~= before.push(was));
        }
        p = next;
        proof {
            let x = lazy_step(stream@, at, was)->Ok_0;
            match lazy_entries(stream@, x.next, x.state) {
                Ok(rest) => {
                    if emit {
                        assert(before + (seq![was] + rest) =~= lazy_views(out@) + rest);
                    }
                },
                Err(_) => {},
            }
        }
    }
    assert(lazy_views(out@) + Seq::empty() =~= lazy_views(out@));
    Ok(out)
}

} // verus!
