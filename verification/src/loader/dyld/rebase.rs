//! Parser for the compressed rebase opcode stream.
//!
//! Rebasing relocates the absolute pointers baked into an image by its slide;
//! the output is the flat list of pointer slots.

use vstd::prelude::*;

use crate::common::error::ErrorView;
use crate::common::{EmuError, EmuResult};
use crate::loader::dyld::bind;
use crate::loader::dyld::leb;
use crate::text;

verus! {

pub const REBASE_OPCODE_DONE: u8 = 0x00;

pub const REBASE_OPCODE_SET_TYPE_IMM: u8 = 0x10;

pub const REBASE_OPCODE_SET_SEGMENT_AND_OFFSET_ULEB: u8 = 0x20;

pub const REBASE_OPCODE_ADD_ADDR_ULEB: u8 = 0x30;

pub const REBASE_OPCODE_ADD_ADDR_IMM_SCALED: u8 = 0x40;

pub const REBASE_OPCODE_DO_REBASE_IMM_TIMES: u8 = 0x50;

pub const REBASE_OPCODE_DO_REBASE_ULEB_TIMES: u8 = 0x60;

pub const REBASE_OPCODE_DO_REBASE_ADD_ADDR_ULEB: u8 = 0x70;

pub const REBASE_OPCODE_DO_REBASE_ULEB_TIMES_SKIPPING_ULEB: u8 = 0x80;

/// The only relocation type that occurs in arm64 images.
pub const REBASE_TYPE_POINTER: u8 = 1;

/// One pointer slot to relocate.
#[derive(Clone, Copy, Debug)]
pub struct RebaseLocation {
    pub seg_index: u8,
    pub seg_offset: u64,
    pub rtype: u8,
}

impl RebaseLocation {
    /// The slot `by` bytes further (modulo 2^64).
    pub open spec fn moved(self, by: int) -> RebaseLocation {
        RebaseLocation { seg_offset: leb::wrapped(self.seg_offset + by), ..self }
    }

    /// `n` slots, each `stride` behind the one before.
    pub open spec fn repeated(self, n: nat, stride: int) -> Seq<RebaseLocation> {
        Seq::new(n, |k: int| self.moved(k * stride))
    }
}

/// What one opcode does: where the next one is, the current slot after it, and
/// the slots it emits.
pub struct RebaseStep {
    pub next: int,
    pub state: RebaseLocation,
    pub out: Seq<RebaseLocation>,
}

/// The error for an integer that is cut off.
pub open spec fn cut_off() -> ErrorView {
    ErrorView::Dyld("rebase uleb truncated"@)
}

/// The opcode at `p`, applied to the current slot `st`.
#[verifier::opaque]
pub open spec fn step(s: Seq<u8>, p: int, st: RebaseLocation) -> Result<RebaseStep, ErrorView> {
    let imm = s[p] % 16;
    let op = s[p] - imm;
    let q = p + 1;
    let none = Seq::<RebaseLocation>::empty();
    if op == REBASE_OPCODE_DONE {
        Ok(RebaseStep { next: q, state: st, out: none })
    } else if op == REBASE_OPCODE_SET_TYPE_IMM {
        Ok(RebaseStep { next: q, state: RebaseLocation { rtype: imm, ..st }, out: none })
    } else if op == REBASE_OPCODE_SET_SEGMENT_AND_OFFSET_ULEB {
        match leb::uleb(s, q) {
            None => Err(cut_off()),
            Some((seg_offset, e)) => Ok(
                RebaseStep {
                    next: e,
                    state: RebaseLocation { seg_index: imm, seg_offset, ..st },
                    out: none,
                },
            ),
        }
    } else if op == REBASE_OPCODE_ADD_ADDR_ULEB {
        match leb::uleb(s, q) {
            None => Err(cut_off()),
            Some((v, e)) => Ok(RebaseStep { next: e, state: st.moved(v as int), out: none }),
        }
    } else if op == REBASE_OPCODE_ADD_ADDR_IMM_SCALED {
        Ok(RebaseStep { next: q, state: st.moved(imm * 8), out: none })
    } else if op == REBASE_OPCODE_DO_REBASE_IMM_TIMES {
        Ok(RebaseStep { next: q, state: st.moved(imm * 8), out: st.repeated(imm as nat, 8) })
    } else if op == REBASE_OPCODE_DO_REBASE_ULEB_TIMES {
        match leb::uleb(s, q) {
            None => Err(cut_off()),
            Some((count, e)) => Ok(
                RebaseStep {
                    next: e,
                    state: st.moved(count * 8),
                    out: st.repeated(count as nat, 8),
                },
            ),
        }
    } else if op == REBASE_OPCODE_DO_REBASE_ADD_ADDR_ULEB {
        match leb::uleb(s, q) {
            None => Err(cut_off()),
            Some((v, e)) => Ok(RebaseStep { next: e, state: st.moved(8 + v), out: seq![st] }),
        }
    } else if op == REBASE_OPCODE_DO_REBASE_ULEB_TIMES_SKIPPING_ULEB {
        match leb::uleb(s, q) {
            None => Err(cut_off()),
            Some((count, e)) => match leb::uleb(s, e) {
                None => Err(cut_off()),
                Some((skip, e2)) => Ok(
                    RebaseStep {
                        next: e2,
                        state: st.moved(count * (8 + skip)),
                        out: st.repeated(count as nat, 8 + skip),
                    },
                ),
            },
        }
    } else {
        Err(ErrorView::Dyld("unknown rebase opcode 0x"@ + text::hex(op as nat)))
    }
}

/// Every opcode moves forward.
pub proof fn lemma_step_advances(s: Seq<u8>, p: int, st: RebaseLocation)
    requires
        0 <= p < s.len(),
    ensures
        step(s, p, st) matches Ok(x) ==> p < x.next <= s.len(),
{
    reveal(step);
    leb::lemma_leb_end(s, p + 1);
    match leb::uleb(s, p + 1) {
        Some((_, e)) => leb::lemma_leb_end(s, e),
        None => {},
    }
}

/// The slots of the stream from `p` on, starting with the current slot `st`.
pub open spec fn rebase_slots(s: Seq<u8>, p: int, st: RebaseLocation) -> Result<
    Seq<RebaseLocation>,
    ErrorView,
>
    decreases s.len() - p,
{
    if p < 0 || p >= s.len() {
        Ok(Seq::empty())
    } else {
        proof {
            lemma_step_advances(s, p, st);
        }
        match step(s, p, st) {
            Err(e) => Err(e),
            Ok(x) => match rebase_slots(s, x.next, x.state) {
                Err(e) => Err(e),
                Ok(rest) => Ok(x.out + rest),
            },
        }
    }
}

/// The current slot at the start of a stream.
pub open spec fn initial() -> RebaseLocation {
    RebaseLocation { seg_index: 0, seg_offset: 0, rtype: REBASE_TYPE_POINTER }
}

fn read_uleb(buf: &[u8], p: &mut usize) -> (r: EmuResult<u64>)
    ensures
        match leb::uleb(buf@, *old(p) as int) {
            Some((v, e)) => r == Ok::<u64, EmuError>(v) && *final(p) == e && *old(p) < e
                <= buf@.len(),
            None => r matches Err(x) && x@ == cut_off() && *final(p) == bind::stuck(
                buf@,
                *old(p),
            ),
        },
{
    match leb::uleb_at(buf, *p) {
        Some((v, e)) => {
            *p = e;
            Ok(v)
        },
        None => {
            if *p < buf.len() {
                *p = buf.len();
            }
            Err(EmuError::Dyld("rebase uleb truncated".to_owned()))
        },
    }
}

/// Emit `count` slots, `skip` bytes between them.
fn emit_times(out: &mut Vec<RebaseLocation>, st: &mut RebaseLocation, count: u64, skip: u64)
    ensures
        final(out)@ == old(out)@ + old(st).repeated(count as nat, 8 + skip),
        *final(st) == old(st).moved(count * (8 + skip)),
{
    let ghost start = *st;
    let ghost first = out@;
    let ghost stride: int = 8 + skip;
    let mut k: u64 = 0;
    proof {
        assert(start.moved(0 * stride) == start);
        assert(first + start.repeated(0, stride) =~= first);
    }
    while k < count
        invariant
            k <= count,
            stride == 8 + skip,
            out@ == first + start.repeated(k as nat, stride),
            *st == start.moved(k * stride),
        decreases count - k,
    {
        out.push(*st);
        proof {
            assert(first + start.repeated((k + 1) as nat, stride) =~= (first + start.repeated(
                k as nat,
                stride,
            )).push(start.moved(k * stride)));
            let at = k * stride;
            bind::lemma_moves_add(start.seg_offset, at, 8);
            bind::lemma_moves_add(start.seg_offset, at + 8, skip as int);
            assert((k + 1) * stride == k * stride + stride) by (nonlinear_arith);
        }
        st.seg_offset = st.seg_offset.wrapping_add(8).wrapping_add(skip);
        k += 1;
    }
}

/// Apply the opcode at `p`, one that emits nothing.
fn apply_set(s: &[u8], p: usize, st: &mut RebaseLocation) -> (r: EmuResult<usize>)
    requires
        p < s@.len(),
        s@[p as int] < REBASE_OPCODE_DO_REBASE_IMM_TIMES,
    ensures
        match step(s@, p as int, *old(st)) {
            Ok(x) => r matches Ok(next) && next == x.next && p < next <= s@.len() && *final(st)
                == x.state && x.out == Seq::<RebaseLocation>::empty(),
            Err(e) => r matches Err(x) && x@ == e,
        },
{
    proof {
        reveal(step);
    }
    let imm = s[p] % 16;
    let op = s[p] - imm;
    let mut q: usize = p + 1;
    if op == REBASE_OPCODE_DONE {
        // Terminator or trailing padding.
    } else if op == REBASE_OPCODE_SET_TYPE_IMM {
        st.rtype = imm;
    } else if op == REBASE_OPCODE_SET_SEGMENT_AND_OFFSET_ULEB {
        st.seg_offset = read_uleb(s, &mut q)?;
        st.seg_index = imm;
    } else if op == REBASE_OPCODE_ADD_ADDR_ULEB {
        let v = read_uleb(s, &mut q)?;
        st.seg_offset = st.seg_offset.wrapping_add(v);
    } else {
        st.seg_offset = st.seg_offset.wrapping_add(imm as u64 * 8);
    }
    Ok(q)
}

/// Apply the opcode at `p`, one that rebases once.
fn apply_once(
    s: &[u8],
    p: usize,
    st: &mut RebaseLocation,
    out: &mut Vec<RebaseLocation>,
) -> (r: EmuResult<usize>)
    requires
        p < s@.len(),
        s@[p as int] / 16 == REBASE_OPCODE_DO_REBASE_ADD_ADDR_ULEB / 16,
    ensures
        match step(s@, p as int, *old(st)) {
            Ok(x) => r matches Ok(next) && next == x.next && p < next <= s@.len() && *final(st)
                == x.state && final(out)@ == old(out)@ + x.out,
            Err(e) => r matches Err(x) && x@ == e,
        },
{
    proof {
        reveal(step);
    }
    assert(s.len() == s@.len());
    let mut q: usize = p + 1;
    let ghost was = *st;
    let ghost before = out@;
    out.push(*st);
    assert(out@ =~= before + seq![was]);
    let v = read_uleb(s, &mut q)?;
    proof {
        bind::lemma_moves_add(was.seg_offset, 8, v as int);
    }
    st.seg_offset = st.seg_offset.wrapping_add(8).wrapping_add(v);
    Ok(q)
}

/// How many slots the opcode at `p` emits, how far they are apart, and where
/// the next opcode is.
fn times(s: &[u8], p: usize) -> (r: EmuResult<(u64, u64, usize)>)
    requires
        p < s@.len(),
        s@[p as int] >= REBASE_OPCODE_DO_REBASE_IMM_TIMES,
        s@[p as int] / 16 != REBASE_OPCODE_DO_REBASE_ADD_ADDR_ULEB / 16,
    ensures
        forall|st: RebaseLocation|
            match #[trigger] step(s@, p as int, st) {
                Ok(x) => r matches Ok(v) && v.2 == x.next && p < v.2 <= s@.len() && x.state
                    == st.moved(v.0 * (8 + v.1)) && x.out == st.repeated(v.0 as nat, 8 + v.1),
                Err(e) => r matches Err(x) && x@ == e,
            },
{
    proof {
        reveal(step);
    }
    let imm = s[p] % 16;
    let op = s[p] - imm;
    let mut q: usize = p + 1;
    if op == REBASE_OPCODE_DO_REBASE_IMM_TIMES {
        Ok((imm as u64, 0, q))
    } else if op == REBASE_OPCODE_DO_REBASE_ULEB_TIMES {
        let count = read_uleb(s, &mut q)?;
        Ok((count, 0, q))
    } else if op == REBASE_OPCODE_DO_REBASE_ULEB_TIMES_SKIPPING_ULEB {
        let count = read_uleb(s, &mut q)?;
        let skip = read_uleb(s, &mut q)?;
        Ok((count, skip, q))
    } else {
        let h = text::hex_string(op as u64);
        Err(EmuError::Dyld(text::cat("unknown rebase opcode 0x", h.as_str())))
    }
}

/// Apply the opcode at `p`, one that rebases.
fn apply_rebase(
    s: &[u8],
    p: usize,
    st: &mut RebaseLocation,
    out: &mut Vec<RebaseLocation>,
) -> (r: EmuResult<usize>)
    requires
        p < s@.len(),
        s@[p as int] >= REBASE_OPCODE_DO_REBASE_IMM_TIMES,
    ensures
        match step(s@, p as int, *old(st)) {
            Ok(x) => r matches Ok(next) && next == x.next && p < next <= s@.len() && *final(st)
                == x.state && final(out)@ == old(out)@ + x.out,
            Err(e) => r matches Err(x) && x@ == e,
        },
{
    if s[p] / 16 == REBASE_OPCODE_DO_REBASE_ADD_ADDR_ULEB / 16 {
        return apply_once(s, p, st, out);
    }
    let (count, skip, q) = times(s, p)?;
    emit_times(out, st, count, skip);
    Ok(q)
}

/// Decode the whole rebase stream into locations.
pub fn parse_rebase_info(stream: &[u8]) -> (r: EmuResult<Vec<RebaseLocation>>)
    ensures
        match rebase_slots(stream@, 0, initial()) {
            Ok(v) => r matches Ok(x) && x@ == v,
            Err(e) => r matches Err(x) && x@ == e,
        },
{
    let mut out: Vec<RebaseLocation> = Vec::new();
    let mut st = RebaseLocation { seg_index: 0, seg_offset: 0, rtype: REBASE_TYPE_POINTER };
    let mut p: usize = 0;
    let ghost whole = rebase_slots(stream@, 0, initial());
    proof {
        match whole {
            Ok(v) => {
                assert(out@ + v =~= v);
            },
            Err(_) => {},
        }
    }
    while p < stream.len()
        invariant
            p <= stream@.len(),
            whole == rebase_slots(stream@, 0, initial()),
            whole == (match rebase_slots(stream@, p as int, st) {
                Ok(rest) => Ok(out@ + rest),
                Err(e) => Err(e),
            }),
        decreases stream@.len() - p,
    {
        let ghost before = out@;
        let ghost was = st;
        let ghost at = p as int;
        if stream[p] < REBASE_OPCODE_DO_REBASE_IMM_TIMES {
            p = apply_set(stream, p, &mut st)?;
        } else {
            p = apply_rebase(stream, p, &mut st, &mut out)?;
        }
        proof {
            let x = step(stream@, at, was)->Ok_0;
            match rebase_slots(stream@, x.next, x.state) {
                Ok(rest) => {
                    assert(before + (x.out + rest) =~= out@ + rest);
                },
                Err(_) => {},
            }
        }
    }
    assert(out@ + Seq::empty() =~= out@);
    Ok(out)
}

} // verus!
