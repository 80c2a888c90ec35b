//! LEB128 integers: groups of seven bits, least significant first, the high bit
//! set on every byte but the last.

use vstd::prelude::*;

verus! {

/// Two to the sixty-fourth.
pub open spec fn two64() -> int {
    0x1_0000_0000_0000_0000
}

/// `x` modulo 2^64.
pub open spec fn wrapped(x: int) -> u64 {
    (x % two64()) as u64
}

/// The 64-bit two's-complement number that `x` modulo 2^64 stands for.
pub open spec fn signed64(x: int) -> i64 {
    if x % two64() < 0x8000_0000_0000_0000 {
        (x % two64()) as i64
    } else {
        (x % two64() - two64()) as i64
    }
}

/// The position behind the integer that starts at `p`, if it is complete.
pub open spec fn leb_end(b: Seq<u8>, p: int) -> Option<int>
    decreases b.len() - p,
{
    if p < 0 || p >= b.len() {
        None
    } else if b[p] < 128 {
        Some(p + 1)
    } else {
        leb_end(b, p + 1)
    }
}

/// The number whose seven-bit digits are the bytes `p..e`, with `top` above
/// them (-1 for a sign-extended negative number).
pub open spec fn digits(b: Seq<u8>, p: int, e: int, top: int) -> int
    decreases e - p,
{
    if p >= e {
        top
    } else {
        b[p] % 128 + 128 * digits(b, p + 1, e, top)
    }
}

/// The unsigned integer at `p`, modulo 2^64, and the position behind it.
pub open spec fn uleb(b: Seq<u8>, p: int) -> Option<(u64, int)> {
    match leb_end(b, p) {
        None => None,
        Some(e) => Some((wrapped(digits(b, p, e, 0)), e)),
    }
}

/// The signed integer at `p`, modulo 2^64, and the position behind it: bit six
/// of the last byte is the sign.
pub open spec fn sleb(b: Seq<u8>, p: int) -> Option<(i64, int)> {
    match leb_end(b, p) {
        None => None,
        Some(e) => {
            let top: int = if b[e - 1] / 64 % 2 == 1 {
                -1
            } else {
                0
            };
            Some((signed64(digits(b, p, e, top)), e))
        },
    }
}

/// A complete integer ends behind its start and inside the bytes.
pub proof fn lemma_leb_end(b: Seq<u8>, p: int)
    ensures
        leb_end(b, p) matches Some(e) ==> p < e <= b.len(),
    decreases b.len() - p,
{
    if 0 <= p < b.len() && b[p] >= 128 {
        lemma_leb_end(b, p + 1);
    }
}

fn find_end(b: &[u8], p: usize) -> (r: Option<usize>)
    ensures
        match leb_end(b@, p as int) {
            Some(e) => r matches Some(x) && x == e && p < e <= b@.len(),
            None => r is None,
        },
{
    proof {
        lemma_leb_end(b@, p as int);
    }
    let mut i: usize = p;
    while i < b.len()
        invariant
            p <= i,
            leb_end(b@, p as int) == leb_end(b@, i as int),
        decreases b@.len() - i,
    {
        if b[i] < 128 {
            return Some(i + 1);
        }
        i += 1;
    }
    None
}

/// One step of Horner's scheme modulo 2^64.
proof fn lemma_horner(acc: u64, d: int, v: int)
    requires
        acc == wrapped(v),
        0 <= d < 128,
    ensures
        acc.wrapping_mul(128).wrapping_add(d as u64) == wrapped(d + 128 * v),
{
    let m = two64();
    let a = acc as int;
    vstd::arithmetic::div_mod::lemma_fundamental_div_mod(v, m);
    let q = v / m;
    assert(v == m * q + a);
    let t = a * 128;
    vstd::arithmetic::div_mod::lemma_fundamental_div_mod(t, m);
    let q2 = t / m;
    assert(d + 128 * v == m * (128 * q + q2) + (t % m + d)) by (nonlinear_arith)
        requires
            v == m * q + a,
            t == a * 128,
            t == m * q2 + t % m,
    ;
    vstd::arithmetic::div_mod::lemma_mod_multiples_vanish(128 * q + q2, t % m + d, m);
    assert(acc.wrapping_mul(128) == t % m);
}

/// Combine the digits `p..e`, modulo 2^64; `seed` stands for what is above.
fn combine(b: &[u8], p: usize, e: usize, seed: u64, Ghost(top): Ghost<int>) -> (r: u64)
    requires
        p <= e <= b@.len(),
        seed == wrapped(top),
    ensures
        r == wrapped(digits(b@, p as int, e as int, top)),
{
    let mut acc: u64 = seed;
    let mut i: usize = e;
    while i > p
        invariant
            p <= i <= e <= b@.len(),
            acc == wrapped(digits(b@, i as int, e as int, top)),
        decreases i,
    {
        let d = b[i - 1] % 128;
        proof {
            lemma_horner(acc, d as int, digits(b@, i as int, e as int, top));
        }
        acc = acc.wrapping_mul(128).wrapping_add(d as u64);
        i -= 1;
    }
    acc
}

/// Decode the unsigned integer at `p`.
pub fn uleb_at(b: &[u8], p: usize) -> (r: Option<(u64, usize)>)
    ensures
        match uleb(b@, p as int) {
            Some((v, e)) => r matches Some(x) && x.0 == v && x.1 == e && p < e <= b@.len(),
            None => r is None,
        },
{
    match find_end(b, p) {
        Some(e) => Some((combine(b, p, e, 0, Ghost(0)), e)),
        None => None,
    }
}

/// Reinterpret as two's complement.
pub fn to_signed(x: u64) -> (r: i64)
    ensures
        r == signed64(x as int),
{
    assert(x < 0x8000_0000_0000_0000u64 ==> x as i64 == x) by (bit_vector);
    assert(x >= 0x8000_0000_0000_0000u64 ==> (x as i64) + 0x1_0000_0000_0000_0000 == x)
        by (bit_vector);
    x as i64
}

/// Decode the signed integer at `p`.
pub fn sleb_at(b: &[u8], p: usize) -> (r: Option<(i64, usize)>)
    ensures
        match sleb(b@, p as int) {
            Some((v, e)) => r matches Some(x) && x.0 == v && x.1 == e && p < e <= b@.len(),
            None => r is None,
        },
{
    match find_end(b, p) {
        Some(e) => {
            let negative = b[e - 1] / 64 % 2 == 1;
            let seed: u64 = if negative {
                u64::MAX
            } else {
                0
            };
            let ghost top: int = if negative {
                -1
            } else {
                0
            };
            assert(wrapped(-1) == u64::MAX);
            let raw = combine(b, p, e, seed, Ghost(top));
            Some((to_signed(raw), e))
        },
        None => None,
    }
}

} // verus!
