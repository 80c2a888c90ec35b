//! The C runtime: the allocator and the memory and string primitives. They
//! operate directly on guest memory.

use vstd::prelude::*;

use crate::bytes;
use crate::common::GuestAddr;
use crate::hle::frameworks::{Registry, ShimFn};
use crate::memory::space::MemView;
use crate::memory::GuestMemory;

verus! {

/// The registry with this framework's shims.
pub open spec fn installed(map: Map<Seq<char>, ShimFn>) -> Map<Seq<char>, ShimFn> {
    map.insert("malloc"@, ShimFn::Malloc).insert("calloc"@, ShimFn::Calloc).insert(
        "realloc"@,
        ShimFn::Realloc,
    ).insert("free"@, ShimFn::StubZero).insert("memcpy"@, ShimFn::CopyBytes).insert(
        "memmove"@,
        ShimFn::CopyBytes,
    ).insert("memset"@, ShimFn::FillBytes).insert("bzero"@, ShimFn::ClearBytes).insert(
        "strlen"@,
        ShimFn::StringLength,
    ).insert("strcmp"@, ShimFn::StringOrder).insert("memcmp"@, ShimFn::ByteOrder).insert(
        "pthread_mutex_lock"@,
        ShimFn::StubZero,
    ).insert("pthread_mutex_unlock"@, ShimFn::StubZero).insert(
        "pthread_mutex_init"@,
        ShimFn::StubZero,
    ).insert("pthread_once"@, ShimFn::StubZero).insert("dispatch_once"@, ShimFn::StubZero).insert(
        "__stack_chk_fail"@,
        ShimFn::StubZero,
    )
}

/// Register this framework's shims.
pub fn install(map: &mut Registry)
    ensures
        final(map)@ == installed(old(map)@),
{
    map.insert("malloc".to_owned(), ShimFn::Malloc);
    map.insert("calloc".to_owned(), ShimFn::Calloc);
    map.insert("realloc".to_owned(), ShimFn::Realloc);
    // The heap never reclaims.
    map.insert("free".to_owned(), ShimFn::StubZero);
    map.insert("memcpy".to_owned(), ShimFn::CopyBytes);
    map.insert("memmove".to_owned(), ShimFn::CopyBytes);
    map.insert("memset".to_owned(), ShimFn::FillBytes);
    map.insert("bzero".to_owned(), ShimFn::ClearBytes);
    map.insert("strlen".to_owned(), ShimFn::StringLength);
    map.insert("strcmp".to_owned(), ShimFn::StringOrder);
    map.insert("memcmp".to_owned(), ShimFn::ByteOrder);
    // Safe to ignore in a single-threaded process.
    map.insert("pthread_mutex_lock".to_owned(), ShimFn::StubZero);
    map.insert("pthread_mutex_unlock".to_owned(), ShimFn::StubZero);
    map.insert("pthread_mutex_init".to_owned(), ShimFn::StubZero);
    // Invoke-once guards report that they are done.
    map.insert("pthread_once".to_owned(), ShimFn::StubZero);
    map.insert("dispatch_once".to_owned(), ShimFn::StubZero);
    map.insert("__stack_chk_fail".to_owned(), ShimFn::StubZero);
}

// ---- allocation -------------------------------------------------------------

/// A block of `size` bytes, or null.
pub open spec fn block(mem: MemView, size: u64) -> (MemView, u64) {
    match mem.heap_alloc(size, 16) {
        (m, Ok(a)) => (m, a),
        (m, Err(_)) => (m, 0),
    }
}

/// Take a block from the heap.
pub fn malloc(mem: &mut GuestMemory, size: u64) -> (r: u64)
    requires
        old(mem)@.wf(),
    ensures
        (final(mem)@, r) == block(old(mem)@, size),
        final(mem)@.wf(),
{
    proof {
        vstd::arithmetic::power2::is_pow2_equiv(16);
        vstd::arithmetic::power2::lemma2_to64();
        vstd::arithmetic::power2::lemma_pow2(4);
    }
    match mem.heap_alloc(size, 16) {
        Ok(a) => a.raw(),
        Err(_) => 0,
    }
}

/// A product, or the largest number if it does not fit.
pub open spec fn saturated_product(a: u64, b: u64) -> u64 {
    if a * b > u64::MAX {
        u64::MAX
    } else {
        (a * b) as u64
    }
}

/// Take a block for `count` items; fresh heap memory is zero already.
pub fn calloc(mem: &mut GuestMemory, count: u64, size: u64) -> (r: u64)
    requires
        old(mem)@.wf(),
    ensures
        (final(mem)@, r) == block(old(mem)@, saturated_product(count, size)),
        final(mem)@.wf(),
{
    let total = match count.checked_mul(size) {
        Some(t) => t,
        None => u64::MAX,
    };
    malloc(mem, total)
}

/// A new block that starts with what is readable at `old`.
pub open spec fn moved_block(mem: MemView, old_addr: u64, size: u64) -> (MemView, u64) {
    match mem.heap_alloc(size, 16) {
        (m, Err(_)) => (m, 0),
        (m, Ok(a)) => if old_addr == 0 {
            (m, a)
        } else {
            match m.read(old_addr, size as int) {
                Ok(data) => (m.write(a, data).0, a),
                Err(_) => (m, a),
            }
        },
    }
}

/// Take a new block and copy the old one to it. There is no table of sizes: as
/// many bytes are copied as the new block has.
pub fn realloc(mem: &mut GuestMemory, old_addr: u64, size: u64) -> (r: u64)
    requires
        old(mem)@.wf(),
    ensures
        (final(mem)@, r) == moved_block(old(mem)@, old_addr, size),
        final(mem)@.wf(),
{
    proof {
        vstd::arithmetic::power2::is_pow2_equiv(16);
        vstd::arithmetic::power2::lemma2_to64();
        vstd::arithmetic::power2::lemma_pow2(4);
    }
    let block = match mem.heap_alloc(size, 16) {
        Ok(a) => a,
        Err(_) => {
            return 0;
        },
    };
    if old_addr != 0 {
        if let Ok(data) = mem.read_vec(GuestAddr(old_addr), size) {
            let _ = mem.write(block, data.as_slice());
        }
    }
    block.raw()
}

// ---- memory -----------------------------------------------------------------

/// `n` bytes copied from `src` to `dst`, if they can be read and written.
pub open spec fn copied(mem: MemView, dst: u64, src: u64, n: u64) -> MemView {
    match mem.read(src, n as int) {
        Ok(data) => mem.write(dst, data).0,
        Err(_) => mem,
    }
}

/// Copy `n` bytes; the ranges may overlap.
pub fn copy_bytes(mem: &mut GuestMemory, dst: u64, src: u64, n: u64)
    requires
        old(mem)@.wf(),
    ensures
        final(mem)@ == copied(old(mem)@, dst, src, n),
        final(mem)@.wf(),
{
    if let Ok(data) = mem.read_vec(GuestAddr(src), n) {
        let _ = mem.write(GuestAddr(dst), data.as_slice());
    }
}

/// `n` copies of `byte` written to `dst`, if they can be.
pub open spec fn filled(mem: MemView, dst: u64, byte: u8, n: u64) -> MemView {
    mem.write(dst, Seq::new(n as nat, |i: int| byte)).0
}

/// Fill `n` bytes.
pub fn fill_bytes(mem: &mut GuestMemory, dst: u64, byte: u8, n: u64)
    requires
        old(mem)@.wf(),
    ensures
        final(mem)@ == filled(old(mem)@, dst, byte, n),
        final(mem)@.wf(),
{
    let _ = mem.fill(GuestAddr(dst), byte, n);
}

// ---- comparison -------------------------------------------------------------

/// The text at `addr`, empty if it cannot be read.
pub open spec fn text_at(mem: MemView, addr: u64, max: nat) -> Seq<char> {
    match mem.read_cstr(addr, max) {
        Ok(s) => s,
        Err(_) => Seq::empty(),
    }
}

fn read_text(mem: &GuestMemory, addr: u64, max: usize) -> (r: String)
    ensures
        r@ == text_at(mem@, addr, max as nat),
{
    match mem.read_cstr(GuestAddr(addr), max) {
        Ok(s) => s,
        Err(_) => {
            let s = String::new();
            assert(s@ =~= Seq::empty());
            s
        },
    }
}

/// The length of the text at `addr` in bytes of UTF-8.
pub open spec fn length_at(mem: MemView, addr: u64) -> u64 {
    vstd::utf8::encode_utf8(text_at(mem, addr, 0x10_0000)).len() as u64
}

/// Length of a string.
pub fn string_length(mem: &GuestMemory, addr: u64) -> (r: u64)
    ensures
        r == length_at(mem@, addr),
{
    let s = read_text(mem, addr, 0x10_0000);
    s.as_str().as_bytes().len() as u64
}

/// An order as the guest sees it.
pub open spec fn order_value(o: int) -> u64 {
    if o < 0 {
        u64::MAX
    } else if o == 0 {
        0
    } else {
        1
    }
}

/// The order of the texts at `a` and `b`, byte by byte.
pub open spec fn string_order_at(mem: MemView, a: u64, b: u64) -> u64 {
    order_value(
        bytes::order(
            vstd::utf8::encode_utf8(text_at(mem, a, 0x1_0000)),
            vstd::utf8::encode_utf8(text_at(mem, b, 0x1_0000)),
        ),
    )
}

/// Order of two strings.
pub fn string_order(mem: &GuestMemory, a: u64, b: u64) -> (r: u64)
    ensures
        r == string_order_at(mem@, a, b),
{
    let sa = read_text(mem, a, 0x1_0000);
    let sb = read_text(mem, b, 0x1_0000);
    order_of(sa.as_str().as_bytes(), sb.as_str().as_bytes())
}

fn order_of(a: &[u8], b: &[u8]) -> (r: u64)
    ensures
        r == order_value(bytes::order(a@, b@)),
{
    let mut i: usize = 0;
    while i < a.len() && i < b.len()
        invariant
            i <= a@.len(),
            i <= b@.len(),
            forall|k: int| 0 <= k < i ==> a@[k] == b@[k],
        decreases a@.len() - i,
    {
        if a[i] != b[i] {
            proof {
                bytes::lemma_order_skip(a@, b@, i as int);
            }
            return if a[i] < b[i] {
                u64::MAX
            } else {
                1
            };
        }
        i += 1;
    }
    proof {
        bytes::lemma_order_skip(a@, b@, i as int);
    }
    if i < b.len() {
        u64::MAX
    } else if i < a.len() {
        1
    } else {
        0
    }
}

/// The `n` bytes at `addr`, zeros if they cannot be read.
pub open spec fn bytes_at(mem: MemView, addr: u64, n: u64) -> Seq<u8> {
    match mem.read(addr, n as int) {
        Ok(b) => b,
        Err(_) => Seq::new(n as nat, |i: int| 0u8),
    }
}

/// The order of the `n` bytes at `a` and at `b`.
pub open spec fn byte_order_at(mem: MemView, a: u64, b: u64, n: u64) -> u64 {
    order_value(bytes::order(bytes_at(mem, a, n), bytes_at(mem, b, n)))
}

/// The order of equal sequences.
proof fn lemma_order_same(a: Seq<u8>)
    ensures
        bytes::order(a, a) == 0,
    decreases a.len(),
{
    if a.len() > 0 {
        lemma_order_same(a.drop_first());
    }
}

/// Order of bytes against zeros.
fn order_against_zeros(a: &[u8]) -> (r: u64)
    ensures
        r == order_value(bytes::order(a@, Seq::new(a@.len(), |i: int| 0u8))),
        r <= 1,
{
    let ghost z = Seq::new(a@.len(), |i: int| 0u8);
    let mut i: usize = 0;
    while i < a.len()
        invariant
            i <= a@.len(),
            z == Seq::new(a@.len(), |i: int| 0u8),
            forall|k: int| 0 <= k < i ==> a@[k] == 0,
        decreases a@.len() - i,
    {
        if a[i] != 0 {
            proof {
                bytes::lemma_order_skip(a@, z, i as int);
            }
            return 1;
        }
        i += 1;
    }
    proof {
        assert(a@ =~= z);
        lemma_order_same(z);
    }
    0
}

/// Swapping the sequences turns the order around.
proof fn lemma_order_flips(a: Seq<u8>, b: Seq<u8>)
    ensures
        bytes::order(a, b) == -bytes::order(b, a),
    decreases a.len(),
{
    if a.len() > 0 && b.len() > 0 {
        lemma_order_flips(a.drop_first(), b.drop_first());
    }
}

/// Order of two byte ranges.
pub fn byte_order(mem: &GuestMemory, a: u64, b: u64, n: u64) -> (r: u64)
    ensures
        r == byte_order_at(mem@, a, b, n),
{
    match (mem.read_vec(GuestAddr(a), n), mem.read_vec(GuestAddr(b), n)) {
        (Ok(x), Ok(y)) => order_of(x.as_slice(), y.as_slice()),
        (Ok(x), Err(_)) => {
            assert(x@.len() == n);
            order_against_zeros(x.as_slice())
        },
        (Err(_), Ok(y)) => {
            let o = order_against_zeros(y.as_slice());
            proof {
                assert(y@.len() == n);
                lemma_order_flips(y@, Seq::new(n as nat, |i: int| 0u8));
            }
            if o == 0 {
                0
            } else {
                u64::MAX
            }
        },
        (Err(_), Err(_)) => {
            proof {
                lemma_order_same(Seq::new(n as nat, |i: int| 0u8));
            }
            0
        },
    }
}

} // verus!
