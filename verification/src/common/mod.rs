//! Types shared by every subsystem: guest addresses, protections, errors, and
//! the page arithmetic they rest on.

pub mod error;
pub mod guest;
pub mod laws;

use vstd::prelude::*;

pub use crate::common::error::{EmuError, EmuResult, IoError, IoErrorKind, SyscallClass};
pub use crate::common::guest::{GuestAddr, GuestSize, Protection};

verus! {

/// The virtual base address the main executable is slid to.
pub const DEFAULT_LOAD_BASE: u64 = 0x0000_0001_0000_0000;

/// AArch64 translation granule used throughout the memory manager (16 KiB).
pub const PAGE_SIZE: u64 = 0x4000;

/// The least multiple of `align` that is not below `value`.
pub open spec fn up_to(value: int, align: int) -> int {
    ((value + align - 1) / align) * align
}

/// Clearing the bits below a power of two subtracts the remainder.
proof fn lemma_clear_low_bits(value: u64, align: u64)
    requires
        vstd::arithmetic::power2::is_pow2(align as int),
    ensures
        align > 0,
        value & !((align - 1) as u64) == value - value % align,
{
    vstd::arithmetic::power2::is_pow2_equiv(align as int);
    let n = choose|i: nat| vstd::arithmetic::power::pow(2, i) == align as int;
    vstd::arithmetic::power2::lemma_pow2(n);
    vstd::arithmetic::power2::lemma_pow2_pos(n);
    if n >= 64 {
        vstd::arithmetic::power2::lemma2_to64();
        vstd::arithmetic::power2::lemma2_to64_rest();
        if n > 64 {
            vstd::arithmetic::power2::lemma_pow2_strictly_increases(64, n);
        }
    }
    vstd::bits::lemma_u64_low_bits_mask_is_mod(value, n);
    let mask = (align - 1) as u64;
    assert(value & !mask == value - (value & mask)) by (bit_vector);
}

/// Round `value` up to the next multiple of `align` (which must be a power of two).
pub fn align_up(value: u64, align: u64) -> (r: u64)
    requires
        vstd::arithmetic::power2::is_pow2(align as int),
        value + align - 1 <= u64::MAX,
    ensures
        r == up_to(value as int, align as int),
        r % align == 0,
        value <= r < value + align,
{
    proof {
        let sum = (value + (align - 1)) as u64;
        lemma_clear_low_bits(sum, align);
        let q = sum as int / align as int;
        assert(sum - sum % align == q * align) by {
            vstd::arithmetic::div_mod::lemma_fundamental_div_mod(sum as int, align as int);
            vstd::arithmetic::mul::lemma_mul_is_commutative(q, align as int);
        }
        vstd::arithmetic::div_mod::lemma_mod_multiples_basic(q, align as int);
    }
    (value + (align - 1)) & !(align - 1)
}

/// Round `value` down to the previous multiple of `align` (a power of two).
pub fn align_down(value: u64, align: u64) -> (r: u64)
    requires
        vstd::arithmetic::power2::is_pow2(align as int),
    ensures
        r == value - value % align,
{
    proof {
        lemma_clear_low_bits(value, align);
    }
    value & !(align - 1)
}

/// The page size is a power of two.
pub proof fn lemma_page_size()
    ensures
        vstd::arithmetic::power2::is_pow2(PAGE_SIZE as int),
{
    vstd::arithmetic::power2::is_pow2_equiv(PAGE_SIZE as int);
    vstd::arithmetic::power2::lemma2_to64();
    vstd::arithmetic::power2::lemma_pow2(14);
}

/// Rounding is idempotent and rounding down inverts nothing above the value:
/// every result is a multiple of the alignment, the results bracket the value,
/// and a multiple is left alone by both.
pub proof fn rounding_brackets(value: int, align: int)
    requires
        align > 0,
        value >= 0,
    ensures
        (value - value % align) % align == 0,
        up_to(value, align) % align == 0,
        value - value % align <= value <= up_to(value, align),
        up_to(value, align) - value < align,
        value % align == 0 ==> up_to(value, align) == value,
        up_to(up_to(value, align), align) == up_to(value, align),
{
    let q = (value + align - 1) / align;
    let up = up_to(value, align);
    assert(up == q * align);
    vstd::arithmetic::div_mod::lemma_fundamental_div_mod(value + align - 1, align);
    vstd::arithmetic::mul::lemma_mul_is_commutative(q, align);
    vstd::arithmetic::div_mod::lemma_mod_bound(value + align - 1, align);
    vstd::arithmetic::div_mod::lemma_mod_multiples_basic(q, align);
    vstd::arithmetic::div_mod::lemma_mod_bound(value, align);
    vstd::arithmetic::div_mod::lemma_fundamental_div_mod(value, align);
    vstd::arithmetic::mul::lemma_mul_is_commutative(value / align, align);
    vstd::arithmetic::div_mod::lemma_mod_multiples_basic(value / align, align);
    vstd::arithmetic::div_mod::lemma_div_multiples_vanish_fancy(q, align - 1, align);
    assert((up + align - 1) / align == q);
    if value % align == 0 {
        vstd::arithmetic::div_mod::lemma_div_multiples_vanish_fancy(value / align, align - 1, align);
    }
}

} // verus!
