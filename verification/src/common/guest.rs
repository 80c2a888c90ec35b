//! Newtypes for guest (iOS-side) addresses and page protections.

use vstd::prelude::*;

use crate::common;
use crate::text;

verus! {

/// A 64-bit virtual address in the emulated process' address space.
#[derive(Clone, Copy, Debug, PartialEq, Eq, PartialOrd, Ord, Hash, Structural)]
pub struct GuestAddr(pub u64);

/// A size in bytes within the guest address space.
pub type GuestSize = u64;

impl View for GuestAddr {
    type V = u64;

    open spec fn view(&self) -> u64 {
        self.0
    }
}

impl Default for GuestAddr {
    fn default() -> (r: GuestAddr)
        ensures
            r.0 == 0,
    {
        GuestAddr(0)
    }
}

impl GuestAddr {
    /// The null address.
    pub fn null() -> (r: GuestAddr)
        ensures
            r == GuestAddr(0),
    {
        GuestAddr(0)
    }

    /// Whether this is the null address.
    pub fn is_null(self) -> (r: bool)
        ensures
            r == (self.0 == 0),
    {
        self.0 == 0
    }

    /// The bare number.
    pub fn raw(self) -> (r: u64)
        ensures
            r == self.0,
    {
        self.0
    }

    /// Align this address down to `align` (a power of two).
    pub fn align_down(self, align: u64) -> (r: GuestAddr)
        requires
            vstd::arithmetic::power2::is_pow2(align as int),
        ensures
            r.0 == self.0 - self.0 % align,
    {
        GuestAddr(common::align_down(self.0, align))
    }

    /// Align this address up to `align` (a power of two).
    pub fn align_up(self, align: u64) -> (r: GuestAddr)
        requires
            vstd::arithmetic::power2::is_pow2(align as int),
            self.0 + align - 1 <= u64::MAX,
        ensures
            r.0 == common::up_to(self.0 as int, align as int),
            r.0 % align == 0,
            self.0 <= r.0 < self.0 + align,
    {
        GuestAddr(common::align_up(self.0, align))
    }

    /// Checked byte offset; `None` on overflow.
    pub fn checked_add(self, off: u64) -> (r: Option<GuestAddr>)
        ensures
            r == (if self.0 + off <= u64::MAX {
                Some(GuestAddr((self.0 + off) as u64))
            } else {
                None
            }),
    {
        match self.0.checked_add(off) {
            Some(v) => Some(GuestAddr(v)),
            None => None,
        }
    }

    /// The address as sixteen hexadecimal digits after `0x`.
    pub fn text(self) -> (r: String)
        ensures
            r@ == text::address_text(self.0),
    {
        text::address_string(self.0)
    }
}

impl core::ops::Add<u64> for GuestAddr {
    type Output = GuestAddr;

    fn add(self, rhs: u64) -> (r: GuestAddr)
        ensures
            r == GuestAddr(self.0.wrapping_add(rhs)),
    {
        GuestAddr(self.0.wrapping_add(rhs))
    }
}

impl vstd::std_specs::ops::AddSpecImpl<u64> for GuestAddr {
    open spec fn obeys_add_spec() -> bool {
        true
    }

    open spec fn add_req(self, rhs: u64) -> bool {
        true
    }

    open spec fn add_spec(self, rhs: u64) -> GuestAddr {
        GuestAddr(self.0.wrapping_add(rhs))
    }
}

impl core::ops::Sub<GuestAddr> for GuestAddr {
    type Output = u64;

    fn sub(self, rhs: GuestAddr) -> (r: u64)
        ensures
            r == self.0.wrapping_sub(rhs.0),
    {
        self.0.wrapping_sub(rhs.0)
    }
}

impl vstd::std_specs::ops::SubSpecImpl<GuestAddr> for GuestAddr {
    open spec fn obeys_sub_spec() -> bool {
        true
    }

    open spec fn sub_req(self, rhs: GuestAddr) -> bool {
        true
    }

    open spec fn sub_spec(self, rhs: GuestAddr) -> u64 {
        self.0.wrapping_sub(rhs.0)
    }
}

/// Moving an address and measuring the distance are inverse, wrapping included.
pub proof fn distance_undoes_offset(a: GuestAddr, off: u64)
    ensures
        a.0.wrapping_add(off).wrapping_sub(a.0) == off,
        a.0.wrapping_add(off.wrapping_sub(a.0)) == off,
{
}

/// Page-protection flags for a guest memory region; the bits of a Mach
/// `vm_prot_t` (1 read, 2 write, 4 execute).
#[derive(Clone, Copy, Debug, PartialEq, Eq, Structural)]
pub struct Protection(pub u8);

impl Protection {
    /// No access.
    pub fn none() -> (r: Protection)
        ensures
            r == Protection(0),
    {
        Protection(0)
    }

    /// Read access.
    pub fn read() -> (r: Protection)
        ensures
            r == Protection(1),
    {
        Protection(1)
    }

    /// Write access.
    pub fn write() -> (r: Protection)
        ensures
            r == Protection(2),
    {
        Protection(2)
    }

    /// Execute access.
    pub fn exec() -> (r: Protection)
        ensures
            r == Protection(4),
    {
        Protection(4)
    }

    /// Whether every access in `other` is granted.
    pub open spec fn grants(self, other: Protection) -> bool {
        self.0 & other.0 == other.0
    }

    /// Read and write.
    pub fn rw() -> (r: Protection)
        ensures
            r == Protection(3),
    {
        Protection(3)
    }

    /// Read and execute.
    pub fn rx() -> (r: Protection)
        ensures
            r == Protection(5),
    {
        Protection(5)
    }

    /// Whether every access in `other` is granted.
    pub fn contains(self, other: Protection) -> (r: bool)
        ensures
            r == self.grants(other),
    {
        (self.0 & other.0) == other.0
    }

    /// Build from a Mach `vm_prot_t` (its low three bits).
    pub fn from_vm_prot(vm_prot: u32) -> (r: Protection)
        ensures
            r == Protection((vm_prot % 8) as u8),
    {
        assert(vm_prot & 7 == vm_prot % 8) by (bit_vector);
        Protection((vm_prot & 7) as u8)
    }

    /// The flags as `rwx`, with `-` for an access that is not granted.
    pub open spec fn letters(self) -> Seq<char> {
        seq![
            if self.grants(Protection(1)) { 'r' } else { '-' },
            if self.grants(Protection(2)) { 'w' } else { '-' },
            if self.grants(Protection(4)) { 'x' } else { '-' },
        ]
    }

    /// The flags as `rwx`, with `-` for an access that is not granted.
    pub fn text(self) -> (r: String)
        ensures
            r@ == self.letters(),
    {
        let mut s = String::new();
        s.push(if self.contains(Protection::read()) { 'r' } else { '-' });
        s.push(if self.contains(Protection::write()) { 'w' } else { '-' });
        s.push(if self.contains(Protection::exec()) { 'x' } else { '-' });
        assert(s@ =~= self.letters());
        s
    }
}

/// `rw` grants reading and writing and nothing else; `rx` reading and
/// executing and nothing else.
pub proof fn common_protections()
    ensures
        Protection(3).grants(Protection(1)),
        Protection(3).grants(Protection(2)),
        !Protection(3).grants(Protection(4)),
        Protection(5).grants(Protection(1)),
        !Protection(5).grants(Protection(2)),
        Protection(5).grants(Protection(4)),
        forall|p: Protection| #[trigger] p.grants(Protection(0)),
{
    assert(3u8 & 1 == 1 && 3u8 & 2 == 2 && 3u8 & 4 == 0 && 5u8 & 1 == 1 && 5u8 & 2 == 0 && 5u8 & 4
        == 4) by (bit_vector);
    assert forall|p: Protection| #[trigger] p.grants(Protection(0)) by {
        let b = p.0;
        assert(b & 0 == 0) by (bit_vector);
    }
}

} // verus!
