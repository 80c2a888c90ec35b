//! What errors and protections look like in print.

use vstd::prelude::*;

use crate::common::error::{ErrorView, IoErrorKind, IoErrorView};
use crate::common::{Protection, SyscallClass};
use crate::digits;
use crate::text;

verus! {

/// An error is printed as the part of the emulator that it comes from and what
/// went wrong there.
pub proof fn errors_name_their_origin(m: Seq<char>, kind: IoErrorKind)
    ensures
        ErrorView::MachO(m).message() == "mach-o: "@ + m,
        ErrorView::Dyld(m).message() == "dyld: "@ + m,
        ErrorView::Vfs(m).message() == "vfs: "@ + m,
        ErrorView::Plist(m).message() == "plist: "@ + m,
        ErrorView::Archive(m).message() == "archive: "@ + m,
        ErrorView::ObjC(m).message() == "objc: "@ + m,
        ErrorView::Io((IoErrorView { kind, message: m })).message() == "io: "@ + m,
        ErrorView::Internal(m).message() == "internal: "@ + m,
{
}

/// A memory fault is printed with its address in full, and a syscall that is not
/// supported with its number.
pub proof fn faults_are_printed_with_their_place(
    addr: u64,
    reason: Seq<char>,
    class: SyscallClass,
    number: u32,
)
    ensures
        ({
            let t = (ErrorView::Memory { addr, reason }).message();
            &&& t.take(15) == "memory fault @ "@
            &&& t.subrange(15, 17) == seq!['0', 'x']
            &&& text::hex_value(t.subrange(17, 33)) == addr
            &&& t.subrange(33, 35) == seq![':', ' ']
            &&& t.skip(35) == reason
        }),
        ({
            let e = (ErrorView::UnsupportedSyscall { class, number });
            text::dec(number as nat).is_suffix_of(e.message())
        }),
{
    reveal_strlit("memory fault @ ");
    reveal_strlit(": ");
    let a = text::address_text(addr);
    digits::addresses_are_printed_in_full(addr);
    let t = (ErrorView::Memory { addr, reason }).message();
    assert(t.take(15) =~= "memory fault @ "@);
    assert(t.subrange(15, 17) =~= a.take(2));
    assert(t.subrange(17, 33) =~= a.skip(2));
    assert(t.subrange(33, 35) =~= seq![':', ' ']);
    assert(t.skip(35) =~= reason);
    let u = (ErrorView::UnsupportedSyscall { class, number }).message();
    let d = text::dec(number as nat);
    assert(u.subrange(u.len() - d.len(), u.len() as int) =~= d);
}

/// A protection is printed as three letters, with a dash for what is not granted.
pub proof fn protections_are_printed_as_letters(p: Protection)
    ensures
        p.letters().len() == 3,
        p.0 % 2 == 1 ==> p.letters()[0] == 'r',
        p.0 % 2 == 0 ==> p.letters()[0] == '-',
        p.0 / 2 % 2 == 1 ==> p.letters()[1] == 'w',
        p.0 / 2 % 2 == 0 ==> p.letters()[1] == '-',
        p.0 / 4 % 2 == 1 ==> p.letters()[2] == 'x',
        p.0 / 4 % 2 == 0 ==> p.letters()[2] == '-',
{
    crate::memory::laws::protections_are_bits(p);
}

} // verus!
