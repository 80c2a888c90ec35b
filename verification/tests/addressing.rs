use ios_emu::common::error::{IoError, IoErrorKind};
use ios_emu::common::{align_down, align_up, EmuError, GuestAddr, Protection, SyscallClass, PAGE_SIZE};

#[test]
fn alignment_helpers() {
    assert_eq!(align_up(1, PAGE_SIZE), PAGE_SIZE);
    assert_eq!(align_up(PAGE_SIZE, PAGE_SIZE), PAGE_SIZE);
    assert_eq!(align_down(PAGE_SIZE + 1, PAGE_SIZE), PAGE_SIZE);
    assert_eq!(align_down(0x4001, 0x4000), 0x4000);
}

#[test]
fn rounding_brackets_the_value() {
    for v in [0u64, 1, 15, 16, 17, 0x3fff, 0x4000, 0x4001] {
        for a in [1u64, 2, 16, 0x4000] {
            let down = align_down(v, a);
            let up = align_up(v, a);
            assert!(down <= v && v <= up);
            assert_eq!(down % a, 0);
            assert_eq!(up % a, 0);
            assert!(up - down == 0 || up - down == a);
        }
    }
}

#[test]
fn addresses_move_and_compare() {
    let a = GuestAddr(0x1000);
    assert!(GuestAddr::null().is_null());
    assert!(!a.is_null());
    assert_eq!((a + 0x23).raw(), 0x1023);
    assert_eq!((a + 0x23) - a, 0x23);
    assert_eq!(GuestAddr(0x1023).align_down(0x10).raw(), 0x1020);
    assert_eq!(GuestAddr(0x1023).align_up(0x10).raw(), 0x1030);
    assert_eq!(a.checked_add(1), Some(GuestAddr(0x1001)));
    assert_eq!(GuestAddr(u64::MAX).checked_add(1), None);
    assert_eq!(GuestAddr(0x1_0000_0040).text(), "0x0000000100000040");
    assert_eq!(GuestAddr::default(), GuestAddr(0));
}

#[test]
fn protections_contain_and_print() {
    assert_eq!(Protection::rw(), Protection(3));
    assert_eq!(Protection::rx(), Protection(5));
    assert!(Protection::rw().contains(Protection::read()));
    assert!(Protection::rw().contains(Protection::write()));
    assert!(!Protection::rw().contains(Protection::exec()));
    assert!(Protection::none().contains(Protection::none()));
    assert_eq!(Protection::from_vm_prot(0xffff_fff5), Protection::rx());
    assert_eq!(Protection::rw().text(), "rw-");
    assert_eq!(Protection::rx().text(), "r-x");
    assert_eq!(Protection::none().text(), "---");
}

#[test]
fn errors_print_their_domain() {
    let cases = vec![
        (EmuError::MachO("m".to_string()), "mach-o: m"),
        (EmuError::Dyld("d".to_string()), "dyld: d"),
        (
            EmuError::Memory { addr: 0x1234, reason: "unmapped" },
            "memory fault @ 0x0000000000001234: unmapped",
        ),
        (
            EmuError::UnsupportedSyscall { class: SyscallClass::Mach, number: 107 },
            "unsupported mach syscall #107",
        ),
        (EmuError::Vfs("v".to_string()), "vfs: v"),
        (EmuError::Plist("p".to_string()), "plist: p"),
        (EmuError::Archive("a".to_string()), "archive: a"),
        (EmuError::ObjC("o".to_string()), "objc: o"),
        (EmuError::Internal("i".to_string()), "internal: i"),
    ];
    for (e, text) in cases {
        assert_eq!(e.message(), text);
        assert!(e.source().is_none());
    }
    let io = EmuError::from(IoError { kind: IoErrorKind::NotFound, message: "gone".to_string() });
    assert_eq!(io.message(), "io: gone");
    assert_eq!(io.source().map(|e| e.kind), Some(IoErrorKind::NotFound));
    assert_eq!(SyscallClass::Unix.name(), "unix");
    assert_eq!(SyscallClass::MachDep.name(), "machdep");
    assert_eq!(SyscallClass::Diag.name(), "diag");
}
