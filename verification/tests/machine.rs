use ios_emu::common::error::{IoError, IoErrorKind};
use ios_emu::common::{EmuError, GuestAddr, Protection};
use ios_emu::hle::HleEnvironment;
use ios_emu::kernel::cpu::{CpuContext, ExecEvent, Executor, NativeExecutor, ScriptedExecutor};
use ios_emu::kernel::env::NullEnvironment;
use ios_emu::kernel::fd::{FdObject, FdTable};
use ios_emu::kernel::host::{HostReply, HostRequest, LogLevel, LogTarget, SeekPos};
use ios_emu::kernel::machine::{Machine, MachineConfig, Stop};
use ios_emu::kernel::process::{image_end, image_slide, image_span, resolve_entry};
use ios_emu::kernel::syscall::decode;
use ios_emu::common::SyscallClass;
use ios_emu::loader::macho::image::{EntryPoint, MachOImage, Segment};
use ios_emu::memory::RegionKind;
use ios_emu::vfs::Sandbox;

const MH_MAGIC_64: u32 = 0xfeed_facf;
const CPU_TYPE_ARM64: u32 = 0x0100_000c;
const MH_EXECUTE: u32 = 0x2;
const MH_PIE: u32 = 0x0020_0000;
const LC_SEGMENT_64: u32 = 0x19;
const LC_MAIN: u32 = 0x28 | 0x8000_0000;
const LC_ENCRYPTION_INFO_64: u32 = 0x2c;
const LC_DYLD_INFO_ONLY: u32 = 0x8000_0022;

fn segment(name: &str, vmaddr: u64, vmsize: u64, fileoff: u64, filesize: u64, prot: u32) -> Vec<u8> {
    let mut cmd = Vec::new();
    cmd.extend_from_slice(&LC_SEGMENT_64.to_le_bytes());
    cmd.extend_from_slice(&72u32.to_le_bytes());
    let mut n = [0u8; 16];
    n[..name.len()].copy_from_slice(name.as_bytes());
    cmd.extend_from_slice(&n);
    cmd.extend_from_slice(&vmaddr.to_le_bytes());
    cmd.extend_from_slice(&vmsize.to_le_bytes());
    cmd.extend_from_slice(&fileoff.to_le_bytes());
    cmd.extend_from_slice(&filesize.to_le_bytes());
    cmd.extend_from_slice(&prot.to_le_bytes());
    cmd.extend_from_slice(&prot.to_le_bytes());
    cmd.extend_from_slice(&0u32.to_le_bytes());
    cmd.extend_from_slice(&0u32.to_le_bytes());
    cmd
}

fn main_command(entryoff: u64) -> Vec<u8> {
    let mut cmd = Vec::new();
    cmd.extend_from_slice(&LC_MAIN.to_le_bytes());
    cmd.extend_from_slice(&24u32.to_le_bytes());
    cmd.extend_from_slice(&entryoff.to_le_bytes());
    cmd.extend_from_slice(&0u64.to_le_bytes());
    cmd
}

fn assemble(cmds: &[Vec<u8>], tail: &[u8]) -> Vec<u8> {
    let size: usize = cmds.iter().map(|c| c.len()).sum();
    let mut out = Vec::new();
    out.extend_from_slice(&MH_MAGIC_64.to_le_bytes());
    out.extend_from_slice(&CPU_TYPE_ARM64.to_le_bytes());
    out.extend_from_slice(&0u32.to_le_bytes());
    out.extend_from_slice(&MH_EXECUTE.to_le_bytes());
    out.extend_from_slice(&(cmds.len() as u32).to_le_bytes());
    out.extend_from_slice(&(size as u32).to_le_bytes());
    out.extend_from_slice(&MH_PIE.to_le_bytes());
    out.extend_from_slice(&0u32.to_le_bytes());
    for c in cmds {
        out.extend_from_slice(c);
    }
    out.extend_from_slice(tail);
    if out.len() < 0x80 {
        out.resize(0x80, 0);
    }
    out
}

fn build_macho() -> Vec<u8> {
    assemble(
        &[
            segment("__PAGEZERO", 0, 0x1_0000_0000, 0, 0, 0),
            segment("__TEXT", 0x1_0000_0000, 0x4000, 0, 0x80, 5),
            main_command(0x40),
        ],
        &[],
    )
}

fn sandbox() -> Sandbox {
    Sandbox::prepare("/tmp/ios-emu-e2e", "/tmp/ios-emu-e2e/System", "E2E", "E2E-UUID")
}

/// A machine with a small heap, a scratch page and nothing else of note.
fn bare_machine() -> Machine<NullEnvironment> {
    let file = assemble(
        &[segment("__TEXT", 0x1_4000_0000, 0x4000, 0, 0x80, 5), main_command(0x40)],
        &[],
    );
    let mut cfg = MachineConfig::default();
    cfg.heap_base = GuestAddr(0x1_2000_0000);
    cfg.heap_size = 0x10000;
    let vfs = Sandbox::prepare("/tmp/ios-emu-machine", "/tmp/ios-emu-machine/sys", "T", "UUID");
    let mut m = Machine::load_bare(&cfg, &file, vfs).unwrap();
    m.mem
        .map(GuestAddr(0x1_0000_0000), 0x4000, Protection::rw(), RegionKind::Stack, "scratch")
        .unwrap();
    m.cpu = CpuContext::default();
    m.log.clear();
    m
}

fn exit_code(s: Stop) -> i32 {
    match s {
        Stop::Exit(e) => e.code,
        Stop::Host(r) => panic!("unexpected request {r:?}"),
    }
}

fn seg(name: &str, vmaddr: u64, vmsize: u64) -> Segment {
    Segment {
        name: name.into(),
        vmaddr,
        vmsize,
        fileoff: 0,
        filesize: vmsize,
        initprot: Protection::rw(),
        maxprot: Protection::rw(),
        sections: vec![],
    }
}

fn image(entry: EntryPoint) -> MachOImage {
    MachOImage {
        cpu_subtype: 0,
        filetype: 2,
        flags: 0x0020_0000,
        segments: vec![
            seg("__PAGEZERO", 0, 0x1_0000_0000),
            seg("__TEXT", 0x1_0000_0000, 0x8000),
            seg("__DATA", 0x1_0000_8000, 0x4000),
        ],
        dylibs: vec![],
        dylinker: None,
        entry: Some(entry),
        symtab: None,
        dyld_info: None,
        encryption: None,
        uuid: None,
        function_starts: None,
        min_os_version: None,
    }
}

#[test]
fn span_excludes_pagezero() {
    let (base, len) = image_span(&image(EntryPoint::Main { file_offset: 0, stack_size: 0 }));
    assert_eq!(base, 0x1_0000_0000);
    assert_eq!(len, 0xC000);
}

#[test]
fn slide_relocates_lc_main_entry() {
    let img = image(EntryPoint::Main { file_offset: 0x100, stack_size: 0 });
    let slide = 0x2_0000_0000u64.wrapping_sub(0x1_0000_0000);
    assert_eq!(resolve_entry(&img, slide).unwrap().raw(), 0x2_0000_0100);
}

#[test]
fn slide_relocates_thread_pc() {
    let img = image(EntryPoint::Thread { vmaddr: 0x1_0019_2918 });
    let slide = 0x3_0000_0000u64.wrapping_sub(0x1_0000_0000);
    assert_eq!(resolve_entry(&img, slide).unwrap().raw(), 0x3_0019_2918);
}

#[test]
fn reservations_determine_the_slide() {
    let mut img = image(EntryPoint::Main { file_offset: 0x100, stack_size: 0 });
    assert_eq!(image_end(&img), 0x1_0000_C000);
    assert_eq!(image_slide(&img, GuestAddr(0x2_0000_0000)), 0x1_0000_0000);
    assert_eq!(image_slide(&img, GuestAddr(0x1_0000_0000)), 0);
    img.entry = None;
    assert!(matches!(resolve_entry(&img, 0), Err(EmuError::MachO(_))));
}

#[test]
fn exit_syscall_stops_the_loop() {
    let mut m = bare_machine();
    m.cpu.x[16] = 1;
    m.cpu.x[0] = 42;
    let mut exec = ScriptedExecutor::new(vec![ExecEvent::Syscall { imm: 0x80 }]);
    let exit = m.run(&mut exec).unwrap();
    assert_eq!(exit_code(exit), 42);
}

#[test]
fn dyld_stub_binder_resolves_patches_and_jumps() {
    let mut m = bare_machine();
    let sp = GuestAddr(0x1_0000_0000);
    let la_ptr = GuestAddr(0x1_0000_0100);
    let lazy_offset = 0x40u64;

    m.mem.write_u64(sp, lazy_offset).unwrap();
    m.mem.write_u64(GuestAddr(sp.raw() + 8), 0xdead_beef).unwrap();
    m.lazy_binds.insert(lazy_offset, ("objc_msgSend".to_string(), la_ptr));
    m.symbol_stubs.insert("objc_msgSend".to_string(), 0x5_0000_0000);

    m.cpu.x[0] = 0x1111;
    m.cpu.x[1] = 0x2222;
    m.cpu.sp = sp.raw();
    m.cpu.lr = 0x1234;

    m.dyld_stub_binder();

    assert_eq!(m.cpu.pc, 0x5_0000_0000);
    assert_eq!(m.cpu.sp, sp.raw() + 16);
    assert_eq!(m.mem.read_u64(la_ptr).unwrap(), 0x5_0000_0000);
    assert_eq!(m.cpu.x[0], 0x1111);
    assert_eq!(m.cpu.x[1], 0x2222);
}

#[test]
fn unknown_lazy_bindings_return_to_the_caller() {
    let mut m = bare_machine();
    m.cpu.sp = 0x1_0000_0000;
    m.cpu.lr = 0x1234;
    m.dyld_stub_binder();
    assert_eq!(m.cpu.pc, 0x1234);
    assert_eq!(m.cpu.sp, 0x1_0000_0000);
    m.cpu.sp = 0x10;
    m.cpu.pc = 0;
    m.dyld_stub_binder();
    assert_eq!(m.cpu.pc, 0x1234);
}

#[test]
fn write_syscall_reports_length() {
    let mut m = bare_machine();
    let buf = GuestAddr(0x1_0000_0000);
    m.mem.write(buf, b"hi").unwrap();
    m.cpu.x[16] = 4;
    m.cpu.x[0] = 1;
    m.cpu.x[1] = buf.raw();
    m.cpu.x[2] = 2;
    let mut exec = ScriptedExecutor::new(vec![
        ExecEvent::Syscall { imm: 0x80 },
        ExecEvent::Exited { code: 0 },
    ]);
    m.run(&mut exec).unwrap();
    assert_eq!(m.cpu.x[0], 2);
    assert_eq!(m.log.len(), 1);
    assert_eq!(m.log[0].target, LogTarget::Guest);
    assert_eq!(m.log[0].text, "hi");
}

#[test]
fn loads_and_reaches_entry() {
    let bytes = build_macho();
    let cfg = MachineConfig::default();
    let machine = Machine::load_bare(&cfg, &bytes, sandbox()).expect("load");
    assert_eq!(machine.entry.raw(), 0x1_0000_0040);
}

#[test]
fn run_loop_services_exit() {
    let bytes = build_macho();
    let cfg = MachineConfig::default();
    let mut machine = Machine::load_bare(&cfg, &bytes, sandbox()).expect("load");

    machine.cpu.x[16] = 1;
    machine.cpu.x[0] = 7;
    let mut exec = ScriptedExecutor::new(vec![ExecEvent::Syscall { imm: 0x80 }]);
    let exit = machine.run(&mut exec).expect("run");
    assert_eq!(exit_code(exit), 7);
}

#[test]
fn main_finds_its_arguments() {
    let mut machine = Machine::load_bare(&MachineConfig::default(), &build_macho(), sandbox()).unwrap();
    machine.cpu.x[0] = 99;
    machine.reset_to_entry();
    assert_eq!(machine.cpu.pc, 0x1_0000_0040);
    assert_eq!(machine.cpu.x[0], 1);
    assert_eq!(machine.cpu.sp % 16, 0);
    let argv = machine.cpu.x[1];
    let argv0 = machine.mem.read_u64(GuestAddr(argv)).unwrap();
    let path = machine.mem.read_cstr(GuestAddr(argv0), 1024).unwrap();
    assert_eq!(path, "/var/mobile/Applications/E2E-UUID/E2E.app/Executable");
    assert_eq!(machine.mem.read_u64(GuestAddr(argv + 8)).unwrap(), 0);
    assert_eq!(machine.cpu.pc_addr().raw(), 0x1_0000_0040);
}

#[test]
fn encrypted_images_are_refused() {
    let mut enc = Vec::new();
    enc.extend_from_slice(&LC_ENCRYPTION_INFO_64.to_le_bytes());
    enc.extend_from_slice(&24u32.to_le_bytes());
    for v in [0x1000u32, 0x1000, 1, 0] {
        enc.extend_from_slice(&v.to_le_bytes());
    }
    let file = assemble(
        &[segment("__TEXT", 0x1_0000_0000, 0x4000, 0, 0x80, 5), main_command(0x40), enc],
        &[],
    );
    assert!(Machine::load_bare(&MachineConfig::default(), &file, sandbox()).is_err());
}

/// An image with one eager and one lazy import, both in `__DATA`.
fn importing_image() -> Vec<u8> {
    let bind: Vec<u8> = vec![
        0x11, 0x40, b'm', b'a', b'l', b'l', b'o', b'c', 0, 0x51, 0x71, 0x00, 0x90, 0x00, 0x00, 0x00,
    ];
    let lazy: Vec<u8> = vec![
        0x71, 0x08, 0x40, b'n', b'o', b'n', b'e', 0, 0x90, 0x00, 0x00, 0x00, 0x00, 0x00, 0x00, 0x00,
    ];
    let header = 32 + 72 + 72 + 24 + 48;
    let mut info = Vec::new();
    info.extend_from_slice(&LC_DYLD_INFO_ONLY.to_le_bytes());
    info.extend_from_slice(&48u32.to_le_bytes());
    for v in [
        0u32,
        0,
        header as u32,
        bind.len() as u32,
        (header + bind.len()) as u32,
        lazy.len() as u32,
        0,
        0,
        0,
        0,
    ] {
        info.extend_from_slice(&v.to_le_bytes());
    }
    let mut tail = bind;
    tail.extend_from_slice(&lazy);
    assemble(
        &[
            segment("__TEXT", 0x1_0000_0000, 0x4000, 0, 0x80, 5),
            segment("__DATA", 0x1_0000_4000, 0x4000, 0, 0, 3),
            main_command(0x40),
            info,
        ],
        &tail,
    )
}

#[test]
fn imports_are_bound_to_trampolines() {
    let file = importing_image();
    let m = Machine::load(&MachineConfig::default(), &file, sandbox(), HleEnvironment::new()).unwrap();
    let malloc = m.mem.read_u64(GuestAddr(0x1_0000_4000)).unwrap();
    assert!(m.is_trampoline(GuestAddr(malloc)));
    assert!(!m.is_trampoline(GuestAddr(0x1_0000_4000)));
    assert_eq!(m.trampolines.get(&malloc).map(String::as_str), Some("malloc"));
    assert_eq!(m.mem.read_u32(GuestAddr(malloc)).unwrap(), 0xD420_0000);
    assert_eq!(m.symbol_stubs.get("malloc"), Some(&malloc));
    let lazy = m.mem.read_u64(GuestAddr(0x1_0000_4008)).unwrap();
    assert_eq!(m.trampolines.get(&lazy).map(String::as_str), Some("none"));
    assert_eq!(m.lazy_binds.get(&0), Some(&("none".to_string(), GuestAddr(0x1_0000_4008))));
}

#[test]
fn writable_memory_is_not_executable() {
    let file = importing_image();
    let m = Machine::load_bare(&MachineConfig::default(), &file, sandbox()).unwrap();
    for r in m.mem.regions() {
        assert!(!(r.prot.contains(Protection::write()) && r.prot.contains(Protection::exec())));
    }
    assert!(m.mem.regions().iter().any(|r| r.name == "__stubs" && r.prot == Protection::rx()));
    for a in m.trampolines.keys() {
        assert!(m.is_trampoline(GuestAddr(*a)));
    }
}

#[test]
fn segments_may_not_exceed_their_size() {
    let file = assemble(
        &[segment("__TEXT", 0x1_0000_0000, 0x40, 0, 0x80, 5), main_command(0x40)],
        &[],
    );
    match Machine::load_bare(&MachineConfig::default(), &file, sandbox()) {
        Err(e) => assert_eq!(
            e.message(),
            "memory fault @ 0x0000000100000000: init data exceeds region"
        ),
        Ok(_) => panic!("the image was accepted"),
    }
}

#[test]
fn import_calls_are_serviced_and_logged() {
    let file = importing_image();
    let mut m =
        Machine::load(&MachineConfig::default(), &file, sandbox(), HleEnvironment::new()).unwrap();
    m.start_environment();
    let malloc = m.mem.read_u64(GuestAddr(0x1_0000_4000)).unwrap();
    m.cpu.x[0] = 32;
    m.cpu.lr = 0x1_0000_0050;
    assert!(m.step(ExecEvent::TrampolineCall { addr: GuestAddr(malloc) }).is_none());
    let p = m.cpu.x[0];
    assert!(p >= 0x1_2000_0000);
    assert_eq!(m.cpu.pc, 0x1_0000_0050);
    assert_eq!(m.log[1].target, LogTarget::Import);
    assert_eq!(m.log[1].level, LogLevel::Info);
    assert_eq!(
        m.log[1].text,
        format!("call malloc (stub {malloc:#018x}, from lr 0x0000000100000050)")
    );
}

#[test]
fn unimplemented_imports_answer_zero() {
    let file = importing_image();
    let mut m = Machine::load_bare(&MachineConfig::default(), &file, sandbox()).unwrap();
    let malloc = m.mem.read_u64(GuestAddr(0x1_0000_4000)).unwrap();
    m.cpu.x[0] = 32;
    m.cpu.x[1] = 5;
    m.cpu.lr = 0x1_0000_0050;
    assert!(m.step(ExecEvent::TrampolineCall { addr: GuestAddr(malloc) }).is_none());
    assert_eq!(m.cpu.x[0], 0);
    assert_eq!(m.cpu.x[1], 5);
    assert_eq!(m.cpu.pc, 0x1_0000_0050);
    assert_eq!(m.log[2].target, LogTarget::Stub);
    assert_eq!(m.log[2].level, LogLevel::Warn);
    assert_eq!(m.log[2].text, "unimplemented import malloc; returning 0");
}

#[test]
fn other_events_stop_the_loop() {
    let mut m = bare_machine();
    let mut exec = ScriptedExecutor::new(vec![ExecEvent::Breakpoint { imm: 1 }]);
    m.cpu.pc = 0x44;
    assert_eq!(exit_code(m.run(&mut exec).unwrap()), 133);
    assert_eq!(m.log[0].level, LogLevel::Error);
    assert_eq!(m.log[0].target, LogTarget::Emulator);
    assert_eq!(m.log[0].text, "guest BRK #1 at 0x0000000000000044");
    let mut exec = ScriptedExecutor::new(vec![ExecEvent::Fault {
        pc: GuestAddr(0x44),
        reason: "bad instruction",
    }]);
    match m.run(&mut exec) {
        Err(e) => assert_eq!(e.message(), "memory fault @ 0x0000000000000044: bad instruction"),
        Ok(s) => panic!("unexpected stop {s:?}"),
    }
    let mut native = NativeExecutor::new();
    assert!(matches!(native.resume(&mut m.cpu), ExecEvent::Fault { .. }));
    assert!(m.run(&mut native).is_err());
}

#[test]
fn unknown_syscalls_are_logged_and_answered() {
    let mut m = bare_machine();
    m.cpu.x[16] = 999;
    assert!(m.step(ExecEvent::Syscall { imm: 0x80 }).is_none());
    assert_eq!(m.cpu.x[0], 78);
    assert_ne!(m.cpu.nzcv & 0x2000_0000, 0);
    assert_eq!(m.log[0].target, LogTarget::Stub);
    assert_eq!(m.log[0].text, "STUB syscall unix#999");
    m.cpu.x[16] = 0u64.wrapping_sub(999);
    assert!(m.step(ExecEvent::Syscall { imm: 0x80 }).is_none());
    assert_eq!(m.cpu.x[0], 0);
    assert_eq!(m.cpu.nzcv & 0x2000_0000, 0);
    assert_eq!(m.log[1].text, "STUB syscall mach#999");
    m.cpu.x[16] = 0x0300_0007;
    assert!(m.step(ExecEvent::Syscall { imm: 0x80 }).is_none());
    assert_eq!(m.log[2].text, "STUB syscall machdep#7");
    assert_eq!(m.dispatcher.serviced, 3);
    assert_eq!(m.dispatcher.stubbed, 3);
}

#[test]
fn selectors_are_decoded() {
    assert_eq!(decode(4), (SyscallClass::Unix, 4));
    assert_eq!(decode(0x200_0004), (SyscallClass::Unix, 4));
    assert_eq!(decode(0u64.wrapping_sub(31)), (SyscallClass::Mach, 31));
    assert_eq!(decode(0x100_001f), (SyscallClass::Mach, 31));
    assert_eq!(decode(0x400_0001), (SyscallClass::Diag, 1));
}

fn request(s: Option<Result<Stop, EmuError>>) -> HostRequest {
    match s {
        Some(Ok(Stop::Host(r))) => r,
        other => panic!("no request: {other:?}"),
    }
}

#[test]
fn files_are_opened_read_and_closed_through_the_host() {
    let mut m = bare_machine();
    let path = GuestAddr(0x1_0000_0000);
    let buf = 0x1_0000_0200u64;
    m.mem.write(path, b"/var/mobile/Applications/UUID/Documents/a.txt\0").unwrap();

    m.cpu.x[16] = 5;
    m.cpu.x[0] = path.raw();
    m.cpu.x[1] = 0x0202;
    let r = request(m.step(ExecEvent::Syscall { imm: 0x80 }));
    match &r {
        HostRequest::Open { path, options } => {
            assert!(path.ends_with("Documents/a.txt"));
            assert!(options.read && options.write && options.create);
            assert!(!options.truncate && !options.append && !options.create_new);
        }
        other => panic!("not an open: {other:?}"),
    }
    m.complete(&r, HostReply::Opened(Ok(77)));
    assert_eq!(m.cpu.x[0], 3);

    m.cpu.x[16] = 3;
    m.cpu.x[0] = 3;
    m.cpu.x[1] = buf;
    m.cpu.x[2] = 4;
    let r = request(m.step(ExecEvent::Syscall { imm: 0x80 }));
    assert!(matches!(r, HostRequest::Read { file: 77, count: 4, .. }));
    m.complete(&r, HostReply::Read(Ok(vec![9, 8, 7])));
    assert_eq!(m.cpu.x[0], 3);
    assert_eq!(m.mem.read_vec(GuestAddr(buf), 4).unwrap(), vec![9, 8, 7, 0]);

    m.cpu.x[16] = 4;
    m.cpu.x[0] = 3;
    m.cpu.x[1] = buf;
    m.cpu.x[2] = 2;
    let r = request(m.step(ExecEvent::Syscall { imm: 0x80 }));
    match &r {
        HostRequest::Write { file, chunks, result } => {
            assert_eq!(*file, 77);
            assert_eq!(chunks, &vec![vec![9, 8]]);
            assert_eq!(*result, Ok(2));
        }
        other => panic!("not a write: {other:?}"),
    }
    m.complete(&r, HostReply::Written(Ok(())));
    assert_eq!(m.cpu.x[0], 2);

    m.cpu.x[16] = 199;
    m.cpu.x[0] = 3;
    m.cpu.x[1] = 0u64.wrapping_sub(1);
    m.cpu.x[2] = 2;
    let r = request(m.step(ExecEvent::Syscall { imm: 0x80 }));
    assert!(matches!(r, HostRequest::Seek { file: 77, pos: SeekPos::End(-1) }));
    m.complete(
        &r,
        HostReply::Position(Err(IoError {
            kind: IoErrorKind::InvalidInput,
            message: String::new(),
        })),
    );
    assert_eq!(m.cpu.x[0], 22);

    m.cpu.x[16] = 6;
    m.cpu.x[0] = 3;
    let r = request(m.step(ExecEvent::Syscall { imm: 0x80 }));
    assert!(matches!(r, HostRequest::Close { file: 77 }));
    m.complete(&r, HostReply::Closed);
    assert_eq!(m.cpu.x[0], 0);

    m.cpu.x[16] = 6;
    m.cpu.x[0] = 3;
    assert!(m.step(ExecEvent::Syscall { imm: 0x80 }).is_none());
    assert_eq!(m.cpu.x[0], 9);
}

#[test]
fn the_system_image_is_read_only() {
    let mut m = bare_machine();
    let path = GuestAddr(0x1_0000_0000);
    m.mem.write(path, b"/System/Library/x\0").unwrap();
    m.cpu.x[16] = 5;
    m.cpu.x[0] = path.raw();
    m.cpu.x[1] = 1;
    assert!(m.step(ExecEvent::Syscall { imm: 0x80 }).is_none());
    assert_eq!(m.cpu.x[0], 30);
    m.mem.write(path, b"/../x\0").unwrap();
    m.cpu.x[0] = path.raw();
    assert!(m.step(ExecEvent::Syscall { imm: 0x80 }).is_none());
    assert_eq!(m.cpu.x[0], 2);
    m.cpu.x[0] = 0;
    assert!(m.step(ExecEvent::Syscall { imm: 0x80 }).is_none());
    assert_eq!(m.cpu.x[0], 14);
}

#[test]
fn memory_and_identity_calls() {
    let mut m = bare_machine();
    m.cpu.x[16] = 197;
    m.cpu.x[1] = 0x4000;
    m.cpu.x[2] = 3;
    m.cpu.x[3] = 0x1000;
    assert!(m.step(ExecEvent::Syscall { imm: 0x80 }).is_none());
    let a = m.cpu.x[0];
    m.mem.write_u32(GuestAddr(a), 5).unwrap();
    m.cpu.x[16] = 74;
    m.cpu.x[0] = a;
    m.cpu.x[2] = 1;
    assert!(m.step(ExecEvent::Syscall { imm: 0x80 }).is_none());
    assert_eq!(m.cpu.x[0], 0);
    assert!(m.mem.write_u32(GuestAddr(a), 6).is_err());
    m.cpu.x[16] = 197;
    m.cpu.x[3] = 0;
    assert!(m.step(ExecEvent::Syscall { imm: 0x80 }).is_none());
    assert_eq!(m.cpu.x[0], 78);
    for (n, v) in [(20u64, 1u64), (24, 501), (25, 501), (47, 501), (43, 501), (327, 0)] {
        m.cpu.x[16] = n;
        assert!(m.step(ExecEvent::Syscall { imm: 0x80 }).is_none());
        assert_eq!(m.cpu.x[0], v);
    }
    m.cpu.x[16] = 0u64.wrapping_sub(28);
    assert!(m.step(ExecEvent::Syscall { imm: 0x80 }).is_none());
    assert_eq!(m.cpu.x[0], 0x103);
}

#[test]
fn clock_and_entropy_come_from_the_host() {
    let mut m = bare_machine();
    let at = 0x1_0000_0100u64;
    m.cpu.x[16] = 116;
    m.cpu.x[0] = at;
    let r = request(m.step(ExecEvent::Syscall { imm: 0x80 }));
    m.complete(&r, HostReply::Clock { secs: 1_700_000_000, micros: 250_000 });
    assert_eq!(m.cpu.x[0], 0);
    assert_eq!(m.mem.read_u64(GuestAddr(at)).unwrap(), 1_700_000_000);
    assert_eq!(m.mem.read_u32(GuestAddr(at + 8)).unwrap(), 250_000);

    m.cpu.x[16] = 500;
    m.cpu.x[0] = at;
    m.cpu.x[1] = 12;
    let r = request(m.step(ExecEvent::Syscall { imm: 0x80 }));
    m.complete(&r, HostReply::Nanos(Some(2)));
    assert_eq!(m.cpu.x[0], 0);
    let mut s = 3u64;
    s ^= s << 13;
    s ^= s >> 7;
    s ^= s << 17;
    assert_eq!(m.mem.read_u64(GuestAddr(at)).unwrap(), s);
    m.cpu.x[0] = at;
    m.cpu.x[1] = 257;
    assert!(m.step(ExecEvent::Syscall { imm: 0x80 }).is_none());
    assert_eq!(m.cpu.x[0], 22);
}

#[test]
fn gathered_writes_report_the_sum() {
    let mut m = bare_machine();
    let iov = GuestAddr(0x1_0000_0000);
    m.mem.write(GuestAddr(0x1_0000_0100), b"abcd\n").unwrap();
    m.mem.write_u64(iov, 0x1_0000_0100).unwrap();
    m.mem.write_u64(iov + 8, 2).unwrap();
    m.mem.write_u64(iov + 16, 0x1_0000_0102).unwrap();
    m.mem.write_u64(iov + 24, 3).unwrap();
    m.cpu.x[16] = 121;
    m.cpu.x[0] = 2;
    m.cpu.x[1] = iov.raw();
    m.cpu.x[2] = 2;
    assert!(m.step(ExecEvent::Syscall { imm: 0x80 }).is_none());
    assert_eq!(m.cpu.x[0], 5);
    assert_eq!(m.log[0].text, "ab");
    assert_eq!(m.log[1].text, "cd");
}

#[test]
fn malformed_output_is_replaced() {
    let mut m = bare_machine();
    let buf = GuestAddr(0x1_0000_0000);
    m.mem.write(buf, b"x\xffy\n").unwrap();
    m.cpu.x[16] = 4;
    m.cpu.x[0] = 1;
    m.cpu.x[1] = buf.raw();
    m.cpu.x[2] = 4;
    assert!(m.step(ExecEvent::Syscall { imm: 0x80 }).is_none());
    assert_eq!(m.log[0].text, "x\u{fffd}y");
}

#[test]
fn descriptors_are_reused_lowest_first() {
    let mut t = FdTable::default();
    assert!(t.contains(0) && t.contains(1) && t.contains(2));
    assert_eq!(t.insert(FdObject::File(10)), 3);
    assert_eq!(t.insert(FdObject::Dir(11)), 4);
    assert!(t.close(3));
    assert!(!t.close(3));
    assert_eq!(t.get(3), None);
    assert_eq!(t.lowest_free(), Some(3));
    assert_eq!(t.insert(FdObject::File(12)), 3);
    assert_eq!(t.get(3), Some(FdObject::File(12)));
    if let Some(o) = t.get_mut(3) {
        *o = FdObject::Stdout;
    }
    assert_eq!(t.get(3), Some(FdObject::Stdout));
}

#[test]
fn carry_reports_failure() {
    let mut c = CpuContext::entry(0x10, 0x20, [1, 2, 3, 4]);
    assert_eq!((c.pc, c.sp, c.arg(0), c.arg(3)), (0x10, 0x20, 1, 4));
    c.set_syscall_result(Err(9));
    assert_eq!(c.x[0], 9);
    assert_ne!(c.nzcv & 0x2000_0000, 0);
    c.set_syscall_result(Ok(5));
    assert_eq!(c.x[0], 5);
    assert_eq!(c.nzcv & 0x2000_0000, 0);
    c.set_ret(8);
    assert_eq!(c.arg(0), 8);
}

#[test]
fn loading_is_logged() {
    let m = Machine::load_bare(&MachineConfig::default(), &importing_image(), sandbox()).unwrap();
    assert_eq!(m.log.len(), 1);
    assert_eq!((m.log[0].level, m.log[0].target), (LogLevel::Info, LogTarget::Emulator));
    assert_eq!(m.log[0].text, "loaded Mach-O: 2 segments, 0 dylibs, pie=true");

    // The eager import goes to a segment that is not there.
    let mut file = importing_image();
    let bind = 32 + 72 + 72 + 24 + 48;
    assert_eq!(file[bind + 10], 0x71);
    file[bind + 10] = 0x75;
    let mut log = Vec::new();
    let cfg = MachineConfig::default();
    Machine::load_telling(&cfg, &file, sandbox(), NullEnvironment, &mut log).unwrap();
    assert_eq!(log.len(), 2);
    assert_eq!((log[1].level, log[1].target), (LogLevel::Warn, LogTarget::Emulator));
    assert_eq!(log[1].text, "bind targets unmapped segment 5");

    // Its segment is too short for it: offset 0x3fff.
    let mut file = importing_image();
    file.splice(bind + 11..bind + 12, [0xff, 0x7f]);
    file.remove(bind + 14);
    let mut log = Vec::new();
    Machine::load_telling(&cfg, &file, sandbox(), NullEnvironment, &mut log).unwrap();
    assert_eq!(log[1].text, "failed to write bind for malloc @ 0x0000000100007fff");

    // There is no room for its trampoline.
    let mut cfg = MachineConfig::default();
    cfg.trampoline_base = GuestAddr(u64::MAX - 8);
    let mut log = Vec::new();
    assert!(Machine::load_telling(&cfg, &importing_image(), sandbox(), NullEnvironment, &mut log).is_err());
    assert_eq!(log[1].text, "unresolved symbol malloc");
}

#[test]
fn binder_troubles_are_logged() {
    let mut m = bare_machine();
    m.cpu.sp = 0x40;
    m.cpu.lr = 0x1_0000_0010;
    m.dyld_stub_binder();
    assert_eq!(m.cpu.pc, 0x1_0000_0010);
    let sp = GuestAddr(0x1_0000_0100);
    m.mem.write_u64(sp, 0xa0).unwrap();
    m.cpu.sp = sp.raw();
    m.dyld_stub_binder();
    m.lazy_binds.insert(0xa0, ("puts".to_string(), GuestAddr(0x30)));
    m.dyld_stub_binder();
    m.symbol_stubs.insert("puts".to_string(), 0x5_0000_0010);
    m.dyld_stub_binder();
    assert_eq!(m.cpu.pc, 0x5_0000_0010);
    assert!(m.step(ExecEvent::TrampolineCall { addr: GuestAddr(0x5_0000_0ff0) }).is_none());
    let lines: Vec<&str> = m.log.iter().map(|l| l.text.as_str()).collect();
    assert_eq!(
        lines,
        vec![
            "dyld_stub_binder: unreadable sp 0x0000000000000040",
            "dyld_stub_binder: no lazy bind at offset 0xa0",
            "dyld_stub_binder: unresolved lazy symbol puts",
            "lazy-bind puts: la_ptr 0x0000000000000030 -> stub 0x0000000500000010",
            "dyld_stub_binder: could not patch la_ptr 0x0000000000000030",
            "call into unmapped trampoline 0x0000000500000ff0 (lr 0x0000000100000010)",
        ]
    );
    assert_eq!(m.log[0].level, LogLevel::Error);
    assert_eq!(m.log[3].target, LogTarget::Import);
    assert_eq!(m.log[4].level, LogLevel::Warn);
}

#[test]
fn file_backed_mappings_are_refused_and_logged() {
    let mut m = bare_machine();
    m.cpu.x[16] = 197;
    m.cpu.x[1] = 0x4000;
    m.cpu.x[2] = 3;
    m.cpu.x[3] = 0x2;
    assert!(m.step(ExecEvent::Syscall { imm: 0x80 }).is_none());
    assert_eq!(m.cpu.x[0], 78);
    assert_eq!((m.log[0].level, m.log[0].target), (LogLevel::Warn, LogTarget::Emulator));
    assert_eq!(
        m.log[0].text,
        "mmap of file-backed mapping is not supported; returning ENOSYS"
    );
}

#[test]
fn processes_are_laid_out_as_asked() {
    let m = Machine::load_bare(&MachineConfig::default(), &importing_image(), sandbox()).unwrap();
    let prot = |at: u64| {
        let r = m.mem.regions().iter().find(|r| r.base.raw() == at).unwrap();
        (r.size(), r.prot)
    };
    assert_eq!(prot(0x1_0000_0000), (0x4000, Protection::rx()));
    assert_eq!(prot(0x1_0000_4000), (0x4000, Protection::rw()));
    let (start, end) = m.tramp_range;
    assert_eq!(prot(start), (end - start, Protection::rx()));
    assert_eq!(m.mem.read_u32(GuestAddr(start)).unwrap(), 0xd420_0000);
    assert_eq!(m.mem.read_u32(GuestAddr(end - 4)).unwrap(), 0xd420_0000);
}

#[test]
fn undecodable_lazy_tables_are_empty() {
    let mut file = importing_image();
    let lazy = 32 + 72 + 72 + 24 + 48 + 16;
    assert_eq!(file[lazy], 0x71);
    // The operand of the first opcode reads as an open symbol to the lazy decoder.
    file[lazy] = 0xa0;
    file[lazy + 1] = 0x40;
    file[lazy + 2..lazy + 16].fill(0x90);
    let m = Machine::load_bare(&MachineConfig::default(), &file, sandbox()).unwrap();
    assert!(m.lazy_binds.is_empty());
}
