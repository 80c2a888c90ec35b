use ios_emu::common::GuestAddr;
use ios_emu::loader::dyld::bind::{
    parse_bind_info, parse_lazy_bind_info, read_cstr, read_sleb, read_uleb, BindKind,
    BIND_OPCODE_DONE, BIND_OPCODE_DO_BIND, BIND_OPCODE_DO_BIND_ADD_ADDR_IMM_SCALED,
    BIND_OPCODE_DO_BIND_ULEB_TIMES_SKIPPING_ULEB, BIND_OPCODE_SET_ADDEND_SLEB,
    BIND_OPCODE_SET_DYLIB_ORDINAL_IMM, BIND_OPCODE_SET_DYLIB_SPECIAL_IMM,
    BIND_OPCODE_SET_SEGMENT_AND_OFFSET_ULEB, BIND_OPCODE_SET_SYMBOL_TRAILING_FLAGS_IMM,
    BIND_OPCODE_SET_TYPE_IMM,
};
use ios_emu::loader::dyld::rebase::{
    parse_rebase_info, REBASE_OPCODE_DONE, REBASE_OPCODE_DO_REBASE_IMM_TIMES,
    REBASE_OPCODE_DO_REBASE_ULEB_TIMES_SKIPPING_ULEB, REBASE_OPCODE_SET_SEGMENT_AND_OFFSET_ULEB,
    REBASE_OPCODE_SET_TYPE_IMM, REBASE_TYPE_POINTER,
};
use ios_emu::loader::dyld::{StubResolver, SymbolResolver};
use ios_emu::loader::macho::image::{EntryPoint, MachOImage};
use ios_emu::loader::macho::reader::Reader;

const MH_MAGIC_64: u32 = 0xfeed_facf;
const CPU_TYPE_ARM64: u32 = 0x0100_000c;
const MH_EXECUTE: u32 = 0x2;
const MH_PIE: u32 = 0x0020_0000;
const LC_SEGMENT_64: u32 = 0x19;
const LC_MAIN: u32 = 0x28 | 0x8000_0000;

fn build_with_subtype(subtype: u32) -> Vec<u8> {
    let mut cmds = Vec::new();

    let seg_start = cmds.len();
    cmds.extend_from_slice(&LC_SEGMENT_64.to_le_bytes());
    cmds.extend_from_slice(&72u32.to_le_bytes());
    let mut segname = [0u8; 16];
    segname[.."__TEXT".len()].copy_from_slice(b"__TEXT");
    cmds.extend_from_slice(&segname);
    cmds.extend_from_slice(&0x1_0000_0000u64.to_le_bytes());
    cmds.extend_from_slice(&0x4000u64.to_le_bytes());
    cmds.extend_from_slice(&0u64.to_le_bytes());
    cmds.extend_from_slice(&0x4000u64.to_le_bytes());
    cmds.extend_from_slice(&5u32.to_le_bytes());
    cmds.extend_from_slice(&5u32.to_le_bytes());
    cmds.extend_from_slice(&0u32.to_le_bytes());
    cmds.extend_from_slice(&0u32.to_le_bytes());
    assert_eq!(cmds.len() - seg_start, 72);

    cmds.extend_from_slice(&LC_MAIN.to_le_bytes());
    cmds.extend_from_slice(&24u32.to_le_bytes());
    cmds.extend_from_slice(&0x100u64.to_le_bytes());
    cmds.extend_from_slice(&0u64.to_le_bytes());

    let mut out = Vec::new();
    out.extend_from_slice(&MH_MAGIC_64.to_le_bytes());
    out.extend_from_slice(&CPU_TYPE_ARM64.to_le_bytes());
    out.extend_from_slice(&subtype.to_le_bytes());
    out.extend_from_slice(&MH_EXECUTE.to_le_bytes());
    out.extend_from_slice(&2u32.to_le_bytes());
    out.extend_from_slice(&(cmds.len() as u32).to_le_bytes());
    out.extend_from_slice(&MH_PIE.to_le_bytes());
    out.extend_from_slice(&0u32.to_le_bytes());
    out.extend_from_slice(&cmds);
    out
}

fn build() -> Vec<u8> {
    build_with_subtype(0)
}

#[test]
fn parses_header_segment_and_entry() {
    let bytes = build();
    let image = MachOImage::parse(&bytes).expect("parse");

    assert!(image.is_pie());
    assert_eq!(image.filetype, MH_EXECUTE);
    assert_eq!(image.segments.len(), 1);

    let text = &image.segments[0];
    assert_eq!(text.name, "__TEXT");
    assert_eq!(text.vmaddr, 0x1_0000_0000);
    assert_eq!(image.text_vmaddr(), 0x1_0000_0000);

    match image.entry.expect("entry") {
        EntryPoint::Main { file_offset, .. } => assert_eq!(file_offset, 0x100),
        other => panic!("expected LC_MAIN, got {other:?}"),
    }
    assert!(!image.is_encrypted());
}

#[test]
fn rejects_truncated_input() {
    let bytes = build();
    assert!(MachOImage::parse(&bytes[..40]).is_err());
}

#[test]
fn every_truncation_is_an_error() {
    let bytes = build();
    for n in 0..bytes.len() {
        assert!(MachOImage::parse(&bytes[..n]).is_err());
    }
}

fn fat(slices: &[(u32, Vec<u8>)]) -> Vec<u8> {
    let mut out = Vec::new();
    out.extend_from_slice(&0xcafe_babeu32.to_be_bytes());
    out.extend_from_slice(&(slices.len() as u32).to_be_bytes());
    let mut at = 8 + 20 * slices.len() as u32;
    for (subtype, s) in slices {
        out.extend_from_slice(&CPU_TYPE_ARM64.to_be_bytes());
        out.extend_from_slice(&subtype.to_be_bytes());
        out.extend_from_slice(&at.to_be_bytes());
        out.extend_from_slice(&(s.len() as u32).to_be_bytes());
        out.extend_from_slice(&0u32.to_be_bytes());
        at += s.len() as u32;
    }
    for (_, s) in slices {
        out.extend_from_slice(s);
    }
    out
}

#[test]
fn fat_archives_yield_the_preferred_slice() {
    let plain = fat(&[(0, build_with_subtype(0))]);
    assert_eq!(MachOImage::parse(&plain).unwrap().cpu_subtype, 0);
    let both = fat(&[(0, build_with_subtype(0)), (2, build_with_subtype(2))]);
    assert_eq!(MachOImage::parse(&both).unwrap().cpu_subtype, 2);
    let none = fat(&[]);
    assert!(MachOImage::parse(&none).is_err());
}

#[test]
fn other_commands_are_parsed() {
    let mut cmds: Vec<u8> = Vec::new();
    let mut count = 0u32;
    let mut push = |cmd: u32, body: &[u8]| {
        cmds.extend_from_slice(&cmd.to_le_bytes());
        cmds.extend_from_slice(&(8 + body.len() as u32).to_le_bytes());
        cmds.extend_from_slice(body);
        count += 1;
    };
    let mut seg = vec![0u8; 64];
    seg[..6].copy_from_slice(b"__TEXT");
    push(LC_SEGMENT_64, &seg);
    push(0x1b, &[7u8; 16]);
    let mut dylib = Vec::new();
    for v in [24u32, 0, 0, 0] {
        dylib.extend_from_slice(&v.to_le_bytes());
    }
    dylib.extend_from_slice(b"/usr/lib/libobjc.dylib\0\0");
    push(0x8000_0018, &dylib);
    let mut thread = Vec::new();
    thread.extend_from_slice(&6u32.to_le_bytes());
    thread.extend_from_slice(&68u32.to_le_bytes());
    thread.extend_from_slice(&[0u8; 256]);
    thread.extend_from_slice(&0x1_0000_1234u64.to_le_bytes());
    push(0x05, &thread);
    push(0x25, &0x0007_0000u32.to_le_bytes());
    push(0x7fff, &[1, 2, 3, 4]);

    let mut out = Vec::new();
    for v in [MH_MAGIC_64, CPU_TYPE_ARM64, 0, MH_EXECUTE, count, cmds.len() as u32, 0, 0] {
        out.extend_from_slice(&v.to_le_bytes());
    }
    out.extend_from_slice(&cmds);
    let image = MachOImage::parse(&out).unwrap();
    assert!(!image.is_pie());
    assert_eq!(image.uuid, Some([7u8; 16]));
    assert_eq!(image.dylibs.len(), 1);
    assert_eq!(image.dylibs[0].path, "/usr/lib/libobjc.dylib");
    assert!(image.dylibs[0].weak && !image.dylibs[0].reexport);
    assert!(matches!(image.entry, Some(EntryPoint::Thread { vmaddr: 0x1_0000_1234 })));
    assert_eq!(image.min_os_version, Some(0x0007_0000));
}

#[test]
fn sections_are_parsed() {
    let name = |text: &str| {
        let mut b = [0u8; 16];
        b[..text.len()].copy_from_slice(text.as_bytes());
        b
    };
    let mut seg = name("__DATA").to_vec();
    for v in [0x1_0000_4000u64, 0x4000, 0, 0] {
        seg.extend_from_slice(&v.to_le_bytes());
    }
    for v in [3u32, 3, 2, 0] {
        seg.extend_from_slice(&v.to_le_bytes());
    }
    for (section, flags) in [("__bss", 1u32), ("__mod_init_func", 0x109)] {
        seg.extend_from_slice(&name(section));
        seg.extend_from_slice(&name("__DATA"));
        seg.extend_from_slice(&0x1_0000_4100u64.to_le_bytes());
        seg.extend_from_slice(&0x20u64.to_le_bytes());
        for v in [0x40u32, 3, 0, 0, flags, 0, 0, 0] {
            seg.extend_from_slice(&v.to_le_bytes());
        }
    }
    let size = 8 + seg.len() as u32;
    let mut out = Vec::new();
    for v in [MH_MAGIC_64, CPU_TYPE_ARM64, 0, MH_EXECUTE, 1, size, 0, 0, LC_SEGMENT_64, size] {
        out.extend_from_slice(&v.to_le_bytes());
    }
    out.extend_from_slice(&seg);
    let image = MachOImage::parse(&out).unwrap();
    let sections = &image.segments[0].sections;
    assert_eq!(sections.len(), 2);
    assert_eq!((sections[0].name.as_str(), sections[0].seg_name.as_str()), ("__bss", "__DATA"));
    assert_eq!((sections[0].addr, sections[0].size), (0x1_0000_4100, 0x20));
    assert!(sections[0].is_zerofill() && !sections[0].is_mod_init());
    assert!(!sections[1].is_zerofill() && sections[1].is_mod_init());
}

#[test]
fn cursors_stop_at_the_end_of_the_buffer() {
    let mut p = 1;
    assert!(read_uleb(&[0, 0x80, 0x80], &mut p).is_err());
    assert_eq!(p, 3);
    let mut p = 0;
    assert_eq!(read_sleb(&[0xff], &mut p).unwrap_err().message(), "dyld: sleb truncated");
    assert_eq!(p, 1);
    let mut p = 0;
    assert!(read_cstr(b"_x", &mut p).is_err());
    assert_eq!(p, 2);
    let mut p = 7;
    assert_eq!(
        read_cstr(b"_x", &mut p).unwrap_err().message(),
        "dyld: bind symbol string not terminated"
    );
    assert_eq!(p, 7);
    assert!(read_uleb(b"_x", &mut p).is_err());
    assert_eq!(p, 7);
}

#[test]
fn unreadable_commands_change_nothing() {
    let mut image = MachOImage::parse(&build()).unwrap();
    let before = format!("{image:?}");
    let short = [0u8; 12];
    assert_eq!(
        image.parse_command(LC_MAIN, &short, 0).unwrap_err().message(),
        "mach-o: truncated: need 8 bytes at 0x8, have 4"
    );
    assert_eq!(
        image.parse_command(LC_MAIN, &short, 0x10).unwrap_err().message(),
        "mach-o: offset 0x18 past end"
    );
    assert!(image.parse_command(0x7fff, &short, 0x10).is_ok());
    assert_eq!(format!("{image:?}"), before);
}

#[test]
fn one_slice_files_parse_like_their_slice() {
    let thin = build();
    let mut file = Vec::new();
    for v in [0xcafe_babeu32, 1, CPU_TYPE_ARM64, 0, 28, thin.len() as u32, 0] {
        file.extend_from_slice(&v.to_be_bytes());
    }
    file.extend_from_slice(&thin);
    let (a, b) = (MachOImage::parse(&thin).unwrap(), MachOImage::parse(&file).unwrap());
    assert_eq!(format!("{a:?}"), format!("{b:?}"));
}

#[test]
fn main_outranks_thread() {
    let mut main = Vec::new();
    main.extend_from_slice(&LC_MAIN.to_le_bytes());
    main.extend_from_slice(&24u32.to_le_bytes());
    main.extend_from_slice(&0x40u64.to_le_bytes());
    main.extend_from_slice(&0u64.to_le_bytes());
    let mut thread = Vec::new();
    for v in [0x5u32, 288, 6, 68] {
        thread.extend_from_slice(&v.to_le_bytes());
    }
    thread.extend_from_slice(&[0u8; 256]);
    thread.extend_from_slice(&0x1_0000_1234u64.to_le_bytes());
    thread.extend_from_slice(&[0u8; 8]);
    let mut seg = Vec::new();
    seg.extend_from_slice(&LC_SEGMENT_64.to_le_bytes());
    seg.extend_from_slice(&72u32.to_le_bytes());
    seg.extend_from_slice(&[0u8; 64]);
    for (x, y) in [(&main, &thread), (&thread, &main)] {
        let cmds = [seg.as_slice(), x.as_slice(), y.as_slice()].concat();
        let mut out = Vec::new();
        for v in [MH_MAGIC_64, CPU_TYPE_ARM64, 0, MH_EXECUTE, 3, cmds.len() as u32, 0, 0] {
            out.extend_from_slice(&v.to_le_bytes());
        }
        out.extend_from_slice(&cmds);
        let image = MachOImage::parse(&out).unwrap();
        assert!(matches!(
            image.entry,
            Some(EntryPoint::Main { file_offset: 0x40, stack_size: 0 })
        ));
    }
}

#[test]
fn trampolines_are_consecutive() {
    let mut r = StubResolver::new(GuestAddr(0x5000), 16);
    for (name, at) in [("a", 0x5000), ("b", 0x5010), ("a", 0x5000), ("c", 0x5020), ("b", 0x5010)] {
        assert_eq!(r.resolve(name, -1, true), Some(GuestAddr(at)));
    }
    assert_eq!(r.used(), 48);
    assert_eq!(r.table().len(), 3);
    assert_eq!(r.table().get(&0x5010).map(String::as_str), Some("b"));
}

#[test]
fn foreign_files_are_refused() {
    let message = |b: &[u8]| MachOImage::parse(b).unwrap_err().message();
    assert_eq!(message(&0xfeed_faceu32.to_le_bytes()), "mach-o: unknown magic 0xfeedface");
    assert_eq!(
        message(&0xcffa_edfeu32.to_le_bytes()),
        "mach-o: big-endian Mach-O is not supported"
    );
    let mut b = build();
    b[4] = 7;
    assert_eq!(message(&b), "mach-o: cputype 0x1000007 is not arm64");
    let mut b = build();
    b[36] = 4;
    assert_eq!(message(&b), "mach-o: load command 0 has bogus size 4");
    assert_eq!(message(&fat(&[])), "mach-o: universal binary has no arm64 slice");
}

#[test]
fn leb128() {
    let mut p = 0;
    assert_eq!(read_uleb(&[0xe5, 0x8e, 0x26], &mut p).unwrap(), 624485);
    let mut p = 0;
    assert_eq!(read_sleb(&[0x9b, 0xf1, 0x59], &mut p).unwrap(), -624485);
}

#[test]
fn leb_and_strings_move_the_cursor() {
    let mut p = 1;
    assert_eq!(read_uleb(&[0, 0x7f, 3], &mut p).unwrap(), 0x7f);
    assert_eq!(p, 2);
    let mut p = 0;
    assert!(read_uleb(&[0x80, 0x80], &mut p).is_err());
    let mut p = 0;
    assert_eq!(read_cstr(b"_x\0_y\0", &mut p).unwrap(), "_x");
    assert_eq!(p, 3);
    let mut p = 0;
    assert!(read_cstr(b"_x", &mut p).is_err());
}

#[test]
fn lazy_bind_records_sequence_offsets() {
    let mut s = Vec::new();
    s.push(BIND_OPCODE_SET_SEGMENT_AND_OFFSET_ULEB | 2);
    s.push(0x00);
    s.push(BIND_OPCODE_SET_SYMBOL_TRAILING_FLAGS_IMM);
    s.extend_from_slice(b"_objc_msgSend\0");
    s.push(BIND_OPCODE_DO_BIND);
    s.push(BIND_OPCODE_DONE);
    let off_b = s.len() as u64;
    s.push(BIND_OPCODE_SET_SEGMENT_AND_OFFSET_ULEB | 2);
    s.push(0x08);
    s.push(BIND_OPCODE_SET_SYMBOL_TRAILING_FLAGS_IMM);
    s.extend_from_slice(b"_malloc\0");
    s.push(BIND_OPCODE_DO_BIND);
    s.push(BIND_OPCODE_DONE);

    let lz = parse_lazy_bind_info(&s).unwrap();
    assert_eq!(lz.len(), 2);
    assert_eq!(lz[0].offset, 0);
    assert_eq!(lz[0].symbol, "_objc_msgSend");
    assert_eq!(lz[0].seg_offset, 0);
    assert_eq!(lz[1].offset, off_b);
    assert_eq!(lz[1].symbol, "_malloc");
    assert_eq!(lz[1].seg_offset, 8);
}

#[test]
fn simple_bind_stream() {
    let mut s = vec![BIND_OPCODE_SET_DYLIB_ORDINAL_IMM | 1];
    s.push(BIND_OPCODE_SET_SYMBOL_TRAILING_FLAGS_IMM);
    s.extend_from_slice(b"_x\0");
    s.push(BIND_OPCODE_SET_TYPE_IMM | 1);
    s.push(BIND_OPCODE_SET_SEGMENT_AND_OFFSET_ULEB | 2);
    s.push(0x10);
    s.push(BIND_OPCODE_DO_BIND);
    s.push(BIND_OPCODE_DONE);

    let recs = parse_bind_info(&s).unwrap();
    assert_eq!(recs.len(), 1);
    let r = &recs[0];
    assert_eq!(r.symbol, "_x");
    assert_eq!(r.seg_index, 2);
    assert_eq!(r.seg_offset, 0x10);
    assert_eq!(r.lib_ordinal, 1);
    assert_eq!(r.kind, BindKind::Pointer);
}

#[test]
fn repeated_and_weak_binds() {
    let mut s = vec![BIND_OPCODE_SET_DYLIB_SPECIAL_IMM | 0xe];
    s.push(BIND_OPCODE_SET_SYMBOL_TRAILING_FLAGS_IMM | 1);
    s.extend_from_slice(b"_w\0");
    s.push(BIND_OPCODE_SET_ADDEND_SLEB);
    s.push(0x7e);
    s.push(BIND_OPCODE_SET_SEGMENT_AND_OFFSET_ULEB | 1);
    s.push(0);
    s.push(BIND_OPCODE_DO_BIND_ULEB_TIMES_SKIPPING_ULEB);
    s.push(2);
    s.push(8);
    s.push(BIND_OPCODE_DO_BIND_ADD_ADDR_IMM_SCALED | 1);
    s.push(BIND_OPCODE_DO_BIND);
    let recs = parse_bind_info(&s).unwrap();
    let offs: Vec<u64> = recs.iter().map(|r| r.seg_offset).collect();
    assert_eq!(offs, vec![0, 16, 32, 48]);
    assert!(recs.iter().all(|r| r.weak && r.addend == -2 && r.lib_ordinal == -2));
    assert!(parse_bind_info(&[0xf0]).is_err());
}

#[test]
fn stable_and_unique() {
    let mut r = StubResolver::new(GuestAddr(0x4_0000_0000), 16);
    let a = r.resolve("objc_msgSend", 1, false).unwrap();
    let b = r.resolve("open", 2, false).unwrap();
    let a2 = r.resolve("objc_msgSend", 1, false).unwrap();
    assert_eq!(a, a2);
    assert_ne!(a, b);
    assert_eq!(r.table().get(&a.raw()).map(String::as_str), Some("objc_msgSend"));
}

#[test]
fn resolver_tables_are_inverse() {
    let mut r = StubResolver::new(GuestAddr(0x4_0000_0000), 16);
    let a = r.resolve("open", 1, false).unwrap();
    let b = r.resolve("close", 1, true).unwrap();
    assert_eq!(b.raw() - a.raw(), 16);
    assert_eq!(r.used(), 32);
    assert_eq!(r.forward().get("open"), Some(&a.raw()));
    assert_eq!(r.forward().get("close"), Some(&b.raw()));
    assert_eq!(r.forward().get("read"), None);
    let t = r.into_table();
    assert_eq!(t.len(), 2);
    assert_eq!(t.get(&b.raw()).map(String::as_str), Some("close"));
}

#[test]
fn rebase_imm_times() {
    let mut s = vec![REBASE_OPCODE_SET_TYPE_IMM | REBASE_TYPE_POINTER];
    s.push(REBASE_OPCODE_SET_SEGMENT_AND_OFFSET_ULEB | 2);
    s.push(0x10);
    s.push(REBASE_OPCODE_DO_REBASE_IMM_TIMES | 3);
    s.push(REBASE_OPCODE_DONE);

    let locs = parse_rebase_info(&s).unwrap();
    assert_eq!(locs.len(), 3);
    assert_eq!(locs[0].seg_index, 2);
    assert_eq!(locs[0].seg_offset, 0x10);
    assert_eq!(locs[1].seg_offset, 0x18);
    assert_eq!(locs[2].seg_offset, 0x20);
    assert!(locs.iter().all(|l| l.rtype == REBASE_TYPE_POINTER));
}

#[test]
fn rebase_times_skipping() {
    let mut s = vec![REBASE_OPCODE_SET_SEGMENT_AND_OFFSET_ULEB | 1];
    s.push(0x00);
    s.push(REBASE_OPCODE_DO_REBASE_ULEB_TIMES_SKIPPING_ULEB);
    s.push(2);
    s.push(8);
    let locs = parse_rebase_info(&s).unwrap();
    assert_eq!(locs.len(), 2);
    assert_eq!(locs[0].seg_offset, 0);
    assert_eq!(locs[1].seg_offset, 16);
}

#[test]
fn bad_rebase_streams_are_errors() {
    assert!(parse_rebase_info(&[0xf0]).is_err());
    assert!(parse_rebase_info(&[REBASE_OPCODE_SET_SEGMENT_AND_OFFSET_ULEB | 1]).is_err());
    assert!(parse_rebase_info(&[]).unwrap().is_empty());
}

#[test]
fn reader_is_bounds_checked() {
    let data = [1u8, 2, 3, 4, 5, 6, 7, 8, b'a', b'b', 0, 0];
    let mut r = Reader::new(&data);
    assert_eq!(r.u8().unwrap(), 1);
    assert_eq!(r.u16_le().unwrap(), 0x0302);
    assert_eq!(r.pos(), 3);
    r.seek(0).unwrap();
    assert_eq!(r.peek_u32_le().unwrap(), 0x0403_0201);
    assert_eq!(r.u32_be().unwrap(), 0x0102_0304);
    r.seek(0).unwrap();
    assert_eq!(r.u64_le().unwrap(), 0x0807_0605_0403_0201);
    assert_eq!(r.fixed_str(4).unwrap(), "ab");
    assert_eq!(r.remaining(), 0);
    assert!(r.u8().is_err());
    assert!(r.seek(13).is_err());
    r.seek(0).unwrap();
    assert_eq!(r.u64_be().unwrap(), 0x0102_0304_0506_0708);
    assert!(r.skip(5).is_err());
    r.skip(2).unwrap();
    assert_eq!(r.bytes(2).unwrap(), &[0, 0]);
    assert!(Reader::at(&data, 13).is_err());
    assert_eq!(Reader::at(&data, 4).unwrap().u32_le().unwrap(), 0x0807_0605);
}
