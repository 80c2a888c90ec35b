//! What a Mach-O file means: the mathematical description of an image and how
//! it is read off the bytes.

use vstd::prelude::*;

use crate::bytes;
use crate::common::error::ErrorView;
use crate::common::Protection;
use crate::loader::macho::consts::{
    ARM_THREAD_STATE64, ARM_THREAD_STATE64_COUNT, CPU_SUBTYPE_ARM64E, CPU_TYPE_ARM64, FAT_MAGIC,
    FAT_MAGIC_64, LC_DYLD_INFO, LC_DYLD_INFO_ONLY, LC_ENCRYPTION_INFO_64, LC_FUNCTION_STARTS,
    LC_LOAD_DYLIB, LC_LOAD_DYLINKER, LC_LOAD_WEAK_DYLIB, LC_MAIN, LC_REEXPORT_DYLIB, LC_SEGMENT_64,
    LC_SYMTAB, LC_UNIXTHREAD, LC_UUID, LC_VERSION_MIN_IPHONEOS, MH_CIGAM_64, MH_MAGIC_64,
};
use crate::loader::macho::image::{DyldInfo, Encryption, EntryPoint, SymtabInfo};
use crate::loader::macho::reader;
use crate::text;

verus! {

/// View of a section.
#[verifier::ext_equal]
pub struct SectionView {
    pub seg_name: Seq<char>,
    pub name: Seq<char>,
    pub addr: u64,
    pub size: u64,
    pub offset: u32,
    pub flags: u32,
}

/// View of a segment.
#[verifier::ext_equal]
pub struct SegmentView {
    pub name: Seq<char>,
    pub vmaddr: u64,
    pub vmsize: u64,
    pub fileoff: u64,
    pub filesize: u64,
    pub initprot: Protection,
    pub maxprot: Protection,
    pub sections: Seq<SectionView>,
}

/// View of a dylib dependency.
#[verifier::ext_equal]
pub struct DylibView {
    pub path: Seq<char>,
    pub weak: bool,
    pub reexport: bool,
}

/// View of a parsed image.
#[verifier::ext_equal]
pub struct ImageView {
    pub cpu_subtype: u32,
    pub filetype: u32,
    pub flags: u32,
    pub segments: Seq<SegmentView>,
    pub dylibs: Seq<DylibView>,
    pub dylinker: Option<Seq<char>>,
    pub entry: Option<EntryPoint>,
    pub symtab: Option<SymtabInfo>,
    pub dyld_info: Option<DyldInfo>,
    pub encryption: Option<Encryption>,
    pub uuid: Option<Seq<u8>>,
    pub function_starts: Option<(u32, u32)>,
    pub min_os_version: Option<u32>,
}

// ---- universal binaries -----------------------------------------------------

/// One architecture of a universal binary.
pub struct FatEntry {
    pub cputype: u32,
    pub cpusubtype: u32,
    pub offset: u64,
    pub size: u64,
}

/// Widths of the fields of an architecture entry.
pub open spec fn fat_fields(is64: bool) -> Seq<usize> {
    if is64 {
        seq![4usize, 4, 8, 8, 4, 4]
    } else {
        seq![4usize, 4, 4, 4, 4]
    }
}

/// The architecture entry at `pos`.
pub open spec fn fat_entry(b: Seq<u8>, pos: int, is64: bool) -> FatEntry {
    FatEntry {
        cputype: bytes::be32(b, pos),
        cpusubtype: bytes::be32(b, pos + 4),
        offset: if is64 {
            bytes::be64(b, pos + 8)
        } else {
            bytes::be32(b, pos + 8) as u64
        },
        size: if is64 {
            bytes::be64(b, pos + 16)
        } else {
            bytes::be32(b, pos + 12) as u64
        },
    }
}

/// The `n` architecture entries from `pos` on.
pub open spec fn fat_entries(b: Seq<u8>, pos: int, n: nat, is64: bool) -> Result<
    Seq<FatEntry>,
    ErrorView,
>
    decreases n,
{
    if n == 0 {
        Ok(Seq::empty())
    } else {
        match reader::first_shortage(b.len() as int, pos, fat_fields(is64), 0) {
            Some(e) => Err(e),
            None => {
                let width: int = if is64 {
                    32
                } else {
                    20
                };
                match fat_entries(b, pos + width, (n - 1) as nat, is64) {
                    Err(e) => Err(e),
                    Ok(rest) => Ok(seq![fat_entry(b, pos, is64)] + rest),
                }
            },
        }
    }
}

/// Whether `e` is taken although `best` was found before it: it is arm64, and
/// either the first such or the first arm64e.
pub open spec fn supersedes(e: FatEntry, best: Option<FatEntry>) -> bool {
    e.cputype == CPU_TYPE_ARM64 && match best {
        None => true,
        Some(b) => e.cpusubtype == CPU_SUBTYPE_ARM64E && b.cpusubtype != CPU_SUBTYPE_ARM64E,
    }
}

/// The entry selected among `entries`.
pub open spec fn pick(entries: Seq<FatEntry>) -> Option<FatEntry>
    decreases entries.len(),
{
    if entries.len() == 0 {
        None
    } else {
        let before = pick(entries.drop_last());
        if supersedes(entries.last(), before) {
            Some(entries.last())
        } else {
            before
        }
    }
}

/// Where the arm64 slice of a universal binary starts.
pub open spec fn fat_slice(b: Seq<u8>) -> Result<int, ErrorView> {
    match reader::first_shortage(b.len() as int, 0, seq![4usize, 4], 0) {
        Some(e) => Err(e),
        None => {
            let is64 = bytes::be32(b, 0) == FAT_MAGIC_64;
            match fat_entries(b, 8, bytes::be32(b, 4) as nat, is64) {
                Err(e) => Err(e),
                Ok(entries) => match pick(entries) {
                    None => Err(ErrorView::MachO("universal binary has no arm64 slice"@)),
                    Some(e) => if e.offset + e.size > u64::MAX {
                        Err(ErrorView::MachO("fat slice overflow"@))
                    } else if e.offset + e.size > b.len() {
                        Err(ErrorView::MachO("fat slice extends past file"@))
                    } else {
                        Ok(e.offset as int)
                    },
                },
            }
        },
    }
}

// ---- load commands ----------------------------------------------------------

/// Widths of a segment command's fields after its header.
pub open spec fn segment_fields() -> Seq<usize> {
    seq![16usize, 8, 8, 8, 8, 4, 4, 4, 4]
}

/// Widths of a section record's fields.
pub open spec fn section_fields() -> Seq<usize> {
    seq![16usize, 16, 8, 8, 4, 4, 4, 4, 4, 4, 4, 4]
}

/// The section record at `pos`.
pub open spec fn section_at(b: Seq<u8>, pos: int) -> SectionView {
    SectionView {
        name: reader::padded_text(b.subrange(pos, pos + 16)),
        seg_name: reader::padded_text(b.subrange(pos + 16, pos + 32)),
        addr: bytes::le64(b, pos + 32),
        size: bytes::le64(b, pos + 40),
        offset: bytes::le32(b, pos + 48),
        flags: bytes::le32(b, pos + 64),
    }
}

/// The `n` section records from `pos` on.
pub open spec fn sections_at(b: Seq<u8>, pos: int, n: nat) -> Result<Seq<SectionView>, ErrorView>
    decreases n,
{
    if n == 0 {
        Ok(Seq::empty())
    } else {
        match reader::first_shortage(b.len() as int, pos, section_fields(), 0) {
            Some(e) => Err(e),
            None => match sections_at(b, pos + 80, (n - 1) as nat) {
                Err(e) => Err(e),
                Ok(rest) => Ok(seq![section_at(b, pos)] + rest),
            },
        }
    }
}

/// The segment described after a command header that ends at `pos`.
pub open spec fn segment_at(b: Seq<u8>, pos: int) -> Result<SegmentView, ErrorView> {
    match reader::first_shortage(b.len() as int, pos, segment_fields(), 0) {
        Some(e) => Err(e),
        None => match sections_at(b, pos + 64, bytes::le32(b, pos + 56) as nat) {
            Err(e) => Err(e),
            Ok(sections) => Ok(
                SegmentView {
                    name: reader::padded_text(b.subrange(pos, pos + 16)),
                    vmaddr: bytes::le64(b, pos + 16),
                    vmsize: bytes::le64(b, pos + 24),
                    fileoff: bytes::le64(b, pos + 32),
                    filesize: bytes::le64(b, pos + 40),
                    maxprot: Protection((bytes::le32(b, pos + 48) % 8) as u8),
                    initprot: Protection((bytes::le32(b, pos + 52) % 8) as u8),
                    sections,
                },
            ),
        },
    }
}

/// The NUL-terminated text embedded in the command at `off`, whose offset from
/// the start of the command is the first word after the command header.
pub open spec fn command_text(b: Seq<u8>, off: int) -> Result<Seq<char>, ErrorView> {
    match reader::first_shortage(b.len() as int, off + 8, seq![4usize], 0) {
        Some(e) => Err(e),
        None => {
            let start = off + bytes::le32(b, off + 8);
            if start > usize::MAX {
                Err(ErrorView::MachO("lc_str offset overflow"@))
            } else if start >= b.len() {
                Err(ErrorView::MachO("lc_str offset past end"@))
            } else {
                Ok(text::utf8_lossy(b.subrange(start, bytes::next(b, start, 0))))
            }
        },
    }
}

/// The program counter in the thread state after a command header that ends at
/// `pos`, if it is an arm64 state.
pub open spec fn thread_pc(b: Seq<u8>, pos: int) -> Result<Option<u64>, ErrorView> {
    let len = b.len() as int;
    match reader::first_shortage(len, pos, seq![4usize, 4], 0) {
        Some(e) => Err(e),
        None => if bytes::le32(b, pos) != ARM_THREAD_STATE64 || bytes::le32(b, pos + 4)
            != ARM_THREAD_STATE64_COUNT {
            Ok(None)
        } else if pos + 264 > usize::MAX {
            Err(ErrorView::MachO("skip overflow"@))
        } else if pos + 264 > len {
            Err(reader::past_end("seek"@, pos + 264))
        } else {
            match reader::shortage(len, pos + 264, 8) {
                Some(e) => Err(e),
                None => Ok(Some(bytes::le64(b, pos + 264))),
            }
        },
    }
}

/// Whether a load command is of interest; the others are skipped.
pub open spec fn of_interest(cmd: u32) -> bool {
    ||| cmd == LC_SEGMENT_64 || cmd == LC_LOAD_DYLIB || cmd == LC_LOAD_WEAK_DYLIB
    ||| cmd == LC_REEXPORT_DYLIB || cmd == LC_LOAD_DYLINKER || cmd == LC_MAIN
    ||| cmd == LC_UNIXTHREAD || cmd == LC_SYMTAB || cmd == LC_DYLD_INFO
    ||| cmd == LC_DYLD_INFO_ONLY || cmd == LC_ENCRYPTION_INFO_64 || cmd == LC_UUID
    ||| cmd == LC_FUNCTION_STARTS || cmd == LC_VERSION_MIN_IPHONEOS
}

/// The image after the load command `cmd` at `off`.
#[verifier::opaque]
pub open spec fn command(b: Seq<u8>, off: int, cmd: u32, img: ImageView) -> Result<
    ImageView,
    ErrorView,
> {
    let len = b.len() as int;
    let at = off + 8;
    if of_interest(cmd) && at > len {
        Err(reader::past_end("offset"@, at))
    } else if cmd == LC_SEGMENT_64 {
        match segment_at(b, at) {
            Err(e) => Err(e),
            Ok(s) => Ok(ImageView { segments: img.segments.push(s), ..img }),
        }
    } else if cmd == LC_LOAD_DYLIB || cmd == LC_LOAD_WEAK_DYLIB || cmd == LC_REEXPORT_DYLIB {
        match command_text(b, off) {
            Err(e) => Err(e),
            Ok(path) => {
                let d = DylibView {
                    path,
                    weak: cmd == LC_LOAD_WEAK_DYLIB,
                    reexport: cmd == LC_REEXPORT_DYLIB,
                };
                Ok(ImageView { dylibs: img.dylibs.push(d), ..img })
            },
        }
    } else if cmd == LC_LOAD_DYLINKER {
        match command_text(b, off) {
            Err(e) => Err(e),
            Ok(path) => Ok(ImageView { dylinker: Some(path), ..img }),
        }
    } else if cmd == LC_MAIN {
        match reader::first_shortage(len, at, seq![8usize, 8], 0) {
            Some(e) => Err(e),
            None => Ok(
                ImageView {
                    entry: Some(
                        EntryPoint::Main {
                            file_offset: bytes::le64(b, at),
                            stack_size: bytes::le64(b, at + 8),
                        },
                    ),
                    ..img
                },
            ),
        }
    } else if cmd == LC_UNIXTHREAD {
        match thread_pc(b, at) {
            Err(e) => Err(e),
            Ok(None) => Ok(img),
            Ok(Some(vmaddr)) => if img.entry is None {
                Ok(ImageView { entry: Some(EntryPoint::Thread { vmaddr }), ..img })
            } else {
                Ok(img)
            },
        }
    } else if cmd == LC_SYMTAB {
        match reader::first_shortage(len, at, seq![4usize, 4, 4, 4], 0) {
            Some(e) => Err(e),
            None => Ok(
                ImageView {
                    symtab: Some(
                        SymtabInfo {
                            symoff: bytes::le32(b, at),
                            nsyms: bytes::le32(b, at + 4),
                            stroff: bytes::le32(b, at + 8),
                            strsize: bytes::le32(b, at + 12),
                        },
                    ),
                    ..img
                },
            ),
        }
    } else if cmd == LC_DYLD_INFO || cmd == LC_DYLD_INFO_ONLY {
        match reader::first_shortage(len, at, seq![4usize, 4, 4, 4, 4, 4, 4, 4], 0) {
            Some(e) => Err(e),
            None => Ok(
                ImageView {
                    dyld_info: Some(
                        DyldInfo {
                            rebase_off: bytes::le32(b, at),
                            rebase_size: bytes::le32(b, at + 4),
                            bind_off: bytes::le32(b, at + 8),
                            bind_size: bytes::le32(b, at + 12),
                            lazy_bind_off: bytes::le32(b, at + 16),
                            lazy_bind_size: bytes::le32(b, at + 20),
                            export_off: bytes::le32(b, at + 24),
                            export_size: bytes::le32(b, at + 28),
                        },
                    ),
                    ..img
                },
            ),
        }
    } else if cmd == LC_ENCRYPTION_INFO_64 {
        match reader::first_shortage(len, at, seq![4usize, 4, 4], 0) {
            Some(e) => Err(e),
            None => Ok(
                ImageView {
                    encryption: Some(
                        Encryption {
                            cryptoff: bytes::le32(b, at),
                            cryptsize: bytes::le32(b, at + 4),
                            cryptid: bytes::le32(b, at + 8),
                        },
                    ),
                    ..img
                },
            ),
        }
    } else if cmd == LC_UUID {
        match reader::first_shortage(len, at, seq![16usize], 0) {
            Some(e) => Err(e),
            None => Ok(ImageView { uuid: Some(b.subrange(at, at + 16)), ..img }),
        }
    } else if cmd == LC_FUNCTION_STARTS {
        match reader::first_shortage(len, at, seq![4usize, 4], 0) {
            Some(e) => Err(e),
            None => Ok(
                ImageView {
                    function_starts: Some((bytes::le32(b, at), bytes::le32(b, at + 4))),
                    ..img
                },
            ),
        }
    } else if cmd == LC_VERSION_MIN_IPHONEOS {
        match reader::first_shortage(len, at, seq![4usize], 0) {
            Some(e) => Err(e),
            None => Ok(ImageView { min_os_version: Some(bytes::le32(b, at)), ..img }),
        }
    } else {
        Ok(img)
    }
}

/// The image after the load commands from number `i` to `n`, the first of them
/// at `off`.
pub open spec fn commands(b: Seq<u8>, off: int, i: int, n: int, img: ImageView) -> Result<
    ImageView,
    ErrorView,
>
    decreases n - i,
{
    if i >= n {
        Ok(img)
    } else if off > b.len() {
        Err(reader::past_end("offset"@, off))
    } else {
        match reader::first_shortage(b.len() as int, off, seq![4usize, 4], 0) {
            Some(e) => Err(e),
            None => {
                let size = bytes::le32(b, off + 4);
                if size < 8 {
                    Err(
                        ErrorView::MachO(
                            "load command "@ + text::dec(i as nat) + " has bogus size "@
                                + text::dec(size as nat),
                        ),
                    )
                } else {
                    match command(b, off, bytes::le32(b, off), img) {
                        Err(e) => Err(e),
                        Ok(next) => if off + size > usize::MAX {
                            Err(ErrorView::MachO("load-command offset overflow"@))
                        } else {
                            commands(b, off + size, i + 1, n, next)
                        },
                    }
                }
            },
        }
    }
}

/// An image of which only the header is known.
pub open spec fn blank(cpu_subtype: u32, filetype: u32, flags: u32) -> ImageView {
    ImageView {
        cpu_subtype,
        filetype,
        flags,
        segments: Seq::empty(),
        dylibs: Seq::empty(),
        dylinker: None,
        entry: None,
        symtab: None,
        dyld_info: None,
        encryption: None,
        uuid: None,
        function_starts: None,
        min_os_version: None,
    }
}

/// The image whose mach header starts at `base`.
pub open spec fn thin(b: Seq<u8>, base: int) -> Result<ImageView, ErrorView> {
    let len = b.len() as int;
    match reader::shortage(len, base, 4) {
        Some(e) => Err(e),
        None => if bytes::le32(b, base) != MH_MAGIC_64 {
            Err(
                ErrorView::MachO(
                    "slice magic 0x"@ + text::zero_padded(text::hex(bytes::le32(b, base) as nat), 8)
                        + " is not 64-bit Mach-O"@,
                ),
            )
        } else {
            match reader::shortage(len, base + 4, 4) {
                Some(e) => Err(e),
                None => if bytes::le32(b, base + 4) != CPU_TYPE_ARM64 {
                    Err(
                        ErrorView::MachO(
                            "cputype 0x"@ + text::hex(bytes::le32(b, base + 4) as nat)
                                + " is not arm64"@,
                        ),
                    )
                } else {
                    match reader::first_shortage(len, base + 8, seq![4usize, 4, 4, 4, 4, 4], 0) {
                        Some(e) => Err(e),
                        None => {
                            let img = blank(
                                bytes::le32(b, base + 8),
                                bytes::le32(b, base + 12),
                                bytes::le32(b, base + 24),
                            );
                            let n = bytes::le32(b, base + 16) as int;
                            match commands(b, base + 32, 0, n, img) {
                                Err(e) => Err(e),
                                Ok(img) => if img.segments.len() == 0 {
                                    Err(ErrorView::MachO("no LC_SEGMENT_64 commands"@))
                                } else {
                                    Ok(img)
                                },
                            }
                        },
                    }
                },
            }
        },
    }
}

/// Whether the bytes start like a universal binary. Its fields are big-endian;
/// the byte-swapped magic is taken for one too.
pub open spec fn is_universal(b: Seq<u8>) -> bool {
    ||| bytes::be32(b, 0) == FAT_MAGIC || bytes::be32(b, 0) == FAT_MAGIC_64
    ||| bytes::le32(b, 0) == FAT_MAGIC || bytes::le32(b, 0) == FAT_MAGIC_64
}

/// The image a file describes.
pub open spec fn image(b: Seq<u8>) -> Result<ImageView, ErrorView> {
    match reader::shortage(b.len() as int, 0, 4) {
        Some(e) => Err(e),
        None => if is_universal(b) {
            match fat_slice(b) {
                Err(e) => Err(e),
                Ok(base) => thin(b, base),
            }
        } else if bytes::le32(b, 0) == MH_MAGIC_64 {
            thin(b, 0)
        } else if bytes::le32(b, 0) == MH_CIGAM_64 {
            Err(ErrorView::MachO("big-endian Mach-O is not supported"@))
        } else {
            Err(
                ErrorView::MachO(
                    "unknown magic 0x"@ + text::zero_padded(text::hex(bytes::le32(b, 0) as nat), 8),
                ),
            )
        },
    }
}

/// The first segment called `name` from number `i` on, else the number of
/// segments.
pub open spec fn segment_named(segments: Seq<SegmentView>, name: Seq<char>, i: int) -> int
    decreases segments.len() - i,
{
    if i < 0 || i >= segments.len() {
        segments.len() as int
    } else if segments[i].name == name {
        i
    } else {
        segment_named(segments, name, i + 1)
    }
}

impl ImageView {
    /// Preferred base of `__TEXT`, or zero without one.
    pub open spec fn text_vmaddr(self) -> u64 {
        let i = segment_named(self.segments, "__TEXT"@, 0);
        if i < self.segments.len() {
            self.segments[i].vmaddr
        } else {
            0
        }
    }
}

// ---- laws -------------------------------------------------------------------

/// The slice of a universal binary is arm64 whenever there is one, and arm64e
/// whenever there is one of those; among equals the first wins.
pub proof fn arm64e_is_preferred(entries: Seq<FatEntry>)
    ensures
        pick(entries) is None <==> forall|i: int|
            0 <= i < entries.len() ==> (#[trigger] entries[i]).cputype != CPU_TYPE_ARM64,
        pick(entries) matches Some(e) ==> e.cputype == CPU_TYPE_ARM64 && exists|i: int|
            0 <= i < entries.len() && #[trigger] entries[i] == e && forall|j: int|
                0 <= j < i ==> (#[trigger] entries[j]).cputype != CPU_TYPE_ARM64
                    || entries[j].cpusubtype != e.cpusubtype,
        pick(entries) matches Some(e) ==> e.cpusubtype == CPU_SUBTYPE_ARM64E || forall|i: int|
            0 <= i < entries.len() && (#[trigger] entries[i]).cputype == CPU_TYPE_ARM64
                ==> entries[i].cpusubtype != CPU_SUBTYPE_ARM64E,
    decreases entries.len(),
{
    if entries.len() > 0 {
        let head = entries.drop_last();
        arm64e_is_preferred(head);
        assert forall|i: int| 0 <= i < entries.len() implies #[trigger] entries[i] == (if i
            < head.len() {
            head[i]
        } else {
            entries.last()
        }) by {}
        match pick(head) {
            None => {
                if supersedes(entries.last(), None) {
                    assert(entries[entries.len() - 1] == entries.last());
                }
            },
            Some(b) => {
                let w = choose|i: int|
                    0 <= i < head.len() && #[trigger] head[i] == b && forall|j: int|
                        0 <= j < i ==> (#[trigger] head[j]).cputype != CPU_TYPE_ARM64
                            || head[j].cpusubtype != b.cpusubtype;
                assert(entries[w] == b);
                if supersedes(entries.last(), Some(b)) {
                    assert(entries[entries.len() - 1] == entries.last());
                }
            },
        }
    }
}

} // verus!
