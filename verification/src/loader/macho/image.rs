//! Parsed representation of a thin arm64 Mach-O image.

use vstd::prelude::*;

use crate::bytes;
use crate::common::error;
use crate::common::error::ErrorView;
use crate::common::{EmuError, EmuResult, Protection};
use crate::loader::macho::consts::{
    ARM_THREAD_STATE64, ARM_THREAD_STATE64_COUNT, CPU_SUBTYPE_ARM64E, CPU_TYPE_ARM64, FAT_MAGIC,
    FAT_MAGIC_64, LC_DYLD_INFO, LC_DYLD_INFO_ONLY, LC_ENCRYPTION_INFO_64, LC_FUNCTION_STARTS,
    LC_LOAD_DYLIB, LC_LOAD_DYLINKER, LC_LOAD_WEAK_DYLIB, LC_MAIN, LC_REEXPORT_DYLIB, LC_SEGMENT_64,
    LC_SYMTAB, LC_UNIXTHREAD, LC_UUID, LC_VERSION_MIN_IPHONEOS, MH_CIGAM_64, MH_MAGIC_64, MH_PIE,
    SECTION_TYPE, S_MOD_INIT_FUNC_POINTERS, S_ZEROFILL,
};
use crate::loader::macho::model;
use crate::loader::macho::model::{DylibView, FatEntry, ImageView, SectionView, SegmentView};
use crate::loader::macho::reader;
use crate::loader::macho::reader::Reader;
use crate::text;

verus! {

/// A section within a segment.
#[derive(Clone, Debug)]
pub struct Section {
    pub seg_name: String,
    pub name: String,
    pub addr: u64,
    pub size: u64,
    pub offset: u32,
    pub flags: u32,
}

/// A `__TEXT`/`__DATA`/... segment.
#[derive(Clone, Debug)]
pub struct Segment {
    pub name: String,
    /// Preferred virtual address (pre-slide).
    pub vmaddr: u64,
    pub vmsize: u64,
    /// Offset of the segment's bytes within the file.
    pub fileoff: u64,
    pub filesize: u64,
    pub initprot: Protection,
    pub maxprot: Protection,
    pub sections: Vec<Section>,
}

/// A dylib dependency.
#[derive(Clone, Debug)]
pub struct Dylib {
    pub path: String,
    pub weak: bool,
    pub reexport: bool,
}

/// Where execution begins.
#[derive(Clone, Copy, Debug)]
pub enum EntryPoint {
    /// File offset of `main` from the mach header, and a stack-size hint.
    Main { file_offset: u64, stack_size: u64 },
    /// Absolute (pre-slide) PC from the thread state.
    Thread { vmaddr: u64 },
}

/// The encrypted range of an App Store binary.
#[derive(Clone, Copy, Debug)]
pub struct Encryption {
    pub cryptoff: u32,
    pub cryptsize: u32,
    pub cryptid: u32,
}

/// Location of the symbol table.
#[derive(Clone, Copy, Debug)]
pub struct SymtabInfo {
    pub symoff: u32,
    pub nsyms: u32,
    pub stroff: u32,
    pub strsize: u32,
}

/// Location of the compressed bind, rebase and export information.
#[derive(Clone, Copy, Debug)]
pub struct DyldInfo {
    pub rebase_off: u32,
    pub rebase_size: u32,
    pub bind_off: u32,
    pub bind_size: u32,
    pub lazy_bind_off: u32,
    pub lazy_bind_size: u32,
    pub export_off: u32,
    pub export_size: u32,
}

impl Default for SymtabInfo {
    fn default() -> (r: SymtabInfo)
        ensures
            r == (SymtabInfo { symoff: 0, nsyms: 0, stroff: 0, strsize: 0 }),
    {
        SymtabInfo { symoff: 0, nsyms: 0, stroff: 0, strsize: 0 }
    }
}

impl Default for DyldInfo {
    fn default() -> (r: DyldInfo)
        ensures
            r == (DyldInfo {
                rebase_off: 0,
                rebase_size: 0,
                bind_off: 0,
                bind_size: 0,
                lazy_bind_off: 0,
                lazy_bind_size: 0,
                export_off: 0,
                export_size: 0,
            }),
    {
        DyldInfo {
            rebase_off: 0,
            rebase_size: 0,
            bind_off: 0,
            bind_size: 0,
            lazy_bind_off: 0,
            lazy_bind_size: 0,
            export_off: 0,
            export_size: 0,
        }
    }
}

/// Fully-parsed image description.
#[derive(Debug)]
pub struct MachOImage {
    pub cpu_subtype: u32,
    pub filetype: u32,
    pub flags: u32,
    pub segments: Vec<Segment>,
    pub dylibs: Vec<Dylib>,
    pub dylinker: Option<String>,
    pub entry: Option<EntryPoint>,
    pub symtab: Option<SymtabInfo>,
    pub dyld_info: Option<DyldInfo>,
    pub encryption: Option<Encryption>,
    pub uuid: Option<[u8; 16]>,
    pub function_starts: Option<(u32, u32)>,
    pub min_os_version: Option<u32>,
}

impl View for Section {
    type V = SectionView;

    open spec fn view(&self) -> SectionView {
        SectionView {
            seg_name: self.seg_name@,
            name: self.name@,
            addr: self.addr,
            size: self.size,
            offset: self.offset,
            flags: self.flags,
        }
    }
}

impl View for Segment {
    type V = SegmentView;

    open spec fn view(&self) -> SegmentView {
        SegmentView {
            name: self.name@,
            vmaddr: self.vmaddr,
            vmsize: self.vmsize,
            fileoff: self.fileoff,
            filesize: self.filesize,
            initprot: self.initprot,
            maxprot: self.maxprot,
            sections: self.sections@.map_values(|s: Section| s@),
        }
    }
}

impl View for Dylib {
    type V = DylibView;

    open spec fn view(&self) -> DylibView {
        DylibView { path: self.path@, weak: self.weak, reexport: self.reexport }
    }
}

impl View for MachOImage {
    type V = ImageView;

    open spec fn view(&self) -> ImageView {
        ImageView {
            cpu_subtype: self.cpu_subtype,
            filetype: self.filetype,
            flags: self.flags,
            segments: self.segments@.map_values(|s: Segment| s@),
            dylibs: self.dylibs@.map_values(|d: Dylib| d@),
            dylinker: match self.dylinker {
                Some(s) => Some(s@),
                None => None,
            },
            entry: self.entry,
            symtab: self.symtab,
            dyld_info: self.dyld_info,
            encryption: self.encryption,
            uuid: match self.uuid {
                Some(u) => Some(u@),
                None => None,
            },
            function_starts: self.function_starts,
            min_os_version: self.min_os_version,
        }
    }
}

impl Section {
    /// Whether the section has no file backing.
    pub fn is_zerofill(&self) -> (r: bool)
        ensures
            r == (self.flags & SECTION_TYPE == S_ZEROFILL),
            r == (self.flags % 0x100 == 1),
    {
        let f = self.flags;
        assert(f & 0xff == f % 0x100) by (bit_vector);
        (self.flags & SECTION_TYPE) == S_ZEROFILL
    }

    /// Whether the section is an array of static initialisers.
    pub fn is_mod_init(&self) -> (r: bool)
        ensures
            r == (self.flags & SECTION_TYPE == S_MOD_INIT_FUNC_POINTERS),
            r == (self.flags % 0x100 == 9),
    {
        let f = self.flags;
        assert(f & 0xff == f % 0x100) by (bit_vector);
        (self.flags & SECTION_TYPE) == S_MOD_INIT_FUNC_POINTERS
    }
}

impl MachOImage {
    /// Whether the image is a position-independent executable.
    pub fn is_pie(&self) -> (r: bool)
        ensures
            r == (self.flags & MH_PIE != 0),
            r == (self.flags / 0x20_0000 % 2 == 1),
    {
        let f = self.flags;
        assert(f & 0x20_0000 != 0 <==> f / 0x20_0000 % 2 == 1) by (bit_vector);
        self.flags & MH_PIE != 0
    }

    /// Preferred base of the first `__TEXT` segment, zero without one.
    pub fn text_vmaddr(&self) -> (r: u64)
        ensures
            r == self@.text_vmaddr(),
    {
        let mut i: usize = 0;
        let ghost segments = self@.segments;
        while i < self.segments.len()
            invariant
                segments == self@.segments,
                i <= segments.len(),
                model::segment_named(segments, "__TEXT"@, 0) == model::segment_named(
                    segments,
                    "__TEXT"@,
                    i as int,
                ),
            decreases segments.len() - i,
        {
            assert(segments[i as int] == self.segments@[i as int]@);
            if text::same(self.segments[i].name.as_str(), "__TEXT") {
                return self.segments[i].vmaddr;
            }
            i += 1;
        }
        0
    }

    /// Whether the image is still encrypted.
    pub fn is_encrypted(&self) -> (r: bool)
        ensures
            r == (self.encryption matches Some(e) && e.cryptid != 0),
    {
        match self.encryption {
            Some(e) => e.cryptid != 0,
            None => false,
        }
    }

    /// Parse a Mach-O or universal container, selecting the arm64(e) slice.
    pub fn parse(bytes: &[u8]) -> (r: EmuResult<MachOImage>)
        ensures
            error::outcome(r) == model::image(bytes@),
    {
        let magic = Reader::new(bytes).u32_le()?;
        let swapped = bytes::get_be32(bytes, 0);
        if swapped == FAT_MAGIC || swapped == FAT_MAGIC_64 || magic == FAT_MAGIC || magic
            == FAT_MAGIC_64 {
            let base = select_fat_slice(bytes)?;
            MachOImage::parse_thin(bytes, base)
        } else if magic == MH_MAGIC_64 {
            MachOImage::parse_thin(bytes, 0)
        } else if magic == MH_CIGAM_64 {
            Err(EmuError::MachO("big-endian Mach-O is not supported".to_owned()))
        } else {
            let h = text::hex_padded(magic as u64, 8, false);
            Err(EmuError::MachO(text::cat("unknown magic 0x", h.as_str())))
        }
    }

    fn parse_thin(bytes: &[u8], base: usize) -> (r: EmuResult<MachOImage>)
        requires
            base <= bytes@.len(),
        ensures
            error::outcome(r) == model::thin(bytes@, base as int),
    {
        let mut r = Reader::at(bytes, base)?;
        let magic = r.u32_le()?;
        if magic != MH_MAGIC_64 {
            let h = text::hex_padded(magic as u64, 8, false);
            return Err(
                EmuError::MachO(text::cat3("slice magic 0x", h.as_str(), " is not 64-bit Mach-O")),
            );
        }
        let cputype = r.u32_le()?;
        if cputype != CPU_TYPE_ARM64 {
            let h = text::hex_string(cputype as u64);
            return Err(EmuError::MachO(text::cat3("cputype 0x", h.as_str(), " is not arm64")));
        }
        let widths = [4usize, 4, 4, 4, 4, 4];
        assert(widths@ =~= seq![4usize, 4, 4, 4, 4, 4]);
        assert(reader::total(widths@, 0) == 24) by {
            reveal_with_fuel(reader::total, 7);
        }
        reader::demand(bytes, r.pos(), &widths)?;
        let mut img = MachOImage {
            cpu_subtype: bytes::get_le32(bytes, base + 8),
            filetype: bytes::get_le32(bytes, base + 12),
            flags: bytes::get_le32(bytes, base + 24),
            segments: Vec::new(),
            dylibs: Vec::new(),
            dylinker: None,
            entry: None,
            symtab: None,
            dyld_info: None,
            encryption: None,
            uuid: None,
            function_starts: None,
            min_os_version: None,
        };
        let ncmds = bytes::get_le32(bytes, base + 16);
        assert(img@ =~= model::blank(
            bytes::le32(bytes@, base + 8),
            bytes::le32(bytes@, base + 12),
            bytes::le32(bytes@, base + 24),
        ));
        img.parse_commands(bytes, base + 32, ncmds)?;
        if img.segments.len() == 0 {
            return Err(EmuError::MachO("no LC_SEGMENT_64 commands".to_owned()));
        }
        Ok(img)
    }

    /// Walk the load commands.
    fn parse_commands(&mut self, bytes: &[u8], start: usize, ncmds: u32) -> (r: EmuResult<()>)
        requires
            start <= bytes@.len(),
        ensures
            match model::commands(bytes@, start as int, 0, ncmds as int, old(self)@) {
                Ok(img) => r is Ok && final(self)@ == img,
                Err(e) => r matches Err(x) && x@ == e,
            },
    {
        let mut off: usize = start;
        let mut i: u32 = 0;
        let ghost whole = model::commands(bytes@, start as int, 0, ncmds as int, self@);
        while i < ncmds
            invariant
                i <= ncmds,
                whole == model::commands(bytes@, start as int, 0, ncmds as int, old(self)@),
                whole == model::commands(bytes@, off as int, i as int, ncmds as int, self@),
            decreases ncmds - i,
        {
            let at = Reader::at(bytes, off)?;
            let widths = [4usize, 4];
            assert(widths@ =~= seq![4usize, 4]);
            assert(reader::total(widths@, 0) == 8) by {
                reveal_with_fuel(reader::total, 3);
            }
            reader::demand(bytes, at.pos(), &widths)?;
            let cmd = bytes::get_le32(bytes, off);
            let size = bytes::get_le32(bytes, off + 4);
            if size < 8 {
                let n = text::dec_string(i as u64);
                let s = text::dec_string(size as u64);
                let head = text::cat3("load command ", n.as_str(), " has bogus size ");
                return Err(EmuError::MachO(text::cat(head.as_str(), s.as_str())));
            }
            self.parse_command(cmd, bytes, off)?;
            off = match off.checked_add(size as usize) {
                Some(o) => o,
                None => {
                    return Err(EmuError::MachO("load-command offset overflow".to_owned()));
                },
            };
            i += 1;
        }
        Ok(())
    }

    /// Dispatch the load command at `off`; commands of no interest are skipped.
    /// A command that cannot be read leaves the image as it is.
    #[verifier::spinoff_prover]
    #[verifier::rlimit(60)]
    pub fn parse_command(&mut self, cmd: u32, bytes: &[u8], off: usize) -> (r: EmuResult<()>)
        requires
            off + 8 <= usize::MAX,
        ensures
            match model::command(bytes@, off as int, cmd, old(self)@) {
                Ok(img) => r is Ok && final(self)@ == img,
                Err(e) => r matches Err(x) && x@ == e && *final(self) == *old(self),
            },
    {
        let ghost before = self@;
        proof {
            reveal(model::command);
        }
        assert(bytes.len() == bytes@.len());
        let at: usize = off + 8;
        if of_interest(cmd) {
            Reader::at(bytes, at)?;
        }
        if cmd == LC_SEGMENT_64 {
            let s = parse_segment(bytes, at)?;
            self.segments.push(s);
            assert(self@.segments =~= before.segments.push(s@));
        } else if cmd == LC_LOAD_DYLIB || cmd == LC_LOAD_WEAK_DYLIB || cmd == LC_REEXPORT_DYLIB {
            let path = read_lc_str(bytes, off)?;
            let d = Dylib {
                path,
                weak: cmd == LC_LOAD_WEAK_DYLIB,
                reexport: cmd == LC_REEXPORT_DYLIB,
            };
            self.dylibs.push(d);
            assert(self@.dylibs =~= before.dylibs.push(d@));
        } else if cmd == LC_LOAD_DYLINKER {
            self.dylinker = Some(read_lc_str(bytes, off)?);
        } else if cmd == LC_MAIN {
            let widths = [8usize, 8];
            assert(widths@ =~= seq![8usize, 8]);
            assert(reader::total(widths@, 0) == 16) by {
                reveal_with_fuel(reader::total, 3);
            }
            reader::demand(bytes, at, &widths)?;
            self.entry = Some(
                EntryPoint::Main {
                    file_offset: bytes::get_le64(bytes, at),
                    stack_size: bytes::get_le64(bytes, at + 8),
                },
            );
        } else if cmd == LC_UNIXTHREAD {
            if let Some(vmaddr) = parse_arm64_thread_pc(bytes, at)? {
                if self.entry.is_none() {
                    self.entry = Some(EntryPoint::Thread { vmaddr });
                }
            }
        } else if cmd == LC_SYMTAB {
            let widths = [4usize, 4, 4, 4];
            assert(widths@ =~= seq![4usize, 4, 4, 4]);
            assert(reader::total(widths@, 0) == 16) by {
                reveal_with_fuel(reader::total, 5);
            }
            reader::demand(bytes, at, &widths)?;
            self.symtab = Some(
                SymtabInfo {
                    symoff: bytes::get_le32(bytes, at),
                    nsyms: bytes::get_le32(bytes, at + 4),
                    stroff: bytes::get_le32(bytes, at + 8),
                    strsize: bytes::get_le32(bytes, at + 12),
                },
            );
        } else if cmd == LC_DYLD_INFO || cmd == LC_DYLD_INFO_ONLY {
            let widths = [4usize, 4, 4, 4, 4, 4, 4, 4];
            assert(widths@ =~= seq![4usize, 4, 4, 4, 4, 4, 4, 4]);
            assert(reader::total(widths@, 0) == 32) by {
                reveal_with_fuel(reader::total, 9);
            }
            reader::demand(bytes, at, &widths)?;
            self.dyld_info = Some(
                DyldInfo {
                    rebase_off: bytes::get_le32(bytes, at),
                    rebase_size: bytes::get_le32(bytes, at + 4),
                    bind_off: bytes::get_le32(bytes, at + 8),
                    bind_size: bytes::get_le32(bytes, at + 12),
                    lazy_bind_off: bytes::get_le32(bytes, at + 16),
                    lazy_bind_size: bytes::get_le32(bytes, at + 20),
                    export_off: bytes::get_le32(bytes, at + 24),
                    export_size: bytes::get_le32(bytes, at + 28),
                },
            );
        } else if cmd == LC_ENCRYPTION_INFO_64 {
            let widths = [4usize, 4, 4];
            assert(widths@ =~= seq![4usize, 4, 4]);
            assert(reader::total(widths@, 0) == 12) by {
                reveal_with_fuel(reader::total, 4);
            }
            reader::demand(bytes, at, &widths)?;
            self.encryption = Some(
                Encryption {
                    cryptoff: bytes::get_le32(bytes, at),
                    cryptsize: bytes::get_le32(bytes, at + 4),
                    cryptid: bytes::get_le32(bytes, at + 8),
                },
            );
        } else if cmd == LC_UUID {
            let widths = [16usize];
            assert(widths@ =~= seq![16usize]);
            assert(reader::total(widths@, 0) == 16) by {
                reveal_with_fuel(reader::total, 2);
            }
            reader::demand(bytes, at, &widths)?;
            let mut uuid = [0u8;16];
            let mut k: usize = 0;
            while k < 16
                invariant
                    k <= 16,
                    at + 16 <= bytes@.len() <= usize::MAX,
                    forall|j: int| 0 <= j < k ==> uuid@[j] == bytes@[at + j],
                decreases 16 - k,
            {
                uuid[k] = bytes[at + k];
                k += 1;
            }
            assert(uuid@ =~= bytes@.subrange(at as int, at + 16));
            self.uuid = Some(uuid);
        } else if cmd == LC_FUNCTION_STARTS {
            let widths = [4usize, 4];
            assert(widths@ =~= seq![4usize, 4]);
            assert(reader::total(widths@, 0) == 8) by {
                reveal_with_fuel(reader::total, 3);
            }
            reader::demand(bytes, at, &widths)?;
            self.function_starts = Some(
                (bytes::get_le32(bytes, at), bytes::get_le32(bytes, at + 4)),
            );
        } else if cmd == LC_VERSION_MIN_IPHONEOS {
            let widths = [4usize];
            assert(widths@ =~= seq![4usize]);
            assert(reader::total(widths@, 0) == 4) by {
                reveal_with_fuel(reader::total, 2);
            }
            reader::demand(bytes, at, &widths)?;
            self.min_os_version = Some(bytes::get_le32(bytes, at));
        }
        Ok(())
    }
}

/// Whether a load command is of interest.
fn of_interest(cmd: u32) -> (r: bool)
    ensures
        r == model::of_interest(cmd),
{
    cmd == LC_SEGMENT_64 || cmd == LC_LOAD_DYLIB || cmd == LC_LOAD_WEAK_DYLIB || cmd
        == LC_REEXPORT_DYLIB || cmd == LC_LOAD_DYLINKER || cmd == LC_MAIN || cmd == LC_UNIXTHREAD
        || cmd == LC_SYMTAB || cmd == LC_DYLD_INFO || cmd == LC_DYLD_INFO_ONLY || cmd
        == LC_ENCRYPTION_INFO_64 || cmd == LC_UUID || cmd == LC_FUNCTION_STARTS || cmd
        == LC_VERSION_MIN_IPHONEOS
}

/// Locate the arm64 (preferring arm64e) slice inside a universal binary.
fn select_fat_slice(bytes: &[u8]) -> (r: EmuResult<usize>)
    ensures
        match model::fat_slice(bytes@) {
            Ok(base) => r matches Ok(b) && b == base && b <= bytes@.len(),
            Err(e) => r matches Err(x) && x@ == e,
        },
{
    let widths = [4usize, 4];
    assert(widths@ =~= seq![4usize, 4]);
    assert(reader::total(widths@, 0) == 8) by {
        reveal_with_fuel(reader::total, 3);
    }
    reader::demand(bytes, 0, &widths)?;
    let is64 = bytes::get_be32(bytes, 0) == FAT_MAGIC_64;
    let nfat = bytes::get_be32(bytes, 4);
    let mut best: Option<FatEntry> = None;
    let mut pos: usize = 8;
    let mut left: u32 = nfat;
    let ghost whole = model::fat_entries(bytes@, 8, nfat as nat, is64);
    let ghost mut seen: Seq<FatEntry> = Seq::empty();
    while left > 0
        invariant
            pos <= bytes@.len(),
            whole == (match model::fat_entries(bytes@, pos as int, left as nat, is64) {
                Ok(rest) => Ok(seen + rest),
                Err(e) => Err(e),
            }),
            best == model::pick(seen),
            model::fat_slice(bytes@) == (match whole {
                Err(e) => Err(e),
                Ok(entries) => match model::pick(entries) {
                    None => Err(ErrorView::MachO("universal binary has no arm64 slice"@)),
                    Some(e) => if e.offset + e.size > u64::MAX {
                        Err(ErrorView::MachO("fat slice overflow"@))
                    } else if e.offset + e.size > bytes@.len() {
                        Err(ErrorView::MachO("fat slice extends past file"@))
                    } else {
                        Ok(e.offset as int)
                    },
                },
            }),
        decreases left,
    {
        let e = if is64 {
            let widths = [4usize, 4, 8, 8, 4, 4];
            assert(widths@ =~= model::fat_fields(true));
            assert(reader::total(widths@, 0) == 32) by {
                reveal_with_fuel(reader::total, 7);
            }
            reader::demand(bytes, pos, &widths)?;
            FatEntry {
                cputype: bytes::get_be32(bytes, pos),
                cpusubtype: bytes::get_be32(bytes, pos + 4),
                offset: bytes::get_be64(bytes, pos + 8),
                size: bytes::get_be64(bytes, pos + 16),
            }
        } else {
            let widths = [4usize, 4, 4, 4, 4];
            assert(widths@ =~= model::fat_fields(false));
            assert(reader::total(widths@, 0) == 20) by {
                reveal_with_fuel(reader::total, 6);
            }
            reader::demand(bytes, pos, &widths)?;
            FatEntry {
                cputype: bytes::get_be32(bytes, pos),
                cpusubtype: bytes::get_be32(bytes, pos + 4),
                offset: bytes::get_be32(bytes, pos + 8) as u64,
                size: bytes::get_be32(bytes, pos + 12) as u64,
            }
        };
        let ghost before = seen;
        proof {
            assert(e == model::fat_entry(bytes@, pos as int, is64));
            seen = before.push(e);
            assert(seen.drop_last() =~= before);
            let width: int = if is64 {
                32
            } else {
                20
            };
            match model::fat_entries(bytes@, pos + width, (left - 1) as nat, is64) {
                Ok(rest) => {
                    assert(before + (seq![e] + rest) =~= seen + rest);
                },
                Err(_) => {},
            }
        }
        pos = pos + if is64 {
            32
        } else {
            20
        };
        left -= 1;
        let better = match &best {
            None => true,
            Some(b) => e.cpusubtype == CPU_SUBTYPE_ARM64E && b.cpusubtype != CPU_SUBTYPE_ARM64E,
        };
        if e.cputype == CPU_TYPE_ARM64 && better {
            best = Some(e);
        }
    }
    assert(seen + Seq::empty() =~= seen);
    let e = match best {
        Some(e) => e,
        None => {
            return Err(EmuError::MachO("universal binary has no arm64 slice".to_owned()));
        },
    };
    let end = match e.offset.checked_add(e.size) {
        Some(end) => end,
        None => {
            return Err(EmuError::MachO("fat slice overflow".to_owned()));
        },
    };
    if end > bytes.len() as u64 {
        return Err(EmuError::MachO("fat slice extends past file".to_owned()));
    }
    Ok(e.offset as usize)
}

/// Decode the segment command whose header ends at `pos`.
fn parse_segment(bytes: &[u8], pos: usize) -> (r: EmuResult<Segment>)
    requires
        pos <= bytes@.len(),
    ensures
        error::outcome(r) == model::segment_at(bytes@, pos as int),
{
    let widths = [16usize, 8, 8, 8, 8, 4, 4, 4, 4];
    assert(widths@ =~= model::segment_fields());
    assert(reader::total(widths@, 0) == 64) by {
        reveal_with_fuel(reader::total, 10);
    }
    reader::demand(bytes, pos, &widths)?;
    let name = reader::padded_string(bytes, pos, 16);
    let nsects = bytes::get_le32(bytes, pos + 56);
    let sections = parse_sections(bytes, pos + 64, nsects)?;
    Ok(
        Segment {
            name,
            vmaddr: bytes::get_le64(bytes, pos + 16),
            vmsize: bytes::get_le64(bytes, pos + 24),
            fileoff: bytes::get_le64(bytes, pos + 32),
            filesize: bytes::get_le64(bytes, pos + 40),
            maxprot: Protection::from_vm_prot(bytes::get_le32(bytes, pos + 48)),
            initprot: Protection::from_vm_prot(bytes::get_le32(bytes, pos + 52)),
            sections,
        },
    )
}

/// Decode `n` consecutive section records.
fn parse_sections(bytes: &[u8], start: usize, n: u32) -> (r: EmuResult<Vec<Section>>)
    requires
        start <= bytes@.len(),
    ensures
        match model::sections_at(bytes@, start as int, n as nat) {
            Ok(s) => r matches Ok(v) && v@.map_values(|s: Section| s@) == s,
            Err(e) => r matches Err(x) && x@ == e,
        },
{
    let mut out: Vec<Section> = Vec::new();
    let mut pos: usize = start;
    let mut left: u32 = n;
    let ghost whole = model::sections_at(bytes@, start as int, n as nat);
    while left > 0
        invariant
            pos <= bytes@.len(),
            whole == model::sections_at(bytes@, start as int, n as nat),
            whole == (match model::sections_at(bytes@, pos as int, left as nat) {
                Ok(rest) => Ok(out@.map_values(|s: Section| s@) + rest),
                Err(e) => Err(e),
            }),
        decreases left,
    {
        let widths = [16usize, 16, 8, 8, 4, 4, 4, 4, 4, 4, 4, 4];
        assert(widths@ =~= model::section_fields());
        assert(reader::total(widths@, 0) == 80) by {
            reveal_with_fuel(reader::total, 13);
        }
        reader::demand(bytes, pos, &widths)?;
        let s = Section {
            name: reader::padded_string(bytes, pos, 16),
            seg_name: reader::padded_string(bytes, pos + 16, 16),
            addr: bytes::get_le64(bytes, pos + 32),
            size: bytes::get_le64(bytes, pos + 40),
            offset: bytes::get_le32(bytes, pos + 48),
            flags: bytes::get_le32(bytes, pos + 64),
        };
        let ghost before = out@.map_values(|s: Section| s@);
        proof {
            assert(s@ == model::section_at(bytes@, pos as int));
        }
        out.push(s);
        proof {
            assert(out@.map_values(|s: Section| s@) =~= before.push(s@));
            match model::sections_at(bytes@, pos + 80, (left - 1) as nat) {
                Ok(rest) => {
                    assert(before + (seq![s@] + rest) =~= before.push(s@) + rest);
                },
                Err(_) => {},
            }
        }
        pos = pos + 80;
        left -= 1;
    }
    assert(out@.map_values(|s: Section| s@) + Seq::empty() =~= out@.map_values(|s: Section| s@));
    Ok(out)
}

/// Read the text embedded in the load command at `off`.
fn read_lc_str(bytes: &[u8], off: usize) -> (r: EmuResult<String>)
    requires
        off + 8 <= bytes@.len(),
    ensures
        error::outcome(r) == model::command_text(bytes@, off as int),
{
    assert(bytes.len() == bytes@.len());
    let widths = [4usize];
    assert(widths@ =~= seq![4usize]);
    assert(reader::total(widths@, 0) == 4) by {
        reveal_with_fuel(reader::total, 2);
    }
    reader::demand(bytes, off + 8, &widths)?;
    let name_off = bytes::get_le32(bytes, off + 8);
    let start = match off.checked_add(name_off as usize) {
        Some(s) => s,
        None => {
            return Err(EmuError::MachO("lc_str offset overflow".to_owned()));
        },
    };
    if start >= bytes.len() {
        return Err(EmuError::MachO("lc_str offset past end".to_owned()));
    }
    let end = bytes::find(bytes, start, 0);
    Ok(text::from_utf8_lossy(vstd::slice::slice_subrange(bytes, start, end)))
}

/// Extract the program counter from a thread state, if it is an arm64 one.
fn parse_arm64_thread_pc(bytes: &[u8], pos: usize) -> (r: EmuResult<Option<u64>>)
    requires
        pos <= bytes@.len(),
    ensures
        match model::thread_pc(bytes@, pos as int) {
            Ok(pc) => r matches Ok(v) && v == pc,
            Err(e) => r matches Err(x) && x@ == e,
        },
{
    let widths = [4usize, 4];
    assert(widths@ =~= seq![4usize, 4]);
    assert(reader::total(widths@, 0) == 8) by {
        reveal_with_fuel(reader::total, 3);
    }
    reader::demand(bytes, pos, &widths)?;
    let flavor = bytes::get_le32(bytes, pos);
    let count = bytes::get_le32(bytes, pos + 4);
    if flavor != ARM_THREAD_STATE64 || count != ARM_THREAD_STATE64_COUNT {
        return Ok(None);
    }
    // x0..x28, fp, lr and sp come before the program counter.
    let mut r = Reader::at(bytes, pos + 8)?;
    r.skip(256)?;
    let pc = r.u64_le()?;
    Ok(Some(pc))
}

} // verus!
