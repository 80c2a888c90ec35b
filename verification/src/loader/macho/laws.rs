//! What holds of Mach-O files as a whole: where an image stands in its file
//! does not matter, and neither does the order of its entry commands.

use vstd::prelude::*;

use crate::bytes;
use crate::common::error::ErrorView;
use crate::loader::macho::consts::{
    CPU_TYPE_ARM64, FAT_MAGIC, LC_DYLD_INFO, LC_DYLD_INFO_ONLY, LC_ENCRYPTION_INFO_64,
    LC_FUNCTION_STARTS, LC_LOAD_DYLIB, LC_LOAD_DYLINKER, LC_LOAD_WEAK_DYLIB, LC_MAIN,
    LC_REEXPORT_DYLIB, LC_SEGMENT_64, LC_SYMTAB, LC_UNIXTHREAD, LC_UUID, LC_VERSION_MIN_IPHONEOS,
    MH_MAGIC_64,
};
use crate::loader::macho::image::EntryPoint;
use crate::loader::macho::model;
use crate::loader::macho::model::{FatEntry, ImageView};
use crate::loader::macho::reader;

verus! {

/// Whether `f` is `b` behind `p` other bytes.
pub open spec fn stands_behind(f: Seq<u8>, p: int, b: Seq<u8>) -> bool {
    &&& 0 <= p
    &&& f.len() == p + b.len()
    &&& f.len() <= usize::MAX
    &&& f.skip(p) == b
}

/// Where the load commands from number `i` to `n` say they end, the first of
/// them at `off`.
pub open spec fn commands_end(b: Seq<u8>, off: int, i: int, n: int) -> int
    decreases n - i,
{
    if i >= n {
        off
    } else {
        commands_end(b, off + bytes::le32(b, off + 4), i + 1, n)
    }
}

/// Whether the load commands of the image `b` end in the address space of the
/// host even if `p` bytes come before it. A host whose addresses have more than
/// 32 bits always has room; on others the size that the last command gives may
/// leave it.
pub open spec fn has_room(b: Seq<u8>, p: int) -> bool {
    ||| p + b.len() + u32::MAX <= usize::MAX
    ||| p + commands_end(b, 32, 0, bytes::le32(b, 16) as int) <= usize::MAX
}

/// Commands that can be read end no further behind the file than one of them
/// can say.
proof fn lemma_commands_end(b: Seq<u8>, off: int, i: int, n: int, img: ImageView)
    requires
        0 <= off,
        model::commands(b, off, i, n, img) is Ok,
    ensures
        off <= commands_end(b, off, i, n),
        i < n ==> commands_end(b, off, i, n) <= b.len() + u32::MAX,
    decreases n - i,
{
    if i < n {
        let next = model::command(b, off, bytes::le32(b, off), img)->Ok_0;
        lemma_commands_end(b, off + bytes::le32(b, off + 4), i + 1, n, next);
    }
}

proof fn lemma_byte(f: Seq<u8>, p: int, b: Seq<u8>, i: int)
    requires
        stands_behind(f, p, b),
        0 <= i < b.len(),
    ensures
        f[p + i] == b[i],
{
    assert(f.skip(p)[i] == f[p + i]);
}

proof fn lemma_word(f: Seq<u8>, p: int, b: Seq<u8>, i: int)
    requires
        stands_behind(f, p, b),
        0 <= i,
        i + 4 <= b.len(),
    ensures
        bytes::le32(f, p + i) == bytes::le32(b, i),
{
    lemma_byte(f, p, b, i);
    lemma_byte(f, p, b, i + 1);
    lemma_byte(f, p, b, i + 2);
    lemma_byte(f, p, b, i + 3);
    assert(p + i + 1 == p + (i + 1) && p + i + 2 == p + (i + 2) && p + i + 3 == p + (i + 3));
}

proof fn lemma_word64(f: Seq<u8>, p: int, b: Seq<u8>, i: int)
    requires
        stands_behind(f, p, b),
        0 <= i,
        i + 8 <= b.len(),
    ensures
        bytes::le64(f, p + i) == bytes::le64(b, i),
{
    lemma_word(f, p, b, i);
    lemma_word(f, p, b, i + 4);
    assert(p + i + 4 == p + (i + 4));
}

proof fn lemma_range(f: Seq<u8>, p: int, b: Seq<u8>, i: int, j: int)
    requires
        stands_behind(f, p, b),
        0 <= i <= j <= b.len(),
    ensures
        f.subrange(p + i, p + j) == b.subrange(i, j),
{
    assert forall|k: int| 0 <= k < j - i implies f.subrange(p + i, p + j)[k] == b.subrange(i, j)[k] by {
        lemma_byte(f, p, b, i + k);
    }
    assert(f.subrange(p + i, p + j) =~= b.subrange(i, j));
}

proof fn lemma_next(f: Seq<u8>, p: int, b: Seq<u8>, i: int, c: u8)
    requires
        stands_behind(f, p, b),
        0 <= i <= b.len(),
    ensures
        bytes::next(f, p + i, c) == p + bytes::next(b, i, c),
        i <= bytes::next(b, i, c) <= b.len(),
    decreases b.len() - i,
{
    if i < b.len() {
        lemma_byte(f, p, b, i);
        if b[i] != c {
            lemma_next(f, p, b, i + 1, c);
        }
    }
}

proof fn lemma_fields(len: int, pos: int, widths: Seq<usize>, i: int, p: int)
    requires
        0 <= p,
        p + len <= usize::MAX,
        0 <= i,
        reader::first_shortage(len, pos, widths, i) is None,
    ensures
        reader::first_shortage(p + len, p + pos, widths, i) is None,
        i < widths.len() ==> pos + reader::total(widths, i) <= len,
    decreases widths.len() - i,
{
    reveal_with_fuel(reader::total, 2);
    if i < widths.len() {
        lemma_fields(len, pos + widths[i], widths, i + 1, p);
        assert(p + pos + widths[i] == p + (pos + widths[i]));
    }
}

proof fn lemma_sections(f: Seq<u8>, p: int, b: Seq<u8>, pos: int, n: nat)
    requires
        stands_behind(f, p, b),
        0 <= pos,
        model::sections_at(b, pos, n) is Ok,
    ensures
        model::sections_at(f, p + pos, n) == model::sections_at(b, pos, n),
    decreases n,
{
    if n > 0 {
        lemma_fields(b.len() as int, pos, model::section_fields(), 0, p);
        assert(reader::total(model::section_fields(), 0) == 80) by {
            reveal_with_fuel(reader::total, 13);
        }
        lemma_sections(f, p, b, pos + 80, (n - 1) as nat);
        assert(p + pos + 80 == p + (pos + 80));
        lemma_range(f, p, b, pos, pos + 16);
        lemma_range(f, p, b, pos + 16, pos + 32);
        lemma_word64(f, p, b, pos + 32);
        lemma_word64(f, p, b, pos + 40);
        lemma_word(f, p, b, pos + 48);
        lemma_word(f, p, b, pos + 64);
        assert(p + pos + 16 == p + (pos + 16) && p + pos + 32 == p + (pos + 32) && p + pos + 40 == p
            + (pos + 40) && p + pos + 48 == p + (pos + 48) && p + pos + 64 == p + (pos + 64));
        assert(model::section_at(f, p + pos) == model::section_at(b, pos));
    }
}

proof fn lemma_segment(f: Seq<u8>, p: int, b: Seq<u8>, pos: int)
    requires
        stands_behind(f, p, b),
        0 <= pos,
        model::segment_at(b, pos) is Ok,
    ensures
        model::segment_at(f, p + pos) == model::segment_at(b, pos),
{
    lemma_fields(b.len() as int, pos, model::segment_fields(), 0, p);
    assert(reader::total(model::segment_fields(), 0) == 64) by {
        reveal_with_fuel(reader::total, 10);
    }
    lemma_range(f, p, b, pos, pos + 16);
    lemma_word64(f, p, b, pos + 16);
    lemma_word64(f, p, b, pos + 24);
    lemma_word64(f, p, b, pos + 32);
    lemma_word64(f, p, b, pos + 40);
    lemma_word(f, p, b, pos + 48);
    lemma_word(f, p, b, pos + 52);
    lemma_word(f, p, b, pos + 56);
    lemma_sections(f, p, b, pos + 64, bytes::le32(b, pos + 56) as nat);
    assert(p + pos + 16 == p + (pos + 16) && p + pos + 24 == p + (pos + 24) && p + pos + 32 == p + (
    pos + 32) && p + pos + 40 == p + (pos + 40) && p + pos + 48 == p + (pos + 48) && p + pos + 52
        == p + (pos + 52) && p + pos + 56 == p + (pos + 56) && p + pos + 64 == p + (pos + 64));
}

proof fn lemma_text(f: Seq<u8>, p: int, b: Seq<u8>, off: int)
    requires
        stands_behind(f, p, b),
        0 <= off,
        model::command_text(b, off) is Ok,
    ensures
        model::command_text(f, p + off) == model::command_text(b, off),
{
    lemma_fields(b.len() as int, off + 8, seq![4usize], 0, p);
    assert(reader::total(seq![4usize], 0) == 4) by {
        reveal_with_fuel(reader::total, 2);
    }
    lemma_word(f, p, b, off + 8);
    assert(p + off + 8 == p + (off + 8));
    let start = off + bytes::le32(b, off + 8);
    lemma_next(f, p, b, start, 0);
    lemma_range(f, p, b, start, bytes::next(b, start, 0));
    assert(p + off + bytes::le32(b, off + 8) == p + start);
}

proof fn lemma_thread(f: Seq<u8>, p: int, b: Seq<u8>, pos: int)
    requires
        stands_behind(f, p, b),
        0 <= pos,
        model::thread_pc(b, pos) is Ok,
    ensures
        model::thread_pc(f, p + pos) == model::thread_pc(b, pos),
{
    lemma_fields(b.len() as int, pos, seq![4usize, 4], 0, p);
    assert(reader::total(seq![4usize, 4], 0) == 8) by {
        reveal_with_fuel(reader::total, 3);
    }
    lemma_word(f, p, b, pos);
    lemma_word(f, p, b, pos + 4);
    assert(p + pos + 4 == p + (pos + 4) && p + pos + 264 == p + (pos + 264));
    if pos + 272 <= b.len() {
        lemma_word64(f, p, b, pos + 264);
    }
}

proof fn lemma_totals()
    ensures
        reader::total(seq![8usize, 8], 0) == 16,
        reader::total(seq![4usize, 4, 4, 4], 0) == 16,
        reader::total(seq![4usize, 4, 4, 4, 4, 4, 4, 4], 0) == 32,
        reader::total(seq![4usize, 4, 4], 0) == 12,
        reader::total(seq![16usize], 0) == 16,
        reader::total(seq![4usize, 4], 0) == 8,
        reader::total(seq![4usize], 0) == 4,
        reader::total(seq![4usize, 4, 4, 4, 4, 4], 0) == 24,
{
    reveal_with_fuel(reader::total, 9);
}

/// A command that can be read says the same wherever its image stands.
#[verifier::spinoff_prover]
#[verifier::rlimit(60)]
proof fn lemma_command(f: Seq<u8>, p: int, b: Seq<u8>, off: int, cmd: u32, img: ImageView)
    requires
        stands_behind(f, p, b),
        0 <= off,
        model::command(b, off, cmd, img) is Ok,
    ensures
        model::command(f, p + off, cmd, img) == model::command(b, off, cmd, img),
{
    reveal(model::command);
    lemma_totals();
    let len = b.len() as int;
    let at = off + 8;
    assert(p + off + 8 == p + at);
    if cmd == LC_SEGMENT_64 {
        lemma_segment(f, p, b, at);
    } else if cmd == LC_LOAD_DYLIB || cmd == LC_LOAD_WEAK_DYLIB || cmd == LC_REEXPORT_DYLIB || cmd
        == LC_LOAD_DYLINKER {
        lemma_text(f, p, b, off);
    } else if cmd == LC_MAIN {
        lemma_fields(len, at, seq![8usize, 8], 0, p);
        lemma_word64(f, p, b, at);
        lemma_word64(f, p, b, at + 8);
    } else if cmd == LC_UNIXTHREAD {
        lemma_thread(f, p, b, at);
    } else if cmd == LC_SYMTAB {
        lemma_fields(len, at, seq![4usize, 4, 4, 4], 0, p);
        lemma_word(f, p, b, at);
        lemma_word(f, p, b, at + 4);
        lemma_word(f, p, b, at + 8);
        lemma_word(f, p, b, at + 12);
    } else if cmd == LC_DYLD_INFO || cmd == LC_DYLD_INFO_ONLY {
        lemma_fields(len, at, seq![4usize, 4, 4, 4, 4, 4, 4, 4], 0, p);
        lemma_word(f, p, b, at);
        lemma_word(f, p, b, at + 4);
        lemma_word(f, p, b, at + 8);
        lemma_word(f, p, b, at + 12);
        lemma_word(f, p, b, at + 16);
        lemma_word(f, p, b, at + 20);
        lemma_word(f, p, b, at + 24);
        lemma_word(f, p, b, at + 28);
    } else if cmd == LC_ENCRYPTION_INFO_64 {
        lemma_fields(len, at, seq![4usize, 4, 4], 0, p);
        lemma_word(f, p, b, at);
        lemma_word(f, p, b, at + 4);
        lemma_word(f, p, b, at + 8);
    } else if cmd == LC_UUID {
        lemma_fields(len, at, seq![16usize], 0, p);
        lemma_range(f, p, b, at, at + 16);
    } else if cmd == LC_FUNCTION_STARTS {
        lemma_fields(len, at, seq![4usize, 4], 0, p);
        lemma_word(f, p, b, at);
        lemma_word(f, p, b, at + 4);
    } else if cmd == LC_VERSION_MIN_IPHONEOS {
        lemma_fields(len, at, seq![4usize], 0, p);
        lemma_word(f, p, b, at);
    }
}

proof fn lemma_commands(f: Seq<u8>, p: int, b: Seq<u8>, off: int, i: int, n: int, img: ImageView)
    requires
        stands_behind(f, p, b),
        0 <= off,
        p + commands_end(b, off, i, n) <= usize::MAX,
        model::commands(b, off, i, n, img) is Ok,
    ensures
        model::commands(f, p + off, i, n, img) == model::commands(b, off, i, n, img),
    decreases n - i,
{
    if i < n {
        lemma_totals();
        lemma_fields(b.len() as int, off, seq![4usize, 4], 0, p);
        lemma_word(f, p, b, off);
        lemma_word(f, p, b, off + 4);
        assert(p + off + 4 == p + (off + 4));
        let size = bytes::le32(b, off + 4);
        let cmd = bytes::le32(b, off);
        lemma_command(f, p, b, off, cmd, img);
        let next = model::command(b, off, cmd, img)->Ok_0;
        lemma_commands_end(b, off + size, i + 1, n, next);
        lemma_commands(f, p, b, off + size, i + 1, n, next);
        assert(p + off + size == p + (off + size));
    }
}

proof fn lemma_thin(f: Seq<u8>, p: int, b: Seq<u8>)
    requires
        stands_behind(f, p, b),
        has_room(b, p),
        model::thin(b, 0) is Ok,
    ensures
        model::thin(f, p) == model::thin(b, 0),
{
    lemma_totals();
    lemma_fields(b.len() as int, 8, seq![4usize, 4, 4, 4, 4, 4], 0, p);
    lemma_word(f, p, b, 0);
    lemma_word(f, p, b, 4);
    lemma_word(f, p, b, 8);
    lemma_word(f, p, b, 12);
    lemma_word(f, p, b, 16);
    lemma_word(f, p, b, 24);
    let img = model::blank(bytes::le32(b, 8), bytes::le32(b, 12), bytes::le32(b, 24));
    lemma_commands_end(b, 32, 0, bytes::le32(b, 16) as int, img);
    lemma_commands(f, p, b, 32, 0, bytes::le32(b, 16) as int, img);
}

/// A file that starts with the Mach-O magic is no universal binary.
proof fn lemma_magic(b: Seq<u8>)
    requires
        b.len() >= 4,
        bytes::le32(b, 0) == MH_MAGIC_64,
    ensures
        !model::is_universal(b),
{
    assert(b[0] == 0xcf && b[1] == 0xfa && b[2] == 0xed && b[3] == 0xfe);
}

/// A universal binary is what its slice is: if the selected slice reaches to
/// the end of the file and is an image by itself, then the file is parsed to
/// that image.
pub proof fn slices_parse_like_files(f: Seq<u8>, p: int, b: Seq<u8>)
    requires
        f.len() >= 4,
        model::is_universal(f),
        model::fat_slice(f) == Ok::<int, ErrorView>(p),
        stands_behind(f, p, b),
        has_room(b, p),
        bytes::le32(b, 0) == MH_MAGIC_64,
        model::image(b) is Ok,
    ensures
        model::image(f) == model::image(b),
{
    lemma_magic(b);
    lemma_thin(f, p, b);
}

/// The universal binary whose one architecture is the arm64 image `b`.
pub open spec fn universal(b: Seq<u8>, subtype: u32, align: u32) -> Seq<u8> {
    bytes::be32_bytes(FAT_MAGIC) + bytes::be32_bytes(1) + bytes::be32_bytes(CPU_TYPE_ARM64)
        + bytes::be32_bytes(subtype) + bytes::be32_bytes(28) + bytes::be32_bytes(b.len() as u32)
        + bytes::be32_bytes(align) + b
}

proof fn lemma_be_at(f: Seq<u8>, at: int, v: u32)
    requires
        0 <= at,
        at + 4 <= f.len(),
        f.subrange(at, at + 4) =~= bytes::be32_bytes(v),
    ensures
        bytes::be32(f, at) == v,
{
    bytes::be32_roundtrip(v);
    let w = f.subrange(at, at + 4);
    assert(w[0] == f[at] && w[1] == f[at + 1] && w[2] == f[at + 2] && w[3] == f[at + 3]);
}

/// The words of the header of a universal binary.
proof fn lemma_header(b: Seq<u8>, subtype: u32, align: u32)
    requires
        b.len() <= u32::MAX,
    ensures
        ({
            let f = universal(b, subtype, align);
            &&& f.len() == 28 + b.len()
            &&& f.skip(28) == b
            &&& bytes::be32(f, 0) == FAT_MAGIC
            &&& bytes::be32(f, 4) == 1
            &&& bytes::be32(f, 8) == CPU_TYPE_ARM64
            &&& bytes::be32(f, 12) == subtype
            &&& bytes::be32(f, 16) == 28
            &&& bytes::be32(f, 20) == b.len()
        }),
{
    let f = universal(b, subtype, align);
    bytes::be32_roundtrip(FAT_MAGIC);
    bytes::be32_roundtrip(1);
    bytes::be32_roundtrip(CPU_TYPE_ARM64);
    bytes::be32_roundtrip(subtype);
    bytes::be32_roundtrip(28);
    bytes::be32_roundtrip(b.len() as u32);
    bytes::be32_roundtrip(align);
    assert(f.skip(28) =~= b);
    lemma_be_at(f, 0, FAT_MAGIC);
    lemma_be_at(f, 4, 1);
    lemma_be_at(f, 8, CPU_TYPE_ARM64);
    lemma_be_at(f, 12, subtype);
    lemma_be_at(f, 16, 28);
    lemma_be_at(f, 20, b.len() as u32);
}

/// The slice of a universal binary with one architecture stands behind its
/// header.
proof fn lemma_one_slice(b: Seq<u8>, subtype: u32, align: u32)
    requires
        b.len() <= u32::MAX,
        28 + b.len() <= usize::MAX,
    ensures
        ({
            let f = universal(b, subtype, align);
            &&& model::is_universal(f)
            &&& model::fat_slice(f) == Ok::<int, ErrorView>(28)
            &&& stands_behind(f, 28, b)
        }),
{
    let f = universal(b, subtype, align);
    lemma_header(b, subtype, align);
    let e = model::fat_entry(f, 8, false);
    assert(reader::first_shortage(f.len() as int, 0, seq![4usize, 4], 0) is None) by {
        reveal_with_fuel(reader::first_shortage, 3);
    }
    assert(reader::first_shortage(f.len() as int, 8, model::fat_fields(false), 0) is None) by {
        reveal_with_fuel(reader::first_shortage, 6);
    }
    assert(model::fat_entries(f, 8, 1, false) == Ok::<_, ErrorView>(seq![e])) by {
        reveal_with_fuel(model::fat_entries, 2);
        assert(seq![e] + Seq::<FatEntry>::empty() =~= seq![e]);
    }
    assert(model::pick(seq![e]) == Some(e)) by {
        reveal_with_fuel(model::pick, 2);
        assert(seq![e].last() == e);
        assert(seq![e].drop_last() =~= Seq::<FatEntry>::empty());
    }
}

/// Wrapping an image up as the one architecture of a universal binary changes
/// nothing of what is parsed.
pub proof fn one_slice_files_parse_like_their_slice(b: Seq<u8>, subtype: u32, align: u32)
    requires
        b.len() <= u32::MAX,
        28 + b.len() <= usize::MAX,
        has_room(b, 28),
        bytes::le32(b, 0) == MH_MAGIC_64,
        model::image(b) is Ok,
    ensures
        model::image(universal(b, subtype, align)) == model::image(b),
{
    lemma_one_slice(b, subtype, align);
    slices_parse_like_files(universal(b, subtype, align), 28, b);
}

/// The image after two commands.
pub open spec fn both(
    b: Seq<u8>,
    first: (int, u32),
    second: (int, u32),
    img: ImageView,
) -> Result<ImageView, ErrorView> {
    match model::command(b, first.0, first.1, img) {
        Err(e) => Err(e),
        Ok(next) => model::command(b, second.0, second.1, next),
    }
}

/// `LC_MAIN` gives the entry point whether it comes before `LC_UNIXTHREAD` or
/// after it: if each command can be read, so can both in either order, with the
/// same outcome.
pub proof fn main_outranks_thread(b: Seq<u8>, main: int, thread: int, img: ImageView)
    requires
        model::command(b, main, LC_MAIN, img) is Ok,
        model::command(b, thread, LC_UNIXTHREAD, img) is Ok,
    ensures
        ({
            let entry = Some(
                EntryPoint::Main {
                    file_offset: bytes::le64(b, main + 8),
                    stack_size: bytes::le64(b, main + 16),
                },
            );
            let after = Ok::<ImageView, ErrorView>(ImageView { entry, ..img });
            &&& both(b, (main, LC_MAIN), (thread, LC_UNIXTHREAD), img) == after
            &&& both(b, (thread, LC_UNIXTHREAD), (main, LC_MAIN), img) == after
        }),
{
    reveal(model::command);
}

} // verus!
