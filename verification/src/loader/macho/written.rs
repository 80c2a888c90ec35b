//! What the fields of a Mach-O file are read as.

use vstd::prelude::*;

use crate::bytes;
use crate::common::error::ErrorView;
use crate::common::Protection;
use crate::digits;
use crate::loader::macho::image::{Encryption, EntryPoint, SymtabInfo};
use crate::loader::macho::model;
use crate::loader::macho::model::{DylibView, FatEntry, ImageView, SectionView, SegmentView};
use crate::loader::macho::reader;
use crate::text;

verus! {

/// Whether the four bytes at `p` are the number `v`, lowest digit first.
pub open spec fn word(b: Seq<u8>, p: int, v: u32) -> bool {
    0 <= p && p + 4 <= b.len() && digits::numeral(b.subrange(p, p + 4)) == v
}

/// Whether the eight bytes at `p` are the number `v`, lowest digit first.
pub open spec fn long(b: Seq<u8>, p: int, v: u64) -> bool {
    0 <= p && p + 8 <= b.len() && digits::numeral(b.subrange(p, p + 8)) == v
}

/// Whether the words from `p` on are `ws`.
pub open spec fn words(b: Seq<u8>, p: int, ws: Seq<u32>) -> bool {
    forall|i: int| 0 <= i < ws.len() ==> word(b, p + 4 * i, #[trigger] ws[i])
}

/// Whether the double words from `p` on are `ws`.
pub open spec fn longs(b: Seq<u8>, p: int, ws: Seq<u64>) -> bool {
    forall|i: int| 0 <= i < ws.len() ==> long(b, p + 8 * i, #[trigger] ws[i])
}

/// Whether the four bytes at `p` are the number `v`, highest digit first.
pub open spec fn big_word(b: Seq<u8>, p: int, v: u32) -> bool {
    0 <= p && p + 4 <= b.len() && digits::numeral(b.subrange(p, p + 4).reverse()) == v
}

/// Whether the eight bytes at `p` are the number `v`, highest digit first.
pub open spec fn big_long(b: Seq<u8>, p: int, v: u64) -> bool {
    0 <= p && p + 8 <= b.len() && digits::numeral(b.subrange(p, p + 8).reverse()) == v
}

/// Whether the field of `width` bytes at `p` holds `name` and is filled up with
/// zeros.
pub open spec fn field(b: Seq<u8>, p: int, width: int, name: Seq<u8>) -> bool {
    &&& 0 <= p && p + width <= b.len()
    &&& name.len() <= width
    &&& forall|k: int| 0 <= k < name.len() ==> name[k] != 0 && #[trigger] b[p + k] == name[k]
    &&& forall|k: int| name.len() <= k < width ==> #[trigger] b[p + k] == 0
}

/// Whether `name`, ended by a zero, stands at `p`.
pub open spec fn terminated(b: Seq<u8>, p: int, name: Seq<u8>) -> bool {
    &&& 0 <= p && p + name.len() < b.len()
    &&& forall|k: int| 0 <= k < name.len() ==> name[k] != 0 && #[trigger] b[p + k] == name[k]
    &&& b[p + name.len()] == 0
}

// ---- lemmas -----------------------------------------------------------------

proof fn lemma_word(b: Seq<u8>, p: int, v: u32)
    requires
        word(b, p, v),
    ensures
        bytes::le32(b, p) == v,
        p + 4 <= b.len(),
{
    digits::values_are_numerals(b, p);
}

proof fn lemma_long(b: Seq<u8>, p: int, v: u64)
    requires
        long(b, p, v),
    ensures
        bytes::le64(b, p) == v,
        p + 8 <= b.len(),
{
    digits::values_are_numerals(b, p);
}

proof fn lemma_words(b: Seq<u8>, p: int, ws: Seq<u32>)
    requires
        words(b, p, ws),
    ensures
        forall|i: int| 0 <= i < ws.len() ==> bytes::le32(b, p + 4 * i) == #[trigger] ws[i],
        ws.len() > 0 ==> p + 4 * ws.len() <= b.len(),
{
    assert forall|i: int| 0 <= i < ws.len() implies bytes::le32(b, p + 4 * i) == #[trigger] ws[i] by {
        lemma_word(b, p + 4 * i, ws[i]);
    }
    if ws.len() > 0 {
        let last = ws[ws.len() - 1];
        lemma_word(b, p + 4 * (ws.len() - 1), last);
    }
}

proof fn lemma_longs(b: Seq<u8>, p: int, ws: Seq<u64>)
    requires
        longs(b, p, ws),
    ensures
        forall|i: int| 0 <= i < ws.len() ==> bytes::le64(b, p + 8 * i) == #[trigger] ws[i],
        ws.len() > 0 ==> p + 8 * ws.len() <= b.len(),
{
    assert forall|i: int| 0 <= i < ws.len() implies bytes::le64(b, p + 8 * i) == #[trigger] ws[i] by {
        lemma_long(b, p + 8 * i, ws[i]);
    }
    if ws.len() > 0 {
        let last = ws[ws.len() - 1];
        lemma_long(b, p + 8 * (ws.len() - 1), last);
    }
}

/// Fields that fit are all there.
proof fn lemma_fits(len: int, pos: int, widths: Seq<usize>, i: int)
    requires
        len <= usize::MAX,
        0 <= i <= widths.len(),
        pos + reader::total(widths, i) <= len,
    ensures
        reader::first_shortage(len, pos, widths, i) is None,
        reader::total(widths, i) >= 0,
    decreases widths.len() - i,
{
    lemma_total(widths, i);
    if i < widths.len() {
        lemma_total(widths, i + 1);
        lemma_fits(len, pos + widths[i], widths, i + 1);
    }
}

proof fn lemma_total(widths: Seq<usize>, i: int)
    requires
        0 <= i,
    ensures
        reader::total(widths, i) >= 0,
    decreases widths.len() - i,
{
    if i < widths.len() {
        lemma_total(widths, i + 1);
    }
}

proof fn lemma_field(b: Seq<u8>, p: int, width: int, name: Seq<u8>)
    requires
        field(b, p, width, name),
    ensures
        reader::padded_text(b.subrange(p, p + width)) == text::utf8_lossy(name),
{
    let f = b.subrange(p, p + width);
    bytes::lemma_next(f, 0, 0);
    let e = bytes::next(f, 0, 0);
    if e < name.len() {
        assert(b[p + e] == name[e]);
    } else if e > name.len() {
        assert(f[name.len() as int] == b[p + name.len()]);
    }
    assert(f.take(e) =~= name) by {
        assert forall|k: int| 0 <= k < e implies f.take(e)[k] == name[k] by {
            assert(b[p + k] == name[k]);
        }
    }
}

proof fn lemma_text(b: Seq<u8>, off: int, k: u32, name: Seq<u8>)
    requires
        b.len() <= usize::MAX,
        0 <= off,
        word(b, off + 8, k),
        terminated(b, off + k, name),
    ensures
        model::command_text(b, off) == Ok::<Seq<char>, ErrorView>(text::utf8_lossy(name)),
{
    lemma_word(b, off + 8, k);
    assert(reader::first_shortage(b.len() as int, off + 8, seq![4usize], 0) is None) by {
        reveal_with_fuel(reader::total, 2);
        lemma_fits(b.len() as int, off + 8, seq![4usize], 0);
    }
    let p = off + k;
    bytes::lemma_next(b, p, 0);
    let e = bytes::next(b, p, 0);
    if e < p + name.len() {
        assert(b[p + (e - p)] == name[e - p]);
    }
    assert(e == p + name.len());
    assert(b.subrange(p, e) =~= name) by {
        assert forall|j: int| 0 <= j < name.len() implies b.subrange(p, e)[j] == name[j] by {
            assert(b[p + j] == name[j]);
        }
    }
}

// ---- commands ---------------------------------------------------------------

/// `LC_MAIN` gives the entry point's offset in the file and the stack size.
pub proof fn main_commands_are_read(b: Seq<u8>, off: int, img: ImageView, entry: u64, stack: u64)
    requires
        b.len() <= usize::MAX,
        0 <= off,
        longs(b, off + 8, seq![entry, stack]),
    ensures
        model::command(b, off, 0x8000_0028, img) == Ok::<ImageView, ErrorView>(
            ImageView {
                entry: Some(EntryPoint::Main { file_offset: entry, stack_size: stack }),
                ..img
            },
        ),
{
    let ws = seq![entry, stack];
    lemma_longs(b, off + 8, ws);
    assert(bytes::le64(b, off + 8 + 8 * 0) == ws[0] && bytes::le64(b, off + 8 + 8 * 1) == ws[1]);
    assert(reader::first_shortage(b.len() as int, off + 8, seq![8usize, 8], 0) is None) by {
        reveal_with_fuel(reader::total, 3);
        lemma_fits(b.len() as int, off + 8, seq![8usize, 8], 0);
    }
    reveal(model::command);
}

/// `LC_UNIXTHREAD` with an arm64 state gives the address in its program
/// counter, behind 29 registers, the frame pointer, the link register and the
/// stack pointer, if nothing gave an entry point before.
pub proof fn threads_are_read(b: Seq<u8>, off: int, img: ImageView, pc: u64)
    requires
        b.len() <= usize::MAX,
        0 <= off,
        words(b, off + 8, seq![6, 68]),
        long(b, off + 16 + 8 * 32, pc),
    ensures
        img.entry is None ==> model::command(b, off, 0x5, img) == Ok::<ImageView, ErrorView>(
            ImageView { entry: Some(EntryPoint::Thread { vmaddr: pc }), ..img },
        ),
        img.entry is Some ==> model::command(b, off, 0x5, img) == Ok::<ImageView, ErrorView>(img),
{
    let ws = seq![6u32, 68];
    lemma_words(b, off + 8, ws);
    assert(bytes::le32(b, off + 8 + 4 * 0) == ws[0] && bytes::le32(b, off + 8 + 4 * 1) == ws[1]);
    lemma_long(b, off + 16 + 8 * 32, pc);
    assert(reader::first_shortage(b.len() as int, off + 8, seq![4usize, 4], 0) is None) by {
        reveal_with_fuel(reader::total, 3);
        lemma_fits(b.len() as int, off + 8, seq![4usize, 4], 0);
    }
    reveal(model::command);
}

/// `LC_SYMTAB` gives the symbols' place and number and the strings' place and
/// size, in this order.
pub proof fn symbol_tables_are_read(b: Seq<u8>, off: int, img: ImageView, t: SymtabInfo)
    requires
        b.len() <= usize::MAX,
        0 <= off,
        words(b, off + 8, seq![t.symoff, t.nsyms, t.stroff, t.strsize]),
    ensures
        model::command(b, off, 0x2, img) == Ok::<ImageView, ErrorView>(
            ImageView { symtab: Some(t), ..img },
        ),
{
    let ws = seq![t.symoff, t.nsyms, t.stroff, t.strsize];
    lemma_words(b, off + 8, ws);
    assert(bytes::le32(b, off + 8 + 4 * 0) == ws[0] && bytes::le32(b, off + 8 + 4 * 1) == ws[1]
        && bytes::le32(b, off + 8 + 4 * 2) == ws[2] && bytes::le32(b, off + 8 + 4 * 3) == ws[3]);
    assert(reader::first_shortage(b.len() as int, off + 8, seq![4usize, 4, 4, 4], 0) is None) by {
        reveal_with_fuel(reader::total, 5);
        lemma_fits(b.len() as int, off + 8, seq![4usize, 4, 4, 4], 0);
    }
    reveal(model::command);
}

/// `LC_DYLD_INFO` gives the place and size of the rebase, bind, lazy bind and
/// export data, in this order.
pub proof fn dyld_infos_are_read(b: Seq<u8>, off: int, cmd: u32, img: ImageView, ws: Seq<u32>)
    requires
        b.len() <= usize::MAX,
        0 <= off,
        cmd == 0x22 || cmd == 0x8000_0022,
        ws.len() == 8,
        words(b, off + 8, ws),
    ensures
        model::command(b, off, cmd, img) matches Ok(next) && {
            &&& next == (ImageView { dyld_info: next.dyld_info, ..img })
            &&& next.dyld_info matches Some(i) && {
                &&& i.rebase_off == ws[0] && i.rebase_size == ws[1]
                &&& i.bind_off == ws[2] && i.bind_size == ws[3]
                &&& i.lazy_bind_off == ws[4] && i.lazy_bind_size == ws[5]
                &&& i.export_off == ws[6] && i.export_size == ws[7]
            }
        },
{
    lemma_words(b, off + 8, ws);
    assert(bytes::le32(b, off + 8 + 4 * 0) == ws[0] && bytes::le32(b, off + 8 + 4 * 1) == ws[1]
        && bytes::le32(b, off + 8 + 4 * 2) == ws[2] && bytes::le32(b, off + 8 + 4 * 3) == ws[3]);
    assert(bytes::le32(b, off + 8 + 4 * 4) == ws[4] && bytes::le32(b, off + 8 + 4 * 5) == ws[5]
        && bytes::le32(b, off + 8 + 4 * 6) == ws[6] && bytes::le32(b, off + 8 + 4 * 7) == ws[7]);
    let fs = seq![4usize, 4, 4, 4, 4, 4, 4, 4];
    assert(reader::first_shortage(b.len() as int, off + 8, fs, 0) is None) by {
        reveal_with_fuel(reader::total, 9);
        lemma_fits(b.len() as int, off + 8, fs, 0);
    }
    reveal(model::command);
}

/// `LC_ENCRYPTION_INFO_64` gives the encrypted range and how it is encrypted.
pub proof fn encryption_is_read(b: Seq<u8>, off: int, img: ImageView, e: Encryption)
    requires
        b.len() <= usize::MAX,
        0 <= off,
        words(b, off + 8, seq![e.cryptoff, e.cryptsize, e.cryptid]),
    ensures
        model::command(b, off, 0x2c, img) == Ok::<ImageView, ErrorView>(
            ImageView { encryption: Some(e), ..img },
        ),
{
    let ws = seq![e.cryptoff, e.cryptsize, e.cryptid];
    lemma_words(b, off + 8, ws);
    assert(bytes::le32(b, off + 8 + 4 * 0) == ws[0] && bytes::le32(b, off + 8 + 4 * 1) == ws[1]
        && bytes::le32(b, off + 8 + 4 * 2) == ws[2]);
    assert(reader::first_shortage(b.len() as int, off + 8, seq![4usize, 4, 4], 0) is None) by {
        reveal_with_fuel(reader::total, 4);
        lemma_fits(b.len() as int, off + 8, seq![4usize, 4, 4], 0);
    }
    reveal(model::command);
}

/// `LC_UUID` gives sixteen bytes, `LC_FUNCTION_STARTS` a place and a size, and
/// `LC_VERSION_MIN_IPHONEOS` a version.
pub proof fn small_commands_are_read(
    b: Seq<u8>,
    off: int,
    img: ImageView,
    uuid: Seq<u8>,
    x: u32,
    y: u32,
)
    requires
        b.len() <= usize::MAX,
        0 <= off,
    ensures
        uuid.len() == 16 && bytes::stands_at(b, off + 8, uuid) ==> model::command(
            b,
            off,
            0x1b,
            img,
        ) == Ok::<ImageView, ErrorView>(ImageView { uuid: Some(uuid), ..img }),
        words(b, off + 8, seq![x, y]) ==> model::command(b, off, 0x26, img) == Ok::<
            ImageView,
            ErrorView,
        >(ImageView { function_starts: Some((x, y)), ..img }),
        word(b, off + 8, x) ==> model::command(b, off, 0x25, img) == Ok::<ImageView, ErrorView>(
            ImageView { min_os_version: Some(x), ..img },
        ),
{
    let len = b.len() as int;
    if uuid.len() == 16 && bytes::stands_at(b, off + 8, uuid) {
        assert(reader::first_shortage(len, off + 8, seq![16usize], 0) is None) by {
            reveal_with_fuel(reader::total, 2);
            lemma_fits(len, off + 8, seq![16usize], 0);
        }
        assert(model::command(b, off, 0x1b, img) == Ok::<ImageView, ErrorView>(
            ImageView { uuid: Some(uuid), ..img },
        )) by {
            reveal(model::command);
        }
    }
    if words(b, off + 8, seq![x, y]) {
        let ws = seq![x, y];
        lemma_words(b, off + 8, ws);
        assert(bytes::le32(b, off + 8 + 4 * 0) == ws[0] && bytes::le32(b, off + 8 + 4 * 1)
            == ws[1]);
        assert(reader::first_shortage(len, off + 8, seq![4usize, 4], 0) is None) by {
            reveal_with_fuel(reader::total, 3);
            lemma_fits(len, off + 8, seq![4usize, 4], 0);
        }
        assert(model::command(b, off, 0x26, img) == Ok::<ImageView, ErrorView>(
            ImageView { function_starts: Some((x, y)), ..img },
        )) by {
            reveal(model::command);
        }
    }
    if word(b, off + 8, x) {
        lemma_word(b, off + 8, x);
        assert(reader::first_shortage(len, off + 8, seq![4usize], 0) is None) by {
            reveal_with_fuel(reader::total, 2);
            lemma_fits(len, off + 8, seq![4usize], 0);
        }
        assert(model::command(b, off, 0x25, img) == Ok::<ImageView, ErrorView>(
            ImageView { min_os_version: Some(x), ..img },
        )) by {
            reveal(model::command);
        }
    }
}

/// The commands that load libraries give the path that stands at the offset
/// they name, and whether the library may be missing or is exported again; so
/// does the one that names the linker.
pub proof fn libraries_are_read(b: Seq<u8>, off: int, img: ImageView, k: u32, name: Seq<u8>)
    requires
        b.len() <= usize::MAX,
        0 <= off,
        word(b, off + 8, k),
        terminated(b, off + k, name),
    ensures
        model::command(b, off, 0x0c, img) == Ok::<ImageView, ErrorView>(
            ImageView {
                dylibs: img.dylibs.push(
                    DylibView { path: text::utf8_lossy(name), weak: false, reexport: false },
                ),
                ..img
            },
        ),
        model::command(b, off, 0x8000_0018, img) == Ok::<ImageView, ErrorView>(
            ImageView {
                dylibs: img.dylibs.push(
                    DylibView { path: text::utf8_lossy(name), weak: true, reexport: false },
                ),
                ..img
            },
        ),
        model::command(b, off, 0x8000_001f, img) == Ok::<ImageView, ErrorView>(
            ImageView {
                dylibs: img.dylibs.push(
                    DylibView { path: text::utf8_lossy(name), weak: false, reexport: true },
                ),
                ..img
            },
        ),
        model::command(b, off, 0x0e, img) == Ok::<ImageView, ErrorView>(
            ImageView { dylinker: Some(text::utf8_lossy(name)), ..img },
        ),
{
    lemma_word(b, off + 8, k);
    lemma_text(b, off, k, name);
    reveal(model::command);
}

/// Where section number `i` of the segment command at `off` stands.
pub open spec fn section_place(off: int, i: int) -> int {
    off + 72 + 80 * i
}

proof fn lemma_sections(b: Seq<u8>, pos: int, n: nat, i: int)
    requires
        b.len() <= usize::MAX,
        0 <= pos,
        pos + 80 * n <= b.len(),
    ensures
        model::sections_at(b, pos, n) matches Ok(s) && s.len() == n && (0 <= i < n ==> s[i]
            == model::section_at(b, pos + 80 * i)),
    decreases n,
{
    if n > 0 {
        assert(reader::first_shortage(b.len() as int, pos, model::section_fields(), 0) is None) by {
            reveal_with_fuel(reader::total, 13);
            lemma_fits(b.len() as int, pos, model::section_fields(), 0);
        }
        lemma_sections(b, pos + 80, (n - 1) as nat, i - 1);
    }
}

/// `LC_SEGMENT_64` adds a segment with the name, the place in memory and in the
/// file, the protections and the sections that the command gives.
pub proof fn segments_are_read(
    b: Seq<u8>,
    off: int,
    img: ImageView,
    name: Seq<u8>,
    ls: Seq<u64>,
    ws: Seq<u32>,
)
    requires
        b.len() <= usize::MAX,
        0 <= off,
        field(b, off + 8, 16, name),
        ls.len() == 4,
        longs(b, off + 24, ls),
        ws.len() == 4,
        words(b, off + 56, ws),
        section_place(off, ws[2] as int) <= b.len(),
    ensures
        model::command(b, off, 0x19, img) matches Ok(next) && {
            &&& next == (ImageView { segments: next.segments, ..img })
            &&& next.segments.len() == img.segments.len() + 1
            &&& next.segments.drop_last() == img.segments
            &&& {
                let s = next.segments.last();
                &&& s.name == text::utf8_lossy(name)
                &&& s.vmaddr == ls[0] && s.vmsize == ls[1]
                &&& s.fileoff == ls[2] && s.filesize == ls[3]
                &&& s.maxprot == Protection((ws[0] % 8) as u8)
                &&& s.initprot == Protection((ws[1] % 8) as u8)
                &&& s.sections.len() == ws[2]
            }
        },
{
    lemma_longs(b, off + 24, ls);
    assert(bytes::le64(b, off + 24 + 8 * 0) == ls[0] && bytes::le64(b, off + 24 + 8 * 1) == ls[1]
        && bytes::le64(b, off + 24 + 8 * 2) == ls[2] && bytes::le64(b, off + 24 + 8 * 3) == ls[3]);
    lemma_words(b, off + 56, ws);
    assert(bytes::le32(b, off + 56 + 4 * 0) == ws[0] && bytes::le32(b, off + 56 + 4 * 1) == ws[1]
        && bytes::le32(b, off + 56 + 4 * 2) == ws[2]);
    lemma_field(b, off + 8, 16, name);
    lemma_sections(b, off + 72, ws[2] as nat, 0);
    assert(reader::first_shortage(b.len() as int, off + 8, model::segment_fields(), 0) is None) by {
        reveal_with_fuel(reader::total, 10);
        lemma_fits(b.len() as int, off + 8, model::segment_fields(), 0);
    }
    let s = model::segment_at(b, off + 8);
    assert(s is Ok);
    assert(model::command(b, off, 0x19, img) == Ok::<ImageView, ErrorView>(
        ImageView { segments: img.segments.push(s->Ok_0), ..img },
    )) by {
        reveal(model::command);
    }
    assert(img.segments.push(s->Ok_0).drop_last() =~= img.segments);
}

/// Each section of the segment has the names, the place and the flags that its
/// record gives.
pub proof fn sections_are_read(
    b: Seq<u8>,
    off: int,
    img: ImageView,
    n: u32,
    i: int,
    name: Seq<u8>,
    segment: Seq<u8>,
    addr: u64,
    size: u64,
    ws: Seq<u32>,
)
    requires
        b.len() <= usize::MAX,
        0 <= off,
        word(b, off + 64, n),
        section_place(off, n as int) <= b.len(),
        0 <= i < n,
        field(b, section_place(off, i), 16, name),
        field(b, section_place(off, i) + 16, 16, segment),
        longs(b, section_place(off, i) + 32, seq![addr, size]),
        ws.len() == 8,
        words(b, section_place(off, i) + 48, ws),
    ensures
        model::command(b, off, 0x19, img) matches Ok(next) && next.segments.len() > 0
            && next.segments.last().sections.len() == n && next.segments.last().sections[i] == (
        SectionView {
            name: text::utf8_lossy(name),
            seg_name: text::utf8_lossy(segment),
            addr,
            size,
            offset: ws[0],
            flags: ws[4],
        }),
{
    let p = section_place(off, i);
    let ls = seq![addr, size];
    lemma_longs(b, p + 32, ls);
    assert(bytes::le64(b, p + 32 + 8 * 0) == ls[0] && bytes::le64(b, p + 32 + 8 * 1) == ls[1]);
    lemma_words(b, p + 48, ws);
    assert(bytes::le32(b, p + 48 + 4 * 0) == ws[0] && bytes::le32(b, p + 48 + 4 * 4) == ws[4]);
    lemma_field(b, p, 16, name);
    lemma_field(b, p + 16, 16, segment);
    lemma_word(b, off + 64, n);
    lemma_sections(b, off + 72, n as nat, i);
    assert(reader::first_shortage(b.len() as int, off + 8, model::segment_fields(), 0) is None) by {
        reveal_with_fuel(reader::total, 10);
        lemma_fits(b.len() as int, off + 8, model::segment_fields(), 0);
    }
    let s = model::segment_at(b, off + 8);
    assert(s is Ok);
    assert(model::command(b, off, 0x19, img) == Ok::<ImageView, ErrorView>(
        ImageView { segments: img.segments.push(s->Ok_0), ..img },
    )) by {
        reveal(model::command);
    }
}

/// Any other command changes nothing.
pub proof fn other_commands_are_skipped(b: Seq<u8>, off: int, cmd: u32, img: ImageView)
    requires
        cmd != 0x19 && cmd != 0x2 && cmd != 0x5 && cmd != 0x0c && cmd != 0x0e,
        cmd != 0x1b && cmd != 0x22 && cmd != 0x25 && cmd != 0x26 && cmd != 0x2c,
        cmd != 0x8000_0018 && cmd != 0x8000_001f && cmd != 0x8000_0022 && cmd != 0x8000_0028,
    ensures
        model::command(b, off, cmd, img) == Ok::<ImageView, ErrorView>(img),
{
    reveal(model::command);
}

/// Commands follow each other by their sizes: the next one is looked for where
/// the first one says that it ends.
pub proof fn commands_follow_each_other(
    b: Seq<u8>,
    off: int,
    i: int,
    n: int,
    img: ImageView,
    cmd: u32,
    size: u32,
)
    requires
        b.len() <= usize::MAX,
        0 <= off,
        i < n,
        words(b, off, seq![cmd, size]),
        off + size <= usize::MAX,
    ensures
        size >= 8 ==> model::commands(b, off, i, n, img) == match model::command(
            b,
            off,
            cmd,
            img,
        ) {
            Ok(next) => model::commands(b, off + size, i + 1, n, next),
            Err(e) => Err(e),
        },
        size < 8 ==> model::commands(b, off, i, n, img) is Err,
        model::commands(b, off, n, n, img) == Ok::<ImageView, ErrorView>(img),
{
    let ws = seq![cmd, size];
    lemma_words(b, off, ws);
    assert(bytes::le32(b, off + 4 * 0) == ws[0] && bytes::le32(b, off + 4 * 1) == ws[1]);
    assert(reader::first_shortage(b.len() as int, off, seq![4usize, 4], 0) is None) by {
        reveal_with_fuel(reader::total, 3);
        lemma_fits(b.len() as int, off, seq![4usize, 4], 0);
    }
}

/// A file that starts with the header of a 64-bit arm64 image is that image: its
/// commands, as many as the header says, follow the header, and at first it has
/// nothing but what the header gives. An image without segments is refused.
pub proof fn headers_are_read(
    b: Seq<u8>,
    subtype: u32,
    filetype: u32,
    ncmds: u32,
    size: u32,
    flags: u32,
    reserved: u32,
)
    requires
        b.len() <= usize::MAX,
        words(
            b,
            0,
            seq![0xfeed_facf, 0x0100_000c, subtype, filetype, ncmds, size, flags, reserved],
        ),
    ensures
        ({
            let start = ImageView {
                cpu_subtype: subtype,
                filetype,
                flags,
                segments: seq![],
                dylibs: seq![],
                dylinker: None,
                entry: None,
                symtab: None,
                dyld_info: None,
                encryption: None,
                uuid: None,
                function_starts: None,
                min_os_version: None,
            };
            match model::commands(b, 32, 0, ncmds as int, start) {
                Ok(img) => if img.segments.len() > 0 {
                    model::image(b) == Ok::<ImageView, ErrorView>(img)
                } else {
                    model::image(b) is Err
                },
                Err(e) => model::image(b) == Err::<ImageView, ErrorView>(e),
            }
        }),
{
    lemma_header(b, subtype, filetype, ncmds, size, flags, reserved);
}

/// The fields of a header, and that it starts no universal binary.
proof fn lemma_header(
    b: Seq<u8>,
    subtype: u32,
    filetype: u32,
    ncmds: u32,
    size: u32,
    flags: u32,
    reserved: u32,
)
    requires
        b.len() <= usize::MAX,
        words(
            b,
            0,
            seq![0xfeed_facf, 0x0100_000c, subtype, filetype, ncmds, size, flags, reserved],
        ),
    ensures
        b.len() >= 32,
        bytes::le32(b, 0) == 0xfeed_facf,
        bytes::le32(b, 4) == 0x0100_000c,
        bytes::le32(b, 8) == subtype,
        bytes::le32(b, 12) == filetype,
        bytes::le32(b, 16) == ncmds,
        bytes::le32(b, 24) == flags,
        reader::first_shortage(b.len() as int, 8, seq![4usize, 4, 4, 4, 4, 4], 0) is None,
        !model::is_universal(b),
{
    let ws = seq![0xfeed_facfu32, 0x0100_000c, subtype, filetype, ncmds, size, flags, reserved];
    lemma_words(b, 0, ws);
    assert(bytes::le32(b, 0int + 4 * 0) == ws[0] && bytes::le32(b, 0int + 4 * 1) == ws[1]
        && bytes::le32(b, 0int + 4 * 2) == ws[2] && bytes::le32(b, 0int + 4 * 3) == ws[3]);
    assert(bytes::le32(b, 0int + 4 * 4) == ws[4] && bytes::le32(b, 0int + 4 * 6) == ws[6]);
    let fs = seq![4usize, 4, 4, 4, 4, 4];
    assert(reader::first_shortage(b.len() as int, 8, fs, 0) is None) by {
        reveal_with_fuel(reader::total, 7);
        lemma_fits(b.len() as int, 8, fs, 0);
    }
    assert(b[0] == 0xcf && b[3] == 0xfe);
}

/// A file that starts otherwise is refused: an image for another processor, and
/// anything that is neither an image nor a universal binary.
pub proof fn other_files_are_refused(b: Seq<u8>, magic: u32, cputype: u32)
    requires
        word(b, 0, magic),
        !big_word(b, 0, 0xcafe_babe),
        !big_word(b, 0, 0xcafe_babf),
        magic != 0xcafe_babe,
        magic != 0xcafe_babf,
    ensures
        magic != 0xfeed_facf ==> model::image(b) is Err,
        word(b, 4, cputype) && cputype != 0x0100_000c ==> model::image(b) is Err,
{
    digits::values_are_numerals(b, 0);
    if word(b, 4, cputype) {
        lemma_word(b, 4, cputype);
    }
}

// ---- universal binaries -----------------------------------------------------

/// Whether the entry for an architecture at `p` is `e`, in the narrow form.
pub open spec fn narrow(b: Seq<u8>, p: int, e: FatEntry) -> bool {
    &&& p + 20 <= b.len()
    &&& big_word(b, p, e.cputype)
    &&& big_word(b, p + 4, e.cpusubtype)
    &&& e.offset <= u32::MAX && big_word(b, p + 8, e.offset as u32)
    &&& e.size <= u32::MAX && big_word(b, p + 12, e.size as u32)
}

/// Whether the entry for an architecture at `p` is `e`, in the wide form.
pub open spec fn wide(b: Seq<u8>, p: int, e: FatEntry) -> bool {
    &&& p + 32 <= b.len()
    &&& big_word(b, p, e.cputype)
    &&& big_word(b, p + 4, e.cpusubtype)
    &&& big_long(b, p + 8, e.offset)
    &&& big_long(b, p + 16, e.size)
}

proof fn lemma_entries(b: Seq<u8>, pos: int, es: Seq<FatEntry>, is64: bool)
    requires
        b.len() <= usize::MAX,
        0 <= pos,
        is64 ==> forall|i: int| 0 <= i < es.len() ==> wide(b, pos + 32 * i, #[trigger] es[i]),
        !is64 ==> forall|i: int| 0 <= i < es.len() ==> narrow(b, pos + 20 * i, #[trigger] es[i]),
    ensures
        model::fat_entries(b, pos, es.len(), is64) == Ok::<Seq<FatEntry>, ErrorView>(es),
    decreases es.len(),
{
    if es.len() > 0 {
        let e = es[0];
        let rest = es.drop_first();
        let width: int = if is64 {
            32
        } else {
            20
        };
        assert(is64 ==> wide(b, pos + 32 * 0, es[0]));
        assert(!is64 ==> narrow(b, pos + 20 * 0, es[0]));
        assert(reader::first_shortage(b.len() as int, pos, model::fat_fields(is64), 0) is None) by {
            reveal_with_fuel(reader::total, 7);
            lemma_fits(b.len() as int, pos, model::fat_fields(is64), 0);
        }
        assert(model::fat_entry(b, pos, is64) == e) by {
            digits::values_are_numerals(b, pos);
            digits::values_are_numerals(b, pos + 4);
            digits::values_are_numerals(b, pos + 8);
            digits::values_are_numerals(b, pos + 12);
            digits::values_are_numerals(b, pos + 16);
        }
        assert forall|i: int| is64 && 0 <= i < rest.len() implies wide(
            b,
            pos + width + 32 * i,
            #[trigger] rest[i],
        ) by {
            assert(rest[i] == es[i + 1]);
            assert(pos + width + 32 * i == pos + 32 * (i + 1));
        }
        assert forall|i: int| !is64 && 0 <= i < rest.len() implies narrow(
            b,
            pos + width + 20 * i,
            #[trigger] rest[i],
        ) by {
            assert(rest[i] == es[i + 1]);
            assert(pos + width + 20 * i == pos + 20 * (i + 1));
        }
        lemma_entries(b, pos + width, rest, is64);
        assert(seq![e] + rest =~= es);
    } else {
        assert(es =~= Seq::empty());
    }
}

/// A universal binary is the image in the slice that the chosen architecture's
/// entry names, provided that the slice lies in the file; the entries follow the
/// magic number and their number, in the narrow or the wide form as the magic
/// number says.
pub proof fn universal_binaries_are_read(b: Seq<u8>, es: Seq<FatEntry>)
    requires
        b.len() <= usize::MAX,
        es.len() <= u32::MAX,
        big_word(b, 4, es.len() as u32),
        ({
            ||| big_word(b, 0, 0xcafe_babe) && forall|i: int|
                0 <= i < es.len() ==> narrow(b, 8 + 20 * i, #[trigger] es[i])
            ||| big_word(b, 0, 0xcafe_babf) && forall|i: int|
                0 <= i < es.len() ==> wide(b, 8 + 32 * i, #[trigger] es[i])
        }),
    ensures
        match model::pick(es) {
            None => model::image(b) is Err,
            Some(e) => if e.offset + e.size <= b.len() {
                model::image(b) == model::thin(b, e.offset as int)
            } else {
                model::image(b) is Err
            },
        },
{
    digits::values_are_numerals(b, 0);
    digits::values_are_numerals(b, 4);
    let is64 = bytes::be32(b, 0) == 0xcafe_babf;
    assert(reader::first_shortage(b.len() as int, 0, seq![4usize, 4], 0) is None) by {
        reveal_with_fuel(reader::total, 3);
        lemma_fits(b.len() as int, 0, seq![4usize, 4], 0);
    }
    lemma_entries(b, 8, es, is64);
}

// ---- the whole image --------------------------------------------------------

/// The base of an image is the address of its first segment called `__TEXT`,
/// and zero without one.
pub proof fn images_start_at_their_text(img: ImageView, i: int)
    ensures
        0 <= i < img.segments.len() && img.segments[i].name == "__TEXT"@ && (forall|j: int|
            0 <= j < i ==> (#[trigger] img.segments[j]).name != "__TEXT"@) ==> img.text_vmaddr()
            == img.segments[i].vmaddr,
        (forall|j: int|
            0 <= j < img.segments.len() ==> (#[trigger] img.segments[j]).name != "__TEXT"@)
            ==> img.text_vmaddr() == 0,
{
    lemma_named(img.segments, "__TEXT"@, 0);
    let k = model::segment_named(img.segments, "__TEXT"@, 0);
    if 0 <= i < img.segments.len() && img.segments[i].name == "__TEXT"@ {
        if k < i {
            assert(img.segments[k].name == "__TEXT"@);
        }
    }
}

proof fn lemma_named(segments: Seq<SegmentView>, name: Seq<char>, from: int)
    requires
        0 <= from <= segments.len(),
    ensures
        ({
            let k = model::segment_named(segments, name, from);
            &&& from <= k <= segments.len()
            &&& k < segments.len() ==> segments[k].name == name
            &&& forall|j: int| from <= j < k ==> (#[trigger] segments[j]).name != name
        }),
    decreases segments.len() - from,
{
    if from < segments.len() && segments[from].name != name {
        lemma_named(segments, name, from + 1);
    }
}

} // verus!
