//! What the syscalls are for: their effect on files, memory and descriptors, as
//! a guest sees it.

use vstd::prelude::*;

use crate::bytes;
use crate::common::error::{ErrorView, IoErrorKind, IoErrorView};
use crate::common::Protection;
use crate::kernel::fd;
use crate::kernel::fd::FdObject;
use crate::kernel::host::{OpenOptions, OutcomeView, ReplyView, RequestView, SeekPos};
use crate::kernel::syscall::mach;
use crate::kernel::syscall::model;
use crate::kernel::syscall::model::KernelView;
use crate::memory::region::RegionKind;
use crate::memory::space;
use crate::memory::space::MemView;
use crate::text;

verus! {

/// Whether the first argument of the call is the descriptor `d`.
pub open spec fn names(k: KernelView, d: i32) -> bool {
    0 <= d && k.cpu.x[0] % 0x1_0000_0000 == d
}

// ---- files ------------------------------------------------------------------

/// Where a seek leads in a file of `len` bytes whose position is `at`.
pub open spec fn sought(pos: SeekPos, len: int, at: int) -> int {
    match pos {
        SeekPos::Start(n) => n as int,
        SeekPos::Current(n) => at + n,
        SeekPos::End(n) => len + n,
    }
}

/// What a host hands over when it is asked for at most `count` bytes of a file
/// with the contents `c` whose position is `at`.
pub open spec fn available(c: Seq<u8>, at: int, count: int) -> Seq<u8> {
    if at >= c.len() {
        seq![]
    } else if at + count <= c.len() {
        c.subrange(at, at + count)
    } else {
        c.skip(at)
    }
}

/// `lseek(fd, off, whence)` on an open file of `len` bytes at position `at`
/// goes to `off` (which is then not negative: a start is unsigned), `at + off`
/// or `len + off`, for `whence` 0, 1 or 2, and the guest is told where it is; there is no other `whence`, and nothing but files
/// can be sought in.
pub proof fn seeks_go_where_asked(
    k: KernelView,
    d: i32,
    file: u64,
    off: i64,
    len: int,
    at: int,
    there: u64,
)
    requires
        names(k, d),
        k.cpu.x[1] == if off >= 0 {
            off as int
        } else {
            0x1_0000_0000_0000_0000 + off
        },
    ensures
        k.fds.contains_key(d) && k.fds[d] == FdObject::File(file) ==> {
            match model::unix(199, k) {
                Some((after, OutcomeView::Host(RequestView::Seek { file: f, pos }))) => {
                    &&& after == k
                    &&& f == file
                    &&& k.cpu.x[2] == 0 ==> sought(pos, len, at) == k.cpu.x[1]
                    &&& k.cpu.x[2] == 0 && off >= 0 ==> sought(pos, len, at) == off
                    &&& k.cpu.x[2] == 1 ==> sought(pos, len, at) == at + off
                    &&& k.cpu.x[2] == 2 ==> sought(pos, len, at) == len + off
                    &&& k.cpu.x[2] <= 2
                    &&& model::complete(
                        k,
                        RequestView::Seek { file: f, pos },
                        ReplyView::Position(Ok(there)),
                    ) == (k, Ok::<u64, u32>(there))
                },
                r => k.cpu.x[2] > 2 && r == Some((k, OutcomeView::Done(Err::<u64, u32>(22)))),
            }
        },
        k.fds.contains_key(d) && !(k.fds[d] is File) ==> model::unix(199, k) == Some(
            (k, OutcomeView::Done(Err::<u64, u32>(29))),
        ),
        !k.fds.contains_key(d) ==> model::unix(199, k) == Some(
            (k, OutcomeView::Done(Err::<u64, u32>(9))),
        ),
{
}

/// `read(fd, buf, count)` on an open file with the contents `c` at position
/// `at` puts what is there, at most `count` bytes, into the buffer and answers
/// how much it is. A closed descriptor is an error; standard input is always at
/// its end.
pub proof fn reads_deliver_the_file(
    number: u32,
    k: KernelView,
    d: i32,
    file: u64,
    c: Seq<u8>,
    at: int,
)
    requires
        number == 3 || number == 396,
        names(k, d),
        k.mem.wf(),
        0 <= at,
        c.len() <= u64::MAX,
    ensures
        k.fds.contains_key(d) && k.fds[d] == FdObject::File(file) ==> ({
            let data = available(c, at, k.cpu.x[2] as int);
            let q = RequestView::Read { file, buf: k.cpu.x[1], count: k.cpu.x[2] };
            let (after, r) = model::complete(k, q, ReplyView::Read(Ok(data)));
            &&& model::unix(number, k) == Some((k, OutcomeView::Host(q)))
            &&& data.len() <= k.cpu.x[2]
            &&& k.mem.read(k.cpu.x[1], data.len() as int) is Ok && k.mem.write(
                k.cpu.x[1],
                data,
            ).1 is Ok ==> {
                &&& r == Ok::<u64, u32>(data.len() as u64)
                &&& after.mem.read(k.cpu.x[1], data.len() as int) == Ok::<Seq<u8>, ErrorView>(data)
            }
            &&& k.mem.write(k.cpu.x[1], data).1 is Err ==> r == Err::<u64, u32>(14) && after == k
        }),
        !k.fds.contains_key(d) ==> model::unix(number, k) == Some(
            (k, OutcomeView::Done(Err::<u64, u32>(9))),
        ),
        k.fds.contains_key(d) && k.fds[d] == FdObject::Stdin && k.mem.write(
            k.cpu.x[1],
            seq![],
        ).1 is Ok ==> (model::unix(number, k) matches Some((_, o)) && o == OutcomeView::Done(
            Ok::<u64, u32>(0),
        )),
{
    let data = available(c, at, k.cpu.x[2] as int);
    if k.mem.read(k.cpu.x[1], data.len() as int) is Ok && k.mem.write(k.cpu.x[1], data).1 is Ok {
        space::read_after_write(k.mem, k.cpu.x[1], data);
    }
    assert(Seq::<u8>::empty() =~= seq![]);
}

/// `write(fd, buf, count)` writes the bytes in the buffer to the descriptor's
/// file, or logs them for a standard stream, and answers how many they are.
pub proof fn writes_take_the_buffer(number: u32, k: KernelView, d: i32, file: u64, data: Seq<u8>)
    requires
        number == 4 || number == 397,
        names(k, d),
        k.mem.read(k.cpu.x[1], k.cpu.x[2] as int) == Ok::<Seq<u8>, ErrorView>(data),
    ensures
        k.fds.contains_key(d) && k.fds[d] == FdObject::File(file) ==> ({
            let q = RequestView::Write { file, chunks: seq![data], result: Ok(k.cpu.x[2]) };
            &&& model::unix(number, k) == Some((k, OutcomeView::Host(q)))
            &&& model::complete(k, q, ReplyView::Written(Ok(()))) == (k, Ok::<u64, u32>(
                k.cpu.x[2],
            ))
        }),
        k.fds.contains_key(d) && (k.fds[d] == FdObject::Stdout || k.fds[d] == FdObject::Stderr)
            ==> (model::unix(number, k) matches Some((after, o)) && {
            &&& o == OutcomeView::Done(Ok::<u64, u32>(k.cpu.x[2]))
            &&& after == (KernelView { log: after.log, ..k })
            &&& after.log.len() == k.log.len() + 1
            &&& after.log.drop_last() == k.log
            &&& after.log.last().text == text::trim_end(text::utf8_lossy(data))
        }),
        !k.fds.contains_key(d) ==> (model::unix(number, k) matches Some((_, o)) && o
            == OutcomeView::Done(Err::<u64, u32>(9))),
{
    assert(k.log + Seq::empty() =~= k.log);
    let one = seq![data].map_values(|c: Seq<u8>| model::guest_line(c));
    assert(one =~= seq![model::guest_line(data)]);
    assert((k.log + one).drop_last() =~= k.log);
}

/// Whether the `n` buffer descriptors from `iov` on name the buffers `bases`,
/// `lens` that hold `chunks`.
pub open spec fn gathers(
    mem: MemView,
    iov: u64,
    bases: Seq<u64>,
    lens: Seq<u64>,
    chunks: Seq<Seq<u8>>,
) -> bool {
    &&& lens.len() == bases.len()
    &&& chunks.len() == bases.len()
    &&& iov + 16 * bases.len() <= u64::MAX
    &&& forall|i: int|
        #![trigger bases[i]]
        0 <= i < bases.len() ==> {
            &&& mem.read_u64((iov + 16 * i) as u64) == Ok::<u64, ErrorView>(bases[i])
            &&& mem.read_u64((iov + 16 * i + 8) as u64) == Ok::<u64, ErrorView>(lens[i])
            &&& mem.read(bases[i], lens[i] as int) == Ok::<Seq<u8>, ErrorView>(chunks[i])
        }
}

/// The sum of some lengths.
pub open spec fn sum(lens: Seq<u64>) -> int
    decreases lens.len(),
{
    if lens.len() == 0 {
        0
    } else {
        lens[0] + sum(lens.drop_first())
    }
}

proof fn lemma_gather(
    mem: MemView,
    iov: u64,
    bases: Seq<u64>,
    lens: Seq<u64>,
    chunks: Seq<Seq<u8>>,
    total: u64,
)
    requires
        gathers(mem, iov, bases, lens, chunks),
        total + sum(lens) <= u64::MAX,
    ensures
        model::gather(mem, iov, bases.len(), total) == (chunks, Ok::<u64, u32>(
            (total + sum(lens)) as u64,
        )),
        sum(lens) >= 0,
    decreases bases.len(),
{
    lemma_sum(lens);
    if bases.len() > 0 {
        lemma_sum(lens.drop_first());
        assert(mem.read_u64((iov + 16 * 0) as u64) == Ok::<u64, ErrorView>(bases[0]));
        let next = (iov + 16) as u64;
        assert forall|i: int|
            #![trigger bases.drop_first()[i]]
            0 <= i < bases.len() - 1 implies {
            &&& mem.read_u64((next + 16 * i) as u64) == Ok::<u64, ErrorView>(bases.drop_first()[i])
            &&& mem.read_u64((next + 16 * i + 8) as u64) == Ok::<u64, ErrorView>(
                lens.drop_first()[i],
            )
            &&& mem.read(bases.drop_first()[i], lens.drop_first()[i] as int) == Ok::<
                Seq<u8>,
                ErrorView,
            >(chunks.drop_first()[i])
        } by {
            assert(bases.drop_first()[i] == bases[i + 1]);
            assert(next + 16 * i == iov + 16 * (i + 1));
        }
        lemma_gather(
            mem,
            next,
            bases.drop_first(),
            lens.drop_first(),
            chunks.drop_first(),
            (total + lens[0]) as u64,
        );
        assert(seq![chunks[0]] + chunks.drop_first() =~= chunks);
    } else {
        assert(chunks =~= Seq::empty());
    }
}

proof fn lemma_sum(lens: Seq<u64>)
    ensures
        sum(lens) >= 0,
    decreases lens.len(),
{
    if lens.len() > 0 {
        lemma_sum(lens.drop_first());
    }
}

/// `writev(fd, iov, n)` writes the `n` buffers that the descriptors name, in
/// their order, and answers how long they are together.
pub proof fn gathered_writes_take_every_buffer(
    k: KernelView,
    d: i32,
    file: u64,
    bases: Seq<u64>,
    lens: Seq<u64>,
    chunks: Seq<Seq<u8>>,
)
    requires
        names(k, d),
        k.cpu.x[2] == bases.len(),
        bases.len() > 0,
        gathers(k.mem, k.cpu.x[1], bases, lens, chunks),
        sum(lens) <= u64::MAX,
        k.fds.contains_key(d),
        k.fds[d] == FdObject::File(file),
    ensures
        model::unix(121, k) == Some(
            (
                k,
                OutcomeView::Host(
                    RequestView::Write { file, chunks, result: Ok(sum(lens) as u64) },
                ),
            ),
        ),
{
    lemma_gather(k.mem, k.cpu.x[1], bases, lens, chunks, 0);
    assert(k.log + Seq::empty() =~= k.log);
}

proof fn lemma_flags(flags: u64)
    ensures
        model::has_bit(flags, 8) <==> flags % 0x10 >= 8,
        model::has_bit(flags, 0x200) <==> flags % 0x400 >= 0x200,
        model::has_bit(flags, 0x400) <==> flags % 0x800 >= 0x400,
        model::has_bit(flags, 0x800) <==> flags % 0x1000 >= 0x800,
{
    assert(flags / 8 % 2 == 1 <==> flags % 0x10 >= 8) by (bit_vector);
    assert(flags / 0x200 % 2 == 1 <==> flags % 0x400 >= 0x200) by (bit_vector);
    assert(flags / 0x400 % 2 == 1 <==> flags % 0x800 >= 0x400) by (bit_vector);
    assert(flags / 0x800 % 2 == 1 <==> flags % 0x1000 >= 0x800) by (bit_vector);
}

/// `open(path, flags)` asks for the host file that the path stands for, to be
/// read unless it is opened for writing alone, to be written unless it is
/// opened for reading alone, and created, emptied, appended to or required to
/// be new as the flags say. Nothing in a read-only place is opened for writing,
/// and a path that stands for nothing is not there.
pub proof fn opens_ask_for_what_the_flags_say(number: u32, k: KernelView, path: Seq<char>)
    requires
        number == 5 || number == 398,
        k.mem.read_cstr(k.cpu.x[0], 1024) == Ok::<Seq<char>, ErrorView>(path),
    ensures
        match k.vfs.translate(path) {
            Err(_) => model::unix(number, k) == Some(
                (k, OutcomeView::Done(Err::<u64, u32>(2))),
            ),
            Ok((host, read_only)) => if read_only && k.cpu.x[1] % 4 != 0 {
                model::unix(number, k) == Some((k, OutcomeView::Done(Err::<u64, u32>(30))))
            } else {
                model::unix(number, k) matches Some((after, OutcomeView::Host(q))) && {
                    &&& after == k
                    &&& q matches RequestView::Open { path: p, options } && {
                        let flags = k.cpu.x[1];
                        &&& p == host
                        &&& options.read <==> flags % 4 != 1
                        &&& options.write <==> flags % 4 != 0
                        &&& options.append <==> flags % 0x10 >= 8
                        &&& options.create <==> flags % 0x400 >= 0x200
                        &&& options.truncate <==> flags % 0x800 >= 0x400
                        &&& options.create_new <==> flags % 0x1000 >= 0x800 && flags % 0x400 >= 0x200
                    }
                }
            },
        },
{
    lemma_flags(k.cpu.x[1]);
}

/// After `close(fd)` the descriptor is free: the same calls that reached its
/// file before are refused, and every other descriptor is as it was. The host
/// is asked to close the file. The standard streams stay open.
pub proof fn closed_descriptors_are_gone(number: u32, k: KernelView, d: i32, file: u64, e: i32)
    requires
        number == 6 || number == 399,
        names(k, d),
        k.fds.contains_key(d),
        k.fds[d] == FdObject::File(file),
    ensures
        model::unix(number, k) matches Some((after, o)) && {
            &&& d > 2 ==> {
                &&& o == OutcomeView::Host(RequestView::Close { file })
                &&& !after.fds.contains_key(d)
                &&& e != d ==> (after.fds.contains_key(e) <==> k.fds.contains_key(e))
                &&& e != d && k.fds.contains_key(e) ==> after.fds[e] == k.fds[e]
                &&& after == (KernelView { fds: after.fds, ..k })
                &&& model::unix(3, after) == Some(
                    (after, OutcomeView::Done(Err::<u64, u32>(9))),
                )
                &&& model::unix(number, after) == Some(
                    (after, OutcomeView::Done(Err::<u64, u32>(9))),
                )
                &&& model::complete(after, RequestView::Close { file }, ReplyView::Closed) == (
                    after,
                    Ok::<u64, u32>(0),
                )
            }
            &&& d <= 2 ==> after == k && o == OutcomeView::Done(Ok::<u64, u32>(0))
        },
{
}

/// `access(path)` answers zero if the host path exists and an error if not.
pub proof fn access_tells_whether_a_path_exists(k: KernelView, path: Seq<char>, exists_there: bool)
    requires
        k.mem.read_cstr(k.cpu.x[0], 1024) == Ok::<Seq<char>, ErrorView>(path),
    ensures
        match k.vfs.translate(path) {
            Err(_) => model::unix(33, k) == Some((k, OutcomeView::Done(Err::<u64, u32>(2)))),
            Ok((host, _)) => {
                let q = RequestView::Exists { path: host };
                &&& model::unix(33, k) == Some((k, OutcomeView::Host(q)))
                &&& model::complete(k, q, ReplyView::Exists(exists_there)) == (k, if exists_there {
                    Ok::<u64, u32>(0)
                } else {
                    Err::<u64, u32>(2)
                })
            },
        },
{
}

// ---- memory -----------------------------------------------------------------

/// `mmap(_, len, prot, MAP_ANON)` answers the page-aligned address of `len`
/// bytes that nothing else used, that read as zeros if `prot` lets them be
/// read, and that can be written exactly if `prot` says so. If there is no
/// room, or a file is to be mapped, it is refused and nothing is mapped.
pub proof fn mappings_are_fresh_zeros(k: KernelView, at: u64, n: int, b: Seq<u8>)
    requires
        k.mem.wf(),
    ensures
        model::unix(197, k) matches Some((after, OutcomeView::Done(r))) && {
            &&& k.cpu.x[3] % 0x2000 < 0x1000 ==> r == Err::<u64, u32>(78) && after.mem == k.mem
            &&& after.fds == k.fds && after.cpu == k.cpu && after.exit == k.exit
            &&& k.cpu.x[3] % 0x2000 >= 0x1000 ==> match r {
                Err(e) => e == 12 && after.mem == k.mem,
                Ok(a) => {
                    let prot = Protection((k.cpu.x[2] % 8) as u8);
                    &&& a % crate::common::PAGE_SIZE == 0
                    &&& a + k.cpu.x[1] <= u64::MAX
                    &&& !space::overlaps(k.mem.regions, a as int, a + k.cpu.x[1])
                    &&& 0 <= n && a <= at < a + k.cpu.x[1] && at + n <= a + k.cpu.x[1] ==> {
                        &&& prot.grants(Protection(1)) ==> after.mem.read(at, n) == Ok::<
                            Seq<u8>,
                            ErrorView,
                        >(Seq::new(n as nat, |i: int| 0u8))
                        &&& b.len() == n ==> (after.mem.write(at, b).1 is Ok <==> prot.grants(
                            Protection(2),
                        ))
                    }
                },
            }
        },
{
    let prot = Protection((k.cpu.x[2] % 8) as u8);
    let size = k.cpu.x[1];
    space::anonymous_mappings_are_fresh(k.mem, size, prot);
    if let (after, Ok(a)) = k.mem.mmap_anon(size, prot) {
        let span = space::page_span(size as int);
        crate::common::lemma_page_size();
        crate::common::rounding_brackets(
            if size < 1 {
                1
            } else {
                size as int
            },
            crate::common::PAGE_SIZE as int,
        );
        assert(space::page_span(span) == span);
        assert(!space::overlaps(k.mem.regions, a as int, a + size));
        if 0 <= n && a <= at < a + size && at + n <= a + size {
            lemma_fresh_mapping(k.mem, a, span as u64, prot, at, n, b);
        }
    }
}

/// What can be done with a fresh mapping.
proof fn lemma_fresh_mapping(
    mem: MemView,
    a: u64,
    span: u64,
    prot: Protection,
    at: u64,
    n: int,
    b: Seq<u8>,
)
    requires
        mem.wf(),
        space::page_span(span as int) == span,
        mem.map(a, span, prot, RegionKind::Anonymous, "mmap"@).1 is Ok,
        0 <= n,
        a <= at < a + span,
        at + n <= a + span,
    ensures
        ({
            let after = MemView {
                mmap_cursor: a,
                ..mem.map(a, span, prot, RegionKind::Anonymous, "mmap"@).0
            };
            &&& prot.grants(Protection(1)) ==> after.read(at, n) == Ok::<Seq<u8>, ErrorView>(
                Seq::new(n as nat, |i: int| 0u8),
            )
            &&& b.len() == n ==> (after.write(at, b).1 is Ok <==> prot.grants(Protection(2)))
        }),
{
    let after = mem.map(a, span, prot, RegionKind::Anonymous, "mmap"@).0;
    space::mapping_adds_zeros(mem, a, span, prot, RegionKind::Anonymous, "mmap"@, at, n);
    let r = crate::memory::region::RegionView {
        base: a,
        prot,
        kind: RegionKind::Anonymous,
        name: "mmap"@,
        data: crate::memory::region::zero_extended(Seq::empty(), span as int),
    };
    crate::kernel::process::laws::lemma_fresh_floor(mem, r, at);
}

/// `mprotect(addr, _, prot)` gives the memory at `addr` that protection: it can
/// then be read, or written, exactly if `prot` says so. Where nothing is mapped
/// it is an error.
pub proof fn protections_are_changed(k: KernelView, b: u8)
    requires
        k.mem.wf(),
    ensures
        model::unix(74, k) matches Some((after, OutcomeView::Done(r))) && {
            let prot = Protection((k.cpu.x[2] % 8) as u8);
            &&& after == (KernelView { mem: after.mem, ..k })
            &&& match r {
                Err(e) => e == 22 && after.mem == k.mem && k.mem.read(k.cpu.x[0], 1) is Err,
                Ok(v) => {
                    &&& v == 0
                    &&& after.mem.read(k.cpu.x[0], 1) is Ok <==> prot.grants(Protection(1))
                    &&& after.mem.write(k.cpu.x[0], seq![b]).1 is Ok <==> prot.grants(Protection(2))
                },
            }
        },
{
    let a = k.cpu.x[0];
    let prot = Protection((k.cpu.x[2] % 8) as u8);
    space::lemma_floor_index(k.mem.regions, a);
    let after = k.mem.protect(a, prot).0;
    space::lemma_floor_index(after.regions, a);
    let f = space::floor_index(k.mem.regions, a);
    let g = space::floor_index(after.regions, a);
    if f < g {
        assert(after.regions[g].base == k.mem.regions[g].base);
    } else if g < f {
        assert(after.regions[f].base == k.mem.regions[f].base);
    }
}

/// Whether the word at `at` is the address `a`, below every address that was
/// handed out before.
pub open spec fn announced(before: MemView, after: MemView, at: u64, a: u64) -> bool {
    &&& after.read(at, 8) is Ok ==> after.read_u64(at) == Ok::<u64, ErrorView>(a)
    &&& after.mmap_cursor == a
    &&& a < before.mmap_cursor
}

/// Writing a word leaves that word there, and the cursor as it was.
proof fn lemma_stored(m: MemView, at: u64, a: u64)
    requires
        m.wf(),
        m.write(at, bytes::le64_bytes(a)).1 is Ok,
    ensures
        ({
            let after = m.write(at, bytes::le64_bytes(a)).0;
            &&& after.mmap_cursor == m.mmap_cursor
            &&& after.read(at, 8) is Ok ==> after.read_u64(at) == Ok::<u64, ErrorView>(a)
        }),
{
    let b = bytes::le64_bytes(a);
    bytes::le64_roundtrip(a);
    if m.read(at, 8) is Ok {
        space::word64_roundtrip(m, at, a);
    } else {
        space::lemma_same_layout(m, at, b, at);
        space::lemma_floor_index(m.regions, at);
    }
}

/// `mach_vm_allocate` stores the address of memory that nothing else used where
/// `x1` points, and otherwise reports a failure.
pub proof fn mach_allocations_are_announced(k: KernelView)
    requires
        k.mem.wf(),
    ensures
        mach::trap(10, k.cpu, k.mem) matches Some((after, v)) && (v == 0 ==> exists|a: u64|
            {
                &&& #[trigger] announced(k.mem, after, k.cpu.x[1], a)
                &&& !space::overlaps(k.mem.regions, a as int, a + k.cpu.x[2])
            }),
{
    let (after, v) = mach::allocated(k.cpu, k.mem);
    if v == 0 {
        let size = k.cpu.x[2];
        let prot = Protection(3);
        space::anonymous_mappings_are_fresh(k.mem, size, prot);
        let (mapped, r) = k.mem.mmap_anon(size, prot);
        let a = r->Ok_0;
        assert(r is Ok);
        assert(!space::overlaps(k.mem.regions, a as int, a + size)) by {
            crate::common::lemma_page_size();
            crate::common::rounding_brackets(
                if size < 1 {
                    1
                } else {
                    size as int
                },
                crate::common::PAGE_SIZE as int,
            );
        }
        assert(a < k.mem.mmap_cursor) by {
            crate::common::lemma_page_size();
            crate::common::rounding_brackets(
                if size < 1 {
                    1
                } else {
                    size as int
                },
                crate::common::PAGE_SIZE as int,
            );
        }
        lemma_stored(mapped, k.cpu.x[1], a);
        assert(announced(k.mem, after, k.cpu.x[1], a));
    }
}

// ---- the rest ---------------------------------------------------------------

/// `gettimeofday(tv)` stores the seconds and, behind them, the microseconds of
/// the host's clock; without a place to store them it does nothing.
pub proof fn the_time_is_stored(k: KernelView, secs: u64, micros: u32)
    requires
        k.mem.wf(),
    ensures
        k.cpu.x[0] == 0 ==> model::unix(116, k) == Some(
            (k, OutcomeView::Done(Ok::<u64, u32>(0))),
        ),
        k.cpu.x[0] != 0 ==> ({
            let q = RequestView::Time { tv: k.cpu.x[0] };
            let (after, r) = model::complete(k, q, ReplyView::Clock { secs, micros });
            &&& model::unix(116, k) == Some((k, OutcomeView::Host(q)))
            &&& k.cpu.x[0] + 12 <= u64::MAX && k.mem.read(k.cpu.x[0], 12) is Ok && k.mem.write(
                k.cpu.x[0],
                Seq::new(12, |i: int| 0u8),
            ).1 is Ok ==> {
                &&& r == Ok::<u64, u32>(0)
                &&& after.mem.read_u64(k.cpu.x[0]) == Ok::<u64, ErrorView>(secs)
                &&& after.mem.read_u32((k.cpu.x[0] + 8) as u64) == Ok::<u32, ErrorView>(micros)
            }
        }),
{
    let tv = k.cpu.x[0];
    if tv != 0 && tv + 12 <= u64::MAX && k.mem.read(tv, 12) is Ok && k.mem.write(
        tv,
        Seq::new(12, |i: int| 0u8),
    ).1 is Ok {
        let b = bytes::le64_bytes(secs);
        let c = bytes::le32_bytes(micros);
        bytes::le64_roundtrip(secs);
        bytes::le32_roundtrip(micros);
        let m = k.mem;
        let f = space::floor_index(m.regions, tv);
        space::lemma_floor_index(m.regions, tv);
        let tv8 = (tv + 8) as u64;
        space::lemma_floor_index(m.regions, tv8);
        let g = space::floor_index(m.regions, tv8);
        if f < g {
            assert(m.regions[f].end() <= m.regions[g].base);
        }
        assert(f == g);
        space::word64_roundtrip(m, tv, secs);
        let half = m.write(tv, b).0;
        space::lemma_same_layout(m, tv, b, tv8);
        space::lemma_same_layout(m, tv, b, tv);
        crate::kernel::process::outcome::lemma_write(m, tv, b);
        crate::kernel::process::outcome::lemma_alike(m, half, tv);
        space::word32_roundtrip(half, tv8, micros);
        space::write_leaves_the_rest(half, tv8, c, tv, 8);
    }
}

/// `getentropy(buf, len)` fills `len` bytes and no others, and refuses more than
/// 256.
pub proof fn entropy_fills_the_buffer(k: KernelView, nanos: Option<u64>, other: u64, n: int)
    requires
        k.mem.wf(),
        0 <= n,
    ensures
        k.cpu.x[1] > 256 ==> model::unix(500, k) == Some(
            (k, OutcomeView::Done(Err::<u64, u32>(22))),
        ),
        k.cpu.x[1] <= 256 ==> ({
            let q = RequestView::Entropy { buf: k.cpu.x[0], len: k.cpu.x[1] };
            let (after, r) = model::complete(k, q, ReplyView::Nanos(nanos));
            &&& model::unix(500, k) == Some((k, OutcomeView::Host(q)))
            &&& r == Ok::<u64, u32>(0) || (r == Err::<u64, u32>(14) && after == k)
            &&& other + n <= k.cpu.x[0] || k.cpu.x[0] + k.cpu.x[1] <= other ==> after.mem.read(
                other,
                n,
            ) == k.mem.read(other, n)
        }),
{
    if k.cpu.x[1] <= 256 {
        let len = k.cpu.x[1] as int;
        lemma_random(model::seed(nanos), len);
        let data = model::random_bytes(model::seed(nanos), len).take(len);
        if other + n <= k.cpu.x[0] || k.cpu.x[0] + k.cpu.x[1] <= other {
            space::write_leaves_the_rest(k.mem, k.cpu.x[0], data, other, n);
        }
    }
}

proof fn lemma_random(s: u64, len: int)
    ensures
        model::random_bytes(s, len).len() >= len,
    decreases len + 8,
{
    if len > 0 {
        bytes::le64_roundtrip(model::xorshift(s));
        lemma_random(model::xorshift(s), len - 8);
    }
}

/// The number that stands for a kind of host failure.
pub open spec fn number_of(kind: IoErrorKind) -> int {
    match kind {
        IoErrorKind::NotFound => 2,
        IoErrorKind::Other => 5,
        IoErrorKind::PermissionDenied => 13,
        IoErrorKind::AlreadyExists => 17,
        IoErrorKind::InvalidInput => 22,
        IoErrorKind::BrokenPipe => 29,
        IoErrorKind::WouldBlock => 35,
    }
}

/// What the host could not do changes nothing, and the guest is told why.
pub proof fn host_failures_are_reported(k: KernelView, request: RequestView, e: IoErrorView)
    ensures
        ({
            let told = (k, Err::<u64, u32>(number_of(e.kind) as u32));
            &&& request is Read ==> model::complete(k, request, ReplyView::Read(Err(e))) == told
            &&& request is Write ==> model::complete(k, request, ReplyView::Written(Err(e))) == told
            &&& request is Open ==> model::complete(k, request, ReplyView::Opened(Err(e))) == told
            &&& request is Seek ==> model::complete(k, request, ReplyView::Position(Err(e)))
                == told
        }),
{
}

/// Pointers that lead nowhere are reported, and nothing is asked of the host.
pub proof fn bad_pointers_are_reported(k: KernelView, d: i32)
    ensures
        k.mem.read_cstr(k.cpu.x[0], 1024) is Err ==> {
            &&& model::unix(5, k) == Some((k, OutcomeView::Done(Err::<u64, u32>(14))))
            &&& model::unix(398, k) == Some((k, OutcomeView::Done(Err::<u64, u32>(14))))
            &&& model::unix(33, k) == Some((k, OutcomeView::Done(Err::<u64, u32>(14))))
        },
        names(k, d) && k.fds.contains_key(d) && k.mem.read(k.cpu.x[1], k.cpu.x[2] as int) is Err
            ==> (model::unix(4, k) matches Some((_, o)) && o == OutcomeView::Done(
            Err::<u64, u32>(14),
        )),
{
}

/// The names of the ports, and that the calls which pretend to work report
/// success and touch nothing.
pub proof fn ports_are_fixed(k: KernelView)
    ensures
        mach::trap(28, k.cpu, k.mem) == Some((k.mem, 0x103u64)),
        mach::trap(29, k.cpu, k.mem) == Some((k.mem, 0x203u64)),
        mach::trap(27, k.cpu, k.mem) == Some((k.mem, 0x303u64)),
        mach::trap(26, k.cpu, k.mem) == Some((k.mem, 0x403u64)),
        mach::trap(12, k.cpu, k.mem) == Some((k.mem, 0u64)),
        mach::trap(31, k.cpu, k.mem) == Some((k.mem, 0u64)),
        mach::trap(32, k.cpu, k.mem) == Some((k.mem, 0u64)),
        mach::trap(33, k.cpu, k.mem) == Some((k.mem, 0u64)),
        mach::trap(36, k.cpu, k.mem) == Some((k.mem, 0u64)),
{
}

/// Who the process is: number 1, user and group 501, without privileges; and
/// giving memory back, advice and descriptor flags are accepted.
pub proof fn identities_are_fixed(k: KernelView)
    ensures
        model::unix(20, k) == Some((k, OutcomeView::Done(Ok::<u64, u32>(1)))),
        model::unix(24, k) == Some((k, OutcomeView::Done(Ok::<u64, u32>(501)))),
        model::unix(25, k) == Some((k, OutcomeView::Done(Ok::<u64, u32>(501)))),
        model::unix(43, k) == Some((k, OutcomeView::Done(Ok::<u64, u32>(501)))),
        model::unix(47, k) == Some((k, OutcomeView::Done(Ok::<u64, u32>(501)))),
        model::unix(327, k) == Some((k, OutcomeView::Done(Ok::<u64, u32>(0)))),
        model::unix(73, k) == Some((k, OutcomeView::Done(Ok::<u64, u32>(0)))),
        model::unix(75, k) == Some((k, OutcomeView::Done(Ok::<u64, u32>(0)))),
        model::unix(92, k) == Some((k, OutcomeView::Done(Ok::<u64, u32>(0)))),
{
}

/// `exit(code)` ends the process with the code, which is signed.
pub proof fn exit_sets_the_code(k: KernelView, code: i32)
    requires
        (k.cpu.x[0] - code) % 0x1_0000_0000 == 0,
    ensures
        model::unix(1, k) matches Some((after, OutcomeView::Done(_))) && after == (KernelView {
            exit: Some(code),
            ..k
        }),
{
}

// ---- descriptors ------------------------------------------------------------

/// What a descriptor cannot do is refused: reading from an output stream or a
/// directory, and writing to the input stream or a directory.
pub proof fn descriptors_do_what_they_can(k: KernelView, d: i32)
    requires
        names(k, d),
        k.fds.contains_key(d),
    ensures
        !(k.fds[d] is File) && !(k.fds[d] is Stdin) ==> model::unix(3, k) == Some(
            (k, OutcomeView::Done(Err::<u64, u32>(22))),
        ),
        !(k.fds[d] is File) && !(k.fds[d] is Stdout) && !(k.fds[d] is Stderr) && k.mem.read(
            k.cpu.x[1],
            k.cpu.x[2] as int,
        ) is Ok ==> model::unix(4, k) == Some((k, OutcomeView::Done(Err::<u64, u32>(22)))),
{
    assert(k.log + Seq::empty() =~= k.log);
}

/// Closing what is not open is an error, and a directory is closed like a file.
pub proof fn only_open_descriptors_are_closed(k: KernelView, d: i32, dir: u64)
    requires
        names(k, d),
        d > 2,
    ensures
        !k.fds.contains_key(d) ==> model::unix(6, k) == Some(
            (k, OutcomeView::Done(Err::<u64, u32>(9))),
        ),
        k.fds.contains_key(d) && k.fds[d] == FdObject::Dir(dir) ==> (model::unix(6, k) matches Some(
            (after, o),
        ) && o == OutcomeView::Host(RequestView::Close { file: dir }) && after == (KernelView {
            fds: k.fds.remove(d),
            ..k
        })),
{
}

/// Writing no buffers writes nothing. If a buffer cannot be read, those before it
/// are written all the same, and the guest is told of the fault.
pub proof fn gathered_writes_stop_at_a_fault(
    k: KernelView,
    d: i32,
    file: u64,
    base: u64,
    len: u64,
    data: Seq<u8>,
)
    requires
        names(k, d),
        k.fds.contains_key(d),
        k.fds[d] == FdObject::File(file),
    ensures
        k.cpu.x[2] == 0 ==> model::unix(121, k) == Some(
            (k, OutcomeView::Done(Ok::<u64, u32>(0))),
        ),
        k.cpu.x[2] == 2 && k.cpu.x[1] + 16 <= u64::MAX && k.mem.read_u64(k.cpu.x[1]) == Ok::<
            u64,
            ErrorView,
        >(base) && k.mem.read_u64((k.cpu.x[1] + 8) as u64) == Ok::<u64, ErrorView>(len)
            && k.mem.read(base, len as int) == Ok::<Seq<u8>, ErrorView>(data) && k.mem.read_u64(
            (k.cpu.x[1] + 16) as u64,
        ) is Err ==> model::unix(121, k) == Some(
            (
                k,
                OutcomeView::Host(
                    RequestView::Write { file, chunks: seq![data], result: Err(14) },
                ),
            ),
        ),
{
    assert(k.log + Seq::empty() =~= k.log);
    reveal_with_fuel(model::gather, 3);
    assert(seq![data] + Seq::<Seq<u8>>::empty() =~= seq![data]);
}

proof fn lemma_free(t: Map<i32, FdObject>, from: int, d: i32)
    requires
        3 <= from <= d,
        !t.contains_key(d),
        forall|k: i32| 3 <= k < from ==> #[trigger] t.contains_key(k),
    ensures
        exists|e: i32| #[trigger] fd::is_lowest_free(t, e as int),
    decreases d - from,
{
    if t.contains_key(from as i32) {
        assert forall|k: i32| 3 <= k < from + 1 implies #[trigger] t.contains_key(k) by {}
        lemma_free(t, from + 1, d);
    } else {
        let e = from as i32;
        assert(fd::is_lowest_free(t, e as int));
    }
}

/// A file that the host has opened gets a descriptor as long as one is free; the
/// descriptor then names the file.
pub proof fn opened_files_get_a_descriptor(
    k: KernelView,
    path: Seq<char>,
    options: OpenOptions,
    file: u64,
    free: i32,
)
    requires
        free >= 3,
        !k.fds.contains_key(free),
    ensures
        ({
            let (after, r) = model::complete(
                k,
                RequestView::Open { path, options },
                ReplyView::Opened(Ok(file)),
            );
            r matches Ok(d) && {
                &&& 3 <= d <= free
                &&& !k.fds.contains_key(d as i32)
                &&& after.fds.contains_key(d as i32)
                &&& after.fds[d as i32] == FdObject::File(file)
                &&& after == (KernelView { fds: after.fds, ..k })
            }
        }),
{
    lemma_free(k.fds, 3, free);
    let e = choose|e: i32| #[trigger] fd::is_lowest_free(k.fds, e as int);
    fd::lemma_lowest_free(k.fds, e);
    if e > free {
        assert(k.fds.contains_key(free));
    }
}

/// A reply that does not fit its request is an I/O error, and so is one with more
/// bytes than were asked for.
pub proof fn wrong_replies_are_errors(k: KernelView, file: u64, buf: u64, count: u64, data: Seq<u8>)
    ensures
        data.len() > count ==> model::complete(
            k,
            RequestView::Read { file, buf, count },
            ReplyView::Read(Ok(data)),
        ) == (k, Err::<u64, u32>(5)),
        model::complete(k, RequestView::Read { file, buf, count }, ReplyView::Closed) == (
            k,
            Err::<u64, u32>(5),
        ),
        model::complete(k, RequestView::Close { file }, ReplyView::Read(Ok(data))) == (
            k,
            Err::<u64, u32>(5),
        ),
{
}

/// The calls that exist; any other number is not implemented.
pub proof fn other_calls_are_not_implemented(k: KernelView, number: u32)
    requires
        !(seq![1u32, 3, 4, 5, 6, 20, 24, 25, 33, 43, 47, 73, 74, 75, 92, 116, 121].contains(
            number,
        )),
        !(seq![197u32, 199, 327, 396, 397, 398, 399, 500].contains(number)),
    ensures
        model::unix(number, k) is None,
{
    let a = seq![1u32, 3, 4, 5, 6, 20, 24, 25, 33, 43, 47, 73, 74, 75, 92, 116, 121];
    let b = seq![197u32, 199, 327, 396, 397, 398, 399, 500];
    assert(a[0] == 1 && a[1] == 3 && a[2] == 4 && a[3] == 5 && a[4] == 6 && a[5] == 20 && a[6] == 24
        && a[7] == 25 && a[8] == 33 && a[9] == 43 && a[10] == 47 && a[11] == 73 && a[12] == 74
        && a[13] == 75 && a[14] == 92 && a[15] == 116 && a[16] == 121);
    assert(b[0] == 197 && b[1] == 199 && b[2] == 327 && b[3] == 396 && b[4] == 397 && b[5] == 398
        && b[6] == 399 && b[7] == 500);
}

// ---- entropy ----------------------------------------------------------------

/// The generator never repeats itself at once and never gets stuck at zero: two
/// states have two successors, and zero is the successor of zero alone.
pub proof fn generator_steps_are_distinct(a: u64, b: u64)
    ensures
        model::xorshift(a) == model::xorshift(b) ==> a == b,
        a != 0 ==> model::xorshift(a) != 0,
{
    lemma_spread(a, b);
    let x = a ^ (a << 13u64);
    let y = b ^ (b << 13u64);
    lemma_fold(x, y);
    lemma_widen(x ^ (x >> 7u64), y ^ (y >> 7u64));
    assert(0u64 ^ (0u64 << 13u64) == 0 && 0u64 ^ (0u64 >> 7u64) == 0 && 0u64 ^ (0u64 << 17u64)
        == 0) by (bit_vector);
    lemma_spread(a, 0);
    lemma_fold(x, 0);
    lemma_widen(x ^ (x >> 7u64), 0);
}

proof fn lemma_spread(a: u64, b: u64)
    by (bit_vector)
    ensures
        a ^ (a << 13u64) == b ^ (b << 13u64) ==> a == b,
{
}

proof fn lemma_fold(a: u64, b: u64)
    by (bit_vector)
    ensures
        a ^ (a >> 7u64) == b ^ (b >> 7u64) ==> a == b,
{
}

proof fn lemma_widen(a: u64, b: u64)
    by (bit_vector)
    ensures
        a ^ (a << 17u64) == b ^ (b << 17u64) ==> a == b,
{
}

/// What `getentropy` fills in depends on the host's clock: the first eight bytes
/// differ for readings that differ in more than their lowest bit, and are never
/// all zero; nor are they without a clock.
pub proof fn entropy_depends_on_the_clock(a: u64, b: u64)
    ensures
        a / 2 != b / 2 ==> model::random_bytes(model::seed(Some(a)), 8).take(8)
            != model::random_bytes(model::seed(Some(b)), 8).take(8),
        model::random_bytes(model::seed(Some(a)), 8).take(8) != Seq::new(8, |i: int| 0u8),
        model::random_bytes(model::seed(None), 8).take(8) != Seq::new(8, |i: int| 0u8),
{
    let s = model::seed(Some(a));
    let t = model::seed(Some(b));
    let n = model::seed(None);
    assert(a | 1 != 0 && (a | 1 == b | 1 ==> a / 2 == b / 2)) by (bit_vector);
    generator_steps_are_distinct(s, t);
    generator_steps_are_distinct(n, 0);
    lemma_first_word(s);
    lemma_first_word(t);
    lemma_first_word(n);
    let zeros = Seq::new(8, |i: int| 0u8);
    assert(bytes::le64(zeros, 0) == 0);
}

proof fn lemma_first_word(s: u64)
    ensures
        bytes::le64(model::random_bytes(s, 8).take(8), 0) == model::xorshift(s),
{
    let w = bytes::le64_bytes(model::xorshift(s));
    bytes::le64_roundtrip(model::xorshift(s));
    assert(model::random_bytes(s, 8).take(8) =~= w);
}

} // verus!
