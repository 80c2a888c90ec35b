//! What holds of the runtime over any number of messages.

use vstd::prelude::*;

use crate::common::error::ErrorView;
use crate::hle::frameworks;
use crate::hle::frameworks::ShimFn;
use crate::hle::runtime;
use crate::hle::runtime::{ClassView, RuntimeView, OBJ_HEADER_SIZE};
use crate::kernel::cpu::CpuView;
use crate::kernel::env::GuestView;
use crate::loader::dyld::leb;
use crate::memory::allocator;
use crate::memory::space::MemView;

verus! {

impl RuntimeView {
    /// Every class object leads to a class of the name it goes by, and lies in
    /// the part of the heap that has been handed out.
    pub open spec fn sound(self, mem: MemView) -> bool {
        &&& forall|n: Seq<char>|
            #![trigger self.class_addr_by_name.contains_key(n)]
            self.class_addr_by_name.contains_key(n) ==> {
                let a = self.class_addr_by_name[n];
                &&& self.class_index_by_addr.contains_key(a)
                &&& self.class_index_by_addr[a] < self.classes.len()
                &&& self.classes[self.class_index_by_addr[a] as int].name == n
            }
        &&& forall|a: u64|
            #![trigger self.class_index_by_addr.contains_key(a)]
            self.class_index_by_addr.contains_key(a) ==> a < mem.heap.cursor
    }

    /// Send the message whose selector is the C string at `at` to `recv`.
    #[verifier::opaque]
    pub open spec fn send(self, g: GuestView, recv: u64, at: u64) -> (RuntimeView, GuestView) {
        self.msg_send(
            GuestView {
                cpu: CpuView { x: g.cpu.x.update(0, recv).update(1, at), ..g.cpu },
                ..g
            },
        )
    }

    /// Send the messages whose selectors are at `ats` to `recv`, in turn.
    pub open spec fn send_all(self, g: GuestView, recv: u64, ats: Seq<u64>) -> (
        RuntimeView,
        GuestView,
    )
        decreases ats.len(),
    {
        if ats.len() == 0 {
            (self, g)
        } else {
            let (rt, h) = self.send_all(g, recv, ats.drop_last());
            rt.send(h, recv, ats.last())
        }
    }
}

/// Whether the C string at `at` is the selector `sel`.
pub open spec fn reads(mem: MemView, at: u64, sel: Seq<char>) -> bool {
    mem.read_cstr(at, 256) == Ok::<Seq<char>, ErrorView>(sel)
}

/// How many of the C strings at `ats` are the selector `sel`.
pub open spec fn occurrences(mem: MemView, ats: Seq<u64>, sel: Seq<char>) -> nat
    decreases ats.len(),
{
    if ats.len() == 0 {
        0
    } else {
        occurrences(mem, ats.drop_last(), sel) + if reads(mem, ats.last(), sel) {
            1nat
        } else {
            0nat
        }
    }
}

/// `class_numbered` finds a class of that name.
proof fn lemma_numbered(classes: Seq<ClassView>, name: Seq<char>, i: int)
    requires
        classes.len() <= usize::MAX,
    ensures
        runtime::class_numbered(classes, name, i) matches Some(k) ==> k < classes.len()
            && classes[k as int].name == name,
    decreases classes.len() - i,
{
    if 0 <= i < classes.len() && classes[i].name != name {
        lemma_numbered(classes, name, i + 1);
    }
}

/// Making a class object keeps the class tables sound, and the object leads to
/// a class of its name.
pub proof fn classes_are_named(rt: RuntimeView, name: Seq<char>, mem: MemView)
    requires
        rt.wf(),
        rt.sound(mem),
        mem.wf(),
    ensures
        rt.class_object(name, mem).0.sound(rt.class_object(name, mem).1),
        rt.class_object(name, mem).2 matches Some(c) ==> {
            let after = rt.class_object(name, mem).0;
            &&& after.class_addr_by_name.contains_key(name)
            &&& after.class_addr_by_name[name] == c
        },
{
    allocator::blocks_are_aligned_and_fresh(mem.heap, OBJ_HEADER_SIZE, 16);
    lemma_numbered(rt.classes, name, 0);
    let (after, m, c) = rt.class_object(name, mem);
    assert forall|n: Seq<char>|
        #![trigger after.class_addr_by_name.contains_key(n)]
        after.class_addr_by_name.contains_key(n) implies {
        let a = after.class_addr_by_name[n];
        &&& after.class_index_by_addr.contains_key(a)
        &&& after.class_index_by_addr[a] < after.classes.len()
        &&& after.classes[after.class_index_by_addr[a] as int].name == n
    } by {
        if n != name || rt.class_addr_by_name.contains_key(name) {
            assert(rt.class_addr_by_name.contains_key(n) || c is None);
        }
    }
}

/// What a library call leaves of the class tables is sound.
pub proof fn class_tables_stay_sound(shim: ShimFn, rt: RuntimeView, g: GuestView)
    requires
        rt.wf(),
        rt.sound(g.mem),
        g.mem.wf(),
    ensures
        frameworks::serviced(shim, rt, g).0.sound(frameworks::serviced(shim, rt, g).1.mem),
{
    let x = g.cpu.x;
    let n = if shim is Calloc {
        frameworks::libsystem::saturated_product(x[0], x[1])
    } else if shim is Realloc {
        x[1]
    } else if shim is Malloc {
        x[0]
    } else {
        OBJ_HEADER_SIZE
    };
    allocator::blocks_are_aligned_and_fresh(g.mem.heap, n, 16);
    if shim is GetClass {
        classes_are_named(rt, frameworks::libsystem::text_at(g.mem, x[0], 256), g.mem);
    }
    assert(frameworks::serviced(shim, rt, g).1.mem.heap.cursor >= g.mem.heap.cursor);
}

/// The runtime starts out with sound class tables, and naming the root classes
/// keeps them so.
pub proof fn class_tables_start_sound(rt: RuntimeView, name: Seq<char>, mem: MemView)
    ensures
        RuntimeView::empty().sound(mem),
        rt.sound(mem) ==> rt.with_root(name).sound(mem),
{
}

/// What the messages every object understands do and answer.
proof fn lemma_messages(rt: RuntimeView, recv: u64, mem: MemView)
    ensures
        rt.message(recv, "retain"@, mem) == (
            rt.with_count(recv, runtime::incremented(rt.retain_counts[recv])),
            mem,
            recv,
        ),
        rt.message(recv, "release"@, mem) == (
            rt.with_count(recv, runtime::decremented(rt.retain_counts[recv])),
            mem,
            0u64,
        ),
        rt.message(recv, "retainCount"@, mem) == (
            rt,
            mem,
            if rt.retain_counts.contains_key(recv) {
                leb::wrapped(rt.retain_counts[recv] as int)
            } else {
                1
            },
        ),
        rt.message(recv, "class"@, mem) == (rt, mem, rt.class_of(recv)),
        rt.message(recv, "init"@, mem) == (rt, mem, recv),
        rt.message(recv, "self"@, mem) == (rt, mem, recv),
        rt.message(recv, "autorelease"@, mem) == (rt, mem, recv),
        rt.class_index_by_addr.contains_key(recv) ==> rt.message(recv, "alloc"@, mem)
            == rt.instance_or_null(recv, mem),
        "retain"@ != "release"@,
        "retain"@.len() > 0 && "release"@.len() > 0 && "retainCount"@.len() > 0 && "class"@.len() > 0
            && "init"@.len() > 0 && "self"@.len() > 0 && "autorelease"@.len() > 0 && "alloc"@.len()
            > 0,
{
    reveal_strlit("alloc");
    reveal_strlit("allocWithZone:");
    reveal_strlit("new");
    reveal_strlit("init");
    reveal_strlit("initWith");
    reveal_strlit("self");
    reveal_strlit("retain");
    reveal_strlit("autorelease");
    reveal_strlit("release");
    reveal_strlit("retainCount");
    reveal_strlit("class");
    reveal_strlit("hash");
    assert("alloc"@[0] == 'a' && "allocWithZone:"@[0] == 'a' && "new"@[0] == 'n' && "init"@[0]
        == 'i' && "initWith"@[0] == 'i' && "self"@[0] == 's' && "retain"@[0] == 'r'
        && "autorelease"@[0] == 'a' && "release"@[0] == 'r' && "retainCount"@[0] == 'r'
        && "class"@[0] == 'c' && "hash"@[0] == 'h');
}

/// A message whose selector can be read does and answers what `message` says.
proof fn lemma_send(rt: RuntimeView, g: GuestView, recv: u64, at: u64, sel: Seq<char>)
    requires
        g.cpu.x.len() >= 2,
        recv != 0,
        reads(g.mem, at, sel),
        sel.len() > 0,
    ensures
        ({
            let (rt2, mem, v) = rt.message(recv, sel, g.mem);
            let (rt3, h) = rt.send(g, recv, at);
            rt3 == rt2 && h.mem == mem && h.cpu.x[0] == v && h.cpu.x.len() == g.cpu.x.len()
        }),
{
    reveal(RuntimeView::send);
}

/// What is answered to the messages every object understands.
proof fn lemma_answers(rt: RuntimeView, g: GuestView, recv: u64, at: u64)
    requires
        g.cpu.x.len() >= 2,
        recv != 0,
    ensures
        ({
            let (after, h) = rt.send(g, recv, at);
            let v = h.cpu.x[0];
            &&& reads(g.mem, at, "retain"@) ==> after == rt.with_count(
                recv,
                runtime::incremented(rt.retain_counts[recv]),
            ) && h.mem == g.mem && h.cpu.x.len() == g.cpu.x.len() && v == recv
            &&& reads(g.mem, at, "release"@) ==> after == rt.with_count(
                recv,
                runtime::decremented(rt.retain_counts[recv]),
            ) && h.mem == g.mem && h.cpu.x.len() == g.cpu.x.len()
            &&& reads(g.mem, at, "retainCount"@) && rt.retain_counts.contains_key(recv) ==> v
                == leb::wrapped(rt.retain_counts[recv] as int)
            &&& reads(g.mem, at, "class"@) ==> v == rt.class_of(recv)
            &&& reads(g.mem, at, "init"@) || reads(g.mem, at, "self"@) || reads(
                g.mem,
                at,
                "autorelease"@,
            ) ==> v == recv
            &&& reads(g.mem, at, "alloc"@) && rt.class_index_by_addr.contains_key(recv) ==> {
                let (rt2, mem, o) = rt.instance_or_null(recv, g.mem);
                after == rt2 && h.mem == mem && v == o && h.cpu.x.len() == g.cpu.x.len()
            }
            &&& "retain"@ != "release"@
        }),
{
    lemma_messages(rt, recv, g.mem);
    if reads(g.mem, at, "retain"@) {
        lemma_send(rt, g, recv, at, "retain"@);
    } else if reads(g.mem, at, "release"@) {
        lemma_send(rt, g, recv, at, "release"@);
    } else if reads(g.mem, at, "retainCount"@) {
        lemma_send(rt, g, recv, at, "retainCount"@);
    } else if reads(g.mem, at, "class"@) {
        lemma_send(rt, g, recv, at, "class"@);
    } else if reads(g.mem, at, "init"@) {
        lemma_send(rt, g, recv, at, "init"@);
    } else if reads(g.mem, at, "self"@) {
        lemma_send(rt, g, recv, at, "self"@);
    } else if reads(g.mem, at, "autorelease"@) {
        lemma_send(rt, g, recv, at, "autorelease"@);
    } else if reads(g.mem, at, "alloc"@) {
        lemma_send(rt, g, recv, at, "alloc"@);
    }
}

/// `retain` and `release` messages change nothing but the count, by one each.
proof fn lemma_counts(rt: RuntimeView, g: GuestView, obj: u64, ats: Seq<u64>)
    requires
        g.cpu.x.len() >= 2,
        obj != 0,
        rt.retain_counts.contains_key(obj),
        forall|i: int|
            0 <= i < ats.len() ==> reads(g.mem, #[trigger] ats[i], "retain"@) || reads(
                g.mem,
                ats[i],
                "release"@,
            ),
    ensures
        ({
            let (after, h) = rt.send_all(g, obj, ats);
            let n = rt.retain_counts[obj] + occurrences(g.mem, ats, "retain"@) - occurrences(
                g.mem,
                ats,
                "release"@,
            );
            &&& after == (RuntimeView {
                retain_counts: rt.retain_counts.insert(obj, leb::signed64(n)),
                ..rt
            })
            &&& h.mem == g.mem
            &&& h.cpu.x.len() == g.cpu.x.len()
        }),
    decreases ats.len(),
{
    if ats.len() == 0 {
        assert(rt.retain_counts.insert(obj, rt.retain_counts[obj]) =~= rt.retain_counts);
    } else {
        let prior = ats.drop_last();
        let at = ats.last();
        assert(at == ats[ats.len() - 1]);
        assert forall|i: int| 0 <= i < prior.len() implies reads(
            g.mem,
            #[trigger] prior[i],
            "retain"@,
        ) || reads(g.mem, prior[i], "release"@) by {
            assert(prior[i] == ats[i]);
        }
        lemma_counts(rt, g, obj, prior);
        let (mid, h) = rt.send_all(g, obj, prior);
        lemma_answers(mid, h, obj, at);
        let after = rt.send_all(g, obj, ats).0;
        let n = rt.retain_counts[obj] + occurrences(g.mem, ats, "retain"@) - occurrences(
            g.mem,
            ats,
            "release"@,
        );
        assert(after.retain_counts =~= rt.retain_counts.insert(obj, leb::signed64(n)));
    }
}

/// Making a class object leaves the address space well-formed.
proof fn lemma_class_memory(rt: RuntimeView, name: Seq<char>, mem: MemView)
    requires
        mem.wf(),
    ensures
        rt.class_object(name, mem).1.wf(),
{
    allocator::blocks_are_aligned_and_fresh(mem.heap, OBJ_HEADER_SIZE, 16);
    let (m, r) = mem.heap_alloc(OBJ_HEADER_SIZE, 16);
    if r is Ok {
        let a = r->Ok_0;
        let b = crate::bytes::le64_bytes(runtime::CLASS_MAGIC | a);
        crate::memory::space::lemma_floor_index(m.regions, a);
        let after = m.write(a, b).0;
        assert(after.wf());
    }
}

/// The life of an object: `alloc` sent to the class object of `name` makes an
/// instance whose first word is the class object. After any `retain` and
/// `release` messages, `retainCount` answers one more than the `retain`s
/// without the `release`s, modulo 2^64; `class` answers the class object;
/// `init`, `self`, `retain` and `autorelease` answer the object; a message that
/// is not understood, or goes to nil, answers nil.
pub proof fn retains_and_releases_add_up(
    rt: RuntimeView,
    g: GuestView,
    name: Seq<char>,
    alloc_at: u64,
    ats: Seq<u64>,
)
    requires
        rt.wf(),
        rt.sound(g.mem),
        g.mem.wf(),
        g.cpu.x.len() >= 2,
        ({
            let (rt1, mem, c) = rt.class_object(name, g.mem);
            let (rt2, g2) = rt1.send(GuestView { mem, ..g }, c->0, alloc_at);
            &&& c is Some
            &&& reads(mem, alloc_at, "alloc"@)
            &&& g2.cpu.x[0] != 0
            &&& forall|i: int|
                0 <= i < ats.len() ==> reads(g2.mem, #[trigger] ats[i], "retain"@) || reads(
                    g2.mem,
                    ats[i],
                    "release"@,
                )
        }),
    ensures
        ({
            let (rt1, mem, c) = rt.class_object(name, g.mem);
            let (rt2, g2) = rt1.send(GuestView { mem, ..g }, c->0, alloc_at);
            let obj = g2.cpu.x[0];
            let (rt3, g3) = rt2.send_all(g2, obj, ats);
            let k = occurrences(g3.mem, ats, "retain"@);
            let j = occurrences(g3.mem, ats, "release"@);
            &&& g3.mem == g2.mem
            &&& g3.mem.read(obj, 8) is Ok ==> g3.mem.read_u64(obj) == Ok::<u64, ErrorView>(c->0)
            &&& forall|at: u64| #[trigger]
                reads(g3.mem, at, "retainCount"@) ==> rt3.send(g3, obj, at).1.cpu.x[0]
                    == leb::wrapped(1 + k - j)
            &&& forall|at: u64| #[trigger]
                reads(g3.mem, at, "class"@) ==> rt3.send(g3, obj, at).1.cpu.x[0] == c->0
            &&& forall|at: u64|
                #![trigger rt3.send(g3, obj, at)]
                reads(g3.mem, at, "init"@) || reads(g3.mem, at, "self"@) || reads(
                    g3.mem,
                    at,
                    "retain"@,
                ) || reads(g3.mem, at, "autorelease"@) ==> rt3.send(g3, obj, at).1.cpu.x[0] == obj
            &&& forall|at: u64, sel: Seq<char>| #[trigger]
                reads(g3.mem, at, sel) && sel.len() > 0 && !rt3.understands(obj, sel) ==> rt3.send(
                    g3,
                    obj,
                    at,
                ).1.cpu.x[0] == 0
            &&& forall|at: u64| (#[trigger] rt3.send(g3, 0, at)).1.cpu.x[0] == 0
        }),
{
    let (rt1, mem, c) = rt.class_object(name, g.mem);
    let class = c->0;
    classes_are_named(rt, name, g.mem);
    assert(rt1.class_addr_by_name.contains_key(name));
    let (rt2, g2) = rt1.send(GuestView { mem, ..g }, class, alloc_at);
    let obj = g2.cpu.x[0];
    assert(class != 0) by {
        reveal(RuntimeView::send);
    }
    lemma_answers(rt1, GuestView { mem, ..g }, class, alloc_at);
    assert(rt1.instance(class, mem).2 == Some(obj));
    lemma_counts(rt2, g2, obj, ats);
    let (rt3, g3) = rt2.send_all(g2, obj, ats);
    let k = occurrences(g3.mem, ats, "retain"@);
    let j = occurrences(g3.mem, ats, "release"@);
    if g3.mem.read(obj, 8) is Ok {
        lemma_class_memory(rt, name, g.mem);
        runtime::new_instances_belong_to_their_class(rt1, class, mem);
    }
    assert(rt3.class_of(obj) == class);
    assert forall|at: u64| true implies ({
        let v = (#[trigger] rt3.send(g3, obj, at)).1.cpu.x[0];
        &&& reads(g3.mem, at, "retainCount"@) ==> v == leb::wrapped(1 + k - j)
        &&& reads(g3.mem, at, "class"@) ==> v == class
        &&& reads(g3.mem, at, "init"@) || reads(g3.mem, at, "self"@) || reads(
            g3.mem,
            at,
            "retain"@,
        ) || reads(g3.mem, at, "autorelease"@) ==> v == obj
    }) by {
        lemma_answers(rt3, g3, obj, at);
    }
    assert forall|at: u64, sel: Seq<char>| #[trigger]
        reads(g3.mem, at, sel) && sel.len() > 0 && !rt3.understands(obj, sel) implies rt3.send(
        g3,
        obj,
        at,
    ).1.cpu.x[0] == 0 by {
        lemma_send(rt3, g3, obj, at, sel);
    }
    assert forall|at: u64| (#[trigger] rt3.send(g3, 0, at)).1.cpu.x[0] == 0 by {
        reveal(RuntimeView::send);
    }
}

} // verus!
