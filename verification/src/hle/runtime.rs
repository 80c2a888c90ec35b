//! A compact Objective-C runtime: classes are materialised on first use, and
//! messages are dispatched by the selector's name.

use vstd::hash_map::StringHashMap;
use vstd::prelude::*;

use std::collections::HashMap;

use crate::bytes;
use crate::common::GuestAddr;
use crate::kernel::env::{CallContext, Dispatch, GuestView};
use crate::kernel::host;
use crate::kernel::host::{LogLevel, LogLine, LogTarget, LogView};
use crate::loader::dyld::leb;
use crate::memory::space::MemView;
use crate::memory::GuestMemory;
use crate::text;

verus! {

/// Size of an object's header; its first word is the class pointer.
pub const OBJ_HEADER_SIZE: u64 = 16;

/// Tag in the first word of a class object.
pub const CLASS_MAGIC: u64 = 0x0b1c_0000_0000_0000;

/// A class known to the runtime.
#[derive(Debug)]
pub struct ClassInfo {
    pub name: String,
    /// Number of the superclass, if any.
    pub superclass: Option<usize>,
}

/// View of a [`ClassInfo`].
#[verifier::ext_equal]
pub struct ClassView {
    pub name: Seq<char>,
    pub superclass: Option<usize>,
}

impl View for ClassInfo {
    type V = ClassView;

    open spec fn view(&self) -> ClassView {
        ClassView { name: self.name@, superclass: self.superclass }
    }
}

/// Runtime state: the class table, and what guest addresses stand for.
pub struct ObjcRuntime {
    pub classes: Vec<ClassInfo>,
    /// Class name to class object.
    pub class_addr_by_name: StringHashMap<u64>,
    /// Class object to class number.
    pub class_index_by_addr: HashMap<u64, usize>,
    /// Instance to class number.
    pub instance_class: HashMap<u64, usize>,
    /// Instance to retain count.
    pub retain_counts: HashMap<u64, i64>,
}

/// View of an [`ObjcRuntime`].
#[verifier::ext_equal]
pub struct RuntimeView {
    pub classes: Seq<ClassView>,
    pub class_addr_by_name: Map<Seq<char>, u64>,
    pub class_index_by_addr: Map<u64, usize>,
    pub instance_class: Map<u64, usize>,
    pub retain_counts: Map<u64, i64>,
}

/// The views of a class table.
pub open spec fn class_views(v: Seq<ClassInfo>) -> Seq<ClassView> {
    v.map_values(|c: ClassInfo| c@)
}

impl View for ObjcRuntime {
    type V = RuntimeView;

    open spec fn view(&self) -> RuntimeView {
        RuntimeView {
            classes: class_views(self.classes@),
            class_addr_by_name: self.class_addr_by_name@,
            class_index_by_addr: self.class_index_by_addr@,
            instance_class: self.instance_class@,
            retain_counts: self.retain_counts@,
        }
    }
}

/// The first class called `name` from number `i` on, if there is one.
pub open spec fn class_numbered(classes: Seq<ClassView>, name: Seq<char>, i: int) -> Option<usize>
    decreases classes.len() - i,
{
    if i < 0 || i >= classes.len() {
        None
    } else if classes[i].name == name {
        Some(i as usize)
    } else {
        class_numbered(classes, name, i + 1)
    }
}

/// Two's-complement successor.
pub open spec fn incremented(c: i64) -> i64 {
    leb::signed64(c + 1)
}

/// Two's-complement predecessor.
pub open spec fn decremented(c: i64) -> i64 {
    leb::signed64(c - 1)
}

/// What is logged of a message that is not understood.
pub open spec fn unknown_line(sel: Seq<char>) -> LogView {
    LogView {
        level: LogLevel::Trace,
        target: LogTarget::Stub,
        text: "STUB objc::-["@ + sel + "] -> nil"@,
    }
}

/// What is logged of every message.
pub open spec fn message_line(is_class: bool, sel: Seq<char>) -> LogView {
    let kind = if is_class {
        "class"@
    } else {
        "inst"@
    };
    LogView {
        level: LogLevel::Trace,
        target: LogTarget::Objc,
        text: "msgSend "@ + kind + " -> -["@ + sel + "]"@,
    }
}

/// What is logged of a message whose selector cannot be read.
pub open spec fn unreadable_line(at: u64) -> LogView {
    LogView {
        level: LogLevel::Warn,
        target: LogTarget::Emulator,
        text: "objc_msgSend with unreadable selector @ "@ + text::address_text(at),
    }
}

impl RuntimeView {
    /// A runtime that knows nothing.
    pub open spec fn empty() -> RuntimeView {
        RuntimeView {
            classes: Seq::empty(),
            class_addr_by_name: Map::empty(),
            class_index_by_addr: Map::empty(),
            instance_class: Map::empty(),
            retain_counts: Map::empty(),
        }
    }

    /// Every class number in use is one of the class table.
    pub open spec fn wf(self) -> bool {
        &&& self.classes.len() <= usize::MAX
        &&& forall|a: u64|
            #![trigger self.class_index_by_addr.contains_key(a)]
            self.class_index_by_addr.contains_key(a) ==> self.class_index_by_addr[a]
                < self.classes.len()
        &&& forall|a: u64|
            #![trigger self.instance_class.contains_key(a)]
            self.instance_class.contains_key(a) ==> self.instance_class[a] < self.classes.len()
    }

    /// The runtime with `name` in the class table, as a root class if it is new.
    pub open spec fn with_root(self, name: Seq<char>) -> RuntimeView {
        if class_numbered(self.classes, name, 0) is Some {
            self
        } else {
            RuntimeView {
                classes: self.classes.push(ClassView { name, superclass: None }),
                ..self
            }
        }
    }

    /// The class object of `name`, made on first use; `None` if there is no
    /// memory for it.
    pub open spec fn class_object(self, name: Seq<char>, mem: MemView) -> (
        RuntimeView,
        MemView,
        Option<u64>,
    ) {
        if self.class_addr_by_name.contains_key(name) {
            (self, mem, Some(self.class_addr_by_name[name]))
        } else {
            match mem.heap_alloc(OBJ_HEADER_SIZE, 16) {
                (m, Err(_)) => (self, m, None),
                (m, Ok(addr)) => match m.write(addr, bytes::le64_bytes(CLASS_MAGIC | addr)) {
                    (m2, Err(_)) => (self, m2, None),
                    (m2, Ok(_)) => {
                        let (classes, index) = match class_numbered(self.classes, name, 0) {
                            Some(i) => (self.classes, i),
                            None => (
                                self.classes.push(
                                    ClassView {
                                        name,
                                        superclass: class_numbered(
                                            self.classes,
                                            "NSObject"@,
                                            0,
                                        ),
                                    },
                                ),
                                self.classes.len() as usize,
                            ),
                        };
                        (
                            RuntimeView {
                                classes,
                                class_addr_by_name: self.class_addr_by_name.insert(name, addr),
                                class_index_by_addr: self.class_index_by_addr.insert(addr, index),
                                ..self
                            },
                            m2,
                            Some(addr),
                        )
                    },
                },
            }
        }
    }

    /// A new instance of the class object at `class`, with a retain count of
    /// one; `None` if `class` is no class object or there is no memory.
    pub open spec fn instance(self, class: u64, mem: MemView) -> (
        RuntimeView,
        MemView,
        Option<u64>,
    ) {
        if !self.class_index_by_addr.contains_key(class) {
            (self, mem, None)
        } else {
            match mem.heap_alloc(OBJ_HEADER_SIZE, 16) {
                (m, Err(_)) => (self, m, None),
                (m, Ok(obj)) => match m.write(obj, bytes::le64_bytes(class)) {
                    (m2, Err(_)) => (self, m2, None),
                    (m2, Ok(_)) => (
                        RuntimeView {
                            instance_class: self.instance_class.insert(
                                obj,
                                self.class_index_by_addr[class],
                            ),
                            retain_counts: self.retain_counts.insert(obj, 1),
                            ..self
                        },
                        m2,
                        Some(obj),
                    ),
                },
            }
        }
    }

    /// `instance`, with null for failure.
    pub open spec fn instance_or_null(self, class: u64, mem: MemView) -> (
        RuntimeView,
        MemView,
        u64,
    ) {
        match self.instance(class, mem) {
            (rt, m, Some(obj)) => (rt, m, obj),
            (rt, m, None) => (rt, m, 0),
        }
    }

    /// The runtime with the retain count of `obj`, if it has one, set to `c`.
    pub open spec fn with_count(self, obj: u64, c: i64) -> RuntimeView {
        if self.retain_counts.contains_key(obj) {
            RuntimeView { retain_counts: self.retain_counts.insert(obj, c), ..self }
        } else {
            self
        }
    }

    /// The class object of an instance; a class is its own.
    pub open spec fn class_of(self, recv: u64) -> u64 {
        if self.instance_class.contains_key(recv) {
            let name = self.classes[self.instance_class[recv] as int].name;
            if self.class_addr_by_name.contains_key(name) {
                self.class_addr_by_name[name]
            } else {
                0
            }
        } else {
            recv
        }
    }

    /// What the message `sel` to `recv` does and returns.
    pub open spec fn message(self, recv: u64, sel: Seq<char>, mem: MemView) -> (
        RuntimeView,
        MemView,
        u64,
    ) {
        let is_class = self.class_index_by_addr.contains_key(recv);
        if is_class && (sel == "alloc"@ || sel == "allocWithZone:"@ || sel == "new"@) {
            self.instance_or_null(recv, mem)
        } else if sel == "init"@ || "initWith"@.is_prefix_of(sel) {
            (self, mem, recv)
        } else if sel == "retain"@ {
            (self.with_count(recv, incremented(self.retain_counts[recv])), mem, recv)
        } else if sel == "self"@ || sel == "autorelease"@ {
            (self, mem, recv)
        } else if sel == "release"@ {
            (self.with_count(recv, decremented(self.retain_counts[recv])), mem, 0)
        } else if sel == "retainCount"@ {
            if self.retain_counts.contains_key(recv) {
                (self, mem, leb::wrapped(self.retain_counts[recv] as int))
            } else {
                (self, mem, 1)
            }
        } else if sel == "class"@ {
            (self, mem, self.class_of(recv))
        } else if sel == "hash"@ {
            (self, mem, recv)
        } else {
            (self, mem, 0)
        }
    }

    /// Whether the runtime knows what the message `sel` to `recv` means.
    pub open spec fn understands(self, recv: u64, sel: Seq<char>) -> bool {
        ||| self.class_index_by_addr.contains_key(recv) && (sel == "alloc"@ || sel
            == "allocWithZone:"@ || sel == "new"@)
        ||| sel == "init"@ || "initWith"@.is_prefix_of(sel)
        ||| sel == "self"@ || sel == "retain"@ || sel == "autorelease"@
        ||| sel == "release"@ || sel == "retainCount"@ || sel == "class"@ || sel == "hash"@
        ||| sel == "respondsToSelector:"@ || sel == "isKindOfClass:"@ || sel
            == "conformsToProtocol:"@
    }

    /// What is logged of the message `sel` to `recv`: the message, and whether
    /// it is not understood.
    pub open spec fn lines(self, recv: u64, sel: Seq<char>) -> Seq<LogView> {
        let traced = seq![message_line(self.class_index_by_addr.contains_key(recv), sel)];
        if self.understands(recv, sel) {
            traced
        } else {
            traced.push(unknown_line(sel))
        }
    }

    /// `objc_msgSend`: the receiver is in `x0`, the selector's name is where
    /// `x1` points. Messages to nil answer nil; so do messages whose selector
    /// cannot be read or is not understood, which are logged.
    pub open spec fn msg_send(self, g: GuestView) -> (RuntimeView, GuestView) {
        let recv = g.cpu.x[0];
        if recv == 0 {
            (self, g.returning(0))
        } else {
            let unreadable = GuestView { log: g.log.push(unreadable_line(g.cpu.x[1])), ..g };
            match g.mem.read_cstr(g.cpu.x[1], 256) {
                Err(_) => (self, unreadable.returning(0)),
                Ok(sel) => if sel.len() == 0 {
                    (self, unreadable.returning(0))
                } else {
                    let log = g.log + self.lines(recv, sel);
                    let (rt, mem, v) = self.message(recv, sel, g.mem);
                    (rt, GuestView { mem, log, ..g }.returning(v))
                },
            }
        }
    }
}

/// Sixteen is a power of two.
proof fn lemma_sixteen()
    ensures
        vstd::arithmetic::power2::is_pow2(16),
{
    vstd::arithmetic::power2::is_pow2_equiv(16);
    vstd::arithmetic::power2::lemma2_to64();
    vstd::arithmetic::power2::lemma_pow2(4);
}

impl ObjcRuntime {
    /// An empty runtime.
    pub fn new() -> (r: ObjcRuntime)
        ensures
            r@ == RuntimeView::empty(),
            r@.wf(),
    {
        broadcast use vstd::std_specs::hash::group_hash_axioms;

        let r = ObjcRuntime {
            classes: Vec::new(),
            class_addr_by_name: StringHashMap::new(),
            class_index_by_addr: HashMap::new(),
            instance_class: HashMap::new(),
            retain_counts: HashMap::new(),
        };
        assert(r@ =~= RuntimeView::empty());
        r
    }

    /// Reserve the class numbers of the root classes, so that superclass links
    /// are stable; their class objects are made on first use.
    pub fn preload_root_classes(&mut self)
        requires
            old(self)@.wf(),
        ensures
            final(self)@ == old(self)@.with_root("NSObject"@).with_root("NSProxy"@),
            final(self)@.wf(),
    {
        self.reserve("NSObject");
        self.reserve("NSProxy");
    }

    fn reserve(&mut self, name: &str)
        requires
            old(self)@.wf(),
        ensures
            final(self)@ == old(self)@.with_root(name@),
            final(self)@.wf(),
    {
        if self.class_index(name).is_none() {
            let ghost before = class_views(self.classes@);
            self.classes.push(ClassInfo { name: name.to_owned(), superclass: None });
            assert(class_views(self.classes@) =~= before.push(
                ClassView { name: name@, superclass: None },
            ));
            assert(self.classes.len() == self.classes@.len());
        }
    }

    fn class_index(&self, name: &str) -> (r: Option<usize>)
        ensures
            r == class_numbered(self@.classes, name@, 0),
            r matches Some(i) ==> i < self@.classes.len(),
    {
        let ghost views = self@.classes;
        let mut i: usize = 0;
        while i < self.classes.len()
            invariant
                i <= views.len(),
                views == self@.classes,
                class_numbered(views, name@, 0) == class_numbered(views, name@, i as int),
            decreases views.len() - i,
        {
            assert(views[i as int] == self.classes@[i as int]@);
            if text::same(self.classes[i].name.as_str(), name) {
                return Some(i);
            }
            i += 1;
        }
        None
    }

    /// The class object for `name`, made on first use.
    pub fn get_or_create_class(&mut self, name: &str, ctx: &mut CallContext<'_>) -> (r: Option<
        GuestAddr,
    >)
        requires
            old(self)@.wf(),
            old(ctx).guest().mem.wf(),
        ensures
            ({
                let (rt, mem, a) = old(self)@.class_object(name@, old(ctx).guest().mem);
                &&& final(self)@ == rt
                &&& final(ctx).guest() == (GuestView { mem, ..old(ctx).guest() })
                &&& match a {
                    Some(v) => r == Some(GuestAddr(v)),
                    None => r is None,
                }
            }),
            final(self)@.wf(),
            final(ctx).guest().mem.wf(),
            *final(final(ctx).cpu) == *final(old(ctx).cpu),
            *final(final(ctx).mem) == *final(old(ctx).mem),
            *final(final(ctx).log) == *final(old(ctx).log),
    {
        self.class_object(name, ctx.mem)
    }

    /// The class object for `name`, made on first use.
    pub fn class_object(&mut self, name: &str, mem: &mut GuestMemory) -> (r: Option<GuestAddr>)
        requires
            old(self)@.wf(),
            old(mem)@.wf(),
        ensures
            ({
                let (rt, m, a) = old(self)@.class_object(name@, old(mem)@);
                &&& final(self)@ == rt
                &&& final(mem)@ == m
                &&& match a {
                    Some(v) => r == Some(GuestAddr(v)),
                    None => r is None,
                }
            }),
            final(self)@.wf(),
            final(mem)@.wf(),
    {
        broadcast use vstd::std_specs::hash::group_hash_axioms;

        if let Some(addr) = self.class_addr_by_name.get(name) {
            return Some(GuestAddr(*addr));
        }
        proof {
            lemma_sixteen();
        }
        let addr = match mem.heap_alloc(OBJ_HEADER_SIZE, 16) {
            Ok(a) => a,
            Err(_) => {
                return None;
            },
        };
        match mem.write_u64(addr, CLASS_MAGIC | addr.raw()) {
            Ok(_) => {},
            Err(_) => {
                return None;
            },
        }
        let ghost before = class_views(self.classes@);
        let index = match self.class_index(name) {
            Some(i) => i,
            None => {
                let superclass = self.class_index("NSObject");
                let n: usize = self.classes.len();
                self.classes.push(ClassInfo { name: name.to_owned(), superclass });
                assert(class_views(self.classes@) =~= before.push(
                    ClassView { name: name@, superclass },
                ));
                assert(self.classes.len() == self.classes@.len());
                n
            },
        };
        self.class_addr_by_name.insert(name.to_owned(), addr.raw());
        self.class_index_by_addr.insert(addr.raw(), index);
        Some(addr)
    }

    /// Allocate an instance of `class_addr` and set it as the return value.
    pub fn alloc_via(&mut self, class_addr: u64, ctx: &mut CallContext<'_>)
        requires
            old(self)@.wf(),
            old(ctx).guest().mem.wf(),
        ensures
            ({
                let (rt, mem, v) = old(self)@.instance_or_null(class_addr, old(ctx).guest().mem);
                &&& final(self)@ == rt
                &&& final(ctx).guest() == (GuestView { mem, ..old(ctx).guest() }).returning(v)
            }),
            final(self)@.wf(),
            final(ctx).guest().mem.wf(),
            *final(final(ctx).cpu) == *final(old(ctx).cpu),
            *final(final(ctx).mem) == *final(old(ctx).mem),
            *final(final(ctx).log) == *final(old(ctx).log),
    {
        let obj = self.instance_or_null(class_addr, ctx.mem);
        ctx.ret(obj);
    }

    /// A new instance of a class object; null if there is none.
    pub fn instance_or_null(&mut self, class_addr: u64, mem: &mut GuestMemory) -> (r: u64)
        requires
            old(self)@.wf(),
            old(mem)@.wf(),
        ensures
            (final(self)@, final(mem)@, r) == old(self)@.instance_or_null(class_addr, old(mem)@),
            final(self)@.wf(),
            final(mem)@.wf(),
    {
        broadcast use vstd::std_specs::hash::group_hash_axioms;

        let index = match self.class_index_by_addr.get(&class_addr) {
            Some(i) => *i,
            None => {
                return 0;
            },
        };
        proof {
            lemma_sixteen();
        }
        let obj = match mem.heap_alloc(OBJ_HEADER_SIZE, 16) {
            Ok(a) => a.raw(),
            Err(_) => {
                return 0;
            },
        };
        match mem.write_u64(GuestAddr(obj), class_addr) {
            Ok(_) => {},
            Err(_) => {
                return 0;
            },
        }
        self.instance_class.insert(obj, index);
        self.retain_counts.insert(obj, 1);
        obj
    }

    /// The class object of an instance; a class is its own.
    fn class_of(&self, recv: u64) -> (r: u64)
        requires
            self@.wf(),
        ensures
            r == self@.class_of(recv),
    {
        broadcast use vstd::std_specs::hash::group_hash_axioms;

        match self.instance_class.get(&recv) {
            Some(index) => {
                assert(self@.instance_class.contains_key(recv));
                assert(self@.classes[*index as int] == self.classes@[*index as int]@);
                match self.class_addr_by_name.get(self.classes[*index].name.as_str()) {
                    Some(a) => *a,
                    None => 0,
                }
            },
            None => recv,
        }
    }

    /// Add to the retain count of `obj`, if it has one.
    fn change_count(&mut self, obj: u64, up: bool)
        requires
            old(self)@.wf(),
        ensures
            final(self)@ == old(self)@.with_count(
                obj,
                if up {
                    incremented(old(self)@.retain_counts[obj])
                } else {
                    decremented(old(self)@.retain_counts[obj])
                },
            ),
            final(self)@.wf(),
    {
        broadcast use vstd::std_specs::hash::group_hash_axioms;

        let c: i64 = match self.retain_counts.get(&obj) {
            Some(c) => *c,
            None => {
                return;
            },
        };
        let n = if up {
            if c == i64::MAX {
                i64::MIN
            } else {
                c + 1
            }
        } else {
            if c == i64::MIN {
                i64::MAX
            } else {
                c - 1
            }
        };
        self.retain_counts.insert(obj, n);
    }

    /// Dispatch the message `sel` to `recv`.
    pub fn message(&mut self, recv: u64, sel: &str, mem: &mut GuestMemory) -> (r: u64)
        requires
            old(self)@.wf(),
            old(mem)@.wf(),
        ensures
            (final(self)@, final(mem)@, r) == old(self)@.message(recv, sel@, old(mem)@),
            final(self)@.wf(),
            final(mem)@.wf(),
    {
        broadcast use vstd::std_specs::hash::group_hash_axioms;

        let is_class = self.class_index_by_addr.contains_key(&recv);
        if is_class && (text::same(sel, "alloc") || text::same(sel, "allocWithZone:") || text::same(
            sel,
            "new",
        )) {
            return self.instance_or_null(recv, mem);
        }
        if text::same(sel, "init") || text::starts_with(sel, "initWith") {
            recv
        } else if text::same(sel, "retain") {
            self.change_count(recv, true);
            recv
        } else if text::same(sel, "self") || text::same(sel, "autorelease") {
            recv
        } else if text::same(sel, "release") {
            self.change_count(recv, false);
            0
        } else if text::same(sel, "retainCount") {
            match self.retain_counts.get(&recv) {
                Some(c) => to_unsigned(*c),
                None => 1,
            }
        } else if text::same(sel, "class") {
            self.class_of(recv)
        } else if text::same(sel, "hash") {
            recv
        } else {
            // Negative answers and unknown selectors alike.
            0
        }
    }

    /// Whether the message `sel` to `recv` is understood.
    fn knows(&self, recv: u64, sel: &str) -> (r: bool)
        ensures
            r == self@.understands(recv, sel@),
    {
        broadcast use vstd::std_specs::hash::group_hash_axioms;

        let makes = text::same(sel, "alloc") || text::same(sel, "allocWithZone:") || text::same(
            sel,
            "new",
        );
        if makes && self.class_index_by_addr.contains_key(&recv) {
            return true;
        }
        text::same(sel, "init") || text::starts_with(sel, "initWith") || text::same(sel, "self")
            || text::same(sel, "retain") || text::same(sel, "autorelease") || text::same(
            sel,
            "release",
        ) || text::same(sel, "retainCount") || text::same(sel, "class") || text::same(sel, "hash")
            || text::same(sel, "respondsToSelector:") || text::same(sel, "isKindOfClass:")
            || text::same(sel, "conformsToProtocol:")
    }

    /// Log the message `sel` to `recv`.
    fn log_message(&self, recv: u64, sel: &str, log: &mut Vec<LogLine>)
        ensures
            host::log_views(final(log)@) == host::log_views(old(log)@) + self@.lines(recv, sel@),
    {
        broadcast use vstd::std_specs::hash::group_hash_axioms;

        let ghost before = host::log_views(log@);
        let kind = if self.class_index_by_addr.contains_key(&recv) {
            "class"
        } else {
            "inst"
        };
        let mut line = text::cat3("msgSend ", kind, " -> -[");
        line.append(sel);
        line.append("]");
        host::log_line(log, LogLevel::Trace, LogTarget::Objc, line);
        if !self.knows(recv, sel) {
            let line = text::cat3("STUB objc::-[", sel, "] -> nil");
            host::log_line(log, LogLevel::Trace, LogTarget::Stub, line);
        }
        assert(host::log_views(log@) =~= before + self@.lines(recv, sel@));
    }

    /// Dispatch `objc_msgSend(self, _cmd, ...)`.
    pub fn msg_send(&mut self, ctx: &mut CallContext<'_>) -> (r: Dispatch)
        requires
            old(self)@.wf(),
            old(ctx).guest().mem.wf(),
        ensures
            (final(self)@, final(ctx).guest()) == old(self)@.msg_send(old(ctx).guest()),
            r == Dispatch::Handled,
            final(self)@.wf(),
            final(ctx).guest().mem.wf(),
            *final(final(ctx).cpu) == *final(old(ctx).cpu),
            *final(final(ctx).mem) == *final(old(ctx).mem),
            *final(final(ctx).log) == *final(old(ctx).log),
    {
        let recv = ctx.arg(0);
        if recv == 0 {
            ctx.ret(0);
            return Dispatch::Handled;
        }
        let at = ctx.arg(1);
        let sel = match ctx.mem.read_cstr(GuestAddr(at), 256) {
            Ok(s) => s,
            Err(_) => {
                log_unreadable(at, ctx.log);
                ctx.ret(0);
                return Dispatch::Handled;
            },
        };
        let letters = text::chars(sel.as_str());
        if letters.len() == 0 {
            log_unreadable(at, ctx.log);
            ctx.ret(0);
            return Dispatch::Handled;
        }
        self.log_message(recv, sel.as_str(), ctx.log);
        let v = self.message(recv, sel.as_str(), ctx.mem);
        ctx.ret(v);
        Dispatch::Handled
    }
}

impl Default for ObjcRuntime {
    fn default() -> (r: ObjcRuntime)
        ensures
            r@ == RuntimeView::empty(),
            r@.wf(),
    {
        ObjcRuntime::new()
    }
}

/// Log a message whose selector cannot be read.
fn log_unreadable(at: u64, log: &mut Vec<LogLine>)
    ensures
        host::log_views(final(log)@) == host::log_views(old(log)@).push(unreadable_line(at)),
{
    let line = text::cat(
        "objc_msgSend with unreadable selector @ ",
        text::address_string(at).as_str(),
    );
    host::log_line(log, LogLevel::Warn, LogTarget::Emulator, line);
}

/// Two's-complement bits of a signed number.
pub fn to_unsigned(x: i64) -> (r: u64)
    ensures
        r == leb::wrapped(x as int),
{
    0u64.wrapping_add_signed(x)
}

// ---- laws -------------------------------------------------------------------

/// Messages to nil answer nil and change nothing else.
pub proof fn nil_answers_nil(rt: RuntimeView, g: GuestView)
    requires
        g.cpu.x[0] == 0,
    ensures
        rt.msg_send(g) == (rt, g.returning(0)),
{
}

/// A message that is not understood answers nil, is logged, and changes nothing
/// else.
pub proof fn unknown_messages_answer_nil(rt: RuntimeView, g: GuestView, sel: Seq<char>)
    requires
        g.cpu.x[0] != 0,
        g.mem.read_cstr(g.cpu.x[1], 256) == Ok::<_, crate::common::error::ErrorView>(sel),
        sel.len() > 0,
        !rt.understands(g.cpu.x[0], sel),
    ensures
        rt.msg_send(g) == (
            rt,
            GuestView {
                log: g.log + seq![
                    message_line(rt.class_index_by_addr.contains_key(g.cpu.x[0]), sel),
                    unknown_line(sel),
                ],
                ..g
            }.returning(0),
        ),
{
    assert(rt.lines(g.cpu.x[0], sel) =~= seq![
        message_line(rt.class_index_by_addr.contains_key(g.cpu.x[0]), sel),
        unknown_line(sel),
    ]);
}

/// A class object is made once: asking for it again gives the same address and
/// allocates nothing.
pub proof fn class_objects_are_stable(rt: RuntimeView, name: Seq<char>, mem: MemView)
    ensures
        rt.class_object(name, mem).2 matches Some(a) ==> {
            let (rt2, mem2, _) = rt.class_object(name, mem);
            rt2.class_object(name, mem2) == (rt2, mem2, Some(a))
        },
{
}

/// A new instance starts with a retain count of one, belongs to its class, and
/// its first word is the class pointer.
pub proof fn new_instances_belong_to_their_class(rt: RuntimeView, class: u64, mem: MemView)
    requires
        mem.wf(),
        rt.instance(class, mem).2 matches Some(obj) && rt.instance(class, mem).1.read(
            obj,
            8,
        ) is Ok,
    ensures
        ({
            let (rt2, mem2, o) = rt.instance(class, mem);
            let obj = o->0;
            &&& rt2.retain_counts.contains_key(obj) && rt2.retain_counts[obj] == 1
            &&& rt2.instance_class.contains_key(obj) && rt2.instance_class[obj]
                == rt.class_index_by_addr[class]
            &&& mem2.read_u64(obj) == Ok::<u64, crate::common::error::ErrorView>(class)
        }),
{
    let (m, a) = mem.heap_alloc(OBJ_HEADER_SIZE, 16);
    let obj = a->Ok_0;
    let mem2 = m.write(obj, bytes::le64_bytes(class)).0;
    crate::memory::allocator::blocks_are_aligned_and_fresh(mem.heap, OBJ_HEADER_SIZE, 16);
    crate::memory::space::lemma_same_layout(m, obj, bytes::le64_bytes(class), obj);
    crate::memory::space::lemma_floor_index(m.regions, obj);
    assert(m.read(obj, 8) is Ok);
    crate::memory::space::word64_roundtrip(m, obj, class);
}

/// `retain` and `release` cancel out: whatever an object's retain count is,
/// the pair leaves the runtime as it was.
pub proof fn release_undoes_retain(rt: RuntimeView, obj: u64, mem: MemView)
    ensures
        ({
            let (rt1, m1, v1) = rt.message(obj, "retain"@, mem);
            let (rt2, m2, v2) = rt1.message(obj, "release"@, m1);
            rt2 == rt && m2 == mem && v1 == obj && v2 == 0
        }),
{
    reveal_strlit("retain");
    reveal_strlit("release");
    reveal_strlit("alloc");
    reveal_strlit("allocWithZone:");
    reveal_strlit("new");
    reveal_strlit("init");
    reveal_strlit("initWith");
    reveal_strlit("self");
    reveal_strlit("autorelease");
    assert("retain"@.len() == 6 && "release"@.len() == 7);
    assert("retain"@[0] == 'r' && "release"@[0] == 'r' && "retain"@[2] == 't' && "release"@[2]
        == 'l');
    assert("alloc"@[0] == 'a' && "allocWithZone:"@[0] == 'a' && "new"@[0] == 'n' && "init"@[0]
        == 'i' && "initWith"@[0] == 'i' && "self"@[0] == 's' && "autorelease"@[0] == 'a');
    let c = rt.retain_counts[obj];
    let rt1 = rt.message(obj, "retain"@, mem).0;
    if rt.retain_counts.contains_key(obj) {
        assert(decremented(incremented(c)) == c);
        assert(rt1.with_count(obj, c).retain_counts =~= rt.retain_counts);
    }
}

} // verus!
