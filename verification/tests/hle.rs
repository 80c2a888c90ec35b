use ios_emu::common::{GuestAddr, Protection};
use ios_emu::hle::frameworks::libsystem;
use ios_emu::hle::runtime::ObjcRuntime;
use ios_emu::hle::HleEnvironment;
use ios_emu::kernel::cpu::CpuContext;
use ios_emu::kernel::env::{CallContext, Dispatch, HostEnvironment};
use ios_emu::kernel::host::{LogLevel, LogLine, LogTarget};
use ios_emu::memory::{GuestMemory, RegionKind};
use ios_emu::vfs::Sandbox;

#[test]
fn registry_populated() {
    let env = HleEnvironment::new();
    assert!(env.symbol_count() > 10);
}

struct Guest {
    cpu: CpuContext,
    mem: GuestMemory,
    vfs: Sandbox,
    log: Vec<LogLine>,
    env: HleEnvironment,
}

impl Guest {
    fn new() -> Guest {
        let mut mem = GuestMemory::new(GuestAddr(0x1_0000_0000), 0x10000).unwrap();
        mem.map(GuestAddr(0x2_0000_0000), 0x4000, Protection::rw(), RegionKind::Stack, "s").unwrap();
        Guest {
            cpu: CpuContext::default(),
            mem,
            vfs: Sandbox::prepare("/c", "/s", "A", "U"),
            log: Vec::new(),
            env: HleEnvironment::new(),
        }
    }

    fn start(&mut self) {
        let mut ctx = CallContext {
            cpu: &mut self.cpu,
            mem: &mut self.mem,
            vfs: &self.vfs,
            log: &mut self.log,
        };
        self.env.on_process_start(&mut ctx);
    }

    fn call(&mut self, symbol: &str, args: &[u64]) -> Option<u64> {
        for (i, a) in args.iter().enumerate() {
            self.cpu.x[i] = *a;
        }
        let mut ctx = CallContext {
            cpu: &mut self.cpu,
            mem: &mut self.mem,
            vfs: &self.vfs,
            log: &mut self.log,
        };
        match self.env.call(symbol, &mut ctx) {
            Dispatch::Handled => Some(self.cpu.x[0]),
            Dispatch::Unhandled => None,
        }
    }

    fn text(&mut self, at: u64, s: &str) -> u64 {
        self.mem.write(GuestAddr(at), s.as_bytes()).unwrap();
        self.mem.write(GuestAddr(at + s.len() as u64), &[0]).unwrap();
        at
    }

    fn send(&mut self, recv: u64, sel: &str) -> u64 {
        let s = self.text(0x2_0000_0f00, sel);
        self.call("objc_msgSend", &[recv, s]).unwrap()
    }
}

#[test]
fn objects_are_allocated_and_counted() {
    let mut g = Guest::new();
    g.start();
    let name = g.text(0x2_0000_0000, "NSObject");
    let class = g.call("objc_getClass", &[name]).unwrap();
    assert_ne!(class, 0);
    assert_eq!(g.call("objc_getClass", &[name]).unwrap(), class);
    let obj = g.send(class, "alloc");
    assert_ne!(obj, 0);
    assert_eq!(g.mem.read_u64(GuestAddr(obj)).unwrap(), class);
    assert_eq!(g.send(obj, "init"), obj);
    assert_eq!(g.send(obj, "initWithFrame:"), obj);
    assert_eq!(g.send(obj, "retainCount"), 1);
    assert_eq!(g.send(obj, "retain"), obj);
    assert_eq!(g.send(obj, "retainCount"), 2);
    assert_eq!(g.send(obj, "release"), 0);
    assert_eq!(g.send(obj, "retainCount"), 1);
    assert_eq!(g.send(obj, "class"), class);
    assert_eq!(g.send(class, "class"), class);
    assert_eq!(g.send(obj, "hash"), obj);
    assert_eq!(g.send(obj, "respondsToSelector:"), 0);
    assert!(g.log.iter().all(|l| l.target == LogTarget::Objc && l.level == LogLevel::Trace));
    assert_eq!(g.log[0].text, "msgSend class -> -[alloc]");
    assert_eq!(g.log[g.log.len() - 1].text, "msgSend inst -> -[respondsToSelector:]");
}

#[test]
fn retains_and_releases_add_up() {
    let mut g = Guest::new();
    let name = g.text(0x2_0000_0100, "Widget");
    let class = g.call("objc_getClass", &[name]).unwrap();
    let obj = g.send(class, "alloc");
    assert_eq!(g.mem.read_u64(GuestAddr(obj)).unwrap(), class);
    for sel in ["retain", "retain", "release", "retain", "release", "release", "release"] {
        g.send(obj, sel);
    }
    assert_eq!(g.send(obj, "retainCount"), 0);
    g.send(obj, "release");
    assert_eq!(g.send(obj, "retainCount"), u64::MAX);
    assert_eq!(g.send(obj, "class"), class);
    assert_eq!(g.send(obj, "init"), obj);
    assert_eq!(g.send(obj, "self"), obj);
    assert_eq!(g.send(obj, "autorelease"), obj);
    assert_eq!(g.send(0, "retainCount"), 0);
}

#[test]
fn nil_answers_nil() {
    let mut g = Guest::new();
    assert_eq!(g.send(0, "retain"), 0);
    assert!(g.log.is_empty());
}

#[test]
fn unknown_messages_are_logged() {
    let mut g = Guest::new();
    assert_eq!(g.send(0x1234, "frobnicate:"), 0);
    assert_eq!(g.log.len(), 2);
    assert_eq!(g.log[0].target, LogTarget::Objc);
    assert_eq!(g.log[0].text, "msgSend inst -> -[frobnicate:]");
    assert_eq!(g.log[1].target, LogTarget::Stub);
    assert_eq!(g.log[1].text, "STUB objc::-[frobnicate:] -> nil");
    assert_eq!(g.call("objc_msgSend", &[0x1234, 0]).unwrap(), 0);
    assert_eq!(g.log[2].level, LogLevel::Warn);
    assert_eq!(g.log[2].target, LogTarget::Emulator);
    assert_eq!(g.log[2].text, "objc_msgSend with unreadable selector @ 0x0000000000000000");
}

#[test]
fn root_classes_keep_their_numbers() {
    let mut rt = ObjcRuntime::new();
    rt.preload_root_classes();
    assert_eq!(rt.classes.len(), 2);
    rt.preload_root_classes();
    assert_eq!(rt.classes.len(), 2);
    let mut mem = GuestMemory::new(GuestAddr(0x1_0000_0000), 0x10000).unwrap();
    let a = rt.class_object("Game", &mut mem).unwrap();
    assert_eq!(rt.class_object("Game", &mut mem), Some(a));
    assert_eq!(rt.classes.len(), 3);
    assert_eq!(rt.instance_or_null(0x99, &mut mem), 0);
    let b = rt.instance_or_null(a.raw(), &mut mem);
    assert_ne!(b, 0);
    assert_eq!(rt.message(b, "class", &mut mem), a.raw());
}

#[test]
fn allocation_shims_use_the_heap() {
    let mut g = Guest::new();
    let p = g.call("malloc", &[24]).unwrap();
    assert_ne!(p, 0);
    let q = g.call("calloc", &[4, 8]).unwrap();
    assert!(q >= p + 24);
    assert_eq!(g.mem.read_u64(GuestAddr(q)).unwrap(), 0);
    g.mem.write_u64(GuestAddr(q), 0x55).unwrap();
    let r = g.call("realloc", &[q, 64]).unwrap();
    assert_eq!(g.mem.read_u64(GuestAddr(r)).unwrap(), 0x55);
    assert_eq!(g.call("malloc", &[u64::MAX]).unwrap(), 0);
    assert_eq!(g.call("calloc", &[u64::MAX, 2]).unwrap(), 0);
}

#[test]
fn memory_and_string_shims() {
    let mut g = Guest::new();
    let a = g.text(0x2_0000_0000, "hello");
    let b = g.text(0x2_0000_0040, "help");
    assert_eq!(g.call("strlen", &[a]).unwrap(), 5);
    assert_eq!(g.call("strcmp", &[a, a]).unwrap(), 0);
    assert!((g.call("strcmp", &[a, b]).unwrap() as i64) < 0);
    assert!((g.call("strcmp", &[b, a]).unwrap() as i64) > 0);
    assert_eq!(g.call("memcmp", &[a, b, 3]).unwrap(), 0);
    assert_ne!(g.call("memcmp", &[a, b, 4]).unwrap(), 0);
    let d = 0x2_0000_0080;
    assert_eq!(g.call("memcpy", &[d, a, 6]).unwrap(), d);
    assert_eq!(g.mem.read_cstr(GuestAddr(d), 16).unwrap(), "hello");
    assert_eq!(g.call("memset", &[d, 0x1_41, 2]).unwrap(), d);
    assert_eq!(g.mem.read_cstr(GuestAddr(d), 16).unwrap(), "AAllo");
    g.call("bzero", &[d, 1]).unwrap();
    assert_eq!(g.mem.read_u8(GuestAddr(d)).unwrap(), 0);
    assert_eq!(libsystem::string_length(&g.mem, a), 5);
}

#[test]
fn logged_messages_are_surfaced() {
    let mut g = Guest::new();
    let s = g.text(0x2_0000_0100, "hello %@");
    g.mem.write_u64(GuestAddr(0x2_0000_0010), s).unwrap();
    g.call("NSLog", &[0x2_0000_0000]).unwrap();
    assert_eq!(g.log[0].target, LogTarget::NSLog);
    assert_eq!(g.log[0].text, "hello %@");
    g.call("NSLog", &[0x40]).unwrap();
    assert_eq!(g.log[1].text, "<unprintable NSString>");
    assert_eq!(g.call("UIApplicationMain", &[1, 0, 0x10, 0x20]).unwrap(), 0);
    assert_eq!(g.log[2].target, LogTarget::UIKit);
    assert_eq!(
        g.log[2].text,
        "UIApplicationMain(argc=1, principal=0x10, delegate=0x20) \u{2014} entering emulated run loop"
    );
}

#[test]
fn stubs_answer_zero_and_the_rest_is_unhandled() {
    let mut g = Guest::new();
    assert_eq!(g.call("glClear", &[7]), Some(0));
    assert_eq!(g.call("CFRetain", &[7]), Some(0));
    assert_eq!(g.call("CGMainDisplayID", &[7]), Some(1));
    assert_eq!(g.call("no_such_symbol", &[7]), None);
}
