//! Symbol resolution to trampolines.
//!
//! Every imported symbol is bound to a unique address in a reserved trampoline
//! area, so that a branch there can be turned back into the symbol's name.

use vstd::hash_map::StringHashMap;
use vstd::prelude::*;

use crate::common::GuestAddr;

verus! {

/// Resolves an imported symbol to the address a pointer should be bound to;
/// `None` leaves it unbound.
pub trait SymbolResolver {
    fn resolve(&mut self, symbol: &str, lib_ordinal: i64, weak: bool) -> (r: Option<GuestAddr>);
}

/// Trampoline address to symbol name.
pub type TrampolineTable = std::collections::HashMap<u64, String>;

/// Assigns a unique, stable trampoline address to every distinct symbol.
pub struct StubResolver {
    pub base: u64,
    pub stride: u64,
    pub next: u64,
    /// Symbol to trampoline.
    pub forward: StringHashMap<u64>,
    /// Trampoline to symbol.
    pub reverse: TrampolineTable,
}

/// The texts of a table of strings.
pub open spec fn names(t: Map<u64, String>) -> Map<u64, Seq<char>> {
    t.map_values(|s: String| s@)
}

/// View of a [`StubResolver`].
#[verifier::ext_equal]
pub struct ResolverView {
    pub base: u64,
    pub stride: u64,
    pub next: u64,
    pub forward: Map<Seq<char>, u64>,
    pub reverse: Map<u64, Seq<char>>,
}

impl View for StubResolver {
    type V = ResolverView;

    open spec fn view(&self) -> ResolverView {
        ResolverView {
            base: self.base,
            stride: self.stride,
            next: self.next,
            forward: self.forward@,
            reverse: names(self.reverse@),
        }
    }
}

impl ResolverView {
    /// A resolver that has handed out nothing.
    pub open spec fn fresh(base: u64, stride: u64) -> ResolverView {
        ResolverView { base, stride, next: base, forward: Map::empty(), reverse: Map::empty() }
    }

    /// Addresses lie between the base and the next free one, and the two tables
    /// are inverse to each other.
    pub open spec fn wf(self) -> bool {
        &&& self.base <= self.next
        &&& self.stride > 0 ==> {
            &&& forall|s: Seq<char>|
                #![trigger self.forward.contains_key(s)]
                self.forward.contains_key(s) ==> self.base <= self.forward[s] < self.next
                    && self.reverse.contains_key(self.forward[s])
                    && self.reverse[self.forward[s]] == s
            &&& forall|a: u64|
                #![trigger self.reverse.contains_key(a)]
                self.reverse.contains_key(a) ==> self.forward.contains_key(self.reverse[a])
                    && self.forward[self.reverse[a]] == a
        }
    }

    /// The address of `symbol`: the one it has, or else the next free one.
    /// There is none only when the trampoline space would leave the address
    /// space.
    pub open spec fn resolve(self, symbol: Seq<char>) -> (ResolverView, Option<u64>) {
        if self.forward.contains_key(symbol) {
            (self, Some(self.forward[symbol]))
        } else if self.next + self.stride > u64::MAX {
            (self, None)
        } else {
            (
                ResolverView {
                    next: (self.next + self.stride) as u64,
                    forward: self.forward.insert(symbol, self.next),
                    reverse: self.reverse.insert(self.next, symbol),
                    ..self
                },
                Some(self.next),
            )
        }
    }

    /// The resolver after the symbols `symbols` have been resolved in turn.
    pub open spec fn resolve_all(self, symbols: Seq<Seq<char>>) -> ResolverView
        decreases symbols.len(),
    {
        if symbols.len() == 0 {
            self
        } else {
            self.resolve_all(symbols.drop_last()).resolve(symbols.last()).0
        }
    }
}

/// The distinct names among `symbols`, in the order of their first occurrence.
pub open spec fn distinct(symbols: Seq<Seq<char>>) -> Seq<Seq<char>>
    decreases symbols.len(),
{
    if symbols.len() == 0 {
        seq![]
    } else {
        let before = distinct(symbols.drop_last());
        if before.contains(symbols.last()) {
            before
        } else {
            before.push(symbols.last())
        }
    }
}

/// The address of trampoline number `i`.
pub open spec fn slot(base: u64, stride: u64, i: int) -> int {
    base + i * stride
}

impl StubResolver {
    /// A resolver whose trampolines start at `base`, `stride` bytes apart.
    pub fn new(base: GuestAddr, stride: u64) -> (r: StubResolver)
        ensures
            r@ == ResolverView::fresh(base.0, stride),
            r@.wf(),
    {
        broadcast use vstd::std_specs::hash::group_hash_axioms;

        let r = StubResolver {
            base: base.raw(),
            stride,
            next: base.raw(),
            forward: StringHashMap::new(),
            reverse: std::collections::HashMap::new(),
        };
        assert(r@ =~= ResolverView::fresh(base.0, stride));
        r
    }

    /// Bytes of trampoline space handed out so far.
    pub fn used(&self) -> (r: u64)
        requires
            self@.wf(),
        ensures
            r == self@.next - self@.base,
    {
        self.next - self.base
    }

    /// Give up the resolver for its address-to-symbol table.
    pub fn into_table(self) -> (r: TrampolineTable)
        ensures
            names(r@) == self@.reverse,
    {
        self.reverse
    }

    /// The address-to-symbol table.
    pub fn table(&self) -> (r: &TrampolineTable)
        ensures
            names(r@) == self@.reverse,
    {
        &self.reverse
    }

    /// The symbol-to-address table.
    pub fn forward(&self) -> (r: &StringHashMap<u64>)
        ensures
            r@ == self@.forward,
    {
        &self.forward
    }
}

impl SymbolResolver for StubResolver {
    fn resolve(&mut self, symbol: &str, lib_ordinal: i64, weak: bool) -> (r: Option<GuestAddr>)
        ensures
            final(self)@ == old(self)@.resolve(symbol@).0,
            r == (match old(self)@.resolve(symbol@).1 {
                Some(a) => Some(GuestAddr(a)),
                None => None,
            }),
    {
        broadcast use vstd::std_specs::hash::group_hash_axioms;

        if let Some(addr) = self.forward.get(symbol) {
            return Some(GuestAddr(*addr));
        }
        let addr = self.next;
        let next = match addr.checked_add(self.stride) {
            Some(n) => n,
            None => {
                return None;
            },
        };
        self.next = next;
        self.forward.insert(symbol.to_owned(), addr);
        self.reverse.insert(addr, symbol.to_owned());
        assert(self@ =~= old(self)@.resolve(symbol@).0);
        Some(GuestAddr(addr))
    }
}

// ---- laws -------------------------------------------------------------------

/// Resolving keeps the tables inverse to each other.
pub proof fn resolving_keeps_tables_inverse(r: ResolverView, symbol: Seq<char>)
    requires
        r.wf(),
    ensures
        r.resolve(symbol).0.wf(),
        r.resolve(symbol).0.base == r.base,
        r.resolve(symbol).0.stride == r.stride,
        r.resolve(symbol).0.next >= r.next,
{
    let after = r.resolve(symbol).0;
    if after != r && r.stride > 0 {
        assert forall|s: Seq<char>|
            #![trigger after.forward.contains_key(s)]
            after.forward.contains_key(s) implies after.base <= after.forward[s] < after.next
            && after.reverse.contains_key(after.forward[s]) && after.reverse[after.forward[s]]
            == s by {
            if s != symbol {
                assert(r.forward.contains_key(s));
            }
        }
        assert forall|a: u64|
            #![trigger after.reverse.contains_key(a)]
            after.reverse.contains_key(a) implies after.forward.contains_key(after.reverse[a])
            && after.forward[after.reverse[a]] == a by {
            if a != r.next {
                assert(r.reverse.contains_key(a));
            }
        }
    }
}

/// A symbol keeps its address whatever is resolved after it, and its address
/// leads back to it.
pub proof fn addresses_are_stable(r: ResolverView, symbol: Seq<char>, other: Seq<char>)
    requires
        r.wf(),
        r.stride > 0,
    ensures
        r.resolve(symbol).1 matches Some(a) ==> {
            let r1 = r.resolve(symbol).0;
            let r2 = r1.resolve(other).0;
            &&& r2.resolve(symbol).1 == Some(a)
            &&& r2.reverse.contains_key(a) && r2.reverse[a] == symbol
        },
{
    resolving_keeps_tables_inverse(r, symbol);
    let r1 = r.resolve(symbol).0;
    resolving_keeps_tables_inverse(r1, other);
    let r2 = r1.resolve(other).0;
    if r.resolve(symbol).1 is Some {
        assert(r1.forward.contains_key(symbol));
        assert(r2.forward.contains_key(symbol));
    }
}

/// Distinct symbols have distinct addresses.
pub proof fn addresses_are_unique(r: ResolverView, a: Seq<char>, b: Seq<char>)
    requires
        r.wf(),
        r.stride > 0,
        a != b,
    ensures
        r.resolve(a).1 matches Some(x) ==> r.resolve(a).0.resolve(b).1 matches Some(y) ==> x != y,
{
    addresses_are_stable(r, a, b);
    addresses_are_stable(r.resolve(a).0, b, b);
}

/// Slots do not descend, and those of a positive stride are distinct.
proof fn lemma_slots(base: u64, stride: u64, i: int, j: int)
    requires
        0 <= i < j,
    ensures
        base <= slot(base, stride, i),
        slot(base, stride, i) + stride <= slot(base, stride, j),
        slot(base, stride, i + 1) == slot(base, stride, i) + stride,
{
    assert(0 <= i * stride) by (nonlinear_arith)
        requires
            0 <= i,
            0 <= stride,
    ;
    assert((i + 1) * stride == i * stride + stride) by (nonlinear_arith);
    assert((i + 1) * stride <= j * stride) by (nonlinear_arith)
        requires
            i + 1 <= j,
            0 <= stride,
    ;
}

/// From a fresh resolver, the distinct symbols get consecutive trampolines in
/// the order in which they are first named: number `i` gets
/// `base + i * stride`, whoever asks again gets the same answer, and as long as
/// they fit the address space every call has one. The tables hold exactly
/// these symbols and addresses, and the space used is one stride for each.
pub proof fn trampolines_are_consecutive(base: u64, stride: u64, symbols: Seq<Seq<char>>)
    requires
        stride > 0,
        slot(base, stride, distinct(symbols).len() as int) <= u64::MAX,
    ensures
        ({
            let names = distinct(symbols);
            let start = ResolverView::fresh(base, stride);
            let end = start.resolve_all(symbols);
            &&& names.no_duplicates()
            &&& forall|s: Seq<char>| names.contains(s) <==> symbols.contains(s)
            &&& end.wf()
            &&& end.base == base && end.stride == stride
            &&& end.next - end.base == names.len() * stride
            &&& forall|s: Seq<char>| #[trigger]
                end.forward.contains_key(s) <==> names.contains(s)
            &&& forall|i: int|
                0 <= i < names.len() ==> end.forward[#[trigger] names[i]] == slot(base, stride, i)
            &&& forall|a: u64| #[trigger]
                end.reverse.contains_key(a) <==> exists|i: int|
                    0 <= i < names.len() && a == #[trigger] slot(base, stride, i)
            &&& forall|i: int|
                0 <= i < names.len() ==> end.reverse[#[trigger] slot(base, stride, i) as u64]
                    == names[i]
            &&& forall|k: int, i: int|
                0 <= k < symbols.len() && 0 <= i < names.len() && names[i] == symbols[k]
                    ==> start.resolve_all(#[trigger] symbols.take(k)).resolve(symbols[k]).1 == Some(
                    #[trigger] slot(base, stride, i) as u64,
                )
        }),
    decreases symbols.len(),
{
    let names = distinct(symbols);
    let start = ResolverView::fresh(base, stride);
    let end = start.resolve_all(symbols);
    if symbols.len() > 0 {
        let prior = symbols.drop_last();
        let last = symbols.last();
        let known = distinct(prior);
        let n = known.len() as int;
        if known.len() < names.len() {
            lemma_slots(base, stride, n, n + 1);
        }
        trampolines_are_consecutive(base, stride, prior);
        let before = start.resolve_all(prior);
        resolving_keeps_tables_inverse(before, last);
        assert(symbols =~= prior.push(last));
        assert forall|s: Seq<char>| names.contains(s) <==> symbols.contains(s) by {
            if names.contains(s) {
                let i = choose|i: int| 0 <= i < names.len() && names[i] == s;
                if i < n {
                    assert(known[i] == s);
                    assert(prior.contains(s));
                    let k = choose|k: int| 0 <= k < prior.len() && prior[k] == s;
                    assert(symbols[k] == s);
                } else {
                    assert(symbols[symbols.len() - 1] == s);
                }
            }
            if symbols.contains(s) {
                let k = choose|k: int| 0 <= k < symbols.len() && symbols[k] == s;
                if k < prior.len() {
                    assert(prior[k] == s);
                    assert(known.contains(s));
                    let i = choose|i: int| 0 <= i < n && known[i] == s;
                    assert(names[i] == s);
                } else if known.contains(last) {
                    assert(names.contains(s));
                } else {
                    assert(names[n] == s);
                }
            }
        }
        assert(before.next == slot(base, stride, n));
        if known.contains(last) {
            assert(end == before);
        } else {
            assert(names == known.push(last));
            assert((n + 1) * stride == n * stride + stride) by (nonlinear_arith);
            assert forall|s: Seq<char>| #[trigger]
                end.forward.contains_key(s) <==> names.contains(s) by {
                if names.contains(s) && s != last {
                    let i = choose|i: int| 0 <= i < names.len() && names[i] == s;
                    assert(known[i] == s);
                }
                if s == last {
                    assert(names[n] == s);
                }
                if known.contains(s) {
                    let i = choose|i: int| 0 <= i < n && known[i] == s;
                    assert(names[i] == s);
                }
            }
            assert forall|i: int| 0 <= i < names.len() implies end.forward[#[trigger] names[i]]
                == slot(base, stride, i) by {
                if i < n {
                    assert(names[i] == known[i]);
                    assert(known.contains(known[i]));
                }
            }
            assert forall|a: u64| #[trigger]
                end.reverse.contains_key(a) <==> exists|i: int|
                    0 <= i < names.len() && a == #[trigger] slot(base, stride, i) by {
                if end.reverse.contains_key(a) {
                    if a == before.next {
                        assert(a == slot(base, stride, n));
                    } else {
                        assert(before.reverse.contains_key(a));
                    }
                }
                if exists|i: int| 0 <= i < names.len() && a == #[trigger] slot(base, stride, i) {
                    let i = choose|i: int|
                        0 <= i < names.len() && a == #[trigger] slot(base, stride, i);
                    if i < n {
                        assert(before.reverse.contains_key(a));
                    }
                }
            }
            assert forall|i: int| 0 <= i < names.len() implies end.reverse[#[trigger] slot(
                base,
                stride,
                i,
            ) as u64] == names[i] by {
                if i < n {
                    lemma_slots(base, stride, i, n);
                    assert(names[i] == known[i]);
                }
            }
        }
        assert forall|k: int, i: int|
            0 <= k < symbols.len() && 0 <= i < names.len() && names[i] == symbols[k] implies
            start.resolve_all(#[trigger] symbols.take(k)).resolve(symbols[k]).1 == Some(
            #[trigger] slot(base, stride, i) as u64,
        ) by {
            if k < prior.len() {
                assert(symbols.take(k) =~= prior.take(k));
                assert(prior[k] == symbols[k]);
                assert(prior.contains(prior[k]));
                assert(known.contains(prior[k]));
                if i >= n {
                    assert(false);
                }
                assert(known[i] == prior[k]);
            } else {
                assert(symbols.take(k) =~= prior);
                if i < n {
                    assert(known[i] == last);
                    assert(known.contains(last));
                    assert(before.forward.contains_key(last));
                } else {
                    assert(!before.forward.contains_key(last));
                }
            }
        }
    }
}

} // verus!
