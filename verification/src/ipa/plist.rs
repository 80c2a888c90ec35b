//! Property lists: the value they describe, and the choice of encoding.
//!
//! Two encodings are read: Apple's binary format version 0, and the part of the
//! XML format that an `Info.plist` uses.

use vstd::prelude::*;

use crate::bytes;
use crate::ipa::bplist;
use crate::ipa::xml;
use crate::text;

verus! {

/// A floating-point number as it is stored: the bits of a binary plist, or the
/// numeral of an XML plist.
#[derive(Clone, Debug, PartialEq)]
pub enum PlistReal {
    /// IEEE 754 single precision.
    Single(u32),
    /// IEEE 754 double precision.
    Double(u64),
    /// A decimal numeral.
    Numeral(String),
}

/// A decoded plist node. Dates are kept as reals and UIDs as integers.
#[derive(Debug, PartialEq)]
pub enum PlistValue {
    Bool(bool),
    Integer(i64),
    Real(PlistReal),
    String(String),
    Data(Vec<u8>),
    Array(Vec<PlistValue>),
    /// The entries in the order of their keys.
    Dict(Vec<(String, PlistValue)>),
}

/// Mathematical view of [`PlistReal`].
#[verifier::ext_equal]
pub enum RealView {
    Single(u32),
    Double(u64),
    Numeral(Seq<char>),
}

/// Mathematical view of [`PlistValue`].
#[verifier::ext_equal]
pub enum PlistView {
    Bool(bool),
    Integer(i64),
    Real(RealView),
    Text(Seq<char>),
    Data(Seq<u8>),
    Array(Seq<PlistView>),
    Dict(Map<Seq<char>, PlistView>),
}

/// The map made by inserting `pairs` in order.
pub open spec fn map_of(pairs: Seq<(Seq<char>, PlistView)>) -> Map<Seq<char>, PlistView>
    decreases pairs.len(),
{
    if pairs.len() == 0 {
        Map::empty()
    } else {
        map_of(pairs.drop_last()).insert(pairs.last().0, pairs.last().1)
    }
}

impl View for PlistReal {
    type V = RealView;

    open spec fn view(&self) -> RealView {
        match *self {
            PlistReal::Single(b) => RealView::Single(b),
            PlistReal::Double(b) => RealView::Double(b),
            PlistReal::Numeral(s) => RealView::Numeral(s@),
        }
    }
}

/// What a node describes.
pub open spec fn node_view(v: PlistValue) -> PlistView
    decreases v,
{
    match v {
        PlistValue::Bool(b) => PlistView::Bool(b),
        PlistValue::Integer(i) => PlistView::Integer(i),
        PlistValue::Real(r) => PlistView::Real(r@),
        PlistValue::String(s) => PlistView::Text(s@),
        PlistValue::Data(d) => PlistView::Data(d@),
        PlistValue::Array(a) => PlistView::Array(item_views(a@)),
        PlistValue::Dict(d) => PlistView::Dict(map_of(entry_views(d@))),
    }
}

/// What the elements of an array describe.
pub open spec fn item_views(a: Seq<PlistValue>) -> Seq<PlistView>
    decreases a,
{
    if a.len() == 0 {
        seq![]
    } else {
        item_views(a.drop_last()).push(node_view(a[a.len() - 1]))
    }
}

/// What the entries of a dictionary describe.
pub open spec fn entry_views(d: Seq<(String, PlistValue)>) -> Seq<(Seq<char>, PlistView)>
    decreases d,
{
    if d.len() == 0 {
        seq![]
    } else {
        entry_views(d.drop_last()).push((d[d.len() - 1].0@, node_view(d[d.len() - 1].1)))
    }
}

impl View for PlistValue {
    type V = PlistView;

    open spec fn view(&self) -> PlistView {
        node_view(*self)
    }
}

impl Clone for PlistValue {
    fn clone(&self) -> (r: PlistValue)
        ensures
            r@ == self@,
            self.valid() ==> r.valid(),
        decreases self,
    {
        match self {
            PlistValue::Bool(b) => PlistValue::Bool(*b),
            PlistValue::Integer(i) => PlistValue::Integer(*i),
            PlistValue::Real(PlistReal::Single(b)) => PlistValue::Real(PlistReal::Single(*b)),
            PlistValue::Real(PlistReal::Double(b)) => PlistValue::Real(PlistReal::Double(*b)),
            PlistValue::Real(PlistReal::Numeral(s)) => PlistValue::Real(
                PlistReal::Numeral(s.clone()),
            ),
            PlistValue::String(s) => PlistValue::String(s.clone()),
            PlistValue::Data(d) => {
                let copy = bytes::slice(d.as_slice(), 0, d.len());
                assert(d@.subrange(0, d@.len() as int) =~= d@);
                PlistValue::Data(copy)
            },
            PlistValue::Array(a) => {
                let mut copy: Vec<PlistValue> = Vec::new();
                let mut i: usize = 0;
                while i < a.len()
                    invariant
                        i <= a@.len(),
                        self matches PlistValue::Array(b) && b == *a,
                        item_views(copy@) == item_views(a@.take(i as int)),
                        copy@.len() == i,
                        forall|k: int| 0 <= k < i && a@[k].valid() ==> (#[trigger] copy@[k]).valid(),
                    decreases a@.len() - i,
                {
                    assert(decreases_to!(self => a@[i as int]));
                    let v = a[i].clone();
                    let ghost before = copy@;
                    copy.push(v);
                    assert(copy@.drop_last() =~= before);
                    assert(a@.take(i + 1).drop_last() =~= a@.take(i as int));
                    i += 1;
                }
                assert(a@.take(i as int) =~= a@);
                PlistValue::Array(copy)
            },
            PlistValue::Dict(d) => {
                let mut copy: Vec<(String, PlistValue)> = Vec::new();
                let mut i: usize = 0;
                while i < d.len()
                    invariant
                        i <= d@.len(),
                        self matches PlistValue::Dict(b) && b == *d,
                        entry_views(copy@) == entry_views(d@.take(i as int)),
                        copy@.len() == i,
                        forall|k: int| 0 <= k < i ==> (#[trigger] copy@[k]).0@ == d@[k].0@,
                        forall|k: int|
                            0 <= k < i && d@[k].1.valid() ==> (#[trigger] copy@[k]).1.valid(),
                    decreases d@.len() - i,
                {
                    assert(decreases_to!(self => d@[i as int].1));
                    let v = d[i].1.clone();
                    let ghost before = copy@;
                    copy.push((d[i].0.clone(), v));
                    assert(copy@.drop_last() =~= before);
                    assert(d@.take(i + 1).drop_last() =~= d@.take(i as int));
                    i += 1;
                }
                assert(d@.take(i as int) =~= d@);
                PlistValue::Dict(copy)
            },
        }
    }
}

/// An array has one view per element.
pub proof fn lemma_item_views(a: Seq<PlistValue>)
    ensures
        item_views(a).len() == a.len(),
        forall|i: int| 0 <= i < a.len() ==> #[trigger] item_views(a)[i] == a[i]@,
    decreases a.len(),
{
    if a.len() > 0 {
        lemma_item_views(a.drop_last());
    }
}

/// A dictionary has one pair per entry.
pub proof fn lemma_entry_views(d: Seq<(String, PlistValue)>)
    ensures
        entry_views(d).len() == d.len(),
        forall|i: int|
            0 <= i < d.len() ==> #[trigger] entry_views(d)[i] == (d[i].0@, d[i].1@),
    decreases d.len(),
{
    if d.len() > 0 {
        lemma_entry_views(d.drop_last());
    }
}

/// Whether the keys of `d` are strictly increasing, so that none occurs twice.
pub open spec fn keys_increase(d: Seq<(String, PlistValue)>) -> bool {
    forall|i: int, j: int| 0 <= i < j < d.len() ==> text::less(#[trigger] d[i].0@, #[trigger] d[j].0@)
}

impl PlistValue {
    /// Every dictionary inside holds its entries in the order of their keys.
    pub open spec fn valid(self) -> bool
        decreases self,
    {
        match self {
            PlistValue::Array(a) => forall|i: int| 0 <= i < a@.len() ==> (#[trigger] a@[i]).valid(),
            PlistValue::Dict(d) => {
                &&& keys_increase(d@)
                &&& forall|i: int| 0 <= i < d@.len() ==> (#[trigger] d@[i]).1.valid()
            },
            _ => true,
        }
    }
}

impl PlistView {
    /// The text of a string node.
    pub open spec fn text(self) -> Option<Seq<char>> {
        match self {
            PlistView::Text(s) => Some(s),
            _ => None,
        }
    }

    /// The elements of an array node.
    pub open spec fn items(self) -> Option<Seq<PlistView>> {
        match self {
            PlistView::Array(a) => Some(a),
            _ => None,
        }
    }

    /// The value that a dictionary node holds under `key`.
    pub open spec fn entry(self, key: Seq<char>) -> Option<PlistView> {
        match self {
            PlistView::Dict(m) if m.dom().contains(key) => Some(m[key]),
            _ => None,
        }
    }
}

/// The view of an optional reference to a node.
pub open spec fn maybe(r: Option<&PlistValue>) -> Option<PlistView> {
    match r {
        Some(v) => Some(v@),
        None => None,
    }
}

impl PlistValue {
    /// The text of a string node.
    pub fn as_str(&self) -> (r: Option<&str>)
        ensures
            r is Some == self@.text() is Some,
            r matches Some(s) ==> Some(s@) == self@.text(),
    {
        match self {
            PlistValue::String(s) => Some(s.as_str()),
            _ => None,
        }
    }

    /// The number of an integer node.
    pub fn as_i64(&self) -> (r: Option<i64>)
        ensures
            r == (match self@ {
                PlistView::Integer(i) => Some(i),
                _ => None,
            }),
    {
        match self {
            PlistValue::Integer(i) => Some(*i),
            _ => None,
        }
    }

    /// The elements of an array node.
    pub fn as_array(&self) -> (r: Option<&[PlistValue]>)
        ensures
            r is Some == self@.items() is Some,
            r matches Some(a) ==> Some(item_views(a@)) == self@.items(),
    {
        match self {
            PlistValue::Array(a) => Some(a.as_slice()),
            _ => None,
        }
    }

    /// Look up a key in a dictionary node.
    pub fn get(&self, key: &str) -> (r: Option<&PlistValue>)
        ensures
            maybe(r) == self@.entry(key@),
    {
        match self {
            PlistValue::Dict(d) => lookup(d, key),
            _ => None,
        }
    }
}

/// Find the value stored under `key`; of several, the last.
fn lookup<'a>(d: &'a [(String, PlistValue)], key: &str) -> (r: Option<&'a PlistValue>)
    ensures
        maybe(r) == PlistView::Dict(map_of(entry_views(d@))).entry(key@),
{
    let mut i: usize = d.len();
    let ghost whole = map_of(entry_views(d@));
    proof {
        lemma_entry_views(d@);
    }
    assert(entry_views(d@).take(d@.len() as int) =~= entry_views(d@));
    while i > 0
        invariant
            i <= d@.len() == entry_views(d@).len(),
            forall|k: int|
                0 <= k < d@.len() ==> #[trigger] entry_views(d@)[k] == (d@[k].0@, d@[k].1@),
            whole == map_of(entry_views(d@)),
            PlistView::Dict(whole).entry(key@) == PlistView::Dict(
                map_of(entry_views(d@).take(i as int)),
            ).entry(key@),
        decreases i,
    {
        let ghost front = entry_views(d@).take(i as int);
        assert(front.drop_last() =~= entry_views(d@).take(i - 1));
        assert(front.last() == entry_views(d@)[i - 1]);
        i -= 1;
        if text::same(d[i].0.as_str(), key) {
            return Some(&d[i].1);
        }
    }
    None
}

/// Where no key occurs twice, the map holds each pair under its key and nothing
/// else.
proof fn lemma_map_of(pairs: Seq<(Seq<char>, PlistView)>)
    requires
        forall|i: int, j: int|
            0 <= i < j < pairs.len() ==> (#[trigger] pairs[i]).0 != (#[trigger] pairs[j]).0,
    ensures
        forall|k: Seq<char>|
            map_of(pairs).dom().contains(k) <==> exists|i: int|
                0 <= i < pairs.len() && (#[trigger] pairs[i]).0 == k,
        forall|i: int| 0 <= i < pairs.len() ==> map_of(pairs)[(#[trigger] pairs[i]).0] == pairs[i].1,
    decreases pairs.len(),
{
    if pairs.len() > 0 {
        let front = pairs.drop_last();
        lemma_map_of(front);
        let n = pairs.len() - 1;
        assert forall|k: Seq<char>|
            map_of(pairs).dom().contains(k) <==> exists|i: int|
                0 <= i < pairs.len() && (#[trigger] pairs[i]).0 == k by {
            if k == pairs[n].0 {
                assert(map_of(pairs).dom().contains(k));
            } else {
                if map_of(front).dom().contains(k) {
                    let i = choose|i: int| 0 <= i < front.len() && (#[trigger] front[i]).0 == k;
                    assert(pairs[i].0 == k);
                }
                if exists|i: int| 0 <= i < pairs.len() && (#[trigger] pairs[i]).0 == k {
                    let i = choose|i: int| 0 <= i < pairs.len() && (#[trigger] pairs[i]).0 == k;
                    assert(front[i].0 == k);
                }
            }
        }
        assert forall|i: int| 0 <= i < pairs.len() implies map_of(pairs)[(#[trigger] pairs[i]).0]
            == pairs[i].1 by {
            if i < n {
                assert(front[i] == pairs[i]);
            }
        }
    }
}

/// Increasing keys are distinct.
proof fn lemma_distinct(d: Seq<(String, PlistValue)>)
    requires
        keys_increase(d),
    ensures
        entry_views(d).len() == d.len(),
        forall|i: int, j: int|
            0 <= i < j < d.len() ==> (#[trigger] entry_views(d)[i]).0 != (#[trigger] entry_views(
                d,
            )[j]).0,
        forall|i: int|
            0 <= i < d.len() ==> #[trigger] entry_views(d)[i] == (d[i].0@, d[i].1@),
{
    lemma_entry_views(d);
    assert forall|i: int, j: int| 0 <= i < j < d.len() implies (#[trigger] entry_views(d)[i]).0 != (
    #[trigger] entry_views(d)[j]).0 by {
        assert(text::less(d[i].0@, d[j].0@));
        text::lemma_less_irreflexive(d[i].0@);
    }
}

/// Replacing the value under an existing key.
proof fn lemma_replaced(
    before: Seq<(String, PlistValue)>,
    at: int,
    pair: (String, PlistValue),
)
    requires
        keys_increase(before),
        0 <= at < before.len(),
        before[at].0@ == pair.0@,
    ensures
        keys_increase(before.update(at, pair)),
        map_of(entry_views(before.update(at, pair))) == map_of(entry_views(before)).insert(
            pair.0@,
            pair.1@,
        ),
{
    let after = before.update(at, pair);
    assert(forall|i: int| 0 <= i < after.len() ==> (#[trigger] after[i]).0@ == before[i].0@);
    lemma_distinct(before);
    lemma_distinct(after);
    let p = entry_views(before);
    let q = entry_views(after);
    lemma_map_of(p);
    lemma_map_of(q);
    assert(q[at].0 == pair.0@);
    assert forall|k: Seq<char>| map_of(q).dom().contains(k) == map_of(p).dom().contains(k) by {
        if map_of(q).dom().contains(k) {
            let i = choose|i: int| 0 <= i < q.len() && (#[trigger] q[i]).0 == k;
            assert(p[i].0 == k);
        }
        if map_of(p).dom().contains(k) {
            let i = choose|i: int| 0 <= i < p.len() && (#[trigger] p[i]).0 == k;
            assert(q[i].0 == k);
        }
    }
    assert(p[at].0 == pair.0@);
    assert forall|k: Seq<char>| map_of(q).dom().contains(k) implies map_of(q)[k] == map_of(p).insert(
        pair.0@,
        pair.1@,
    )[k] by {
        let i = choose|i: int| 0 <= i < q.len() && (#[trigger] q[i]).0 == k;
        assert(p[i].0 == k);
        if i != at {
            if i < at {
                assert(p[i].0 != p[at].0);
            } else {
                assert(p[at].0 != p[i].0);
            }
        }
    }
    assert(map_of(q) =~= map_of(p).insert(pair.0@, pair.1@));
}

/// Putting a new key where it keeps the order.
proof fn lemma_inserted(
    before: Seq<(String, PlistValue)>,
    at: int,
    pair: (String, PlistValue),
)
    requires
        keys_increase(before),
        0 <= at <= before.len(),
        forall|i: int| 0 <= i < at ==> text::less((#[trigger] before[i]).0@, pair.0@),
        forall|i: int| at <= i < before.len() ==> text::less(pair.0@, (#[trigger] before[i]).0@),
    ensures
        keys_increase(before.insert(at, pair)),
        map_of(entry_views(before.insert(at, pair))) == map_of(entry_views(before)).insert(
            pair.0@,
            pair.1@,
        ),
{
    let after = before.insert(at, pair);
    assert forall|i: int, j: int| 0 <= i < j < after.len() implies text::less(
        #[trigger] after[i].0@,
        #[trigger] after[j].0@,
    ) by {
        if i < at && j > at {
            assert(after[j] == before[j - 1]);
        } else if i == at {
            assert(after[j] == before[j - 1]);
        } else if i > at {
            assert(after[i] == before[i - 1]);
            assert(after[j] == before[j - 1]);
        }
    }
    lemma_distinct(before);
    lemma_distinct(after);
    let p = entry_views(before);
    let q = entry_views(after);
    lemma_map_of(p);
    lemma_map_of(q);
    assert(q[at].0 == pair.0@ && q[at].1 == pair.1@);
    assert forall|i: int| 0 <= i < p.len() implies #[trigger] p[i] == q[if i < at {
        i
    } else {
        i + 1
    }] by {}
    assert forall|k: Seq<char>|
        map_of(q).dom().contains(k) == map_of(p).insert(pair.0@, pair.1@).dom().contains(k) by {
        if map_of(q).dom().contains(k) {
            let i = choose|i: int| 0 <= i < q.len() && (#[trigger] q[i]).0 == k;
            if i < at {
                assert(p[i].0 == k);
            } else if i > at {
                assert(p[i - 1].0 == k);
            }
        }
        if map_of(p).dom().contains(k) {
            let i = choose|i: int| 0 <= i < p.len() && (#[trigger] p[i]).0 == k;
            assert(q[if i < at {
                i
            } else {
                i + 1
            }].0 == k);
        }
    }
    assert forall|k: Seq<char>| map_of(q).dom().contains(k) implies map_of(q)[k] == map_of(p).insert(
        pair.0@,
        pair.1@,
    )[k] by {
        let i = choose|i: int| 0 <= i < q.len() && (#[trigger] q[i]).0 == k;
        if i < at {
            assert(p[i].0 == k);
            assert(q[i].0 != q[at].0);
        } else if i > at {
            assert(p[i - 1].0 == k);
            assert(q[at].0 != q[i].0);
        }
    }
    assert(map_of(q) =~= map_of(p).insert(pair.0@, pair.1@));
}

/// Store `value` under `key`, replacing what was there.
pub(crate) fn insert(d: &mut Vec<(String, PlistValue)>, key: String, value: PlistValue)
    requires
        keys_increase(old(d)@),
        forall|i: int| 0 <= i < old(d)@.len() ==> (#[trigger] old(d)@[i]).1.valid(),
        value.valid(),
    ensures
        keys_increase(final(d)@),
        forall|i: int| 0 <= i < final(d)@.len() ==> (#[trigger] final(d)@[i]).1.valid(),
        map_of(entry_views(final(d)@)) == map_of(entry_views(old(d)@)).insert(key@, value@),
{
    let ghost before = d@;
    let mut at: usize = 0;
    while at < d.len() && text::is_less(d[at].0.as_str(), key.as_str())
        invariant
            d@ == before,
            keys_increase(before),
            at <= d@.len(),
            forall|i: int| 0 <= i < at ==> text::less((#[trigger] before[i]).0@, key@),
        decreases d@.len() - at,
    {
        at += 1;
    }
    let ghost pair = (key, value);
    if at < d.len() && text::same(d[at].0.as_str(), key.as_str()) {
        d.set(at, (key, value));
        proof {
            lemma_replaced(before, at as int, pair);
        }
    } else {
        proof {
            assert forall|i: int| at <= i < before.len() implies text::less(
                key@,
                (#[trigger] before[i]).0@,
            ) by {
                text::lemma_less_total(before[at as int].0@, key@);
                if i > at {
                    assert(text::less(before[at as int].0@, before[i].0@));
                    text::lemma_less_transitive(key@, before[at as int].0@, before[i].0@);
                }
            }
            lemma_inserted(before, at as int, pair);
        }
        d.insert(at, (key, value));
    }
}

// ---- errors -----------------------------------------------------------------

/// Why a plist could not be read.
#[derive(Debug)]
pub enum PlistError {
    Truncated,
    BadTrailer,
    BadReference,
    UnsupportedType(u8),
    Xml(String),
    NotAPlist,
}

/// Mathematical view of [`PlistError`].
#[verifier::ext_equal]
pub enum PlistErrorView {
    Truncated,
    BadTrailer,
    BadReference,
    UnsupportedType(u8),
    Xml(Seq<char>),
    NotAPlist,
}

impl View for PlistError {
    type V = PlistErrorView;

    open spec fn view(&self) -> PlistErrorView {
        match *self {
            PlistError::Truncated => PlistErrorView::Truncated,
            PlistError::BadTrailer => PlistErrorView::BadTrailer,
            PlistError::BadReference => PlistErrorView::BadReference,
            PlistError::UnsupportedType(t) => PlistErrorView::UnsupportedType(t),
            PlistError::Xml(m) => PlistErrorView::Xml(m@),
            PlistError::NotAPlist => PlistErrorView::NotAPlist,
        }
    }
}

impl PlistErrorView {
    /// The printed form of an error.
    pub open spec fn message(self) -> Seq<char> {
        match self {
            PlistErrorView::Truncated => "truncated plist"@,
            PlistErrorView::BadTrailer => "bad binary plist trailer"@,
            PlistErrorView::BadReference => "object reference out of range"@,
            PlistErrorView::UnsupportedType(t) => "unsupported object marker 0x"@
                + text::zero_padded(text::hex(t as nat), 2),
            PlistErrorView::Xml(m) => "xml plist: "@ + m,
            PlistErrorView::NotAPlist => "not a recognised plist"@,
        }
    }
}

impl PlistError {
    /// The printed form of the error.
    pub fn message(&self) -> (r: String)
        ensures
            r@ == self@.message(),
    {
        match self {
            PlistError::Truncated => "truncated plist".to_owned(),
            PlistError::BadTrailer => "bad binary plist trailer".to_owned(),
            PlistError::BadReference => "object reference out of range".to_owned(),
            PlistError::UnsupportedType(t) => {
                let n = text::hex_padded(*t as u64, 2, false);
                text::cat("unsupported object marker 0x", n.as_str())
            },
            PlistError::Xml(m) => text::cat("xml plist: ", m.as_str()),
            PlistError::NotAPlist => "not a recognised plist".to_owned(),
        }
    }
}

/// The view of a parse result.
pub open spec fn parsed(r: Result<PlistValue, PlistError>) -> Result<PlistView, PlistErrorView> {
    match r {
        Ok(v) => Ok(v@),
        Err(e) => Err(e@),
    }
}

// ---- the encoding -----------------------------------------------------------

/// Whether `b` starts like a binary plist.
pub open spec fn is_binary(b: Seq<u8>) -> bool {
    bytes::stands_at(b, 0, vstd::utf8::encode_utf8("bplist00"@))
}

/// Whether the first 256 bytes of `b` look like those of an XML plist.
pub open spec fn is_xml(b: Seq<u8>) -> bool {
    let head = b.take(if b.len() < 256 {
        b.len() as int
    } else {
        256
    });
    bytes::occurs(head, vstd::utf8::encode_utf8("<plist"@)) || bytes::occurs(
        head,
        vstd::utf8::encode_utf8("<?xml"@),
    )
}

/// The value that the bytes of a plist describe.
pub open spec fn document(b: Seq<u8>) -> Result<PlistView, PlistErrorView> {
    if is_binary(b) {
        bplist::document(b)
    } else if is_xml(b) {
        if vstd::utf8::valid_utf8(b) {
            xml::document(vstd::utf8::decode_utf8(b))
        } else {
            Err(PlistErrorView::Xml("not utf-8"@))
        }
    } else {
        Err(PlistErrorView::NotAPlist)
    }
}

fn looks_like_xml(b: &[u8]) -> (r: bool)
    ensures
        r == is_xml(b@),
{
    let n: usize = if b.len() < 256 {
        b.len()
    } else {
        256
    };
    let head = vstd::slice::slice_subrange(b, 0, n);
    assert(head@ =~= b@.take(n as int));
    bytes::contains(head, "<plist".as_bytes()) || bytes::contains(head, "<?xml".as_bytes())
}

/// Read a plist in either encoding.
pub fn parse(b: &[u8]) -> (r: Result<PlistValue, PlistError>)
    ensures
        parsed(r) == document(b@),
        r matches Ok(v) ==> v.valid(),
{
    if bytes::matches_at(b, 0, "bplist00".as_bytes()) {
        bplist::BinaryPlist::parse(b)
    } else if looks_like_xml(b) {
        xml::parse(b)
    } else {
        Err(PlistError::NotAPlist)
    }
}

} // verus!
