//! The XML property-list subset that an `Info.plist` uses.
//!
//! The tag vocabulary is fixed (`dict`, `array`, `key`, `string`, `integer`,
//! `real`, `true`, `false`, `data`). The prologue before `<plist`, the comments
//! between elements and the attributes of tags are skipped.

use vstd::prelude::*;

use crate::ipa::plist;
use crate::ipa::plist::{PlistError, PlistErrorView, PlistReal, PlistValue, PlistView, RealView};
use crate::text;

verus! {

// ---- scanning ---------------------------------------------------------------

/// ASCII white space.
pub open spec fn is_blank(c: char) -> bool {
    c == ' ' || c == '\t' || c == '\n' || c == '\r' || c == '\u{c}'
}

/// The first position at or after `i` that is not white space.
pub open spec fn skip_blanks(s: Seq<char>, i: int) -> int
    decreases s.len() - i,
{
    if 0 <= i < s.len() && is_blank(s[i]) {
        skip_blanks(s, i + 1)
    } else {
        i
    }
}

/// Whether `p` stands at position `i`.
pub open spec fn at(s: Seq<char>, i: int, p: Seq<char>) -> bool {
    0 <= i && i + p.len() <= s.len() && s.subrange(i, i + p.len()) == p
}

/// The first position at or after `i` where `p` stands.
pub open spec fn find(s: Seq<char>, i: int, p: Seq<char>) -> Option<int>
    decreases s.len() - i,
{
    if at(s, i, p) {
        Some(i)
    } else if i < 0 || i >= s.len() {
        None
    } else {
        find(s, i + 1, p)
    }
}

/// The position after the next `p`, or the end.
pub open spec fn past(s: Seq<char>, i: int, p: Seq<char>) -> int {
    match find(s, i, p) {
        Some(j) => j + p.len(),
        None => s.len() as int,
    }
}

/// Scanning never moves back or beyond the end.
pub proof fn lemma_scan(s: Seq<char>, i: int, p: Seq<char>)
    requires
        0 <= i <= s.len(),
    ensures
        i <= skip_blanks(s, i) <= s.len(),
        find(s, i, p) matches Some(j) ==> i <= j && j + p.len() <= s.len(),
        i <= past(s, i, p) <= s.len(),
        p.len() > 0 && i < s.len() ==> i < past(s, i, p),
    decreases s.len() - i,
{
    if i < s.len() {
        lemma_scan(s, i + 1, p);
    }
}

/// The first position at or after `i` that is neither white space nor in a
/// comment.
pub open spec fn skip_space(s: Seq<char>, i: int) -> int
    decreases s.len() - i,
{
    proof {
        lemma_tags();
        if 0 <= i <= s.len() {
            lemma_scan(s, i, seq![]);
            lemma_scan(s, skip_blanks(s, i), "-->"@);
        }
    }
    let j = skip_blanks(s, i);
    if 0 <= i <= s.len() && at(s, j, "<!--"@) {
        skip_space(s, past(s, j, "-->"@))
    } else {
        j
    }
}

/// Skipping never moves back or beyond the end.
pub proof fn lemma_space(s: Seq<char>, i: int)
    requires
        0 <= i <= s.len(),
    ensures
        i <= skip_space(s, i) <= s.len(),
    decreases s.len() - i,
{
    lemma_tags();
    lemma_scan(s, i, seq![]);
    let j = skip_blanks(s, i);
    lemma_scan(s, j, "-->"@);
    if at(s, j, "<!--"@) {
        lemma_space(s, past(s, j, "-->"@));
    }
}

// ---- tags -------------------------------------------------------------------

/// The end of the attributes of the tag `name` that stands at `i`: the position
/// of the `>`. A tag without attributes has none.
pub open spec fn attributes_end(s: Seq<char>, i: int, name: Seq<char>) -> Option<int> {
    let k = i + 1 + name.len();
    if at(s, i, "<"@ + name) && k < s.len() && is_blank(s[k]) {
        find(s, k, ">"@)
    } else {
        None
    }
}

/// The position after the opening tag `name`, with or without attributes, if it
/// stands at `i`.
pub open spec fn open_tag(s: Seq<char>, i: int, name: Seq<char>) -> Option<int> {
    if at(s, i, "<"@ + name + ">"@) {
        Some(i + name.len() + 2)
    } else {
        match attributes_end(s, i, name) {
            Some(e) => if s[e - 1] != '/' {
                Some(e + 1)
            } else {
                None
            },
            None => None,
        }
    }
}

/// The position after the tag of the empty element `name`, with or without
/// attributes, if it stands at `i`.
pub open spec fn empty_tag(s: Seq<char>, i: int, name: Seq<char>) -> Option<int> {
    if at(s, i, "<"@ + name + "/>"@) {
        Some(i + name.len() + 3)
    } else {
        match attributes_end(s, i, name) {
            Some(e) => if s[e - 1] == '/' {
                Some(e + 1)
            } else {
                None
            },
            None => None,
        }
    }
}

/// A tag ends after it starts and inside the text.
pub proof fn lemma_tag(s: Seq<char>, i: int, name: Seq<char>)
    ensures
        open_tag(s, i, name) matches Some(k) ==> 0 <= i < k <= s.len(),
        empty_tag(s, i, name) matches Some(k) ==> 0 <= i < k <= s.len(),
{
    lemma_tags();
    let k = i + 1 + name.len();
    if at(s, i, "<"@ + name) && k < s.len() {
        lemma_scan(s, k, ">"@);
    }
}

// ---- text -------------------------------------------------------------------

/// `s` with every `from` replaced by `to`, from left to right.
pub open spec fn replace_all(s: Seq<char>, from: Seq<char>, to: Seq<char>) -> Seq<char>
    decreases s.len(),
{
    if s.len() == 0 || from.len() == 0 {
        s
    } else if from.is_prefix_of(s) {
        to + replace_all(s.skip(from.len() as int), from, to)
    } else {
        seq![s[0]] + replace_all(s.drop_first(), from, to)
    }
}

/// Text with the five predefined entities replaced; `&amp;` comes last.
pub open spec fn unescaped(s: Seq<char>) -> Seq<char> {
    let a = replace_all(s, "&lt;"@, "<"@);
    let b = replace_all(a, "&gt;"@, ">"@);
    let c = replace_all(b, "&quot;"@, "\""@);
    let d = replace_all(c, "&apos;"@, "'"@);
    replace_all(d, "&amp;"@, "&"@)
}

/// The element `name` whose opening tag ends at `from`: its text and the
/// position after its closing tag.
pub open spec fn text_element(s: Seq<char>, from: int, name: Seq<char>) -> Result<
    (Seq<char>, int),
    PlistErrorView,
> {
    match find(s, from, "</"@ + name + ">"@) {
        Some(end) => Ok((unescaped(s.subrange(from, end)), end + name.len() + 3)),
        None => Err(PlistErrorView::Xml("unterminated <"@ + name + ">"@)),
    }
}

/// Whether `c` is a decimal digit.
pub open spec fn is_digit(c: char) -> bool {
    '0' <= c <= '9'
}

/// The number that decimal digits write.
pub open spec fn digits_value(s: Seq<char>) -> nat
    decreases s.len(),
{
    if s.len() == 0 {
        0
    } else {
        digits_value(s.drop_last()) * 10 + (s.last() as int - '0' as int) as nat
    }
}

/// Whether `s` is a decimal numeral without a sign.
pub open spec fn is_numeral(s: Seq<char>) -> bool {
    s.len() > 0 && forall|i: int| 0 <= i < s.len() ==> is_digit(#[trigger] s[i])
}

/// The number that an optional sign and decimal digits write, if it fits.
pub open spec fn integer(s: Seq<char>) -> Option<i64> {
    let signed = s.len() > 0 && (s[0] == '+' || s[0] == '-');
    let digits = if signed {
        s.drop_first()
    } else {
        s
    };
    let value = if signed && s[0] == '-' {
        -(digits_value(digits) as int)
    } else {
        digits_value(digits) as int
    };
    if is_numeral(digits) && i64::MIN <= value <= i64::MAX {
        Some(value as i64)
    } else {
        None
    }
}

/// The number of an integer element; text that is no number counts as zero.
pub open spec fn integer_or_zero(s: Seq<char>) -> i64 {
    match integer(text::trim(s)) {
        Some(n) => n,
        None => 0,
    }
}

// ---- elements ---------------------------------------------------------------

/// A text element as the node that `f` makes of its text.
pub open spec fn leaf(
    s: Seq<char>,
    from: int,
    name: Seq<char>,
    f: spec_fn(Seq<char>) -> PlistView,
) -> Result<(PlistView, int), PlistErrorView> {
    match text_element(s, from, name) {
        Ok((t, j)) => Ok((f(t), j)),
        Err(e) => Err(e),
    }
}

/// The value that stands at `i`, after white space and comments, and the
/// position after it.
pub open spec fn value(s: Seq<char>, i: int) -> Result<(PlistView, int), PlistErrorView>
    decreases s.len() - i, 0nat,
{
    proof {
        if 0 <= i <= s.len() {
            lemma_space(s, i);
        }
        lemma_tag(s, skip_space(s, i), "dict"@);
        lemma_tag(s, skip_space(s, i), "array"@);
    }
    let j = skip_space(s, i);
    if !(0 <= i <= s.len()) {
        Err(PlistErrorView::Xml("unexpected element"@))
    } else if let Some(k) = open_tag(s, j, "dict"@) {
        match entries(s, k) {
            Ok((pairs, end)) => Ok((PlistView::Dict(plist::map_of(pairs)), end)),
            Err(e) => Err(e),
        }
    } else if let Some(k) = open_tag(s, j, "array"@) {
        match items(s, k) {
            Ok((v, end)) => Ok((PlistView::Array(v), end)),
            Err(e) => Err(e),
        }
    } else if let Some(k) = open_tag(s, j, "string"@) {
        leaf(s, k, "string"@, |t: Seq<char>| PlistView::Text(t))
    } else if let Some(k) = open_tag(s, j, "integer"@) {
        leaf(s, k, "integer"@, |t: Seq<char>| PlistView::Integer(integer_or_zero(t)))
    } else if let Some(k) = open_tag(s, j, "real"@) {
        leaf(s, k, "real"@, |t: Seq<char>| PlistView::Real(RealView::Numeral(text::trim(t))))
    } else if let Some(k) = empty_tag(s, j, "true"@) {
        Ok((PlistView::Bool(true), k))
    } else if let Some(k) = empty_tag(s, j, "false"@) {
        Ok((PlistView::Bool(false), k))
    } else if let Some(k) = open_tag(s, j, "data"@) {
        leaf(
            s,
            k,
            "data"@,
            |t: Seq<char>| PlistView::Data(vstd::utf8::encode_utf8(text::trim(t))),
        )
    } else {
        Err(PlistErrorView::Xml("unexpected element"@))
    }
}

/// The entries of a dictionary from `i` on, and the position after the closing
/// tag.
pub open spec fn entries(s: Seq<char>, i: int) -> Result<
    (Seq<(Seq<char>, PlistView)>, int),
    PlistErrorView,
>
    decreases s.len() - i, 1nat,
{
    proof {
        lemma_tags();
        if 0 <= i <= s.len() {
            lemma_space(s, i);
        }
        lemma_tag(s, skip_space(s, i), "key"@);
        if let Some(from) = open_tag(s, skip_space(s, i), "key"@) {
            lemma_scan(s, from, "</"@ + "key"@ + ">"@);
        }
    }
    let j = skip_space(s, i);
    if !(0 <= i <= s.len()) {
        Err(PlistErrorView::Xml("expected <key> in dict"@))
    } else if at(s, j, "</dict>"@) {
        Ok((seq![], j + 7))
    } else if let Some(from) = open_tag(s, j, "key"@) {
        match text_element(s, from, "key"@) {
            Err(e) => Err(e),
            Ok((key, k)) => match value(s, k) {
                Err(e) => Err(e),
                // A value ends after it starts and inside the text.
                Ok((v, m)) => if !(i < m <= s.len()) {
                    Err(PlistErrorView::NotAPlist)
                } else {
                    match entries(s, m) {
                        Err(e) => Err(e),
                        Ok((rest, end)) => Ok((seq![(key, v)] + rest, end)),
                    }
                },
            },
        }
    } else {
        Err(PlistErrorView::Xml("expected <key> in dict"@))
    }
}

/// The elements of an array from `i` on, and the position after the closing tag.
pub open spec fn items(s: Seq<char>, i: int) -> Result<(Seq<PlistView>, int), PlistErrorView>
    decreases s.len() - i, 1nat,
{
    proof {
        if 0 <= i <= s.len() {
            lemma_space(s, i);
        }
    }
    let j = skip_space(s, i);
    if !(0 <= i <= s.len()) {
        Err(PlistErrorView::Xml("unexpected element"@))
    } else if at(s, j, "</array>"@) {
        Ok((seq![], j + 8))
    } else {
        match value(s, j) {
            Err(e) => Err(e),
            // A value ends after it starts and inside the text.
            Ok((v, m)) => if !(i < m <= s.len()) {
                Err(PlistErrorView::NotAPlist)
            } else {
                match items(s, m) {
                    Err(e) => Err(e),
                    Ok((rest, end)) => Ok((seq![v] + rest, end)),
                }
            },
        }
    }
}

/// The position after the declarations and comments at `i`.
pub open spec fn prologue_end(s: Seq<char>, i: int) -> int
    decreases s.len() - i,
{
    proof {
        lemma_tags();
        if 0 <= i <= s.len() {
            lemma_scan(s, i, seq![]);
            lemma_scan(s, skip_blanks(s, i), "?>"@);
            lemma_scan(s, skip_blanks(s, i), "-->"@);
            lemma_scan(s, skip_blanks(s, i), ">"@);
        }
    }
    let j = skip_blanks(s, i);
    if i < 0 || i > s.len() {
        j
    } else if at(s, j, "<?"@) {
        prologue_end(s, past(s, j, "?>"@))
    } else if at(s, j, "<!--"@) {
        prologue_end(s, past(s, j, "-->"@))
    } else if at(s, j, "<!"@) {
        prologue_end(s, past(s, j, ">"@))
    } else {
        j
    }
}

/// The value that the text of an XML plist describes.
pub open spec fn document(s: Seq<char>) -> Result<PlistView, PlistErrorView> {
    let i = skip_blanks(s, prologue_end(s, 0));
    if !at(s, i, "<plist"@) {
        Err(PlistErrorView::Xml("expected <plist>"@))
    } else {
        match value(s, past(s, i, ">"@)) {
            Ok((v, _)) => Ok(v),
            Err(e) => Err(e),
        }
    }
}

/// How long the fixed tags are.
pub proof fn lemma_tags()
    ensures
        "</dict>"@.len() == 7,
        "</array>"@.len() == 8,
        "<"@.len() == 1,
        "/>"@.len() == 2,
        "string"@.len() == 6,
        "integer"@.len() == 7,
        "real"@.len() == 4,
        "data"@.len() == 4,
        "key"@.len() == 3,
        "</"@.len() == 2,
        ">"@.len() == 1,
        "<?"@.len() == 2,
        "?>"@.len() == 2,
        "<!--"@.len() == 4,
        "-->"@.len() == 3,
        "<!"@.len() == 2,
        "<plist"@.len() == 6,
{
    reveal_strlit("</dict>");
    reveal_strlit("</array>");
    reveal_strlit("<");
    reveal_strlit("/>");
    reveal_strlit("string");
    reveal_strlit("integer");
    reveal_strlit("real");
    reveal_strlit("data");
    reveal_strlit("key");
    reveal_strlit("</");
    reveal_strlit(">");
    reveal_strlit("<?");
    reveal_strlit("?>");
    reveal_strlit("<!--");
    reveal_strlit("-->");
    reveal_strlit("<!");
    reveal_strlit("<plist");
}

/// A value, the rest of a dictionary and the rest of an array each end after
/// they start and inside the text, so reading goes on to the end.
pub proof fn elements_advance(s: Seq<char>, i: int)
    requires
        0 <= i <= s.len(),
    ensures
        value(s, i) matches Ok((_, m)) ==> i < m <= s.len(),
        entries(s, i) matches Ok((_, m)) ==> i < m <= s.len(),
        items(s, i) matches Ok((_, m)) ==> i < m <= s.len(),
    decreases s.len() - i,
{
    lemma_tags();
    lemma_space(s, i);
    let j = skip_space(s, i);
    lemma_tag(s, j, "dict"@);
    lemma_tag(s, j, "array"@);
    lemma_tag(s, j, "string"@);
    lemma_tag(s, j, "integer"@);
    lemma_tag(s, j, "real"@);
    lemma_tag(s, j, "true"@);
    lemma_tag(s, j, "false"@);
    lemma_tag(s, j, "data"@);
    lemma_tag(s, j, "key"@);
    if let Some(k) = open_tag(s, j, "dict"@) {
        elements_advance(s, k);
    } else if let Some(k) = open_tag(s, j, "array"@) {
        elements_advance(s, k);
    } else if let Some(k) = open_tag(s, j, "string"@) {
        lemma_scan(s, k, "</"@ + "string"@ + ">"@);
    } else if let Some(k) = open_tag(s, j, "integer"@) {
        lemma_scan(s, k, "</"@ + "integer"@ + ">"@);
    } else if let Some(k) = open_tag(s, j, "real"@) {
        lemma_scan(s, k, "</"@ + "real"@ + ">"@);
    } else if let Some(k) = open_tag(s, j, "data"@) {
        lemma_scan(s, k, "</"@ + "data"@ + ">"@);
    }
    assert(value(s, i) matches Ok((_, m)) ==> i < m <= s.len());
    assert(entries(s, i) matches Ok((_, m)) ==> i < m <= s.len()) by {
        if let Some(from) = open_tag(s, j, "key"@) {
            lemma_scan(s, from, "</"@ + "key"@ + ">"@);
            if let Ok((_, k)) = text_element(s, from, "key"@) {
                if let Ok((_, m)) = value(s, k) {
                    if i < m <= s.len() {
                        elements_advance(s, m);
                    }
                }
            }
        }
    }
    assert(items(s, i) matches Ok((_, m)) ==> i < m <= s.len()) by {
        if let Ok((_, m)) = value(s, j) {
            if i < m <= s.len() {
                elements_advance(s, m);
            }
        }
    }
}

/// A comment before a value, before an entry of a dictionary or before an
/// element of an array makes no difference: what is read from `i` on is what is
/// read from behind the comment on.
pub proof fn comments_are_ignored(s: Seq<char>, i: int)
    requires
        0 <= i <= s.len(),
        at(s, skip_blanks(s, i), "<!--"@),
    ensures
        ({
            let behind = past(s, skip_blanks(s, i), "-->"@);
            &&& i < behind <= s.len()
            &&& value(s, i) == value(s, behind)
            &&& entries(s, i) == entries(s, behind)
            &&& items(s, i) == items(s, behind)
        }),
{
    lemma_tags();
    lemma_scan(s, i, seq![]);
    lemma_scan(s, skip_blanks(s, i), "-->"@);
    let behind = past(s, skip_blanks(s, i), "-->"@);
    lemma_space(s, behind);
    let j = skip_space(s, i);
    assert(j == skip_space(s, behind));
    lemma_tag(s, j, "key"@);
    if let Some(from) = open_tag(s, j, "key"@) {
        lemma_scan(s, from, "</"@ + "key"@ + ">"@);
        if let Ok((_, k)) = text_element(s, from, "key"@) {
            elements_advance(s, k);
        }
    }
    elements_advance(s, j);
}

// ---- reading ----------------------------------------------------------------

/// A reader over the text of a plist.
pub struct Parser {
    pub s: Vec<char>,
    pub i: usize,
}

/// The view of a result that leaves the reader at `i`.
pub open spec fn read(r: Result<PlistValue, PlistError>, i: int) -> Result<
    (PlistView, int),
    PlistErrorView,
> {
    match r {
        Ok(v) => Ok((v@, i)),
        Err(e) => Err(e@),
    }
}

fn blank(c: char) -> (r: bool)
    ensures
        r == is_blank(c),
{
    c == ' ' || c == '\t' || c == '\n' || c == '\r' || c == '\u{c}'
}

/// Replace every `from` by `to`.
fn replaced(s: &str, from: &str, to: &str) -> (r: String)
    requires
        from@.len() > 0,
    ensures
        r@ == replace_all(s@, from@, to@),
{
    let v = text::chars(s);
    let p = text::chars(from);
    let mut out = String::new();
    let mut i: usize = 0;
    assert(s@.skip(0) =~= s@);
    while i < v.len()
        invariant
            v@ == s@,
            p@ == from@,
            p@.len() > 0,
            i <= v@.len(),
            replace_all(s@, from@, to@) == out@ + replace_all(s@.skip(i as int), from@, to@),
        decreases v@.len() - i,
    {
        let ghost rest = s@.skip(i as int);
        let ghost done = out@;
        proof {
            assert(rest.subrange(0, rest.len() as int) =~= rest);
            if i + p@.len() <= v@.len() {
                assert(rest.subrange(0, p@.len() as int) =~= v@.subrange(i as int, i + p@.len()));
            }
        }
        if text::matches_at(&v, i, &p) {
            assert(from@.is_prefix_of(rest));
            out.append(to);
            proof {
                assert(rest.skip(p@.len() as int) =~= s@.skip(i + p@.len()));
                assert(done + (to@ + replace_all(s@.skip(i + p@.len()), from@, to@)) =~= out@
                    + replace_all(s@.skip(i + p@.len()), from@, to@));
            }
            i += p.len();
        } else {
            assert(!from@.is_prefix_of(rest));
            out.push(v[i]);
            proof {
                assert(rest.drop_first() =~= s@.skip(i + 1));
                assert(done + (seq![rest[0]] + replace_all(s@.skip(i + 1), from@, to@)) =~= out@
                    + replace_all(s@.skip(i + 1), from@, to@));
            }
            i += 1;
        }
    }
    assert(s@.skip(i as int) =~= Seq::<char>::empty());
    assert(out@ + Seq::<char>::empty() =~= out@);
    out
}

/// Replace the predefined entities.
pub fn unescape(s: &str) -> (r: String)
    ensures
        r@ == unescaped(s@),
{
    proof {
        reveal_strlit("&lt;");
        reveal_strlit("&gt;");
        reveal_strlit("&quot;");
        reveal_strlit("&apos;");
        reveal_strlit("&amp;");
    }
    let a = replaced(s, "&lt;", "<");
    let b = replaced(a.as_str(), "&gt;", ">");
    let c = replaced(b.as_str(), "&quot;", "\"");
    let d = replaced(c.as_str(), "&apos;", "'");
    replaced(d.as_str(), "&amp;", "&")
}

fn digit_of(c: char) -> (d: Option<u8>)
    ensures
        d is Some == is_digit(c),
        d matches Some(k) ==> k as int == c as int - '0' as int && k <= 9,
{
    let u = c as u32;
    if 48 <= u && u <= 57 {
        Some((u - 48) as u8)
    } else {
        None
    }
}

/// More digits make no smaller number.
proof fn lemma_digits_grow(s: Seq<char>, k: int)
    requires
        0 <= k <= s.len(),
        forall|i: int| 0 <= i < s.len() ==> is_digit(#[trigger] s[i]),
    ensures
        digits_value(s.take(k)) <= digits_value(s),
    decreases s.len() - k,
{
    if k == s.len() {
        assert(s.take(k) =~= s);
    } else {
        lemma_digits_grow(s, k + 1);
        assert(s.take(k + 1).drop_last() =~= s.take(k));
        assert(is_digit(s[k]));
    }
}

/// Read a decimal number with an optional sign.
pub fn parse_integer(s: &str) -> (r: Option<i64>)
    ensures
        r == integer(s@),
{
    let v = text::chars(s);
    let signed = v.len() > 0 && (v[0] == '+' || v[0] == '-');
    let negative = signed && v[0] == '-';
    let start: usize = if signed {
        1
    } else {
        0
    };
    let ghost digits = if signed {
        s@.drop_first()
    } else {
        s@
    };
    assert(digits =~= s@.skip(start as int));
    if start >= v.len() {
        return None;
    }
    let mut n: i128 = 0;
    let mut i: usize = start;
    assert(digits.take(0) =~= Seq::<char>::empty());
    while i < v.len()
        invariant
            v@ == s@,
            start <= i <= v@.len(),
            start < v@.len(),
            digits == s@.skip(start as int),
            n == digits_value(digits.take(i - start)),
            0 <= n <= 0x1_0000_0000_0000_0000,
            forall|k: int| 0 <= k < i - start ==> is_digit(#[trigger] digits[k]),
            signed == (s@.len() > 0 && (s@[0] == '+' || s@[0] == '-')),
            negative == (signed && s@[0] == '-'),
            digits == (if signed {
                s@.drop_first()
            } else {
                s@
            }),
        decreases v@.len() - i,
    {
        assert(digits[i - start] == v@[i as int]);
        match digit_of(v[i]) {
            None => {
                assert(!is_digit(digits[i - start]));
                return None;
            },
            Some(d) => {
                proof {
                    assert(digits.take(i - start + 1).drop_last() =~= digits.take(i - start));
                }
                n = n * 10 + d as i128;
                i += 1;
                if n > 0x1_0000_0000_0000_0000 {
                    proof {
                        if is_numeral(digits) {
                            lemma_digits_grow(digits, i - start);
                        }
                    }
                    return None;
                }
            },
        }
    }
    assert(digits.take(i - start) =~= digits);
    if negative {
        n = -n;
    }
    if n < -0x8000_0000_0000_0000 || n > 0x7fff_ffff_ffff_ffff {
        None
    } else {
        Some(n as i64)
    }
}

impl Parser {
    /// The reader stands inside its text.
    pub open spec fn valid(&self) -> bool {
        self.i <= self.s@.len() <= usize::MAX
    }

    fn skip_ws(&mut self)
        requires
            old(self).valid(),
        ensures
            final(self).valid(),
            final(self).s == old(self).s,
            final(self).i == skip_blanks(old(self).s@, old(self).i as int),
            final(self).i >= old(self).i,
    {
        let ghost goal = skip_blanks(self.s@, self.i as int);
        while self.i < self.s.len() && blank(self.s[self.i])
            invariant
                self.valid(),
                self.s == old(self).s,
                self.i >= old(self).i,
                goal == skip_blanks(old(self).s@, old(self).i as int),
                goal == skip_blanks(self.s@, self.i as int),
            decreases self.s@.len() - self.i,
        {
            self.i += 1;
        }
    }

    fn starts_with(&self, tag: &str) -> (r: bool)
        requires
            self.valid(),
        ensures
            r == at(self.s@, self.i as int, tag@),
    {
        let p = text::chars(tag);
        text::matches_at(&self.s, self.i, &p)
    }

    /// Find `p` at or after `from`.
    fn find_from(&self, from: usize, p: &str) -> (r: Option<usize>)
        requires
            self.valid(),
            from <= self.s@.len(),
        ensures
            match r {
                Some(j) => find(self.s@, from as int, p@) == Some(j as int) && j + p@.len()
                    <= self.s@.len() && j >= from,
                None => find(self.s@, from as int, p@) == None::<int>,
            },
    {
        let q = text::chars(p);
        let mut j: usize = from;
        loop
            invariant
                q@ == p@,
                self.valid(),
                from <= j <= self.s@.len(),
                find(self.s@, from as int, p@) == find(self.s@, j as int, p@),
            decreases self.s@.len() - j,
        {
            if text::matches_at(&self.s, j, &q) {
                return Some(j);
            }
            if j >= self.s.len() {
                return None;
            }
            j += 1;
        }
    }

    fn advance_past(&mut self, end: &str)
        requires
            old(self).valid(),
        ensures
            final(self).valid(),
            final(self).s == old(self).s,
            final(self).i == past(old(self).s@, old(self).i as int, end@),
    {
        match self.find_from(self.i, end) {
            Some(j) => {
                let n = text::chars(end);
                self.i = j + n.len();
            },
            None => {
                self.i = self.s.len();
            },
        }
    }

    /// Skip white space and comments.
    fn skip_gap(&mut self)
        requires
            old(self).valid(),
        ensures
            final(self).valid(),
            final(self).s == old(self).s,
            final(self).i == skip_space(old(self).s@, old(self).i as int),
            final(self).i >= old(self).i,
    {
        let ghost goal = skip_space(self.s@, self.i as int);
        loop
            invariant
                self.valid(),
                self.s == old(self).s,
                self.i >= old(self).i,
                goal == skip_space(old(self).s@, old(self).i as int),
                goal == skip_space(self.s@, self.i as int),
            decreases self.s@.len() - self.i,
        {
            self.skip_ws();
            proof {
                lemma_tags();
                lemma_scan(self.s@, self.i as int, "-->"@);
            }
            if !self.starts_with("<!--") {
                return;
            }
            self.advance_past("-->");
        }
    }

    /// The end of the attributes of the tag `name`, if it stands here with some.
    fn attributes_end(&self, name: &str) -> (r: Option<usize>)
        requires
            self.valid(),
        ensures
            match r {
                Some(e) => attributes_end(self.s@, self.i as int, name@) == Some(e as int) && 0 < e
                    < self.s@.len(),
                None => attributes_end(self.s@, self.i as int, name@) == None::<int>,
            },
    {
        proof {
            lemma_tags();
        }
        let head = text::cat("<", name);
        if !self.starts_with(head.as_str()) {
            return None;
        }
        let n = text::chars(name);
        assert(self.s.len() == self.s@.len());
        let k: usize = self.i + 1 + n.len();
        if k >= self.s.len() || !blank(self.s[k]) {
            return None;
        }
        self.find_from(k, ">")
    }

    /// The position after the opening tag `name`, if it stands here.
    fn open_tag(&self, name: &str) -> (r: Option<usize>)
        requires
            self.valid(),
        ensures
            match r {
                Some(k) => open_tag(self.s@, self.i as int, name@) == Some(k as int) && self.i < k
                    <= self.s@.len(),
                None => open_tag(self.s@, self.i as int, name@) == None::<int>,
            },
    {
        proof {
            lemma_tags();
            lemma_tag(self.s@, self.i as int, name@);
        }
        let plain = text::cat3("<", name, ">");
        if self.starts_with(plain.as_str()) {
            let n = text::chars(name);
            assert(self.s.len() == self.s@.len());
            return Some(self.i + n.len() + 2);
        }
        match self.attributes_end(name) {
            Some(e) => if self.s[e - 1] != '/' {
                Some(e + 1)
            } else {
                None
            },
            None => None,
        }
    }

    /// The position after the tag of the empty element `name`, if it stands
    /// here.
    fn empty_tag(&self, name: &str) -> (r: Option<usize>)
        requires
            self.valid(),
        ensures
            match r {
                Some(k) => empty_tag(self.s@, self.i as int, name@) == Some(k as int) && self.i < k
                    <= self.s@.len(),
                None => empty_tag(self.s@, self.i as int, name@) == None::<int>,
            },
    {
        proof {
            lemma_tags();
            lemma_tag(self.s@, self.i as int, name@);
        }
        let plain = text::cat3("<", name, "/>");
        if self.starts_with(plain.as_str()) {
            let n = text::chars(name);
            assert(self.s.len() == self.s@.len());
            return Some(self.i + n.len() + 3);
        }
        match self.attributes_end(name) {
            Some(e) => if self.s[e - 1] == '/' {
                Some(e + 1)
            } else {
                None
            },
            None => None,
        }
    }

    /// Skip the declarations, the document type and the comments before the
    /// root element.
    fn skip_prologue(&mut self)
        requires
            old(self).valid(),
        ensures
            final(self).valid(),
            final(self).s == old(self).s,
            final(self).i == prologue_end(old(self).s@, old(self).i as int),
    {
        let ghost goal = prologue_end(self.s@, self.i as int);
        loop
            invariant
                self.valid(),
                self.s == old(self).s,
                goal == prologue_end(old(self).s@, old(self).i as int),
                goal == prologue_end(self.s@, self.i as int),
            decreases self.s@.len() - self.i,
        {
            self.skip_ws();
            proof {
                lemma_tags();
                lemma_scan(self.s@, self.i as int, "?>"@);
                lemma_scan(self.s@, self.i as int, "-->"@);
                lemma_scan(self.s@, self.i as int, ">"@);
            }
            if self.starts_with("<?") {
                self.advance_past("?>");
            } else if self.starts_with("<!--") {
                self.advance_past("-->");
            } else if self.starts_with("<!") {
                self.advance_past(">");
            } else {
                return;
            }
        }
    }

    /// Read the text element `name`, whose opening tag ends here.
    fn text_element(&mut self, name: &str) -> (r: Result<String, PlistError>)
        requires
            old(self).valid(),
        ensures
            final(self).valid(),
            final(self).s == old(self).s,
            match r {
                Ok(t) => text_element(old(self).s@, old(self).i as int, name@) == Ok::<
                    _,
                    PlistErrorView,
                >((t@, final(self).i as int)) && final(self).i > old(self).i,
                Err(e) => text_element(old(self).s@, old(self).i as int, name@) == Err::<
                    (Seq<char>, int),
                    _,
                >(e@),
            },
    {
        proof {
            lemma_tags();
        }
        let n = text::chars(name);
        assert(self.s.len() == self.s@.len());
        let close = text::cat3("</", name, ">");
        match self.find_from(self.i, close.as_str()) {
            Some(end) => {
                let raw = text::string_of(&self.s, self.i, end);
                self.i = end + n.len() + 3;
                Ok(unescape(raw.as_str()))
            },
            None => Err(PlistError::Xml(text::cat3("unterminated <", name, ">"))),
        }
    }

    /// Read the value that stands here.
    fn value(&mut self) -> (r: Result<PlistValue, PlistError>)
        requires
            old(self).valid(),
        ensures
            final(self).valid(),
            final(self).s == old(self).s,
            read(r, final(self).i as int) == value(old(self).s@, old(self).i as int),
            r matches Ok(v) ==> v.valid(),
        decreases old(self).s@.len() - old(self).i, 0nat,
    {
        self.skip_gap();
        if let Some(k) = self.open_tag("dict") {
            self.i = k;
            self.parse_dict()
        } else if let Some(k) = self.open_tag("array") {
            self.i = k;
            self.parse_array()
        } else if let Some(k) = self.open_tag("string") {
            self.i = k;
            let t = self.text_element("string")?;
            Ok(PlistValue::String(t))
        } else if let Some(k) = self.open_tag("integer") {
            self.i = k;
            let t = self.text_element("integer")?;
            let t = text::trimmed(t.as_str());
            match parse_integer(t.as_str()) {
                Some(n) => Ok(PlistValue::Integer(n)),
                None => Ok(PlistValue::Integer(0)),
            }
        } else if let Some(k) = self.open_tag("real") {
            self.i = k;
            let t = self.text_element("real")?;
            Ok(PlistValue::Real(PlistReal::Numeral(text::trimmed(t.as_str()))))
        } else if let Some(k) = self.empty_tag("true") {
            self.i = k;
            Ok(PlistValue::Bool(true))
        } else if let Some(k) = self.empty_tag("false") {
            self.i = k;
            Ok(PlistValue::Bool(false))
        } else if let Some(k) = self.open_tag("data") {
            self.i = k;
            let t = self.text_element("data")?;
            let t = text::trimmed(t.as_str());
            Ok(PlistValue::Data(vstd::slice::slice_to_vec(t.as_str().as_bytes())))
        } else {
            Err(PlistError::Xml("unexpected element".to_owned()))
        }
    }

    /// Read the dictionary whose opening tag ends here.
    fn parse_dict(&mut self) -> (r: Result<PlistValue, PlistError>)
        requires
            old(self).valid(),
        ensures
            final(self).valid(),
            final(self).s == old(self).s,
            read(r, final(self).i as int) == (match entries(old(self).s@, old(self).i as int) {
                Ok((pairs, k)) => Ok((PlistView::Dict(plist::map_of(pairs)), k)),
                Err(e) => Err(e),
            }),
            r matches Ok(v) ==> v.valid(),
        decreases old(self).s@.len() - old(self).i, 1nat,
    {
        proof {
            lemma_tags();
        }
        let ghost s0 = self.s@;
        let ghost start = self.i as int;
        let ghost whole = entries(s0, start);
        let ghost mut pairs: Seq<(Seq<char>, PlistView)> = seq![];
        let mut map: Vec<(String, PlistValue)> = Vec::new();
        proof {
            if whole is Ok {
                assert(pairs + (whole->Ok_0).0 =~= (whole->Ok_0).0);
            }
        }
        loop
            invariant
                self.valid(),
                self.s == old(self).s,
                s0 == old(self).s@,
                start == old(self).i as int,
                self.i >= start,
                start <= s0.len(),
                whole == entries(s0, start),
                whole == (match entries(s0, self.i as int) {
                    Ok((rest, end)) => Ok((pairs + rest, end)),
                    Err(e) => Err(e),
                }),
                plist::map_of(plist::entry_views(map@)) == plist::map_of(pairs),
                plist::keys_increase(map@),
                forall|i: int| 0 <= i < map@.len() ==> (#[trigger] map@[i]).1.valid(),
            decreases s0.len() - self.i,
        {
            self.skip_gap();
            proof {
                lemma_tags();
            }
            if self.starts_with("</dict>") {
                self.i = self.i + 7;
                assert(pairs + Seq::<(Seq<char>, PlistView)>::empty() =~= pairs);
                return Ok(PlistValue::Dict(map));
            }
            match self.open_tag("key") {
                Some(k) => {
                    self.i = k;
                },
                None => {
                    return Err(PlistError::Xml("expected <key> in dict".to_owned()));
                },
            }
            let key = self.text_element("key")?;
            let ghost mid = self.i as int;
            let val = self.value()?;
            proof {
                elements_advance(s0, mid);
                let rest = entries(s0, self.i as int);
                if rest is Ok {
                    assert(pairs + (seq![(key@, val@)] + (rest->Ok_0).0) =~= pairs.push(
                        (key@, val@),
                    ) + (rest->Ok_0).0);
                }
                assert(pairs.push((key@, val@)).drop_last() =~= pairs);
                pairs = pairs.push((key@, val@));
            }
            plist::insert(&mut map, key, val);
        }
    }

    /// Read the array whose opening tag ends here.
    fn parse_array(&mut self) -> (r: Result<PlistValue, PlistError>)
        requires
            old(self).valid(),
        ensures
            final(self).valid(),
            final(self).s == old(self).s,
            read(r, final(self).i as int) == (match items(old(self).s@, old(self).i as int) {
                Ok((v, k)) => Ok((PlistView::Array(v), k)),
                Err(e) => Err(e),
            }),
            r matches Ok(v) ==> v.valid(),
        decreases old(self).s@.len() - old(self).i, 1nat,
    {
        proof {
            lemma_tags();
        }
        let ghost s0 = self.s@;
        let ghost start = self.i as int;
        let ghost whole = items(s0, start);
        let mut out: Vec<PlistValue> = Vec::new();
        proof {
            if whole is Ok {
                assert(plist::item_views(out@) + (whole->Ok_0).0 =~= (whole->Ok_0).0);
            }
        }
        loop
            invariant
                self.valid(),
                self.s == old(self).s,
                s0 == old(self).s@,
                start == old(self).i as int,
                self.i >= start,
                start <= s0.len(),
                whole == items(s0, start),
                whole == (match items(s0, self.i as int) {
                    Ok((rest, end)) => Ok((plist::item_views(out@) + rest, end)),
                    Err(e) => Err(e),
                }),
                forall|i: int| 0 <= i < out@.len() ==> (#[trigger] out@[i]).valid(),
            decreases s0.len() - self.i,
        {
            self.skip_gap();
            proof {
                lemma_tags();
            }
            if self.starts_with("</array>") {
                self.i = self.i + 8;
                assert(plist::item_views(out@) + Seq::<PlistView>::empty() =~= plist::item_views(
                    out@,
                ));
                return Ok(PlistValue::Array(out));
            }
            let ghost mid = self.i as int;
            let v = self.value()?;
            let ghost before = out@;
            out.push(v);
            proof {
                elements_advance(s0, mid);
                assert(out@.drop_last() =~= before);
                let rest = items(s0, self.i as int);
                if rest is Ok {
                    assert(plist::item_views(before) + (seq![v@] + (rest->Ok_0).0)
                        =~= plist::item_views(out@) + (rest->Ok_0).0);
                }
            }
        }
    }
}

/// Read an XML plist.
pub fn parse(bytes: &[u8]) -> (r: Result<PlistValue, PlistError>)
    ensures
        plist::parsed(r) == (if vstd::utf8::valid_utf8(bytes@) {
            document(vstd::utf8::decode_utf8(bytes@))
        } else {
            Err(PlistErrorView::Xml("not utf-8"@))
        }),
        r matches Ok(v) ==> v.valid(),
{
    match text::from_utf8(bytes) {
        None => Err(PlistError::Xml("not utf-8".to_owned())),
        Some(t) => {
            let mut p = Parser { s: text::chars(t), i: 0 };
            assert(p.s.len() == p.s@.len());
            p.skip_prologue();
            p.skip_ws();
            if !p.starts_with("<plist") {
                return Err(PlistError::Xml("expected <plist>".to_owned()));
            }
            p.advance_past(">");
            p.value()
        },
    }
}

} // verus!
