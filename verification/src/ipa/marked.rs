//! What the elements of an XML property list stand for.

use vstd::prelude::*;

use crate::bytes;
use crate::ipa::bplist;
use crate::ipa::plist;
use crate::ipa::plist::{PlistErrorView, PlistView, RealView};
use crate::ipa::xml;
use crate::text;
use crate::vfs::laws::trimming_takes_white_space_only;

verus! {

/// Whether a text holds neither tags nor entities.
pub open spec fn plain(t: Seq<char>) -> bool {
    !t.contains('<') && !t.contains('&')
}

/// The element `name` with the text `t`.
pub open spec fn element(name: Seq<char>, t: Seq<char>) -> Seq<char> {
    "<"@ + name + ">"@ + t + "</"@ + name + ">"@
}

// ---- lemmas -----------------------------------------------------------------

proof fn lemma_at(s: Seq<char>, i: int, p: Seq<char>, k: int)
    requires
        xml::at(s, i, p),
        0 <= k < p.len(),
    ensures
        s[i + k] == p[k],
{
    assert(s.subrange(i, i + p.len())[k] == p[k]);
}

/// What stands there with something behind it stands there.
proof fn lemma_front(s: Seq<char>, i: int, p: Seq<char>, q: Seq<char>)
    requires
        xml::at(s, i, p + q),
    ensures
        xml::at(s, i, p),
        xml::at(s, i + p.len(), q),
{
    let w = s.subrange(i, i + (p + q).len());
    assert(s.subrange(i, i + p.len()) =~= p) by {
        assert forall|k: int| 0 <= k < p.len() implies s[i + k] == p[k] by {
            assert(w[k] == (p + q)[k]);
        }
    }
    assert(s.subrange(i + p.len(), i + p.len() + q.len()) =~= q) by {
        assert forall|k: int| 0 <= k < q.len() implies s[i + p.len() + k] == q[k] by {
            assert(w[p.len() + k] == (p + q)[p.len() + k]);
        }
    }
}

/// Two texts that differ in a character do not stand in the same place.
proof fn lemma_not_at(s: Seq<char>, i: int, p: Seq<char>, k: int)
    requires
        0 <= k < p.len(),
        s[i + k] != p[k],
    ensures
        !xml::at(s, i, p),
{
    if xml::at(s, i, p) {
        lemma_at(s, i, p, k);
    }
}

/// A tag of another name does not stand there.
proof fn lemma_other_tag(s: Seq<char>, i: int, name: Seq<char>)
    requires
        name.len() > 0,
        s[i + 1] != name[0],
    ensures
        xml::open_tag(s, i, name) is None,
        xml::empty_tag(s, i, name) is None,
{
    reveal_strlit("<");
    let p = "<"@ + name;
    assert(p[1] == name[0]);
    lemma_not_at(s, i, p, 1);
    assert((p + ">"@)[1] == name[0]);
    lemma_not_at(s, i, p + ">"@, 1);
    assert((p + "/>"@)[1] == name[0]);
    lemma_not_at(s, i, p + "/>"@, 1);
}

/// At a tag that is no comment there is nothing to skip.
proof fn lemma_no_space(s: Seq<char>, i: int)
    requires
        0 <= i,
        i + 1 < s.len(),
        s[i] == '<',
        s[i + 1] != '!',
    ensures
        xml::skip_space(s, i) == i,
        xml::skip_blanks(s, i) == i,
{
    reveal_strlit("<!--");
    lemma_not_at(s, i, "<!--"@, 1);
}

/// The end of a text without tags is where the next tag stands.
proof fn lemma_find(s: Seq<char>, from: int, t: Seq<char>, p: Seq<char>)
    requires
        0 <= from,
        p.len() > 0,
        p[0] == '<',
        !t.contains('<'),
        xml::at(s, from, t + p),
    ensures
        xml::find(s, from, p) == Some(from + t.len()),
        s.subrange(from, from + t.len()) == t,
    decreases t.len(),
{
    lemma_front(s, from, t, p);
    if t.len() == 0 {
        assert(s.subrange(from, from) =~= t);
    } else {
        lemma_at(s, from, t, 0);
        assert(t.contains(t[0]));
        lemma_not_at(s, from, p, 0);
        let rest = t.drop_first();
        assert(!rest.contains('<')) by {
            if rest.contains('<') {
                let k = choose|k: int| 0 <= k < rest.len() && rest[k] == '<';
                assert(t[k + 1] == '<');
            }
        }
        assert(t + p =~= seq![t[0]] + (rest + p));
        lemma_front(s, from, seq![t[0]], rest + p);
        lemma_find(s, from + 1, rest, p);
    }
}

proof fn lemma_unchanged(t: Seq<char>, from: Seq<char>, to: Seq<char>)
    requires
        from.len() > 0,
        from[0] == '&',
        !t.contains('&'),
    ensures
        xml::replace_all(t, from, to) == t,
    decreases t.len(),
{
    if t.len() > 0 {
        assert(t.contains(t[0]));
        if from.is_prefix_of(t) {
            assert(t.subrange(0, from.len() as int)[0] == from[0]);
        }
        let rest = t.drop_first();
        assert(!rest.contains('&')) by {
            if rest.contains('&') {
                let k = choose|k: int| 0 <= k < rest.len() && rest[k] == '&';
                assert(t[k + 1] == '&');
            }
        }
        lemma_unchanged(rest, from, to);
        assert(seq![t[0]] + rest =~= t);
    }
}

/// Replacing one entity between texts that have none: it becomes what it stands
/// for, and another one stays.
proof fn lemma_one(
    a: Seq<char>,
    ent: Seq<char>,
    b: Seq<char>,
    from: Seq<char>,
    to: Seq<char>,
)
    requires
        ent.len() > 1,
        from.len() > 1,
        ent[0] == '&',
        from[0] == '&',
        !a.contains('&'),
        !b.contains('&'),
        !ent.drop_first().contains('&'),
        ent == from || ent[1] != from[1] || (ent.len() > 2 && from.len() > 2 && ent[2] != from[2]),
    ensures
        ent == from ==> xml::replace_all(a + ent + b, from, to) == a + to + b,
        ent != from ==> xml::replace_all(a + ent + b, from, to) == a + ent + b,
    decreases a.len(),
{
    let s = a + ent + b;
    if a.len() == 0 {
        assert(s =~= ent + b);
        if ent == from {
            assert(s.subrange(0, from.len() as int) =~= from);
            assert(s.skip(from.len() as int) =~= b);
            lemma_unchanged(b, from, to);
            assert(to + b =~= a + to + b);
        } else {
            if from.is_prefix_of(s) {
                let w = s.subrange(0, from.len() as int);
                assert(w[1] == from[1]);
                assert(s[1] == ent[1]);
                if ent.len() > 2 && from.len() > 2 {
                    assert(w[2] == from[2]);
                    assert(s[2] == ent[2]);
                }
            }
            let rest = ent.drop_first() + b;
            assert(s.drop_first() =~= rest);
            assert(!rest.contains('&')) by {
                if rest.contains('&') {
                    let k = choose|k: int| 0 <= k < rest.len() && rest[k] == '&';
                    if k < ent.len() - 1 {
                        assert(ent.drop_first()[k] == '&');
                    } else {
                        assert(b[k - (ent.len() - 1)] == '&');
                    }
                }
            }
            lemma_unchanged(rest, from, to);
            assert(seq![s[0]] + rest =~= s);
        }
    } else {
        assert(a.contains(a[0]));
        assert(s[0] == a[0]);
        if from.is_prefix_of(s) {
            assert(s.subrange(0, from.len() as int)[0] == from[0]);
        }
        let rest = a.drop_first();
        assert(!rest.contains('&')) by {
            if rest.contains('&') {
                let k = choose|k: int| 0 <= k < rest.len() && rest[k] == '&';
                assert(a[k + 1] == '&');
            }
        }
        assert(s.drop_first() =~= rest + ent + b);
        lemma_one(rest, ent, b, from, to);
        assert(seq![a[0]] + (rest + to + b) =~= a + to + b);
        assert(seq![a[0]] + (rest + ent + b) =~= s);
    }
}

// ---- texts ------------------------------------------------------------------

/// A text without entities stands for itself, and each of the five entities for
/// its character.
pub proof fn entities_stand_for_characters(a: Seq<char>, b: Seq<char>)
    requires
        !a.contains('&'),
        !b.contains('&'),
    ensures
        xml::unescaped(a) == a,
        xml::unescaped(a + "&lt;"@ + b) == a + seq!['<'] + b,
        xml::unescaped(a + "&gt;"@ + b) == a + seq!['>'] + b,
        xml::unescaped(a + "&quot;"@ + b) == a + seq!['"'] + b,
        xml::unescaped(a + "&apos;"@ + b) == a + seq!['\''] + b,
        xml::unescaped(a + "&amp;"@ + b) == a + seq!['&'] + b,
{
    reveal_strlit("&lt;");
    reveal_strlit("&gt;");
    reveal_strlit("&quot;");
    reveal_strlit("&apos;");
    reveal_strlit("&amp;");
    reveal_strlit("<");
    reveal_strlit(">");
    reveal_strlit("\"");
    reveal_strlit("'");
    reveal_strlit("&");
    lemma_unchanged(a, "&lt;"@, "<"@);
    lemma_unchanged(a, "&gt;"@, ">"@);
    lemma_unchanged(a, "&quot;"@, "\""@);
    lemma_unchanged(a, "&apos;"@, "'"@);
    lemma_unchanged(a, "&amp;"@, "&"@);
    assert("&lt;"@[1] == 'l' && "&gt;"@[1] == 'g' && "&quot;"@[1] == 'q' && "&apos;"@[1] == 'a'
        && "&amp;"@[1] == 'a');
    assert("&lt;"@.len() == 4 && "&gt;"@.len() == 4 && "&quot;"@.len() == 6 && "&apos;"@.len() == 6
        && "&amp;"@.len() == 5);
    assert("&apos;"@[2] == 'p' && "&amp;"@[2] == 'm');
    lemma_entity(a, "&lt;"@, b, '<');
    lemma_entity(a, "&gt;"@, b, '>');
    lemma_entity(a, "&quot;"@, b, '"');
    lemma_entity(a, "&apos;"@, b, '\'');
    lemma_entity(a, "&amp;"@, b, '&');
}

/// One entity, through all five replacements.
proof fn lemma_entity(a: Seq<char>, ent: Seq<char>, b: Seq<char>, c: char)
    requires
        !a.contains('&'),
        !b.contains('&'),
        ({
            ||| ent == "&lt;"@ && c == '<'
            ||| ent == "&gt;"@ && c == '>'
            ||| ent == "&quot;"@ && c == '"'
            ||| ent == "&apos;"@ && c == '\''
            ||| ent == "&amp;"@ && c == '&'
        }),
    ensures
        xml::unescaped(a + ent + b) == a + seq![c] + b,
{
    reveal_strlit("&lt;");
    reveal_strlit("&gt;");
    reveal_strlit("&quot;");
    reveal_strlit("&apos;");
    reveal_strlit("&amp;");
    reveal_strlit("<");
    reveal_strlit(">");
    reveal_strlit("\"");
    reveal_strlit("'");
    reveal_strlit("&");
    assert("&lt;"@[1] == 'l' && "&gt;"@[1] == 'g' && "&quot;"@[1] == 'q' && "&apos;"@[1] == 'a'
        && "&amp;"@[1] == 'a');
    assert("&lt;"@.len() == 4 && "&gt;"@.len() == 4 && "&quot;"@.len() == 6 && "&apos;"@.len() == 6
        && "&amp;"@.len() == 5);
    assert("&apos;"@[2] == 'p' && "&amp;"@[2] == 'm');
    assert(!ent.drop_first().contains('&'));
    assert("<"@ =~= seq!['<'] && ">"@ =~= seq!['>'] && "\""@ =~= seq!['"'] && "'"@ =~= seq!['\'']
        && "&"@ =~= seq!['&']);
    let done = a + seq![c] + b;
    lemma_one(a, ent, b, "&lt;"@, "<"@);
    lemma_one(a, ent, b, "&gt;"@, ">"@);
    lemma_one(a, ent, b, "&quot;"@, "\""@);
    lemma_one(a, ent, b, "&apos;"@, "'"@);
    lemma_one(a, ent, b, "&amp;"@, "&"@);
    if c != '&' {
        assert(!done.contains('&')) by {
            if done.contains('&') {
                let k = choose|k: int| 0 <= k < done.len() && done[k] == '&';
                if k < a.len() {
                    assert(a[k] == '&');
                } else if k > a.len() {
                    assert(b[k - a.len() - 1] == '&');
                }
            }
        }
        lemma_unchanged(done, "&gt;"@, ">"@);
        lemma_unchanged(done, "&quot;"@, "\""@);
        lemma_unchanged(done, "&apos;"@, "'"@);
        lemma_unchanged(done, "&amp;"@, "&"@);
    }
}

/// How a character is written where those for which `raw` is true stand for
/// themselves.
pub open spec fn written(c: char, raw: spec_fn(char) -> bool) -> Seq<char> {
    if raw(c) {
        seq![c]
    } else if c == '<' {
        "&lt;"@
    } else if c == '>' {
        "&gt;"@
    } else if c == '"' {
        "&quot;"@
    } else if c == '\'' {
        "&apos;"@
    } else if c == '&' {
        "&amp;"@
    } else {
        seq![c]
    }
}

/// How a text is written.
pub open spec fn all_written(t: Seq<char>, raw: spec_fn(char) -> bool) -> Seq<char>
    decreases t.len(),
{
    if t.len() == 0 {
        seq![]
    } else {
        written(t[0], raw) + all_written(t.drop_first(), raw)
    }
}

/// A text with its special characters written as entities.
pub open spec fn escaped(t: Seq<char>) -> Seq<char> {
    all_written(t, |c: char| false)
}

/// What holds no `&` is passed over.
proof fn lemma_walk(x: Seq<char>, y: Seq<char>, from: Seq<char>, to: Seq<char>)
    requires
        from.len() > 0,
        from[0] == '&',
        !x.contains('&'),
    ensures
        xml::replace_all(x + y, from, to) == x + xml::replace_all(y, from, to),
    decreases x.len(),
{
    let s = x + y;
    if x.len() == 0 {
        assert(s =~= y);
        assert(x + xml::replace_all(y, from, to) =~= xml::replace_all(y, from, to));
    } else {
        assert(x.contains(x[0]));
        if from.is_prefix_of(s) {
            assert(s.subrange(0, from.len() as int)[0] == from[0]);
        }
        let rest = x.drop_first();
        assert(!rest.contains('&')) by {
            if rest.contains('&') {
                let k = choose|k: int| 0 <= k < rest.len() && rest[k] == '&';
                assert(x[k + 1] == '&');
            }
        }
        assert(s.drop_first() =~= rest + y);
        lemma_walk(rest, y, from, to);
        assert(seq![x[0]] + (rest + xml::replace_all(y, from, to)) =~= x + xml::replace_all(
            y,
            from,
            to,
        ));
    }
}

/// An entity other than the one that is replaced is passed over.
proof fn lemma_other_entity(ent: Seq<char>, y: Seq<char>, from: Seq<char>, to: Seq<char>)
    requires
        ent.len() > 2,
        from.len() > 2,
        ent[0] == '&',
        from[0] == '&',
        !ent.drop_first().contains('&'),
        ent[1] != from[1] || ent[2] != from[2],
    ensures
        xml::replace_all(ent + y, from, to) == ent + xml::replace_all(y, from, to),
{
    let s = ent + y;
    if from.is_prefix_of(s) {
        let w = s.subrange(0, from.len() as int);
        assert(w[1] == from[1] && w[2] == from[2]);
        assert(s[1] == ent[1] && s[2] == ent[2]);
    }
    let tail = ent.drop_first();
    assert(s.drop_first() =~= tail + y);
    lemma_walk(tail, y, from, to);
    assert(seq![s[0]] + (tail + xml::replace_all(y, from, to)) =~= ent + xml::replace_all(
        y,
        from,
        to,
    ));
}

/// One pass: the character `c`, written as `ent` before, stands for itself
/// behind it, and everything else is as it was.
proof fn lemma_pass(
    t: Seq<char>,
    before: spec_fn(char) -> bool,
    after: spec_fn(char) -> bool,
    c: char,
    ent: Seq<char>,
)
    requires
        ({
            ||| ent == "&lt;"@ && c == '<'
            ||| ent == "&gt;"@ && c == '>'
            ||| ent == "&quot;"@ && c == '"'
            ||| ent == "&apos;"@ && c == '\''
            ||| ent == "&amp;"@ && c == '&'
        }),
        !before('&'),
        !before(c),
        after(c),
        forall|d: char| d != c ==> before(d) == #[trigger] after(d),
    ensures
        xml::replace_all(all_written(t, before), ent, seq![c]) == all_written(t, after),
    decreases t.len(),
{
    reveal_strlit("&lt;");
    reveal_strlit("&gt;");
    reveal_strlit("&quot;");
    reveal_strlit("&apos;");
    reveal_strlit("&amp;");
    assert("&lt;"@[1] == 'l' && "&gt;"@[1] == 'g' && "&quot;"@[1] == 'q' && "&apos;"@[1] == 'a'
        && "&amp;"@[1] == 'a');
    assert("&lt;"@[2] == 't' && "&gt;"@[2] == 't' && "&quot;"@[2] == 'u' && "&apos;"@[2] == 'p'
        && "&amp;"@[2] == 'm');
    if t.len() > 0 {
        let d = t[0];
        let w = written(d, before);
        let more = all_written(t.drop_first(), before);
        lemma_pass(t.drop_first(), before, after, c, ent);
        if d == c {
            let s = ent + more;
            assert(s.subrange(0, ent.len() as int) =~= ent);
            assert(s.skip(ent.len() as int) =~= more);
        } else {
            assert(before(d) == after(d));
            if w.len() == 1 {
                assert(w[0] == d);
                assert(d != '&');
                assert(!w.contains('&'));
                lemma_walk(w, more, ent, seq![c]);
            } else {
                assert(!w.drop_first().contains('&'));
                lemma_other_entity(w, more, ent, seq![c]);
            }
        }
    }
}

/// A text whose special characters are written as entities is read back.
pub proof fn escaped_texts_are_read_back(t: Seq<char>)
    ensures
        xml::unescaped(escaped(t)) == t,
{
    reveal_strlit("<");
    reveal_strlit(">");
    reveal_strlit("\"");
    reveal_strlit("'");
    reveal_strlit("&");
    assert("<"@ =~= seq!['<'] && ">"@ =~= seq!['>'] && "\""@ =~= seq!['"'] && "'"@ =~= seq!['\'']
        && "&"@ =~= seq!['&']);
    let r0 = |c: char| false;
    let r1 = |c: char| c == '<';
    let r2 = |c: char| c == '<' || c == '>';
    let r3 = |c: char| c == '<' || c == '>' || c == '"';
    let r4 = |c: char| c == '<' || c == '>' || c == '"' || c == '\'';
    let r5 = |c: char| c == '<' || c == '>' || c == '"' || c == '\'' || c == '&';
    lemma_pass(t, r0, r1, '<', "&lt;"@);
    lemma_pass(t, r1, r2, '>', "&gt;"@);
    lemma_pass(t, r2, r3, '"', "&quot;"@);
    lemma_pass(t, r3, r4, '\'', "&apos;"@);
    lemma_pass(t, r4, r5, '&', "&amp;"@);
    lemma_raw(t, r5);
}

proof fn lemma_raw(t: Seq<char>, raw: spec_fn(char) -> bool)
    requires
        raw('<') && raw('>') && raw('"') && raw('\'') && raw('&'),
    ensures
        all_written(t, raw) == t,
    decreases t.len(),
{
    if t.len() > 0 {
        lemma_raw(t.drop_first(), raw);
        assert(seq![t[0]] + t.drop_first() =~= t);
    } else {
        assert(t =~= Seq::<char>::empty());
    }
}

/// The text of an element, and where the element ends.
proof fn lemma_element(s: Seq<char>, i: int, name: Seq<char>, t: Seq<char>)
    requires
        xml::at(s, i, element(name, t)),
        name.len() > 0,
        !t.contains('<'),
    ensures
        xml::open_tag(s, i, name) == Some(i + name.len() + 2),
        xml::text_element(s, i + name.len() + 2, name) == Ok::<(Seq<char>, int), PlistErrorView>(
            (xml::unescaped(t), i + element(name, t).len()),
        ),
        plain(t) ==> xml::unescaped(t) == t,
        0 <= i,
        i + 1 < s.len(),
        s[i] == '<',
        s[i + 1] == name[0],
        i + element(name, t).len() <= s.len(),
{
    reveal_strlit("<");
    reveal_strlit(">");
    reveal_strlit("</");
    let head = "<"@ + name + ">"@;
    let tail = "</"@ + name + ">"@;
    assert(element(name, t) =~= head + (t + tail));
    lemma_front(s, i, head, t + tail);
    lemma_at(s, i, head, 0);
    lemma_at(s, i, head, 1);
    assert(head[1] == name[0]);
    assert(tail[0] == '<');
    lemma_find(s, i + head.len(), t, tail);
    if plain(t) {
        entities_stand_for_characters(t, seq![]);
    }
}

proof fn lemma_no_tags(t: Seq<char>)
    ensures
        !escaped(t).contains('<'),
    decreases t.len(),
{
    reveal_strlit("&lt;");
    reveal_strlit("&gt;");
    reveal_strlit("&quot;");
    reveal_strlit("&apos;");
    reveal_strlit("&amp;");
    if t.len() > 0 {
        lemma_no_tags(t.drop_first());
        let raw = |c: char| false;
        let w = written(t[0], raw);
        let more = escaped(t.drop_first());
        assert(!w.contains('<'));
        assert(escaped(t) == w + more);
        if escaped(t).contains('<') {
            let k = choose|k: int| 0 <= k < escaped(t).len() && escaped(t)[k] == '<';
            if k < w.len() {
                assert(w[k] == '<');
            } else {
                assert(more[k - w.len()] == '<');
            }
        }
    }
}

/// Any text can be the text of a `string` if its special characters are written
/// as entities.
pub proof fn any_text_can_be_written(s: Seq<char>, i: int, t: Seq<char>)
    requires
        xml::at(s, i, element("string"@, escaped(t))),
    ensures
        xml::value(s, i) == Ok::<(PlistView, int), PlistErrorView>(
            (PlistView::Text(t), i + element("string"@, escaped(t)).len()),
        ),
{
    reveal_strlit("string");
    reveal_strlit("dict");
    reveal_strlit("array");
    lemma_no_tags(t);
    escaped_texts_are_read_back(t);
    lemma_element(s, i, "string"@, escaped(t));
    lemma_no_space(s, i);
    assert("dict"@[0] == 'd' && "array"@[0] == 'a' && "string"@[0] == 's');
    lemma_other_tag(s, i, "dict"@);
    lemma_other_tag(s, i, "array"@);
}

/// `<string>t</string>` is the text `t`.
pub proof fn strings_are_read(s: Seq<char>, i: int, t: Seq<char>)
    requires
        xml::at(s, i, element("string"@, t)),
        plain(t),
    ensures
        xml::value(s, i) == Ok::<(PlistView, int), PlistErrorView>(
            (PlistView::Text(t), i + element("string"@, t).len()),
        ),
{
    reveal_strlit("string");
    reveal_strlit("dict");
    reveal_strlit("array");
    lemma_element(s, i, "string"@, t);
    lemma_no_space(s, i);
    assert("dict"@[0] == 'd' && "array"@[0] == 'a' && "string"@[0] == 's');
    lemma_other_tag(s, i, "dict"@);
    lemma_other_tag(s, i, "array"@);
}

/// `<integer>t</integer>` is the number that `t` writes, and `<real>t</real>`
/// the real number with that numeral.
pub proof fn numbers_are_read(s: Seq<char>, i: int, t: Seq<char>)
    requires
        plain(t),
    ensures
        xml::at(s, i, element("integer"@, t)) ==> xml::value(s, i) == Ok::<
            (PlistView, int),
            PlistErrorView,
        >((PlistView::Integer(xml::integer_or_zero(t)), i + element("integer"@, t).len())),
        xml::at(s, i, element("real"@, t)) ==> xml::value(s, i) == Ok::<
            (PlistView, int),
            PlistErrorView,
        >(
            (
                PlistView::Real(RealView::Numeral(text::trim(t))),
                i + element("real"@, t).len(),
            ),
        ),
{
    reveal_strlit("string");
    reveal_strlit("dict");
    reveal_strlit("array");
    reveal_strlit("integer");
    reveal_strlit("real");
    assert("dict"@[0] == 'd' && "array"@[0] == 'a' && "string"@[0] == 's' && "integer"@[0] == 'i'
        && "real"@[0] == 'r');
    if xml::at(s, i, element("integer"@, t)) {
        lemma_element(s, i, "integer"@, t);
        lemma_no_space(s, i);
        lemma_other_tag(s, i, "dict"@);
        lemma_other_tag(s, i, "array"@);
        lemma_other_tag(s, i, "string"@);
    }
    if xml::at(s, i, element("real"@, t)) {
        lemma_element(s, i, "real"@, t);
        lemma_no_space(s, i);
        lemma_other_tag(s, i, "dict"@);
        lemma_other_tag(s, i, "array"@);
        lemma_other_tag(s, i, "string"@);
        lemma_other_tag(s, i, "integer"@);
    }
}

/// `<true/>` and `<false/>` are the truth values.
pub proof fn booleans_are_read(s: Seq<char>, i: int)
    ensures
        xml::at(s, i, "<true/>"@) ==> xml::value(s, i) == Ok::<(PlistView, int), PlistErrorView>(
            (PlistView::Bool(true), i + 7),
        ),
        xml::at(s, i, "<false/>"@) ==> xml::value(s, i) == Ok::<(PlistView, int), PlistErrorView>(
            (PlistView::Bool(false), i + 8),
        ),
{
    reveal_strlit("string");
    reveal_strlit("dict");
    reveal_strlit("array");
    reveal_strlit("integer");
    reveal_strlit("real");
    reveal_strlit("true");
    reveal_strlit("false");
    reveal_strlit("<true/>");
    reveal_strlit("<false/>");
    reveal_strlit("<");
    reveal_strlit("/>");
    assert("dict"@[0] == 'd' && "array"@[0] == 'a' && "string"@[0] == 's' && "integer"@[0] == 'i'
        && "real"@[0] == 'r' && "true"@[0] == 't' && "false"@[0] == 'f');
    if xml::at(s, i, "<true/>"@) {
        lemma_at(s, i, "<true/>"@, 0);
        lemma_at(s, i, "<true/>"@, 1);
        lemma_no_space(s, i);
        lemma_other_tag(s, i, "dict"@);
        lemma_other_tag(s, i, "array"@);
        lemma_other_tag(s, i, "string"@);
        lemma_other_tag(s, i, "integer"@);
        lemma_other_tag(s, i, "real"@);
        assert("<"@ + "true"@ + "/>"@ =~= "<true/>"@);
    }
    if xml::at(s, i, "<false/>"@) {
        lemma_at(s, i, "<false/>"@, 0);
        lemma_at(s, i, "<false/>"@, 1);
        lemma_no_space(s, i);
        lemma_other_tag(s, i, "dict"@);
        lemma_other_tag(s, i, "array"@);
        lemma_other_tag(s, i, "string"@);
        lemma_other_tag(s, i, "integer"@);
        lemma_other_tag(s, i, "real"@);
        lemma_other_tag(s, i, "true"@);
        assert("<"@ + "false"@ + "/>"@ =~= "<false/>"@);
    }
}

/// `<data>t</data>` is the bytes of the text, without the white space around it.
pub proof fn data_is_read(s: Seq<char>, i: int, t: Seq<char>)
    requires
        plain(t),
        xml::at(s, i, element("data"@, t)),
    ensures
        xml::value(s, i) == Ok::<(PlistView, int), PlistErrorView>(
            (
                PlistView::Data(vstd::utf8::encode_utf8(text::trim(t))),
                i + element("data"@, t).len(),
            ),
        ),
{
    reveal_strlit("string");
    reveal_strlit("dict");
    reveal_strlit("array");
    reveal_strlit("integer");
    reveal_strlit("real");
    reveal_strlit("true");
    reveal_strlit("false");
    reveal_strlit("data");
    reveal_strlit("<");
    assert("data"@[0] == 'd' && "data"@[1] == 'a' && "dict"@[0] == 'd' && "dict"@[1] == 'i');
    assert("array"@[0] == 'a' && "string"@[0] == 's' && "integer"@[0] == 'i' && "real"@[0] == 'r'
        && "true"@[0] == 't' && "false"@[0] == 'f');
    lemma_element(s, i, "data"@, t);
    lemma_no_space(s, i);
    assert(s[i + 2] == 'a') by {
        let e = element("data"@, t);
        assert(e[2] == "data"@[1]);
        lemma_at(s, i, e, 2);
    }
    let p = "<"@ + "dict"@;
    assert(p[2] == 'i');
    lemma_not_at(s, i, p, 2);
    assert((p + ">"@)[2] == 'i');
    lemma_not_at(s, i, p + ">"@, 2);
    lemma_other_tag(s, i, "array"@);
    lemma_other_tag(s, i, "string"@);
    lemma_other_tag(s, i, "integer"@);
    lemma_other_tag(s, i, "real"@);
    lemma_other_tag(s, i, "true"@);
    lemma_other_tag(s, i, "false"@);
}

/// Attributes of a tag are passed over: behind its name, a blank and anything up
/// to the `>` change nothing, unless a `/` in front of that makes the element
/// empty.
pub proof fn attributes_are_passed_over(s: Seq<char>, i: int, name: Seq<char>, e: int)
    requires
        name.len() > 0,
        name[0] != '/',
        xml::at(s, i, seq!['<'] + name + seq![' ']),
        i + 1 + name.len() < e < s.len(),
        s[e] == '>',
        forall|k: int| i + 1 + name.len() <= k < e ==> s[k] != '>',
    ensures
        s[e - 1] != '/' ==> xml::open_tag(s, i, name) == Some(e + 1) && xml::empty_tag(s, i, name)
            is None,
        s[e - 1] == '/' ==> xml::empty_tag(s, i, name) == Some(e + 1) && xml::open_tag(s, i, name)
            is None,
{
    reveal_strlit("<");
    reveal_strlit(">");
    reveal_strlit("/>");
    let p = "<"@ + name;
    let k = i + 1 + name.len();
    assert("<"@ =~= seq!['<']);
    lemma_front(s, i, p, seq![' ']);
    lemma_at(s, k, seq![' '], 0);
    assert((p + ">"@)[p.len() as int] == '>');
    lemma_not_at(s, i, p + ">"@, p.len() as int);
    assert((p + "/>"@)[p.len() as int] == '/');
    lemma_not_at(s, i, p + "/>"@, p.len() as int);
    assert(xml::at(s, e, ">"@)) by {
        assert(s.subrange(e, e + 1) =~= ">"@);
    }
    assert forall|j: int| k <= j < e implies !(#[trigger] xml::at(s, j, ">"@)) by {
        lemma_not_at(s, j, ">"@, 0);
    }
    lemma_first(s, k, ">"@, e);
}

/// White space in front of a value does not matter.
pub proof fn white_space_is_passed_over(s: Seq<char>, i: int)
    requires
        0 <= i < s.len(),
        s[i] == ' ' || s[i] == '\t' || s[i] == '\n' || s[i] == '\r',
    ensures
        xml::value(s, i) == xml::value(s, i + 1),
{
    xml::lemma_space(s, i + 1);
}

// ---- containers -------------------------------------------------------------

/// `<array>`, some values and `</array>` are the array of the values, in their
/// order.
pub proof fn arrays_are_read(s: Seq<char>, i: int, v: PlistView, m: int)
    ensures
        xml::at(s, i, "<array>"@) ==> xml::value(s, i) == match xml::items(s, i + 7) {
            Ok((vs, end)) => Ok::<(PlistView, int), PlistErrorView>((PlistView::Array(vs), end)),
            Err(e) => Err(e),
        },
        xml::at(s, i, "</array>"@) ==> xml::items(s, i) == Ok::<
            (Seq<PlistView>, int),
            PlistErrorView,
        >((seq![], i + 8)),
        0 <= i && i + 1 < s.len() && s[i] == '<' && s[i + 1] != '/' && s[i + 1] != '!' && xml::value(
            s,
            i,
        ) == Ok::<(PlistView, int), PlistErrorView>((v, m)) ==> xml::items(s, i) == match xml::items(
            s,
            m,
        ) {
            Ok((vs, end)) => Ok::<(Seq<PlistView>, int), PlistErrorView>((seq![v] + vs, end)),
            Err(e) => Err(e),
        },
{
    reveal_strlit("array");
    reveal_strlit("dict");
    reveal_strlit("<array>");
    reveal_strlit("</array>");
    reveal_strlit("<");
    reveal_strlit(">");
    assert("dict"@[0] == 'd');
    if xml::at(s, i, "<array>"@) {
        lemma_at(s, i, "<array>"@, 0);
        lemma_at(s, i, "<array>"@, 1);
        lemma_no_space(s, i);
        lemma_other_tag(s, i, "dict"@);
        assert("<"@ + "array"@ + ">"@ =~= "<array>"@);
    }
    if xml::at(s, i, "</array>"@) {
        lemma_at(s, i, "</array>"@, 0);
        lemma_at(s, i, "</array>"@, 1);
        lemma_no_space(s, i);
    }
    if 0 <= i && i + 1 < s.len() && s[i] == '<' && s[i + 1] != '/' && s[i + 1] != '!' {
        lemma_no_space(s, i);
        assert("</array>"@[1] == '/');
        lemma_not_at(s, i, "</array>"@, 1);
        xml::elements_advance(s, i);
    }
}

/// `<dict>`, some pairs of a `<key>` and a value, and `</dict>` are the
/// dictionary of the pairs.
pub proof fn dictionaries_are_read(s: Seq<char>, i: int, k: Seq<char>, v: PlistView, m: int)
    ensures
        xml::at(s, i, "<dict>"@) ==> xml::value(s, i) == match xml::entries(s, i + 6) {
            Ok((pairs, end)) => Ok::<(PlistView, int), PlistErrorView>(
                (PlistView::Dict(plist::map_of(pairs)), end),
            ),
            Err(e) => Err(e),
        },
        xml::at(s, i, "</dict>"@) ==> xml::entries(s, i) == Ok::<
            (Seq<(Seq<char>, PlistView)>, int),
            PlistErrorView,
        >((seq![], i + 7)),
        plain(k) && xml::at(s, i, element("key"@, k)) && xml::value(
            s,
            i + element("key"@, k).len(),
        ) == Ok::<(PlistView, int), PlistErrorView>((v, m)) ==> xml::entries(s, i)
            == match xml::entries(s, m) {
            Ok((pairs, end)) => Ok::<(Seq<(Seq<char>, PlistView)>, int), PlistErrorView>(
                (seq![(k, v)] + pairs, end),
            ),
            Err(e) => Err(e),
        },
{
    reveal_strlit("dict");
    reveal_strlit("key");
    reveal_strlit("<dict>");
    reveal_strlit("</dict>");
    reveal_strlit("<");
    reveal_strlit(">");
    reveal_strlit("</");
    if xml::at(s, i, "<dict>"@) {
        lemma_at(s, i, "<dict>"@, 0);
        lemma_at(s, i, "<dict>"@, 1);
        lemma_no_space(s, i);
        assert("<"@ + "dict"@ + ">"@ =~= "<dict>"@);
    }
    if xml::at(s, i, "</dict>"@) {
        lemma_at(s, i, "</dict>"@, 0);
        lemma_at(s, i, "</dict>"@, 1);
        lemma_no_space(s, i);
    }
    if plain(k) && xml::at(s, i, element("key"@, k)) {
        lemma_element(s, i, "key"@, k);
        assert("key"@[0] == 'k');
        lemma_no_space(s, i);
        assert("</dict>"@[1] == '/');
        lemma_not_at(s, i, "</dict>"@, 1);
        xml::elements_advance(s, i + element("key"@, k).len());
    }
}

// ---- numbers ----------------------------------------------------------------

/// A number that was written in decimal digits is read as that number, with its
/// sign.
pub proof fn decimal_numbers_are_read_back(n: nat)
    requires
        n <= i64::MAX,
    ensures
        xml::integer(text::dec(n)) == Some(n as i64),
        xml::integer(seq!['-'] + text::dec(n)) == Some((-n) as i64),
        xml::integer(seq!['+'] + text::dec(n)) == Some(n as i64),
        xml::integer(seq![]) is None,
{
    lemma_decimal(n);
    let d = text::dec(n);
    assert(xml::is_digit(d[0]));
    assert((seq!['-'] + d).drop_first() =~= d);
    assert((seq!['+'] + d).drop_first() =~= d);
}

proof fn lemma_decimal(n: nat)
    ensures
        xml::digits_value(text::dec(n)) == n,
        xml::is_numeral(text::dec(n)),
    decreases n,
{
    let d = text::dec(n);
    let last = text::digit(n % 10, false);
    if n < 10 {
        assert(d =~= seq![last]);
        assert(d.drop_last() =~= seq![]);
        reveal_with_fuel(xml::digits_value, 2);
    } else {
        lemma_decimal(n / 10);
        assert(d.drop_last() =~= text::dec(n / 10));
        assert(d.last() == last);
        assert forall|i: int| 0 <= i < d.len() implies xml::is_digit(#[trigger] d[i]) by {
            if i < d.len() - 1 {
                assert(d[i] == text::dec(n / 10)[i]);
            }
        }
    }
}

/// White space around a number does not matter, and what is no number counts as
/// zero.
pub proof fn numbers_may_stand_in_white_space(a: Seq<char>, n: nat, b: Seq<char>, t: Seq<char>)
    requires
        n <= i64::MAX,
        forall|k: int| 0 <= k < a.len() ==> text::is_space(#[trigger] a[k]),
        forall|k: int| 0 <= k < b.len() ==> text::is_space(#[trigger] b[k]),
    ensures
        xml::integer_or_zero(a + text::dec(n) + b) == n,
        xml::integer_or_zero(a + (seq!['-'] + text::dec(n)) + b) == -n,
        xml::integer(text::trim(t)) is None ==> xml::integer_or_zero(t) == 0,
{
    decimal_numbers_are_read_back(n);
    lemma_decimal(n);
    let d = text::dec(n);
    assert(xml::is_digit(d[0]) && xml::is_digit(d[d.len() - 1]));
    trimming_takes_white_space_only(a, d, b);
    trimming_takes_white_space_only(a, seq!['-'] + d, b);
}

/// A numeral with anything but digits in it is no number.
pub proof fn numbers_are_digits(a: Seq<char>, c: char, b: Seq<char>)
    requires
        a.len() > 0,
        !('0' <= c && c <= '9'),
    ensures
        xml::integer(a.push(c) + b) is None,
{
    let s = a.push(c) + b;
    assert(s[a.len() as int] == c);
    assert(s.drop_first()[a.len() - 1] == c);
}

// ---- documents --------------------------------------------------------------

/// A document that starts with the `plist` tag is the value in it.
pub proof fn documents_are_their_value(s: Seq<char>)
    requires
        xml::at(s, 0, "<plist>"@),
    ensures
        xml::document(s) == match xml::value(s, 7) {
            Ok((v, _)) => Ok::<PlistView, PlistErrorView>(v),
            Err(e) => Err(e),
        },
{
    reveal_strlit("<plist>");
    reveal_strlit("<plist");
    reveal_strlit("<?");
    reveal_strlit("<!--");
    reveal_strlit("<!");
    reveal_strlit(">");
    lemma_at(s, 0, "<plist>"@, 0);
    lemma_at(s, 0, "<plist>"@, 1);
    lemma_at(s, 0, "<plist>"@, 2);
    lemma_at(s, 0, "<plist>"@, 3);
    lemma_at(s, 0, "<plist>"@, 4);
    lemma_at(s, 0, "<plist>"@, 5);
    lemma_at(s, 0, "<plist>"@, 6);
    lemma_no_space(s, 0);
    lemma_not_at(s, 0, "<?"@, 1);
    lemma_not_at(s, 0, "<!--"@, 1);
    lemma_not_at(s, 0, "<!"@, 1);
    assert("<plist>"@ =~= "<plist"@ + ">"@);
    lemma_front(s, 0, "<plist"@, ">"@);
    reveal_with_fuel(xml::find, 8);
    lemma_not_at(s, 0, ">"@, 0);
    lemma_not_at(s, 1, ">"@, 0);
    lemma_not_at(s, 2, ">"@, 0);
    lemma_not_at(s, 3, ">"@, 0);
    lemma_not_at(s, 4, ">"@, 0);
    lemma_not_at(s, 5, ">"@, 0);
}

proof fn lemma_first(s: Seq<char>, i: int, p: Seq<char>, e: int)
    requires
        0 <= i <= e,
        p.len() > 0,
        xml::at(s, e, p),
        forall|k: int| i <= k < e ==> !(#[trigger] xml::at(s, k, p)),
    ensures
        xml::past(s, i, p) == e + p.len(),
        xml::find(s, i, p) == Some(e),
    decreases e - i,
{
    if i < e {
        assert(!xml::at(s, i, p));
        lemma_first(s, i + 1, p, e);
    }
}

/// What stands before the `plist` tag is passed over: a declaration up to its
/// `?>`, a comment up to its `-->`, a document type up to its `>`.
pub proof fn prologues_are_passed_over(s: Seq<char>, i: int, e: int)
    requires
        0 <= i <= e,
    ensures
        xml::at(s, i, "<?"@) && xml::at(s, e, "?>"@) && (forall|k: int|
            i <= k < e ==> !(#[trigger] xml::at(s, k, "?>"@))) ==> xml::prologue_end(s, i)
            == xml::prologue_end(s, e + 2),
        xml::at(s, i, "<!--"@) && xml::at(s, e, "-->"@) && (forall|k: int|
            i <= k < e ==> !(#[trigger] xml::at(s, k, "-->"@))) ==> xml::prologue_end(s, i)
            == xml::prologue_end(s, e + 3),
        xml::at(s, i, "<!DOCTYPE"@) && xml::at(s, e, ">"@) && (forall|k: int|
            i <= k < e ==> !(#[trigger] xml::at(s, k, ">"@))) ==> xml::prologue_end(s, i)
            == xml::prologue_end(s, e + 1),
{
    reveal_strlit("<?");
    reveal_strlit("?>");
    reveal_strlit("<!--");
    reveal_strlit("-->");
    reveal_strlit("<!DOCTYPE");
    reveal_strlit("<!");
    reveal_strlit(">");
    if xml::at(s, i, "<?"@) {
        lemma_at(s, i, "<?"@, 0);
        if xml::at(s, e, "?>"@) && forall|k: int| i <= k < e ==> !(#[trigger] xml::at(s, k, "?>"@)) {
            lemma_first(s, i, "?>"@, e);
        }
    }
    if xml::at(s, i, "<!--"@) {
        lemma_at(s, i, "<!--"@, 0);
        lemma_at(s, i, "<!--"@, 1);
        lemma_not_at(s, i, "<?"@, 1);
        if xml::at(s, e, "-->"@) && forall|k: int|
            i <= k < e ==> !(#[trigger] xml::at(s, k, "-->"@)) {
            lemma_first(s, i, "-->"@, e);
        }
    }
    if xml::at(s, i, "<!DOCTYPE"@) {
        lemma_at(s, i, "<!DOCTYPE"@, 0);
        lemma_at(s, i, "<!DOCTYPE"@, 1);
        lemma_at(s, i, "<!DOCTYPE"@, 2);
        lemma_not_at(s, i, "<?"@, 1);
        lemma_not_at(s, i, "<!--"@, 2);
        assert(xml::at(s, i, "<!"@)) by {
            assert(s.subrange(i, i + 2) =~= "<!"@);
        }
        if xml::at(s, e, ">"@) && forall|k: int| i <= k < e ==> !(#[trigger] xml::at(s, k, ">"@)) {
            lemma_first(s, i, ">"@, e);
        }
    }
}

/// A property list that starts with `bplist00` is a binary one; any other one in
/// whose first 256 bytes `<plist` or `<?xml` stands is XML; and nothing else is a
/// property list.
pub proof fn formats_are_told_apart(b: Seq<u8>)
    ensures
        bytes::stands_at(b, 0, vstd::utf8::encode_utf8("bplist00"@)) ==> plist::document(b)
            == bplist::document(b),
        ({
            let head = if b.len() < 256 {
                b
            } else {
                b.take(256)
            };
            let marked = bytes::occurs(head, vstd::utf8::encode_utf8("<plist"@)) || bytes::occurs(
                head,
                vstd::utf8::encode_utf8("<?xml"@),
            );
            !bytes::stands_at(b, 0, vstd::utf8::encode_utf8("bplist00"@)) ==> {
                &&& marked && vstd::utf8::valid_utf8(b) ==> plist::document(b) == xml::document(
                    vstd::utf8::decode_utf8(b),
                )
                &&& marked && !vstd::utf8::valid_utf8(b) ==> plist::document(b) is Err
                &&& !marked ==> plist::document(b) == Err::<PlistView, PlistErrorView>(
                    PlistErrorView::NotAPlist,
                )
            }
        }),
{
    assert(b.take(b.len() as int) =~= b);
}

} // verus!
