//! What paths stand for.

use vstd::prelude::*;

use crate::common::error::ErrorView;
use crate::text;
use crate::vfs::sandbox;
use crate::vfs::sandbox::SandboxView;
use crate::vfs::translate;
use crate::vfs::translate::TranslationError;

verus! {

/// The path made of some components.
pub open spec fn path_of(comps: Seq<Seq<char>>) -> Seq<char>
    decreases comps.len(),
{
    if comps.len() == 0 {
        seq![]
    } else if comps.len() == 1 {
        comps[0]
    } else {
        comps[0].push('/') + path_of(comps.drop_first())
    }
}

/// Whether every one of `comps` names an entry of its directory.
pub open spec fn all_clean(comps: Seq<Seq<char>>) -> bool {
    forall|k: int| 0 <= k < comps.len() ==> translate::clean(#[trigger] comps[k])
}

/// Whether white space neither starts nor ends `s`.
pub open spec fn tight(s: Seq<char>) -> bool {
    s.len() > 0 ==> !text::is_space(s[0]) && !text::is_space(s.last())
}

// ---- components -------------------------------------------------------------

proof fn lemma_split(pre: Seq<char>, comps: Seq<Seq<char>>)
    requires
        comps.len() > 0,
        forall|k: int| 0 <= k < comps.len() ==> !(#[trigger] comps[k]).contains('/'),
    ensures
        text::split_from(pre + path_of(comps), pre.len() as int, '/') == comps,
    decreases comps.len(),
{
    let s = pre + path_of(comps);
    let from = pre.len() as int;
    let c = comps[0];
    text::lemma_next_char(s, from, '/');
    let end = text::next_char(s, from, '/');
    assert forall|i: int| from <= i < from + c.len() implies s[i] != '/' by {
        assert(s[i] == c[i - from]);
        if c[i - from] == '/' {
            assert(c.contains('/'));
        }
    }
    if comps.len() == 1 {
        assert(s.len() == from + c.len());
        assert(s.subrange(from, s.len() as int) =~= c);
        assert(comps =~= seq![c]);
    } else {
        let rest = comps.drop_first();
        assert(s[from + c.len()] == '/');
        assert(end == from + c.len());
        assert(s.subrange(from, end) =~= c);
        assert(s =~= (pre + c.push('/')) + path_of(rest));
        assert forall|k: int| 0 <= k < rest.len() implies !(#[trigger] rest[k]).contains('/') by {
            assert(rest[k] == comps[k + 1]);
        }
        lemma_split(pre + c.push('/'), rest);
        assert(seq![c] + rest =~= comps);
    }
}

/// Splitting a path gives back the components it is made of.
pub proof fn paths_split_into_their_components(comps: Seq<Seq<char>>)
    requires
        comps.len() > 0,
        forall|k: int| 0 <= k < comps.len() ==> !(#[trigger] comps[k]).contains('/'),
    ensures
        text::split(path_of(comps), '/') == comps,
{
    lemma_split(seq![], comps);
    assert(Seq::<char>::empty() + path_of(comps) =~= path_of(comps));
}

proof fn lemma_keeps(comps: Seq<Seq<char>>, i: int, out: Seq<Seq<char>>)
    requires
        0 <= i <= comps.len(),
        all_clean(comps),
    ensures
        translate::resolve_dots(comps, i, out) == Ok::<Seq<Seq<char>>, TranslationError>(
            out + comps.skip(i),
        ),
    decreases comps.len() - i,
{
    if i < comps.len() {
        assert(translate::clean(comps[i]));
        reveal_strlit("");
        lemma_keeps(comps, i + 1, out.push(comps[i]));
        assert(out.push(comps[i]) + comps.skip(i + 1) =~= out + comps.skip(i));
    } else {
        assert(out + comps.skip(i) =~= out);
    }
}

/// Resolving `a` followed by `b` is resolving `a` and, from there, `b`.
proof fn lemma_resolve_parts(
    a: Seq<Seq<char>>,
    b: Seq<Seq<char>>,
    i: int,
    out: Seq<Seq<char>>,
)
    requires
        0 <= i <= a.len(),
    ensures
        translate::resolve_dots(a + b, i, out) == match translate::resolve_dots(a, i, out) {
            Ok(mid) => translate::resolve_dots(b, 0, mid),
            Err(e) => Err(e),
        },
    decreases a.len() - i,
{
    if i < a.len() {
        assert((a + b)[i] == a[i]);
        if a[i] == ""@ || a[i] == "."@ {
            lemma_resolve_parts(a, b, i + 1, out);
        } else if a[i] == ".."@ {
            if out.len() > 0 {
                lemma_resolve_parts(a, b, i + 1, out.drop_last());
            }
        } else if !a[i].contains('\0') {
            lemma_resolve_parts(a, b, i + 1, out.push(a[i]));
        }
    } else {
        lemma_resolve_shift(a, b, 0, out);
    }
}

proof fn lemma_resolve_shift(a: Seq<Seq<char>>, b: Seq<Seq<char>>, j: int, out: Seq<Seq<char>>)
    requires
        0 <= j <= b.len(),
    ensures
        translate::resolve_dots(a + b, a.len() + j, out) == translate::resolve_dots(b, j, out),
    decreases b.len() - j,
{
    if j < b.len() {
        assert((a + b)[a.len() + j] == b[j]);
        if b[j] == ""@ || b[j] == "."@ {
            lemma_resolve_shift(a, b, j + 1, out);
        } else if b[j] == ".."@ {
            if out.len() > 0 {
                lemma_resolve_shift(a, b, j + 1, out.drop_last());
            }
        } else if !b[j].contains('\0') {
            lemma_resolve_shift(a, b, j + 1, out.push(b[j]));
        }
    }
}

proof fn lemma_no_separator(a: Seq<Seq<char>>, b: Seq<Seq<char>>)
    requires
        forall|k: int| 0 <= k < a.len() ==> !(#[trigger] a[k]).contains('/'),
        forall|k: int| 0 <= k < b.len() ==> !(#[trigger] b[k]).contains('/'),
    ensures
        forall|k: int| 0 <= k < (a + b).len() ==> !(#[trigger] (a + b)[k]).contains('/'),
{
    assert forall|k: int| 0 <= k < (a + b).len() implies !(#[trigger] (a + b)[k]).contains('/') by {
        if k < a.len() {
            assert((a + b)[k] == a[k]);
        } else {
            assert((a + b)[k] == b[k - a.len()]);
        }
    }
}

proof fn lemma_path_len(comps: Seq<Seq<char>>)
    requires
        comps.len() > 1 || (comps.len() == 1 && comps[0].len() > 0),
    ensures
        path_of(comps).len() > 0,
{
}

/// A path of clean components has just those components.
pub proof fn clean_paths_keep_their_components(comps: Seq<Seq<char>>)
    requires
        comps.len() > 0,
        all_clean(comps),
    ensures
        translate::components(path_of(comps)) == Ok::<Seq<Seq<char>>, TranslationError>(comps),
{
    assert forall|k: int| 0 <= k < comps.len() implies !(#[trigger] comps[k]).contains('/') by {
        assert(translate::clean(comps[k]));
    }
    assert(translate::clean(comps[0]));
    lemma_path_len(comps);
    paths_split_into_their_components(comps);
    lemma_keeps(comps, 0, seq![]);
    assert(Seq::<Seq<char>>::empty() + comps.skip(0) =~= comps);
}

/// A component followed by `..` is as if neither were there, and `.` and empty
/// components are as if they were not there, wherever they stand in a path.
pub proof fn dots_cancel(a: Seq<Seq<char>>, c: Seq<char>, b: Seq<Seq<char>>)
    requires
        forall|k: int| 0 <= k < a.len() ==> !(#[trigger] a[k]).contains('/'),
        forall|k: int| 0 <= k < b.len() ==> !(#[trigger] b[k]).contains('/'),
        translate::clean(c),
        path_of(a + b).len() > 0,
    ensures
        translate::components(path_of(a + seq![c, ".."@] + b)) == translate::components(
            path_of(a + b),
        ),
        translate::components(path_of(a + seq!["."@] + b)) == translate::components(
            path_of(a + b),
        ),
        path_of(a + seq![""@] + b).len() > 0,
        translate::components(path_of(a + seq![""@] + b)) == translate::components(
            path_of(a + b),
        ),
{
    reveal_strlit("");
    reveal_strlit(".");
    reveal_strlit("..");
    let back = seq![c, ".."@];
    let here = seq!["."@];
    let nothing = seq![""@];
    assert forall|out: Seq<Seq<char>>| #[trigger]
        translate::resolve_dots(back, 0, out) == Ok::<Seq<Seq<char>>, TranslationError>(out) by {
        reveal_with_fuel(translate::resolve_dots, 3);
        assert(back[0] == c && back[1] == ".."@);
        assert(".."@.len() == 2 && "."@.len() == 1 && ""@.len() == 0);
        assert(c != ""@);
        assert(translate::resolve_dots(back, 1, out.push(c)) == translate::resolve_dots(
            back,
            2,
            out.push(c).drop_last(),
        ));
        assert(out.push(c).drop_last() =~= out);
    }
    assert forall|out: Seq<Seq<char>>| #[trigger]
        translate::resolve_dots(here, 0, out) == Ok::<Seq<Seq<char>>, TranslationError>(out) by {
        reveal_with_fuel(translate::resolve_dots, 2);
    }
    assert forall|out: Seq<Seq<char>>| #[trigger]
        translate::resolve_dots(nothing, 0, out) == Ok::<Seq<Seq<char>>, TranslationError>(out) by {
        reveal_with_fuel(translate::resolve_dots, 2);
    }
    lemma_cancel(a, back, b);
    lemma_cancel(a, here, b);
    lemma_cancel(a, nothing, b);
}

/// Components that resolve to nothing can be left out.
proof fn lemma_cancel(a: Seq<Seq<char>>, m: Seq<Seq<char>>, b: Seq<Seq<char>>)
    requires
        forall|k: int| 0 <= k < a.len() ==> !(#[trigger] a[k]).contains('/'),
        forall|k: int| 0 <= k < b.len() ==> !(#[trigger] b[k]).contains('/'),
        forall|k: int| 0 <= k < m.len() ==> !(#[trigger] m[k]).contains('/'),
        m.len() > 0,
        path_of(a + b).len() > 0,
    ensures
        path_of(a + m + b).len() > 0,
        (forall|out: Seq<Seq<char>>| #[trigger]
            translate::resolve_dots(m, 0, out) == Ok::<Seq<Seq<char>>, TranslationError>(out))
            ==> translate::components(path_of(a + m + b)) == translate::components(path_of(a + b)),
{
    assert(a.len() + b.len() > 0);
    lemma_path_len(a + m + b);
    lemma_no_separator(a, m);
    lemma_no_separator(a + m, b);
    lemma_no_separator(a, b);
    paths_split_into_their_components(a + m + b);
    paths_split_into_their_components(a + b);
    lemma_resolve_parts(a + m, b, 0, seq![]);
    lemma_resolve_parts(a, m, 0, seq![]);
    lemma_resolve_parts(a, b, 0, seq![]);
}

/// A path that leaves the place it starts at is refused, and so is one with a
/// NUL in a component, and one that is empty.
pub proof fn bad_paths_are_refused(
    a: Seq<Seq<char>>,
    c: Seq<char>,
    b: Seq<Seq<char>>,
)
    requires
        all_clean(a),
        forall|k: int| 0 <= k < b.len() ==> !(#[trigger] b[k]).contains('/'),
        !c.contains('/'),
    ensures
        translate::components(path_of(seq![".."@] + b)) == Err::<Seq<Seq<char>>, TranslationError>(
            TranslationError::Escape,
        ),
        c.contains('\0') ==> translate::components(path_of(a + seq![c] + b)) == Err::<
            Seq<Seq<char>>,
            TranslationError,
        >(TranslationError::Malformed),
        translate::components(seq![]) == Err::<Seq<Seq<char>>, TranslationError>(
            TranslationError::Malformed,
        ),
{
    reveal_strlit("");
    reveal_strlit(".");
    reveal_strlit("..");
    assert forall|k: int| 0 <= k < a.len() implies !(#[trigger] a[k]).contains('/') by {
        assert(translate::clean(a[k]));
    }
    lemma_no_separator(seq![".."@], b);
    lemma_path_len(seq![".."@] + b);
    paths_split_into_their_components(seq![".."@] + b);
    if c.contains('\0') {
        assert(c.len() > 0);
        lemma_no_separator(a, seq![c]);
        lemma_no_separator(a + seq![c], b);
        let all = a + seq![c] + b;
        lemma_path_len(all);
        paths_split_into_their_components(all);
        lemma_resolve_parts(a + seq![c], b, 0, seq![]);
        lemma_resolve_parts(a, seq![c], 0, seq![]);
        lemma_keeps(a, 0, seq![]);
        assert(c != ""@ && c != "."@ && c != ".."@) by {
            let z = choose|z: int| 0 <= z < c.len() && c[z] == '\0';
            if c == "."@ || c == ".."@ {
                assert(c[z] == '.');
            }
        }
        let mid = Seq::<Seq<char>>::empty() + a.skip(0);
        assert(seq![c][0] == c);
    }
}

// ---- trimming ---------------------------------------------------------------

proof fn lemma_trim_end(a: Seq<char>, p: Seq<char>)
    requires
        a.len() > 0,
        !text::is_space(a.last()),
    ensures
        text::trim_end(a + p) == a + text::trim_end(p),
    decreases p.len(),
{
    if p.len() == 0 {
        assert(a + p =~= a);
    } else {
        assert((a + p).last() == p.last());
        if text::is_space(p.last()) {
            assert((a + p).drop_last() =~= a + p.drop_last());
            lemma_trim_end(a, p.drop_last());
        }
    }
}

/// Trimming takes white space away at both ends and nothing else.
pub proof fn trimming_takes_white_space_only(a: Seq<char>, s: Seq<char>, b: Seq<char>)
    requires
        forall|k: int| 0 <= k < a.len() ==> text::is_space(#[trigger] a[k]),
        forall|k: int| 0 <= k < b.len() ==> text::is_space(#[trigger] b[k]),
        tight(s),
    ensures
        text::trim(a + s + b) == s,
    decreases a.len() + b.len(),
{
    let t = a + s + b;
    if a.len() > 0 {
        assert(t[0] == a[0]);
        assert(t.drop_first() =~= a.drop_first() + s + b);
        assert forall|k: int| 0 <= k < a.len() - 1 implies text::is_space(
            #[trigger] a.drop_first()[k],
        ) by {
            assert(a.drop_first()[k] == a[k + 1]);
        }
        trimming_takes_white_space_only(a.drop_first(), s, b);
    } else if s.len() > 0 {
        assert(t =~= s + b);
        assert(t[0] == s[0]);
        lemma_trim_end(s, b);
        lemma_all_space(b);
        assert(s + Seq::<char>::empty() =~= s);
    } else {
        assert(t =~= b);
        lemma_all_space(b);
        if b.len() > 0 {
            assert(t[0] == b[0]);
            let rest = b.drop_first();
            assert forall|k: int| 0 <= k < rest.len() implies text::is_space(#[trigger] rest[k]) by {
                assert(rest[k] == b[k + 1]);
            }
            assert(t.drop_first() =~= a + s + rest);
            trimming_takes_white_space_only(a, s, rest);
        }
        assert(s =~= seq![]);
    }
}

proof fn lemma_all_space(b: Seq<char>)
    requires
        forall|k: int| 0 <= k < b.len() ==> text::is_space(#[trigger] b[k]),
    ensures
        text::trim_end(b) == Seq::<char>::empty(),
    decreases b.len(),
{
    if b.len() > 0 {
        assert(text::is_space(b[b.len() - 1]));
        let rest = b.drop_last();
        assert forall|k: int| 0 <= k < rest.len() implies text::is_space(#[trigger] rest[k]) by {
            assert(rest[k] == b[k]);
        }
        lemma_all_space(rest);
    } else {
        assert(b =~= Seq::<char>::empty());
    }
}

proof fn lemma_tight(s: Seq<char>)
    requires
        tight(s),
    ensures
        text::trim(s) == s,
{
}

// ---- joining ----------------------------------------------------------------

/// Joining a name to a directory puts one separator between them.
pub proof fn joined_paths_have_one_separator(base: Seq<char>, name: Seq<char>)
    ensures
        base.len() > 0 && base.last() != '/' && (name.len() == 0 || name[0] != '/')
            ==> sandbox::join(base, name) == base + seq!['/'] + name,
        base.len() > 0 && base.last() == '/' && (name.len() == 0 || name[0] != '/')
            ==> sandbox::join(base, name) == base + name,
        name.len() > 0 && name[0] == '/' ==> sandbox::join(base, name) == name,
{
    assert(base.push('/') + name =~= base + seq!['/'] + name);
}

/// Something is below a directory if and only if it is the directory or the
/// directory, a separator and the rest.
pub proof fn below_means_a_separator_follows(path: Seq<char>, prefix: Seq<char>, rest: Seq<char>)
    ensures
        sandbox::below(path, prefix) == Some(rest) <==> (path == prefix && rest.len() == 0) || path
            == prefix + seq!['/'] + rest,
{
    if sandbox::below(path, prefix) == Some(rest) {
        let n = prefix.len() as int;
        assert(path.take(n) =~= prefix);
        if path.len() == n {
            assert(path =~= prefix);
        } else {
            assert(path.skip(n)[0] == path[n]);
            assert(path =~= prefix + seq!['/'] + path.skip(n).skip(1));
        }
    }
    if path == prefix && rest.len() == 0 {
        assert(path.skip(prefix.len() as int) =~= rest);
    }
    if path == prefix + seq!['/'] + rest {
        assert(prefix.is_prefix_of(path));
        assert(path.skip(prefix.len() as int)[0] == '/');
        assert(path.skip(prefix.len() as int).skip(1) =~= rest);
    }
}

proof fn lemma_join_front(base: Seq<char>, d: Seq<char>, comps: Seq<Seq<char>>)
    ensures
        sandbox::join_all(base, seq![d] + comps) == sandbox::join_all(
            sandbox::join(base, d),
            comps,
        ),
    decreases comps.len(),
{
    let all = seq![d] + comps;
    if comps.len() == 0 {
        assert(all.drop_last() =~= seq![]);
        reveal_with_fuel(sandbox::join_all, 2);
    } else {
        assert(all.drop_last() =~= seq![d] + comps.drop_last());
        assert(all.last() == comps.last());
        lemma_join_front(base, d, comps.drop_last());
    }
}

// ---- translation ------------------------------------------------------------

/// The first character of a path of clean components, and its last one.
proof fn lemma_path_ends(comps: Seq<Seq<char>>)
    requires
        comps.len() > 0,
        all_clean(comps),
    ensures
        path_of(comps).len() > 0,
        path_of(comps)[0] == comps[0][0],
        path_of(comps)[0] != '/',
        path_of(comps).last() == comps.last().last(),
    decreases comps.len(),
{
    assert(translate::clean(comps[0]));
    if comps[0][0] == '/' {
        assert(comps[0].contains('/'));
    }
    if comps.len() > 1 {
        let rest = comps.drop_first();
        assert forall|k: int| 0 <= k < rest.len() implies translate::clean(#[trigger] rest[k]) by {
            assert(rest[k] == comps[k + 1]);
        }
        lemma_path_ends(rest);
        assert(rest.last() == comps.last());
    }
}

proof fn lemma_clean_front(d: Seq<char>, comps: Seq<Seq<char>>)
    requires
        translate::clean(d),
        all_clean(comps),
    ensures
        all_clean(seq![d] + comps),
{
    let all = seq![d] + comps;
    assert forall|k: int| 0 <= k < all.len() implies translate::clean(#[trigger] all[k]) by {
        if k > 0 {
            assert(all[k] == comps[k - 1]);
        }
    }
}

/// A path inside the container stands for the same path inside the host
/// directory that backs it, and can be written.
pub proof fn container_paths_lie_in_the_container(s: SandboxView, d: Seq<char>, comps: Seq<Seq<char>>)
    requires
        s.ios_prefix.len() > 0,
        s.ios_prefix[0] == '/',
        translate::clean(d),
        all_clean(comps),
        !text::is_space((seq![d] + comps).last().last()),
    ensures
        s.translate(s.ios_prefix + seq!['/'] + path_of(seq![d] + comps)) == Ok::<
            (Seq<char>, bool),
            ErrorView,
        >((sandbox::join_all(sandbox::join(s.host_root, d), comps), false)),
{
    let all = seq![d] + comps;
    let p = path_of(all);
    let path = s.ios_prefix + seq!['/'] + p;
    lemma_clean_front(d, comps);
    lemma_path_ends(all);
    assert(path[0] == '/');
    assert(path.last() == p.last());
    lemma_tight(path);
    below_means_a_separator_follows(path, s.ios_prefix, p);
    clean_paths_keep_their_components(all);
    lemma_join_front(s.host_root, d, comps);
}

proof fn lemma_bundle_name(name: Seq<char>)
    ensures
        translate::clean(sandbox::safe_name(name) + ".app"@),
        !text::is_space((sandbox::safe_name(name) + ".app"@).last()),
{
    reveal_strlit(".app");
    reveal_strlit(".");
    reveal_strlit("..");
    sandbox::bundle_names_are_one_component(name);
    let n = sandbox::safe_name(name);
    let b = n + ".app"@;
    assert forall|k: int| 0 <= k < b.len() implies b[k] != '/' && b[k] != '\0' by {
        if k < n.len() {
            assert(b[k] == n[k]);
            assert(n.contains(n[k]));
        } else {
            assert(b[k] == ".app"@[k - n.len()]);
        }
    }
    assert(b.len() >= 5);
    assert(b.last() == ".app"@[3]);
}

/// A relative path of clean components stands for those components inside the
/// app's bundle, and can be written.
pub proof fn relative_paths_lie_in_the_bundle(
    containers_root: Seq<char>,
    system_root: Seq<char>,
    name: Seq<char>,
    uuid: Seq<char>,
    comps: Seq<Seq<char>>,
)
    requires
        all_clean(comps),
        tight(path_of(comps)),
    ensures
        ({
            let s = SandboxView::prepared(containers_root, system_root, name, uuid);
            s.translate(path_of(comps)) == Ok::<(Seq<char>, bool), ErrorView>(
                (sandbox::join_all(s.layout.bundle_dir, comps), false),
            )
        }),
{
    reveal_strlit("/");
    reveal_strlit("");
    reveal_strlit("/var/mobile/Applications/");
    let s = SandboxView::prepared(containers_root, system_root, name, uuid);
    let p = path_of(comps);
    lemma_tight(p);
    lemma_bundle_name(name);
    let bn = s.bundle_name;
    if comps.len() == 0 {
        let path = s.bundle_ios_path() + "/"@ + p;
        assert(path =~= s.ios_prefix + seq!['/'] + path_of(seq![bn, ""@])) by {
            reveal_with_fuel(path_of, 3);
            assert(seq![bn, ""@].drop_first() =~= seq![""@]);
        }
        below_means_a_separator_follows(path, s.ios_prefix, path_of(seq![bn, ""@]));
        lemma_path_len(seq![bn, ""@]);
        let two = seq![bn, ""@];
        assert forall|k: int| 0 <= k < 2 implies !(#[trigger] two[k]).contains('/') by {}
        paths_split_into_their_components(two);
        reveal_with_fuel(translate::resolve_dots, 3);
        assert(bn != ""@);
        assert(Seq::<Seq<char>>::empty().push(bn) =~= seq![bn]);
        reveal_with_fuel(sandbox::join_all, 2);
        assert(seq![bn].drop_last() =~= seq![]);
    } else {
        lemma_path_ends(comps);
        let path = s.bundle_ios_path() + "/"@ + p;
        let all = seq![bn] + comps;
        assert(path_of(all) =~= bn.push('/') + p) by {
            assert(all.drop_first() =~= comps);
        }
        assert(path =~= s.ios_prefix + seq!['/'] + path_of(all));
        assert(all.last() == comps.last());
        container_paths_lie_in_the_container(s, bn, comps);
        lemma_clean_front(bn, comps);
        lemma_path_ends(all);
        assert(path[0] == '/');
        assert(path.last() == path_of(all).last());
        lemma_tight(path);
    }
}

/// A relative path stands for the same as that path below the guest path of the
/// bundle. White space around it does not matter.
pub proof fn relative_paths_start_at_the_bundle(s: SandboxView, p: Seq<char>)
    requires
        s.ios_prefix.len() > 0,
        s.ios_prefix[0] == '/',
        text::trim(p).len() == 0 || text::trim(p)[0] != '/',
    ensures
        s.translate(p) == s.translate(s.bundle_ios_path() + seq!['/'] + text::trim(p)),
        p.len() == 0 || !text::is_space(p[0]) ==> s.translate(p) == s.translate(
            s.bundle_ios_path() + seq!['/'] + p,
        ),
{
    reveal_strlit("/");
    let q = text::trim(p);
    let a = s.bundle_ios_path() + seq!['/'];
    assert(a[0] == '/');
    assert(a =~= s.bundle_ios_path() + "/"@);
    lemma_trim_end_idempotent(text::trim_start(p));
    lemma_trim_end(a, q);
    assert((a + q)[0] == '/');
    assert(text::trim(a + q) == a + q);
    if p.len() == 0 || !text::is_space(p[0]) {
        assert(text::trim_start(p) == p);
        lemma_trim_end(a, p);
        assert((a + p)[0] == '/');
        assert(text::trim(a + p) == a + q);
    }
    let path = a + q;
    assert(path =~= s.ios_prefix + seq!['/'] + (s.bundle_name + seq!['/'] + q));
    below_means_a_separator_follows(path, s.ios_prefix, s.bundle_name + seq!['/'] + q);
}

proof fn lemma_trim_end_idempotent(s: Seq<char>)
    ensures
        text::trim_end(text::trim_end(s)) == text::trim_end(s),
    decreases s.len(),
{
    if s.len() > 0 && text::is_space(s.last()) {
        lemma_trim_end_idempotent(s.drop_last());
    }
}

/// Where the directories of a container are: each is inside the host directory
/// that backs the container, under its own name, and the caches and preferences
/// are inside the library.
pub proof fn directories_have_their_guest_names(
    containers_root: Seq<char>,
    system_root: Seq<char>,
    name: Seq<char>,
    uuid: Seq<char>,
    comps: Seq<Seq<char>>,
)
    requires
        all_clean(comps),
        tight(path_of(comps)),
        comps.len() > 0,
    ensures
        ({
            let s = SandboxView::prepared(containers_root, system_root, name, uuid);
            let at = |dir: Seq<char>| s.translate(
                "/var/mobile/Applications/"@ + uuid + dir + path_of(comps),
            );
            &&& at("/Documents/"@) == Ok::<(Seq<char>, bool), ErrorView>(
                (sandbox::join_all(s.layout.documents, comps), false),
            )
            &&& at("/Library/"@) == Ok::<(Seq<char>, bool), ErrorView>(
                (sandbox::join_all(s.layout.library, comps), false),
            )
            &&& at("/Library/Caches/"@) == Ok::<(Seq<char>, bool), ErrorView>(
                (sandbox::join_all(s.layout.caches, comps), false),
            )
            &&& at("/Library/Preferences/"@) == Ok::<(Seq<char>, bool), ErrorView>(
                (sandbox::join_all(s.layout.preferences, comps), false),
            )
            &&& at("/tmp/"@) == Ok::<(Seq<char>, bool), ErrorView>(
                (sandbox::join_all(s.layout.tmp, comps), false),
            )
        }),
{
    reveal_strlit("/var/mobile/Applications/");
    reveal_strlit("Documents");
    reveal_strlit("/Documents/");
    reveal_strlit("Library");
    reveal_strlit("/Library/");
    reveal_strlit("Caches");
    reveal_strlit("/Library/Caches/");
    reveal_strlit("Preferences");
    reveal_strlit("/Library/Preferences/");
    reveal_strlit("tmp");
    reveal_strlit("/tmp/");
    reveal_strlit(".");
    reveal_strlit("..");
    let s = SandboxView::prepared(containers_root, system_root, name, uuid);
    lemma_path_ends(comps);
    assert(translate::clean("Caches"@));
    assert(translate::clean("Preferences"@));
    lemma_clean_front("Caches"@, comps);
    lemma_clean_front("Preferences"@, comps);
    assert("/Documents/"@ =~= seq!['/'] + "Documents"@.push('/'));
    assert("/Library/"@ =~= seq!['/'] + "Library"@.push('/'));
    assert("/tmp/"@ =~= seq!['/'] + "tmp"@.push('/'));
    assert("/Library/Caches/"@ =~= seq!['/'] + "Library"@.push('/') + "Caches"@.push('/'));
    assert("/Library/Preferences/"@ =~= seq!['/'] + "Library"@.push('/') + "Preferences"@.push(
        '/',
    ));
    lemma_at(s, "Documents"@, comps, "/Documents/"@);
    lemma_at(s, "Library"@, comps, "/Library/"@);
    lemma_at(s, "tmp"@, comps, "/tmp/"@);
    lemma_two(s, "Library"@, "Caches"@, comps, "/Library/Caches/"@);
    lemma_two(s, "Library"@, "Preferences"@, comps, "/Library/Preferences/"@);
}

proof fn lemma_at(s: SandboxView, d: Seq<char>, comps: Seq<Seq<char>>, dir: Seq<char>)
    requires
        s.ios_prefix.len() > 0,
        s.ios_prefix[0] == '/',
        translate::clean(d),
        all_clean(comps),
        comps.len() > 0,
        !text::is_space(comps.last().last()),
        dir == seq!['/'] + d.push('/'),
    ensures
        s.translate(s.ios_prefix + dir + path_of(comps)) == Ok::<(Seq<char>, bool), ErrorView>(
            (sandbox::join_all(sandbox::join(s.host_root, d), comps), false),
        ),
{
    let all = seq![d] + comps;
    assert(all.drop_first() =~= comps);
    assert(all.last() == comps.last());
    assert(s.ios_prefix + dir + path_of(comps) =~= s.ios_prefix + seq!['/'] + path_of(all));
    container_paths_lie_in_the_container(s, d, comps);
}

proof fn lemma_two(
    s: SandboxView,
    d: Seq<char>,
    e: Seq<char>,
    comps: Seq<Seq<char>>,
    dir: Seq<char>,
)
    requires
        s.ios_prefix.len() > 0,
        s.ios_prefix[0] == '/',
        translate::clean(d),
        translate::clean(e),
        all_clean(comps),
        comps.len() > 0,
        !text::is_space(comps.last().last()),
        dir == seq!['/'] + d.push('/') + e.push('/'),
    ensures
        s.translate(s.ios_prefix + dir + path_of(comps)) == Ok::<(Seq<char>, bool), ErrorView>(
            (
                sandbox::join_all(sandbox::join(sandbox::join(s.host_root, d), e), comps),
                false,
            ),
        ),
{
    let inner = seq![e] + comps;
    lemma_clean_front(e, comps);
    assert(inner.drop_first() =~= comps);
    assert(inner.last() == comps.last());
    let outer = seq!['/'] + d.push('/');
    assert(s.ios_prefix + dir + path_of(comps) =~= s.ios_prefix + outer + path_of(inner));
    lemma_at(s, d, inner, outer);
    lemma_join_front(sandbox::join(s.host_root, d), e, comps);
}

/// The system trees stand for the trees of the same names in the shared image,
/// and cannot be written.
pub proof fn system_paths_lie_in_the_image(
    containers_root: Seq<char>,
    system_root: Seq<char>,
    name: Seq<char>,
    uuid: Seq<char>,
    comps: Seq<Seq<char>>,
)
    requires
        all_clean(comps),
        tight(path_of(comps)),
        comps.len() > 0,
    ensures
        ({
            let s = SandboxView::prepared(containers_root, system_root, name, uuid);
            &&& s.translate("/System/"@ + path_of(comps)) == Ok::<(Seq<char>, bool), ErrorView>(
                (sandbox::join_all(sandbox::join(system_root, "System"@), comps), true),
            )
            &&& s.translate("/usr/"@ + path_of(comps)) == Ok::<(Seq<char>, bool), ErrorView>(
                (sandbox::join_all(sandbox::join(system_root, "usr"@), comps), true),
            )
            &&& s.translate("/Library/"@ + path_of(comps)) == Ok::<(Seq<char>, bool), ErrorView>(
                (sandbox::join_all(sandbox::join(system_root, "Library"@), comps), true),
            )
            &&& s.translate("/private/var/db/"@ + path_of(comps)) == Ok::<
                (Seq<char>, bool),
                ErrorView,
            >((sandbox::join_all(sandbox::join(system_root, "private/var/db"@), comps), true))
        }),
{
    let s = SandboxView::prepared(containers_root, system_root, name, uuid);
    assert(s.ios_prefix[0] == '/' && s.ios_prefix[1] == 'v' && s.ios_prefix.len() >= 2) by {
        reveal_strlit("/var/mobile/Applications/");
    }
    lemma_path_ends(comps);
    reveal_strlit("System");
    reveal_strlit("/System/");
    reveal_strlit("usr");
    reveal_strlit("/usr/");
    reveal_strlit("Library");
    reveal_strlit("/Library/");
    reveal_strlit("private/var/db");
    reveal_strlit("/private/var/db/");
    assert("/System/"@ =~= seq!['/'] + "System"@.push('/'));
    assert("/usr/"@ =~= seq!['/'] + "usr"@.push('/'));
    assert("/Library/"@ =~= seq!['/'] + "Library"@.push('/'));
    assert("/private/var/db/"@ =~= seq!['/'] + "private/var/db"@.push('/'));
    lemma_system(s, 0, comps);
    lemma_system(s, 1, comps);
    lemma_system(s, 2, comps);
    lemma_system(s, 3, comps);
}

proof fn lemma_system(s: SandboxView, t: int, comps: Seq<Seq<char>>)
    requires
        s.ios_prefix.len() >= 2,
        s.ios_prefix[0] == '/',
        s.ios_prefix[1] == 'v',
        0 <= t < 4,
        all_clean(comps),
        comps.len() > 0,
        !text::is_space(comps.last().last()),
    ensures
        s.translate(
            seq!['/'] + sandbox::system_trees()[t].push('/') + path_of(comps),
        ) == Ok::<(Seq<char>, bool), ErrorView>(
            (
                sandbox::join_all(
                    sandbox::join(s.system_root, sandbox::system_trees()[t]),
                    comps,
                ),
                true,
            ),
        ),
{
    reveal_strlit("/");
    reveal_strlit("System");
    reveal_strlit("usr");
    reveal_strlit("Library");
    reveal_strlit("private/var/db");
    let tree = sandbox::system_trees()[t];
    let p = path_of(comps);
    let path = seq!['/'] + tree.push('/') + p;
    lemma_path_ends(comps);
    assert(path.last() == p.last());
    lemma_tight(path);
    assert(path[1] == tree[0]);
    assert(tree[0] != 'v');
    assert(sandbox::below(path, s.ios_prefix) is None) by {
        if s.ios_prefix.is_prefix_of(path) {
            assert(path.take(s.ios_prefix.len() as int)[1] == path[1]);
        }
    }
    assert forall|u: int| 0 <= u < t implies sandbox::below(
        path,
        "/"@ + #[trigger] sandbox::system_trees()[u],
    ) is None by {
        let q = "/"@ + sandbox::system_trees()[u];
        assert(q[1] == sandbox::system_trees()[u][0]);
        if q.is_prefix_of(path) {
            assert(path.take(q.len() as int)[1] == path[1]);
        }
    }
    assert(path =~= ("/"@ + tree) + seq!['/'] + p);
    below_means_a_separator_follows(path, "/"@ + tree, p);
    lemma_first_tree(path, t, 0);
    clean_paths_keep_their_components(comps);
}

proof fn lemma_first_tree(path: Seq<char>, t: int, from: int)
    requires
        0 <= from <= t < 4,
        forall|u: int|
            0 <= u < t ==> sandbox::below(path, "/"@ + #[trigger] sandbox::system_trees()[u]) is None,
        sandbox::below(path, "/"@ + sandbox::system_trees()[t]) is Some,
    ensures
        sandbox::tree_of(path, from) == t,
    decreases t - from,
{
    if from < t {
        assert(sandbox::below(path, "/"@ + sandbox::system_trees()[from]) is None);
        lemma_first_tree(path, t, from + 1);
    }
}

/// An absolute path that is in neither the container nor a system tree stands
/// for nothing.
pub proof fn other_paths_stand_for_nothing(s: SandboxView, p: Seq<char>)
    requires
        tight(p),
        p.len() > 0,
        p[0] == '/',
        sandbox::below(p, s.ios_prefix) is None,
        sandbox::below(p, "/System"@) is None,
        sandbox::below(p, "/usr"@) is None,
        sandbox::below(p, "/Library"@) is None,
        sandbox::below(p, "/private/var/db"@) is None,
    ensures
        s.translate(p) is Err,
{
    reveal_strlit("/");
    reveal_strlit("System");
    reveal_strlit("/System");
    reveal_strlit("usr");
    reveal_strlit("/usr");
    reveal_strlit("Library");
    reveal_strlit("/Library");
    reveal_strlit("private/var/db");
    reveal_strlit("/private/var/db");
    assert("/"@ + sandbox::system_trees()[0] =~= "/System"@);
    assert("/"@ + sandbox::system_trees()[1] =~= "/usr"@);
    assert("/"@ + sandbox::system_trees()[2] =~= "/Library"@);
    assert("/"@ + sandbox::system_trees()[3] =~= "/private/var/db"@);
    lemma_tight(p);
    reveal_with_fuel(sandbox::tree_of, 5);
}

/// In a bundle's directory name separators and NUL become `_`, and nothing else
/// changes; a name that would name no directory becomes `App`.
pub proof fn bundle_names_are_kept(name: Seq<char>, i: int)
    requires
        name.len() > 0,
        name != "."@,
        name != ".."@,
        0 <= i < name.len(),
    ensures
        sandbox::safe_name(name).len() == name.len(),
        sandbox::safe_name(name)[i] == if name[i] == '/' || name[i] == '\\' || name[i] == '\0' {
            '_'
        } else {
            name[i]
        },
        sandbox::safe_name("."@) == "App"@,
        sandbox::safe_name(".."@) == "App"@,
        sandbox::safe_name(seq![]) == "App"@,
{
    reveal_strlit(".");
    reveal_strlit("..");
    let m = name.map_values(|c: char| sandbox::safe_char(c));
    if m == "."@ {
        assert(m[0] == '.');
        assert(name =~= "."@);
    }
    if m == ".."@ {
        assert(m[0] == '.' && m[1] == '.');
        assert(name =~= ".."@);
    }
    assert("."@.map_values(|c: char| sandbox::safe_char(c)) =~= "."@);
    assert(".."@.map_values(|c: char| sandbox::safe_char(c)) =~= ".."@);
}

} // verus!
