//! What an archive says of its app.

use vstd::prelude::*;

use crate::common::error::ErrorView;
use crate::ipa::discovery;
use crate::ipa::discovery::BundleView;
use crate::ipa::extract;
use crate::ipa::extract::ExtractionView;
use crate::ipa::plist;
use crate::ipa::plist::PlistView;
use crate::session;
use crate::text;
use crate::vfs::laws::{all_clean, path_of, paths_split_into_their_components};
use crate::vfs::translate;

verus! {

/// Whether `d` maps `key` to the text `x`.
pub open spec fn says(d: Map<Seq<char>, PlistView>, key: Seq<char>, x: Seq<char>) -> bool {
    d.contains_key(key) && d[key] == PlistView::Text(x)
}

/// Whether `d` maps `key` to a text that is not empty.
pub open spec fn speaks(d: Map<Seq<char>, PlistView>, key: Seq<char>) -> bool {
    d.contains_key(key) && (d[key] matches PlistView::Text(x) && x.len() > 0)
}

// ---- metadata ---------------------------------------------------------------

/// The executable is the one that the property list names, inside the bundle's
/// directory. Only if it names none, it is the one that the directory is named
/// after.
pub proof fn executables_are_those_named(
    ipa_path: Seq<char>,
    bundle_dir: Seq<char>,
    info: Seq<u8>,
    d: Map<Seq<char>, PlistView>,
    x: Seq<char>,
)
    requires
        plist::document(info) == Ok::<PlistView, plist::PlistErrorView>(PlistView::Dict(d)),
    ensures
        discovery::inspected(ipa_path, bundle_dir, Some(info)) matches Ok(i) && {
            &&& i.bundle.ipa_path == ipa_path
            &&& i.bundle.bundle_dir == bundle_dir
            &&& i.bundle.executable_path == bundle_dir + seq!['/'] + i.bundle.metadata.executable
            &&& says(d, "CFBundleExecutable"@, x) && x.len() > 0 ==> i.bundle.metadata.executable
                == x && i.bundle.executable_path == bundle_dir + seq!['/'] + x
            &&& !speaks(d, "CFBundleExecutable"@) ==> i.bundle.metadata.executable
                == discovery::executable_of(bundle_dir)
        },
{
    reveal_strlit("/");
    assert("/"@ =~= seq!['/']);
}

/// Without a property list, or with one that cannot be read, there is no bundle.
pub proof fn bundles_need_a_property_list(
    ipa_path: Seq<char>,
    bundle_dir: Seq<char>,
    info: Seq<u8>,
)
    ensures
        discovery::inspected(ipa_path, bundle_dir, None) is Err,
        plist::document(info) is Err <==> discovery::inspected(
            ipa_path,
            bundle_dir,
            Some(info),
        ) is Err,
{
}

/// A directory `X.app` is named after its executable `X`; any other directory
/// stands for `App`.
pub proof fn directories_are_named_after_executables(parents: Seq<Seq<char>>, x: Seq<char>)
    requires
        forall|k: int| 0 <= k < parents.len() ==> !(#[trigger] parents[k]).contains('/'),
        !x.contains('/'),
    ensures
        discovery::executable_of(path_of(parents.push(x + ".app"@))) == x,
        !".app"@.is_suffix_of(x) ==> discovery::executable_of(path_of(parents.push(x))) == "App"@,
{
    reveal_strlit(".app");
    let dir = x + ".app"@;
    assert forall|k: int| 0 <= k < dir.len() implies dir[k] != '/' by {
        if k < x.len() {
            assert(x.contains(x[k]));
        }
    }
    let all = parents.push(dir);
    assert forall|k: int| 0 <= k < all.len() implies !(#[trigger] all[k]).contains('/') by {
        if k < parents.len() {
            assert(all[k] == parents[k]);
        }
    }
    paths_split_into_their_components(all);
    assert(".app"@.is_suffix_of(dir)) by {
        assert(dir.subrange(x.len() as int, dir.len() as int) =~= ".app"@);
    }
    assert(dir.take(x.len() as int) =~= x);
    let plain = parents.push(x);
    assert forall|k: int| 0 <= k < plain.len() implies !(#[trigger] plain[k]).contains('/') by {
        if k < parents.len() {
            assert(plain[k] == parents[k]);
        }
    }
    paths_split_into_their_components(plain);
}

/// An app goes by its display name, else by its bundle name; its identifier and
/// the system it needs are those that the property list names.
pub proof fn names_are_those_given(d: Map<Seq<char>, PlistView>, x: Seq<char>, y: Seq<char>)
    ensures
        ({
            let m = discovery::metadata(PlistView::Dict(d));
            &&& says(d, "CFBundleDisplayName"@, x) && x.len() > 0 ==> m.name == x
            &&& !speaks(d, "CFBundleDisplayName"@) && says(d, "CFBundleName"@, y) ==> m.name == y
            &&& !speaks(d, "CFBundleDisplayName"@) && !speaks(d, "CFBundleName"@) ==> m.name.len()
                == 0
            &&& says(d, "CFBundleIdentifier"@, x) ==> m.bundle_identifier == x
            &&& !speaks(d, "CFBundleIdentifier"@) ==> m.bundle_identifier.len() == 0
            &&& says(d, "MinimumOSVersion"@, x) && x.len() > 0 ==> m.minimum_os_version == x
            &&& !speaks(d, "MinimumOSVersion"@) && says(d, "LSMinimumSystemVersion"@, y)
                ==> m.minimum_os_version == y
            &&& !speaks(d, "MinimumOSVersion"@) && !speaks(d, "LSMinimumSystemVersion"@)
                ==> m.minimum_os_version.len() == 0
            &&& says(d, "CFBundleExecutable"@, x) ==> m.executable == x
            &&& !speaks(d, "CFBundleExecutable"@) ==> m.executable.len() == 0
            &&& m.icon_png is None
        }),
{
}

// ---- icons ------------------------------------------------------------------

/// Whether `d` maps `key` to an array whose last element is the text `x`.
pub open spec fn ends_with_text(
    d: Map<Seq<char>, PlistView>,
    key: Seq<char>,
    x: Seq<char>,
) -> bool {
    d.contains_key(key) && (d[key] matches PlistView::Array(a) && a.len() > 0 && a.last()
        == PlistView::Text(x))
}

/// Whether `d` maps `key` to an array whose last element is a text.
pub open spec fn ends_with_some_text(d: Map<Seq<char>, PlistView>, key: Seq<char>) -> bool {
    d.contains_key(key) && (d[key] matches PlistView::Array(a) && a.len() > 0 && a.last() is Text)
}

/// The icon is the last file of the primary icon, else the last of the bundle's
/// icon files, else the bundle's one icon file.
pub proof fn primary_icons_come_first(
    d: Map<Seq<char>, PlistView>,
    icons: Map<Seq<char>, PlistView>,
    primary: Map<Seq<char>, PlistView>,
    x: Seq<char>,
)
    ensures
        ({
            let name = discovery::icon_name(PlistView::Dict(d));
            let has_primary = d.contains_key("CFBundleIcons"@) && d["CFBundleIcons"@]
                == PlistView::Dict(icons) && icons.contains_key("CFBundlePrimaryIcon"@)
                && icons["CFBundlePrimaryIcon"@] == PlistView::Dict(primary);
            &&& has_primary && ends_with_text(primary, "CFBundleIconFiles"@, x) ==> name == Some(x)
            &&& !d.contains_key("CFBundleIcons"@) || (has_primary && !ends_with_some_text(
                primary,
                "CFBundleIconFiles"@,
            )) ==> {
                &&& ends_with_text(d, "CFBundleIconFiles"@, x) ==> name == Some(x)
                &&& !ends_with_some_text(d, "CFBundleIconFiles"@) && says(
                    d,
                    "CFBundleIconFile"@,
                    x,
                ) ==> name == Some(x)
                &&& !ends_with_some_text(d, "CFBundleIconFiles"@) && !d.contains_key(
                    "CFBundleIconFile"@,
                ) ==> name is None
            }
        }),
{
}

/// An icon may be named with or without its extension: the retina form is tried
/// first, then the plain one, then the larger one, then the name as it stands,
/// all of them in the bundle's directory.
pub proof fn icons_are_sought_in_the_bundle(dir: Seq<char>, stem: Seq<char>)
    requires
        !".png"@.is_suffix_of(stem),
    ensures
        discovery::icon_paths(dir, Some(stem)) == seq![
            dir + seq!['/'] + stem + "@2x.png"@,
            dir + seq!['/'] + stem + ".png"@,
            dir + seq!['/'] + stem + "@3x.png"@,
            dir + seq!['/'] + stem,
        ],
        discovery::icon_paths(dir, Some(stem + ".png"@)) == seq![
            dir + seq!['/'] + stem + "@2x.png"@,
            dir + seq!['/'] + stem + ".png"@,
            dir + seq!['/'] + stem + "@3x.png"@,
            dir + seq!['/'] + stem + ".png"@,
        ],
        discovery::icon_paths(dir, None).len() == 0,
{
    reveal_strlit("/");
    assert("/"@ =~= seq!['/']);
    reveal_strlit(".png");
    let full = stem + ".png"@;
    assert(full.subrange(stem.len() as int, full.len() as int) =~= ".png"@);
    assert(full.take(full.len() - 4) =~= stem);
    assert(discovery::without_suffix(stem, ".png"@) == stem);
    assert(discovery::without_suffix(full, ".png"@) == stem);
    let a = discovery::icon_paths(dir, Some(stem));
    assert(a[0] =~= dir + seq!['/'] + stem + "@2x.png"@);
    assert(a[1] =~= dir + seq!['/'] + stem + ".png"@);
    assert(a[2] =~= dir + seq!['/'] + stem + "@3x.png"@);
    assert(a[3] =~= dir + seq!['/'] + stem);
    assert(a =~= seq![
        dir + seq!['/'] + stem + "@2x.png"@,
        dir + seq!['/'] + stem + ".png"@,
        dir + seq!['/'] + stem + "@3x.png"@,
        dir + seq!['/'] + stem,
    ]);
    let b = discovery::icon_paths(dir, Some(full));
    assert(b[0] =~= dir + seq!['/'] + stem + "@2x.png"@);
    assert(b[1] =~= dir + seq!['/'] + stem + ".png"@);
    assert(b[2] =~= dir + seq!['/'] + stem + "@3x.png"@);
    assert(b[3] =~= dir + seq!['/'] + stem + ".png"@);
    assert(b =~= seq![
        dir + seq!['/'] + stem + "@2x.png"@,
        dir + seq!['/'] + stem + ".png"@,
        dir + seq!['/'] + stem + "@3x.png"@,
        dir + seq!['/'] + stem + ".png"@,
    ]);
}

// ---- archives ---------------------------------------------------------------

/// The entry `Payload/X.app/Info.plist` makes `Payload/X.app` an app directory,
/// for every `X`, and no other entry makes one.
pub proof fn app_directories_hold_a_property_list(x: Seq<char>, name: Seq<char>)
    ensures
        discovery::bundle_of("Payload/"@ + x + ".app"@ + "/Info.plist"@) == Some(
            "Payload/"@ + x + ".app"@,
        ),
        discovery::bundle_of(name) matches Some(dir) ==> {
            &&& name == dir + "/Info.plist"@
            &&& "Payload/"@.is_prefix_of(dir)
            &&& ".app"@.is_suffix_of(dir)
        },
{
    reveal_strlit("Payload/");
    reveal_strlit(".app");
    reveal_strlit("/Info.plist");
    let dir = "Payload/"@ + x + ".app"@;
    let all = dir + "/Info.plist"@;
    assert(all.take(all.len() - 11) =~= dir);
    assert(all.subrange(dir.len() as int, all.len() as int) =~= "/Info.plist"@);
    assert(dir.subrange(dir.len() - 4, dir.len() as int) =~= ".app"@);
    assert(dir.subrange(0, 8) =~= "Payload/"@);
    if discovery::bundle_of(name) is Some {
        assert(name =~= name.take(name.len() - 11) + name.subrange(
            name.len() - 11,
            name.len() as int,
        ));
    }
}

/// A letter of the alphabet in lower case.
pub open spec fn folded(c: char) -> char {
    if 'A' <= c && c <= 'Z' {
        (c as u32 + 32) as char
    } else {
        c
    }
}

/// A file is an archive if its name ends in `.ipa`, in capitals or not, and
/// something stands before that.
pub proof fn archives_are_known_by_their_extension(stem: Seq<char>, ext: Seq<char>)
    requires
        ext.len() == 4,
    ensures
        discovery::is_ipa(stem + ext) <==> stem.len() > 0 && ext.map_values(|c: char| folded(c))
            == ".ipa"@,
{
    reveal_strlit(".ipa");
    let s = stem + ext;
    let low = ext.map_values(|c: char| folded(c));
    assert(s[s.len() - 4] == ext[0] && s[s.len() - 3] == ext[1] && s[s.len() - 2] == ext[2] && s[
    s.len() - 1] == ext[3]);
    assert(low[0] == folded(ext[0]) && low[1] == folded(ext[1]) && low[2] == folded(ext[2])
        && low[3] == folded(ext[3]));
    if discovery::is_ipa(s) {
        assert(low =~= ".ipa"@);
    }
}

// ---- unpacking --------------------------------------------------------------

/// An entry of the bundle goes to the same place below the destination; it is a
/// directory if its name ends in a separator.
pub proof fn entries_keep_their_place(
    bundle_dir: Seq<char>,
    dest: Seq<char>,
    comps: Seq<Seq<char>>,
)
    requires
        comps.len() > 0,
        all_clean(comps),
        dest.len() > 0,
        dest.last() != '/',
    ensures
        extract::planned(bundle_dir, dest, bundle_dir + seq!['/'] + path_of(comps)) == Ok::<
            Option<ExtractionView>,
            ErrorView,
        >(Some(ExtractionView { path: dest + seq!['/'] + path_of(comps), directory: false })),
        extract::planned(bundle_dir, dest, bundle_dir + seq!['/'] + path_of(comps).push('/'))
            == Ok::<Option<ExtractionView>, ErrorView>(
            Some(
                ExtractionView {
                    path: dest + seq!['/'] + path_of(comps).push('/'),
                    directory: true,
                },
            ),
        ),
        extract::planned(bundle_dir, dest, bundle_dir + seq!['/']) == Ok::<
            Option<ExtractionView>,
            ErrorView,
        >(None),
{
    reveal_strlit("/");
    reveal_strlit("..");
    reveal_strlit("");
    assert("/"@ =~= seq!['/']);
    lemma_ends(comps);
    let p = path_of(comps);
    assert forall|k: int| 0 <= k < comps.len() implies !(#[trigger] comps[k]).contains('/')
        && comps[k] != ".."@ by {
        assert(translate::clean(comps[k]));
    }
    paths_split_into_their_components(comps);
    let more = comps.push(""@);
    assert forall|k: int| 0 <= k < more.len() implies !(#[trigger] more[k]).contains('/') && more[k]
        != ".."@ by {
        if k < comps.len() {
            assert(more[k] == comps[k]);
        } else {
            assert(more[k].len() == 0 && ".."@.len() == 2);
        }
    }
    lemma_trailing(comps);
    paths_split_into_their_components(more);
    let name = bundle_dir + seq!['/'] + p;
    let long = bundle_dir + seq!['/'] + p.push('/');
    let prefix = bundle_dir + "/"@;
    assert(prefix.is_prefix_of(name) && prefix.is_prefix_of(long));
    assert(name.skip(prefix.len() as int) =~= p);
    assert(long.skip(prefix.len() as int) =~= p.push('/'));
    assert(long.subrange(long.len() - 1, long.len() as int) =~= "/"@);
    assert(name.last() == p.last());
    assert(!"/"@.is_suffix_of(name)) by {
        if "/"@.is_suffix_of(name) {
            assert(name.subrange(name.len() - 1, name.len() as int)[0] == '/');
        }
    }
    assert(dest.push('/') + p =~= dest + seq!['/'] + p);
    assert(dest.push('/') + p.push('/') =~= dest + seq!['/'] + p.push('/'));
    assert((bundle_dir + seq!['/']).skip(prefix.len() as int).len() == 0);
}

proof fn lemma_trailing(comps: Seq<Seq<char>>)
    requires
        comps.len() > 0,
    ensures
        path_of(comps.push(""@)) == path_of(comps).push('/'),
    decreases comps.len(),
{
    reveal_strlit("");
    let more = comps.push(""@);
    if comps.len() == 1 {
        assert(more.drop_first() =~= seq![""@]);
        assert(path_of(more) =~= comps[0].push('/') + path_of(seq![""@]));
        assert(path_of(more) =~= comps[0].push('/'));
    } else {
        lemma_trailing(comps.drop_first());
        assert(more.drop_first() =~= comps.drop_first().push(""@));
        assert(path_of(more) =~= path_of(comps).push('/'));
    }
}

proof fn lemma_ends(comps: Seq<Seq<char>>)
    requires
        comps.len() > 0,
        all_clean(comps),
    ensures
        path_of(comps).len() > 0,
        path_of(comps)[0] != '/',
        path_of(comps).last() != '/',
    decreases comps.len(),
{
    let c = comps[0];
    assert(translate::clean(c));
    if c[0] == '/' || c.last() == '/' {
        assert(c.contains('/'));
    }
    if comps.len() > 1 {
        let rest = comps.drop_first();
        assert forall|k: int| 0 <= k < rest.len() implies translate::clean(#[trigger] rest[k]) by {
            assert(rest[k] == comps[k + 1]);
        }
        lemma_ends(rest);
    }
}

/// An entry of the bundle with `..` among its components is refused, and so is
/// one whose place is an absolute path; an entry that is not in the bundle's
/// directory is left alone.
pub proof fn climbing_entries_are_refused(
    bundle_dir: Seq<char>,
    dest: Seq<char>,
    a: Seq<Seq<char>>,
    b: Seq<Seq<char>>,
    rest: Seq<char>,
    name: Seq<char>,
)
    requires
        forall|k: int| 0 <= k < a.len() ==> !(#[trigger] a[k]).contains('/'),
        forall|k: int| 0 <= k < b.len() ==> !(#[trigger] b[k]).contains('/'),
    ensures
        extract::planned(
            bundle_dir,
            dest,
            bundle_dir + seq!['/'] + path_of(a.push(".."@) + b),
        ) is Err,
        extract::planned(bundle_dir, dest, bundle_dir + seq!['/', '/'] + rest) is Err,
        !(bundle_dir + seq!['/']).is_prefix_of(name) ==> extract::planned(bundle_dir, dest, name)
            == Ok::<Option<ExtractionView>, ErrorView>(None),
{
    reveal_strlit("/");
    reveal_strlit("..");
    assert("/"@ =~= seq!['/']);
    let all = a.push(".."@) + b;
    assert forall|k: int| 0 <= k < all.len() implies !(#[trigger] all[k]).contains('/') by {
        if k < a.len() {
            assert(all[k] == a[k]);
        } else if k > a.len() {
            assert(all[k] == b[k - a.len() - 1]);
        }
    }
    paths_split_into_their_components(all);
    assert(all[a.len() as int] == ".."@);
    assert(path_of(all).len() > 0);
    let prefix = bundle_dir + "/"@;
    let n = prefix + path_of(all);
    assert(prefix.is_prefix_of(n));
    assert(n.skip(prefix.len() as int) =~= path_of(all));
    let m = bundle_dir + seq!['/', '/'] + rest;
    assert(prefix.is_prefix_of(m));
    assert(m.skip(prefix.len() as int)[0] == '/');
}

// ---- listing ----------------------------------------------------------------

/// Texts are ordered by the first character that differs, and a text comes
/// before those that go on behind it.
pub proof fn texts_are_ordered_by_the_first_difference(
    p: Seq<char>,
    a: char,
    b: char,
    x: Seq<char>,
    y: Seq<char>,
)
    ensures
        (a as int) < (b as int) ==> text::less(p.push(a) + x, p.push(b) + y) && !text::less(
            p.push(b) + y,
            p.push(a) + x,
        ),
        text::less(p, p.push(a) + x),
        !text::less(p.push(a) + x, p),
    decreases p.len(),
{
    if p.len() > 0 {
        let q = p.drop_first();
        texts_are_ordered_by_the_first_difference(q, a, b, x, y);
        assert((p.push(a) + x).drop_first() =~= q.push(a) + x);
        assert((p.push(b) + y).drop_first() =~= q.push(b) + y);
    }
}

/// A path is as deep as it has separators.
pub proof fn depths_count_separators(comps: Seq<Seq<char>>)
    requires
        comps.len() > 0,
        forall|k: int| 0 <= k < comps.len() ==> !(#[trigger] comps[k]).contains('/'),
    ensures
        discovery::depth(path_of(comps)) == comps.len() - 1,
    decreases comps.len(),
{
    let c = comps[0];
    lemma_flat(c);
    if comps.len() > 1 {
        let rest = comps.drop_first();
        assert forall|k: int| 0 <= k < rest.len() implies !(#[trigger] rest[k]).contains('/') by {
            assert(rest[k] == comps[k + 1]);
        }
        depths_count_separators(rest);
        lemma_depth_cat(c.push('/'), path_of(rest));
        assert(c.push('/').drop_last() =~= c);
    }
}

proof fn lemma_flat(c: Seq<char>)
    requires
        !c.contains('/'),
    ensures
        discovery::depth(c) == 0,
    decreases c.len(),
{
    if c.len() > 0 {
        assert(c[c.len() - 1] != '/');
        let d = c.drop_last();
        assert(!d.contains('/')) by {
            if d.contains('/') {
                let k = choose|k: int| 0 <= k < d.len() && d[k] == '/';
                assert(c[k] == '/');
            }
        }
        lemma_flat(d);
    }
}

proof fn lemma_depth_cat(a: Seq<char>, b: Seq<char>)
    ensures
        discovery::depth(a + b) == discovery::depth(a) + discovery::depth(b),
    decreases b.len(),
{
    if b.len() == 0 {
        assert(a + b =~= a);
    } else {
        assert((a + b).drop_last() =~= a + b.drop_last());
        lemma_depth_cat(a, b.drop_last());
    }
}

/// What a front end is told of an app is what its bundle says.
pub proof fn apps_are_told_as_found(b: BundleView)
    ensures
        ({
            let a = session::app_of(b);
            &&& a.name == b.metadata.name
            &&& a.bundle_identifier == b.metadata.bundle_identifier
            &&& a.minimum_os_version == b.metadata.minimum_os_version
            &&& a.ipa_path == b.ipa_path
            &&& a.icon_png == b.metadata.icon_png
        }),
{
}

} // verus!
