//! Locating the app bundle of an archive and describing it.
//!
//! An `.ipa` is a zip archive whose payload lives under `Payload/<App>.app/`.
//! Opening archives and reading their entries is left to the caller; what to
//! read, and what to make of it, is decided here.

use vstd::prelude::*;

use crate::common::error;
use crate::common::error::{EmuError, EmuResult, ErrorView};
use crate::ipa::plist;
use crate::ipa::plist::{PlistValue, PlistView};
use crate::text;

verus! {

// ---- types ------------------------------------------------------------------

/// Display metadata for one app, sufficient to render a grid tile.
#[derive(Clone, Debug, Default)]
pub struct AppMetadata {
    pub name: String,
    pub bundle_identifier: String,
    pub minimum_os_version: String,
    pub executable: String,
    /// Raw icon bytes (PNG), if one was found in the bundle.
    pub icon_png: Option<Vec<u8>>,
}

/// Mathematical view of [`AppMetadata`].
#[verifier::ext_equal]
pub struct MetadataView {
    pub name: Seq<char>,
    pub bundle_identifier: Seq<char>,
    pub minimum_os_version: Seq<char>,
    pub executable: Seq<char>,
    pub icon_png: Option<Seq<u8>>,
}

/// The view of optional bytes.
pub open spec fn maybe_bytes(b: Option<Vec<u8>>) -> Option<Seq<u8>> {
    match b {
        Some(v) => Some(v@),
        None => None,
    }
}

impl View for AppMetadata {
    type V = MetadataView;

    open spec fn view(&self) -> MetadataView {
        MetadataView {
            name: self.name@,
            bundle_identifier: self.bundle_identifier@,
            minimum_os_version: self.minimum_os_version@,
            executable: self.executable@,
            icon_png: maybe_bytes(self.icon_png),
        }
    }
}

/// A discovered archive, with metadata and the archive-relative paths that a
/// launcher needs to unpack and boot it.
#[derive(Clone, Debug)]
pub struct IpaBundle {
    /// Path of the archive on the host.
    pub ipa_path: String,
    /// Archive-relative directory of the `.app` (e.g. `Payload/Demo.app`).
    pub bundle_dir: String,
    /// Archive-relative path of the executable.
    pub executable_path: String,
    pub metadata: AppMetadata,
}

/// Mathematical view of [`IpaBundle`].
#[verifier::ext_equal]
pub struct BundleView {
    pub ipa_path: Seq<char>,
    pub bundle_dir: Seq<char>,
    pub executable_path: Seq<char>,
    pub metadata: MetadataView,
}

impl View for IpaBundle {
    type V = BundleView;

    open spec fn view(&self) -> BundleView {
        BundleView {
            ipa_path: self.ipa_path@,
            bundle_dir: self.bundle_dir@,
            executable_path: self.executable_path@,
            metadata: self.metadata@,
        }
    }
}

// ---- the bundle directory ---------------------------------------------------

/// The app directory whose property list the archive entry `name` is, if it is
/// one under `Payload/`.
pub open spec fn bundle_of(name: Seq<char>) -> Option<Seq<char>> {
    let dir = name.take(name.len() - 11);
    if "/Info.plist"@.is_suffix_of(name) && ".app"@.is_suffix_of(dir) && "Payload/"@.is_prefix_of(
        dir,
    ) {
        Some(dir)
    } else {
        None
    }
}

/// How many separators a path holds.
pub open spec fn depth(path: Seq<char>) -> nat
    decreases path.len(),
{
    if path.len() == 0 {
        0
    } else {
        depth(path.drop_last()) + if path.last() == '/' {
            1nat
        } else {
            0nat
        }
    }
}

/// The shallowest app directory of an archive with the entries `names`; of
/// equally shallow ones the first.
pub open spec fn main_bundle(names: Seq<Seq<char>>) -> Option<Seq<char>>
    decreases names.len(),
{
    if names.len() == 0 {
        None
    } else {
        match (main_bundle(names.drop_last()), bundle_of(names.last())) {
            (best, None) => best,
            (None, found) => found,
            (Some(best), Some(found)) => if depth(found) < depth(best) {
                Some(found)
            } else {
                Some(best)
            },
        }
    }
}

fn depth_of(s: &[char]) -> (r: usize)
    ensures
        r == depth(s@),
{
    let mut i: usize = 0;
    let mut n: usize = 0;
    assert(s.len() == s@.len());
    assert(s@.take(0) =~= Seq::<char>::empty());
    while i < s.len()
        invariant
            i <= s@.len() <= usize::MAX,
            n <= i,
            n == depth(s@.take(i as int)),
        decreases s@.len() - i,
    {
        assert(s@.take(i + 1).drop_last() =~= s@.take(i as int));
        if s[i] == '/' {
            n += 1;
        }
        i += 1;
    }
    assert(s@.take(i as int) =~= s@);
    n
}

fn bundle_dir_of(name: &str) -> (r: Option<String>)
    ensures
        match r {
            Some(d) => bundle_of(name@) == Some(d@),
            None => bundle_of(name@) is None,
        },
{
    proof {
        reveal_strlit("/Info.plist");
    }
    if !text::ends_with(name, "/Info.plist") {
        return None;
    }
    let n = text::chars(name);
    let dir = text::string_of(&n, 0, n.len() - 11);
    assert(dir@ =~= name@.take(name@.len() - 11));
    if text::ends_with(dir.as_str(), ".app") && text::starts_with(dir.as_str(), "Payload/") {
        Some(dir)
    } else {
        None
    }
}

/// Locate the app directory of an archive with the entries `names`. Nested
/// `.app`s (plugins, extensions) do not shadow the main bundle.
pub fn find_bundle_dir(names: &[String]) -> (r: EmuResult<String>)
    ensures
        error::outcome(r) == (match main_bundle(text::texts(names@)) {
            Some(dir) => Ok(dir),
            None => Err(ErrorView::Archive("no Payload/*.app/Info.plist found"@)),
        }),
{
    let mut best: Option<String> = None;
    let mut i: usize = 0;
    let ghost all = text::texts(names@);
    assert(all.take(0) =~= Seq::<Seq<char>>::empty());
    while i < names.len()
        invariant
            i <= names@.len(),
            all == text::texts(names@),
            match best {
                Some(b) => main_bundle(all.take(i as int)) == Some(b@),
                None => main_bundle(all.take(i as int)) is None,
            },
        decreases names@.len() - i,
    {
        proof {
            assert(all.take(i + 1).drop_last() =~= all.take(i as int));
            assert(all.take(i + 1).last() == names@[i as int]@);
        }
        if let Some(dir) = bundle_dir_of(names[i].as_str()) {
            let take = match &best {
                None => true,
                Some(b) => {
                    let d = text::chars(dir.as_str());
                    let c = text::chars(b.as_str());
                    depth_of(&d) < depth_of(&c)
                },
            };
            if take {
                best = Some(dir);
            }
        }
        i += 1;
    }
    assert(all.take(i as int) =~= all);
    match best {
        Some(dir) => Ok(dir),
        None => Err(EmuError::Archive("no Payload/*.app/Info.plist found".to_owned())),
    }
}

/// A bundle is found exactly if some entry is an app's property list; the one
/// found belongs to an entry, no other is shallower, and none before it is as
/// shallow.
pub proof fn main_bundle_is_shallowest(names: Seq<Seq<char>>)
    ensures
        match main_bundle(names) {
            None => forall|j: int| 0 <= j < names.len() ==> bundle_of(#[trigger] names[j]) is None,
            Some(dir) => exists|i: int|
                {
                    &&& 0 <= i < names.len()
                    &&& bundle_of(#[trigger] names[i]) == Some(dir)
                    &&& forall|j: int|
                        0 <= j < names.len() ==> (bundle_of(#[trigger] names[j]) matches Some(d)
                            ==> depth(dir) <= depth(d) && (j < i ==> depth(dir) < depth(d)))
                },
        },
    decreases names.len(),
{
    if names.len() > 0 {
        let front = names.drop_last();
        main_bundle_is_shallowest(front);
        let n = names.len() - 1;
        assert(forall|j: int| 0 <= j < n ==> #[trigger] names[j] == front[j]);
        match main_bundle(front) {
            None => {
                if let Some(found) = bundle_of(names[n]) {
                    assert forall|j: int| 0 <= j < names.len() implies (bundle_of(
                        #[trigger] names[j],
                    ) matches Some(d) ==> depth(found) <= depth(d) && (j < n ==> depth(found)
                        < depth(d))) by {
                        if j < n {
                            assert(bundle_of(front[j]) is None);
                        }
                    }
                } else {
                    assert forall|j: int| 0 <= j < names.len() implies bundle_of(
                        #[trigger] names[j],
                    ) is None by {
                        if j < n {
                            assert(bundle_of(front[j]) is None);
                        }
                    }
                }
            },
            Some(best) => {
                let i = choose|i: int|
                    {
                        &&& 0 <= i < front.len()
                        &&& bundle_of(#[trigger] front[i]) == Some(best)
                        &&& forall|j: int|
                            0 <= j < front.len() ==> (bundle_of(#[trigger] front[j]) matches Some(d)
                                ==> depth(best) <= depth(d) && (j < i ==> depth(best) < depth(d)))
                    };
                let dir = main_bundle(names)->0;
                let k = if dir == best && !(bundle_of(names[n]) matches Some(f) && depth(f)
                    < depth(best)) {
                    i
                } else {
                    n
                };
                assert(bundle_of(names[k]) == Some(dir));
                assert forall|j: int| 0 <= j < names.len() implies (bundle_of(
                    #[trigger] names[j],
                ) matches Some(d) ==> depth(dir) <= depth(d) && (j < k ==> depth(dir) < depth(d))) by {
                    if j < n {
                        assert(names[j] == front[j]);
                    }
                }
            },
        }
    }
}

// ---- metadata ---------------------------------------------------------------

/// The text under `key`, or nothing.
pub open spec fn text_at(p: PlistView, key: Seq<char>) -> Seq<char> {
    match p.entry(key) {
        Some(v) => match v.text() {
            Some(s) => s,
            None => seq![],
        },
        None => seq![],
    }
}

/// The text under `key`, or that under `other` if there is none.
pub open spec fn text_or(p: PlistView, key: Seq<char>, other: Seq<char>) -> Seq<char> {
    let s = text_at(p, key);
    if s.len() == 0 {
        text_at(p, other)
    } else {
        s
    }
}

/// The metadata in an app's property list. The display name is preferred to the
/// bundle name.
pub open spec fn metadata(p: PlistView) -> MetadataView {
    MetadataView {
        name: text_or(p, "CFBundleDisplayName"@, "CFBundleName"@),
        bundle_identifier: text_at(p, "CFBundleIdentifier"@),
        minimum_os_version: text_or(p, "MinimumOSVersion"@, "LSMinimumSystemVersion"@),
        executable: text_at(p, "CFBundleExecutable"@),
        icon_png: None,
    }
}

fn string_at(p: &PlistValue, key: &str) -> (r: String)
    ensures
        r@ == text_at(p@, key@),
{
    match p.get(key) {
        Some(v) => match v.as_str() {
            Some(s) => s.to_owned(),
            None => String::new(),
        },
        None => String::new(),
    }
}

fn is_empty(s: &str) -> (r: bool)
    ensures
        r == (s@.len() == 0),
{
    let v = text::chars(s);
    v.len() == 0
}

fn string_or(p: &PlistValue, key: &str, other: &str) -> (r: String)
    ensures
        r@ == text_or(p@, key@, other@),
{
    let s = string_at(p, key);
    if is_empty(s.as_str()) {
        string_at(p, other)
    } else {
        s
    }
}

/// Collect the metadata of an app.
pub fn metadata_from_plist(p: &PlistValue) -> (r: AppMetadata)
    ensures
        r@ == metadata(p@),
{
    AppMetadata {
        name: string_or(p, "CFBundleDisplayName", "CFBundleName"),
        bundle_identifier: string_at(p, "CFBundleIdentifier"),
        minimum_os_version: string_or(p, "MinimumOSVersion", "LSMinimumSystemVersion"),
        executable: string_at(p, "CFBundleExecutable"),
        icon_png: None,
    }
}

// ---- icons ------------------------------------------------------------------

/// The entry `key` of an optional node.
pub open spec fn child(p: Option<PlistView>, key: Seq<char>) -> Option<PlistView> {
    match p {
        Some(v) => v.entry(key),
        None => None,
    }
}

/// The text of the last element of an optional array node.
pub open spec fn last_text(p: Option<PlistView>) -> Option<Seq<char>> {
    match p {
        Some(v) => match v.items() {
            Some(a) => if a.len() > 0 {
                a.last().text()
            } else {
                None
            },
            None => None,
        },
        None => None,
    }
}

/// The primary icon's file name: the last of the primary icon's files, else the
/// last of the bundle's icon files, else the bundle's icon file.
pub open spec fn icon_name(p: PlistView) -> Option<Seq<char>> {
    let primary = child(
        child(p.entry("CFBundleIcons"@), "CFBundlePrimaryIcon"@),
        "CFBundleIconFiles"@,
    );
    match (last_text(primary), last_text(p.entry("CFBundleIconFiles"@))) {
        (Some(name), _) => Some(name),
        (None, Some(name)) => Some(name),
        (None, None) => match p.entry("CFBundleIconFile"@) {
            Some(v) => v.text(),
            None => None,
        },
    }
}

fn child_of<'a>(p: Option<&'a PlistValue>, key: &str) -> (r: Option<&'a PlistValue>)
    ensures
        plist::maybe(r) == child(plist::maybe(p), key@),
{
    match p {
        Some(v) => v.get(key),
        None => None,
    }
}

/// The view of an optional string.
pub open spec fn maybe_text(s: Option<String>) -> Option<Seq<char>> {
    match s {
        Some(t) => Some(t@),
        None => None,
    }
}

fn text_of(p: Option<&PlistValue>) -> (r: Option<String>)
    ensures
        maybe_text(r) == (match plist::maybe(p) {
            Some(v) => v.text(),
            None => None,
        }),
{
    match p {
        Some(v) => match v.as_str() {
            Some(s) => Some(s.to_owned()),
            None => None,
        },
        None => None,
    }
}

fn last_string(p: Option<&PlistValue>) -> (r: Option<String>)
    ensures
        maybe_text(r) == last_text(plist::maybe(p)),
{
    match p {
        Some(v) => match v.as_array() {
            Some(a) => {
                proof {
                    plist::lemma_item_views(a@);
                }
                if a.len() > 0 {
                    text_of(Some(&a[a.len() - 1]))
                } else {
                    None
                }
            },
            None => None,
        },
        None => None,
    }
}

/// Resolve the primary icon's file name from the schemes iOS has used.
pub fn pick_icon_name(p: &PlistValue) -> (r: Option<String>)
    ensures
        maybe_text(r) == icon_name(p@),
{
    let icons = p.get("CFBundleIcons");
    let primary = child_of(icons, "CFBundlePrimaryIcon");
    let first = last_string(child_of(primary, "CFBundleIconFiles"));
    if first.is_some() {
        return first;
    }
    let second = last_string(p.get("CFBundleIconFiles"));
    if second.is_some() {
        return second;
    }
    text_of(p.get("CFBundleIconFile"))
}

/// `s` without any `suffix` at its end.
pub open spec fn without_suffix(s: Seq<char>, suffix: Seq<char>) -> Seq<char>
    decreases s.len(),
{
    if suffix.len() > 0 && suffix.is_suffix_of(s) {
        without_suffix(s.take(s.len() - suffix.len()), suffix)
    } else {
        s
    }
}

/// The file names to try for the icon `base`: the retina form first.
pub open spec fn icon_files(base: Seq<char>) -> Seq<Seq<char>> {
    let stem = without_suffix(base, ".png"@);
    seq![stem + "@2x.png"@, stem + ".png"@, stem + "@3x.png"@, base]
}

fn strip_png(base: &str) -> (r: String)
    ensures
        r@ == without_suffix(base@, ".png"@),
{
    let mut s = base.to_owned();
    let mut n: usize = text::chars(base).len();
    proof {
        reveal_strlit(".png");
    }
    while text::ends_with(s.as_str(), ".png")
        invariant
            ".png"@.len() == 4,
            n == s@.len(),
            without_suffix(base@, ".png"@) == without_suffix(s@, ".png"@),
        decreases n,
    {
        let v = text::chars(s.as_str());
        let t = text::string_of(&v, 0, n - 4);
        assert(t@ =~= s@.take(s@.len() - 4));
        s = t;
        n -= 4;
    }
    s
}

/// The file names to try for the icon `base`. Property lists drop the extension
/// and the `@2x` suffix.
pub fn icon_candidates(base: &str) -> (r: Vec<String>)
    ensures
        text::texts(r@) == icon_files(base@),
{
    let stem = strip_png(base);
    let r = vec![
        text::cat(stem.as_str(), "@2x.png"),
        text::cat(stem.as_str(), ".png"),
        text::cat(stem.as_str(), "@3x.png"),
        base.to_owned(),
    ];
    assert(text::texts(r@) =~= icon_files(base@));
    r
}

// ---- inspection -------------------------------------------------------------

/// The executable's name where the property list gives none: that of the app
/// directory without `.app`.
pub open spec fn executable_of(bundle_dir: Seq<char>) -> Seq<char> {
    let last = text::split(bundle_dir, '/').last();
    if ".app"@.is_suffix_of(last) {
        last.take(last.len() - 4)
    } else {
        "App"@
    }
}

/// The executable's name where the property list gives none.
pub fn default_executable_name(bundle_dir: &str) -> (r: String)
    ensures
        r@ == executable_of(bundle_dir@),
{
    proof {
        reveal_strlit(".app");
    }
    let pieces = text::split_at(bundle_dir, '/');
    assert(text::split(bundle_dir@, '/').len() > 0);
    let last = &pieces[pieces.len() - 1];
    assert(last@ == text::texts(pieces@).last());
    if text::ends_with(last.as_str(), ".app") {
        let v = text::chars(last.as_str());
        let r = text::string_of(&v, 0, v.len() - 4);
        assert(r@ =~= last@.take(last@.len() - 4));
        r
    } else {
        "App".to_owned()
    }
}

/// The archive entry that describes the bundle.
pub fn info_path(bundle_dir: &str) -> (r: String)
    ensures
        r@ == bundle_dir@ + "/Info.plist"@,
{
    text::cat(bundle_dir, "/Info.plist")
}

/// A described bundle whose icon is still being looked for.
#[derive(Debug)]
pub struct Inspection {
    pub bundle: IpaBundle,
    /// The archive entries that may hold the icon, best first.
    pub icons: Vec<String>,
}

/// Mathematical view of [`Inspection`].
#[verifier::ext_equal]
pub struct InspectionView {
    pub bundle: BundleView,
    pub icons: Seq<Seq<char>>,
}

impl View for Inspection {
    type V = InspectionView;

    open spec fn view(&self) -> InspectionView {
        InspectionView { bundle: self.bundle@, icons: text::texts(self.icons@) }
    }
}

/// The archive entries that may hold the icon `name`.
pub open spec fn icon_paths(bundle_dir: Seq<char>, name: Option<Seq<char>>) -> Seq<Seq<char>> {
    match name {
        Some(n) => icon_files(n).map_values(|f: Seq<char>| bundle_dir + "/"@ + f),
        None => seq![],
    }
}

/// The bundle that the property list `p` describes.
pub open spec fn described(ipa_path: Seq<char>, bundle_dir: Seq<char>, p: PlistView) -> InspectionView {
    let m = metadata(p);
    let executable = if m.executable.len() == 0 {
        executable_of(bundle_dir)
    } else {
        m.executable
    };
    InspectionView {
        bundle: BundleView {
            ipa_path,
            bundle_dir,
            executable_path: bundle_dir + "/"@ + executable,
            metadata: MetadataView { executable, ..m },
        },
        icons: icon_paths(bundle_dir, icon_name(p)),
    }
}

/// What the bytes `info` of the bundle's property list (or their absence) say of
/// the bundle.
pub open spec fn inspected(
    ipa_path: Seq<char>,
    bundle_dir: Seq<char>,
    info: Option<Seq<u8>>,
) -> Result<InspectionView, ErrorView> {
    match info {
        None => Err(ErrorView::Archive("missing "@ + (bundle_dir + "/Info.plist"@))),
        Some(b) => match plist::document(b) {
            Err(e) => Err(ErrorView::Plist(e.message())),
            Ok(p) => Ok(described(ipa_path, bundle_dir, p)),
        },
    }
}

fn icon_entries(bundle_dir: &str, name: Option<String>) -> (r: Vec<String>)
    ensures
        text::texts(r@) == icon_paths(bundle_dir@, maybe_text(name)),
{
    match name {
        None => {
            let r: Vec<String> = Vec::new();
            assert(text::texts(r@) =~= seq![]);
            r
        },
        Some(n) => {
            let files = icon_candidates(n.as_str());
            let mut r: Vec<String> = Vec::new();
            let mut i: usize = 0;
            let ghost goal = icon_paths(bundle_dir@, Some(n@));
            while i < files.len()
                invariant
                    i <= files@.len(),
                    text::texts(files@) == icon_files(n@),
                    goal == icon_files(n@).map_values(|f: Seq<char>| bundle_dir@ + "/"@ + f),
                    r@.len() == i,
                    forall|k: int| 0 <= k < i ==> #[trigger] r@[k]@ == goal[k],
                decreases files@.len() - i,
            {
                assert(text::texts(files@)[i as int] == files@[i as int]@);
                r.push(text::cat3(bundle_dir, "/", files[i].as_str()));
                i += 1;
            }
            assert(text::texts(r@) =~= goal);
            r
        },
    }
}

/// Describe the bundle at `bundle_dir` from its property list, if the archive
/// has one.
pub fn inspect(ipa_path: &str, bundle_dir: &str, info: Option<&[u8]>) -> (r: EmuResult<Inspection>)
    ensures
        error::outcome(r) == inspected(
            ipa_path@,
            bundle_dir@,
            match info {
                Some(b) => Some(b@),
                None => None,
            },
        ),
{
    match info {
        None => {
            let path = info_path(bundle_dir);
            Err(EmuError::Archive(text::cat("missing ", path.as_str())))
        },
        Some(b) => match plist::parse(b) {
            Err(e) => Err(EmuError::Plist(e.message())),
            Ok(p) => {
                let mut metadata = metadata_from_plist(&p);
                if is_empty(metadata.executable.as_str()) {
                    metadata.executable = default_executable_name(bundle_dir);
                }
                let executable_path = text::cat3(bundle_dir, "/", metadata.executable.as_str());
                let icons = icon_entries(bundle_dir, pick_icon_name(&p));
                let bundle = IpaBundle {
                    ipa_path: ipa_path.to_owned(),
                    bundle_dir: bundle_dir.to_owned(),
                    executable_path,
                    metadata,
                };
                Ok(Inspection { bundle, icons })
            },
        },
    }
}

impl InspectionView {
    /// After the next candidate was read: a hit is the icon and ends the search,
    /// a miss leaves the other candidates.
    pub open spec fn read(self, found: Option<Seq<u8>>) -> InspectionView {
        match found {
            Some(b) => InspectionView {
                bundle: BundleView {
                    metadata: MetadataView { icon_png: Some(b), ..self.bundle.metadata },
                    ..self.bundle
                },
                icons: seq![],
            },
            None => InspectionView { icons: self.icons.drop_first(), ..self },
        }
    }

    /// The whole search in an archive with the readable entries `archive`.
    pub open spec fn searched(self, archive: Map<Seq<char>, Seq<u8>>) -> InspectionView
        decreases self.icons.len(),
    {
        if self.icons.len() == 0 {
            self
        } else if archive.dom().contains(self.icons[0]) {
            self.read(Some(archive[self.icons[0]]))
        } else {
            self.read(None).searched(archive)
        }
    }
}

impl Inspection {
    /// The archive entry to try next.
    pub fn next_icon(&self) -> (r: Option<&str>)
        ensures
            r is Some <==> self@.icons.len() > 0,
            r matches Some(s) ==> s@ == self@.icons[0],
    {
        if self.icons.len() > 0 {
            Some(self.icons[0].as_str())
        } else {
            None
        }
    }

    /// Hand in what the entry held. A missing or unreadable icon is no failure.
    pub fn icon_read(&mut self, found: Option<Vec<u8>>)
        requires
            old(self)@.icons.len() > 0,
        ensures
            final(self)@ == old(self)@.read(maybe_bytes(found)),
    {
        match found {
            Some(b) => {
                self.bundle.metadata.icon_png = Some(b);
                self.icons = Vec::new();
                assert(text::texts(self.icons@) =~= seq![]);
            },
            None => {
                let ghost icons = self.icons@;
                let _first = self.icons.remove(0);
                assert(text::texts(self.icons@) =~= text::texts(icons).drop_first());
            },
        }
    }
}

/// The icon is the first candidate that the archive holds; without one the
/// bundle is described all the same.
pub proof fn first_present_icon_wins(i: InspectionView, archive: Map<Seq<char>, Seq<u8>>)
    ensures
        i.searched(archive).icons.len() == 0,
        forall|k: int|
            #![trigger i.icons[k]]
            0 <= k < i.icons.len() && archive.dom().contains(i.icons[k]) && (forall|j: int|
                0 <= j < k ==> !archive.dom().contains(#[trigger] i.icons[j]))
                ==> i.searched(archive).bundle == (BundleView {
                metadata: MetadataView {
                    icon_png: Some(archive[i.icons[k]]),
                    ..i.bundle.metadata
                },
                ..i.bundle
            }),
        (forall|k: int| 0 <= k < i.icons.len() ==> !archive.dom().contains(#[trigger] i.icons[k]))
            ==> i.searched(archive).bundle == i.bundle,
    decreases i.icons.len(),
{
    if i.icons.len() > 0 && !archive.dom().contains(i.icons[0]) {
        let rest = i.read(None);
        first_present_icon_wins(rest, archive);
        assert(forall|k: int| 0 <= k < rest.icons.len() ==> #[trigger] rest.icons[k] == i.icons[k
            + 1]);
        assert forall|k: int|
            #![trigger i.icons[k]]
            0 <= k < i.icons.len() && archive.dom().contains(i.icons[k]) && (forall|j: int|
                0 <= j < k ==> !archive.dom().contains(
                    #[trigger] i.icons[j],
                )) implies i.searched(archive).bundle == (BundleView {
            metadata: MetadataView { icon_png: Some(archive[i.icons[k]]), ..i.bundle.metadata },
            ..i.bundle
        }) by {
            assert(rest.icons[k - 1] == i.icons[k]);
        }
        if forall|k: int| 0 <= k < i.icons.len() ==> !archive.dom().contains(#[trigger] i.icons[k]) {
            assert forall|k: int| 0 <= k < rest.icons.len() implies !archive.dom().contains(
                #[trigger] rest.icons[k],
            ) by {
                assert(!archive.dom().contains(i.icons[k + 1]));
            }
        }
    }
}

// ---- listing ----------------------------------------------------------------

/// Whether a file name ends in `.ipa`, in any case, after at least one character.
pub open spec fn is_ipa(name: Seq<char>) -> bool {
    let n = name.len() as int;
    &&& n >= 5
    &&& name[n - 4] == '.'
    &&& name[n - 3] == 'i' || name[n - 3] == 'I'
    &&& name[n - 2] == 'p' || name[n - 2] == 'P'
    &&& name[n - 1] == 'a' || name[n - 1] == 'A'
}

/// Whether the file `name` is an archive to list.
pub fn is_ipa_name(name: &str) -> (r: bool)
    ensures
        r == is_ipa(name@),
{
    let v = text::chars(name);
    let n: usize = v.len();
    n >= 5 && v[n - 4] == '.' && (v[n - 3] == 'i' || v[n - 3] == 'I') && (v[n - 2] == 'p' || v[n
        - 2] == 'P') && (v[n - 1] == 'a' || v[n - 1] == 'A')
}

/// What bundles are listed by: their names in lower case.
pub open spec fn sort_key(b: BundleView) -> Seq<char> {
    text::lowercase(b.metadata.name)
}

/// The views of a list of bundles.
pub open spec fn bundle_views(v: Seq<IpaBundle>) -> Seq<BundleView> {
    v.map_values(|b: IpaBundle| b@)
}

/// Whether no bundle stands before one with a smaller key.
pub open spec fn in_order(v: Seq<BundleView>) -> bool {
    forall|i: int, j: int|
        0 <= i < j < v.len() ==> !text::less(sort_key(#[trigger] v[j]), sort_key(#[trigger] v[i]))
}

/// The bundles with the key `k`, in the order in which they stand.
pub open spec fn with_key(v: Seq<BundleView>, k: Seq<char>) -> Seq<BundleView>
    decreases v.len(),
{
    if v.len() == 0 {
        seq![]
    } else if sort_key(v.last()) == k {
        with_key(v.drop_last(), k).push(v.last())
    } else {
        with_key(v.drop_last(), k)
    }
}

/// `with_key` distributes over concatenation.
proof fn lemma_with_key_cat(a: Seq<BundleView>, b: Seq<BundleView>, k: Seq<char>)
    ensures
        with_key(a + b, k) == with_key(a, k) + with_key(b, k),
    decreases b.len(),
{
    if b.len() == 0 {
        assert(a + b =~= a);
        assert(with_key(a, k) + with_key(b, k) =~= with_key(a, k));
    } else {
        assert((a + b).drop_last() =~= a + b.drop_last());
        lemma_with_key_cat(a, b.drop_last(), k);
        assert(with_key(a, k) + with_key(b, k) =~= if sort_key(b.last()) == k {
            (with_key(a, k) + with_key(b.drop_last(), k)).push(b.last())
        } else {
            with_key(a, k) + with_key(b.drop_last(), k)
        });
    }
}

/// Where no bundle has the key, none is found.
proof fn lemma_with_key_none(v: Seq<BundleView>, k: Seq<char>)
    requires
        forall|i: int| 0 <= i < v.len() ==> sort_key(#[trigger] v[i]) != k,
    ensures
        with_key(v, k).len() == 0,
    decreases v.len(),
{
    if v.len() > 0 {
        assert(sort_key(v[v.len() - 1]) != k);
        lemma_with_key_none(v.drop_last(), k);
    }
}

/// Putting `b` behind every bundle whose key is not larger keeps the order and
/// appends `b` to the bundles with its key.
proof fn lemma_placed(v: Seq<BundleView>, at: int, b: BundleView)
    requires
        in_order(v),
        0 <= at <= v.len(),
        at > 0 ==> !text::less(sort_key(b), sort_key(v[at - 1])),
        forall|i: int| at <= i < v.len() ==> text::less(sort_key(b), sort_key(#[trigger] v[i])),
    ensures
        in_order(v.insert(at, b)),
        forall|k: Seq<char>| #[trigger]
            with_key(v.insert(at, b), k) == with_key(v.push(b), k),
{
    let w = v.insert(at, b);
    let kb = sort_key(b);
    assert forall|i: int| 0 <= i < at implies !text::less(kb, sort_key(#[trigger] v[i])) by {
        if i < at - 1 {
            let m = sort_key(v[at - 1]);
            let e = sort_key(v[i]);
            assert(!text::less(m, e));
            if text::less(kb, e) {
                text::lemma_less_total(kb, m);
                text::lemma_less_total(m, e);
                if m != kb {
                    text::lemma_less_transitive(m, kb, e);
                }
            }
        }
    }
    assert forall|i: int, j: int| 0 <= i < j < w.len() implies !text::less(
        sort_key(#[trigger] w[j]),
        sort_key(#[trigger] w[i]),
    ) by {
        if i < at && j == at {
            assert(w[i] == v[i]);
        } else if i == at {
            assert(w[j] == v[j - 1]);
            text::lemma_less_total(kb, sort_key(v[j - 1]));
        } else if i < at && j < at {
            assert(w[i] == v[i] && w[j] == v[j]);
        } else if i < at {
            assert(w[i] == v[i] && w[j] == v[j - 1]);
        } else {
            assert(w[i] == v[i - 1] && w[j] == v[j - 1]);
        }
    }
    let a = v.take(at);
    let c = v.skip(at);
    assert forall|k: Seq<char>| #[trigger] with_key(w, k) == with_key(v.push(b), k) by {
        assert(w =~= a + (seq![b] + c));
        assert(v =~= a + c);
        lemma_with_key_cat(a, seq![b] + c, k);
        lemma_with_key_cat(seq![b], c, k);
        lemma_with_key_cat(a, c, k);
        assert(v.push(b).drop_last() =~= v);
        assert(seq![b].drop_last() =~= Seq::<BundleView>::empty());
        let one: Seq<BundleView> = if kb == k {
            seq![b]
        } else {
            seq![]
        };
        reveal_with_fuel(with_key, 2);
        assert(with_key(seq![b], k) =~= one);
        if kb == k {
            assert forall|i: int| 0 <= i < c.len() implies sort_key(#[trigger] c[i]) != k by {
                assert(c[i] == v[at + i]);
                text::lemma_less_irreflexive(kb);
            }
            lemma_with_key_none(c, k);
            assert(with_key(w, k) =~= with_key(v.push(b), k));
        } else {
            assert(with_key(w, k) =~= with_key(v.push(b), k));
        }
    }
}

/// Sort bundles by name, case-insensitively; bundles of the same name keep their
/// order.
pub fn sort_bundles(bundles: Vec<IpaBundle>) -> (r: Vec<IpaBundle>)
    ensures
        in_order(bundle_views(r@)),
        forall|k: Seq<char>| #[trigger]
            with_key(bundle_views(r@), k) == with_key(bundle_views(bundles@), k),
{
    let mut rest = bundles;
    let ghost all = bundle_views(bundles@);
    let mut out: Vec<IpaBundle> = Vec::new();
    let mut keys: Vec<String> = Vec::new();
    assert(all.take(0) =~= bundle_views(out@));
    assert(bundle_views(rest@) =~= all.skip(0));
    while rest.len() > 0
        invariant
            bundle_views(rest@) == all.skip(all.len() - rest@.len()),
            rest@.len() <= all.len(),
            out@.len() == all.len() - rest@.len(),
            keys@.len() == out@.len(),
            forall|i: int| 0 <= i < keys@.len() ==> #[trigger] keys@[i]@ == sort_key(out@[i]@),
            in_order(bundle_views(out@)),
            forall|k: Seq<char>| #[trigger]
                with_key(bundle_views(out@), k) == with_key(all.take(out@.len() as int), k),
        decreases rest@.len(),
    {
        let ghost before = bundle_views(out@);
        let ghost left = bundle_views(rest@);
        let b = rest.remove(0);
        let key = text::to_lowercase(b.metadata.name.as_str());
        proof {
            assert(b@ == left[0]);
            assert(left[0] == all[out@.len() as int]);
            assert(bundle_views(rest@) =~= left.drop_first());
            assert(left.drop_first() =~= all.skip(out@.len() as int + 1));
        }
        let mut at: usize = out.len();
        while at > 0 && text::is_less(key.as_str(), keys[at - 1].as_str())
            invariant
                at <= out@.len(),
                before == bundle_views(out@),
                key@ == sort_key(b@),
                keys@.len() == out@.len(),
                forall|i: int| 0 <= i < keys@.len() ==> #[trigger] keys@[i]@ == sort_key(out@[i]@),
                forall|i: int|
                    at <= i < before.len() ==> text::less(sort_key(b@), sort_key(#[trigger] before[i])),
            decreases at,
        {
            assert(keys@[at - 1]@ == sort_key(before[at - 1]));
            at -= 1;
        }
        proof {
            if at > 0 {
                assert(keys@[at - 1]@ == sort_key(before[at - 1]));
            }
            lemma_placed(before, at as int, b@);
            let n = before.len() as int;
            assert forall|k: Seq<char>| #[trigger]
                with_key(before.insert(at as int, b@), k) == with_key(all.take(n + 1), k) by {
                assert(before.push(b@).drop_last() =~= before);
                assert(all.take(n + 1).drop_last() =~= all.take(n));
                assert(all.take(n + 1).last() == b@);
                assert(with_key(before, k) == with_key(all.take(n), k));
            }
        }
        let ghost old_out = out@;
        let ghost old_keys = keys@;
        out.insert(at, b);
        keys.insert(at, key);
        proof {
            assert(bundle_views(out@) =~= before.insert(at as int, b@));
            assert forall|i: int| 0 <= i < keys@.len() implies #[trigger] keys@[i]@ == sort_key(
                out@[i]@,
            ) by {
                if i < at {
                    assert(keys@[i] == old_keys[i]);
                    assert(out@[i] == old_out[i]);
                } else if i > at {
                    assert(keys@[i] == old_keys[i - 1]);
                    assert(out@[i] == old_out[i - 1]);
                }
            }
        }
    }
    assert(all.take(out@.len() as int) =~= all);
    out
}

} // verus!
