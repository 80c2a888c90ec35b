//! Sandbox layout and path translation.

use vstd::prelude::*;

use crate::common::error;
use crate::common::error::ErrorView;
use crate::common::{EmuError, EmuResult};
use crate::text;
use crate::vfs::translate;
use crate::vfs::translate::TranslationError;

verus! {

/// The directories of a container, as host paths.
#[derive(Clone, Debug)]
pub struct SandboxLayout {
    pub bundle_dir: String,
    pub documents: String,
    pub library: String,
    pub caches: String,
    pub preferences: String,
    pub tmp: String,
}

/// An isolated per-app filesystem.
pub struct Sandbox {
    /// Host directory that backs the whole container.
    pub host_root: String,
    /// The guest path the container is mounted at.
    pub ios_prefix: String,
    /// Identifier of the container.
    pub uuid: String,
    /// Name of the bundle directory.
    pub bundle_name: String,
    pub layout: SandboxLayout,
    /// Host directory of the shared read-only system image.
    pub system_root: String,
}

/// View of a [`SandboxLayout`].
#[verifier::ext_equal]
pub struct LayoutView {
    pub bundle_dir: Seq<char>,
    pub documents: Seq<char>,
    pub library: Seq<char>,
    pub caches: Seq<char>,
    pub preferences: Seq<char>,
    pub tmp: Seq<char>,
}

/// View of a [`Sandbox`].
#[verifier::ext_equal]
pub struct SandboxView {
    pub host_root: Seq<char>,
    pub ios_prefix: Seq<char>,
    pub uuid: Seq<char>,
    pub bundle_name: Seq<char>,
    pub layout: LayoutView,
    pub system_root: Seq<char>,
}

impl View for SandboxLayout {
    type V = LayoutView;

    open spec fn view(&self) -> LayoutView {
        LayoutView {
            bundle_dir: self.bundle_dir@,
            documents: self.documents@,
            library: self.library@,
            caches: self.caches@,
            preferences: self.preferences@,
            tmp: self.tmp@,
        }
    }
}

impl View for Sandbox {
    type V = SandboxView;

    open spec fn view(&self) -> SandboxView {
        SandboxView {
            host_root: self.host_root@,
            ios_prefix: self.ios_prefix@,
            uuid: self.uuid@,
            bundle_name: self.bundle_name@,
            layout: self.layout@,
            system_root: self.system_root@,
        }
    }
}

// ---- paths ------------------------------------------------------------------

/// The host path `name` below `base`: an absolute `name` stands for itself.
pub open spec fn join(base: Seq<char>, name: Seq<char>) -> Seq<char> {
    if name.len() > 0 && name[0] == '/' {
        name
    } else if base.len() == 0 || base.last() == '/' {
        base + name
    } else {
        base.push('/') + name
    }
}

/// `base` with every one of `comps` joined to it in turn.
pub open spec fn join_all(base: Seq<char>, comps: Seq<Seq<char>>) -> Seq<char>
    decreases comps.len(),
{
    if comps.len() == 0 {
        base
    } else {
        join(join_all(base, comps.drop_last()), comps.last())
    }
}

/// Join a name to a host path.
pub fn path_join(base: &str, name: &str) -> (r: String)
    ensures
        r@ == join(base@, name@),
{
    let n = text::chars(name);
    if n.len() > 0 && n[0] == '/' {
        return name.to_owned();
    }
    let b = text::chars(base);
    let mut s = base.to_owned();
    if b.len() > 0 && b[b.len() - 1] != '/' {
        s.push('/');
    }
    s.append(name);
    s
}

/// What follows `prefix` in `path` if `path` is `prefix` or lives under it.
/// Component-aware: `/usrlocal` is not under `/usr`.
pub open spec fn below(path: Seq<char>, prefix: Seq<char>) -> Option<Seq<char>> {
    if !prefix.is_prefix_of(path) {
        None
    } else {
        let rest = path.skip(prefix.len() as int);
        if rest.len() == 0 {
            Some(rest)
        } else if rest[0] == '/' {
            Some(rest.skip(1))
        } else {
            None
        }
    }
}

/// If `path` is exactly `prefix` or lives under it, the remainder.
pub fn strip_prefix_dir(path: &str, prefix: &str) -> (r: Option<String>)
    ensures
        match below(path@, prefix@) {
            Some(s) => r matches Some(x) && x@ == s,
            None => r is None,
        },
{
    let p = text::chars(path);
    let q = text::chars(prefix);
    if !text::matches_at(&p, 0, &q) {
        return None;
    }
    let n: usize = q.len();
    if p.len() == n {
        let r = text::string_of(&p, n, n);
        assert(r@ =~= path@.skip(n as int));
        Some(r)
    } else if p[n] == '/' {
        let r = text::string_of(&p, n + 1, p.len());
        assert(r@ =~= path@.skip(n as int).skip(1));
        Some(r)
    } else {
        None
    }
}

// ---- bundle names -----------------------------------------------------------

/// The character that stands for `c` in a directory name.
pub open spec fn safe_char(c: char) -> char {
    if c == '/' || c == '\\' || c == '\0' {
        '_'
    } else {
        c
    }
}

/// A bundle name with separators replaced, so that it names one directory.
pub open spec fn safe_name(name: Seq<char>) -> Seq<char> {
    let cleaned = name.map_values(|c: char| safe_char(c));
    if cleaned.len() == 0 || cleaned == "."@ || cleaned == ".."@ {
        "App"@
    } else {
        cleaned
    }
}

/// Strip path separators from a bundle name.
pub fn sanitize_component(name: &str) -> (r: String)
    ensures
        r@ == safe_name(name@),
{
    let v = text::chars(name);
    let mut s = String::new();
    let mut i: usize = 0;
    while i < v.len()
        invariant
            i <= v@.len(),
            v@ == name@,
            s@ == name@.take(i as int).map_values(|c: char| safe_char(c)),
        decreases v@.len() - i,
    {
        let c = v[i];
        let d = if c == '/' || c == '\\' || c == '\0' {
            '_'
        } else {
            c
        };
        s.push(d);
        assert(s@ =~= name@.take(i + 1).map_values(|c: char| safe_char(c)));
        i += 1;
    }
    assert(s@ =~= name@.map_values(|c: char| safe_char(c)));
    if i == 0 || text::same(s.as_str(), ".") || text::same(s.as_str(), "..") {
        return "App".to_owned();
    }
    s
}

// ---- the sandbox ------------------------------------------------------------

/// Names of the trees that come from the shared system image.
pub open spec fn system_trees() -> Seq<Seq<char>> {
    seq!["System"@, "usr"@, "Library"@, "private/var/db"@]
}

/// The first system tree from number `i` on that `path` lives in, else their
/// number.
pub open spec fn tree_of(path: Seq<char>, i: int) -> int
    decreases system_trees().len() - i,
{
    if i < 0 || i >= system_trees().len() {
        system_trees().len() as int
    } else if below(path, "/"@ + system_trees()[i]) is Some {
        i
    } else {
        tree_of(path, i + 1)
    }
}

/// `rest` normalised and joined under `base`.
pub open spec fn join_checked(base: Seq<char>, rest: Seq<char>) -> Result<Seq<char>, ErrorView> {
    match translate::components(rest) {
        Err(TranslationError::Escape) => Err(ErrorView::Vfs("sandbox escape: "@ + rest)),
        Err(TranslationError::Malformed) => Err(ErrorView::Vfs("bad path: "@ + rest)),
        Ok(comps) => Ok(join_all(base, comps)),
    }
}

impl SandboxView {
    /// The container of `app_name` under `containers_root`.
    pub open spec fn prepared(
        containers_root: Seq<char>,
        system_root: Seq<char>,
        app_name: Seq<char>,
        uuid: Seq<char>,
    ) -> SandboxView {
        let host_root = join(join(containers_root, "Applications"@), uuid);
        let bundle_name = safe_name(app_name) + ".app"@;
        SandboxView {
            host_root,
            ios_prefix: "/var/mobile/Applications/"@ + uuid,
            uuid,
            bundle_name,
            layout: LayoutView {
                bundle_dir: join(host_root, bundle_name),
                documents: join(host_root, "Documents"@),
                library: join(host_root, "Library"@),
                caches: join(join(host_root, "Library"@), "Caches"@),
                preferences: join(join(host_root, "Library"@), "Preferences"@),
                tmp: join(host_root, "tmp"@),
            },
            system_root,
        }
    }

    /// The guest path of the app bundle.
    pub open spec fn bundle_ios_path(self) -> Seq<char> {
        self.ios_prefix + "/"@ + self.bundle_name
    }

    /// The absolute form of a guest path: relative ones start at the bundle.
    pub open spec fn absolute(self, ios_path: Seq<char>) -> Seq<char> {
        let path = text::trim(ios_path);
        if path.len() > 0 && path[0] == '/' {
            path
        } else {
            self.bundle_ios_path() + "/"@ + path
        }
    }

    /// The host path a guest path stands for, and whether it is read-only.
    pub open spec fn translate(self, ios_path: Seq<char>) -> Result<(Seq<char>, bool), ErrorView> {
        let path = self.absolute(ios_path);
        let t = tree_of(path, 0);
        if below(path, self.ios_prefix) is Some {
            match join_checked(self.host_root, below(path, self.ios_prefix)->0) {
                Ok(host) => Ok((host, false)),
                Err(e) => Err(e),
            }
        } else if t < system_trees().len() {
            let rest = below(path, "/"@ + system_trees()[t])->0;
            match join_checked(join(self.system_root, system_trees()[t]), rest) {
                Ok(host) => Ok((host, true)),
                Err(e) => Err(e),
            }
        } else {
            Err(ErrorView::Vfs("path outside sandbox: "@ + ios_path))
        }
    }
}

impl Sandbox {
    /// Lay out a sandbox for `app_name` under `containers_root`. The
    /// directories of [`Sandbox::directories`] have to be created before the
    /// guest runs.
    pub fn prepare(containers_root: &str, system_root: &str, app_name: &str, uuid: &str) -> (r:
        Sandbox)
        ensures
            r@ == SandboxView::prepared(containers_root@, system_root@, app_name@, uuid@),
    {
        let apps = path_join(containers_root, "Applications");
        let host_root = path_join(apps.as_str(), uuid);
        let clean = sanitize_component(app_name);
        let bundle_name = text::cat(clean.as_str(), ".app");
        let library = path_join(host_root.as_str(), "Library");
        let layout = SandboxLayout {
            bundle_dir: path_join(host_root.as_str(), bundle_name.as_str()),
            documents: path_join(host_root.as_str(), "Documents"),
            caches: path_join(library.as_str(), "Caches"),
            preferences: path_join(library.as_str(), "Preferences"),
            library,
            tmp: path_join(host_root.as_str(), "tmp"),
        };
        Sandbox {
            host_root,
            ios_prefix: text::cat("/var/mobile/Applications/", uuid),
            uuid: uuid.to_owned(),
            bundle_name,
            layout,
            system_root: system_root.to_owned(),
        }
    }

    /// The host directories a container consists of; creating each with its
    /// parents creates all of them.
    pub fn directories(&self) -> (r: Vec<String>)
        ensures
            text::texts(r@) == seq![
                self@.layout.bundle_dir,
                self@.layout.documents,
                self@.layout.caches,
                self@.layout.preferences,
                self@.layout.tmp,
            ],
    {
        let r = vec![
            self.layout.bundle_dir.clone(),
            self.layout.documents.clone(),
            self.layout.caches.clone(),
            self.layout.preferences.clone(),
            self.layout.tmp.clone(),
        ];
        assert(text::texts(r@) =~= seq![
            self@.layout.bundle_dir,
            self@.layout.documents,
            self@.layout.caches,
            self@.layout.preferences,
            self@.layout.tmp,
        ]);
        r
    }

    /// Identifier of the container.
    pub fn uuid(&self) -> (r: &str)
        ensures
            r@ == self@.uuid,
    {
        self.uuid.as_str()
    }

    /// The directories of the container.
    pub fn layout(&self) -> (r: &SandboxLayout)
        ensures
            r@ == self@.layout,
    {
        &self.layout
    }

    /// The guest path the container is mounted at.
    pub fn ios_prefix(&self) -> (r: &str)
        ensures
            r@ == self@.ios_prefix,
    {
        self.ios_prefix.as_str()
    }

    /// The guest path of the app bundle.
    pub fn bundle_ios_path(&self) -> (r: String)
        ensures
            r@ == self@.bundle_ios_path(),
    {
        text::cat3(self.ios_prefix.as_str(), "/", self.bundle_name.as_str())
    }

    /// Translate a guest path to a host path, enforcing containment; also says
    /// whether it is read-only.
    ///
    /// Paths under the container prefix go to the container; `/System`, `/usr`,
    /// `/Library` and `/private/var/db` go to the shared system image;
    /// everything else is rejected.
    pub fn translate(&self, ios_path: &str) -> (r: EmuResult<(String, bool)>)
        ensures
            match self@.translate(ios_path@) {
                Ok((host, ro)) => r matches Ok(x) && x.0@ == host && x.1 == ro,
                Err(e) => r matches Err(x) && x@ == e,
            },
    {
        let path = text::trimmed(ios_path);
        let first = text::chars(path.as_str());
        let absolute = if first.len() > 0 && first[0] == '/' {
            path
        } else {
            let bundle = self.bundle_ios_path();
            text::cat3(bundle.as_str(), "/", path.as_str())
        };
        if let Some(rest) = strip_prefix_dir(absolute.as_str(), self.ios_prefix.as_str()) {
            let host = under(self.host_root.as_str(), rest.as_str())?;
            return Ok((host, false));
        }
        let trees = ["System", "usr", "Library", "private/var/db"];
        let mut i: usize = 0;
        while i < 4
            invariant
                i <= 4,
                absolute@ == self@.absolute(ios_path@),
                below(absolute@, self@.ios_prefix) is None,
                trees@.len() == 4,
                forall|k: int| 0 <= k < 4 ==> (#[trigger] trees@[k])@ == system_trees()[k],
                tree_of(absolute@, 0) == tree_of(absolute@, i as int),
            decreases 4 - i,
        {
            let name = trees[i];
            assert(name@ == trees@[i as int]@);
            let prefix = text::cat("/", name);
            if let Some(rest) = strip_prefix_dir(absolute.as_str(), prefix.as_str()) {
                let base = path_join(self.system_root.as_str(), name);
                let host = under(base.as_str(), rest.as_str())?;
                return Ok((host, true));
            }
            i += 1;
        }
        Err(EmuError::Vfs(text::cat("path outside sandbox: ", ios_path)))
    }
}

/// Normalise `rest` and join it under `base`.
fn under(base: &str, rest: &str) -> (r: EmuResult<String>)
    ensures
        error::outcome(r) == join_checked(base@, rest@),
{
    let comps = match translate::normalize_ios_path(rest) {
        Ok(c) => c,
        Err(TranslationError::Escape) => {
            return Err(EmuError::Vfs(text::cat("sandbox escape: ", rest)));
        },
        Err(TranslationError::Malformed) => {
            return Err(EmuError::Vfs(text::cat("bad path: ", rest)));
        },
    };
    let ghost all = text::texts(comps@);
    let mut host = base.to_owned();
    let mut i: usize = 0;
    assert(all.take(0) =~= Seq::empty());
    while i < comps.len()
        invariant
            i <= comps@.len(),
            all == text::texts(comps@),
            host@ == join_all(base@, all.take(i as int)),
        decreases comps@.len() - i,
    {
        assert(all.take(i + 1).drop_last() =~= all.take(i as int));
        host = path_join(host.as_str(), comps[i].as_str());
        i += 1;
    }
    assert(all.take(i as int) =~= all);
    Ok(host)
}

// ---- laws -------------------------------------------------------------------

/// Joining clean components only ever extends a path.
proof fn lemma_join_extends(base: Seq<char>, comps: Seq<Seq<char>>)
    requires
        forall|k: int| 0 <= k < comps.len() ==> translate::clean(#[trigger] comps[k]),
    ensures
        base.is_prefix_of(join_all(base, comps)),
        comps.len() > 0 && base.len() > 0 && base.last() != '/' ==> base.push('/').is_prefix_of(
            join_all(base, comps),
        ),
    decreases comps.len(),
{
    if comps.len() > 0 {
        let head = comps.drop_last();
        lemma_join_extends(base, head);
        let mid = join_all(base, head);
        let c = comps.last();
        assert(c[0] != '/') by {
            assert(translate::clean(comps[comps.len() - 1]));
            if c[0] == '/' {
                assert(c.contains('/'));
            }
        }
        let end = join(mid, c);
        assert(mid.is_prefix_of(end));
        assert(base.is_prefix_of(end));
        if base.len() > 0 && base.last() != '/' {
            if head.len() == 0 {
                assert(base.push('/').is_prefix_of(end));
            } else {
                assert(base.push('/').is_prefix_of(mid));
                assert(base.push('/') =~= end.subrange(0, (base.len() + 1) as int));
            }
        }
    }
}

/// Whether `path` is `base` or lies below it: `base` extended by the components
/// `comps`, none of which leads up or elsewhere.
pub open spec fn lies_below(path: Seq<char>, base: Seq<char>, comps: Seq<Seq<char>>) -> bool {
    &&& path == join_all(base, comps)
    &&& base.is_prefix_of(path)
    &&& forall|k: int| 0 <= k < comps.len() ==> translate::clean(#[trigger] comps[k])
}

/// Whether `path` lies inside the `t`th tree of the system image.
pub open spec fn in_system_tree(sb: SandboxView, path: Seq<char>, t: int) -> bool {
    &&& 0 <= t < system_trees().len()
    &&& exists|comps: Seq<Seq<char>>| #[trigger]
        lies_below(path, join(sb.system_root, system_trees()[t]), comps)
}

/// Whatever the guest asks for, a translated path lies inside the container
/// (and may be written) or inside a tree of the system image (and may not).
pub proof fn translated_paths_stay_inside(sb: SandboxView, ios_path: Seq<char>)
    ensures
        sb.translate(ios_path) matches Ok((host, ro)) ==> if ro {
            exists|t: int| #[trigger] in_system_tree(sb, host, t)
        } else {
            exists|comps: Seq<Seq<char>>| #[trigger] lies_below(host, sb.host_root, comps)
        },
{
    let path = sb.absolute(ios_path);
    match sb.translate(ios_path) {
        Ok((host, ro)) => {
            if ro {
                let t = tree_of(path, 0);
                let rest = below(path, "/"@ + system_trees()[t])->0;
                lemma_tree_of(path, 0);
                let comps = translate::components(rest)->Ok_0;
                translate::normalized_components_are_clean(rest);
                let base = join(sb.system_root, system_trees()[t]);
                lemma_join_extends(base, comps);
                assert(lies_below(host, base, comps));
                assert(in_system_tree(sb, host, t));
            } else {
                let rest = below(path, sb.ios_prefix)->0;
                let comps = translate::components(rest)->Ok_0;
                translate::normalized_components_are_clean(rest);
                lemma_join_extends(sb.host_root, comps);
                assert(lies_below(host, sb.host_root, comps));
            }
        },
        Err(_) => {},
    }
}

proof fn lemma_tree_of(path: Seq<char>, i: int)
    requires
        0 <= i <= system_trees().len(),
    ensures
        i <= tree_of(path, i) <= system_trees().len(),
    decreases system_trees().len() - i,
{
    if i < system_trees().len() && below(path, "/"@ + system_trees()[i]) is None {
        lemma_tree_of(path, i + 1);
    }
}

/// A bundle's directory name holds no separator and no NUL, so the bundle lies
/// directly inside its container.
pub proof fn bundle_names_are_one_component(name: Seq<char>)
    ensures
        !safe_name(name).contains('/'),
        !safe_name(name).contains('\\'),
        !safe_name(name).contains('\0'),
        safe_name(name).len() > 0,
{
    reveal_strlit("App");
    let cleaned = name.map_values(|c: char| safe_char(c));
    assert forall|k: int| 0 <= k < cleaned.len() implies cleaned[k] != '/' && cleaned[k] != '\\'
        && cleaned[k] != '\0' by {}
    assert(forall|k: int| 0 <= k < "App"@.len() ==> "App"@[k] != '/' && "App"@[k] != '\\' && "App"@[k]
        != '\0');
}

} // verus!
