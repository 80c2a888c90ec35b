//! Where the entries of an archive go when an app bundle is unpacked.

use vstd::prelude::*;

use crate::common::error::{EmuError, EmuResult, ErrorView};
use crate::text;
use crate::vfs::sandbox;

verus! {

/// An entry to unpack.
#[derive(Debug)]
pub struct Extraction {
    /// The host path to create.
    pub path: String,
    /// Whether to create a directory rather than a file.
    pub directory: bool,
}

/// Mathematical view of [`Extraction`].
#[verifier::ext_equal]
pub struct ExtractionView {
    pub path: Seq<char>,
    pub directory: bool,
}

impl View for Extraction {
    type V = ExtractionView;

    open spec fn view(&self) -> ExtractionView {
        ExtractionView { path: self.path@, directory: self.directory }
    }
}

/// Whether a path inside a bundle is absolute or climbs out of it.
pub open spec fn escapes(rel: Seq<char>) -> bool {
    (rel.len() > 0 && rel[0] == '/') || text::split(rel, '/').contains(".."@)
}

/// What to do with the archive entry `name` when the bundle at `bundle_dir` is
/// unpacked into `dest_root`: nothing if it is not inside the bundle, and an
/// error if it would leave `dest_root`.
pub open spec fn planned(
    bundle_dir: Seq<char>,
    dest_root: Seq<char>,
    name: Seq<char>,
) -> Result<Option<ExtractionView>, ErrorView> {
    let prefix = bundle_dir + "/"@;
    let rel = name.skip(prefix.len() as int);
    if !prefix.is_prefix_of(name) || rel.len() == 0 {
        Ok(None)
    } else if escapes(rel) {
        Err(ErrorView::Archive("unsafe archive path: "@ + name))
    } else {
        Ok(
            Some(
                ExtractionView {
                    path: sandbox::join(dest_root, rel),
                    directory: "/"@.is_suffix_of(name),
                },
            ),
        )
    }
}

/// Whether `..` is one of the pieces.
fn has_parent(v: &[String]) -> (r: bool)
    ensures
        r == text::texts(v@).contains(".."@),
{
    let mut i: usize = 0;
    while i < v.len()
        invariant
            i <= v@.len(),
            forall|k: int| 0 <= k < i ==> text::texts(v@)[k] != ".."@,
        decreases v@.len() - i,
    {
        if text::same(v[i].as_str(), "..") {
            assert(text::texts(v@)[i as int] == ".."@);
            return true;
        }
        i += 1;
    }
    false
}

/// Decide what to do with one archive entry.
pub fn plan_entry(bundle_dir: &str, dest_root: &str, name: &str) -> (r: EmuResult<Option<Extraction>>)
    ensures
        match r {
            Ok(Some(x)) => planned(bundle_dir@, dest_root@, name@) == Ok::<_, ErrorView>(Some(x@)),
            Ok(None) => planned(bundle_dir@, dest_root@, name@) == Ok::<_, ErrorView>(
                None::<ExtractionView>,
            ),
            Err(e) => planned(bundle_dir@, dest_root@, name@) == Err::<Option<ExtractionView>, _>(
                e@,
            ),
        },
{
    let prefix = text::cat(bundle_dir, "/");
    if !text::starts_with(name, prefix.as_str()) {
        return Ok(None);
    }
    let n = text::chars(name);
    let p = text::chars(prefix.as_str());
    let rel = text::string_of(&n, p.len(), n.len());
    assert(rel@ =~= name@.skip(prefix@.len() as int));
    if n.len() == p.len() {
        return Ok(None);
    }
    let pieces = text::split_at(rel.as_str(), '/');
    if n[p.len()] == '/' || has_parent(&pieces) {
        return Err(EmuError::Archive(text::cat("unsafe archive path: ", name)));
    }
    let path = sandbox::path_join(dest_root, rel.as_str());
    Ok(Some(Extraction { path, directory: text::ends_with(name, "/") }))
}

/// Nothing is unpacked outside the destination: the path of an entry is the
/// destination extended by a relative path without `..`.
pub proof fn extraction_stays_inside(
    bundle_dir: Seq<char>,
    dest_root: Seq<char>,
    name: Seq<char>,
)
    ensures
        planned(bundle_dir, dest_root, name) matches Ok(Some(x)) ==> exists|rel: Seq<char>|
            {
                &&& x.path == #[trigger] sandbox::join(dest_root, rel)
                &&& dest_root.is_prefix_of(x.path)
                &&& rel.len() > 0 && rel[0] != '/'
                &&& forall|k: int|
                    0 <= k < text::split(rel, '/').len() ==> #[trigger] text::split(rel, '/')[k]
                        != ".."@
            },
{
    let prefix = bundle_dir + "/"@;
    let rel = name.skip(prefix.len() as int);
    if let Ok(Some(x)) = planned(bundle_dir, dest_root, name) {
        assert(x.path == sandbox::join(dest_root, rel));
        assert(dest_root =~= x.path.subrange(0, dest_root.len() as int));
    }
}

} // verus!
