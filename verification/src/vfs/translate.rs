//! Pure path normalisation.

use vstd::prelude::*;

use crate::text;

verus! {

/// Why a guest path could not be translated.
#[derive(Debug, PartialEq, Eq, Structural)]
pub enum TranslationError {
    /// The path tried to escape the sandbox root via `..`.
    Escape,
    /// The path was empty or otherwise malformed.
    Malformed,
}

impl TranslationError {
    /// The printed form of the error.
    pub fn message(&self) -> (r: &'static str)
        ensures
            r@ == (match *self {
                TranslationError::Escape => "path escapes sandbox"@,
                TranslationError::Malformed => "malformed path"@,
            }),
    {
        match self {
            TranslationError::Escape => "path escapes sandbox",
            TranslationError::Malformed => "malformed path",
        }
    }
}

/// What is left of the components from number `i` on, `out` being what was kept
/// of those before: empty ones and `.` vanish, `..` takes the last one back.
pub open spec fn resolve_dots(comps: Seq<Seq<char>>, i: int, out: Seq<Seq<char>>) -> Result<
    Seq<Seq<char>>,
    TranslationError,
>
    decreases comps.len() - i,
{
    if i < 0 || i >= comps.len() {
        Ok(out)
    } else if comps[i] == ""@ || comps[i] == "."@ {
        resolve_dots(comps, i + 1, out)
    } else if comps[i] == ".."@ {
        if out.len() == 0 {
            Err(TranslationError::Escape)
        } else {
            resolve_dots(comps, i + 1, out.drop_last())
        }
    } else if comps[i].contains('\0') {
        Err(TranslationError::Malformed)
    } else {
        resolve_dots(comps, i + 1, out.push(comps[i]))
    }
}

/// The clean components of a path.
pub open spec fn components(path: Seq<char>) -> Result<Seq<Seq<char>>, TranslationError> {
    if path.len() == 0 {
        Err(TranslationError::Malformed)
    } else {
        resolve_dots(text::split(path, '/'), 0, Seq::empty())
    }
}

/// A component that names an entry of its directory and nothing else.
pub open spec fn clean(c: Seq<char>) -> bool {
    &&& c.len() > 0
    &&& c != "."@
    &&& c != ".."@
    &&& !c.contains('/')
    &&& !c.contains('\0')
}

/// Normalise an iOS-style path into a list of clean components, collapsing `.`
/// and resolving `..` lexically; a path that pops above the root is refused.
pub fn normalize_ios_path(path: &str) -> (r: Result<Vec<String>, TranslationError>)
    ensures
        match components(path@) {
            Ok(c) => r matches Ok(v) && text::texts(v@) == c,
            Err(e) => r matches Err(x) && x == e,
        },
{
    if path.is_empty() {
        return Err(TranslationError::Malformed);
    }
    let comps = text::split_at(path, '/');
    let ghost all = text::split(path@, '/');
    let mut out: Vec<String> = Vec::new();
    let mut i: usize = 0;
    assert(text::texts(out@) =~= Seq::empty());
    while i < comps.len()
        invariant
            i <= comps@.len(),
            path@.len() > 0,
            all == text::split(path@, '/'),
            text::texts(comps@) == all,
            components(path@) == resolve_dots(all, i as int, text::texts(out@)),
        decreases comps@.len() - i,
    {
        let c = &comps[i];
        assert(c@ == all[i as int]);
        let ghost before = text::texts(out@);
        if text::same(c.as_str(), "") || text::same(c.as_str(), ".") {
        } else if text::same(c.as_str(), "..") {
            if out.pop().is_none() {
                return Err(TranslationError::Escape);
            }
            assert(text::texts(out@) =~= before.drop_last());
        } else {
            let v = text::chars(c.as_str());
            if text::has_char(&v, '\0') {
                return Err(TranslationError::Malformed);
            }
            out.push(c.clone());
            assert(text::texts(out@) =~= before.push(c@));
        }
        i += 1;
    }
    Ok(out)
}

// ---- laws -------------------------------------------------------------------

proof fn lemma_resolved_are_clean(comps: Seq<Seq<char>>, i: int, out: Seq<Seq<char>>)
    requires
        0 <= i <= comps.len(),
        forall|k: int| 0 <= k < comps.len() ==> !(#[trigger] comps[k]).contains('/'),
        forall|k: int| 0 <= k < out.len() ==> clean(#[trigger] out[k]),
    ensures
        resolve_dots(comps, i, out) matches Ok(r) ==> forall|k: int|
            0 <= k < r.len() ==> clean(#[trigger] r[k]),
    decreases comps.len() - i,
{
    if i < comps.len() {
        if comps[i] == ""@ || comps[i] == "."@ {
            lemma_resolved_are_clean(comps, i + 1, out);
        } else if comps[i] == ".."@ {
            if out.len() > 0 {
                lemma_resolved_are_clean(comps, i + 1, out.drop_last());
            }
        } else if !comps[i].contains('\0') {
            reveal_strlit("");
            if comps[i].len() == 0 {
                assert(comps[i] =~= ""@);
            }
            lemma_resolved_are_clean(comps, i + 1, out.push(comps[i]));
        }
    }
}

/// No component of a normalised path is empty, `.` or `..`, and none holds a
/// separator or a NUL: joining them onto a directory never leads upward.
pub proof fn normalized_components_are_clean(path: Seq<char>)
    ensures
        components(path) matches Ok(r) ==> forall|k: int|
            0 <= k < r.len() ==> clean(#[trigger] r[k]),
{
    if path.len() > 0 {
        let comps = text::split(path, '/');
        assert forall|k: int| 0 <= k < comps.len() implies !(#[trigger] comps[k]).contains('/') by {
            text::lemma_split_pieces(path, 0, '/', k);
        }
        lemma_resolved_are_clean(comps, 0, Seq::empty());
    }
}

} // verus!
