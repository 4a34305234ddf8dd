//! Paths given as text. How a path splits into components depends on the
//! platform (on Windows `\` separates components too, and prefixes such as
//! `C:` or `\\server\share` begin a path), but a path that holds neither `\`
//! nor `:` and does not begin with two `/` splits the same way everywhere:
//! at each `/`, with empty pieces and `.` pieces left out, except that a
//! path beginning with `./` (or that is `.`) keeps a leading `.`.
use vstd::prelude::*;

verus! {

/// Whether a path is read the same way on every platform.
pub open spec fn plain(p: Seq<char>) -> bool {
    !p.contains('\\') && !p.contains(':') && !(p.len() >= 2 && p[0] == '/' && p[1] == '/')
}

/// The pieces of a text between `/` separators (one empty piece for the
/// empty text).
pub open spec fn pieces(p: Seq<char>) -> Seq<Seq<char>>
    decreases p.len(),
{
    if p.len() == 0 {
        seq![seq![]]
    } else {
        let r = pieces(p.drop_last());
        if p.last() == '/' {
            r.push(seq![])
        } else {
            r.update(r.len() - 1, r.last().push(p.last()))
        }
    }
}

/// Whether a piece names a component: it is neither empty nor `.`.
pub open spec fn named(piece: Seq<char>) -> bool {
    piece.len() > 0 && piece != seq!['.']
}

/// The components of a plain path: whether it begins at the root, whether
/// it begins with the current directory `.`, and its other components in
/// order (`..` among them).
pub open spec fn path_parts(p: Seq<char>) -> (bool, bool, Seq<Seq<char>>) {
    (
        p.len() > 0 && p[0] == '/',
        p == seq!['.'] || (p.len() >= 2 && p[0] == '.' && p[1] == '/'),
        pieces(p).filter(|piece: Seq<char>| named(piece)),
    )
}

/// The last component of a plain path when it is a name (not `..`).
pub open spec fn last_name(p: Seq<char>) -> Option<Seq<char>> {
    let parts = path_parts(p).2;
    if parts.len() > 0 && parts.last() != seq!['.', '.'] {
        Some(parts.last())
    } else {
        None
    }
}

/// `std::path::Path` equality (`==`) of two paths given as text, which
/// compares their components. Claimed: a text is the same path as itself,
/// and two plain paths are the same exactly when their components are.
/// Nothing is claimed of other paths, which the platforms read differently.
#[verifier::external_body]
pub(crate) fn same_path(a: &str, b: &str) -> (same: bool)
    ensures
        a@ == b@ ==> same,
        plain(a@) && plain(b@) ==> same == (path_parts(a@) == path_parts(b@)),
{
    std::path::Path::new(a) == std::path::Path::new(b)
}

/// `std::path::Path::file_name` of a path given as text, converted to
/// text. Claimed: a name is never empty, and the name of a plain path is
/// its last component when that is a name. Nothing more is claimed of other
/// paths, which the platforms read differently.
#[verifier::external_body]
pub(crate) fn file_name(path: &str) -> (name: Option<String>)
    ensures
        name is Some ==> name.unwrap()@.len() > 0,
        plain(path@) ==> match name {
            Some(n) => last_name(path@) == Some(n@),
            None => last_name(path@) is None,
        },
{
    std::path::Path::new(path).file_name().map(|name| name.to_string_lossy().into_owned())
}

} // verus!
