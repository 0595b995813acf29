//! The parts of a path that the catalog reads: its last component, its
//! extension, and its place below a root.
use std::path::Path;
use vstd::prelude::*;

verus! {

/// The last component of a path, empty where there is none.
pub uninterp spec fn file_name_of(path: Seq<char>) -> Seq<char>;

/// The extension of the last component of a path, if it has one.
pub uninterp spec fn extension_of(path: Seq<char>) -> Option<Seq<char>>;

/// A path written relative to `root`, or the path itself where `root` is not
/// a prefix of it.
pub uninterp spec fn relative_of(path: Seq<char>, root: Seq<char>) -> Seq<char>;

/// Unicode lower case of a string.
pub uninterp spec fn lower_of(s: Seq<char>) -> Seq<char>;

/// Relies on std::path::Path::file_name; a path that ends in `..` or is a
/// root has none, which gives the empty string.
#[verifier::external_body]
pub(crate) fn file_name(path: &str) -> (r: String)
    ensures
        r@ == file_name_of(path@),
{
    Path::new(path).file_name().unwrap_or_default().to_string_lossy().to_string()
}

/// Relies on std::path::Path::extension; a name without a dot, or whose only
/// dot leads it, has none.
#[verifier::external_body]
pub(crate) fn extension(path: &str) -> (r: Option<String>)
    ensures
        r is Some <==> extension_of(path@) is Some,
        r is Some ==> r->0@ == extension_of(path@)->0,
{
    Path::new(path).extension().and_then(|e| e.to_str()).map(|e| e.to_string())
}

/// Relies on std::path::Path::strip_prefix, which compares whole components;
/// where `root` is not a prefix, the path is kept as it is.
#[verifier::external_body]
pub(crate) fn relative_path(path: &str, root: &str) -> (r: String)
    ensures
        r@ == relative_of(path@, root@),
{
    let p = Path::new(path);
    p.strip_prefix(root).unwrap_or(p).to_string_lossy().to_string()
}

/// Relies on str::to_lowercase; the empty string stays empty.
#[verifier::external_body]
pub(crate) fn lowercase(s: &str) -> (r: String)
    ensures
        r@ == lower_of(s@),
        s@.len() == 0 ==> r@.len() == 0,
{
    s.to_lowercase()
}

} // verus!
