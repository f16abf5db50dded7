//! The path operations of `std::path` that the library uses, behind trusted wrappers.
//!
//! Paths are held as strings. Each operation's result is a function of its arguments
//! under the path rules of the platform that the library is built for; the names below
//! stand for those results, and contracts elsewhere are stated over them.
use vstd::prelude::*;

verus! {

/// What `Path::join` gives for `base` joined with `rel`.
pub uninterp spec fn spec_path_join(base: Seq<char>, rel: Seq<char>) -> Seq<char>;

/// What `Path::parent` gives for a path.
pub uninterp spec fn spec_path_parent(p: Seq<char>) -> Option<Seq<char>>;

/// What `Path::file_name` gives for a path.
pub uninterp spec fn spec_path_file_name(p: Seq<char>) -> Option<Seq<char>>;

/// What `Path::strip_prefix` gives for `p` with `base` taken off its front.
pub uninterp spec fn spec_path_strip_prefix(p: Seq<char>, base: Seq<char>) -> Option<Seq<char>>;

/// What `Path::components` gives for a path, each component as its string.
pub uninterp spec fn spec_path_components(p: Seq<char>) -> Seq<Seq<char>>;

/// What `Path::has_root` gives for a path.
pub uninterp spec fn spec_path_has_root(p: Seq<char>) -> bool;

/// The position of the last `c` in `s`, if any.
pub open spec fn last_char_index(s: Seq<char>, c: char) -> Option<int>
    decreases s.len(),
{
    if s.len() == 0 {
        None
    } else if s.last() == c {
        Some(s.len() - 1)
    } else {
        last_char_index(s.drop_last(), c)
    }
}

/// The extension of a file name as `Path::extension` documents it: the part after the
/// final `.`, unless there is no `.` or the only `.` is the first character (and `..`
/// has none).
pub open spec fn extension_of_name(name: Seq<char>) -> Option<Seq<char>> {
    if name == seq!['.', '.'] {
        None
    } else {
        match last_char_index(name, '.') {
            None => None,
            Some(k) => if k == 0 {
                None
            } else {
                Some(name.skip(k + 1))
            },
        }
    }
}

/// The extension of a path: that of its file name, if it has one.
pub open spec fn spec_path_extension(p: Seq<char>) -> Option<Seq<char>> {
    match spec_path_file_name(p) {
        Some(name) => extension_of_name(name),
        None => None,
    }
}

/// Trusted: calls `Path::join`. Claims only that the result is the joined path
/// (named `spec_path_join`).
#[verifier::external_body]
pub(crate) fn path_join(base: &str, rel: &str) -> (r: String)
    ensures
        r@ == spec_path_join(base@, rel@),
{
    std::path::Path::new(base).join(rel).to_string_lossy().into_owned()
}

/// Trusted: calls `Path::parent`. Claims that the result is the parent (named
/// `spec_path_parent`), and, as the documentation says that a parent is the path
/// without its final component, that a parent is a strictly shorter prefix of the path.
#[verifier::external_body]
pub(crate) fn path_parent(p: &str) -> (r: Option<String>)
    ensures
        r matches Some(q) ==> spec_path_parent(p@) == Some(q@),
        r is None ==> spec_path_parent(p@) is None,
        r matches Some(q) ==> q@.len() < p@.len() && q@ == p@.take(q@.len() as int),
{
    std::path::Path::new(p).parent().map(|q| q.to_string_lossy().into_owned())
}

/// Trusted: calls `Path::file_name`. Claims only that the result is the final component
/// (named `spec_path_file_name`).
#[verifier::external_body]
pub(crate) fn path_file_name(p: &str) -> (r: Option<String>)
    ensures
        r matches Some(n) ==> spec_path_file_name(p@) == Some(n@),
        r is None ==> spec_path_file_name(p@) is None,
{
    std::path::Path::new(p).file_name().map(|n| n.to_string_lossy().into_owned())
}

/// Trusted: calls `Path::extension`. Claims that the result is the part of the file
/// name after its final `.`, by the rule that the documentation gives
/// (`extension_of_name` of the file name).
#[verifier::external_body]
pub(crate) fn path_extension(p: &str) -> (r: Option<String>)
    ensures
        r matches Some(e) ==> spec_path_extension(p@) == Some(e@),
        r is None ==> spec_path_extension(p@) is None,
{
    std::path::Path::new(p).extension().map(|e| e.to_string_lossy().into_owned())
}

/// Trusted: calls `Path::strip_prefix`. Claims only that the result is what is left of
/// `p` after `base` (named `spec_path_strip_prefix`), or nothing where `base` is not a
/// prefix of `p`.
#[verifier::external_body]
pub(crate) fn path_strip_prefix(p: &str, base: &str) -> (r: Option<String>)
    ensures
        r matches Some(s) ==> spec_path_strip_prefix(p@, base@) == Some(s@),
        r is None ==> spec_path_strip_prefix(p@, base@) is None,
{
    std::path::Path::new(p).strip_prefix(base).ok().map(|s| s.to_string_lossy().into_owned())
}

/// Trusted: calls `Path::components`. Claims only that the result lists the components
/// (named `spec_path_components`), each as its string.
#[verifier::external_body]
pub(crate) fn path_components(p: &str) -> (r: Vec<String>)
    ensures
        r@.map_values(|s: String| s@) == spec_path_components(p@),
{
    std::path::Path::new(p).components().map(|c| c.as_os_str().to_string_lossy().into_owned()).collect()
}

/// Trusted: calls `Path::has_root`. Claims only that the result is whether the path has
/// a root (named `spec_path_has_root`).
#[verifier::external_body]
pub(crate) fn path_has_root(p: &str) -> (r: bool)
    ensures
        r == spec_path_has_root(p@),
{
    std::path::Path::new(p).has_root()
}

} // verus!
