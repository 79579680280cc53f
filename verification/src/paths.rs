//! File-system paths as text, through `std::path`.

use vstd::prelude::*;

verus! {

/// `Path::parent` of the path written `p`.
pub uninterp spec fn path_parent(p: Seq<char>) -> Option<Seq<char>>;

/// `Path::file_name` of the path written `p`.
pub uninterp spec fn path_file_name(p: Seq<char>) -> Option<Seq<char>>;

/// `Path::join` of `rel` onto `base`.
pub uninterp spec fn path_join(base: Seq<char>, rel: Seq<char>) -> Seq<char>;

/// `Path::with_file_name` of the path written `p` and the file name `name`.
pub uninterp spec fn path_with_file_name(p: Seq<char>, name: Seq<char>) -> Seq<char>;

/// `Path::file_stem` of the path written `p`.
pub uninterp spec fn path_file_stem(p: Seq<char>) -> Option<Seq<char>>;

/// `Path::extension` of the path written `p`.
pub uninterp spec fn path_extension(p: Seq<char>) -> Option<Seq<char>>;

/// `Path::strip_prefix` of `base` from the path written `p`.
pub uninterp spec fn path_strip_prefix(p: Seq<char>, base: Seq<char>) -> Option<Seq<char>>;

/// `std::path::Path::parent`.
/// Claims the result is the named parent of the path; the text of a path made from a
/// string is that string's text, so nothing is lost in the conversion.
#[verifier::external_body]
pub(crate) fn parent_of(p: &str) -> (r: Option<String>)
    ensures
        match r {
            Some(q) => path_parent(p@) == Some(q@),
            None => path_parent(p@) is None,
        },
{
    std::path::Path::new(p).parent().map(|q| q.to_string_lossy().into_owned())
}

/// `std::path::Path::file_name`.
/// Claims the result is the named final component of the path.
#[verifier::external_body]
pub(crate) fn file_name_of(p: &str) -> (r: Option<String>)
    ensures
        match r {
            Some(q) => path_file_name(p@) == Some(q@),
            None => path_file_name(p@) is None,
        },
{
    std::path::Path::new(p).file_name().map(|q| q.to_string_lossy().into_owned())
}

/// `std::path::Path::join`.
/// Claims the result is the named joined path.
#[verifier::external_body]
pub(crate) fn join(base: &str, rel: &str) -> (r: String)
    ensures
        r@ == path_join(base@, rel@),
{
    std::path::Path::new(base).join(rel).to_string_lossy().into_owned()
}

/// `std::path::Path::strip_prefix`.
/// Claims the result is the named remainder of the path after `base`, or nothing when
/// `base` is not a leading run of its components.
#[verifier::external_body]
pub(crate) fn strip_prefix_of(p: &str, base: &str) -> (r: Option<String>)
    ensures
        match r {
            Some(q) => path_strip_prefix(p@, base@) == Some(q@),
            None => path_strip_prefix(p@, base@) is None,
        },
{
    std::path::Path::new(p).strip_prefix(base).ok().map(|q| q.to_string_lossy().into_owned())
}

/// `std::path::Path::extension`.
/// Claims the result is the named extension of the path's final component.
#[verifier::external_body]
pub(crate) fn extension_of(p: &str) -> (r: Option<String>)
    ensures
        match r {
            Some(q) => path_extension(p@) == Some(q@),
            None => path_extension(p@) is None,
        },
{
    std::path::Path::new(p).extension().map(|q| q.to_string_lossy().into_owned())
}

/// `std::path::Path::with_file_name`.
/// Claims the result is the named path with its final component replaced.
#[verifier::external_body]
pub(crate) fn with_file_name(p: &str, name: &str) -> (r: String)
    ensures
        r@ == path_with_file_name(p@, name@),
{
    std::path::Path::new(p).with_file_name(name).to_string_lossy().into_owned()
}

/// `std::path::Path::file_stem`.
/// Claims the result is the named stem of the path's final component.
#[verifier::external_body]
pub(crate) fn file_stem_of(p: &str) -> (r: Option<String>)
    ensures
        match r {
            Some(q) => path_file_stem(p@) == Some(q@),
            None => path_file_stem(p@) is None,
        },
{
    std::path::Path::new(p).file_stem().map(|q| q.to_string_lossy().into_owned())
}

} // verus!
