//! File path components, as `std::path::Path` computes them.
use vstd::prelude::*;

verus! {

/// What `Path::parent` returns for a path.
pub uninterp spec fn std_path_parent(p: Seq<char>) -> Option<Seq<char>>;

/// What `Path::file_stem` returns for a path.
pub uninterp spec fn std_path_file_stem(p: Seq<char>) -> Option<Seq<char>>;

/// What `Path::file_name` returns for a path.
pub uninterp spec fn std_path_file_name(p: Seq<char>) -> Option<Seq<char>>;

/// What `Path::extension` returns for a path.
pub uninterp spec fn std_path_extension(p: Seq<char>) -> Option<Seq<char>>;

/// What `Path::strip_prefix` returns for a path and a base.
pub uninterp spec fn std_path_strip_prefix(p: Seq<char>, base: Seq<char>) -> Option<Seq<char>>;

/// Calls `Path::parent`: the path without its final component, if it has
/// one. Its result is named.
#[verifier::external_body]
pub(crate) fn path_parent(p: &str) -> (r: Option<String>)
    ensures
        match r {
            Some(s) => std_path_parent(p@) == Some(s@),
            None => std_path_parent(p@) is None,
        },
{
    std::path::Path::new(p).parent().and_then(|x| x.to_str()).map(|x| x.to_string())
}

/// Calls `Path::file_stem`: the final component without its extension.
/// Its result is named.
#[verifier::external_body]
pub(crate) fn path_file_stem(p: &str) -> (r: Option<String>)
    ensures
        match r {
            Some(s) => std_path_file_stem(p@) == Some(s@),
            None => std_path_file_stem(p@) is None,
        },
{
    std::path::Path::new(p).file_stem().and_then(|x| x.to_str()).map(|x| x.to_string())
}

/// Calls `Path::file_name`: the final component. Its result is named.
#[verifier::external_body]
pub(crate) fn path_file_name(p: &str) -> (r: Option<String>)
    ensures
        match r {
            Some(s) => std_path_file_name(p@) == Some(s@),
            None => std_path_file_name(p@) is None,
        },
{
    std::path::Path::new(p).file_name().and_then(|x| x.to_str()).map(|x| x.to_string())
}

/// Calls `Path::extension`: the part of the final component after its last
/// dot. Its result is named.
#[verifier::external_body]
pub(crate) fn path_extension(p: &str) -> (r: Option<String>)
    ensures
        match r {
            Some(s) => std_path_extension(p@) == Some(s@),
            None => std_path_extension(p@) is None,
        },
{
    std::path::Path::new(p).extension().and_then(|x| x.to_str()).map(|x| x.to_string())
}

/// Calls `Path::strip_prefix`: the rest of the path when `base` is a prefix
/// of it, compared component by component, and `None` when it is not. Its
/// result is named.
#[verifier::external_body]
pub(crate) fn path_strip_prefix(p: &str, base: &str) -> (r: Option<String>)
    ensures
        match r {
            Some(s) => std_path_strip_prefix(p@, base@) == Some(s@),
            None => std_path_strip_prefix(p@, base@) is None,
        },
{
    std::path::Path::new(p).strip_prefix(base).ok().and_then(|x| x.to_str()).map(|x| x.to_string())
}

} // verus!
