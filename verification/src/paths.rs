//! File-system path arithmetic on strings, through `std::path::Path`.
//!
//! The results of `Path`'s component logic are named, not restated: each
//! name below stands for what the `std` function returns on the given text
//! on the build target (Unix and Windows split paths differently).
use vstd::prelude::*;

verus! {

/// What `Path::extension` gives for the path text `p`.
pub uninterp spec fn spec_extension(p: Seq<char>) -> Option<Seq<char>>;

/// What `Path::file_stem` gives for the path text `p`.
pub uninterp spec fn spec_file_stem(p: Seq<char>) -> Option<Seq<char>>;

/// What `Path::file_name` gives for the path text `p`.
pub uninterp spec fn spec_file_name(p: Seq<char>) -> Option<Seq<char>>;

/// What `Path::parent` gives for the path text `p`.
pub uninterp spec fn spec_parent(p: Seq<char>) -> Option<Seq<char>>;

/// What `Path::join` gives for the path texts `base` and `rest`.
pub uninterp spec fn spec_join(base: Seq<char>, rest: Seq<char>) -> Seq<char>;

/// What `Path::is_absolute` gives for the path text `p`.
pub uninterp spec fn spec_is_absolute(p: Seq<char>) -> bool;

/// The view of an optional string.
pub open spec fn opt_view(o: Option<String>) -> Option<Seq<char>> {
    match o {
        Some(s) => Some(s@),
        None => None,
    }
}

/// `Path::new(p).extension()`: the text after the file name's last `.`.
#[verifier::external_body]
pub(crate) fn path_extension(p: &str) -> (r: Option<String>)
    ensures
        opt_view(r) == spec_extension(p@),
{
    std::path::Path::new(p).extension().map(|e| e.to_string_lossy().into_owned())
}

/// `Path::new(p).file_stem()`: the file name without its extension.
#[verifier::external_body]
pub(crate) fn path_file_stem(p: &str) -> (r: Option<String>)
    ensures
        opt_view(r) == spec_file_stem(p@),
{
    std::path::Path::new(p).file_stem().map(|e| e.to_string_lossy().into_owned())
}

/// `Path::new(p).file_name()`: the last component of the path.
#[verifier::external_body]
pub(crate) fn path_file_name(p: &str) -> (r: Option<String>)
    ensures
        opt_view(r) == spec_file_name(p@),
{
    std::path::Path::new(p).file_name().map(|e| e.to_string_lossy().into_owned())
}

/// `Path::new(p).parent()`: the path without its last component.
#[verifier::external_body]
pub(crate) fn path_parent(p: &str) -> (r: Option<String>)
    ensures
        opt_view(r) == spec_parent(p@),
{
    std::path::Path::new(p).parent().map(|e| e.to_string_lossy().into_owned())
}

/// `Path::new(p).is_absolute()`.
#[verifier::external_body]
pub(crate) fn path_is_absolute(p: &str) -> (r: bool)
    ensures
        r == spec_is_absolute(p@),
{
    std::path::Path::new(p).is_absolute()
}

/// A single normal path component: non-empty, neither `.` nor `..`, and
/// free of separators and drive colons.
pub open spec fn is_plain_name(s: Seq<char>) -> bool {
    &&& s.len() > 0
    &&& s != seq!['.']
    &&& s != seq!['.', '.']
    &&& forall|i: int| 0 <= i < s.len() ==> #[trigger] s[i] != '/' && s[i] != '\\' && s[i] != ':'
}

/// `Path::new(base).join(rest)`.  Joining a single normal component appends
/// it as the new last component, so it is the file name of the result.
#[verifier::external_body]
pub(crate) fn path_join(base: &str, rest: &str) -> (r: String)
    ensures
        r@ == spec_join(base@, rest@),
        is_plain_name(rest@) ==> spec_file_name(r@) == Some(rest@),
{
    std::path::Path::new(base).join(rest).to_string_lossy().into_owned()
}

} // verus!
