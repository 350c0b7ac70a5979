//! Paths as text, and the few questions about them that the standard library answers.
use vstd::prelude::*;

verus! {

/// The text of an optional string.
pub open spec fn opt_text(o: Option<String>) -> Option<Seq<char>> {
    match o {
        Some(s) => Some(s@),
        None => None,
    }
}

/// What `Path::parent` gives for a path.
pub uninterp spec fn parent_of(path: Seq<char>) -> Option<Seq<char>>;

/// What `Path::file_name` gives for a path.
pub uninterp spec fn file_name_of(path: Seq<char>) -> Option<Seq<char>>;

/// Whether `Path`'s `==` holds between two paths (it compares their components).
pub uninterp spec fn same_path_spec(a: Seq<char>, b: Seq<char>) -> bool;

/// `Path::new(path).parent()`.  Claimed: the result is the named value `parent_of(path)`;
/// as the documentation says, there is none for the empty path and for the root `/`.
#[verifier::external_body]
pub(crate) fn parent(path: &str) -> (res: Option<String>)
    ensures
        opt_text(res) == parent_of(path@),
        path@.len() == 0 ==> res is None,
        path@ == seq!['/'] ==> res is None,
{
    std::path::Path::new(path).parent().map(|p| p.to_string_lossy().into_owned())
}

/// `Path::new(path).file_name()`.  Claimed: the result is the named value
/// `file_name_of(path)`; as the documentation says, there is none for the root `/`.
#[verifier::external_body]
pub(crate) fn file_name(path: &str) -> (res: Option<String>)
    ensures
        opt_text(res) == file_name_of(path@),
        path@ == seq!['/'] ==> res is None,
{
    std::path::Path::new(path).file_name().map(|n| n.to_string_lossy().into_owned())
}

/// `Path::new(a) == Path::new(b)`.  Claimed: the result is the named value
/// `same_path_spec(a, b)`, and a path equals itself (`Path` is `Eq`).
#[verifier::external_body]
pub(crate) fn same_path(a: &str, b: &str) -> (res: bool)
    ensures
        res == same_path_spec(a@, b@),
        a@ == b@ ==> res,
{
    std::path::Path::new(a) == std::path::Path::new(b)
}

/// Whether `Path::starts_with` holds: `base`'s components begin `path`'s.
pub uninterp spec fn path_starts_with_spec(path: Seq<char>, base: Seq<char>) -> bool;

/// `Path::new(path).starts_with(base)`.  Claimed: the result is the named value
/// `path_starts_with_spec(path, base)`, and a path starts with itself.
#[verifier::external_body]
pub(crate) fn path_starts_with(path: &str, base: &str) -> (res: bool)
    ensures
        res == path_starts_with_spec(path@, base@),
        path@ == base@ ==> res,
{
    std::path::Path::new(path).starts_with(std::path::Path::new(base))
}

/// What `Path::strip_prefix` gives for a path and a base.
pub uninterp spec fn strip_prefix_of(path: Seq<char>, base: Seq<char>) -> Option<Seq<char>>;

/// `Path::new(path).strip_prefix(base)`, the error read as `None`.  Claimed: the result is
/// the named value `strip_prefix_of(path, base)`.
#[verifier::external_body]
pub(crate) fn strip_path_prefix(path: &str, base: &str) -> (res: Option<String>)
    ensures
        opt_text(res) == strip_prefix_of(path@, base@),
{
    match std::path::Path::new(path).strip_prefix(base) {
        Ok(rest) => Some(rest.to_string_lossy().into_owned()),
        Err(_) => None,
    }
}

/// `String::from_utf8_lossy`: what a byte string reads as.
pub uninterp spec fn lossy_text(bytes: Seq<u8>) -> Seq<char>;

/// `String::from_utf8_lossy(bytes)`.  Claimed: the result is the named value
/// `lossy_text(bytes)`, which for valid UTF-8 is its decoding (the documentation: valid
/// input is returned unchanged; invalid sequences become U+FFFD, which is left unstated).
#[verifier::external_body]
pub(crate) fn utf8_lossy(bytes: &[u8]) -> (res: String)
    ensures
        res@ == lossy_text(bytes@),
        vstd::utf8::valid_utf8(bytes@) ==> res@ == vstd::utf8::decode_utf8(bytes@),
{
    String::from_utf8_lossy(bytes).into_owned()
}

} // verus!
