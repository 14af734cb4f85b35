//! What std's `Path` says of a path written as text: component-wise
//! equality and prefixes, and the file name, stem and extension. Each is a
//! function of its arguments within one build, and is named here.
use vstd::prelude::*;

verus! {

/// Whether two paths have the same components (`Path`'s `==`).
pub uninterp spec fn same_path(a: Seq<char>, b: Seq<char>) -> bool;

/// Whether `base` is a leading run of whole components of `path`
/// (`Path::starts_with`).
pub uninterp spec fn path_within(path: Seq<char>, base: Seq<char>) -> bool;

/// The last component of `path` when it is a normal one (`Path::file_name`).
pub uninterp spec fn file_name_of(path: Seq<char>) -> Option<Seq<char>>;

/// The file name without its extension, when there is a file name
/// (`Path::file_stem`).
pub uninterp spec fn file_stem_of(path: Seq<char>) -> Option<Seq<char>>;

/// The extension of the file name, when it has one (`Path::extension`).
pub uninterp spec fn extension_of(path: Seq<char>) -> Option<Seq<char>>;

/// The path without its last component, when it has one (`Path::parent`).
pub uninterp spec fn parent_of(path: Seq<char>) -> Option<Seq<char>>;

/// The `{:?}` rendering of the path (`Path`'s `Debug`).
pub uninterp spec fn debug_text_of(path: Seq<char>) -> Seq<char>;

/// The path written back from its components (`Path::components`): repeated
/// separators, inner `.` and a trailing separator are gone. Two paths with
/// the same components, which `Path`'s `==` counts as one path, get the
/// same key.
pub uninterp spec fn path_key_of(path: Seq<char>) -> Seq<char>;

/// `==` on `std::path::Path`: compares the two paths component by
/// component. The result is named (`same_path`); equal texts are equal paths.
#[verifier::external_body]
pub(crate) fn path_eq(a: &str, b: &str) -> (r: bool)
    ensures
        r == same_path(a@, b@),
        a@ == b@ ==> r,
{
    std::path::Path::new(a) == std::path::Path::new(b)
}

/// `Path::starts_with` from std: whether `base` is a leading run of whole
/// components of `path`. The result is named (`path_within`).
#[verifier::external_body]
pub(crate) fn path_starts_with(path: &str, base: &str) -> (r: bool)
    ensures
        r == path_within(path@, base@),
{
    std::path::Path::new(path).starts_with(base)
}

/// `Path::file_name` from std, as text. The result is named (`file_name_of`).
#[verifier::external_body]
pub(crate) fn path_file_name(path: &str) -> (r: Option<String>)
    ensures
        match r {
            Some(n) => file_name_of(path@) == Some(n@),
            None => file_name_of(path@) is None,
        },
{
    std::path::Path::new(path).file_name().map(|n| n.to_string_lossy().to_string())
}

/// `Path::parent` from std, as text. The result is named (`parent_of`).
#[verifier::external_body]
pub(crate) fn path_parent(path: &str) -> (r: Option<String>)
    ensures
        match r {
            Some(p) => parent_of(path@) == Some(p@),
            None => parent_of(path@) is None,
        },
{
    std::path::Path::new(path).parent().map(|p| p.to_string_lossy().to_string())
}

/// `Path::file_stem` from std, as text. The result is named (`file_stem_of`).
#[verifier::external_body]
pub(crate) fn path_file_stem(path: &str) -> (r: Option<String>)
    ensures
        match r {
            Some(t) => file_stem_of(path@) == Some(t@),
            None => file_stem_of(path@) is None,
        },
{
    std::path::Path::new(path).file_stem().map(|t| t.to_string_lossy().to_string())
}

/// `Path::extension` from std, as text. The result is named (`extension_of`).
#[verifier::external_body]
pub(crate) fn path_extension(path: &str) -> (r: Option<String>)
    ensures
        match r {
            Some(t) => extension_of(path@) == Some(t@),
            None => extension_of(path@) is None,
        },
{
    std::path::Path::new(path).extension().map(|t| t.to_string_lossy().to_string())
}

/// `Path::components` from std, collected back into a path and written as
/// text. The result is named (`path_key_of`).
#[verifier::external_body]
pub(crate) fn path_key(path: &str) -> (r: String)
    ensures
        r@ == path_key_of(path@),
{
    std::path::Path::new(path).components().collect::<std::path::PathBuf>().to_string_lossy().to_string()
}

/// `format!("{:?}", path)` on a `std::path::Path`. The result is named
/// (`debug_text_of`).
#[verifier::external_body]
pub(crate) fn path_debug_text(path: &str) -> (r: String)
    ensures
        r@ == debug_text_of(path@),
{
    format!("{:?}", std::path::Path::new(path))
}

/// The text held by `o`, empty when there is none.
pub open spec fn or_empty(o: Option<Seq<char>>) -> Seq<char> {
    match o {
        Some(t) => t,
        None => Seq::empty(),
    }
}

/// The text of `o`, empty when there is none (see `or_empty`).
pub fn text_or_empty(o: Option<String>) -> (r: String)
    ensures
        r@ == or_empty(match o { Some(t) => Some(t@), None => None }),
{
    match o {
        Some(t) => t,
        None => String::new(),
    }
}

/// The file name of `path` as shown to the user: empty when it has none.
pub open spec fn shown_file_name(path: Seq<char>) -> Seq<char> {
    or_empty(file_name_of(path))
}

/// The file name of `path`, empty when it has none (see `shown_file_name`).
pub fn file_name_text(path: &str) -> (r: String)
    ensures
        r@ == shown_file_name(path@),
{
    text_or_empty(path_file_name(path))
}

} // verus!
