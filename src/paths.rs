//! Resolving a path against a working directory.
use vstd::prelude::*;

verus! {

/// Whether std's `Path::is_absolute` holds of the path spelled `p`.
pub uninterp spec fn path_is_absolute(p: Seq<char>) -> bool;

/// The path that std's `Path::join` makes of `dir` and `p`.
pub uninterp spec fn joined_path(dir: Seq<char>, p: Seq<char>) -> Seq<char>;

/// Relies on `std::path::Path::is_absolute`, which looks at the text of the
/// path alone.
#[verifier::external_body]
fn is_absolute(p: &str) -> (r: bool)
    ensures
        r == path_is_absolute(p@),
{
    std::path::Path::new(p).is_absolute()
}

/// Relies on `std::path::Path::join`, which adjoins `p` to `dir` (or takes
/// `p` where it is absolute). Both inputs are UTF-8, so the lossy conversion
/// of the result keeps every character.
#[verifier::external_body]
fn join(dir: &str, p: &str) -> (r: String)
    ensures
        r@ == joined_path(dir@, p@),
{
    std::path::Path::new(dir).join(p).to_string_lossy().into_owned()
}

/// The path that `path` names when `current_dir` is the working directory:
/// `path` itself where there is no working directory or `path` is absolute,
/// else `path` joined to the working directory.
pub fn actual_path(current_dir: &Option<String>, path: &str) -> (r: String)
    ensures
        r@ == (match current_dir {
            Some(dir) if !path_is_absolute(path@) => joined_path(dir@, path@),
            _ => path@,
        }),
{
    match current_dir {
        Some(dir) => {
            if !is_absolute(path) {
                join(dir.as_str(), path)
            } else {
                path.to_string()
            }
        },
        None => path.to_string(),
    }
}

} // verus!
