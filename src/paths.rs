//! Names taken from paths: the project's name, and a recipe's name from its
//! file.
use vstd::prelude::*;

verus! {

/// The final component of a path, as `Path::file_name` gives it.
pub uninterp spec fn path_file_name(p: Seq<char>) -> Option<Seq<char>>;

/// The final component of a path without its extension, as `Path::file_stem`
/// gives it.
pub uninterp spec fn path_file_stem(p: Seq<char>) -> Option<Seq<char>>;

/// The text an optional string holds.
pub open spec fn opt_text(r: Option<String>) -> Option<Seq<char>> {
    match r {
        Some(s) => Some(s@),
        None => None,
    }
}

/// Relies on `Path::file_name`: the final component of the path, if it has
/// one; a component of a UTF-8 path is UTF-8 too.
#[verifier::external_body]
fn file_name_of(p: &str) -> (r: Option<String>)
    ensures
        opt_text(r) == path_file_name(p@),
{
    std::path::Path::new(p).file_name().and_then(|n| n.to_str()).map(|n| n.to_owned())
}

/// Relies on `Path::file_stem`: the final component without its extension, if
/// the path has a final component.
#[verifier::external_body]
fn file_stem_of(p: &str) -> (r: Option<String>)
    ensures
        opt_text(r) == path_file_stem(p@),
{
    std::path::Path::new(p).file_stem().and_then(|n| n.to_str()).map(|n| n.to_owned())
}

/// The project's name: the final segment of its directory, `None` where the
/// path has none.
pub fn project_name(directory: &str) -> (r: Option<String>)
    ensures
        opt_text(r) == path_file_name(directory@),
{
    file_name_of(directory)
}

/// The name shown for a recipe file: its stem, else its file name, else the
/// whole path.
pub open spec fn display_name(p: Seq<char>) -> Seq<char> {
    match path_file_stem(p) {
        Some(s) => s,
        None => match path_file_name(p) {
            Some(s) => s,
            None => p,
        },
    }
}

/// The name shown for a recipe file that could not be read.
pub fn name_from_path(path: &str) -> (r: String)
    ensures
        r@ == display_name(path@),
{
    match file_stem_of(path) {
        Some(s) => s,
        None => match file_name_of(path) {
            Some(s) => s,
            None => path.to_owned(),
        },
    }
}

} // verus!
