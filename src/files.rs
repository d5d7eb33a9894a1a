//! What the file index decides about one path: its stem, its extension, and
//! whether it is a candidate at all.
use vstd::prelude::*;
use crate::text::text;

verus! {

/// Errors raised while looking at paths on the file system.
#[derive(Debug, Clone, PartialEq)]
pub enum FileError {
    ConvertPathToString(String),
    GetFileStem(String),
    ReadFile(String),
    WriteFile,
}

/// One discovered file and the stem it is matched by.
#[derive(Debug, Clone, PartialEq, Eq)]
pub struct PathWithKey {
    /// Full path to the file.
    pub path: String,
    /// Stem of the file used for matching.
    pub key: String,
}

/// What `std::path::Path::file_stem` gives for a path.
pub uninterp spec fn file_stem_of(path: Seq<char>) -> Option<Seq<char>>;

/// What `std::path::Path::extension` gives for a path.
pub uninterp spec fn extension_of(path: Seq<char>) -> Option<Seq<char>>;

/// A text without the path separator `/`.
pub open spec fn no_separator(s: Seq<char>) -> bool {
    forall|i: int| 0 <= i < s.len() ==> s[i] != '/'
}

/// What `str::to_lowercase` gives for a string.
pub uninterp spec fn lowercase_of(s: Seq<char>) -> Seq<char>;

/// Relies on `std::path::Path::file_stem`: the file name of the path's last
/// component without its extension, or nothing where the path has no file name.
#[verifier::external_body]
fn path_file_stem(path: &str) -> (r: Option<String>)
    ensures
        match r {
            Some(s) => file_stem_of(path@) == Some(s@),
            None => file_stem_of(path@) is None,
        },
{
    std::path::Path::new(path).file_stem().map(|s| s.to_string_lossy().into_owned())
}

/// Relies on `std::path::Path::extension`: the part of the file name after its
/// last dot, or nothing where there is none. Being part of a file name, it
/// holds no separator.
#[verifier::external_body]
pub(crate) fn path_extension(path: &str) -> (r: Option<String>)
    ensures
        match r {
            Some(s) => extension_of(path@) == Some(s@),
            None => extension_of(path@) is None,
        },
        r matches Some(s) ==> no_separator(s@),
{
    std::path::Path::new(path).extension().map(|s| s.to_string_lossy().into_owned())
}

/// Relies on `str::to_lowercase`: the result depends on the characters alone.
#[verifier::external_body]
fn lowercase(s: &str) -> (r: String)
    ensures
        r@ == lowercase_of(s@),
{
    s.to_lowercase()
}

/// The stem of a path: its file name without the extension.
pub fn get_file_stem(file_path: &str) -> (r: Result<String, FileError>)
    ensures
        match file_stem_of(file_path@) {
            Some(s) => r matches Ok(t) && t@ == s,
            None => r matches Err(FileError::GetFileStem(p)) && p@ == file_path@,
        },
{
    match path_file_stem(file_path) {
        Some(s) => Ok(s),
        None => Err(FileError::GetFileStem(text(file_path))),
    }
}

/// The extension of a path, without its dot.
pub fn get_file_extension(file_path: &str) -> (r: Result<String, FileError>)
    ensures
        match extension_of(file_path@) {
            Some(s) => r matches Ok(t) && t@ == s,
            None => r matches Err(FileError::ReadFile(p)) && p@ == file_path@,
        },
{
    match path_extension(file_path) {
        Some(s) => Ok(s),
        None => Err(FileError::ReadFile(text(file_path))),
    }
}

/// A path as an owned string; a path held as text always converts.
pub fn get_filepath_as_string(file_path: &str) -> (r: Result<String, FileError>)
    ensures
        r matches Ok(t) && t@ == file_path@,
{
    Ok(text(file_path))
}

/// Whether `ext`, ignoring case, is one of `wanted`.
pub open spec fn extension_wanted(ext: Seq<char>, wanted: Seq<String>) -> bool {
    exists|i: int| 0 <= i < wanted.len() && lowercase_of(wanted[i]@) == lowercase_of(ext)
}

/// The index entry for one file: present when the path has a stem and an
/// extension that is, ignoring case, one of `wanted`.
pub fn index_entry(path: &str, wanted: &Vec<String>) -> (r: Option<PathWithKey>)
    ensures
        match (extension_of(path@), file_stem_of(path@)) {
            (Some(ext), Some(stem)) => if extension_wanted(ext, wanted@) {
                r matches Some(e) && e.path@ == path@ && e.key@ == stem
            } else {
                r is None
            },
            _ => r is None,
        },
{
    let ext = match get_file_extension(path) {
        Ok(e) => e,
        Err(_) => return None,
    };
    let stem = match get_file_stem(path) {
        Ok(s) => s,
        Err(_) => return None,
    };
    let ext_lower = lowercase(ext.as_str());
    let mut i: usize = 0;
    while i < wanted.len()
        invariant
            i <= wanted@.len(),
            ext_lower@ == lowercase_of(ext@),
            extension_of(path@) == Some(ext@),
            file_stem_of(path@) == Some(stem@),
            forall|j: int| 0 <= j < i ==> lowercase_of(wanted@[j]@) != lowercase_of(ext@),
        decreases wanted@.len() - i,
    {
        let w = lowercase(wanted[i].as_str());
        if w == ext_lower {
            assert(lowercase_of(wanted@[i as int]@) == lowercase_of(ext@));
            assert(extension_wanted(ext@, wanted@));
            return Some(PathWithKey { path: text(path), key: stem });
        }
        i = i + 1;
    }
    None
}

} // verus!
