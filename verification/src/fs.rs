//! What file system operations report.

use crate::text;
use vstd::prelude::*;

verus! {

/// Why a file system operation failed.
#[derive(Debug, PartialEq, Eq)]
pub enum FsError {
    /// There is nothing at the path.
    NotFound(String),
    /// What is at the path is no file.
    NotAFile(String),
    /// The system's words for anything else.
    Io(String),
}

impl FsError {
    /// The error in words.
    pub open spec fn words(self) -> Seq<char> {
        match self {
            FsError::NotFound(path) => "file not found: "@ + path@,
            FsError::NotAFile(path) => "not a file: "@ + path@,
            FsError::Io(what) => what@,
        }
    }

    /// The error in words.
    pub fn message(&self) -> (words: String)
        ensures
            words@ == self.words(),
    {
        match self {
            FsError::NotFound(path) => text::joined("file not found: ", path.as_str()),
            FsError::NotAFile(path) => text::joined("not a file: ", path.as_str()),
            FsError::Io(what) => what.clone(),
        }
    }
}

/// An entry of a directory.
#[derive(Debug, PartialEq, Eq)]
pub struct FileEntry {
    pub name: String,
    pub path: String,
    pub is_dir: bool,
    /// The size in bytes.
    pub len: u64,
}

impl Clone for FileEntry {
    fn clone(&self) -> (copy: Self)
        ensures
            copy == *self,
    {
        FileEntry {
            name: self.name.clone(),
            path: self.path.clone(),
            is_dir: self.is_dir,
            len: self.len,
        }
    }
}

/// What the system says of a path.
pub enum Found {
    /// There is a file.
    File,
    /// There is something else.
    Other,
    /// There is nothing.
    Nothing,
    /// It could not say, and why.
    Failed(String),
}

/// Operations on files.
pub struct FileSystem;

impl FileSystem {
    /// Whether the path can be read as a file, of what the system says of it.
    pub fn readable(path: &str, found: Found) -> (checked: Result<(), FsError>)
        ensures
            match found {
                Found::File => checked is Ok,
                Found::Other => checked matches Err(FsError::NotAFile(p)) && p@ == path@,
                Found::Nothing => checked matches Err(FsError::NotFound(p)) && p@ == path@,
                Found::Failed(why) => checked == Err::<(), FsError>(FsError::Io(why)),
            },
    {
        match found {
            Found::File => Ok(()),
            Found::Other => Err(FsError::NotAFile(path.to_owned())),
            Found::Nothing => Err(FsError::NotFound(path.to_owned())),
            Found::Failed(why) => Err(FsError::Io(why)),
        }
    }

    /// Whether there is something at the path, of what the system says of it.
    pub fn is_present(found: &Found) -> (b: bool)
        ensures
            b == (found is File || found is Other),
    {
        match found {
            Found::File => true,
            Found::Other => true,
            Found::Nothing => false,
            Found::Failed(_) => false,
        }
    }
}

/// A path can be read if and only if there is a file, and an error names the path.
pub proof fn law_only_files_are_read(path: &str, found: Found, checked: Result<(), FsError>)
    requires
        call_ensures(FileSystem::readable, (path, found), checked),
    ensures
        checked is Ok <==> found is File,
        found is Nothing ==> (checked matches Err(FsError::NotFound(p)) && p@ == path@),
        found is Other ==> (checked matches Err(FsError::NotAFile(p)) && p@ == path@),
{
}

} // verus!
