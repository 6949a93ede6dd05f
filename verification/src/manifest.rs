//! The manifest: the declared file set of one version.

use vstd::prelude::*;
use vstd::string::*;
use crate::error::{PullError, ValidationError};
use crate::text::{trim, trim_str};

verus! {

/// One declared file: where it goes, which object it is, how long it is.
#[derive(Clone, Debug, PartialEq, Eq)]
pub struct ManifestFile {
    /// The file's place in the snapshot, relative to its root.
    pub path: String,
    /// The name of the object that holds the file's bytes.
    pub hash: String,
    /// The object's length in bytes.
    pub size: u64,
}

/// The declared state of one version.
#[derive(Clone, Debug, PartialEq, Eq)]
pub struct Manifest {
    /// The version; it names the snapshot directory.
    pub version: String,
    /// The files, in the order in which they are processed.
    pub files: Vec<ManifestFile>,
}

/// A declared file as contracts see it.
pub struct FileView {
    pub path: Seq<char>,
    pub hash: Seq<char>,
    pub size: u64,
}

/// A manifest as contracts see it.
pub struct ManifestView {
    pub version: Seq<char>,
    pub files: Seq<FileView>,
}

impl View for ManifestFile {
    type V = FileView;

    open spec fn view(&self) -> FileView {
        FileView { path: self.path@, hash: self.hash@, size: self.size }
    }
}

impl View for Manifest {
    type V = ManifestView;

    open spec fn view(&self) -> ManifestView {
        ManifestView {
            version: self.version@,
            files: Seq::new(self.files@.len(), |i: int| self.files@[i]@),
        }
    }
}

/// Whether `hash` can name a file in the object store: it is not empty and
/// holds neither `/` nor `\`.
pub open spec fn hash_ok(hash: Seq<char>) -> bool {
    hash.len() > 0 && forall|i: int| 0 <= i < hash.len() ==> hash[i] != '/' && hash[i] != '\\'
}

/// Whether `version` names a version: something is left of it when white
/// space is cut.
pub open spec fn version_ok(version: Seq<char>) -> bool {
    trim(version).len() > 0
}

/// Refuses a content identifier that could leave the object store.
pub fn validate_hash(hash: &str) -> (r: Result<(), PullError>)
    ensures
        hash_ok(hash@) ==> r is Ok,
        !hash_ok(hash@) ==> r == Err::<(), PullError>(
            PullError::Validation(ValidationError::InvalidHash),
        ),
{
    let n: usize = hash.unicode_len();
    if n == 0 {
        return Err(PullError::Validation(ValidationError::InvalidHash));
    }
    let mut i: usize = 0;
    while i < n
        invariant
            i <= n,
            n == hash@.len(),
            forall|j: int| 0 <= j < i ==> hash@[j] != '/' && hash@[j] != '\\',
        decreases n - i,
    {
        let c: char = hash.get_char(i);
        if c == '/' || c == '\\' {
            return Err(PullError::Validation(ValidationError::InvalidHash));
        }
        i += 1;
    }
    Ok(())
}

/// Refuses a manifest without a version.
pub fn validate_manifest(manifest: &Manifest) -> (r: Result<(), PullError>)
    ensures
        version_ok(manifest.version@) ==> r is Ok,
        !version_ok(manifest.version@) ==> r == Err::<(), PullError>(
            PullError::Validation(ValidationError::EmptyVersion),
        ),
{
    if trim_str(manifest.version.as_str()).unicode_len() == 0 {
        Err(PullError::Validation(ValidationError::EmptyVersion))
    } else {
        Ok(())
    }
}

} // verus!
