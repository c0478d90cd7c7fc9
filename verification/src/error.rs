use vstd::prelude::*;

verus! {

/// Why a directory enumeration failed, as reported by the directory
/// collaborator that lists a folder's immediate children.
#[derive(Clone, Copy, Debug, PartialEq, Eq, Structural)]
pub enum DirErrorKind {
    NotFound,
    PermissionDenied,
    IoFailure,
}

/// Errors surfaced synchronously by tree operations.
///
/// Enumeration failures are deliberately absent here: they degrade a scan
/// gracefully and are recorded per node (see `EnumerationFailure`), never
/// raised as a fatal error.
#[derive(Clone, Copy, Debug, PartialEq, Eq, Structural)]
pub enum FileSystemError {
    /// A folder that is not a filesystem root was registered as a disk.
    NotADisk,
    /// The subtree handed to a merge matches no node of the main tree.
    FolderNotFound,
    /// The starting path of a scan could not be enumerated at all.
    RootUnreachable,
}

/// A per-node record that one folder could not be enumerated. A scan of a
/// large tree survives unreadable subdirectories: the folder is still marked
/// traversed, with whatever entries succeeded, and this record is kept.
#[derive(Clone, Debug)]
pub struct EnumerationFailure {
    pub path: String,
    pub cause: DirErrorKind,
}

/// Mathematical image of an `EnumerationFailure`.
#[verifier::ext_equal]
pub struct EnumerationFailureV {
    pub path: Seq<char>,
    pub cause: DirErrorKind,
}

impl View for EnumerationFailure {
    type V = EnumerationFailureV;

    open spec fn view(&self) -> EnumerationFailureV {
        EnumerationFailureV { path: self.path@, cause: self.cause }
    }
}

impl FileSystemError {
    /// A human-readable description of the error.
    pub fn message(&self) -> (r: &'static str)
        ensures
            *self == FileSystemError::NotADisk ==> r@ == "The provided folder is not a disk."@,
            *self == FileSystemError::FolderNotFound ==> r@
                == "The provided Subfolder was not found in the main Folder"@,
            *self == FileSystemError::RootUnreachable ==> r@
                == "The starting path could not be enumerated"@,
    {
        match self {
            FileSystemError::NotADisk => "The provided folder is not a disk.",
            FileSystemError::FolderNotFound => {
                "The provided Subfolder was not found in the main Folder"
            },
            FileSystemError::RootUnreachable => "The starting path could not be enumerated",
        }
    }
}

} // verus!
