use vstd::prelude::*;

verus! {

/// Why scaffolding a project failed; each carries a readable cause.
#[derive(Debug)]
pub enum ScaffoldError {
    /// The archive could not be opened or is not a zip container.
    ArchiveOpen(String),
    /// The archive opens but lacks the entries of an SDK distribution.
    NotRecognized,
    /// An entry could not be read from the archive; holds the entry's index and the cause.
    EntryRead(usize, String),
    /// An entry's path climbs out of the output root, or names a file at the root itself.
    UnsafePath(String),
    /// Creating a directory or writing a file failed; holds the path and cause.
    Io(String),
    /// The executable mode could not be applied; holds the path.
    Permission(String),
    /// The version-control repository could not be created.
    GitInit(String),
}

impl ScaffoldError {
    /// A readable description of the failure.
    pub fn message(&self) -> (r: String)
        ensures
            self is ArchiveOpen ==> r@ == self->ArchiveOpen_0@,
            self is EntryRead ==> r@ == self->EntryRead_1@,
            self is UnsafePath ==> r@ == self->UnsafePath_0@,
            self is Io ==> r@ == self->Io_0@,
            self is Permission ==> r@ == self->Permission_0@,
            self is GitInit ==> r@ == self->GitInit_0@,
            self is NotRecognized ==> r@ == "not an SDK archive"@,
    {
        match self {
            ScaffoldError::ArchiveOpen(s) => s.clone(),
            ScaffoldError::NotRecognized => String::from_str("not an SDK archive"),
            ScaffoldError::EntryRead(_, s) => s.clone(),
            ScaffoldError::UnsafePath(s) => s.clone(),
            ScaffoldError::Io(s) => s.clone(),
            ScaffoldError::Permission(s) => s.clone(),
            ScaffoldError::GitInit(s) => s.clone(),
        }
    }
}

} // verus!
