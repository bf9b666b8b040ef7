//! Scaffolds a new game project from an SDK zip archive: recognises the archive,
//! plans the extraction of its SDK directory (path remapping, directory and file
//! creation, executable modes, scaffold files), and initialises a repository.
pub mod action;
pub mod archive;
pub mod error;
pub mod extract;
pub mod git;
pub mod paths;
pub mod triggers;
