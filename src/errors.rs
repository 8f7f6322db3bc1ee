//! The errors that the file system's operations return.

use vstd::prelude::*;

verus! {

/// Failures met while resolving a path, shared by every path-based operation.
#[non_exhaustive]
#[derive(Clone, Copy, Debug, PartialEq, Eq, Structural)]
pub enum PathError {
    NoSuchFileOrDirectory,
    MissingComponent,
    ComponentNotADirectory,
    NoSearchPerms,
}

/// Possible errors of an operation that has none yet.
#[non_exhaustive]
#[derive(Clone, Copy, Debug, PartialEq, Eq, Structural)]
pub enum FooError {
    /// This file system does not store file contents, so the operation is
    /// not offered.
    Unsupported,
}

/// Possible errors from `FileSystem::open`.
#[non_exhaustive]
#[derive(Clone, Copy, Debug, PartialEq, Eq, Structural)]
pub enum OpenError {
    /// This file system does not store file contents, so the operation is
    /// not offered.
    Unsupported,
}

/// Possible errors from `FileSystem::close`.
#[non_exhaustive]
#[derive(Clone, Copy, Debug, PartialEq, Eq, Structural)]
pub enum CloseError {
    /// This file system does not store file contents, so the operation is
    /// not offered.
    Unsupported,
}

/// Possible errors from `FileSystem::read`.
#[non_exhaustive]
#[derive(Clone, Copy, Debug, PartialEq, Eq, Structural)]
pub enum ReadError {
    /// This file system does not store file contents, so the operation is
    /// not offered.
    Unsupported,
}

/// Possible errors from `FileSystem::write`.
#[non_exhaustive]
#[derive(Clone, Copy, Debug, PartialEq, Eq, Structural)]
pub enum WriteError {
    /// This file system does not store file contents, so the operation is
    /// not offered.
    Unsupported,
}

/// Possible errors from `FileSystem::chmod`.
#[non_exhaustive]
#[derive(Clone, Copy, Debug, PartialEq, Eq, Structural)]
pub enum ChmodError {
    NotTheOwner,
    PathError(PathError),
}

/// Possible errors from `FileSystem::unlink`.
#[non_exhaustive]
#[derive(Clone, Copy, Debug, PartialEq, Eq, Structural)]
pub enum UnlinkError {
    NoWritePerms,
    IsADirectory,
    PathError(PathError),
}

/// Possible errors from `FileSystem::mkdir`.
#[non_exhaustive]
#[derive(Clone, Copy, Debug, PartialEq, Eq, Structural)]
pub enum MkdirError {
    NoWritePerms,
    AlreadyExists,
    PathError(PathError),
}

/// Possible errors from `FileSystem::rmdir`.
#[non_exhaustive]
#[derive(Clone, Copy, Debug, PartialEq, Eq, Structural)]
pub enum RmdirError {
    NoWritePerms,
    Busy,
    NotADirectory,
    NotEmpty,
    PathError(PathError),
}

} // verus!
