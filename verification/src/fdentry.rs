//! Descriptor origins, table entries, and their staged forms.
//!
//! A table entry wraps one descriptor origin — a host file handle, a
//! virtual directory, or a standard-stream alias — plus the guest path
//! recorded for capability roots.  What the table core reads of a host
//! file handle is modeled as plain data: the outcome its metadata query
//! will report.

use vstd::prelude::*;

use crate::error::WasiCtxBuilderError;
use crate::virtfs::VirtualDir;

verus! {

/// Outcome of the host metadata query for an open host file, recorded
/// when the handle is wrapped and consumed at finalization.
#[derive(Clone, Copy, Debug, PartialEq, Eq, Structural)]
pub enum Metadata {
    /// The query fails with a general I/O error.
    Unavailable,
    /// The handle refers to a directory.
    Directory,
    /// The handle refers to something other than a directory.
    NotDirectory,
}

/// A wrapped host file handle.  Of the host resource behind it, the
/// table core reads exactly one thing: the metadata outcome.
#[derive(Clone, Copy, Debug)]
pub struct OsHandle {
    /// What the host's metadata query reports for this handle.
    pub meta: Metadata,
}

impl OsHandle {
    /// Answers the metadata query: whether the handle is a directory,
    /// or a general I/O failure.
    pub fn is_directory(&self) -> (r: Result<bool, WasiCtxBuilderError>)
        ensures
            (r is Ok) == (self.meta != Metadata::Unavailable),
            r matches Ok(b) ==> b == (self.meta == Metadata::Directory),
            r matches Err(e) ==> e is Io,
    {
        match self.meta {
            Metadata::Unavailable => Err(WasiCtxBuilderError::Io),
            Metadata::Directory => Ok(true),
            Metadata::NotDirectory => Ok(false),
        }
    }
}

/// Origin of one table entry: a host handle, a virtual directory, or a
/// standard-stream alias.
#[derive(Debug)]
pub enum Descriptor {
    OsHandle(OsHandle),
    VirtualFile(VirtualDir),
    Stdin,
    Stdout,
    Stderr,
}

/// One finalized table entry: a descriptor origin plus, for capability
/// roots only, the guest path granted with it.
#[derive(Debug)]
pub struct FdEntry {
    /// The origin this entry wraps.
    pub descriptor: Descriptor,
    /// The guest path recorded for preopen-derived entries.
    pub preopen_path: Option<Vec<u8>>,
}

/// The entry the null-device resolution produces: a non-directory host
/// handle, no preopen path.
pub open spec fn null_entry() -> FdEntry {
    FdEntry {
        descriptor: Descriptor::OsHandle(OsHandle { meta: Metadata::NotDirectory }),
        preopen_path: None,
    }
}

/// The entry that duplicates host stdin.
pub open spec fn stdin_entry() -> FdEntry {
    FdEntry { descriptor: Descriptor::Stdin, preopen_path: None }
}

/// The entry that duplicates host stdout.
pub open spec fn stdout_entry() -> FdEntry {
    FdEntry { descriptor: Descriptor::Stdout, preopen_path: None }
}

/// The entry that duplicates host stderr.
pub open spec fn stderr_entry() -> FdEntry {
    FdEntry { descriptor: Descriptor::Stderr, preopen_path: None }
}

/// Wrapping `d` into an entry succeeds: only a host handle whose
/// metadata query fails makes it fail.
pub open spec fn descriptor_resolves(d: Descriptor) -> bool {
    match d {
        Descriptor::OsHandle(h) => h.meta != Metadata::Unavailable,
        _ => true,
    }
}

/// The entry wrapping origin `d`, with no preopen path.
pub open spec fn entry_of(d: Descriptor) -> FdEntry {
    FdEntry { descriptor: d, preopen_path: None }
}

impl FdEntry {
    /// Entry for the null device.
    pub fn null() -> (r: FdEntry)
        ensures
            r == null_entry(),
    {
        FdEntry {
            descriptor: Descriptor::OsHandle(OsHandle { meta: Metadata::NotDirectory }),
            preopen_path: None,
        }
    }

    /// Entry that duplicates host stdin.
    pub fn duplicate_stdin() -> (r: FdEntry)
        ensures
            r == stdin_entry(),
    {
        FdEntry { descriptor: Descriptor::Stdin, preopen_path: None }
    }

    /// Entry that duplicates host stdout.
    pub fn duplicate_stdout() -> (r: FdEntry)
        ensures
            r == stdout_entry(),
    {
        FdEntry { descriptor: Descriptor::Stdout, preopen_path: None }
    }

    /// Entry that duplicates host stderr.
    pub fn duplicate_stderr() -> (r: FdEntry)
        ensures
            r == stderr_entry(),
    {
        FdEntry { descriptor: Descriptor::Stderr, preopen_path: None }
    }

    /// Fallible constructor from a descriptor origin: wrapping a host
    /// handle consults its metadata, which may fail with a general I/O
    /// error.
    pub fn from(d: Descriptor) -> (r: Result<FdEntry, WasiCtxBuilderError>)
        ensures
            (r is Ok) == descriptor_resolves(d),
            r matches Ok(fe) ==> fe == entry_of(d),
            r matches Err(e) ==> e is Io,
    {
        match d {
            Descriptor::OsHandle(h) => {
                if matches!(h.meta, Metadata::Unavailable) {
                    Err(WasiCtxBuilderError::Io)
                } else {
                    Ok(FdEntry { descriptor: Descriptor::OsHandle(h), preopen_path: None })
                }
            },
            _ => Ok(FdEntry { descriptor: d, preopen_path: None }),
        }
    }
}

/// The fixed set of deferred resolution operations for the standard
/// streams.
#[derive(Clone, Copy, Debug)]
pub enum ThunkOp {
    /// Produce a null-device entry.
    Null,
    /// Duplicate host stdin.
    DuplicateStdin,
    /// Duplicate host stdout.
    DuplicateStdout,
    /// Duplicate host stderr.
    DuplicateStderr,
}

/// A staged table entry for a standard stream: a deferred resolution
/// operation, or an already-open host file handed over directly.
#[derive(Clone, Copy, Debug)]
pub enum PendingFdEntry {
    Thunk(ThunkOp),
    File(OsHandle),
}

/// The entry a resolution operation produces.
pub open spec fn thunk_entry(op: ThunkOp) -> FdEntry {
    match op {
        ThunkOp::Null => null_entry(),
        ThunkOp::DuplicateStdin => stdin_entry(),
        ThunkOp::DuplicateStdout => stdout_entry(),
        ThunkOp::DuplicateStderr => stderr_entry(),
    }
}

/// Resolving the staged entry succeeds.
pub open spec fn pending_resolves(p: PendingFdEntry) -> bool {
    match p {
        PendingFdEntry::Thunk(_) => true,
        PendingFdEntry::File(h) => h.meta != Metadata::Unavailable,
    }
}

/// The entry the staged entry resolves to.
pub open spec fn pending_entry(p: PendingFdEntry) -> FdEntry {
    match p {
        PendingFdEntry::Thunk(op) => thunk_entry(op),
        PendingFdEntry::File(h) => entry_of(Descriptor::OsHandle(h)),
    }
}

impl PendingFdEntry {
    /// Resolves the staged entry at finalization: invokes the deferred
    /// operation, or wraps the supplied host file.
    pub fn resolve(self) -> (r: Result<FdEntry, WasiCtxBuilderError>)
        ensures
            (r is Ok) == pending_resolves(self),
            r matches Ok(fe) ==> fe == pending_entry(self),
            r matches Err(e) ==> e is Io,
    {
        match self {
            PendingFdEntry::Thunk(ThunkOp::Null) => Ok(FdEntry::null()),
            PendingFdEntry::Thunk(ThunkOp::DuplicateStdin) => Ok(FdEntry::duplicate_stdin()),
            PendingFdEntry::Thunk(ThunkOp::DuplicateStdout) => Ok(FdEntry::duplicate_stdout()),
            PendingFdEntry::Thunk(ThunkOp::DuplicateStderr) => Ok(FdEntry::duplicate_stderr()),
            PendingFdEntry::File(h) => FdEntry::from(Descriptor::OsHandle(h)),
        }
    }
}

} // verus!
