//! Error taxonomy of the builder pipeline and of the runtime table.

use vstd::prelude::*;

verus! {

/// Possible errors when `WasiCtxBuilder` fails building a `WasiCtx`.
///
/// Text and encoding problems surface only at finalization, never at the
/// individual configuration calls, because all validation is deferred.
#[derive(Debug)]
pub enum WasiCtxBuilderError {
    /// A general I/O error was encountered while resolving a descriptor.
    Io,
    /// A provided byte sequence was not valid UTF-8.
    InvalidUtf8,
    /// A provided host-native string was not valid UTF-16.
    InvalidUtf16,
    /// A provided sequence contained an unexpected NUL byte.
    UnexpectedNul,
    /// The origin of a preopen grant is not a directory; carries the
    /// guest path of the offending grant.
    NotADirectory(Vec<u8>),
    /// The descriptor space is exhausted.
    TooManyFilesOpen,
}

/// Conditions the runtime descriptor table reports to the syscall layer.
#[derive(Clone, Copy, Debug, PartialEq, Eq, Structural)]
pub enum WasiError {
    /// The descriptor is not present in the table.
    EBADF,
    /// No free descriptor is left to assign.
    EMFILE,
}

} // verus!
