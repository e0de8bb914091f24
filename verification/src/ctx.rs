//! The staging builder and the finalized descriptor table.
//!
//! `WasiCtxBuilder` accumulates arguments, environment pairs,
//! standard-stream overrides and preopen grants without validating
//! anything; `build` consumes it, validates every staged value, assigns
//! preopen descriptors, and produces a `WasiCtx` or fails as a whole.

use vstd::prelude::*;

use crate::error::{WasiCtxBuilderError, WasiError};
use crate::fdentry::{
    pending_entry, pending_resolves, Descriptor, FdEntry, PendingFdEntry, ThunkOp,
};
use crate::text::{
    contains_nul, cstring_failure, cstring_ok, decode_failure, decode_ok, decoded_bytes,
    pending_eq, pending_cstring_eq, HostString, PendingCString,
};
use crate::virtfs::{empty_dir_view, populate_directory, populate_spec, FileType, VirtualDir,
    VirtualDirEntry};

verus! {

broadcast use vstd::seq::group_seq_axioms;

// ---------------------------------------------------------------------
// Spec helpers for staging and finalization
// ---------------------------------------------------------------------

/// Byte arguments staged as raw bytes.
pub open spec fn bytes_args(args: Seq<Vec<u8>>) -> Seq<PendingCString> {
    args.map_values(|v: Vec<u8>| PendingCString::Bytes(v))
}

/// Host-native arguments staged as native strings.
pub open spec fn native_args(args: Seq<HostString>) -> Seq<PendingCString> {
    args.map_values(|h: HostString| PendingCString::Native(h))
}

/// `env` with the pair `(k, v)` inserted: the value of an existing key
/// is replaced in place, a new key is appended; last write wins per key.
pub open spec fn env_upsert(
    env: Seq<(PendingCString, PendingCString)>,
    k: PendingCString,
    v: PendingCString,
) -> Seq<(PendingCString, PendingCString)>
    decreases env.len(),
{
    if env.len() == 0 {
        seq![(k, v)]
    } else if pending_eq(env[0].0, k) {
        seq![(env[0].0, v)] + env.skip(1)
    } else {
        seq![env[0]] + env_upsert(env.skip(1), k, v)
    }
}

/// `env` after upserting every byte pair of `items`, in order.
pub open spec fn env_upsert_all(
    env: Seq<(PendingCString, PendingCString)>,
    items: Seq<(Vec<u8>, Vec<u8>)>,
) -> Seq<(PendingCString, PendingCString)>
    decreases items.len(),
{
    if items.len() == 0 {
        env
    } else {
        env_upsert_all(
            env_upsert(env, PendingCString::Bytes(items[0].0), PendingCString::Bytes(items[0].1)),
            items.skip(1),
        )
    }
}

/// `env` after upserting every host-native pair of `items`, in order.
pub open spec fn env_upsert_all_native(
    env: Seq<(PendingCString, PendingCString)>,
    items: Seq<(HostString, HostString)>,
) -> Seq<(PendingCString, PendingCString)>
    decreases items.len(),
{
    if items.len() == 0 {
        env
    } else {
        env_upsert_all_native(
            env_upsert(env, PendingCString::Native(items[0].0), PendingCString::Native(items[0].1)),
            items.skip(1),
        )
    }
}

/// First failure among the staged arguments, in list order.
pub open spec fn first_arg_failure(args: Seq<PendingCString>) -> Option<WasiCtxBuilderError>
    decreases args.len(),
{
    if args.len() == 0 {
        None
    } else if !cstring_ok(args[0]) {
        Some(cstring_failure(args[0]))
    } else {
        first_arg_failure(args.skip(1))
    }
}

/// The finalized `KEY=VALUE` bytes of one environment pair.
pub open spec fn pair_bytes(k: PendingCString, v: PendingCString) -> Seq<u8> {
    decoded_bytes(k) + seq![61u8] + decoded_bytes(v)
}

/// The pair resolves: both sides decode and the joined value is
/// NUL-free.
pub open spec fn pair_ok(k: PendingCString, v: PendingCString) -> bool {
    decode_ok(k) && decode_ok(v) && !pair_bytes(k, v).contains(0u8)
}

/// The error a failing pair reports: the key's decode failure, then the
/// value's, then the embedded NUL.
pub open spec fn pair_failure(k: PendingCString, v: PendingCString) -> WasiCtxBuilderError {
    if !decode_ok(k) {
        decode_failure(k)
    } else if !decode_ok(v) {
        decode_failure(v)
    } else {
        WasiCtxBuilderError::UnexpectedNul
    }
}

/// First failure among the staged environment pairs, in insertion
/// order.
pub open spec fn first_env_failure(
    env: Seq<(PendingCString, PendingCString)>,
) -> Option<WasiCtxBuilderError>
    decreases env.len(),
{
    if env.len() == 0 {
        None
    } else if !pair_ok(env[0].0, env[0].1) {
        Some(pair_failure(env[0].0, env[0].1))
    } else {
        first_env_failure(env.skip(1))
    }
}

/// Failure resolving the three standard-stream slots.
pub open spec fn stream_failure(
    s0: PendingFdEntry,
    s1: PendingFdEntry,
    s2: PendingFdEntry,
) -> Option<WasiCtxBuilderError> {
    if !pending_resolves(s0) || !pending_resolves(s1) || !pending_resolves(s2) {
        Some(WasiCtxBuilderError::Io)
    } else {
        None
    }
}

/// The metadata query for the grant's origin fails.
pub open spec fn grant_io_fails(d: Descriptor) -> bool {
    match d {
        Descriptor::OsHandle(h) => h.meta is Unavailable,
        _ => false,
    }
}

/// The grant's origin is not a directory.
pub open spec fn grant_not_dir(d: Descriptor) -> bool {
    match d {
        Descriptor::OsHandle(h) => h.meta is NotDirectory,
        _ => false,
    }
}

/// The grant's origin passes the directory validation.
pub open spec fn grant_ok(d: Descriptor) -> bool {
    !grant_io_fails(d) && !grant_not_dir(d)
}

/// The origin is one a preopen grant may carry.
pub open spec fn preopen_origin_ok(d: Descriptor) -> bool {
    d is OsHandle || d is VirtualFile
}

/// First failure assigning and validating the preopen grants; `fd` is
/// the descriptor last taken, which the scan pre-increments past.
pub open spec fn first_preopen_failure(
    pres: Seq<(Vec<u8>, Descriptor)>,
    fd: int,
) -> Option<WasiCtxBuilderError>
    decreases pres.len(),
{
    if pres.len() == 0 {
        None
    } else if fd + 1 > u32::MAX {
        Some(WasiCtxBuilderError::TooManyFilesOpen)
    } else if grant_io_fails(pres[0].1) {
        Some(WasiCtxBuilderError::Io)
    } else if grant_not_dir(pres[0].1) {
        Some(WasiCtxBuilderError::NotADirectory(pres[0].0))
    } else {
        first_preopen_failure(pres.skip(1), fd + 1)
    }
}

/// The entry a validated preopen grant becomes: its origin plus the
/// guest path recorded on it.
pub open spec fn preopen_entry(g: (Vec<u8>, Descriptor)) -> FdEntry {
    FdEntry { descriptor: g.1, preopen_path: Some(g.0) }
}

// ---------------------------------------------------------------------
// The builder
// ---------------------------------------------------------------------

/// A builder allowing customizable construction of `WasiCtx` instances.
///
/// Configuration calls mutate it in place and perform no validation and
/// no host work; `build` consumes it, so reuse after finalization is
/// impossible by construction.
pub struct WasiCtxBuilder {
    stdin_slot: PendingFdEntry,
    stdout_slot: PendingFdEntry,
    stderr_slot: PendingFdEntry,
    preopens: Vec<(Vec<u8>, Descriptor)>,
    args: Vec<PendingCString>,
    env: Vec<(PendingCString, PendingCString)>,
}

impl WasiCtxBuilder {
    /// The staged argument list.
    pub closed spec fn args_view(&self) -> Seq<PendingCString> {
        self.args@
    }

    /// The staged environment pairs, in insertion order.
    pub closed spec fn env_view(&self) -> Seq<(PendingCString, PendingCString)> {
        self.env@
    }

    /// The staged preopen grants, in insertion order.
    pub closed spec fn preopens_view(&self) -> Seq<(Vec<u8>, Descriptor)> {
        self.preopens@
    }

    /// The staged entry for descriptor 0.
    pub closed spec fn stdin_view(&self) -> PendingFdEntry {
        self.stdin_slot
    }

    /// The staged entry for descriptor 1.
    pub closed spec fn stdout_view(&self) -> PendingFdEntry {
        self.stdout_slot
    }

    /// The staged entry for descriptor 2.
    pub closed spec fn stderr_view(&self) -> PendingFdEntry {
        self.stderr_slot
    }

    /// Well-formed: environment keys are pairwise distinct and every
    /// preopen origin is a host handle or a virtual directory.
    pub open spec fn wf(&self) -> bool {
        &&& (forall|i: int, j: int|
            0 <= i < j < self.env_view().len() ==> !pending_eq(
                self.env_view()[i].0,
                self.env_view()[j].0,
            ))
        &&& (forall|i: int|
            0 <= i < self.preopens_view().len() ==> preopen_origin_ok(self.preopens_view()[i].1))
    }

    /// The failure finalization reports for this builder, if any:
    /// arguments first, then environment pairs, then the standard
    /// streams, then the preopen grants.
    pub open spec fn build_failure(&self) -> Option<WasiCtxBuilderError> {
        if first_arg_failure(self.args_view()) is Some {
            first_arg_failure(self.args_view())
        } else if first_env_failure(self.env_view()) is Some {
            first_env_failure(self.env_view())
        } else if stream_failure(self.stdin_view(), self.stdout_view(), self.stderr_view())
            is Some {
            stream_failure(self.stdin_view(), self.stdout_view(), self.stderr_view())
        } else {
            first_preopen_failure(self.preopens_view(), 2)
        }
    }

    /// Builder for a new `WasiCtx`: the three standard streams wired to
    /// null-device resolution, everything else empty.
    pub fn new() -> (b: WasiCtxBuilder)
        ensures
            b.wf(),
            b.stdin_view() == PendingFdEntry::Thunk(ThunkOp::Null),
            b.stdout_view() == PendingFdEntry::Thunk(ThunkOp::Null),
            b.stderr_view() == PendingFdEntry::Thunk(ThunkOp::Null),
            b.args_view().len() == 0,
            b.env_view().len() == 0,
            b.preopens_view().len() == 0,
    {
        WasiCtxBuilder {
            stdin_slot: PendingFdEntry::Thunk(ThunkOp::Null),
            stdout_slot: PendingFdEntry::Thunk(ThunkOp::Null),
            stderr_slot: PendingFdEntry::Thunk(ThunkOp::Null),
            preopens: Vec::new(),
            args: Vec::new(),
            env: Vec::new(),
        }
    }

    /// Add an argument to the command-line arguments list.  It must be
    /// valid UTF-8 with no NUL bytes, or `build` will fail.
    pub fn arg(&mut self, arg: Vec<u8>)
        requires
            old(self).wf(),
        ensures
            final(self).wf(),
            final(self).args_view() == old(self).args_view().push(PendingCString::Bytes(arg)),
            final(self).env_view() == old(self).env_view(),
            final(self).preopens_view() == old(self).preopens_view(),
            final(self).stdin_view() == old(self).stdin_view(),
            final(self).stdout_view() == old(self).stdout_view(),
            final(self).stderr_view() == old(self).stderr_view(),
    {
        self.args.push(PendingCString::Bytes(arg));
        proof {
            lemma_wf_transfer(*old(self), *self);
        }
    }

    /// Add arguments to the command-line arguments list.  Each must be
    /// valid UTF-8 with no NUL bytes, or `build` will fail.
    #[verifier::loop_isolation(false)]
    pub fn args(&mut self, args: Vec<Vec<u8>>)
        requires
            old(self).wf(),
        ensures
            final(self).wf(),
            final(self).args_view() == old(self).args_view() + bytes_args(args@),
            final(self).env_view() == old(self).env_view(),
            final(self).preopens_view() == old(self).preopens_view(),
            final(self).stdin_view() == old(self).stdin_view(),
            final(self).stdout_view() == old(self).stdout_view(),
            final(self).stderr_view() == old(self).stderr_view(),
    {
        let ghost orig = args@;
        let mut args = args;
        let ghost k: int = 0;
        let ghost pre = *self;
        while args.len() > 0
            invariant
                self.wf(),
                0 <= k <= orig.len(),
                args@ == orig.skip(k),
                self.args_view() == pre.args_view() + bytes_args(orig.take(k)),
                self.env_view() == pre.env_view(),
                self.preopens_view() == pre.preopens_view(),
                self.stdin_view() == pre.stdin_view(),
                self.stdout_view() == pre.stdout_view(),
                self.stderr_view() == pre.stderr_view(),
            decreases args@.len(),
        {
            let a = args.remove(0);
            proof {
                assert(orig.skip(k)[0] == orig[k]);
                assert(a == orig[k]);
            }
            self.args.push(PendingCString::Bytes(a));
            proof {
                k = k + 1;
                assert(args@ =~= orig.skip(k));
                assert(bytes_args(orig.take(k)) =~= bytes_args(orig.take(k - 1)).push(
                    PendingCString::Bytes(orig[k - 1]),
                ));
                assert(self.args_view() =~= pre.args_view() + bytes_args(orig.take(k)));
            }
        }
        proof {
            assert(orig.take(k) =~= orig);
        }
    }

    /// Replace the argument list with a snapshot of the host process's
    /// own arguments, handed over as host-native strings.  A non-text
    /// host argument makes `build` fail.
    #[verifier::loop_isolation(false)]
    pub fn inherit_args(&mut self, host_args: Vec<HostString>)
        requires
            old(self).wf(),
        ensures
            final(self).wf(),
            final(self).args_view() == native_args(host_args@),
            final(self).env_view() == old(self).env_view(),
            final(self).preopens_view() == old(self).preopens_view(),
            final(self).stdin_view() == old(self).stdin_view(),
            final(self).stdout_view() == old(self).stdout_view(),
            final(self).stderr_view() == old(self).stderr_view(),
    {
        self.args.clear();
        proof {
            lemma_wf_transfer(*old(self), *self);
        }
        let ghost orig = host_args@;
        let mut host_args = host_args;
        let ghost k: int = 0;
        let ghost pre = *self;
        while host_args.len() > 0
            invariant
                self.wf(),
                0 <= k <= orig.len(),
                host_args@ == orig.skip(k),
                self.args_view() == native_args(orig.take(k)),
                self.env_view() == pre.env_view(),
                self.preopens_view() == pre.preopens_view(),
                self.stdin_view() == pre.stdin_view(),
                self.stdout_view() == pre.stdout_view(),
                self.stderr_view() == pre.stderr_view(),
            decreases host_args@.len(),
        {
            let a = host_args.remove(0);
            proof {
                assert(orig.skip(k)[0] == orig[k]);
                assert(a == orig[k]);
            }
            self.args.push(PendingCString::Native(a));
            proof {
                k = k + 1;
                assert(host_args@ =~= orig.skip(k));
                assert(native_args(orig.take(k)) =~= native_args(orig.take(k - 1)).push(
                    PendingCString::Native(orig[k - 1]),
                ));
                assert(self.args_view() =~= native_args(orig.take(k)));
            }
        }
        proof {
            assert(orig.take(k) =~= orig);
        }
    }

    /// Upsert one staged environment pair: last write wins per key.
    #[verifier::loop_isolation(false)]
    fn env_insert(&mut self, k: PendingCString, v: PendingCString)
        requires
            old(self).wf(),
        ensures
            final(self).wf(),
            final(self).env_view() == env_upsert(old(self).env_view(), k, v),
            final(self).args_view() == old(self).args_view(),
            final(self).preopens_view() == old(self).preopens_view(),
            final(self).stdin_view() == old(self).stdin_view(),
            final(self).stdout_view() == old(self).stdout_view(),
            final(self).stderr_view() == old(self).stderr_view(),
    {
        let ghost pre = *self;
        let n = self.env.len();
        let mut i: usize = 0;
        while i < n
            invariant
                0 <= i <= n,
                n == self.env@.len(),
                *self == pre,
                forall|j: int| 0 <= j < i ==> !pending_eq(self.env@[j].0, k),
            decreases n - i,
        {
            if pending_cstring_eq(&self.env[i].0, &k) {
                let (k0, _old_v) = self.env.remove(i);
                self.env.insert(i, (k0, v));
                proof {
                    assert(self.env@ =~= pre.env_view().update(
                        i as int,
                        (pre.env_view()[i as int].0, v),
                    ));
                    lemma_env_upsert_found(pre.env_view(), k, v, i as int);
                    assert(pre.wf());
                    assert(forall|m: int|
                        0 <= m < self.env@.len() ==> self.env@[m].0 == pre.env_view()[m].0);
                    assert(forall|m: int, n2: int|
                        0 <= m < n2 < self.env_view().len() ==> !pending_eq(
                            self.env_view()[m].0,
                            self.env_view()[n2].0,
                        ));
                    assert(self.preopens_view() == pre.preopens_view());
                    assert forall|m: int|
                        0 <= m < self.preopens_view().len() implies preopen_origin_ok(
                        self.preopens_view()[m].1,
                    ) by {
                        assert(preopen_origin_ok(pre.preopens_view()[m].1));
                    }
                }
                return;
            }
            i += 1;
        }
        self.env.push((k, v));
        proof {
            lemma_env_upsert_absent(pre.env_view(), k, v);
            assert(pre.wf());
            assert(forall|m: int|
                0 <= m < pre.env_view().len() ==> self.env_view()[m] == pre.env_view()[m]);
            assert(forall|m: int, n2: int|
                0 <= m < n2 < self.env_view().len() ==> !pending_eq(
                    self.env_view()[m].0,
                    self.env_view()[n2].0,
                ));
            assert(forall|m: int|
                0 <= m < self.preopens_view().len() ==> preopen_origin_ok(
                    self.preopens_view()[m].1,
                ));
        }
    }

    /// Add an entry to the environment; an existing key's value is
    /// replaced.  Keys and values must be valid UTF-8 with no NUL
    /// bytes, or `build` will fail.
    pub fn env(&mut self, k: Vec<u8>, v: Vec<u8>)
        requires
            old(self).wf(),
        ensures
            final(self).wf(),
            final(self).env_view() == env_upsert(
                old(self).env_view(),
                PendingCString::Bytes(k),
                PendingCString::Bytes(v),
            ),
            final(self).args_view() == old(self).args_view(),
            final(self).preopens_view() == old(self).preopens_view(),
            final(self).stdin_view() == old(self).stdin_view(),
            final(self).stdout_view() == old(self).stdout_view(),
            final(self).stderr_view() == old(self).stderr_view(),
    {
        self.env_insert(PendingCString::Bytes(k), PendingCString::Bytes(v));
    }

    /// Add entries to the environment, in order; last write wins per
    /// key.
    #[verifier::loop_isolation(false)]
    pub fn envs(&mut self, envs: Vec<(Vec<u8>, Vec<u8>)>)
        requires
            old(self).wf(),
        ensures
            final(self).wf(),
            final(self).env_view() == env_upsert_all(old(self).env_view(), envs@),
            final(self).args_view() == old(self).args_view(),
            final(self).preopens_view() == old(self).preopens_view(),
            final(self).stdin_view() == old(self).stdin_view(),
            final(self).stdout_view() == old(self).stdout_view(),
            final(self).stderr_view() == old(self).stderr_view(),
    {
        let ghost orig = envs@;
        let mut envs = envs;
        let ghost k: int = 0;
        let ghost pre = *self;
        while envs.len() > 0
            invariant
                self.wf(),
                0 <= k <= orig.len(),
                envs@ == orig.skip(k),
                env_upsert_all(pre.env_view(), orig) == env_upsert_all(self.env_view(), envs@),
                self.args_view() == pre.args_view(),
                self.preopens_view() == pre.preopens_view(),
                self.stdin_view() == pre.stdin_view(),
                self.stdout_view() == pre.stdout_view(),
                self.stderr_view() == pre.stderr_view(),
            decreases envs@.len(),
        {
            let (ek, ev) = envs.remove(0);
            proof {
                assert(orig.skip(k)[0] == orig[k]);
            }
            self.env_insert(PendingCString::Bytes(ek), PendingCString::Bytes(ev));
            proof {
                k = k + 1;
                assert(envs@ =~= orig.skip(k));
                assert(orig.skip(k - 1).skip(1) =~= orig.skip(k));
            }
        }
        proof {
            assert(envs@.len() == 0);
        }
    }

    /// Replace the staged environment with a snapshot of the host
    /// process environment, handed over as host-native pairs.  A
    /// non-text host value makes `build` fail.
    #[verifier::loop_isolation(false)]
    pub fn inherit_env(&mut self, host_env: Vec<(HostString, HostString)>)
        requires
            old(self).wf(),
        ensures
            final(self).wf(),
            final(self).env_view() == env_upsert_all_native(Seq::empty(), host_env@),
            final(self).args_view() == old(self).args_view(),
            final(self).preopens_view() == old(self).preopens_view(),
            final(self).stdin_view() == old(self).stdin_view(),
            final(self).stdout_view() == old(self).stdout_view(),
            final(self).stderr_view() == old(self).stderr_view(),
    {
        self.env.clear();
        proof {
            assert(old(self).wf());
            assert(self.env_view().len() == 0);
            assert(self.preopens_view() == old(self).preopens_view());
            assert forall|m: int|
                0 <= m < self.preopens_view().len() implies preopen_origin_ok(
                self.preopens_view()[m].1,
            ) by {
                assert(preopen_origin_ok(old(self).preopens_view()[m].1));
            }
        }
        let ghost orig = host_env@;
        let mut host_env = host_env;
        let ghost k: int = 0;
        let ghost pre = *self;
        proof {
            assert(pre.env_view() =~= Seq::<(PendingCString, PendingCString)>::empty());
        }
        while host_env.len() > 0
            invariant
                self.wf(),
                0 <= k <= orig.len(),
                host_env@ == orig.skip(k),
                env_upsert_all_native(Seq::empty(), orig) == env_upsert_all_native(
                    self.env_view(),
                    host_env@,
                ),
                self.args_view() == pre.args_view(),
                self.preopens_view() == pre.preopens_view(),
                self.stdin_view() == pre.stdin_view(),
                self.stdout_view() == pre.stdout_view(),
                self.stderr_view() == pre.stderr_view(),
            decreases host_env@.len(),
        {
            let (ek, ev) = host_env.remove(0);
            proof {
                assert(orig.skip(k)[0] == orig[k]);
            }
            self.env_insert(PendingCString::Native(ek), PendingCString::Native(ev));
            proof {
                k = k + 1;
                assert(host_env@ =~= orig.skip(k));
                assert(orig.skip(k - 1).skip(1) =~= orig.skip(k));
            }
        }
    }

    /// Inherit stdin from the host process.
    pub fn inherit_stdin(&mut self)
        requires
            old(self).wf(),
        ensures
            final(self).wf(),
            final(self).stdin_view() == PendingFdEntry::Thunk(ThunkOp::DuplicateStdin),
            final(self).stdout_view() == old(self).stdout_view(),
            final(self).stderr_view() == old(self).stderr_view(),
            final(self).args_view() == old(self).args_view(),
            final(self).env_view() == old(self).env_view(),
            final(self).preopens_view() == old(self).preopens_view(),
    {
        self.stdin_slot = PendingFdEntry::Thunk(ThunkOp::DuplicateStdin);
        proof {
            lemma_wf_transfer(*old(self), *self);
        }
    }

    /// Inherit stdout from the host process.
    pub fn inherit_stdout(&mut self)
        requires
            old(self).wf(),
        ensures
            final(self).wf(),
            final(self).stdout_view() == PendingFdEntry::Thunk(ThunkOp::DuplicateStdout),
            final(self).stdin_view() == old(self).stdin_view(),
            final(self).stderr_view() == old(self).stderr_view(),
            final(self).args_view() == old(self).args_view(),
            final(self).env_view() == old(self).env_view(),
            final(self).preopens_view() == old(self).preopens_view(),
    {
        self.stdout_slot = PendingFdEntry::Thunk(ThunkOp::DuplicateStdout);
        proof {
            lemma_wf_transfer(*old(self), *self);
        }
    }

    /// Inherit stderr from the host process.
    pub fn inherit_stderr(&mut self)
        requires
            old(self).wf(),
        ensures
            final(self).wf(),
            final(self).stderr_view() == PendingFdEntry::Thunk(ThunkOp::DuplicateStderr),
            final(self).stdin_view() == old(self).stdin_view(),
            final(self).stdout_view() == old(self).stdout_view(),
            final(self).args_view() == old(self).args_view(),
            final(self).env_view() == old(self).env_view(),
            final(self).preopens_view() == old(self).preopens_view(),
    {
        self.stderr_slot = PendingFdEntry::Thunk(ThunkOp::DuplicateStderr);
        proof {
            lemma_wf_transfer(*old(self), *self);
        }
    }

    /// Inherit the stdin, stdout, and stderr streams from the host
    /// process.
    pub fn inherit_stdio(&mut self)
        requires
            old(self).wf(),
        ensures
            final(self).wf(),
            final(self).stdin_view() == PendingFdEntry::Thunk(ThunkOp::DuplicateStdin),
            final(self).stdout_view() == PendingFdEntry::Thunk(ThunkOp::DuplicateStdout),
            final(self).stderr_view() == PendingFdEntry::Thunk(ThunkOp::DuplicateStderr),
            final(self).args_view() == old(self).args_view(),
            final(self).env_view() == old(self).env_view(),
            final(self).preopens_view() == old(self).preopens_view(),
    {
        self.stdin_slot = PendingFdEntry::Thunk(ThunkOp::DuplicateStdin);
        self.stdout_slot = PendingFdEntry::Thunk(ThunkOp::DuplicateStdout);
        self.stderr_slot = PendingFdEntry::Thunk(ThunkOp::DuplicateStderr);
        proof {
            lemma_wf_transfer(*old(self), *self);
        }
    }

    /// Provide an already-open host file to use as stdin, transferring
    /// ownership.
    pub fn stdin(&mut self, file: crate::fdentry::OsHandle)
        requires
            old(self).wf(),
        ensures
            final(self).wf(),
            final(self).stdin_view() == PendingFdEntry::File(file),
            final(self).stdout_view() == old(self).stdout_view(),
            final(self).stderr_view() == old(self).stderr_view(),
            final(self).args_view() == old(self).args_view(),
            final(self).env_view() == old(self).env_view(),
            final(self).preopens_view() == old(self).preopens_view(),
    {
        self.stdin_slot = PendingFdEntry::File(file);
        proof {
            lemma_wf_transfer(*old(self), *self);
        }
    }

    /// Provide an already-open host file to use as stdout, transferring
    /// ownership.
    pub fn stdout(&mut self, file: crate::fdentry::OsHandle)
        requires
            old(self).wf(),
        ensures
            final(self).wf(),
            final(self).stdout_view() == PendingFdEntry::File(file),
            final(self).stdin_view() == old(self).stdin_view(),
            final(self).stderr_view() == old(self).stderr_view(),
            final(self).args_view() == old(self).args_view(),
            final(self).env_view() == old(self).env_view(),
            final(self).preopens_view() == old(self).preopens_view(),
    {
        self.stdout_slot = PendingFdEntry::File(file);
        proof {
            lemma_wf_transfer(*old(self), *self);
        }
    }

    /// Provide an already-open host file to use as stderr, transferring
    /// ownership.
    pub fn stderr(&mut self, file: crate::fdentry::OsHandle)
        requires
            old(self).wf(),
        ensures
            final(self).wf(),
            final(self).stderr_view() == PendingFdEntry::File(file),
            final(self).stdin_view() == old(self).stdin_view(),
            final(self).stdout_view() == old(self).stdout_view(),
            final(self).args_view() == old(self).args_view(),
            final(self).env_view() == old(self).env_view(),
            final(self).preopens_view() == old(self).preopens_view(),
    {
        self.stderr_slot = PendingFdEntry::File(file);
        proof {
            lemma_wf_transfer(*old(self), *self);
        }
    }

    /// Add a preopened directory grant rooted at a host directory
    /// handle; validated only at finalization.
    pub fn preopened_dir(&mut self, dir: crate::fdentry::OsHandle, guest_path: Vec<u8>)
        requires
            old(self).wf(),
        ensures
            final(self).wf(),
            final(self).preopens_view() == old(self).preopens_view().push(
                (guest_path, Descriptor::OsHandle(dir)),
            ),
            final(self).args_view() == old(self).args_view(),
            final(self).env_view() == old(self).env_view(),
            final(self).stdin_view() == old(self).stdin_view(),
            final(self).stdout_view() == old(self).stdout_view(),
            final(self).stderr_view() == old(self).stderr_view(),
    {
        self.preopens.push((guest_path, Descriptor::OsHandle(dir)));
        proof {
            assert(self.env_view() == old(self).env_view());
            assert(old(self).wf());
            assert(forall|m: int, n2: int|
                0 <= m < n2 < self.env_view().len() ==> !pending_eq(
                    self.env_view()[m].0,
                    self.env_view()[n2].0,
                ));
            assert(forall|m: int|
                0 <= m < old(self).preopens_view().len() ==> self.preopens_view()[m] == old(
                    self,
                ).preopens_view()[m]);
            assert(forall|m: int|
                0 <= m < self.preopens_view().len() ==> preopen_origin_ok(
                    self.preopens_view()[m].1,
                ));
        }
    }

    /// Add a preopened virtual directory grant.  The root of the tree
    /// literal must be a directory node: violating that is a caller
    /// contract violation, excluded here by precondition.
    pub fn preopened_virt(&mut self, dir: VirtualDirEntry, guest_path: Vec<u8>)
        requires
            old(self).wf(),
            dir is Directory,
        ensures
            final(self).wf(),
            final(self).preopens_view().len() == old(self).preopens_view().len() + 1,
            forall|i: int|
                0 <= i < old(self).preopens_view().len() ==> final(self).preopens_view()[i]
                    == old(self).preopens_view()[i],
            final(self).preopens_view().last().0 == guest_path,
            (final(self).preopens_view().last().1 matches Descriptor::VirtualFile(d)
                && d@ == populate_spec(empty_dir_view(true), root_entries(dir))),
            final(self).args_view() == old(self).args_view(),
            final(self).env_view() == old(self).env_view(),
            final(self).stdin_view() == old(self).stdin_view(),
            final(self).stdout_view() == old(self).stdout_view(),
            final(self).stderr_view() == old(self).stderr_view(),
    {
        match dir {
            VirtualDirEntry::Directory(entries) => {
                let d = populate_directory(VirtualDir::new(true), entries, Ghost(entries@));
                self.preopens.push((guest_path, Descriptor::VirtualFile(d)));
                proof {
                    assert(self.env_view() == old(self).env_view());
                    assert(old(self).wf());
                    assert(forall|m: int, n2: int|
                        0 <= m < n2 < self.env_view().len() ==> !pending_eq(
                            self.env_view()[m].0,
                            self.env_view()[n2].0,
                        ));
                    assert(forall|m: int|
                        0 <= m < old(self).preopens_view().len() ==> self.preopens_view()[m]
                            == old(self).preopens_view()[m]);
                    assert(forall|m: int|
                        0 <= m < self.preopens_view().len() ==> preopen_origin_ok(
                            self.preopens_view()[m].1,
                        ));
                }
            },
            VirtualDirEntry::File(_) => {
                proof {
                    assert(false);
                }
            },
        }
    }
}

/// The children of a tree literal whose root is a directory node.
pub open spec fn root_entries(dir: VirtualDirEntry) -> Seq<(Vec<u8>, VirtualDirEntry)> {
    match dir {
        VirtualDirEntry::Directory(v) => v@,
        VirtualDirEntry::File(_) => Seq::empty(),
    }
}

// ---------------------------------------------------------------------
// Upsert lemmas
// ---------------------------------------------------------------------

/// Well-formedness depends only on the environment and preopen views.
proof fn lemma_wf_transfer(a: WasiCtxBuilder, b: WasiCtxBuilder)
    requires
        a.wf(),
        b.env_view() == a.env_view(),
        b.preopens_view() == a.preopens_view(),
    ensures
        b.wf(),
{
    assert(forall|i: int, j: int|
        0 <= i < j < b.env_view().len() ==> !pending_eq(b.env_view()[i].0, b.env_view()[j].0));
    assert(forall|i: int|
        0 <= i < b.preopens_view().len() ==> preopen_origin_ok(b.preopens_view()[i].1));
}

proof fn lemma_env_upsert_found(
    env: Seq<(PendingCString, PendingCString)>,
    k: PendingCString,
    v: PendingCString,
    i: int,
)
    requires
        0 <= i < env.len(),
        pending_eq(env[i].0, k),
        forall|j: int| 0 <= j < i ==> !pending_eq(env[j].0, k),
    ensures
        env_upsert(env, k, v) == env.update(i, (env[i].0, v)),
    decreases i,
{
    if i == 0 {
        assert(env_upsert(env, k, v) =~= env.update(0, (env[0].0, v)));
    } else {
        assert(!pending_eq(env[0].0, k));
        lemma_env_upsert_found(env.skip(1), k, v, i - 1);
        assert(env.skip(1)[i - 1] == env[i]);
        assert(env_upsert(env, k, v) =~= env.update(i, (env[i].0, v)));
    }
}

proof fn lemma_env_upsert_absent(
    env: Seq<(PendingCString, PendingCString)>,
    k: PendingCString,
    v: PendingCString,
)
    requires
        forall|j: int| 0 <= j < env.len() ==> !pending_eq(env[j].0, k),
    ensures
        env_upsert(env, k, v) == env.push((k, v)),
    decreases env.len(),
{
    if env.len() == 0 {
        assert(env_upsert(env, k, v) =~= env.push((k, v)));
    } else {
        lemma_env_upsert_absent(env.skip(1), k, v);
        assert(env_upsert(env, k, v) =~= env.push((k, v)));
    }
}


// ---------------------------------------------------------------------
// The finalized table
// ---------------------------------------------------------------------

/// The finalized, owned descriptor table plus finalized argument and
/// environment text, exclusively owned by one guest execution context.
#[derive(Debug)]
pub struct WasiCtx {
    /// The descriptor table: keyed entries, unique keys.  Mutate it
    /// only through the table operations, which keep it well-formed.
    pub fds: Vec<(u32, FdEntry)>,
    /// Finalized, NUL-free UTF-8 argument strings, in insertion order.
    pub args: Vec<Vec<u8>>,
    /// Finalized, NUL-free `KEY=VALUE` environment strings.
    pub env: Vec<Vec<u8>>,
}

impl WasiCtx {
    /// The table as a keyed sequence.
    pub open spec fn fds_view(&self) -> Seq<(u32, FdEntry)> {
        self.fds@
    }

    /// The table holds descriptor `fd`.
    pub open spec fn spec_contains(&self, fd: u32) -> bool {
        exists|j: int| 0 <= j < self.fds_view().len() && self.fds_view()[j].0 == fd
    }

    /// The entry at descriptor `fd`; meaningful where `spec_contains`
    /// holds.
    pub open spec fn spec_at(&self, fd: u32) -> FdEntry {
        self.fds_view()[choose|j: int|
            0 <= j < self.fds_view().len() && self.fds_view()[j].0 == fd].1
    }

    /// Well-formed: descriptors are unique keys.
    pub open spec fn wf(&self) -> bool {
        forall|i: int, j: int|
            0 <= i < j < self.fds_view().len() ==> self.fds_view()[i].0 != self.fds_view()[j].0
    }
}

/// With unique keys, any index with key `fd` is the one `spec_at`
/// resolves to.
proof fn lemma_table_index(t: WasiCtx, j: int)
    requires
        t.wf(),
        0 <= j < t.fds_view().len(),
    ensures
        t.spec_contains(t.fds_view()[j].0),
        t.spec_at(t.fds_view()[j].0) == t.fds_view()[j].1,
{
    let fd = t.fds_view()[j].0;
    assert(t.spec_contains(fd));
    let j2 = choose|m: int| 0 <= m < t.fds_view().len() && t.fds_view()[m].0 == fd;
    if j2 != j {
        assert(t.fds_view()[j2].0 == t.fds_view()[j].0);
        assert(false);
    }
}

/// Appending a fresh key extends the table and preserves everything
/// else.
proof fn lemma_push_table(pre: WasiCtx, post: WasiCtx, fd: u32, fe: FdEntry)
    requires
        pre.wf(),
        !pre.spec_contains(fd),
        post.fds_view() == pre.fds_view().push((fd, fe)),
    ensures
        post.wf(),
        post.spec_contains(fd),
        post.spec_at(fd) == fe,
        forall|g: u32| g != fd ==> post.spec_contains(g) == pre.spec_contains(g),
        forall|g: u32|
            g != fd && pre.spec_contains(g) ==> post.spec_at(g) == pre.spec_at(g),
{
    let n = pre.fds_view().len() as int;
    assert(post.fds_view()[n] == (fd, fe));
    assert forall|i: int, j: int|
        0 <= i < j < post.fds_view().len() implies post.fds_view()[i].0
        != post.fds_view()[j].0 by {
        if j < n {
            assert(pre.fds_view()[i].0 != pre.fds_view()[j].0);
        } else {
            assert(post.fds_view()[j].0 == fd);
            assert(post.fds_view()[i] == pre.fds_view()[i]);
            if pre.fds_view()[i].0 == fd {
                assert(pre.spec_contains(fd));
            }
        }
    }
    lemma_table_index(post, n);
    assert forall|g: u32| g != fd implies post.spec_contains(g) == pre.spec_contains(g) by {
        if pre.spec_contains(g) {
            let j = choose|m: int|
                0 <= m < pre.fds_view().len() && pre.fds_view()[m].0 == g;
            assert(post.fds_view()[j].0 == g);
            assert(post.spec_contains(g));
        }
        if post.spec_contains(g) {
            let j = choose|m: int|
                0 <= m < post.fds_view().len() && post.fds_view()[m].0 == g;
            assert(j != n);
            assert(pre.fds_view()[j].0 == g);
            assert(pre.spec_contains(g));
        }
    }
    assert forall|g: u32|
        g != fd && pre.spec_contains(g) implies post.spec_at(g) == pre.spec_at(g) by {
        let j = choose|m: int| 0 <= m < pre.fds_view().len() && pre.fds_view()[m].0 == g;
        assert(post.fds_view()[j].0 == g && post.fds_view()[j].1 == pre.fds_view()[j].1);
        lemma_table_index(post, j);
        lemma_table_index(pre, j);
    }
}

/// Replacing the entry at an existing key preserves everything else.
proof fn lemma_update_table(pre: WasiCtx, post: WasiCtx, i: int, fd: u32, fe: FdEntry)
    requires
        pre.wf(),
        0 <= i < pre.fds_view().len(),
        pre.fds_view()[i].0 == fd,
        post.fds_view() == pre.fds_view().update(i, (fd, fe)),
    ensures
        post.wf(),
        post.spec_contains(fd),
        post.spec_at(fd) == fe,
        forall|g: u32| g != fd ==> post.spec_contains(g) == pre.spec_contains(g),
        forall|g: u32|
            g != fd && pre.spec_contains(g) ==> post.spec_at(g) == pre.spec_at(g),
{
    assert forall|m: int, j: int|
        0 <= m < j < post.fds_view().len() implies post.fds_view()[m].0
        != post.fds_view()[j].0 by {
        assert(post.fds_view()[m].0 == pre.fds_view()[m].0);
        assert(post.fds_view()[j].0 == pre.fds_view()[j].0);
        assert(pre.fds_view()[m].0 != pre.fds_view()[j].0);
    }
    lemma_table_index(post, i);
    assert forall|g: u32| g != fd implies post.spec_contains(g) == pre.spec_contains(g) by {
        if pre.spec_contains(g) {
            let j = choose|m: int|
                0 <= m < pre.fds_view().len() && pre.fds_view()[m].0 == g;
            assert(post.fds_view()[j].0 == g);
        }
        if post.spec_contains(g) {
            let j = choose|m: int|
                0 <= m < post.fds_view().len() && post.fds_view()[m].0 == g;
            assert(pre.fds_view()[j].0 == g);
        }
    }
    assert forall|g: u32|
        g != fd && pre.spec_contains(g) implies post.spec_at(g) == pre.spec_at(g) by {
        let j = choose|m: int| 0 <= m < pre.fds_view().len() && pre.fds_view()[m].0 == g;
        assert(j != i);
        assert(post.fds_view()[j] == pre.fds_view()[j]);
        lemma_table_index(post, j);
        lemma_table_index(pre, j);
    }
}

/// Removing the entry at an existing key preserves everything else.
proof fn lemma_remove_table(pre: WasiCtx, post: WasiCtx, i: int, fd: u32)
    requires
        pre.wf(),
        0 <= i < pre.fds_view().len(),
        pre.fds_view()[i].0 == fd,
        post.fds_view() == pre.fds_view().remove(i),
    ensures
        post.wf(),
        !post.spec_contains(fd),
        forall|g: u32| g != fd ==> post.spec_contains(g) == pre.spec_contains(g),
        forall|g: u32|
            g != fd && pre.spec_contains(g) ==> post.spec_at(g) == pre.spec_at(g),
{
    assert(post.fds_view().len() == pre.fds_view().len() - 1);
    assert forall|j: int| 0 <= j < post.fds_view().len() implies post.fds_view()[j] == (
    if j < i {
        pre.fds_view()[j]
    } else {
        pre.fds_view()[j + 1]
    }) by {}
    assert forall|m: int, j: int|
        0 <= m < j < post.fds_view().len() implies post.fds_view()[m].0
        != post.fds_view()[j].0 by {}
    if post.spec_contains(fd) {
        let j = choose|m: int| 0 <= m < post.fds_view().len() && post.fds_view()[m].0 == fd;
        if j < i {
            assert(pre.fds_view()[j].0 == fd && pre.fds_view()[i].0 == fd);
            assert(false);
        } else {
            assert(pre.fds_view()[j + 1].0 == fd && pre.fds_view()[i].0 == fd);
            assert(false);
        }
    }
    assert forall|g: u32| g != fd implies post.spec_contains(g) == pre.spec_contains(g) by {
        if pre.spec_contains(g) {
            let j = choose|m: int|
                0 <= m < pre.fds_view().len() && pre.fds_view()[m].0 == g;
            assert(j != i);
            if j < i {
                assert(post.fds_view()[j].0 == g);
            } else {
                assert(post.fds_view()[j - 1].0 == g);
            }
        }
        if post.spec_contains(g) {
            let j = choose|m: int|
                0 <= m < post.fds_view().len() && post.fds_view()[m].0 == g;
            if j < i {
                assert(pre.fds_view()[j].0 == g);
            } else {
                assert(pre.fds_view()[j + 1].0 == g);
            }
        }
    }
    assert forall|g: u32|
        g != fd && pre.spec_contains(g) implies post.spec_at(g) == pre.spec_at(g) by {
        let j = choose|m: int| 0 <= m < pre.fds_view().len() && pre.fds_view()[m].0 == g;
        assert(j != i);
        if j < i {
            assert(post.fds_view()[j] == pre.fds_view()[j]);
            lemma_table_index(post, j);
        } else {
            assert(post.fds_view()[j - 1] == pre.fds_view()[j]);
            lemma_table_index(post, j - 1);
        }
        lemma_table_index(pre, j);
    }
}

/// Decides whether the keyed entry list holds `fd`.
fn table_contains(entries: &Vec<(u32, FdEntry)>, fd: u32) -> (r: bool)
    ensures
        r == exists|j: int| 0 <= j < entries@.len() && entries@[j].0 == fd,
{
    let n = entries.len();
    let mut i: usize = 0;
    while i < n
        invariant
            0 <= i <= n,
            n == entries@.len(),
            forall|j: int| 0 <= j < i ==> entries@[j].0 != fd,
        decreases n - i,
    {
        if entries[i].0 == fd {
            proof {
                assert(entries@[i as int].0 == fd);
            }
            return true;
        }
        i += 1;
    }
    false
}

/// The first `i` environment pairs resolve, and `out` holds their
/// `KEY=VALUE` bytes.
pub open spec fn env_output_at(
    env: Seq<(PendingCString, PendingCString)>,
    out: Seq<Vec<u8>>,
    j: int,
) -> bool {
    pair_ok(env[j].0, env[j].1) && out[j]@ == pair_bytes(env[j].0, env[j].1)
}

pub open spec fn env_outputs_ok(
    env: Seq<(PendingCString, PendingCString)>,
    out: Seq<Vec<u8>>,
    i: int,
) -> bool {
    forall|j: int| 0 <= j < i ==> #[trigger] env_output_at(env, out, j)
}

/// One instance of `env_outputs_ok`.
proof fn lemma_env_outputs_at(
    env: Seq<(PendingCString, PendingCString)>,
    out: Seq<Vec<u8>>,
    i: int,
    j: int,
)
    requires
        env_outputs_ok(env, out, i),
        0 <= j < i,
    ensures
        pair_ok(env[j].0, env[j].1),
        out[j]@ == pair_bytes(env[j].0, env[j].1),
{
    assert(env_output_at(env, out, j));
}

/// The table a successful finalization of builder `b` produces.
pub open spec fn built_table(b: WasiCtxBuilder, ctx: WasiCtx) -> bool {
    &&& ctx.wf()
    &&& ctx.args@.len() == b.args_view().len()
    &&& (forall|i: int|
        0 <= i < b.args_view().len() ==> ctx.args@[i]@ == decoded_bytes(b.args_view()[i]))
    &&& ctx.env@.len() == b.env_view().len()
    &&& (forall|i: int|
        0 <= i < b.env_view().len() ==> ctx.env@[i]@ == pair_bytes(
            b.env_view()[i].0,
            b.env_view()[i].1,
        ))
    &&& ctx.fds_view().len() == 3 + b.preopens_view().len()
    &&& (forall|j: int| 0 <= j < ctx.fds_view().len() ==> ctx.fds_view()[j].0 as int == j)
    &&& ctx.fds_view()[0].1 == pending_entry(b.stdin_view())
    &&& ctx.fds_view()[1].1 == pending_entry(b.stdout_view())
    &&& ctx.fds_view()[2].1 == pending_entry(b.stderr_view())
    &&& (forall|i: int|
        0 <= i < b.preopens_view().len() ==> ctx.fds_view()[3 + i].1 == preopen_entry(
            b.preopens_view()[i],
        ))
}

impl WasiCtxBuilder {
    /// Build a `WasiCtx`, consuming this builder.
    ///
    /// Resolves every staged argument and environment pair to validated
    /// NUL-free text, resolves the standard-stream entries, validates
    /// each preopen grant's origin as a directory and assigns its
    /// descriptor in grant order starting just past the reserved
    /// standard-stream range.  Any failure aborts the whole build with
    /// the first error met, in that order, and no table is produced.
    #[verifier::loop_isolation(false)]
    pub fn build(self) -> (r: Result<WasiCtx, WasiCtxBuilderError>)
        requires
            self.wf(),
        ensures
            (r is Ok) == (self.build_failure() is None),
            r matches Ok(ctx) ==> built_table(self, ctx),
            r matches Err(e) ==> Some(e) == self.build_failure(),
    {
        let WasiCtxBuilder { stdin_slot, stdout_slot, stderr_slot, preopens, args, env } = self;
        proof {
            assert(self.args_view() == args@);
            assert(self.env_view() == env@);
            assert(self.preopens_view() == preopens@);
        }
        // Resolve the arguments, in list order; first failure aborts.
        let mut out_args: Vec<Vec<u8>> = Vec::new();
        let n_args = args.len();
        let mut i: usize = 0;
        proof {
            assert(args@.skip(0) =~= args@);
        }
        while i < n_args
            invariant
                0 <= i <= n_args,
                first_arg_failure(args@) == first_arg_failure(args@.skip(i as int)),
                out_args@.len() == i,
                forall|j: int|
                    0 <= j < i ==> cstring_ok(args@[j]) && out_args@[j]@ == decoded_bytes(
                        args@[j],
                    ),
            decreases n_args - i,
        {
            proof {
                assert(args@.skip(i as int)[0] == args@[i as int]);
            }
            match args[i].into_utf8_cstring() {
                Ok(v) => {
                    out_args.push(v);
                },
                Err(e) => {
                    return Err(e);
                },
            }
            proof {
                assert(args@.skip(i as int).skip(1) =~= args@.skip(i + 1 as int));
            }
            i += 1;
        }
        proof {
            assert(args@.skip(n_args as int) =~= Seq::<PendingCString>::empty());
        }
        // Resolve the environment pairs to KEY=VALUE text, in insertion
        // order; first failure aborts.
        let mut out_env: Vec<Vec<u8>> = Vec::new();
        let n_env = env.len();
        let mut i: usize = 0;
        proof {
            assert(env@.skip(0) =~= env@);
            assert(env_outputs_ok(env@, out_env@, 0));
        }
        while i < n_env
            invariant
                0 <= i <= n_env,
                first_env_failure(env@) == first_env_failure(env@.skip(i as int)),
                out_env@.len() == i,
                env_outputs_ok(env@, out_env@, i as int),
            decreases n_env - i,
        {
            let ghost prev_out = out_env@;
            proof {
                assert(env@.skip(i as int)[0] == env@[i as int]);
                assert(env_outputs_ok(env@, prev_out, i as int));
            }
            let kb = match env[i].0.into_string() {
                Ok(v) => v,
                Err(e) => {
                    return Err(e);
                },
            };
            let vb = match env[i].1.into_string() {
                Ok(v) => v,
                Err(e) => {
                    return Err(e);
                },
            };
            let mut pair = kb;
            let mut vb = vb;
            pair.push(0x3D);
            pair.append(&mut vb);
            proof {
                assert(pair@ =~= pair_bytes(env@[i as int].0, env@[i as int].1));
            }
            if contains_nul(&pair) {
                return Err(WasiCtxBuilderError::UnexpectedNul);
            }
            let ghost pair_snap = pair@;
            out_env.push(pair);
            proof {
                assert(pair_ok(env@[i as int].0, env@[i as int].1));
                assert(env@.skip(i as int).skip(1) =~= env@.skip(i + 1 as int));
                assert(first_env_failure(env@.skip(i as int)) == first_env_failure(
                    env@.skip(i + 1 as int),
                ));
                assert(env_outputs_ok(env@, out_env@, i + 1)) by {
                    assert(env_outputs_ok(env@, prev_out, i as int));
                    assert forall|j: int| 0 <= j < i + 1 implies env_output_at(
                        env@,
                        out_env@,
                        j,
                    ) by {
                        if j < i {
                            lemma_env_outputs_at(env@, prev_out, i as int, j);
                            assert(out_env@[j] == prev_out[j]);
                        } else {
                            assert(out_env@[j]@ == pair_snap);
                        }
                        assert(pair_ok(env@[j].0, env@[j].1) && out_env@[j]@ == pair_bytes(
                            env@[j].0,
                            env@[j].1,
                        ));
                    }
                }
            }
            i += 1;
        }
        proof {
            assert(env@.skip(n_env as int) =~= Seq::<(PendingCString, PendingCString)>::empty());
        }
        // Resolve the standard-stream entries.
        let e0 = match stdin_slot.resolve() {
            Ok(e) => e,
            Err(e) => {
                return Err(e);
            },
        };
        let e1 = match stdout_slot.resolve() {
            Ok(e) => e,
            Err(e) => {
                return Err(e);
            },
        };
        let e2 = match stderr_slot.resolve() {
            Ok(e) => e,
            Err(e) => {
                return Err(e);
            },
        };
        let mut fds: Vec<(u32, FdEntry)> = Vec::new();
        fds.push((0, e0));
        fds.push((1, e1));
        fds.push((2, e2));
        // Assign the preopen descriptors in grant-insertion order,
        // starting just past the reserved standard-stream range; the
        // loop pre-increments, checking for overflow.
        let mut preopens = preopens;
        let ghost pres0 = preopens@;
        let ghost mut k: int = 0;
        let mut preopen_fd: u32 = 2;
        proof {
            assert(pres0.skip(0) =~= pres0);
        }
        while preopens.len() > 0
            invariant
                0 <= k <= pres0.len(),
                preopens@ == pres0.skip(k),
                preopen_fd as int == 2 + k,
                forall|j: int| 0 <= j < k ==> grant_ok(pres0[j].1),
                first_preopen_failure(pres0, 2) == first_preopen_failure(
                    pres0.skip(k),
                    2 + k,
                ),
                fds@.len() == 3 + k,
                forall|j: int| 0 <= j < fds@.len() ==> fds@[j].0 as int == j,
                fds@[0].1 == pending_entry(stdin_slot),
                fds@[1].1 == pending_entry(stdout_slot),
                fds@[2].1 == pending_entry(stderr_slot),
                forall|j: int| 0 <= j < k ==> fds@[3 + j].1 == preopen_entry(pres0[j]),
            decreases preopens@.len(),
        {
            proof {
                assert(pres0.skip(k)[0] == pres0[k]);
            }
            if preopen_fd == u32::MAX {
                return Err(WasiCtxBuilderError::TooManyFilesOpen);
            }
            preopen_fd = preopen_fd + 1;
            let (guest_path, dir) = preopens.remove(0);
            proof {
                assert(guest_path == pres0[k].0 && dir == pres0[k].1);
                assert(preopens@ =~= pres0.skip(k + 1));
                assert(preopen_origin_ok(pres0[k].1));
            }
            match &dir {
                Descriptor::OsHandle(handle) => {
                    match handle.is_directory() {
                        Err(e) => {
                            return Err(e);
                        },
                        Ok(is_dir) => {
                            if !is_dir {
                                return Err(WasiCtxBuilderError::NotADirectory(guest_path));
                            }
                        },
                    }
                },
                Descriptor::VirtualFile(virt) => {
                    let ft = virt.get_file_type();
                    if !matches!(ft, FileType::Directory) {
                        return Err(WasiCtxBuilderError::NotADirectory(guest_path));
                    }
                },
                Descriptor::Stdin | Descriptor::Stdout | Descriptor::Stderr => {
                    proof {
                        assert(false);
                    }
                    return Err(WasiCtxBuilderError::Io);
                },
            }
            // Advance past any descriptor already in use; preopen
            // numbering never collides with the standard streams or an
            // earlier grant.
            while table_contains(&fds, preopen_fd)
                invariant
                    preopen_fd as int == 3 + k,
                decreases u32::MAX - preopen_fd,
            {
                if preopen_fd == u32::MAX {
                    return Err(WasiCtxBuilderError::TooManyFilesOpen);
                }
                preopen_fd = preopen_fd + 1;
            }
            let mut fe = match FdEntry::from(dir) {
                Ok(fe) => fe,
                Err(e) => {
                    proof {
                        assert(false);
                    }
                    return Err(e);
                },
            };
            fe.preopen_path = Some(guest_path);
            fds.push((preopen_fd, fe));
            proof {
                assert(grant_ok(pres0[k].1));
                assert(fds@[3 + k].1 == preopen_entry(pres0[k]));
                assert(pres0.skip(k).skip(1) =~= pres0.skip(k + 1));
                assert(2 + k + 1 <= u32::MAX);
                assert(first_preopen_failure(pres0.skip(k), 2 + k) == first_preopen_failure(
                    pres0.skip(k + 1),
                    2 + (k + 1),
                ));
                k = k + 1;
            }
        }
        proof {
            assert(pres0.skip(k) =~= Seq::<(Vec<u8>, Descriptor)>::empty());
            assert(first_preopen_failure(pres0, 2) is None);
        }
        let ctx = WasiCtx { fds, args: out_args, env: out_env };
        proof {
            assert(ctx.fds_view().len() == 3 + self.preopens_view().len());
            assert forall|m: int, j: int|
                0 <= m < j < ctx.fds_view().len() implies ctx.fds_view()[m].0
                != ctx.fds_view()[j].0 by {
                assert(ctx.fds_view()[m].0 as int == m);
                assert(ctx.fds_view()[j].0 as int == j);
            }
            assert forall|m: int| 0 <= m < self.env_view().len() implies ctx.env@[m]@
                == pair_bytes(self.env_view()[m].0, self.env_view()[m].1) by {
                lemma_env_outputs_at(env@, out_env@, n_env as int, m);
            }
            assert forall|m: int| 0 <= m < self.args_view().len() implies ctx.args@[m]@
                == decoded_bytes(self.args_view()[m]) by {
                assert(cstring_ok(args@[m]) && out_args@[m]@ == decoded_bytes(args@[m]));
            }
            assert forall|m: int|
                0 <= m < self.preopens_view().len() implies ctx.fds_view()[3 + m].1
                == preopen_entry(self.preopens_view()[m]) by {
                assert(fds@[3 + m].1 == preopen_entry(pres0[m]));
            }
            assert(built_table(self, ctx));
        }
        Ok(ctx)
    }
}

impl WasiCtx {
    /// Make a new `WasiCtx` with some default settings: arguments as
    /// supplied, standard streams duplicated from the host, the
    /// supplied host environment snapshot, and no preopens.
    pub fn new(args: Vec<Vec<u8>>, host_env: Vec<(HostString, HostString)>) -> (r: Result<
        WasiCtx,
        WasiCtxBuilderError,
    >)
        ensures
            (r is Ok) == (new_ctx_failure(args@, host_env@) is None),
            r matches Err(e) ==> Some(e) == new_ctx_failure(args@, host_env@),
            r matches Ok(ctx) ==> {
                &&& ctx.wf()
                &&& ctx.args@.len() == args@.len()
                &&& (forall|i: int| 0 <= i < args@.len() ==> ctx.args@[i]@ == args@[i]@)
                &&& ctx.fds_view().len() == 3
                &&& ctx.spec_contains(0) && ctx.spec_at(0) == crate::fdentry::stdin_entry()
                &&& ctx.spec_contains(1) && ctx.spec_at(1) == crate::fdentry::stdout_entry()
                &&& ctx.spec_contains(2) && ctx.spec_at(2) == crate::fdentry::stderr_entry()
            },
    {
        let mut b = WasiCtxBuilder::new();
        b.args(args);
        b.inherit_stdio();
        b.inherit_env(host_env);
        proof {
            assert(b.args_view() =~= bytes_args(args@));
            assert(b.preopens_view().len() == 0);
        }
        proof {
            assert(first_preopen_failure(b.preopens_view(), 2) is None);
            assert(stream_failure(b.stdin_view(), b.stdout_view(), b.stderr_view()) is None);
            assert(b.build_failure() == new_ctx_failure(args@, host_env@));
        }
        let r = b.build();
        match r {
            Ok(ctx) => {
                proof {
                    assert(forall|i: int|
                        0 <= i < args@.len() ==> bytes_args(args@)[i]
                            == PendingCString::Bytes(args@[i]));
                    assert forall|i: int| 0 <= i < args@.len() implies ctx.args@[i]@
                        == args@[i]@ by {
                        assert(ctx.args@[i]@ == decoded_bytes(b.args_view()[i]));
                        assert(b.args_view()[i] == PendingCString::Bytes(args@[i]));
                    }
                    lemma_table_index(ctx, 0);
                    lemma_table_index(ctx, 1);
                    lemma_table_index(ctx, 2);
                }
                Ok(ctx)
            },
            Err(e) => Err(e),
        }
    }
}

/// The failure `WasiCtx::new` reports, if any: the argument list
/// first, then the inherited environment snapshot.
pub open spec fn new_ctx_failure(
    args: Seq<Vec<u8>>,
    host_env: Seq<(HostString, HostString)>,
) -> Option<WasiCtxBuilderError> {
    if first_arg_failure(bytes_args(args)) is Some {
        first_arg_failure(bytes_args(args))
    } else {
        first_env_failure(env_upsert_all_native(Seq::empty(), host_env))
    }
}

/// Relation between a table before and after an auto-assigning insert
/// that returned descriptor `fd` for entry `fe`: the lowest free
/// descriptor at or above 3 was taken.
pub open spec fn auto_insert_ok(pre: WasiCtx, post: WasiCtx, fe: FdEntry, fd: u32) -> bool {
    &&& fd >= 3
    &&& !pre.spec_contains(fd)
    &&& (forall|g: u32| 3 <= g < fd ==> pre.spec_contains(g))
    &&& post.fds_view() == pre.fds_view().push((fd, fe))
}

impl WasiCtx {
    /// Check if the table contains the descriptor `fd`.
    pub fn contains_fd_entry(&self, fd: u32) -> (r: bool)
        ensures
            r == self.spec_contains(fd),
    {
        let r = table_contains(&self.fds, fd);
        proof {
            if r {
                let w = choose|j: int| 0 <= j < self.fds@.len() && self.fds@[j].0 == fd;
                assert(self.fds_view()[w].0 == fd);
            }
            if self.spec_contains(fd) {
                let w = choose|j: int|
                    0 <= j < self.fds_view().len() && self.fds_view()[j].0 == fd;
                assert(self.fds@[w].0 == fd);
            }
        }
        r
    }

    /// Get the entry for the descriptor `fd`; fails with the
    /// bad-descriptor condition when absent.
    #[verifier::loop_isolation(false)]
    pub fn get_fd_entry(&self, fd: u32) -> (r: Result<&FdEntry, WasiError>)
        requires
            self.wf(),
        ensures
            (r is Ok) == self.spec_contains(fd),
            r matches Ok(e) ==> *e == self.spec_at(fd),
            r matches Err(e) ==> e == WasiError::EBADF,
    {
        let n = self.fds.len();
        let mut i: usize = 0;
        while i < n
            invariant
                0 <= i <= n,
                n == self.fds@.len(),
                forall|j: int| 0 <= j < i ==> self.fds@[j].0 != fd,
            decreases n - i,
        {
            if self.fds[i].0 == fd {
                proof {
                    lemma_table_index(*self, i as int);
                }
                return Ok(&self.fds[i].1);
            }
            i += 1;
        }
        Err(WasiError::EBADF)
    }

    /// Insert the entry at the lowest unused descriptor at or above 3,
    /// never reusing the reserved standard-stream range; fails with the
    /// table-full condition on exhaustion.
    #[verifier::loop_isolation(false)]
    pub fn insert_fd_entry(&mut self, fe: FdEntry) -> (r: Result<u32, WasiError>)
        requires
            old(self).wf(),
        ensures
            final(self).wf(),
            r matches Ok(fd) ==> {
                &&& auto_insert_ok(*old(self), *final(self), fe, fd)
                &&& final(self).spec_contains(fd)
                &&& final(self).spec_at(fd) == fe
                &&& (forall|g: u32|
                    g != fd ==> final(self).spec_contains(g) == old(self).spec_contains(g))
                &&& (forall|g: u32|
                    g != fd && old(self).spec_contains(g) ==> final(self).spec_at(g) == old(
                        self,
                    ).spec_at(g))
            },
            r matches Err(e) ==> {
                &&& e == WasiError::EMFILE
                &&& *final(self) == *old(self)
                &&& (forall|g: u32| g >= 3 ==> old(self).spec_contains(g))
            },
    {
        let mut fd: u32 = 3;
        while self.contains_fd_entry(fd)
            invariant
                3 <= fd,
                *self == *old(self),
                forall|g: u32| 3 <= g < fd ==> self.spec_contains(g),
            decreases u32::MAX - fd,
        {
            if fd == u32::MAX {
                proof {
                    assert(self.spec_contains(fd));
                    assert forall|g: u32| g >= 3 implies old(self).spec_contains(g) by {
                        if g < fd {
                            assert(self.spec_contains(g));
                        }
                    }
                }
                return Err(WasiError::EMFILE);
            }
            fd = fd + 1;
        }
        self.fds.push((fd, fe));
        proof {
            lemma_push_table(*old(self), *self, fd, fe);
        }
        Ok(fd)
    }

    /// Insert the entry at the given descriptor, overwriting
    /// unconditionally; any displaced entry is returned to the caller,
    /// who decides its disposal.
    #[verifier::loop_isolation(false)]
    pub fn insert_fd_entry_at(&mut self, fd: u32, fe: FdEntry) -> (r: Option<FdEntry>)
        requires
            old(self).wf(),
        ensures
            final(self).wf(),
            final(self).spec_contains(fd),
            final(self).spec_at(fd) == fe,
            forall|g: u32| g != fd ==> final(self).spec_contains(g) == old(self).spec_contains(g),
            forall|g: u32|
                g != fd && old(self).spec_contains(g) ==> final(self).spec_at(g) == old(
                    self,
                ).spec_at(g),
            (r is Some) == old(self).spec_contains(fd),
            r matches Some(e) ==> e == old(self).spec_at(fd),
    {
        let ghost pre = *self;
        let n = self.fds.len();
        let mut i: usize = 0;
        while i < n
            invariant
                0 <= i <= n,
                n == self.fds@.len(),
                *self == pre,
                forall|j: int| 0 <= j < i ==> self.fds@[j].0 != fd,
            decreases n - i,
        {
            if self.fds[i].0 == fd {
                let (_k0, displaced) = self.fds.remove(i);
                self.fds.insert(i, (fd, fe));
                proof {
                    assert(self.fds@ =~= pre.fds_view().update(i as int, (fd, fe)));
                    lemma_update_table(pre, *self, i as int, fd, fe);
                    lemma_table_index(pre, i as int);
                }
                return Some(displaced);
            }
            i += 1;
        }
        self.fds.push((fd, fe));
        proof {
            lemma_push_table(pre, *self, fd, fe);
        }
        None
    }

    /// Remove the entry for the descriptor `fd`; fails with the
    /// bad-descriptor condition when absent.
    #[verifier::loop_isolation(false)]
    pub fn remove_fd_entry(&mut self, fd: u32) -> (r: Result<FdEntry, WasiError>)
        requires
            old(self).wf(),
        ensures
            final(self).wf(),
            (r is Ok) == old(self).spec_contains(fd),
            r matches Ok(e) ==> {
                &&& e == old(self).spec_at(fd)
                &&& !final(self).spec_contains(fd)
                &&& (forall|g: u32|
                    g != fd ==> final(self).spec_contains(g) == old(self).spec_contains(g))
                &&& (forall|g: u32|
                    g != fd && old(self).spec_contains(g) ==> final(self).spec_at(g) == old(
                        self,
                    ).spec_at(g))
            },
            r matches Err(e) ==> e == WasiError::EBADF && *final(self) == *old(self),
    {
        let ghost pre = *self;
        let n = self.fds.len();
        let mut i: usize = 0;
        while i < n
            invariant
                0 <= i <= n,
                n == self.fds@.len(),
                *self == pre,
                forall|j: int| 0 <= j < i ==> self.fds@[j].0 != fd,
            decreases n - i,
        {
            if self.fds[i].0 == fd {
                let (_k0, removed) = self.fds.remove(i);
                proof {
                    lemma_remove_table(pre, *self, i as int, fd);
                    lemma_table_index(pre, i as int);
                }
                return Ok(removed);
            }
            i += 1;
        }
        Err(WasiError::EBADF)
    }
}

// ---------------------------------------------------------------------
// Laws
// ---------------------------------------------------------------------

/// Law: an argument list of valid UTF-8, NUL-free byte sequences
/// resolves without failure, so finalization accepts it.
pub proof fn lemma_valid_utf8_args_accepted(args: Seq<PendingCString>)
    requires
        forall|i: int|
            0 <= i < args.len() ==> ((#[trigger] args[i]) matches PendingCString::Bytes(v)
                && crate::text::is_valid_utf8(v@) && !v@.contains(0u8)),
    ensures
        first_arg_failure(args) is None,
    decreases args.len(),
{
    if args.len() > 0 {
        assert(cstring_ok(args[0]));
        assert(forall|i: int|
            0 <= i < args.skip(1).len() ==> args.skip(1)[i] == args[i + 1]);
        lemma_valid_utf8_args_accepted(args.skip(1));
    }
}

/// Law: when every argument before index `i` resolves and the argument
/// at `i` is valid UTF-8 but holds a NUL byte, finalization fails with
/// the embedded-NUL condition.
pub proof fn lemma_nul_arg_rejected(args: Seq<PendingCString>, i: int)
    requires
        0 <= i < args.len(),
        forall|j: int| 0 <= j < i ==> cstring_ok(args[j]),
        args[i] matches PendingCString::Bytes(v) && crate::text::is_valid_utf8(v@)
            && v@.contains(0u8),
    ensures
        first_arg_failure(args) == Some(WasiCtxBuilderError::UnexpectedNul),
    decreases i,
{
    if i == 0 {
        assert(!cstring_ok(args[0]));
        assert(cstring_failure(args[0]) == WasiCtxBuilderError::UnexpectedNul);
    } else {
        assert(cstring_ok(args[0]));
        assert(args.skip(1)[i - 1] == args[i]);
        assert(forall|j: int| 0 <= j < i - 1 ==> args.skip(1)[j] == args[j + 1]);
        lemma_nul_arg_rejected(args.skip(1), i - 1);
    }
}

/// Law: when every argument before index `i` resolves and the argument
/// at `i` is not valid UTF-8, finalization fails with the invalid-UTF-8
/// condition, whether or not it also holds a NUL byte.
pub proof fn lemma_invalid_utf8_arg_rejected(args: Seq<PendingCString>, i: int)
    requires
        0 <= i < args.len(),
        forall|j: int| 0 <= j < i ==> cstring_ok(args[j]),
        args[i] matches PendingCString::Bytes(v) && !crate::text::is_valid_utf8(v@),
    ensures
        first_arg_failure(args) == Some(WasiCtxBuilderError::InvalidUtf8),
    decreases i,
{
    if i == 0 {
        assert(!decode_ok(args[0]));
        assert(!cstring_ok(args[0]));
    } else {
        assert(cstring_ok(args[0]));
        assert(args.skip(1)[i - 1] == args[i]);
        assert(forall|j: int| 0 <= j < i - 1 ==> args.skip(1)[j] == args[j + 1]);
        lemma_invalid_utf8_arg_rejected(args.skip(1), i - 1);
    }
}

/// Law: setting the same key twice collapses to setting it once with
/// the later value.
pub proof fn lemma_env_last_write_wins(
    env: Seq<(PendingCString, PendingCString)>,
    k: PendingCString,
    v1: PendingCString,
    v2: PendingCString,
)
    ensures
        env_upsert(env_upsert(env, k, v1), k, v2) == env_upsert(env, k, v2),
    decreases env.len(),
{
    if env.len() == 0 {
        assert(pending_eq(k, k));
        assert(env_upsert(env_upsert(env, k, v1), k, v2) =~= env_upsert(env, k, v2));
    } else if pending_eq(env[0].0, k) {
        let e1 = env_upsert(env, k, v1);
        assert(e1[0].0 == env[0].0);
        assert(e1.skip(1) =~= env.skip(1));
        assert(env_upsert(e1, k, v2) =~= env_upsert(env, k, v2));
    } else {
        let e1 = env_upsert(env, k, v1);
        assert(e1[0] == env[0]);
        assert(e1.skip(1) =~= env_upsert(env.skip(1), k, v1));
        lemma_env_last_write_wins(env.skip(1), k, v1, v2);
        assert(env_upsert(e1, k, v2) =~= env_upsert(env, k, v2));
    }
}

/// Law: after an upsert the key is present exactly once, bound to the
/// upserted value, provided the keys were pairwise distinct before.
pub proof fn lemma_env_upsert_key_unique(
    env: Seq<(PendingCString, PendingCString)>,
    k: PendingCString,
    v: PendingCString,
)
    requires
        forall|i: int, j: int|
            0 <= i < j < env.len() ==> !pending_eq(env[i].0, env[j].0),
    ensures
        exists|i: int|
            0 <= i < env_upsert(env, k, v).len() && pending_eq(env_upsert(env, k, v)[i].0, k)
                && env_upsert(env, k, v)[i].1 == v && (forall|j: int|
                0 <= j < env_upsert(env, k, v).len() && j != i ==> !pending_eq(
                    env_upsert(env, k, v)[j].0,
                    k,
                )),
    decreases env.len(),
{
    let r = env_upsert(env, k, v);
    assert(pending_eq(k, k)) by {
        match k {
            PendingCString::Bytes(_) => {},
            PendingCString::Native(HostString::Narrow(_)) => {},
            PendingCString::Native(HostString::Wide(_)) => {},
        }
    }
    if env.len() == 0 {
        assert(r[0].1 == v);
        assert(forall|j: int| 0 <= j < r.len() && j != 0 ==> !pending_eq(r[j].0, k));
    } else if pending_eq(env[0].0, k) {
        assert(r[0].0 == env[0].0 && r[0].1 == v);
        assert forall|j: int| 0 <= j < r.len() && j != 0 implies !pending_eq(r[j].0, k) by {
            assert(r[j] == env[j]);
            assert(!pending_eq(env[0].0, env[j].0));
            lemma_pending_eq_trans(env[j].0, env[0].0, k);
        }
    } else {
        assert(forall|i: int, j: int|
            0 <= i < j < env.skip(1).len() ==> !pending_eq(env.skip(1)[i].0, env.skip(1)[j].0));
        lemma_env_upsert_key_unique(env.skip(1), k, v);
        let r1 = env_upsert(env.skip(1), k, v);
        let i1 = choose|i: int|
            0 <= i < r1.len() && pending_eq(r1[i].0, k) && r1[i].1 == v && (forall|j: int|
                0 <= j < r1.len() && j != i ==> !pending_eq(r1[j].0, k));
        assert(r == seq![env[0]] + r1);
        assert(r[i1 + 1] == r1[i1]);
        assert forall|j: int| 0 <= j < r.len() && j != i1 + 1 implies !pending_eq(
            r[j].0,
            k,
        ) by {
            if j == 0 {
                assert(r[0] == env[0]);
            } else {
                assert(r[j] == r1[j - 1]);
            }
        }
    }
}

/// Structural key equality is symmetric and carries across equal keys.
proof fn lemma_pending_eq_trans(a: PendingCString, b: PendingCString, c: PendingCString)
    requires
        !pending_eq(b, a),
        pending_eq(b, c),
    ensures
        !pending_eq(a, c),
{
}

/// Law: preopen grants whose origins are all directories are accepted,
/// as long as the descriptor space suffices.
pub proof fn lemma_valid_preopens_accepted(pres: Seq<(Vec<u8>, Descriptor)>, fd: int)
    requires
        forall|j: int| 0 <= j < pres.len() ==> grant_ok(#[trigger] pres[j].1),
        fd + pres.len() <= u32::MAX,
    ensures
        first_preopen_failure(pres, fd) is None,
    decreases pres.len(),
{
    if pres.len() > 0 {
        assert(grant_ok(pres[0].1));
        assert(forall|j: int|
            0 <= j < pres.skip(1).len() ==> #[trigger] pres.skip(1)[j] == pres[j + 1]);
        lemma_valid_preopens_accepted(pres.skip(1), fd + 1);
    }
}

/// Law: when every grant before index `i` passes validation and the
/// grant at `i` has a non-directory origin, finalization fails with
/// the not-a-directory condition carrying exactly that grant's guest
/// path.
pub proof fn lemma_preopen_not_dir_rejected(pres: Seq<(Vec<u8>, Descriptor)>, fd: int, i: int)
    requires
        0 <= i < pres.len(),
        forall|j: int| 0 <= j < i ==> grant_ok(#[trigger] pres[j].1),
        grant_not_dir(pres[i].1),
        fd + i + 1 <= u32::MAX,
    ensures
        first_preopen_failure(pres, fd) matches Some(e) && (e matches
            WasiCtxBuilderError::NotADirectory(p) && p == pres[i].0),
    decreases i,
{
    if i == 0 {
        assert(!grant_io_fails(pres[0].1));
    } else {
        assert(grant_ok(pres[0].1));
        assert(pres.skip(1)[i - 1] == pres[i]);
        assert(forall|j: int|
            0 <= j < i - 1 ==> #[trigger] pres.skip(1)[j] == pres[j + 1]);
        lemma_preopen_not_dir_rejected(pres.skip(1), fd + 1, i - 1);
    }
}

/// Law: repeated auto-assigning inserts return strictly increasing
/// descriptors and never reuse an occupied slot.
pub proof fn lemma_auto_insert_increasing(
    t0: WasiCtx,
    t1: WasiCtx,
    t2: WasiCtx,
    fe1: FdEntry,
    fe2: FdEntry,
    fd1: u32,
    fd2: u32,
)
    requires
        t0.wf(),
        auto_insert_ok(t0, t1, fe1, fd1),
        auto_insert_ok(t1, t2, fe2, fd2),
    ensures
        fd2 > fd1,
{
    lemma_push_table(t0, t1, fd1, fe1);
    if fd2 == fd1 {
        assert(t1.spec_contains(fd1));
        assert(false);
    }
    if fd2 < fd1 {
        assert(t0.spec_contains(fd2));
        assert(t1.spec_contains(fd2));
        assert(false);
    }
}

} // verus!
