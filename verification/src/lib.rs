//! Host-side capability table for a sandboxed guest's system interface.
//!
//! A `WasiCtxBuilder` stages arguments, environment pairs, standard-stream
//! overrides and preopened directory grants without performing any
//! validation; one terminal `build` call validates every staged value and
//! produces the finalized descriptor table, a `WasiCtx`, or fails as a
//! whole.  The guest gains filesystem reach only through the preopen
//! grants recorded in that table.

pub mod ctx;
pub mod error;
pub mod fdentry;
pub mod text;
pub mod virtfs;
