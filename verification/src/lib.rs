//! Core of a Byzantine-fault-tolerant event ledger: signed events linked by
//! parent hash, a reputation overlay that punishes equivocation, a chunked
//! signed file store, and a deterministic replay of recorded executions.
use vstd::prelude::*;

pub mod crypto;
pub mod event;
pub mod merkle;
pub mod validation;
pub mod ledger;
pub mod block;
pub mod scoring;
pub mod text;
pub mod storage;
pub mod manifest_laws;
pub mod trace_check;

verus! {

/// The single protocol version that events may carry.
pub const PROTOCOL_VERSION: u8 = 1;

} // verus!
