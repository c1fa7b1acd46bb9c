//! In-process command-exchange layer for a modular virtual machine.
//!
//! Independent modules submit binary-encoded commands into per-module,
//! per-channel logs; the core consumes them on a fixed tick cycle. The
//! building blocks are a bump/arena allocator over a reserved byte region,
//! a pair of byte cursors that encode and decode fixed-width integers and
//! length-prefixed strings, a length-prefixed command-log format with a
//! two-phase (reserve-then-patch) append protocol, and a forward-only
//! record reader that enforces strict payload-boundary invariants.

pub mod allocator;
pub mod buffers;
pub mod commands;
pub mod commands_bus;
pub mod commands_reader;
pub mod data;
pub mod gapi;
pub mod module;
pub mod protocol;
pub mod state;

use vstd::prelude::*;

verus! {

/// Errors surfaced by the command-exchange layer.
///
/// `OutOfMemory` is recoverable by the producer (retry with a larger
/// capacity or drop the command); `ProtocolViolation` indicates a bug in a
/// producer/consumer pair (a consumer advanced past a declared payload
/// boundary) and is fatal to the affected log.
#[derive(Clone, Copy, Debug, PartialEq, Eq, Structural)]
pub enum VmError {
    /// The arena backing a log has no room for the requested bytes.
    OutOfMemory,
    /// A consumer read past the payload boundary it was given.
    ProtocolViolation,
}

} // verus!
