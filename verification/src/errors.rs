//! Error kinds shared by the codec and the executor.

use vstd::prelude::*;

verus! {

/// Every way a script can fail to parse, encode or run.
#[derive(Clone, Copy, Debug, PartialEq, Eq, Structural)]
pub enum ScriptError {
    /// Malformed hex, or a mnemonic token that is neither a known name nor hex.
    FormatError,
    /// A numeric-constant mnemonic outside the supported range.
    InvalidOpcode,
    /// A push payload longer than the supported length prefixes can carry.
    DataTooLarge,
    /// An opcode required more stack elements than were present.
    StackUnderflow,
    /// An equality assertion failed during execution.
    ScriptFailure,
    /// The unconditional-failure marker was reached during execution.
    ScriptInvalid,
}

} // verus!
