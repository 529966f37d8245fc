//! A verified interpreter for a minimal, stack-based transaction-script
//! language: a codec between a compact byte encoding and mnemonic token
//! sequences, a structural classifier that assigns each script one of a
//! small set of template tags, and a stack-machine executor with a final
//! validity check.

pub mod classify;
pub mod codec;
pub mod digest;
pub mod errors;
pub mod hexstr;
pub mod machine;
pub mod opcodes;
pub mod script;
pub mod text;
pub mod token;
