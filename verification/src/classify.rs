//! Structural classification of a decoded token sequence into template tags.

use vstd::prelude::*;
use crate::opcodes::{OP_CHECKMULTISIG, OP_CHECKSIG, OP_DUP, OP_EQUAL, OP_EQUALVERIFY, OP_HASH160,
    OP_RETURN};
use crate::token::TokenModel;

verus! {

/// The template tag assigned to a script. Every token sequence gets exactly
/// one tag; sequences matching no template are `Unknown`.
#[derive(Clone, Copy, Debug, PartialEq, Eq, Structural)]
pub enum ScriptType {
    /// Exactly two tokens ending in the signature-check stub.
    P2PK,
    /// Duplicate-top, hash160, any token, equal-assert, signature-check stub.
    P2PKH,
    /// Hash160, any token, equal-test.
    P2SH,
    /// Any sequence whose last token is the multi-signature-check stub.
    P2MS,
    /// Any sequence whose first token is the return marker.
    Return,
    /// Everything else.
    Unknown,
}

/// The classification rules, in priority order. The non-wildcard positions
/// require the fixed mnemonic opcode itself, not merely a sequence of the
/// right length.
pub open spec fn spec_classify(ts: Seq<TokenModel>) -> ScriptType {
    if ts.len() == 2 && ts[1] == TokenModel::Op(OP_CHECKSIG) {
        ScriptType::P2PK
    } else if ts.len() == 5 && ts[0] == TokenModel::Op(OP_DUP) && ts[1] == TokenModel::Op(
        OP_HASH160,
    ) && ts[3] == TokenModel::Op(OP_EQUALVERIFY) && ts[4] == TokenModel::Op(OP_CHECKSIG) {
        ScriptType::P2PKH
    } else if ts.len() == 3 && ts[0] == TokenModel::Op(OP_HASH160) && ts[2] == TokenModel::Op(
        OP_EQUAL,
    ) {
        ScriptType::P2SH
    } else if ts.len() >= 1 && ts[ts.len() - 1] == TokenModel::Op(OP_CHECKMULTISIG) {
        ScriptType::P2MS
    } else if ts.len() >= 1 && ts[0] == TokenModel::Op(OP_RETURN) {
        ScriptType::Return
    } else {
        ScriptType::Unknown
    }
}

/// Classification is total and deterministic: being a function of the token
/// sequence alone, it assigns equal sequences equal tags, and every sequence
/// receives exactly one of the six tags.
pub proof fn lemma_classify_exhaustive(ts: Seq<TokenModel>)
    ensures
        spec_classify(ts) == ScriptType::P2PK || spec_classify(ts) == ScriptType::P2PKH
            || spec_classify(ts) == ScriptType::P2SH || spec_classify(ts) == ScriptType::P2MS
            || spec_classify(ts) == ScriptType::Return || spec_classify(ts)
            == ScriptType::Unknown,
{
}

} // verus!
