//! Script tokens.
//!
//! A decoded script is a sequence of tokens. A token is either a recognized
//! opcode (a named behavioral opcode or a numeric constant) or a push-data
//! element holding literal bytes. An unrecognized opcode byte decodes to a
//! one-byte push-data token, which is also how it is rendered (as its
//! two-digit hex form) and how the executor treats it.

use vstd::prelude::*;
use crate::opcodes::is_known_opcode;

verus! {

/// One element of a decoded script.
#[derive(Debug, PartialEq, Eq)]
pub enum Token {
    /// A recognized opcode byte.
    Op(u8),
    /// Literal bytes to be pushed on the stack, rendered textually as hex.
    Data(Vec<u8>),
}

/// The mathematical model of a [`Token`].
pub enum TokenModel {
    Op(u8),
    Data(Seq<u8>),
}

impl View for Token {
    type V = TokenModel;

    open spec fn view(&self) -> TokenModel {
        match self {
            Token::Op(b) => TokenModel::Op(*b),
            Token::Data(d) => TokenModel::Data(d@),
        }
    }
}

impl Clone for Token {
    /// Clones preserve the token's model.
    fn clone(&self) -> (r: Self)
        ensures
            r@ == self@,
    {
        match self {
            Token::Op(b) => Token::Op(*b),
            Token::Data(d) => Token::Data(clone_bytes(d)),
        }
    }
}

/// Clones a byte vector, preserving its contents.
pub fn clone_bytes(d: &Vec<u8>) -> (r: Vec<u8>)
    ensures
        r@ == d@,
{
    let mut r: Vec<u8> = Vec::new();
    let mut i: usize = 0;
    while i < d.len()
        invariant
            i <= d.len(),
            r@ == d@.take(i as int),
        decreases d.len() - i,
    {
        r.push(d[i]);
        i = i + 1;
        proof {
            assert(d@.take(i as int) =~= d@.take(i as int - 1).push(d@[i as int - 1]));
        }
    }
    proof {
        assert(d@.take(d@.len() as int) =~= d@);
    }
    r
}

/// Compares two byte vectors for equality of their contents.
pub fn bytes_eq(a: &Vec<u8>, b: &Vec<u8>) -> (r: bool)
    ensures
        r == (a@ == b@),
{
    let r = a == b;
    proof {
        // The comparison is specified elementwise; extensionality turns
        // that into sequence equality.
        if a@ =~= b@ {
        }
    }
    r
}

/// The model of a sequence of tokens.
pub open spec fn tokens_model(ts: Seq<Token>) -> Seq<TokenModel> {
    ts.map_values(|t: Token| t@)
}

/// A token the codec can produce: opcode tokens carry only recognized bytes.
pub open spec fn token_wf(t: TokenModel) -> bool {
    match t {
        TokenModel::Op(b) => is_known_opcode(b),
        TokenModel::Data(_) => true,
    }
}

/// All tokens of a sequence are well formed.
pub open spec fn tokens_wf(ts: Seq<TokenModel>) -> bool {
    forall|i: int| 0 <= i < ts.len() ==> token_wf(#[trigger] ts[i])
}

} // verus!
