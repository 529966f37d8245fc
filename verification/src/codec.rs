//! The script codec: byte encoding to token sequence and back.
//!
//! Decoding scans left to right: a byte in `[1, 75]` is a length prefix and
//! consumes that many following bytes as one push-data token; a recognized
//! opcode byte becomes an opcode token; any other byte becomes a one-byte
//! push-data token (rendered as its two-digit hex form). A length prefix
//! reaching past the end stops decoding early, keeping what was decoded.
//!
//! Encoding emits an opcode token as its byte, and a push-data token as a
//! one-byte length prefix below 76, as the two-byte prefix for lengths up
//! to 255, and fails with `DataTooLarge` beyond that.

use vstd::prelude::*;
use crate::errors::ScriptError;
use crate::opcodes::{is_known_op, is_known_opcode, OP_PUSHDATA1};
use crate::token::{tokens_model, Token, TokenModel};

verus! {

/// The token sequence a byte sequence decodes to.
pub open spec fn spec_decode(bytes: Seq<u8>) -> Seq<TokenModel>
    decreases bytes.len(),
{
    if bytes.len() == 0 {
        Seq::empty()
    } else {
        let op = bytes[0];
        if 1 <= op && op <= 75 {
            if 1 + op <= bytes.len() {
                seq![TokenModel::Data(bytes.subrange(1, 1 + op))] + spec_decode(
                    bytes.skip(1 + op),
                )
            } else {
                Seq::empty()
            }
        } else if is_known_opcode(op) {
            seq![TokenModel::Op(op)] + spec_decode(bytes.drop_first())
        } else {
            seq![TokenModel::Data(seq![op])] + spec_decode(bytes.drop_first())
        }
    }
}

/// The bytes one token encodes to.
pub open spec fn spec_encode_token(t: TokenModel) -> Seq<u8> {
    match t {
        TokenModel::Op(b) => seq![b],
        TokenModel::Data(d) => if d.len() < 76 {
            seq![d.len() as u8] + d
        } else {
            seq![OP_PUSHDATA1, d.len() as u8] + d
        },
    }
}

/// A token the encoding can carry: push data of at most 255 bytes.
pub open spec fn token_encodable(t: TokenModel) -> bool {
    match t {
        TokenModel::Op(_) => true,
        TokenModel::Data(d) => d.len() <= 255,
    }
}

/// All tokens of a sequence are encodable.
pub open spec fn tokens_encodable(ts: Seq<TokenModel>) -> bool {
    forall|i: int| 0 <= i < ts.len() ==> token_encodable(#[trigger] ts[i])
}

/// The bytes a token sequence encodes to.
pub open spec fn spec_encode(ts: Seq<TokenModel>) -> Seq<u8>
    decreases ts.len(),
{
    if ts.len() == 0 {
        Seq::empty()
    } else {
        spec_encode_token(ts[0]) + spec_encode(ts.drop_first())
    }
}

/// Copies `src[from..to]` into a fresh vector.
fn copy_range(src: &[u8], from: usize, to: usize) -> (r: Vec<u8>)
    requires
        from <= to <= src@.len(),
    ensures
        r@ == src@.subrange(from as int, to as int),
{
    let mut r: Vec<u8> = Vec::new();
    let mut i: usize = from;
    while i < to
        invariant
            from <= i <= to <= src@.len(),
            r@ == src@.subrange(from as int, i as int),
        decreases to - i,
    {
        r.push(src[i]);
        i = i + 1;
        proof {
            assert(src@.subrange(from as int, i as int) =~= src@.subrange(
                from as int,
                i - 1,
            ).push(src@[i - 1]));
        }
    }
    r
}

/// Decodes a byte sequence into its token sequence.
pub fn decode_bytes(bytes: &[u8]) -> (r: Vec<Token>)
    ensures
        tokens_model(r@) == spec_decode(bytes@),
{
    let mut r: Vec<Token> = Vec::new();
    let mut i: usize = 0;
    proof {
        assert(bytes@.skip(0) =~= bytes@);
        assert(tokens_model(r@) + spec_decode(bytes@) =~= spec_decode(bytes@));
    }
    while i < bytes.len()
        invariant
            i <= bytes@.len(),
            spec_decode(bytes@) == tokens_model(r@) + spec_decode(bytes@.skip(i as int)),
        decreases bytes@.len() - i,
    {
        let ghost prefix = tokens_model(r@);
        let ghost rest = bytes@.skip(i as int);
        let op = bytes[i];
        if 1 <= op && op <= 75 {
            let len = op as usize;
            if len > bytes.len() - i - 1 {
                // Truncated length prefix: stop early, keep what we have.
                proof {
                    assert(spec_decode(rest) =~= Seq::<TokenModel>::empty());
                    assert(tokens_model(r@) =~= tokens_model(r@) + spec_decode(rest));
                }
                return r;
            }
            let data = copy_range(bytes, i + 1, i + 1 + len);
            r.push(Token::Data(data));
            i = i + 1 + len;
            proof {
                assert(rest.subrange(1, 1 + op) =~= bytes@.subrange(
                    i - len,
                    i as int,
                ));
                assert(rest.skip(1 + op) =~= bytes@.skip(i as int));
                assert(tokens_model(r@) =~= prefix + seq![
                    TokenModel::Data(rest.subrange(1, 1 + op)),
                ]);
                assert(spec_decode(bytes@) == tokens_model(r@) + spec_decode(
                    bytes@.skip(i as int),
                ));
            }
        } else {
            if is_known_op(op) {
                r.push(Token::Op(op));
            } else {
                let mut one: Vec<u8> = Vec::new();
                one.push(op);
                r.push(Token::Data(one));
            }
            i = i + 1;
            proof {
                assert(rest.drop_first() =~= bytes@.skip(i as int));
                if is_known_opcode(op) {
                    assert(tokens_model(r@) =~= prefix + seq![TokenModel::Op(op)]);
                } else {
                    assert(tokens_model(r@) =~= prefix + seq![TokenModel::Data(seq![op])]);
                }
                assert(spec_decode(bytes@) == tokens_model(r@) + spec_decode(
                    bytes@.skip(i as int),
                ));
            }
        }
    }
    proof {
        assert(bytes@.skip(bytes@.len() as int) =~= Seq::<u8>::empty());
        assert(tokens_model(r@) =~= tokens_model(r@) + spec_decode(bytes@.skip(
            bytes@.len() as int,
        )));
    }
    r
}

/// Appends one token's encoding to `out`, or reports that its payload is
/// too large for the supported length prefixes.
pub fn encode_token_into(t: &Token, out: &mut Vec<u8>) -> (r: Result<(), ScriptError>)
    ensures
        match r {
            Ok(_) => token_encodable(t@) && final (out)@ == old(out)@ + spec_encode_token(t@),
            Err(e) => e == ScriptError::DataTooLarge && !token_encodable(t@) && final (out)@
                == old(out)@,
        },
{
    match t {
        Token::Op(b) => {
            out.push(*b);
            proof {
                assert(out@ =~= old(out)@ + spec_encode_token(t@));
            }
            Ok(())
        },
        Token::Data(d) => {
            if d.len() < 76 {
                out.push(d.len() as u8);
            } else if d.len() <= 255 {
                out.push(OP_PUSHDATA1);
                out.push(d.len() as u8);
            } else {
                return Err(ScriptError::DataTooLarge);
            }
            let mut j: usize = 0;
            while j < d.len()
                invariant
                    j <= d@.len(),
                    d@.len() <= 255,
                    out@ == old(out)@ + (if d@.len() < 76 {
                        seq![d@.len() as u8]
                    } else {
                        seq![OP_PUSHDATA1, d@.len() as u8]
                    }) + d@.take(j as int),
                decreases d@.len() - j,
            {
                out.push(d[j]);
                j = j + 1;
                proof {
                    assert(d@.take(j as int) =~= d@.take(j - 1).push(d@[j - 1]));
                    assert(out@ =~= old(out)@ + (if d@.len() < 76 {
                        seq![d@.len() as u8]
                    } else {
                        seq![OP_PUSHDATA1, d@.len() as u8]
                    }) + d@.take(j as int));
                }
            }
            proof {
                assert(d@.take(d@.len() as int) =~= d@);
                assert(out@ =~= old(out)@ + spec_encode_token(t@));
            }
            Ok(())
        },
    }
}

/// Encodes a token sequence into bytes; fails with `DataTooLarge` when some
/// push-data token's payload does not fit a supported length prefix.
pub fn encode_tokens(ts: &[Token]) -> (r: Result<Vec<u8>, ScriptError>)
    ensures
        match r {
            Ok(v) => tokens_encodable(tokens_model(ts@)) && v@ == spec_encode(tokens_model(ts@)),
            Err(e) => e == ScriptError::DataTooLarge && !tokens_encodable(tokens_model(ts@)),
        },
{
    let ghost all = tokens_model(ts@);
    let mut out: Vec<u8> = Vec::new();
    let mut i: usize = 0;
    while i < ts.len()
        invariant
            i <= ts@.len(),
            all == tokens_model(ts@),
            forall|j: int| 0 <= j < i ==> token_encodable(#[trigger] all[j]),
            out@ == spec_encode(all.take(i as int)),
        decreases ts@.len() - i,
    {
        let ghost pre = out@;
        let res = encode_token_into(&ts[i], &mut out);
        match res {
            Ok(_) => {
                i = i + 1;
                proof {
                    lemma_encode_take_step(all, i as int);
                }
            },
            Err(e) => {
                proof {
                    assert(!token_encodable(all[i as int]));
                }
                return Err(e);
            },
        }
    }
    proof {
        assert(all.take(all.len() as int) =~= all);
    }
    Ok(out)
}

/// Encoding a prefix of one more token appends that token's encoding.
proof fn lemma_encode_take_step(ts: Seq<TokenModel>, i: int)
    requires
        0 < i <= ts.len(),
    ensures
        spec_encode(ts.take(i)) == spec_encode(ts.take(i - 1)) + spec_encode_token(ts[i - 1]),
    decreases i,
{
    if i == 1 {
        assert(ts.take(1) =~= seq![ts[0]]);
        assert(ts.take(1).drop_first() =~= Seq::<TokenModel>::empty());
        assert(ts.take(0) =~= Seq::<TokenModel>::empty());
        assert(spec_encode(ts.take(i)) =~= spec_encode(ts.take(i - 1)) + spec_encode_token(
            ts[i - 1],
        ));
    } else {
        lemma_encode_take_step(ts.drop_first(), i - 1);
        assert(ts.take(i).drop_first() =~= ts.drop_first().take(i - 1));
        assert(ts.take(i - 1).drop_first() =~= ts.drop_first().take(i - 2));
        assert(ts.drop_first()[i - 2] == ts[i - 1]);
        assert(spec_encode(ts.take(i)) =~= spec_encode(ts.take(i - 1)) + spec_encode_token(
            ts[i - 1],
        ));
    }
}

/// A token that encoding and decoding carry round unchanged: a recognized
/// opcode, or push data of one to 75 bytes. An empty payload would encode
/// as the zero-constant's byte, and a longer one needs the two-byte prefix,
/// which the decoder deliberately leaves uninterpreted.
pub open spec fn token_round_trippable(t: TokenModel) -> bool {
    match t {
        TokenModel::Op(b) => is_known_opcode(b),
        TokenModel::Data(d) => 1 <= d.len() <= 75,
    }
}

/// Round trip: encoding any sequence of round-trippable tokens and decoding
/// the resulting bytes reproduces exactly the original token sequence.
pub proof fn lemma_round_trip(ts: Seq<TokenModel>)
    requires
        forall|i: int| 0 <= i < ts.len() ==> token_round_trippable(#[trigger] ts[i]),
    ensures
        spec_decode(spec_encode(ts)) == ts,
    decreases ts.len(),
{
    if ts.len() == 0 {
        assert(spec_decode(spec_encode(ts)) =~= ts);
    } else {
        lemma_round_trip(ts.drop_first());
        let head = ts[0];
        let enc = spec_encode_token(head) + spec_encode(ts.drop_first());
        assert(spec_encode(ts) == enc);
        match head {
            TokenModel::Op(b) => {
                assert(enc[0] == b);
                assert(!(1 <= b && b <= 75));
                assert(enc.drop_first() =~= spec_encode(ts.drop_first()));
                assert(spec_decode(enc) =~= seq![head] + spec_decode(spec_encode(
                    ts.drop_first(),
                )));
                assert(spec_decode(spec_encode(ts)) =~= ts);
            },
            TokenModel::Data(d) => {
                assert(enc[0] == d.len() as u8);
                assert(1 <= enc[0] && enc[0] <= 75);
                assert(1 + enc[0] <= enc.len());
                assert(enc.subrange(1, 1 + d.len() as u8) =~= d);
                assert(enc.skip(1 + d.len() as u8) =~= spec_encode(ts.drop_first()));
                assert(spec_decode(enc) =~= seq![head] + spec_decode(spec_encode(
                    ts.drop_first(),
                )));
                assert(spec_decode(spec_encode(ts)) =~= ts);
            },
        }
    }
}

} // verus!
