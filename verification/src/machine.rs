//! The stack-machine executor.
//!
//! An instruction list (a token sequence) is consumed from the front against
//! a stack of byte vectors. Push-data tokens push their bytes; each modeled
//! opcode transforms the stack as specified by [`spec_step`]; recognized but
//! unmodeled opcode bytes (the numeric constants) consume their token and
//! leave the stack alone.
//!
//! The check stubs read their counts from stack elements without any
//! validation of their own; where such a count is missing or malformed, or
//! a stub's blind pop finds nothing, this executor reports `StackUnderflow`
//! rather than faulting at a lower level.

use vstd::prelude::*;
use crate::digest::{hash160, spec_hash160};
use crate::errors::ScriptError;
use crate::opcodes::{OP_CHECKMULTISIG, OP_CHECKSIG, OP_DUP, OP_EQUAL, OP_EQUALVERIFY, OP_HASH160,
    OP_RETURN};
use crate::token::{bytes_eq, clone_bytes, tokens_model, Token, TokenModel};

verus! {

/// A stack of byte vectors; the top is the most recently pushed element.
pub type Stack = Vec<Vec<u8>>;

/// The mathematical model of a stack.
pub open spec fn stack_model(s: Seq<Vec<u8>>) -> Seq<Seq<u8>> {
    s.map_values(|v: Vec<u8>| v@)
}

/// The one-byte "true" element.
pub open spec fn true_elem() -> Seq<u8> {
    seq![1u8]
}

/// The stack after blindly discarding up to `n` elements from the top.
pub open spec fn drop_top(s: Seq<Seq<u8>>, n: int) -> Seq<Seq<u8>> {
    if s.len() >= n {
        s.take(s.len() - n)
    } else {
        Seq::empty()
    }
}

/// The count a check-stub reads from a stack element: the element's first
/// byte, interpreted as a numeric constant's encoded value. Absent or
/// malformed counts are rejected (hardened, see the module comment).
pub open spec fn counted_value(e: Seq<u8>) -> Option<u8> {
    if e.len() >= 1 && e[0] >= 0x50 {
        Some((e[0] - 0x50) as u8)
    } else {
        None
    }
}

/// The multi-signature-check stub: pop a key count, that many keys, a
/// signature count, that many signatures, then one additional element which
/// is discarded unexamined — the historical off-by-one the reference
/// protocol requires — and push "true".
pub open spec fn spec_multisig_step(stack: Seq<Seq<u8>>) -> Result<Seq<Seq<u8>>, ScriptError> {
    if stack.len() < 1 {
        Err(ScriptError::StackUnderflow)
    } else {
        match counted_value(stack.last()) {
            None => Err(ScriptError::StackUnderflow),
            Some(n) => {
                if stack.len() < n + 2 {
                    Err(ScriptError::StackUnderflow)
                } else {
                    let rest = stack.take(stack.len() - 1 - n);
                    match counted_value(rest.last()) {
                        None => Err(ScriptError::StackUnderflow),
                        Some(m) => {
                            if rest.len() < m + 2 {
                                Err(ScriptError::StackUnderflow)
                            } else {
                                Ok(rest.take(rest.len() - 2 - m).push(true_elem()))
                            }
                        },
                    }
                }
            },
        }
    }
}

/// What one token does to the stack.
pub open spec fn spec_step(t: TokenModel, stack: Seq<Seq<u8>>) -> Result<
    Seq<Seq<u8>>,
    ScriptError,
> {
    match t {
        TokenModel::Data(d) => Ok(stack.push(d)),
        TokenModel::Op(b) => {
            if b == OP_DUP {
                if stack.len() == 0 {
                    Err(ScriptError::StackUnderflow)
                } else {
                    Ok(stack.push(stack.last()))
                }
            } else if b == OP_HASH160 {
                if stack.len() == 0 {
                    Err(ScriptError::StackUnderflow)
                } else {
                    Ok(stack.drop_last().push(spec_hash160(stack.last())))
                }
            } else if b == OP_EQUAL {
                if stack.len() < 2 {
                    Err(ScriptError::StackUnderflow)
                } else {
                    let r = if stack[stack.len() - 2] == stack.last() {
                        true_elem()
                    } else {
                        Seq::<u8>::empty()
                    };
                    Ok(stack.drop_last().drop_last().push(r))
                }
            } else if b == OP_EQUALVERIFY {
                if stack.len() < 2 {
                    Err(ScriptError::StackUnderflow)
                } else if stack[stack.len() - 2] != stack.last() {
                    Err(ScriptError::ScriptFailure)
                } else {
                    Ok(stack.drop_last().drop_last())
                }
            } else if b == OP_CHECKSIG {
                // The stub pops a signature and a key blindly and never
                // fails, whatever was popped or missing.
                Ok(drop_top(stack, 2).push(true_elem()))
            } else if b == OP_CHECKMULTISIG {
                spec_multisig_step(stack)
            } else if b == OP_RETURN {
                Err(ScriptError::ScriptInvalid)
            } else {
                // Recognized but unmodeled bytes (the numeric constants)
                // consume their token and do nothing.
                Ok(stack)
            }
        },
    }
}

/// Running an instruction list against a starting stack: consume tokens
/// from the front until the list is empty or a step fails.
pub open spec fn spec_exec(instrs: Seq<TokenModel>, stack: Seq<Seq<u8>>) -> Result<
    Seq<Seq<u8>>,
    ScriptError,
>
    decreases instrs.len(),
{
    if instrs.len() == 0 {
        Ok(stack)
    } else {
        match spec_step(instrs[0], stack) {
            Ok(next) => spec_exec(instrs.drop_first(), next),
            Err(e) => Err(e),
        }
    }
}

/// Running an instruction list from an empty stack.
pub open spec fn spec_run(instrs: Seq<TokenModel>) -> Result<Seq<Seq<u8>>, ScriptError> {
    spec_exec(instrs, Seq::empty())
}

/// The sole acceptance rule: the final stack is non-empty and its top
/// element is a non-empty byte vector.
pub open spec fn spec_validity(stack: Seq<Seq<u8>>) -> bool {
    stack.len() > 0 && stack.last().len() > 0
}

/// Execution is deterministic: the outcome is a function of the
/// instruction list alone, so two runs of the same concatenated list from
/// an empty stack yield identical final stacks (or the identical error).
pub proof fn lemma_run_deterministic(
    instrs: Seq<TokenModel>,
    r1: Result<Seq<Seq<u8>>, ScriptError>,
    r2: Result<Seq<Seq<u8>>, ScriptError>,
)
    requires
        r1 == spec_run(instrs),
        r2 == spec_run(instrs),
    ensures
        r1 == r2,
{
}

/// Executes one token against the stack. On an error the stack is left as
/// it was.
pub fn exec_step(t: &Token, stack: &mut Vec<Vec<u8>>) -> (r: Result<(), ScriptError>)
    ensures
        match r {
            Ok(_) => spec_step(t@, stack_model(old(stack)@)) == Ok::<Seq<Seq<u8>>, ScriptError>(stack_model(final (stack)@)),
            Err(e) => spec_step(t@, stack_model(old(stack)@)) == Err::<Seq<Seq<u8>>, ScriptError>(e) && final (stack)@ == old(
                stack,
            )@,
        },
{
    let ghost pre = stack_model(old(stack)@);
    match t {
        Token::Data(d) => {
            stack.push(clone_bytes(d));
            proof {
                assert(stack_model(stack@) =~= pre.push(d@));
            }
            Ok(())
        },
        Token::Op(op) => {
            let b = *op;
            let l = stack.len();
            if b == OP_DUP {
                if l == 0 {
                    return Err(ScriptError::StackUnderflow);
                }
                let top = clone_bytes(&stack[l - 1]);
                stack.push(top);
                proof {
                    assert(stack_model(stack@) =~= pre.push(pre.last()));
                }
                Ok(())
            } else if b == OP_HASH160 {
                if l == 0 {
                    return Err(ScriptError::StackUnderflow);
                }
                let elem = stack.pop().unwrap();
                let h = hash160(elem.as_slice());
                stack.push(h);
                proof {
                    assert(stack_model(stack@) =~= pre.drop_last().push(spec_hash160(pre.last())));
                }
                Ok(())
            } else if b == OP_EQUAL {
                if l < 2 {
                    return Err(ScriptError::StackUnderflow);
                }
                let eq = bytes_eq(&stack[l - 2], &stack[l - 1]);
                let b2 = stack.pop().unwrap();
                let a = stack.pop().unwrap();
                if eq {
                    stack.push(vec![1u8]);
                } else {
                    stack.push(Vec::new());
                }
                proof {
                    let r = if pre[pre.len() - 2] == pre.last() {
                        true_elem()
                    } else {
                        Seq::<u8>::empty()
                    };
                    assert(stack_model(stack@) =~~= pre.drop_last().drop_last().push(r));
                }
                Ok(())
            } else if b == OP_EQUALVERIFY {
                if l < 2 {
                    return Err(ScriptError::StackUnderflow);
                }
                let eq = bytes_eq(&stack[l - 2], &stack[l - 1]);
                if !eq {
                    return Err(ScriptError::ScriptFailure);
                }
                let _ = stack.pop();
                let _ = stack.pop();
                proof {
                    assert(stack_model(stack@) =~= pre.drop_last().drop_last());
                }
                Ok(())
            } else if b == OP_CHECKSIG {
                if stack.len() > 0 {
                    let _ = stack.pop();
                }
                if stack.len() > 0 {
                    let _ = stack.pop();
                }
                stack.push(vec![1u8]);
                proof {
                    assert(stack_model(stack@) =~~= drop_top(pre, 2).push(true_elem()));
                }
                Ok(())
            } else if b == OP_CHECKMULTISIG {
                if l == 0 {
                    return Err(ScriptError::StackUnderflow);
                }
                let top = &stack[l - 1];
                if top.len() == 0 || top[0] < 0x50 {
                    return Err(ScriptError::StackUnderflow);
                }
                let n = (top[0] - 0x50) as usize;
                if l < n + 2 {
                    return Err(ScriptError::StackUnderflow);
                }
                let c2 = &stack[l - 2 - n];
                proof {
                    assert(pre.take(pre.len() - 1 - n).last() == pre[l - 2 - n as int]);
                }
                if c2.len() == 0 || c2[0] < 0x50 {
                    return Err(ScriptError::StackUnderflow);
                }
                let m = (c2[0] - 0x50) as usize;
                if l < n + m + 3 {
                    return Err(ScriptError::StackUnderflow);
                }
                stack.truncate(l - (n + m + 3));
                stack.push(vec![1u8]);
                proof {
                    let rest = pre.take(pre.len() - 1 - n);
                    assert(rest.take(rest.len() - 2 - m) =~= pre.take(pre.len() - (n + m + 3)));
                    assert(stack_model(stack@) =~~= rest.take(rest.len() - 2 - m).push(true_elem()));
                }
                Ok(())
            } else if b == OP_RETURN {
                Err(ScriptError::ScriptInvalid)
            } else {
                Ok(())
            }
        },
    }
}

/// Runs a whole instruction list from an empty stack, returning the final
/// stack or the error that aborted the run.
pub fn run_tokens(instrs: &[Token]) -> (r: Result<Stack, ScriptError>)
    ensures
        match r {
            Ok(s) => spec_run(tokens_model(instrs@)) == Ok::<Seq<Seq<u8>>, ScriptError>(stack_model(s@)),
            Err(e) => spec_run(tokens_model(instrs@)) == Err::<Seq<Seq<u8>>, ScriptError>(e),
        },
{
    let ghost all = tokens_model(instrs@);
    let mut stack: Vec<Vec<u8>> = Vec::new();
    proof {
        assert(all.skip(0) =~= all);
        assert(stack_model(stack@) =~= Seq::<Seq<u8>>::empty());
    }
    let mut i: usize = 0;
    while i < instrs.len()
        invariant
            i <= instrs@.len(),
            all == tokens_model(instrs@),
            spec_exec(all.skip(i as int), stack_model(stack@)) == spec_run(all),
        decreases instrs@.len() - i,
    {
        let t = &instrs[i];
        let ghost pre = stack_model(stack@);
        let res = exec_step(t, &mut stack);
        proof {
            assert(all.skip(i as int)[0] == t@);
            assert(all.skip(i as int).drop_first() =~= all.skip(i as int + 1));
        }
        match res {
            Ok(_) => {
                i = i + 1;
            },
            Err(e) => {
                return Err(e);
            },
        }
    }
    proof {
        assert(all.skip(instrs@.len() as int) =~= Seq::<TokenModel>::empty());
    }
    Ok(stack)
}

} // verus!
