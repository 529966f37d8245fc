use script_interpreter::classify::ScriptType;
use script_interpreter::digest::hash160;
use script_interpreter::errors::ScriptError;
use script_interpreter::machine::{exec_step, run_tokens};
use script_interpreter::opcodes::init_opcodes;
use script_interpreter::script::Script;
use script_interpreter::token::Token;

#[test]
fn executor_deterministic() {
    let reg = init_opcodes();
    let s = Script::new("aa bb OP_EQUAL", &reg).unwrap();
    let r1 = run_tokens(&s.tokens);
    let r2 = run_tokens(&s.tokens);
    assert_eq!(r1, r2);
}

#[test]
fn pay_to_public_key_hash_succeeds_on_matching_hash() {
    let reg = init_opcodes();
    let pubkey = vec![0x02u8, 0x99, 0x88, 0x77, 0x66, 0x55];
    let hash = hash160(&pubkey);
    let locking_text = format!(
        "OP_DUP OP_HASH160 {} OP_EQUALVERIFY OP_CHECKSIG",
        hex::encode(&hash)
    );
    let locking = Script::new(&locking_text, &reg).unwrap();
    assert_eq!(locking.script_type, ScriptType::P2PKH);
    let unlocking_text = format!("304502aa {}", hex::encode(&pubkey));
    let unlocking = Script::new(&unlocking_text, &reg).unwrap();
    let stack = Script::run_pair(&unlocking, &locking).unwrap();
    assert_eq!(stack, vec![vec![1u8]]);
    assert!(Script::validate(&stack));
}

#[test]
fn pay_to_public_key_hash_fails_on_wrong_hash() {
    let reg = init_opcodes();
    let pubkey = vec![0x02u8, 0x99, 0x88, 0x77, 0x66, 0x55];
    let wrong = vec![0u8; 20];
    assert_ne!(hash160(&pubkey), wrong);
    let locking_text = format!(
        "OP_DUP OP_HASH160 {} OP_EQUALVERIFY OP_CHECKSIG",
        hex::encode(&wrong)
    );
    let locking = Script::new(&locking_text, &reg).unwrap();
    let unlocking = Script::new(&format!("304502aa {}", hex::encode(&pubkey)), &reg).unwrap();
    assert_eq!(
        Script::run_pair(&unlocking, &locking).unwrap_err(),
        ScriptError::ScriptFailure
    );
}

#[test]
fn return_marker_is_fatal() {
    let reg = init_opcodes();
    let locking = Script::new("OP_RETURN aabbcc", &reg).unwrap();
    assert_eq!(locking.script_type, ScriptType::Return);
    let unlocking = Script::new("1122", &reg).unwrap();
    assert_eq!(
        Script::run_pair(&unlocking, &locking).unwrap_err(),
        ScriptError::ScriptInvalid
    );
}

#[test]
fn multisig_discards_one_extra_element() {
    let reg = init_opcodes();
    // extra, two signatures, required count 2, three keys, key count 3.
    let s = Script::new("aa 1111 2222 52 31 32 33 53 OP_CHECKMULTISIG", &reg).unwrap();
    let stack = run_tokens(&s.tokens).unwrap();
    assert_eq!(stack, vec![vec![1u8]]);
    assert!(Script::validate(&stack));
}

#[test]
fn multisig_underflows_without_extra_element() {
    let reg = init_opcodes();
    let s = Script::new("1111 2222 52 31 32 33 53 OP_CHECKMULTISIG", &reg).unwrap();
    assert_eq!(run_tokens(&s.tokens).unwrap_err(), ScriptError::StackUnderflow);
}

#[test]
fn checksig_stub_never_fails() {
    let reg = init_opcodes();
    let s = Script::new("OP_CHECKSIG", &reg).unwrap();
    assert_eq!(run_tokens(&s.tokens).unwrap(), vec![vec![1u8]]);
}

#[test]
fn equal_pushes_true_or_empty() {
    let reg = init_opcodes();
    let eq = Script::new("aa aa OP_EQUAL", &reg).unwrap();
    assert_eq!(run_tokens(&eq.tokens).unwrap(), vec![vec![1u8]]);
    let ne = Script::new("aa bb OP_EQUAL", &reg).unwrap();
    let stack = run_tokens(&ne.tokens).unwrap();
    assert_eq!(stack, vec![Vec::<u8>::new()]);
    assert!(!Script::validate(&stack));
}

#[test]
fn dup_and_hash_underflow_on_empty_stack() {
    let reg = init_opcodes();
    let dup = Script::new("OP_DUP", &reg).unwrap();
    assert_eq!(run_tokens(&dup.tokens).unwrap_err(), ScriptError::StackUnderflow);
    let h = Script::new("OP_HASH160", &reg).unwrap();
    assert_eq!(run_tokens(&h.tokens).unwrap_err(), ScriptError::StackUnderflow);
    let ev = Script::new("aa OP_EQUALVERIFY", &reg).unwrap();
    assert_eq!(run_tokens(&ev.tokens).unwrap_err(), ScriptError::StackUnderflow);
}

#[test]
fn numeric_constants_are_no_ops() {
    let reg = init_opcodes();
    let s = Script::new("OP_2 aa", &reg).unwrap();
    assert_eq!(run_tokens(&s.tokens).unwrap(), vec![vec![0xaau8]]);
}

#[test]
fn step_leaves_stack_unchanged_on_error() {
    let mut stack = vec![vec![0x11u8]];
    let r = exec_step(&Token::Op(0x88), &mut stack);
    assert_eq!(r.unwrap_err(), ScriptError::StackUnderflow);
    assert_eq!(stack, vec![vec![0x11u8]]);
}

#[test]
fn pay_to_script_hash_runs_redeem_script() {
    let reg = init_opcodes();
    // The redeem script is one byte: the checksig stub.
    let redeem_hex = "ac";
    let locking_text = format!(
        "OP_HASH160 {} OP_EQUAL",
        hex::encode(hash160(&[0xacu8]))
    );
    let locking = Script::new(&locking_text, &reg).unwrap();
    assert_eq!(locking.script_type, ScriptType::P2SH);
    let unlocking = Script::new(&format!("1122 3344 {}", redeem_hex), &reg).unwrap();
    let stack = Script::run_pair(&unlocking, &locking).unwrap();
    assert!(Script::validate(&stack));
    assert_eq!(stack.last().unwrap(), &vec![1u8]);
}

#[test]
fn pay_to_script_hash_without_push_fails() {
    let reg = init_opcodes();
    let locking = Script::new("OP_HASH160 aabb OP_EQUAL", &reg).unwrap();
    let unlocking = Script::new("OP_DUP", &reg).unwrap();
    assert_eq!(
        Script::run_pair(&unlocking, &locking).unwrap_err(),
        ScriptError::FormatError
    );
}

#[test]
fn validate_rules() {
    assert!(!Script::validate(&vec![]));
    assert!(!Script::validate(&vec![vec![]]));
    assert!(!Script::validate(&vec![vec![1u8], vec![]]));
    assert!(Script::validate(&vec![vec![], vec![7u8]]));
}

#[test]
fn hash160_known_vector() {
    let h = hash160(b"");
    assert_eq!(h.len(), 20);
    assert_eq!(hex::encode(&h), "b472a266d0bd89c13706a4132ccfb16f7c3b9fcb");
    let input = vec![0x61u8; 20];
    assert_ne!(hash160(&input), input);
}

#[test]
fn run_concatenates_in_order() {
    let reg = init_opcodes();
    let unlocking = Script::new("aa", &reg).unwrap();
    let locking = Script::new("OP_DUP OP_EQUAL", &reg).unwrap();
    let stack = Script::run(&[unlocking, locking]).unwrap();
    assert_eq!(stack, vec![vec![1u8]]);
}
