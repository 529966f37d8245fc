use script_interpreter::classify::ScriptType;
use script_interpreter::codec::{decode_bytes, encode_tokens};
use script_interpreter::errors::ScriptError;
use script_interpreter::opcodes::init_opcodes;
use script_interpreter::script::Script;
use script_interpreter::token::Token;

#[test]
fn round_trip_mnemonic_sequence() {
    let reg = init_opcodes();
    let s = Script::new(
        "OP_DUP OP_HASH160 00aa11bb22cc33dd44ee55ff66778899aabbccdd OP_EQUALVERIFY OP_CHECKSIG",
        &reg,
    )
    .unwrap();
    let bytes = encode_tokens(&s.tokens).unwrap();
    let decoded = decode_bytes(&bytes);
    assert_eq!(decoded, s.tokens);
}

#[test]
fn round_trip_numeric_and_data() {
    let reg = init_opcodes();
    let s = Script::new("OP_16 aabb OP_FALSE 01", &reg).unwrap();
    let bytes = encode_tokens(&s.tokens).unwrap();
    let decoded = decode_bytes(&bytes);
    assert_eq!(decoded, s.tokens);
}

#[test]
fn hex_case_insensitive_parse() {
    let reg = init_opcodes();
    let upper = Script::new("76A914AABBCCDD88AC", &reg).unwrap();
    let lower = Script::new("76a914aabbccdd88ac", &reg).unwrap();
    assert_eq!(upper.tokens, lower.tokens);
    assert_eq!(upper.hex, lower.hex);
    assert_eq!(upper.hex, b"76a914aabbccdd88ac".to_vec());
    assert_eq!(upper.script_type, lower.script_type);
}

#[test]
fn decode_push_data() {
    let reg = init_opcodes();
    let s = Script::new("02abcd", &reg).unwrap();
    assert_eq!(s.tokens, vec![Token::Data(vec![0xab, 0xcd])]);
    assert_eq!(s.script_type, ScriptType::Unknown);
}

#[test]
fn decode_unknown_byte_as_one_byte_push() {
    let reg = init_opcodes();
    let s = Script::new("4c", &reg).unwrap();
    assert_eq!(s.tokens, vec![Token::Data(vec![0x4c])]);
}

#[test]
fn decode_truncated_prefix_stops_early() {
    let reg = init_opcodes();
    let s = Script::new("7605aabb", &reg).unwrap();
    assert_eq!(s.tokens, vec![Token::Op(0x76)]);
    assert_eq!(s.hex, b"7605aabb".to_vec());
}

#[test]
fn parse_aliases_and_numeric_names() {
    let reg = init_opcodes();
    let s = Script::new("OP_FALSE OP_TRUE OP_0 OP_3", &reg).unwrap();
    assert_eq!(
        s.tokens,
        vec![
            Token::Op(0x00),
            Token::Op(0x51),
            Token::Op(0x00),
            Token::Op(0x53)
        ]
    );
    assert_eq!(s.hex, b"00510053".to_vec());
}

#[test]
fn parse_rejects_large_numeric_constant() {
    let reg = init_opcodes();
    assert_eq!(
        Script::new("OP_17", &reg).unwrap_err(),
        ScriptError::InvalidOpcode
    );
    assert_eq!(
        Script::new("OP_99 aabb", &reg).unwrap_err(),
        ScriptError::InvalidOpcode
    );
}

#[test]
fn parse_rejects_bad_hex() {
    let reg = init_opcodes();
    assert_eq!(Script::new("zz", &reg).unwrap_err(), ScriptError::FormatError);
    assert_eq!(Script::new("abc", &reg).unwrap_err(), ScriptError::FormatError);
    assert_eq!(
        Script::new("aabb zz11 OP_DUP", &reg).unwrap_err(),
        ScriptError::FormatError
    );
}

#[test]
fn parse_rejects_oversized_push() {
    let reg = init_opcodes();
    let big = "aa".repeat(300);
    let text = format!("{} OP_CHECKSIG", big);
    assert_eq!(
        Script::new(&text, &reg).unwrap_err(),
        ScriptError::DataTooLarge
    );
}

#[test]
fn encode_uses_two_byte_prefix_for_long_push() {
    let reg = init_opcodes();
    let big = "ab".repeat(100);
    let s = Script::new(&format!("{} OP_CHECKSIG", big), &reg).unwrap();
    assert_eq!(s.hex[0..4].to_vec(), b"4c64".to_vec());
    let bytes = encode_tokens(&s.tokens).unwrap();
    assert_eq!(bytes[0], 0x4c);
    assert_eq!(bytes[1], 100);
}

#[test]
fn registry_lookups() {
    let reg = init_opcodes();
    assert_eq!(reg.name_of(0x76), Some(&b"OP_DUP".to_vec()));
    assert_eq!(reg.name_of(0xae), Some(&b"OP_CHECKMULTISIG".to_vec()));
    assert_eq!(reg.name_of(0x51), Some(&b"OP_1".to_vec()));
    assert_eq!(reg.name_of(0x50), None);
    assert_eq!(reg.byte_of(&b"OP_FALSE".to_vec()), Some(0x00));
    assert_eq!(reg.byte_of(&b"OP_TRUE".to_vec()), Some(0x51));
    assert_eq!(reg.byte_of(&b"OP_HASH160".to_vec()), Some(0xa9));
    assert_eq!(reg.byte_of(&b"OP_NOP".to_vec()), None);
}

#[test]
fn from_bytes_hex_is_lowercase_encoding() {
    let s = Script::from_bytes(&[0xab, 0x00]);
    assert_eq!(s.hex, b"ab00".to_vec());
    assert_eq!(s.tokens, vec![Token::Data(vec![0xab]), Token::Op(0x00)]);
}

#[test]
fn classify_all_six_tags() {
    let reg = init_opcodes();
    let classify = |t: &str| Script::new(t, &reg).unwrap().script_type;
    assert_eq!(classify("aabb OP_CHECKSIG"), ScriptType::P2PK);
    assert_eq!(
        classify("OP_DUP OP_HASH160 aabbccdd OP_EQUALVERIFY OP_CHECKSIG"),
        ScriptType::P2PKH
    );
    assert_eq!(classify("OP_HASH160 aabbccdd OP_EQUAL"), ScriptType::P2SH);
    assert_eq!(classify("aa bb cc OP_CHECKMULTISIG"), ScriptType::P2MS);
    assert_eq!(classify("OP_RETURN aabb"), ScriptType::Return);
    assert_eq!(classify("aabb ccdd eeff"), ScriptType::Unknown);
}

#[test]
fn classify_priority_and_fixed_positions() {
    let reg = init_opcodes();
    let classify = |t: &str| Script::new(t, &reg).unwrap().script_type;
    // Two tokens ending in the multisig stub: the pay-to-public-key rule
    // does not match, the multisig rule does.
    assert_eq!(classify("aa OP_CHECKMULTISIG"), ScriptType::P2MS);
    // Right length but wrong fixed mnemonics is not a template.
    assert_eq!(
        classify("OP_DUP OP_DUP aabb OP_EQUALVERIFY OP_CHECKSIG"),
        ScriptType::Unknown
    );
    assert_eq!(classify("OP_HASH160 aabb OP_EQUALVERIFY"), ScriptType::Unknown);
}

#[test]
fn classify_deterministic() {
    let reg = init_opcodes();
    let a = Script::new("OP_RETURN 00", &reg).unwrap().script_type;
    let b = Script::new("OP_RETURN 00", &reg).unwrap().script_type;
    assert_eq!(a, b);
    assert_eq!(a, ScriptType::Return);
}

#[test]
fn empty_input_is_an_empty_script() {
    let reg = init_opcodes();
    let s = Script::new("", &reg).unwrap();
    assert_eq!(s.tokens, Vec::<Token>::new());
    assert_eq!(s.hex, Vec::<u8>::new());
    assert_eq!(s.script_type, ScriptType::Unknown);
    let t = Script::new("   \n", &reg).unwrap();
    assert_eq!(t.tokens, Vec::<Token>::new());
}

#[test]
fn push_size_boundary() {
    let reg = init_opcodes();
    let just_fits = format!("{} OP_CHECKSIG", "ab".repeat(255));
    let s = Script::new(&just_fits, &reg).unwrap();
    assert_eq!(s.tokens.len(), 2);
    let too_big = format!("{} OP_CHECKSIG", "ab".repeat(256));
    assert_eq!(
        Script::new(&too_big, &reg).unwrap_err(),
        ScriptError::DataTooLarge
    );
}

#[test]
fn seventy_five_byte_push_uses_single_prefix() {
    let reg = init_opcodes();
    let s = Script::new(&format!("OP_DUP {}", "cd".repeat(75)), &reg).unwrap();
    assert_eq!(s.tokens, vec![Token::Op(0x76), Token::Data(vec![0xcd; 75])]);
    let bytes = encode_tokens(&s.tokens).unwrap();
    assert_eq!(bytes[0], 0x76);
    assert_eq!(bytes[1], 75);
    assert_eq!(decode_bytes(&bytes), s.tokens);
}

#[test]
fn surrounding_whitespace_is_trimmed() {
    let reg = init_opcodes();
    let s = Script::new("  76a914aabbccdd88ac\n", &reg).unwrap();
    assert_eq!(s.hex, b"76a914aabbccdd88ac".to_vec());
    let t = Script::new("\tOP_RETURN 00\n", &reg).unwrap();
    assert_eq!(t.script_type, ScriptType::Return);
}
