//! Scripts: parsing from either textual form, classification, execution
//! and the final validity check.
//!
//! A script is constructed once from text — contiguous hex, or
//! whitespace-separated mnemonic words — and holds its canonical lowercase
//! hex encoding (as ASCII bytes), its decoded token sequence, and its
//! template tag. It is never mutated afterwards.

use vstd::prelude::*;
use vstd::string::StringSliceAdditionalSpecFns;
use crate::classify::{spec_classify, ScriptType};
use crate::codec::{decode_bytes, encode_token_into, spec_decode, spec_encode, spec_encode_token,
    token_encodable, tokens_encodable};
use crate::errors::ScriptError;
use crate::hexstr::{hex_decode, hex_encode, lemma_encode_lower_hex, lemma_hex_canonical,
    lemma_hex_decode_lower, lemma_to_lower_hex, lower_hex,
    spec_hex_decode, spec_hex_encode, spec_to_lower, to_lower, valid_hex};
use crate::machine::{run_tokens, spec_run, spec_validity, stack_model, Stack};
use crate::opcodes::{OpcodeRegistry, OP_CHECKSIG, OP_DUP, OP_EQUAL,
    OP_EQUALVERIFY, OP_HASH160, OP_RETURN, OP_CHECKMULTISIG};
use crate::text::{has_op_marker, has_space, is_space, parse_word, spec_has_op_marker,
    spec_has_space, spec_parse_word, spec_trim, spec_words, split_words, trim, trim_back,
    trim_front, words_model};
use crate::token::{token_wf, tokens_model, tokens_wf, Token, TokenModel};

verus! {

/// An immutable script: canonical lowercase hex (ASCII bytes), decoded
/// token sequence, and template tag.
#[derive(Debug)]
pub struct Script {
    pub hex: Vec<u8>,
    pub tokens: Vec<Token>,
    pub script_type: ScriptType,
}

/// The mathematical model of a [`Script`].
pub struct ScriptModel {
    pub hex: Seq<u8>,
    pub tokens: Seq<TokenModel>,
    pub script_type: ScriptType,
}

impl View for Script {
    type V = ScriptModel;

    open spec fn view(&self) -> ScriptModel {
        ScriptModel { hex: self.hex@, tokens: tokens_model(self.tokens@), script_type: self.script_type }
    }
}

impl ScriptModel {
    /// Every constructed script satisfies this: its opcode tokens carry
    /// recognized bytes, its tag is its token sequence's class, and its
    /// stored hex is canonical lowercase hex text.
    pub open spec fn wf(self) -> bool {
        &&& tokens_wf(self.tokens)
        &&& self.script_type == spec_classify(self.tokens)
        &&& lower_hex(self.hex)
    }
}

/// The script that a raw byte encoding decodes to, with the given stored
/// hex text.
pub open spec fn spec_script_of_bytes(bytes: Seq<u8>, hex_text: Seq<u8>) -> ScriptModel {
    ScriptModel {
        hex: hex_text,
        tokens: spec_decode(bytes),
        script_type: spec_classify(spec_decode(bytes)),
    }
}

/// Parsing hex text: the text must be valid hex; the canonical hex is the
/// text itself, lowercased.
pub open spec fn spec_from_hex(text: Seq<u8>) -> Result<ScriptModel, ScriptError> {
    if valid_hex(text) {
        Ok(spec_script_of_bytes(spec_hex_decode(text), spec_to_lower(text)))
    } else {
        Err(ScriptError::FormatError)
    }
}

/// Parsing one word as [`spec_parse_word`], with the encoding size check
/// applied in the same left-to-right pass.
pub open spec fn spec_parse_word_enc(w: Seq<u8>) -> Result<TokenModel, ScriptError> {
    match spec_parse_word(w) {
        Ok(t) => if token_encodable(t) {
            Ok(t)
        } else {
            Err(ScriptError::DataTooLarge)
        },
        Err(e) => Err(e),
    }
}

/// Parsing a word list left to right; the first failing word decides the
/// error.
pub open spec fn spec_parse_tokens(ws: Seq<Seq<u8>>) -> Result<Seq<TokenModel>, ScriptError>
    decreases ws.len(),
{
    if ws.len() == 0 {
        Ok(Seq::empty())
    } else {
        match spec_parse_word_enc(ws[0]) {
            Err(e) => Err(e),
            Ok(t) => match spec_parse_tokens(ws.drop_first()) {
                Ok(ts) => Ok(seq![t] + ts),
                Err(e) => Err(e),
            },
        }
    }
}

/// Parsing mnemonic text: split into words, parse each, and store the hex
/// of the resulting encoding as canonical hex.
pub open spec fn spec_from_mnemonic(text: Seq<u8>) -> Result<ScriptModel, ScriptError> {
    match spec_parse_tokens(spec_words(text)) {
        Ok(ts) => Ok(
            ScriptModel {
                hex: spec_hex_encode(spec_encode(ts)),
                tokens: ts,
                script_type: spec_classify(ts),
            },
        ),
        Err(e) => Err(e),
    }
}

/// Parsing either textual form: the trimmed input is mnemonic text when it
/// contains a space or the marker "OP_", and hex text otherwise.
pub open spec fn spec_new(s: Seq<u8>) -> Result<ScriptModel, ScriptError> {
    let t = spec_trim(s);
    if spec_has_space(t) || spec_has_op_marker(t) {
        spec_from_mnemonic(t)
    } else {
        spec_from_hex(t)
    }
}

/// Every token a word parses to is well formed.
proof fn lemma_parse_word_wf(w: Seq<u8>)
    ensures
        spec_parse_word(w) matches Ok(t) ==> token_wf(t),
{
}

/// Every token a byte encoding decodes to is well formed.
pub proof fn lemma_decode_wf(bytes: Seq<u8>)
    ensures
        tokens_wf(spec_decode(bytes)),
    decreases bytes.len(),
{
    if bytes.len() > 0 {
        let op = bytes[0];
        if 1 <= op && op <= 75 {
            if 1 + op <= bytes.len() {
                lemma_decode_wf(bytes.skip(1 + op));
            }
        } else {
            lemma_decode_wf(bytes.drop_first());
        }
    }
}

impl Script {
    /// Builds a script from its raw byte encoding; never fails. The stored
    /// hex is the encoding's own hex text.
    pub fn from_bytes(bytes: &[u8]) -> (r: Script)
        ensures
            r@ == spec_script_of_bytes(bytes@, spec_hex_encode(bytes@)),
            r@.wf(),
    {
        let hex = hex_encode(bytes);
        let tokens = decode_bytes(bytes);
        let script_type = Script::detect_type(tokens.as_slice());
        proof {
            lemma_decode_wf(bytes@);
            lemma_encode_lower_hex(bytes@);
        }
        Script { hex, tokens, script_type }
    }

    /// Parses hex text, which fails exactly on text that is not an even
    /// number of hex digits.
    pub fn from_hex(text: &[u8]) -> (r: Result<Script, ScriptError>)
        ensures
            match r {
                Ok(s) => spec_from_hex(text@) == Ok::<ScriptModel, ScriptError>(s@) && s@.wf()
                    && s@.hex == spec_hex_encode(spec_hex_decode(text@)),
                Err(e) => spec_from_hex(text@) == Err::<ScriptModel, ScriptError>(e),
            },
    {
        match hex_decode(text) {
            Some(bytes) => {
                let hex = to_lower(text);
                let tokens = decode_bytes(bytes.as_slice());
                let script_type = Script::detect_type(tokens.as_slice());
                proof {
                    lemma_decode_wf(bytes@);
                    // The stored hex really is canonical: it equals the hex
                    // encoding of the bytes the text stands for.
                    lemma_hex_canonical(text@);
                    lemma_to_lower_hex(text@);
                }
                Ok(Script { hex, tokens, script_type })
            },
            None => Err(ScriptError::FormatError),
        }
    }

    /// Parses mnemonic text: each word becomes one token, and the words'
    /// encoding becomes the canonical hex. The first unparsable or
    /// oversized word decides the error.
    pub fn from_mnemonic(text: &[u8], reg: &OpcodeRegistry) -> (r: Result<Script, ScriptError>)
        requires
            reg.wf(),
        ensures
            match r {
                Ok(s) => spec_from_mnemonic(text@) == Ok::<ScriptModel, ScriptError>(s@) && s@.wf(),
                Err(e) => spec_from_mnemonic(text@) == Err::<ScriptModel, ScriptError>(e),
            },
    {
        let words = split_words(text);
        let ghost all = words_model(words@);
        let mut tokens: Vec<Token> = Vec::new();
        let mut bytes: Vec<u8> = Vec::new();
        let mut k: usize = 0;
        proof {
            assert(all.skip(0) =~= all);
            assert(tokens_model(tokens@) =~= Seq::<TokenModel>::empty());
            assert(spec_encode(tokens_model(tokens@)) =~= Seq::<u8>::empty());
        }
        while k < words.len()
            invariant
                k <= words@.len(),
                reg.wf(),
                all == words_model(words@),
                all == spec_words(text@),
                tokens_wf(tokens_model(tokens@)),
                tokens_encodable(tokens_model(tokens@)),
                bytes@ == spec_encode(tokens_model(tokens@)),
                spec_parse_tokens(all) == match spec_parse_tokens(all.skip(k as int)) {
                    Ok(rest) => Ok::<Seq<TokenModel>, ScriptError>(tokens_model(tokens@) + rest),
                    Err(e) => Err::<Seq<TokenModel>, ScriptError>(e),
                },
            decreases words@.len() - k,
        {
            let ghost prefix = tokens_model(tokens@);
            proof {
                assert(all.skip(k as int)[0] == words@[k as int]@);
                assert(all.skip(k as int).drop_first() =~= all.skip(k as int + 1));
            }
            let tok = match parse_word(&words[k], reg) {
                Ok(t) => t,
                Err(e) => {
                    proof {
                        assert(spec_parse_word_enc(all.skip(k as int)[0]) == Err::<
                            TokenModel,
                            ScriptError,
                        >(e));
                        assert(spec_parse_tokens(all.skip(k as int)) == Err::<
                            Seq<TokenModel>,
                            ScriptError,
                        >(e));
                    }
                    return Err(e);
                },
            };
            proof {
                lemma_parse_word_wf(words@[k as int]@);
            }
            match encode_token_into(&tok, &mut bytes) {
                Ok(_) => {},
                Err(e) => {
                    proof {
                        assert(spec_parse_word_enc(all.skip(k as int)[0]) == Err::<
                            TokenModel,
                            ScriptError,
                        >(e));
                        assert(spec_parse_tokens(all.skip(k as int)) == Err::<
                            Seq<TokenModel>,
                            ScriptError,
                        >(e));
                    }
                    return Err(e);
                },
            }
            let ghost t = tok@;
            tokens.push(tok);
            k = k + 1;
            proof {
                assert(tokens_model(tokens@) =~= prefix.push(t));
                assert(prefix.push(t) =~= prefix + seq![t]);
                lemma_encode_push(prefix, t);
                assert forall|j: int| 0 <= j < tokens_model(tokens@).len() implies token_wf(
                    #[trigger] tokens_model(tokens@)[j],
                ) by {}
                assert(spec_parse_tokens(all) == match spec_parse_tokens(all.skip(k as int)) {
                    Ok(rest) => Ok::<Seq<TokenModel>, ScriptError>(tokens_model(tokens@) + rest),
                    Err(e) => Err::<Seq<TokenModel>, ScriptError>(e),
                }) by {
                    if spec_parse_tokens(all.skip(k as int)) is Ok {
                        let rest = spec_parse_tokens(all.skip(k as int))->Ok_0;
                        assert((prefix + seq![t]) + rest =~= prefix + (seq![t] + rest));
                    }
                }
            }
        }
        proof {
            assert(all.skip(words@.len() as int) =~= Seq::<Seq<u8>>::empty());
            assert(tokens_model(tokens@) + Seq::<TokenModel>::empty() =~= tokens_model(tokens@));
        }
        let hex = hex_encode(bytes.as_slice());
        let script_type = Script::detect_type(tokens.as_slice());
        proof {
            lemma_encode_lower_hex(bytes@);
        }
        Ok(Script { hex, tokens, script_type })
    }

    /// Parses either textual form, deciding by the trimmed input's shape:
    /// mnemonic text when it contains a space or "OP_", hex text otherwise.
    pub fn new(input: &str, reg: &OpcodeRegistry) -> (r: Result<Script, ScriptError>)
        requires
            reg.wf(),
        ensures
            match r {
                Ok(s) => spec_new(input.spec_bytes()) == Ok::<ScriptModel, ScriptError>(s@)
                    && s@.wf(),
                Err(e) => spec_new(input.spec_bytes()) == Err::<ScriptModel, ScriptError>(e),
            },
    {
        let bytes = input.as_bytes();
        let trimmed = trim(bytes);
        if has_space(trimmed.as_slice()) || has_op_marker(trimmed.as_slice()) {
            Script::from_mnemonic(trimmed.as_slice(), reg)
        } else {
            Script::from_hex(trimmed.as_slice())
        }
    }

    /// Assigns a token sequence its template tag.
    pub fn detect_type(tokens: &[Token]) -> (t: ScriptType)
        ensures
            t == spec_classify(tokens_model(tokens@)),
    {
        let n = tokens.len();
        if n == 2 && is_op(&tokens[1], OP_CHECKSIG) {
            ScriptType::P2PK
        } else if n == 5 && is_op(&tokens[0], OP_DUP) && is_op(&tokens[1], OP_HASH160) && is_op(
            &tokens[3],
            OP_EQUALVERIFY,
        ) && is_op(&tokens[4], OP_CHECKSIG) {
            ScriptType::P2PKH
        } else if n == 3 && is_op(&tokens[0], OP_HASH160) && is_op(&tokens[2], OP_EQUAL) {
            ScriptType::P2SH
        } else if n >= 1 && is_op(&tokens[n - 1], OP_CHECKMULTISIG) {
            ScriptType::P2MS
        } else if n >= 1 && is_op(&tokens[0], OP_RETURN) {
            ScriptType::Return
        } else {
            ScriptType::Unknown
        }
    }

    /// Runs the given scripts' token sequences, concatenated in order,
    /// from an empty stack.
    pub fn run(scripts: &[Script]) -> (r: Result<Stack, ScriptError>)
        ensures
            match r {
                Ok(st) => spec_run(spec_concat_tokens(scripts_model(scripts@))) == Ok::<
                    Seq<Seq<u8>>,
                    ScriptError,
                >(stack_model(st@)),
                Err(e) => spec_run(spec_concat_tokens(scripts_model(scripts@))) == Err::<
                    Seq<Seq<u8>>,
                    ScriptError,
                >(e),
            },
    {
        let ghost models = scripts_model(scripts@);
        let mut instrs: Vec<Token> = Vec::new();
        let mut i: usize = 0;
        proof {
            assert(models.skip(0) =~= models);
            assert(tokens_model(instrs@) =~= Seq::<TokenModel>::empty());
        }
        while i < scripts.len()
            invariant
                i <= scripts@.len(),
                models == scripts_model(scripts@),
                spec_concat_tokens(models) == tokens_model(instrs@) + spec_concat_tokens(
                    models.skip(i as int),
                ),
            decreases scripts@.len() - i,
        {
            let ghost outer_prefix = tokens_model(instrs@);
            let tokens_len = scripts[i].tokens.len();
            let ghost cur = models[i as int].tokens;
            let mut j: usize = 0;
            while j < tokens_len
                invariant
                    j <= cur.len(),
                    tokens_len == cur.len(),
                    i < scripts@.len(),
                    cur == scripts_model(scripts@)[i as int].tokens,
                    tokens_model(instrs@) == outer_prefix + cur.take(j as int),
                decreases tokens_len - j,
            {
                let t = scripts[i].tokens[j].clone();
                instrs.push(t);
                j = j + 1;
                proof {
                    assert(cur.take(j as int) =~= cur.take(j - 1).push(cur[j - 1]));
                    assert(tokens_model(instrs@) =~= (outer_prefix + cur.take(j - 1)).push(
                        cur[j - 1],
                    ));
                    assert((outer_prefix + cur.take(j - 1)).push(cur[j - 1]) =~= outer_prefix
                        + cur.take(j as int));
                }
            }
            i = i + 1;
            proof {
                assert(cur.take(cur.len() as int) =~= cur);
                assert(models.skip(i - 1)[0] == models[i - 1]);
                assert(models.skip(i - 1).drop_first() =~= models.skip(i as int));
                assert((outer_prefix + cur) + spec_concat_tokens(models.skip(i as int)) =~=
                outer_prefix + (cur + spec_concat_tokens(models.skip(i as int))));
            }
        }
        proof {
            assert(models.skip(scripts@.len() as int) =~= Seq::<ScriptModel>::empty());
            assert(tokens_model(instrs@) + Seq::<TokenModel>::empty() =~= tokens_model(instrs@));
        }
        run_tokens(instrs.as_slice())
    }

    /// The sole acceptance rule: the final stack is non-empty and its top
    /// element is a non-empty byte vector.
    pub fn validate(stack: &Stack) -> (r: bool)
        ensures
            r == spec_validity(stack_model(stack@)),
    {
        stack.len() > 0 && stack[stack.len() - 1].len() > 0
    }
}

/// How a locking/unlocking pair is executed: normally the unlocking
/// script's tokens followed by the locking script's; for a pay-to-script-
/// hash locking script, the unlocking script's tokens followed by the
/// redeem script, obtained by decoding the unlocking script's last
/// push-data token as a nested script's byte encoding. A missing or
/// non-push last token fails as unparsable.
pub open spec fn spec_run_pair(u: ScriptModel, l: ScriptModel) -> Result<
    Seq<Seq<u8>>,
    ScriptError,
> {
    if l.script_type == ScriptType::P2SH {
        if u.tokens.len() == 0 {
            Err(ScriptError::FormatError)
        } else {
            match u.tokens.last() {
                TokenModel::Op(_) => Err(ScriptError::FormatError),
                TokenModel::Data(d) => spec_run(u.tokens + spec_decode(d)),
            }
        }
    } else {
        spec_run(u.tokens + l.tokens)
    }
}

/// Clones a token list, preserving its model.
fn clone_tokens(v: &Vec<Token>) -> (r: Vec<Token>)
    ensures
        tokens_model(r@) == tokens_model(v@),
{
    let mut r: Vec<Token> = Vec::new();
    let mut i: usize = 0;
    proof {
        assert(tokens_model(r@) =~= tokens_model(v@).take(0));
    }
    while i < v.len()
        invariant
            i <= v@.len(),
            tokens_model(r@) == tokens_model(v@).take(i as int),
        decreases v@.len() - i,
    {
        let t = v[i].clone();
        r.push(t);
        i = i + 1;
        proof {
            assert(tokens_model(v@).take(i as int) =~= tokens_model(v@).take(i - 1).push(
                tokens_model(v@)[i - 1],
            ));
            assert(tokens_model(r@) =~= tokens_model(v@).take(i as int));
        }
    }
    proof {
        assert(tokens_model(v@).take(v@.len() as int) =~= tokens_model(v@));
    }
    r
}

/// Appends clones of `src`'s tokens to `dst`.
fn append_tokens(dst: &mut Vec<Token>, src: &Vec<Token>)
    ensures
        tokens_model(final (dst)@) == tokens_model(old(dst)@) + tokens_model(src@),
{
    let ghost base = tokens_model(old(dst)@);
    let mut i: usize = 0;
    proof {
        assert(tokens_model(dst@) =~= base + tokens_model(src@).take(0));
    }
    while i < src.len()
        invariant
            i <= src@.len(),
            tokens_model(dst@) == base + tokens_model(src@).take(i as int),
        decreases src@.len() - i,
    {
        let t = src[i].clone();
        let ghost pre = dst@;
        dst.push(t);
        i = i + 1;
        proof {
            assert(dst@ =~= pre.push(t));
            assert(t@ == tokens_model(src@)[i - 1]);
            assert(tokens_model(src@).take(i as int) =~= tokens_model(src@).take(i - 1).push(
                tokens_model(src@)[i - 1],
            ));
            assert(tokens_model(dst@) =~= tokens_model(pre).push(t@));
            assert(tokens_model(dst@) =~= base + tokens_model(src@).take(i as int));
        }
    }
    proof {
        assert(tokens_model(src@).take(src@.len() as int) =~= tokens_model(src@));
    }
}

impl Script {
    /// Executes an unlocking/locking script pair as [`spec_run_pair`]
    /// describes, returning the final stack or the error that aborted the
    /// run.
    pub fn run_pair(unlocking: &Script, locking: &Script) -> (r: Result<Stack, ScriptError>)
        ensures
            match r {
                Ok(st) => spec_run_pair(unlocking@, locking@) == Ok::<Seq<Seq<u8>>, ScriptError>(
                    stack_model(st@),
                ),
                Err(e) => spec_run_pair(unlocking@, locking@) == Err::<Seq<Seq<u8>>, ScriptError>(
                    e,
                ),
            },
    {
        let mut instrs: Vec<Token> = clone_tokens(&unlocking.tokens);
        if locking.script_type == ScriptType::P2SH {
            let n = unlocking.tokens.len();
            if n == 0 {
                return Err(ScriptError::FormatError);
            }
            let last = &unlocking.tokens[n - 1];
            proof {
                assert(last@ == unlocking@.tokens.last());
            }
            match last {
                Token::Op(_) => Err(ScriptError::FormatError),
                Token::Data(d) => {
                    let redeem = decode_bytes(d.as_slice());
                    append_tokens(&mut instrs, &redeem);
                    run_tokens(instrs.as_slice())
                },
            }
        } else {
            append_tokens(&mut instrs, &locking.tokens);
            run_tokens(instrs.as_slice())
        }
    }
}

/// Lowercasing commutes with dropping leading whitespace: no whitespace
/// byte is an uppercase letter.
proof fn lemma_trim_front_lower(s: Seq<u8>)
    ensures
        trim_front(spec_to_lower(s)) == spec_to_lower(trim_front(s)),
    decreases s.len(),
{
    if s.len() == 0 {
    } else {
        assert(spec_to_lower(s)[0] == (if 0x41 <= s[0] && s[0] <= 0x5a {
            (s[0] + 0x20) as u8
        } else {
            s[0]
        }));
        if is_space(s[0]) {
            lemma_trim_front_lower(s.drop_first());
            assert(spec_to_lower(s).drop_first() =~= spec_to_lower(s.drop_first()));
        } else {
            assert(!is_space(spec_to_lower(s)[0]));
        }
    }
}

/// Lowercasing commutes with dropping trailing whitespace.
proof fn lemma_trim_back_lower(s: Seq<u8>)
    ensures
        trim_back(spec_to_lower(s)) == spec_to_lower(trim_back(s)),
    decreases s.len(),
{
    if s.len() == 0 {
    } else {
        assert(spec_to_lower(s).last() == (if 0x41 <= s.last() && s.last() <= 0x5a {
            (s.last() + 0x20) as u8
        } else {
            s.last()
        }));
        if is_space(s.last()) {
            lemma_trim_back_lower(s.drop_last());
            assert(spec_to_lower(s).drop_last() =~= spec_to_lower(s.drop_last()));
        } else {
            assert(!is_space(spec_to_lower(s).last()));
        }
    }
}

/// Lowercasing commutes with trimming.
proof fn lemma_trim_lower(s: Seq<u8>)
    ensures
        spec_trim(spec_to_lower(s)) == spec_to_lower(spec_trim(s)),
{
    lemma_trim_front_lower(s);
    lemma_trim_back_lower(trim_front(s));
}

/// Hex parsing is case-insensitive: parsing two texts that are hex of the
/// same bytes — equal up to letter case — succeeds on both and yields
/// scripts with identical token sequences, identical canonical hex, and
/// identical tags.
pub proof fn lemma_parse_hex_case_insensitive(s1: Seq<u8>, s2: Seq<u8>)
    requires
        valid_hex(spec_trim(s1)),
        valid_hex(spec_trim(s2)),
        spec_to_lower(s1) == spec_to_lower(s2),
    ensures
        spec_new(s1) is Ok,
        spec_new(s1) == spec_new(s2),
{
    let t1 = spec_trim(s1);
    let t2 = spec_trim(s2);
    assert(!spec_has_space(t1) && !spec_has_op_marker(t1)) by {
        assert(forall|i: int| 0 <= i < t1.len() ==> crate::hexstr::is_hex_digit(#[trigger] t1[i]));
    }
    assert(!spec_has_space(t2) && !spec_has_op_marker(t2)) by {
        assert(forall|i: int| 0 <= i < t2.len() ==> crate::hexstr::is_hex_digit(#[trigger] t2[i]));
    }
    lemma_trim_lower(s1);
    lemma_trim_lower(s2);
    assert(spec_to_lower(t1) == spec_to_lower(t2));
    lemma_hex_decode_lower(t1);
    lemma_hex_decode_lower(t2);
    assert(spec_hex_decode(t1) == spec_hex_decode(t2));
}

/// Tells whether a token is the given opcode.
fn is_op(t: &Token, b: u8) -> (r: bool)
    ensures
        r == (t@ == TokenModel::Op(b)),
{
    match t {
        Token::Op(x) => *x == b,
        Token::Data(_) => false,
    }
}

/// The models of a script list.
pub open spec fn scripts_model(ss: Seq<Script>) -> Seq<ScriptModel> {
    ss.map_values(|s: Script| s@)
}

/// The concatenation of a script list's token sequences, in order.
pub open spec fn spec_concat_tokens(ss: Seq<ScriptModel>) -> Seq<TokenModel>
    decreases ss.len(),
{
    if ss.len() == 0 {
        Seq::empty()
    } else {
        ss[0].tokens + spec_concat_tokens(ss.drop_first())
    }
}

/// Encoding one more token appends that token's encoding.
proof fn lemma_encode_push(ts: Seq<TokenModel>, t: TokenModel)
    ensures
        spec_encode(ts + seq![t]) == spec_encode(ts) + spec_encode_token(t),
    decreases ts.len(),
{
    if ts.len() == 0 {
        assert((ts + seq![t])[0] == t);
        assert((ts + seq![t]).drop_first() =~= Seq::<TokenModel>::empty());
        assert(spec_encode(Seq::<TokenModel>::empty()) == Seq::<u8>::empty());
        assert(ts =~= Seq::<TokenModel>::empty());
        assert(spec_encode(ts + seq![t]) =~= spec_encode(ts) + spec_encode_token(t));
    } else {
        lemma_encode_push(ts.drop_first(), t);
        assert((ts + seq![t])[0] == ts[0]);
        assert((ts + seq![t]).drop_first() =~= ts.drop_first() + seq![t]);
        assert(spec_encode(ts + seq![t]) =~= spec_encode(ts) + spec_encode_token(t));
    }
}

} // verus!
