//! Script text: whitespace handling, word splitting, and parsing one word
//! into a token.
//!
//! A word is parsed by checking the reverse opcode mapping first; failing
//! that, a word of the form "OP_" followed by digits is a numeric constant
//! (only values 1 through 16 are encodable); failing that, the word must be
//! hex-encoded push data.

use vstd::prelude::*;
use crate::errors::ScriptError;
use crate::hexstr::{spec_hex_decode, valid_hex};
use crate::opcodes::{spec_opcode_byte, OpcodeRegistry};
use crate::token::{Token, TokenModel};

verus! {

/// An ASCII whitespace byte.
pub open spec fn is_space(b: u8) -> bool {
    b == 0x20 || b == 0x09 || b == 0x0a || b == 0x0b || b == 0x0c || b == 0x0d
}

/// The text with leading whitespace dropped.
pub open spec fn trim_front(s: Seq<u8>) -> Seq<u8>
    decreases s.len(),
{
    if s.len() > 0 && is_space(s[0]) {
        trim_front(s.drop_first())
    } else {
        s
    }
}

/// The text with trailing whitespace dropped.
pub open spec fn trim_back(s: Seq<u8>) -> Seq<u8>
    decreases s.len(),
{
    if s.len() > 0 && is_space(s.last()) {
        trim_back(s.drop_last())
    } else {
        s
    }
}

/// The text with surrounding whitespace dropped.
pub open spec fn spec_trim(s: Seq<u8>) -> Seq<u8> {
    trim_back(trim_front(s))
}

/// The text contains a space character.
pub open spec fn spec_has_space(s: Seq<u8>) -> bool {
    exists|i: int| 0 <= i < s.len() && s[i] == 0x20
}

/// The text contains the substring "OP_".
pub open spec fn spec_has_op_marker(s: Seq<u8>) -> bool {
    exists|i: int|
        0 <= i && i + 3 <= s.len() && #[trigger] s[i] == 0x4f && s[i + 1] == 0x50 && s[i + 2]
            == 0x5f
}

/// Splitting on whitespace runs, with the word being accumulated.
pub open spec fn spec_split_ws(s: Seq<u8>, cur: Seq<u8>) -> Seq<Seq<u8>>
    decreases s.len(),
{
    if s.len() == 0 {
        if cur.len() == 0 {
            Seq::empty()
        } else {
            seq![cur]
        }
    } else if is_space(s[0]) {
        if cur.len() == 0 {
            spec_split_ws(s.drop_first(), Seq::empty())
        } else {
            seq![cur] + spec_split_ws(s.drop_first(), Seq::empty())
        }
    } else {
        spec_split_ws(s.drop_first(), cur.push(s[0]))
    }
}

/// The whitespace-separated words of the text.
pub open spec fn spec_words(s: Seq<u8>) -> Seq<Seq<u8>> {
    spec_split_ws(s, Seq::empty())
}

/// The model of a word list.
pub open spec fn words_model(ws: Seq<Vec<u8>>) -> Seq<Seq<u8>> {
    ws.map_values(|w: Vec<u8>| w@)
}

/// An ASCII decimal digit.
pub open spec fn is_digit(b: u8) -> bool {
    0x30 <= b && b <= 0x39
}

/// All bytes are decimal digits.
pub open spec fn all_digits(s: Seq<u8>) -> bool {
    forall|i: int| 0 <= i < s.len() ==> is_digit(#[trigger] s[i])
}

/// The number a digit string stands for.
pub open spec fn digits_val(s: Seq<u8>) -> nat
    decreases s.len(),
{
    if s.len() == 0 {
        0
    } else {
        digits_val(s.drop_last()) * 10 + (s.last() - 0x30) as nat
    }
}

/// Parsing one word. The reverse mapping wins; then "OP_" with a digit
/// suffix is a numeric constant, allowed only for values 1 through 16;
/// anything else must be hex push data.
pub open spec fn spec_parse_word(w: Seq<u8>) -> Result<TokenModel, ScriptError> {
    if spec_opcode_byte(w) is Some {
        Ok(TokenModel::Op(spec_opcode_byte(w)->Some_0))
    } else if w.len() > 3 && w[0] == 0x4f && w[1] == 0x50 && w[2] == 0x5f && all_digits(
        w.skip(3),
    ) {
        if 1 <= digits_val(w.skip(3)) && digits_val(w.skip(3)) <= 16 {
            Ok(TokenModel::Op((0x50 + digits_val(w.skip(3))) as u8))
        } else {
            Err(ScriptError::InvalidOpcode)
        }
    } else if valid_hex(w) {
        Ok(TokenModel::Data(spec_hex_decode(w)))
    } else {
        Err(ScriptError::FormatError)
    }
}

/// Trims surrounding ASCII whitespace.
pub fn trim(s: &[u8]) -> (r: Vec<u8>)
    ensures
        r@ == spec_trim(s@),
{
    let mut start: usize = 0;
    proof {
        assert(s@.skip(0) =~= s@);
    }
    while start < s.len() && (s[start] == 0x20 || s[start] == 0x09 || s[start] == 0x0a || s[start]
        == 0x0b || s[start] == 0x0c || s[start] == 0x0d)
        invariant
            start <= s@.len(),
            trim_front(s@) == trim_front(s@.skip(start as int)),
        decreases s@.len() - start,
    {
        proof {
            assert(s@.skip(start as int).drop_first() =~= s@.skip(start as int + 1));
        }
        start = start + 1;
    }
    proof {
        assert(trim_front(s@) == s@.skip(start as int));
    }
    let mut end: usize = s.len();
    while end > start && (s[end - 1] == 0x20 || s[end - 1] == 0x09 || s[end - 1] == 0x0a || s[end
        - 1] == 0x0b || s[end - 1] == 0x0c || s[end - 1] == 0x0d)
        invariant
            start <= end <= s@.len(),
            trim_front(s@) == s@.skip(start as int),
            trim_back(s@.skip(start as int)) == trim_back(s@.subrange(start as int, end as int)),
        decreases end,
    {
        proof {
            let t = s@.subrange(start as int, end as int);
            assert(t.last() == s@[end - 1]);
            assert(t.drop_last() =~= s@.subrange(start as int, end - 1));
        }
        end = end - 1;
    }
    proof {
        let t = s@.subrange(start as int, end as int);
        assert(trim_back(t) == t);
        assert(s@.skip(start as int) =~= s@.subrange(start as int, s@.len() as int));
    }
    let mut r: Vec<u8> = Vec::new();
    let mut i: usize = start;
    while i < end
        invariant
            start <= i <= end <= s@.len(),
            r@ == s@.subrange(start as int, i as int),
        decreases end - i,
    {
        r.push(s[i]);
        i = i + 1;
        proof {
            assert(s@.subrange(start as int, i as int) =~= s@.subrange(start as int, i - 1).push(
                s@[i - 1],
            ));
        }
    }
    r
}

/// Tells whether the text contains a space character.
pub fn has_space(s: &[u8]) -> (r: bool)
    ensures
        r == spec_has_space(s@),
{
    let mut i: usize = 0;
    while i < s.len()
        invariant
            i <= s@.len(),
            forall|j: int| 0 <= j < i ==> s@[j] != 0x20,
        decreases s@.len() - i,
    {
        if s[i] == 0x20 {
            return true;
        }
        i = i + 1;
    }
    false
}

/// Tells whether the text contains the substring "OP_".
pub fn has_op_marker(s: &[u8]) -> (r: bool)
    ensures
        r == spec_has_op_marker(s@),
{
    if s.len() < 3 {
        return false;
    }
    let mut i: usize = 0;
    while i <= s.len() - 3
        invariant
            3 <= s@.len(),
            i + 3 <= s@.len() + 1,
            forall|j: int|
                0 <= j < i ==> !(#[trigger] s@[j] == 0x4f && s@[j + 1] == 0x50 && s@[j + 2]
                    == 0x5f),
        decreases s@.len() - i,
    {
        if s[i] == 0x4f && s[i + 1] == 0x50 && s[i + 2] == 0x5f {
            return true;
        }
        i = i + 1;
    }
    false
}

/// Splits the text into its whitespace-separated words.
pub fn split_words(s: &[u8]) -> (r: Vec<Vec<u8>>)
    ensures
        words_model(r@) == spec_words(s@),
{
    let mut r: Vec<Vec<u8>> = Vec::new();
    let mut cur: Vec<u8> = Vec::new();
    let mut i: usize = 0;
    proof {
        assert(s@.skip(0) =~= s@);
        assert(words_model(r@) + spec_split_ws(s@, cur@) =~= spec_split_ws(s@, Seq::empty()));
    }
    while i < s.len()
        invariant
            i <= s@.len(),
            spec_words(s@) == words_model(r@) + spec_split_ws(s@.skip(i as int), cur@),
        decreases s@.len() - i,
    {
        let ghost rest = s@.skip(i as int);
        let ghost prefix = words_model(r@);
        let b = s[i];
        proof {
            assert(rest[0] == b);
            assert(rest.drop_first() =~= s@.skip(i as int + 1));
        }
        if b == 0x20 || b == 0x09 || b == 0x0a || b == 0x0b || b == 0x0c || b == 0x0d {
            if cur.len() > 0 {
                let ghost w = cur@;
                r.push(cur);
                cur = Vec::new();
                proof {
                    assert(cur@ =~= Seq::<u8>::empty());
                    assert(words_model(r@) =~= prefix + seq![w]);
                    assert(spec_split_ws(rest, w) == seq![w] + spec_split_ws(
                        s@.skip(i as int + 1),
                        cur@,
                    ));
                    assert(prefix + (seq![w] + spec_split_ws(s@.skip(i as int + 1), cur@)) =~= (
                    prefix + seq![w]) + spec_split_ws(s@.skip(i as int + 1), cur@));
                }
            } else {
                proof {
                    assert(cur@ =~= Seq::<u8>::empty());
                    assert(spec_split_ws(rest, cur@) == spec_split_ws(
                        s@.skip(i as int + 1),
                        cur@,
                    ));
                }
            }
        } else {
            let ghost c = cur@;
            cur.push(b);
            proof {
                assert(spec_split_ws(rest, c) == spec_split_ws(s@.skip(i as int + 1), cur@));
            }
        }
        i = i + 1;
    }
    proof {
        assert(s@.skip(s@.len() as int) =~= Seq::<u8>::empty());
    }
    if cur.len() > 0 {
        let ghost w = cur@;
        let ghost prefix = words_model(r@);
        r.push(cur);
        proof {
            assert(words_model(r@) =~= prefix + seq![w]);
        }
    } else {
        proof {
            assert(words_model(r@) =~= words_model(r@) + spec_split_ws(
                Seq::<u8>::empty(),
                cur@,
            ));
        }
    }
    r
}

/// Reads the digit suffix of a word as a number, capped just above the
/// largest encodable constant; reports a non-digit instead.
fn parse_digits(s: &[u8], from: usize) -> (r: Option<u8>)
    requires
        from <= s@.len(),
    ensures
        match r {
            Some(v) => all_digits(s@.skip(from as int)) && v as nat == (if digits_val(
                s@.skip(from as int),
            ) <= 16 {
                digits_val(s@.skip(from as int))
            } else {
                17
            }),
            None => !all_digits(s@.skip(from as int)),
        },
{
    let ghost sfx = s@.skip(from as int);
    let mut acc: u8 = 0;
    let mut i: usize = from;
    proof {
        assert(sfx.take(0) =~= Seq::<u8>::empty());
    }
    while i < s.len()
        invariant
            from <= i <= s@.len(),
            sfx == s@.skip(from as int),
            all_digits(sfx.take(i - from)),
            acc as nat == (if digits_val(sfx.take(i - from)) <= 16 {
                digits_val(sfx.take(i - from))
            } else {
                17
            }),
        decreases s@.len() - i,
    {
        let b = s[i];
        if b < 0x30 || b > 0x39 {
            proof {
                assert(sfx[i - from] == s@[i as int]);
            }
            return None;
        }
        let d = b - 0x30;
        let t = if acc <= 16 {
            let t0 = acc * 10 + d;
            if t0 > 16 {
                17
            } else {
                t0
            }
        } else {
            17
        };
        proof {
            let pre = sfx.take(i - from);
            let now = sfx.take(i + 1 - from);
            assert(now.drop_last() =~= pre);
            assert(now.last() == s@[i as int]);
            assert(digits_val(now) == digits_val(pre) * 10 + d);
            assert(all_digits(now));
        }
        acc = t;
        i = i + 1;
    }
    proof {
        assert(sfx.take(s@.len() - from) =~= sfx);
    }
    Some(acc)
}

/// Parses one word into a token.
pub fn parse_word(word: &Vec<u8>, reg: &OpcodeRegistry) -> (r: Result<Token, ScriptError>)
    requires
        reg.wf(),
    ensures
        match r {
            Ok(t) => spec_parse_word(word@) == Ok::<TokenModel, ScriptError>(t@),
            Err(e) => spec_parse_word(word@) == Err::<TokenModel, ScriptError>(e),
        },
{
    match reg.byte_of(word) {
        Some(b) => Ok(Token::Op(b)),
        None => {
            if word.len() > 3 && word[0] == 0x4f && word[1] == 0x50 && word[2] == 0x5f {
                match parse_digits(word.as_slice(), 3) {
                    Some(v) => {
                        if 1 <= v && v <= 16 {
                            Ok(Token::Op(0x50 + v))
                        } else {
                            Err(ScriptError::InvalidOpcode)
                        }
                    },
                    None => parse_word_hex(word),
                }
            } else {
                parse_word_hex(word)
            }
        },
    }
}

/// Parses a word as hex push data; the fallback of [`parse_word`].
fn parse_word_hex(word: &Vec<u8>) -> (r: Result<Token, ScriptError>)
    requires
        spec_opcode_byte(word@) is None,
        !(word@.len() > 3 && word@[0] == 0x4f && word@[1] == 0x50 && word@[2] == 0x5f
            && all_digits(word@.skip(3))),
    ensures
        match r {
            Ok(t) => spec_parse_word(word@) == Ok::<TokenModel, ScriptError>(t@),
            Err(e) => spec_parse_word(word@) == Err::<TokenModel, ScriptError>(e),
        },
{
    match crate::hexstr::hex_decode(word.as_slice()) {
        Some(v) => Ok(Token::Data(v)),
        None => Err(ScriptError::FormatError),
    }
}

} // verus!
