//! The opcode registry: a bidirectional mapping between opcode byte values
//! and mnemonic names.
//!
//! The forward direction (byte to name) holds one entry for every recognized
//! opcode: the false/zero constant, the sixteen numeric constants, and the
//! seven named behavioral opcodes. The reverse direction (name to byte) is
//! the forward table plus two aliases that exist only name-to-byte.
//!
//! Names are kept as ASCII byte strings, so the whole codec can be specified
//! over byte sequences.

use vstd::prelude::*;

verus! {

/// The false/zero constant.
pub const OP_0: u8 = 0x00;
/// The marker byte for a two-byte length prefix.
pub const OP_PUSHDATA1: u8 = 0x4c;
/// The numeric constant 1 (constant n is `OP_1 + n - 1`).
pub const OP_1: u8 = 0x51;
/// The numeric constant 16.
pub const OP_16: u8 = 0x60;
/// The unconditional-failure marker.
pub const OP_RETURN: u8 = 0x6a;
/// Duplicate the top stack element.
pub const OP_DUP: u8 = 0x76;
/// Pop two elements and push a boolean telling whether they are equal.
pub const OP_EQUAL: u8 = 0x87;
/// Pop two elements and fail unless they are equal.
pub const OP_EQUALVERIFY: u8 = 0x88;
/// Pop one element and push its 160-bit double digest.
pub const OP_HASH160: u8 = 0xa9;
/// Signature-check stub: pops two elements, always pushes true.
pub const OP_CHECKSIG: u8 = 0xac;
/// Multi-signature-check stub.
pub const OP_CHECKMULTISIG: u8 = 0xae;

/// "OP_DUP" as ASCII bytes.
pub open spec fn name_dup() -> Seq<u8> {
    seq![0x4fu8, 0x50, 0x5f, 0x44, 0x55, 0x50]
}

/// "OP_EQUAL" as ASCII bytes.
pub open spec fn name_equal() -> Seq<u8> {
    seq![0x4fu8, 0x50, 0x5f, 0x45, 0x51, 0x55, 0x41, 0x4c]
}

/// "OP_EQUALVERIFY" as ASCII bytes.
pub open spec fn name_equalverify() -> Seq<u8> {
    seq![0x4fu8, 0x50, 0x5f, 0x45, 0x51, 0x55, 0x41, 0x4c, 0x56, 0x45, 0x52, 0x49, 0x46, 0x59]
}

/// "OP_CHECKSIG" as ASCII bytes.
pub open spec fn name_checksig() -> Seq<u8> {
    seq![0x4fu8, 0x50, 0x5f, 0x43, 0x48, 0x45, 0x43, 0x4b, 0x53, 0x49, 0x47]
}

/// "OP_CHECKMULTISIG" as ASCII bytes.
pub open spec fn name_checkmultisig() -> Seq<u8> {
    seq![0x4fu8, 0x50, 0x5f, 0x43, 0x48, 0x45, 0x43, 0x4b, 0x4d, 0x55, 0x4c, 0x54, 0x49, 0x53,
        0x49, 0x47]
}

/// "OP_HASH160" as ASCII bytes.
pub open spec fn name_hash160() -> Seq<u8> {
    seq![0x4fu8, 0x50, 0x5f, 0x48, 0x41, 0x53, 0x48, 0x31, 0x36, 0x30]
}

/// "OP_RETURN" as ASCII bytes.
pub open spec fn name_return() -> Seq<u8> {
    seq![0x4fu8, 0x50, 0x5f, 0x52, 0x45, 0x54, 0x55, 0x52, 0x4e]
}

/// "OP_FALSE" as ASCII bytes (reverse-only alias of the zero constant).
pub open spec fn name_false() -> Seq<u8> {
    seq![0x4fu8, 0x50, 0x5f, 0x46, 0x41, 0x4c, 0x53, 0x45]
}

/// "OP_TRUE" as ASCII bytes (reverse-only alias of the constant 1).
pub open spec fn name_true() -> Seq<u8> {
    seq![0x4fu8, 0x50, 0x5f, 0x54, 0x52, 0x55, 0x45]
}

/// "OP_n" as ASCII bytes, for a numeric constant n up to 16.
pub open spec fn name_op_num(n: u8) -> Seq<u8>
    recommends
        n <= 16,
{
    if n < 10 {
        seq![0x4fu8, 0x50, 0x5f, (0x30 + n) as u8]
    } else {
        seq![0x4fu8, 0x50, 0x5f, 0x31, (0x30 + (n - 10)) as u8]
    }
}

/// The byte a numeric constant n encodes to: 0 for n = 0, else `0x50 + n`.
pub open spec fn numeric_const_byte(n: u8) -> u8
    recommends
        n <= 16,
{
    if n == 0 {
        0x00u8
    } else {
        (0x50 + n) as u8
    }
}

/// The forward mapping: the mnemonic of a recognized opcode byte.
pub open spec fn spec_opcode_name(b: u8) -> Option<Seq<u8>> {
    if b == OP_0 {
        Some(name_op_num(0))
    } else if OP_1 <= b && b <= OP_16 {
        Some(name_op_num((b - 0x50) as u8))
    } else if b == OP_DUP {
        Some(name_dup())
    } else if b == OP_EQUAL {
        Some(name_equal())
    } else if b == OP_EQUALVERIFY {
        Some(name_equalverify())
    } else if b == OP_CHECKSIG {
        Some(name_checksig())
    } else if b == OP_CHECKMULTISIG {
        Some(name_checkmultisig())
    } else if b == OP_HASH160 {
        Some(name_hash160())
    } else if b == OP_RETURN {
        Some(name_return())
    } else {
        None
    }
}

/// A byte value with an entry in the forward mapping.
pub open spec fn is_known_opcode(b: u8) -> bool {
    spec_opcode_name(b) is Some
}

/// If `name` is "OP_n" for some n up to 16, that n.
pub open spec fn spec_numeric_name_value(name: Seq<u8>) -> Option<u8> {
    if name.len() == 4 && name[0] == 0x4f && name[1] == 0x50 && name[2] == 0x5f && 0x30
        <= name[3] && name[3] <= 0x39 {
        Some((name[3] - 0x30) as u8)
    } else if name.len() == 5 && name[0] == 0x4f && name[1] == 0x50 && name[2] == 0x5f && name[3]
        == 0x31 && 0x30 <= name[4] && name[4] <= 0x36 {
        Some((10 + name[4] - 0x30) as u8)
    } else {
        None
    }
}

/// The reverse mapping: the byte value of a mnemonic, aliases included.
pub open spec fn spec_opcode_byte(name: Seq<u8>) -> Option<u8> {
    if spec_numeric_name_value(name) is Some {
        Some(numeric_const_byte(spec_numeric_name_value(name)->Some_0))
    } else if name == name_dup() {
        Some(OP_DUP)
    } else if name == name_equal() {
        Some(OP_EQUAL)
    } else if name == name_equalverify() {
        Some(OP_EQUALVERIFY)
    } else if name == name_checksig() {
        Some(OP_CHECKSIG)
    } else if name == name_checkmultisig() {
        Some(OP_CHECKMULTISIG)
    } else if name == name_hash160() {
        Some(OP_HASH160)
    } else if name == name_return() {
        Some(OP_RETURN)
    } else if name == name_false() {
        Some(OP_0)
    } else if name == name_true() {
        Some(OP_1)
    } else {
        None
    }
}

/// A numeric-constant name is the name its value maps back to.
pub proof fn lemma_numeric_name_value(name: Seq<u8>, n: u8)
    requires
        spec_numeric_name_value(name) == Some(n),
    ensures
        n <= 16,
        name == name_op_num(n),
{
    if name.len() == 4 {
        assert(name =~= name_op_num(n));
    } else {
        assert(name =~= name_op_num(n));
    }
}

/// Tells whether a byte value is a recognized opcode.
pub fn is_known_op(b: u8) -> (r: bool)
    ensures
        r == is_known_opcode(b),
{
    b == OP_0 || (OP_1 <= b && b <= OP_16) || b == OP_DUP || b == OP_EQUAL || b == OP_EQUALVERIFY
        || b == OP_CHECKSIG || b == OP_CHECKMULTISIG || b == OP_HASH160 || b == OP_RETURN
}

/// One pairing of an opcode byte value with its mnemonic name.
pub struct OpcodeEntry {
    pub byte: u8,
    pub name: Vec<u8>,
}

/// The name at position `i` of the registry's tables. The forward table
/// holds positions 0 through 23; the reverse table adds the two aliases.
pub open spec fn table_name_at(i: int) -> Seq<u8> {
    if 0 <= i && i <= 16 {
        name_op_num(i as u8)
    } else if i == 17 {
        name_dup()
    } else if i == 18 {
        name_equal()
    } else if i == 19 {
        name_equalverify()
    } else if i == 20 {
        name_checksig()
    } else if i == 21 {
        name_checkmultisig()
    } else if i == 22 {
        name_hash160()
    } else if i == 23 {
        name_return()
    } else if i == 24 {
        name_false()
    } else {
        name_true()
    }
}

/// The byte value at position `i` of the forward table.
pub open spec fn table_byte_at(i: int) -> u8 {
    if i == 0 {
        OP_0
    } else if 1 <= i && i <= 16 {
        (0x50 + i) as u8
    } else if i == 17 {
        OP_DUP
    } else if i == 18 {
        OP_EQUAL
    } else if i == 19 {
        OP_EQUALVERIFY
    } else if i == 20 {
        OP_CHECKSIG
    } else if i == 21 {
        OP_CHECKMULTISIG
    } else if i == 22 {
        OP_HASH160
    } else {
        OP_RETURN
    }
}

/// The byte value at position `i` of the reverse table: the forward bytes,
/// then the two aliases' targets.
pub open spec fn rev_byte_at(i: int) -> u8 {
    if i == 24 {
        OP_0
    } else if i == 25 {
        OP_1
    } else {
        table_byte_at(i)
    }
}

/// The registry: the forward table (byte to name) and the reverse table
/// (name to byte, aliases included), built once and then only read.
pub struct OpcodeRegistry {
    pub forward: Vec<OpcodeEntry>,
    pub reverse: Vec<OpcodeEntry>,
}

impl OpcodeRegistry {
    /// The tables hold exactly the specified pairings, in order.
    pub open spec fn wf(self) -> bool {
        &&& self.forward@.len() == 24
        &&& forall|i: int|
            0 <= i < 24 ==> (#[trigger] self.forward@[i]).byte == table_byte_at(i)
                && self.forward@[i].name@ == table_name_at(i)
        &&& self.reverse@.len() == 26
        &&& forall|i: int|
            0 <= i < 26 ==> (#[trigger] self.reverse@[i]).byte == rev_byte_at(i)
                && self.reverse@[i].name@ == table_name_at(i)
    }

    /// Looks the mnemonic of a byte value up in the forward table.
    pub fn name_of(&self, b: u8) -> (r: Option<&Vec<u8>>)
        requires
            self.wf(),
        ensures
            match r {
                Some(v) => spec_opcode_name(b) == Some(v@),
                None => spec_opcode_name(b) is None,
            },
    {
        let mut i: usize = 0;
        while i < self.forward.len()
            invariant
                self.wf(),
                i <= 24,
                forall|j: int| 0 <= j < i ==> table_byte_at(j) != b,
            decreases 24 - i,
        {
            if self.forward[i].byte == b {
                proof {
                    lemma_forward_entry(i as int);
                }
                return Some(&self.forward[i].name);
            }
            i = i + 1;
        }
        proof {
            assert(table_byte_at(0) == OP_0);
            if OP_1 <= b && b <= OP_16 {
                assert(table_byte_at(b - 0x50) == b);
            }
            assert(table_byte_at(17) == OP_DUP);
            assert(table_byte_at(18) == OP_EQUAL);
            assert(table_byte_at(19) == OP_EQUALVERIFY);
            assert(table_byte_at(20) == OP_CHECKSIG);
            assert(table_byte_at(21) == OP_CHECKMULTISIG);
            assert(table_byte_at(22) == OP_HASH160);
            assert(table_byte_at(23) == OP_RETURN);
        }
        None
    }

    /// Looks the byte value of a mnemonic up in the reverse table.
    pub fn byte_of(&self, name: &Vec<u8>) -> (r: Option<u8>)
        requires
            self.wf(),
        ensures
            match r {
                Some(x) => spec_opcode_byte(name@) == Some(x),
                None => spec_opcode_byte(name@) is None,
            },
    {
        let mut i: usize = 0;
        while i < self.reverse.len()
            invariant
                self.wf(),
                i <= 26,
                forall|j: int| 0 <= j < i ==> table_name_at(j) != name@,
            decreases 26 - i,
        {
            if crate::token::bytes_eq(name, &self.reverse[i].name) {
                proof {
                    lemma_reverse_entry(i as int);
                    assert(name@ == table_name_at(i as int));
                }
                return Some(self.reverse[i].byte);
            }
            i = i + 1;
        }
        proof {
            if spec_numeric_name_value(name@) is Some {
                let n = spec_numeric_name_value(name@)->Some_0;
                lemma_numeric_name_value(name@, n);
                assert(table_name_at(n as int) == name@);
            }
            assert(table_name_at(17) == name_dup());
            assert(table_name_at(18) == name_equal());
            assert(table_name_at(19) == name_equalverify());
            assert(table_name_at(20) == name_checksig());
            assert(table_name_at(21) == name_checkmultisig());
            assert(table_name_at(22) == name_hash160());
            assert(table_name_at(23) == name_return());
            assert(table_name_at(24) == name_false());
            assert(table_name_at(25) == name_true());
        }
        None
    }
}

/// Each forward-table position pairs a byte with that byte's mnemonic.
proof fn lemma_forward_entry(i: int)
    requires
        0 <= i < 24,
    ensures
        spec_opcode_name(table_byte_at(i)) == Some(table_name_at(i)),
{
}

/// Each reverse-table position pairs a mnemonic with the byte the reverse
/// mapping assigns it.
proof fn lemma_reverse_entry(i: int)
    requires
        0 <= i < 26,
    ensures
        spec_opcode_byte(table_name_at(i)) == Some(rev_byte_at(i)),
{
}

/// Builds the name "OP_n" of the numeric constant `n`.
fn numeric_name(n: u8) -> (v: Vec<u8>)
    requires
        n <= 16,
    ensures
        v@ == name_op_num(n),
{
    let mut v: Vec<u8> = Vec::new();
    v.push(0x4f);
    v.push(0x50);
    v.push(0x5f);
    if n < 10 {
        v.push(0x30 + n);
    } else {
        v.push(0x31);
        v.push(0x30 + (n - 10));
    }
    proof {
        assert(v@ =~= name_op_num(n));
    }
    v
}

/// Appends the seven named behavioral opcodes to a table, in registry
/// order.
fn push_named_entries(v: &mut Vec<OpcodeEntry>)
    requires
        old(v)@.len() == 17,
    ensures
        final (v)@.len() == 24,
        forall|i: int| 0 <= i < 17 ==> final (v)@[i] == old(v)@[i],
        forall|i: int|
            17 <= i < 24 ==> (#[trigger] final (v)@[i]).byte == table_byte_at(i)
                && final (v)@[i].name@ == table_name_at(i),
{
    let dup: Vec<u8> = vec![0x4f, 0x50, 0x5f, 0x44, 0x55, 0x50];
    let equal: Vec<u8> = vec![0x4f, 0x50, 0x5f, 0x45, 0x51, 0x55, 0x41, 0x4c];
    let equalverify: Vec<u8> = vec![0x4f, 0x50, 0x5f, 0x45, 0x51, 0x55, 0x41, 0x4c, 0x56, 0x45,
        0x52, 0x49, 0x46, 0x59];
    let checksig: Vec<u8> = vec![0x4f, 0x50, 0x5f, 0x43, 0x48, 0x45, 0x43, 0x4b, 0x53, 0x49, 0x47];
    let checkmultisig: Vec<u8> = vec![0x4f, 0x50, 0x5f, 0x43, 0x48, 0x45, 0x43, 0x4b, 0x4d, 0x55,
        0x4c, 0x54, 0x49, 0x53, 0x49, 0x47];
    let hash160: Vec<u8> = vec![0x4f, 0x50, 0x5f, 0x48, 0x41, 0x53, 0x48, 0x31, 0x36, 0x30];
    let ret: Vec<u8> = vec![0x4f, 0x50, 0x5f, 0x52, 0x45, 0x54, 0x55, 0x52, 0x4e];
    proof {
        assert(dup@ =~= name_dup());
        assert(equal@ =~= name_equal());
        assert(equalverify@ =~= name_equalverify());
        assert(checksig@ =~= name_checksig());
        assert(checkmultisig@ =~= name_checkmultisig());
        assert(hash160@ =~= name_hash160());
        assert(ret@ =~= name_return());
    }
    v.push(OpcodeEntry { byte: OP_DUP, name: dup });
    v.push(OpcodeEntry { byte: OP_EQUAL, name: equal });
    v.push(OpcodeEntry { byte: OP_EQUALVERIFY, name: equalverify });
    v.push(OpcodeEntry { byte: OP_CHECKSIG, name: checksig });
    v.push(OpcodeEntry { byte: OP_CHECKMULTISIG, name: checkmultisig });
    v.push(OpcodeEntry { byte: OP_HASH160, name: hash160 });
    v.push(OpcodeEntry { byte: OP_RETURN, name: ret });
}

/// Builds positions 0 through 23: the zero constant, the sixteen numeric
/// constants, and the seven named opcodes.
fn build_common_table() -> (v: Vec<OpcodeEntry>)
    ensures
        v@.len() == 24,
        forall|i: int|
            0 <= i < 24 ==> (#[trigger] v@[i]).byte == table_byte_at(i) && v@[i].name@
                == table_name_at(i),
{
    let mut v: Vec<OpcodeEntry> = Vec::new();
    v.push(OpcodeEntry { byte: OP_0, name: numeric_name(0) });
    let mut n: u8 = 1;
    while n <= 16
        invariant
            1 <= n <= 17,
            v@.len() == n as int,
            forall|i: int|
                0 <= i < n ==> (#[trigger] v@[i]).byte == table_byte_at(i) && v@[i].name@
                    == table_name_at(i),
        decreases 17 - n,
    {
        v.push(OpcodeEntry { byte: 0x50 + n, name: numeric_name(n) });
        n = n + 1;
    }
    push_named_entries(&mut v);
    v
}

/// Builds the opcode registry: the forward table in its fixed order, and
/// the reverse table derived as the same pairings plus the two
/// reverse-only aliases.
pub fn init_opcodes() -> (r: OpcodeRegistry)
    ensures
        r.wf(),
{
    let forward = build_common_table();
    let mut reverse = build_common_table();
    let fal: Vec<u8> = vec![0x4f, 0x50, 0x5f, 0x46, 0x41, 0x4c, 0x53, 0x45];
    let tru: Vec<u8> = vec![0x4f, 0x50, 0x5f, 0x54, 0x52, 0x55, 0x45];
    proof {
        assert(fal@ =~= name_false());
        assert(tru@ =~= name_true());
    }
    reverse.push(OpcodeEntry { byte: OP_0, name: fal });
    reverse.push(OpcodeEntry { byte: OP_1, name: tru });
    OpcodeRegistry { forward, reverse }
}

} // verus!
