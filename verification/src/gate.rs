//! The virtual call gate: two reserved illegal opcodes, one of them followed
//! by an absolute address. Encoding and decoding live side by side here so
//! that the code emitted at build time and the code decoded at run time
//! cannot drift apart.

use vstd::prelude::*;
use vstd::string::StringSliceAdditionalSpecFns;
use vstd::string::is_ascii;
use vstd::string::is_ascii_spec_bytes;
use crate::text::copy_of;

verus! {

/// The opcode word (little endian in memory) that enters the routine.
pub const ENTER_OPCODE: u16 = 0xB90F;

/// The opcode word (little endian in memory) that leaves the routine.
pub const LEAVE_OPCODE: u16 = 0x0B0F;

/// Bytes taken by an ENTER gate: the opcode and its eight-byte operand.
pub const ENTER_LEN: u64 = 10;

/// Bytes taken by a LEAVE gate: the opcode alone.
pub const LEAVE_LEN: u64 = 2;

/// A gate as it stands in the instruction stream.
#[derive(Clone, Copy, Debug, PartialEq, Eq, Structural)]
pub enum Gate {
    /// Disguised call of the routine at `target`.
    Enter { target: u64 },
    /// Disguised return.
    Leave,
}

/// What a trapped opcode word means to the dispatcher.
#[derive(Clone, Copy, Debug, PartialEq, Eq, Structural)]
pub enum Opcode {
    Enter,
    Leave,
    Other,
}

/// Byte `i` of `value` in little-endian order.
pub open spec fn le_byte(value: u64, i: int) -> u8 {
    ((value as int / pow256(i)) % 256) as u8
}

/// 256 to the power `i`, for the eight positions of a 64-bit word.
pub open spec fn pow256(i: int) -> int {
    if i <= 0 {
        1
    } else if i == 1 {
        0x100
    } else if i == 2 {
        0x1_0000
    } else if i == 3 {
        0x100_0000
    } else if i == 4 {
        0x1_0000_0000
    } else if i == 5 {
        0x100_0000_0000
    } else if i == 6 {
        0x1_0000_0000_0000
    } else {
        0x100_0000_0000_0000
    }
}

/// The value whose little-endian bytes are the first eight of `bytes`.
pub open spec fn le_value(bytes: Seq<u8>) -> int {
    bytes[0] + bytes[1] * pow256(1) + bytes[2] * pow256(2) + bytes[3] * pow256(3) + bytes[4]
        * pow256(4) + bytes[5] * pow256(5) + bytes[6] * pow256(6) + bytes[7] * pow256(7)
}

/// The bytes of a gate.
pub open spec fn encoding(gate: Gate) -> Seq<u8> {
    match gate {
        Gate::Enter { target } => seq![0x0Fu8, 0xB9u8] + Seq::new(8, |i: int| le_byte(target, i)),
        Gate::Leave => seq![0x0Fu8, 0x0Bu8],
    }
}

/// What `bytes` start with: one of the two gates, or neither.
pub open spec fn decoding(bytes: Seq<u8>) -> Option<Gate> {
    if bytes.len() >= 2 && bytes[0] == 0x0F && bytes[1] == 0x0B {
        Some(Gate::Leave)
    } else if bytes.len() >= 10 && bytes[0] == 0x0F && bytes[1] == 0xB9 {
        Some(Gate::Enter { target: le_value(bytes.subrange(2, 10)) as u64 })
    } else {
        None
    }
}

/// The meaning of an opcode word.
pub open spec fn opcode_of(word: u16) -> Opcode {
    if word == ENTER_OPCODE {
        Opcode::Enter
    } else if word == LEAVE_OPCODE {
        Opcode::Leave
    } else {
        Opcode::Other
    }
}

/// Tells which gate, if any, an opcode word read at the trapped instruction
/// pointer stands for.
pub fn classify(word: u16) -> (op: Opcode)
    ensures
        op == opcode_of(word),
{
    if word == ENTER_OPCODE {
        Opcode::Enter
    } else if word == LEAVE_OPCODE {
        Opcode::Leave
    } else {
        Opcode::Other
    }
}

proof fn lemma_le_bytes_of(v: u64)
    by (bit_vector)
    ensures
        (v & 0xff) == v % 0x100,
        ((v >> 8) & 0xff) == (v / 0x100) % 256,
        ((v >> 16) & 0xff) == (v / 0x1_0000) % 256,
        ((v >> 24) & 0xff) == (v / 0x100_0000) % 256,
        ((v >> 32) & 0xff) == (v / 0x1_0000_0000) % 256,
        ((v >> 40) & 0xff) == (v / 0x100_0000_0000) % 256,
        ((v >> 48) & 0xff) == (v / 0x1_0000_0000_0000) % 256,
        ((v >> 56) & 0xff) == (v / 0x100_0000_0000_0000) % 256,
{
}

/// Emits the bytes of `gate`.
pub fn encode(gate: Gate) -> (bytes: Vec<u8>)
    ensures
        bytes@ == encoding(gate),
{
    match gate {
        Gate::Enter { target } => {
            let mut bytes: Vec<u8> = Vec::new();
            bytes.push(0x0F);
            bytes.push(0xB9);
            proof {
                lemma_le_bytes_of(target);
            }
            bytes.push((target & 0xff) as u8);
            bytes.push(((target >> 8) & 0xff) as u8);
            bytes.push(((target >> 16) & 0xff) as u8);
            bytes.push(((target >> 24) & 0xff) as u8);
            bytes.push(((target >> 32) & 0xff) as u8);
            bytes.push(((target >> 40) & 0xff) as u8);
            bytes.push(((target >> 48) & 0xff) as u8);
            bytes.push(((target >> 56) & 0xff) as u8);
            assert(bytes@ =~= encoding(gate));
            bytes
        },
        Gate::Leave => {
            let mut bytes: Vec<u8> = Vec::new();
            bytes.push(0x0F);
            bytes.push(0x0B);
            assert(bytes@ =~= encoding(gate));
            bytes
        },
    }
}

/// Reads a gate at the start of `bytes`.
pub fn decode(bytes: &[u8]) -> (gate: Option<Gate>)
    ensures
        gate == decoding(bytes@),
{
    if bytes.len() < 2 || bytes[0] != 0x0F {
        return None;
    }
    if bytes[1] == 0x0B {
        return Some(Gate::Leave);
    }
    if bytes[1] != 0xB9 || bytes.len() < 10 {
        return None;
    }
    let target: u64 = bytes[2] as u64 + bytes[3] as u64 * 0x100 + bytes[4] as u64 * 0x1_0000
        + bytes[5] as u64 * 0x100_0000 + bytes[6] as u64 * 0x1_0000_0000 + bytes[7] as u64
        * 0x100_0000_0000 + bytes[8] as u64 * 0x1_0000_0000_0000 + bytes[9] as u64
        * 0x100_0000_0000_0000;
    Some(Gate::Enter { target })
}

/// The bytes of a 64-bit word put together again give the word.
pub proof fn lemma_le_value_of_le_bytes(value: u64)
    ensures
        le_value(Seq::new(8, |i: int| le_byte(value, i))) == value,
{
    lemma_recompose(value);
}

proof fn lemma_recompose(v: u64)
    by (bit_vector)
    ensures
        v % 0x100 + ((v / 0x100) % 256) * 0x100 + ((v / 0x1_0000) % 256) * 0x1_0000 + ((v
            / 0x100_0000) % 256) * 0x100_0000 + ((v / 0x1_0000_0000) % 256) * 0x1_0000_0000 + ((v
            / 0x100_0000_0000) % 256) * 0x100_0000_0000 + ((v / 0x1_0000_0000_0000) % 256)
            * 0x1_0000_0000_0000 + ((v / 0x100_0000_0000_0000) % 256) * 0x100_0000_0000_0000 == v,
{
}

/// Decoding what was encoded gives it back, whatever follows it in
/// the instruction stream.
pub proof fn lemma_decode_encode(gate: Gate, rest: Seq<u8>)
    ensures
        decoding(encoding(gate) + rest) == Some(gate),
        encoding(gate).len() == (if gate is Leave { 2int } else { 10int }),
{
    match gate {
        Gate::Enter { target } => {
            lemma_le_value_of_le_bytes(target);
            assert((encoding(gate) + rest).subrange(2, 10) =~= Seq::new(
                8,
                |i: int| le_byte(target, i),
            ));
        },
        Gate::Leave => {},
    }
}

/// The two opcodes are the first two bytes of the gates, read as a
/// little-endian word.
pub proof fn lemma_opcode_words()
    ensures
        encoding(Gate::Leave)[0] + 256 * encoding(Gate::Leave)[1] == LEAVE_OPCODE,
        forall|target: u64|
            (#[trigger] encoding(Gate::Enter { target }))[0] + 256 * encoding(
                Gate::Enter { target },
            )[1] == ENTER_OPCODE,
{
}

/// The upper-case hexadecimal digit for `n`, which is below sixteen.
pub open spec fn hex_digit(n: int) -> u8 {
    if n < 10 {
        (48 + n) as u8
    } else {
        (55 + n) as u8
    }
}

/// The assembler directive that emits `word` as two raw bytes.
pub open spec fn word_directive(word: u16) -> Seq<u8> {
    ".word 0x".spec_bytes() + seq![
        hex_digit(word as int / 4096),
        hex_digit((word as int / 256) % 16),
        hex_digit((word as int / 16) % 16),
        hex_digit(word as int % 16),
    ]
}

/// The directive that stands for a return in the disguised routine: it
/// emits the LEAVE opcode.
pub open spec fn leave_directive() -> Seq<u8> {
    word_directive(LEAVE_OPCODE)
}

fn hex_digit_of(n: u16) -> (digit: u8)
    requires
        n < 16,
    ensures
        digit == hex_digit(n as int),
{
    if n < 10 {
        48 + n as u8
    } else {
        55 + n as u8
    }
}

/// Builds the directive that emits the LEAVE opcode.
pub fn leave_directive_line() -> (line: Vec<u8>)
    ensures
        line@ == leave_directive(),
{
    let mut line = copy_of(".word 0x".as_bytes());
    line.push(hex_digit_of(LEAVE_OPCODE / 4096));
    line.push(hex_digit_of((LEAVE_OPCODE / 256) % 16));
    line.push(hex_digit_of((LEAVE_OPCODE / 16) % 16));
    line.push(hex_digit_of(LEAVE_OPCODE % 16));
    assert(line@ =~= leave_directive());
    line
}

/// The text of the LEAVE directive.
pub proof fn lemma_leave_directive_text()
    ensures
        leave_directive() == ".word 0x0B0F".spec_bytes(),
{
    reveal_strlit(".word 0x");
    reveal_strlit(".word 0x0B0F");
    assert(is_ascii(".word 0x"));
    assert(is_ascii(".word 0x0B0F"));
    is_ascii_spec_bytes(".word 0x");
    is_ascii_spec_bytes(".word 0x0B0F");
    assert(leave_directive() =~= ".word 0x0B0F".spec_bytes());
}

} // verus!
