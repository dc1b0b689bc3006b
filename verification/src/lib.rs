//! Structural decoder for hex-encoded virtual-machine bytecode.
//!
//! A program is a flat byte stream: each instruction is one selector byte,
//! optionally followed by immediate data whose width is fixed by the opcode.
//! The decoder turns such a stream into a sequence of [`Operation`] values,
//! or reports exactly which structural rule the input breaks.

use vstd::prelude::*;

pub mod laws;
pub mod types;

verus! {

/// The instruction tags wired into the decode loop.
#[derive(Clone, Copy, Debug, PartialEq, Eq, Structural)]
pub enum Opcode {
    STOP,
    ADD,
    MUL,
    DIV,
    SDIV,
    MOD,
    SMOD,
}

/// The opcode table: which tag, if any, a selector byte denotes.
pub open spec fn opcode_for_byte(b: u8) -> Option<Opcode> {
    if b == 0x00 {
        Some(Opcode::STOP)
    } else if b == 0x01 {
        Some(Opcode::ADD)
    } else if b == 0x02 {
        Some(Opcode::MUL)
    } else if b == 0x03 {
        Some(Opcode::DIV)
    } else if b == 0x04 {
        Some(Opcode::SDIV)
    } else if b == 0x05 {
        Some(Opcode::MOD)
    } else if b == 0x06 {
        Some(Opcode::SMOD)
    } else {
        None
    }
}

/// How many 32-byte immediate words follow the selector byte of `op`.
pub open spec fn word_count(op: Opcode) -> nat {
    match op {
        Opcode::STOP => 0,
        _ => 2,
    }
}

/// Looks a selector byte up in the opcode table.
pub fn lookup(b: u8) -> (r: Option<Opcode>)
    ensures
        r == opcode_for_byte(b),
{
    match b {
        0x00 => Some(Opcode::STOP),
        0x01 => Some(Opcode::ADD),
        0x02 => Some(Opcode::MUL),
        0x03 => Some(Opcode::DIV),
        0x04 => Some(Opcode::SDIV),
        0x05 => Some(Opcode::MOD),
        0x06 => Some(Opcode::SMOD),
        _ => None,
    }
}

/// The number of immediate words `op` consumes, as an executable value.
pub fn operand_word_count(op: Opcode) -> (n: u8)
    ensures
        n as nat == word_count(op),
{
    match op {
        Opcode::STOP => 0,
        _ => 2,
    }
}

/// Why a decode call failed; each variant names the rule that was broken
/// and, where one exists, the byte position at which it was broken.
#[derive(Clone, Copy, Debug, PartialEq, Eq, Structural)]
pub enum DecodeError {
    /// The input text is not valid hex: odd digit count or a non-hex character.
    InvalidHexError,
    /// A selector byte with no opcode table entry.
    UnknownOpcodeError { byte: u8, position: usize },
    /// An opcode's declared immediate width exceeds the bytes remaining.
    TruncatedInputError { opcode: Opcode, needed: usize, available: usize, position: usize },
}

/// One decoded instruction: its tag and the immediate words that followed it.
#[derive(Debug, Eq)]
pub struct Operation {
    pub opcode: Opcode,
    pub stack_input: Vec<[u8; 32]>,
}

/// The byte sequences held by a sequence of 32-byte words.
pub open spec fn word_views(ws: Seq<[u8; 32]>) -> Seq<Seq<u8>> {
    ws.map_values(|w: [u8; 32]| w@)
}

/// The first `n * 32` bytes of `bytes`, partitioned into `n` words in
/// stream order.
pub open spec fn words_of(bytes: Seq<u8>, n: nat) -> Seq<Seq<u8>>
    decreases n,
{
    if n == 0 {
        Seq::empty()
    } else {
        seq![bytes.take(32)] + words_of(bytes.skip(32), (n - 1) as nat)
    }
}

pub proof fn lemma_words_of_len(bytes: Seq<u8>, n: nat)
    ensures
        words_of(bytes, n).len() == n,
    decreases n,
{
    if n > 0 {
        lemma_words_of_len(bytes.skip(32), (n - 1) as nat);
    }
}

pub proof fn lemma_words_of_index(bytes: Seq<u8>, n: nat, i: int)
    requires
        32 * n <= bytes.len(),
        0 <= i < n,
    ensures
        words_of(bytes, n).len() == n,
        words_of(bytes, n)[i] == bytes.subrange(32 * i, 32 * i + 32),
    decreases n,
{
    lemma_words_of_len(bytes, n);
    if i == 0 {
        assert(bytes.take(32) =~= bytes.subrange(0, 32));
    } else {
        lemma_words_of_index(bytes.skip(32), (n - 1) as nat, i - 1);
        assert(bytes.skip(32).subrange(32 * (i - 1), 32 * (i - 1) + 32) =~= bytes.subrange(
            32 * i,
            32 * i + 32,
        ));
    }
}

/// Reads the 32-byte word that starts at `start` in `bytes`.
pub fn read_word(bytes: &[u8], start: usize) -> (w: [u8; 32])
    requires
        start + 32 <= bytes@.len(),
    ensures
        w@ == bytes@.subrange(start as int, start as int + 32),
{
    let len = bytes.len();
    let mut w: [u8; 32] = [0u8; 32];
    let mut i: usize = 0;
    while i < 32
        invariant
            i <= 32,
            len == bytes@.len(),
            start + 32 <= bytes@.len(),
            w@.len() == 32,
            forall|j: int| 0 <= j < i ==> w@[j] == bytes@[start + j],
        decreases 32 - i,
    {
        w[i] = *vstd::slice::slice_index_get(bytes, start + i);
        i += 1;
    }
    proof {
        assert(w@ =~= bytes@.subrange(start as int, start as int + 32));
    }
    w
}

impl Operation {
    /// The immediate words of this operation, as plain byte sequences.
    pub open spec fn input_words(self) -> Seq<Seq<u8>> {
        word_views(self.stack_input@)
    }

    /// An operation with no immediate data.
    pub fn new(opcode: Opcode) -> (r: Self)
        ensures
            r.opcode == opcode,
            r.input_words() == Seq::<Seq<u8>>::empty(),
    {
        let r = Operation { opcode, stack_input: Vec::new() };
        proof {
            assert(r.input_words() =~= Seq::<Seq<u8>>::empty());
        }
        r
    }

    /// An operation with the same tag as `self` whose immediate data is
    /// `bytes`, split into `num_words` words in stream order.
    pub fn with_stack_input(&self, num_words: u8, bytes: &[u8]) -> (r: Self)
        requires
            bytes@.len() == num_words as nat * 32,
        ensures
            r.opcode == self.opcode,
            r.input_words() == words_of(bytes@, num_words as nat),
    {
        let n = num_words as usize;
        let mut stack_input: Vec<[u8; 32]> = Vec::new();
        let mut w: usize = 0;
        while w < n
            invariant
                w <= n,
                n == num_words as nat,
                bytes@.len() == n * 32,
                stack_input@.len() == w,
                forall|i: int|
                    0 <= i < w ==> stack_input@[i]@ == bytes@.subrange(32 * i, 32 * i + 32),
            decreases n - w,
        {
            let word = read_word(bytes, w * 32);
            stack_input.push(word);
            w += 1;
        }
        let r = Operation { opcode: self.opcode, stack_input };
        proof {
            lemma_words_of_len(bytes@, num_words as nat);
            assert forall|i: int| 0 <= i < num_words as nat implies r.input_words()[i] == words_of(
                bytes@,
                num_words as nat,
            )[i] by {
                lemma_words_of_index(bytes@, num_words as nat, i);
            }
            assert(r.input_words() =~= words_of(bytes@, num_words as nat));
        }
        r
    }
}

/// Whether two 32-byte words hold the same bytes.
fn word_eq(x: &[u8; 32], y: &[u8; 32]) -> (r: bool)
    ensures
        r == (x@ == y@),
{
    let mut i: usize = 0;
    while i < 32
        invariant
            i <= 32,
            forall|j: int| 0 <= j < i ==> x@[j] == y@[j],
        decreases 32 - i,
    {
        if x[i] != y[i] {
            return false;
        }
        i += 1;
    }
    proof {
        assert(x@ =~= y@);
    }
    true
}

/// Whether two word sequences hold the same bytes, word for word.
pub(crate) fn words_eq(a: &Vec<[u8; 32]>, b: &Vec<[u8; 32]>) -> (r: bool)
    ensures
        r == (word_views(a@) == word_views(b@)),
{
    if a.len() != b.len() {
        proof {
            assert(word_views(a@).len() == a@.len());
            assert(word_views(b@).len() == b@.len());
        }
        return false;
    }
    let mut i: usize = 0;
    while i < a.len()
        invariant
            i <= a@.len(),
            a@.len() == b@.len(),
            forall|j: int| 0 <= j < i ==> a@[j]@ == b@[j]@,
        decreases a@.len() - i,
    {
        if !word_eq(&a[i], &b[i]) {
            proof {
                assert(word_views(a@)[i as int] == a@[i as int]@);
                assert(word_views(b@)[i as int] == b@[i as int]@);
            }
            return false;
        }
        i += 1;
    }
    proof {
        assert(word_views(a@) =~~= word_views(b@));
    }
    true
}

impl PartialEq for Operation {
    /// Two operations are equal when their tags and immediate words are.
    fn eq(&self, other: &Self) -> (r: bool) {
        self.opcode == other.opcode && words_eq(&self.stack_input, &other.stack_input)
    }
}

impl vstd::std_specs::cmp::PartialEqSpecImpl for Operation {
    open spec fn obeys_eq_spec() -> bool {
        true
    }

    open spec fn eq_spec(&self, other: &Self) -> bool {
        self.opcode == other.opcode && word_views(self.stack_input@) == word_views(
            other.stack_input@,
        )
    }
}

/// What one decode step yields at position `pos` of `bytes`: the decoded
/// instruction as a (tag, immediate words) pair together with the position
/// just past it, or the error that stops the decode there.
pub open spec fn decode_one(bytes: Seq<u8>, pos: int) -> Result<
    ((Opcode, Seq<Seq<u8>>), int),
    DecodeError,
>
    recommends
        0 <= pos < bytes.len(),
{
    let b = bytes[pos];
    match opcode_for_byte(b) {
        None => Err(DecodeError::UnknownOpcodeError { byte: b, position: pos as usize }),
        Some(op) => {
            let needed = 32 * word_count(op);
            let available = bytes.len() - (pos + 1);
            if available < needed {
                Err(
                    DecodeError::TruncatedInputError {
                        opcode: op,
                        needed: needed as usize,
                        available: available as usize,
                        position: pos as usize,
                    },
                )
            } else {
                Ok(
                    (
                        (op, words_of(bytes.subrange(pos + 1, pos + 1 + needed), word_count(op))),
                        pos + 1 + needed,
                    ),
                )
            }
        },
    }
}

/// The decode of `bytes` from position `pos` to the end: the sequence of
/// (tag, immediate words) pairs, or the first error met on the way.
pub open spec fn decode_from(bytes: Seq<u8>, pos: int) -> Result<
    Seq<(Opcode, Seq<Seq<u8>>)>,
    DecodeError,
>
    decreases bytes.len() - pos,
{
    if pos < 0 || pos >= bytes.len() {
        Ok(Seq::empty())
    } else {
        match decode_one(bytes, pos) {
            Err(e) => Err(e),
            Ok(one) => match decode_from(bytes, one.1) {
                Err(e) => Err(e),
                Ok(rest) => Ok(seq![one.0] + rest),
            },
        }
    }
}

/// The (tag, immediate words) pairs that a sequence of operations carries.
pub open spec fn op_models(ops: Seq<Operation>) -> Seq<(Opcode, Seq<Seq<u8>>)> {
    ops.map_values(|o: Operation| (o.opcode, o.input_words()))
}

/// `prefix` prepended to the operations of `r`, with errors passed through.
spec fn prepend_decoded(
    prefix: Seq<(Opcode, Seq<Seq<u8>>)>,
    r: Result<Seq<(Opcode, Seq<Seq<u8>>)>, DecodeError>,
) -> Result<Seq<(Opcode, Seq<Seq<u8>>)>, DecodeError> {
    match r {
        Ok(rest) => Ok(prefix + rest),
        Err(e) => Err(e),
    }
}

/// Decodes the single instruction that starts at `pos` in `bytes`, returning
/// it with the position of the byte just past its immediate data.
pub fn decode_operation(bytes: &Vec<u8>, pos: usize) -> (r: Result<(Operation, usize), DecodeError>)
    requires
        pos < bytes@.len(),
    ensures
        match r {
            Ok(p) => {
                &&& decode_one(bytes@, pos as int) == Ok::<_, DecodeError>(
                    ((p.0.opcode, p.0.input_words()), p.1 as int),
                )
                &&& pos < p.1 <= bytes@.len()
            },
            Err(e) => decode_one(bytes@, pos as int) == Err::<((Opcode, Seq<Seq<u8>>), int), _>(e),
        },
{
    let b = bytes[pos];
    match lookup(b) {
        None => Err(DecodeError::UnknownOpcodeError { byte: b, position: pos }),
        Some(opcode) => {
            let nwords = operand_word_count(opcode);
            let needed = (nwords as usize) * 32;
            let available = bytes.len() - pos - 1;
            if available < needed {
                Err(DecodeError::TruncatedInputError { opcode, needed, available, position: pos })
            } else {
                let imm = vstd::slice::slice_subrange(bytes.as_slice(), pos + 1, pos + 1 + needed);
                let op = Operation::new(opcode).with_stack_input(nwords, imm);
                Ok((op, pos + 1 + needed))
            }
        },
    }
}

/// Decodes a complete byte buffer into its instruction sequence, or reports
/// the first structural fault; an empty buffer decodes to an empty sequence.
pub fn decode(bytes: &Vec<u8>) -> (r: Result<Vec<Operation>, DecodeError>)
    ensures
        r is Ok <==> decode_from(bytes@, 0) is Ok,
        r matches Ok(ops) ==> decode_from(bytes@, 0) == Ok::<_, DecodeError>(op_models(ops@)),
        r matches Err(e) ==> decode_from(bytes@, 0) == Err::<Seq<(Opcode, Seq<Seq<u8>>)>, _>(e),
{
    let mut ops: Vec<Operation> = Vec::new();
    let mut pos: usize = 0;
    while pos < bytes.len()
        invariant
            pos <= bytes@.len(),
            decode_from(bytes@, 0) == prepend_decoded(
                op_models(ops@),
                decode_from(bytes@, pos as int),
            ),
        decreases bytes@.len() - pos,
    {
        let ghost prev_ops = ops@;
        match decode_operation(bytes, pos) {
            Err(e) => {
                return Err(e);
            },
            Ok(p) => {
                let (op, next) = p;
                proof {
                    assert(op_models(prev_ops.push(op)) =~= op_models(prev_ops) + seq![
                        (op.opcode, op.input_words()),
                    ]);
                    assert(decode_from(bytes@, 0) == prepend_decoded(
                        op_models(prev_ops.push(op)),
                        decode_from(bytes@, next as int),
                    )) by {
                        if decode_from(bytes@, next as int) is Ok {
                            let rest = decode_from(bytes@, next as int)->Ok_0;
                            assert(op_models(prev_ops) + (seq![(op.opcode, op.input_words())]
                                + rest) =~= (op_models(prev_ops) + seq![
                                (op.opcode, op.input_words()),
                            ]) + rest);
                        }
                    }
                }
                ops.push(op);
                pos = next;
            },
        }
    }
    proof {
        assert(op_models(ops@) + Seq::<(Opcode, Seq<Seq<u8>>)>::empty() =~= op_models(ops@));
    }
    Ok(ops)
}

/// Whether `c` is a hexadecimal digit, in either case.
pub open spec fn is_hex_digit(c: char) -> bool {
    let i = c as int;
    (48 <= i && i <= 57) || (97 <= i && i <= 102) || (65 <= i && i <= 70)
}

/// The value of the hexadecimal digit `c`.
pub open spec fn hex_digit_value(c: char) -> int
    recommends
        is_hex_digit(c),
{
    let i = c as int;
    if 48 <= i && i <= 57 {
        i - 48
    } else if 97 <= i && i <= 102 {
        i - 87
    } else {
        i - 55
    }
}

/// Whether `s` is a well-formed hex text: an even number of hex digits.
pub open spec fn valid_hex(s: Seq<char>) -> bool {
    s.len() % 2 == 0 && (forall|i: int| 0 <= i < s.len() ==> is_hex_digit(s[i]))
}

/// The bytes that the hex text `s` denotes, two digits per byte,
/// most-significant nibble first.
pub open spec fn hex_bytes(s: Seq<char>) -> Seq<u8>
    recommends
        valid_hex(s),
    decreases s.len(),
{
    if s.len() < 2 {
        Seq::empty()
    } else {
        seq![(hex_digit_value(s[0]) * 16 + hex_digit_value(s[1])) as u8] + hex_bytes(s.skip(2))
    }
}

/// `s` with a single leading `0x`, if it has one, removed.
pub open spec fn strip_hex_prefix(s: Seq<char>) -> Seq<char> {
    if s.len() >= 2 && s[0] == '0' && s[1] == 'x' {
        s.skip(2)
    } else {
        s
    }
}

/// Relies on hex::decode: an even-length string of hex digits, upper or
/// lower case, decodes to its bytes, most-significant nibble first; any
/// other string is refused.
#[verifier::external_body]
fn decode_hex(s: &str) -> (r: Option<Vec<u8>>)
    ensures
        r is Some <==> valid_hex(s@),
        r matches Some(b) ==> b@ == hex_bytes(s@),
{
    hex::decode(s).ok()
}

/// Removes a single leading `0x`, if the input starts with one.
fn strip_0x<'a>(input: &'a str) -> (r: &'a str)
    ensures
        r@ == strip_hex_prefix(input@),
{
    let n = input.unicode_len();
    if n >= 2 {
        let c0 = input.get_char(0);
        let c1 = input.get_char(1);
        if c0 == '0' && c1 == 'x' {
            let rest = input.substring_char(2, n);
            proof {
                assert(rest@ =~= input@.skip(2));
            }
            return rest;
        }
    }
    input
}

/// What disassembling the text `s` must yield: strip a single optional `0x`
/// prefix, decode the remaining hex digits to bytes, then decode the bytes.
pub open spec fn disassembled(s: Seq<char>) -> Result<Seq<(Opcode, Seq<Seq<u8>>)>, DecodeError> {
    let t = strip_hex_prefix(s);
    if !valid_hex(t) {
        Err(DecodeError::InvalidHexError)
    } else {
        decode_from(hex_bytes(t), 0)
    }
}

/// Disassembles a hex-encoded program, with an optional `0x` prefix, into
/// its instruction sequence, or reports the first fault.
pub fn disassemble(input: &str) -> (r: Result<Vec<Operation>, DecodeError>)
    ensures
        r is Ok <==> disassembled(input@) is Ok,
        r matches Ok(ops) ==> disassembled(input@) == Ok::<_, DecodeError>(op_models(ops@)),
        r matches Err(e) ==> disassembled(input@) == Err::<Seq<(Opcode, Seq<Seq<u8>>)>, _>(e),
{
    let stripped = strip_0x(input);
    match decode_hex(stripped) {
        None => Err(DecodeError::InvalidHexError),
        Some(bytes) => decode(&bytes),
    }
}

} // verus!
