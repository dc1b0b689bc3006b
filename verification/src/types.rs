//! The full opcode table: every instruction tag of the virtual machine,
//! with builder-style constructors that attach immediate data to a tag.

use vstd::prelude::*;

use crate::lemma_words_of_index;
use crate::lemma_words_of_len;
use crate::read_word;
use crate::words_of;

verus! {

/// Every instruction tag of the virtual machine.
#[derive(Clone, Copy, Debug, PartialEq, Eq, Structural)]
pub enum Opcode {
    STOP,
    ADD,
    MUL,
    SUB,
    DIV,
    SDIV,
    MOD,
    SMOD,
    ADDMOD,
    MULMOD,
    EXP,
    SIGNEXTEND,
    LT,
    GT,
    SLT,
    SGT,
    EQ,
    ISZERO,
    AND,
    OR,
    XOR,
    NOT,
    BYTE,
    SHL,
    SHR,
    SAR,
    SHA3,
    ADDRESS,
    BALANCE,
    ORIGIN,
    CALLER,
    CALLVALUE,
    CALLDATALOAD,
    CALLDATASIZE,
    CALLDATACOPY,
    CODESIZE,
    CODECOPY,
    GASPRICE,
    EXTCODESIZE,
    EXTCODECOPY,
    RETURNDATASIZE,
    RETURNDATACOPY,
    EXTCODEHASH,
    BLOCKHASH,
    COINBASE,
    TIMESTAMP,
    NUMBER,
    DIFFICULTY,
    GASLIMIT,
    CHAINID,
    SELFBALANCE,
    BASEFEE,
    POP,
    MLOAD,
    MSTORE,
    MSTORE8,
    SLOAD,
    SSTORE,
    JUMP,
    JUMPI,
    PC,
    MSIZE,
    GAS,
    JUMPDEST,
    PUSH1,
    PUSH2,
    PUSH3,
    PUSH4,
    PUSH5,
    PUSH6,
    PUSH7,
    PUSH8,
    PUSH9,
    PUSH10,
    PUSH11,
    PUSH12,
    PUSH13,
    PUSH14,
    PUSH15,
    PUSH16,
    PUSH17,
    PUSH18,
    PUSH19,
    PUSH20,
    PUSH21,
    PUSH22,
    PUSH23,
    PUSH24,
    PUSH25,
    PUSH26,
    PUSH27,
    PUSH28,
    PUSH29,
    PUSH30,
    PUSH31,
    PUSH32,
    DUP1,
    DUP2,
    DUP3,
    DUP4,
    DUP5,
    DUP6,
    DUP7,
    DUP8,
    DUP9,
    DUP10,
    DUP11,
    DUP12,
    DUP13,
    DUP14,
    DUP15,
    DUP16,
    SWAP1,
    SWAP2,
    SWAP3,
    SWAP4,
    SWAP5,
    SWAP6,
    SWAP7,
    SWAP8,
    SWAP9,
    SWAP10,
    SWAP11,
    SWAP12,
    SWAP13,
    SWAP14,
    SWAP15,
    SWAP16,
    LOG0,
    LOG1,
    LOG2,
    LOG3,
    LOG4,
    CREATE,
    CALL,
    CALLCODE,
    RETURN,
    DELEGATECALL,
    CREATE2,
    STATICCALL,
    REVERT,
    INVALID,
    SELFDESTRUCT,
}

/// One decoded instruction of the full table: its tag and immediate words.
#[derive(Debug, Eq)]
pub struct Operation {
    pub opcode: Opcode,
    pub stack_input: Vec<[u8; 32]>,
}

impl Operation {
    /// The immediate words of this operation, as plain byte sequences.
    pub open spec fn input_words(self) -> Seq<Seq<u8>> {
        self.stack_input@.map_values(|w: [u8; 32]| w@)
    }

    /// An operation with no immediate data.
    pub fn new(opcode: Opcode) -> (r: Self)
        ensures
            r.opcode == opcode,
            r.input_words() == Seq::<Seq<u8>>::empty(),
    {
        let r = Operation { opcode, stack_input: Vec::new() };
        proof {
            assert(r.input_words() =~= Seq::<Seq<u8>>::empty());
        }
        r
    }

    /// This operation with its immediate data replaced by `bytes`, split
    /// into `num_words` words in stream order; with no words asked for,
    /// the operation is returned unchanged.
    pub fn with_words(self, num_words: u8, bytes: &[u8]) -> (r: Self)
        requires
            num_words != 0 ==> bytes@.len() == num_words as nat * 32,
        ensures
            r.opcode == self.opcode,
            num_words == 0 ==> r == self,
            num_words != 0 ==> r.input_words() == words_of(bytes@, num_words as nat),
    {
        if num_words == 0 {
            return self;
        }
        let n = num_words as usize;
        let mut stack_input: Vec<[u8; 32]> = Vec::new();
        let mut w: usize = 0;
        while w < n
            invariant
                w <= n,
                n == num_words as nat,
                bytes@.len() == n * 32,
                stack_input@.len() == w,
                forall|i: int|
                    0 <= i < w ==> stack_input@[i]@ == bytes@.subrange(32 * i, 32 * i + 32),
            decreases n - w,
        {
            let word = read_word(bytes, w * 32);
            stack_input.push(word);
            w += 1;
        }
        let r = Operation { opcode: self.opcode, stack_input };
        proof {
            lemma_words_of_len(bytes@, num_words as nat);
            assert forall|i: int| 0 <= i < num_words as nat implies r.input_words()[i] == words_of(
                bytes@,
                num_words as nat,
            )[i] by {
                lemma_words_of_index(bytes@, num_words as nat, i);
            }
            assert(r.input_words() =~= words_of(bytes@, num_words as nat));
        }
        r
    }

    /// This operation with its immediate data replaced by one word holding
    /// `bytes` right-justified under leading zero padding; with no bytes
    /// asked for, the operation is returned unchanged.
    pub fn with_bytes(self, num_bytes: usize, bytes: &[u8]) -> (r: Self)
        requires
            num_bytes <= 32,
            num_bytes != 0 ==> bytes@.len() == num_bytes,
        ensures
            r.opcode == self.opcode,
            num_bytes == 0 ==> r == self,
            num_bytes != 0 ==> r.input_words() == seq![padded_word(bytes@)],
    {
        if num_bytes == 0 {
            return self;
        }
        let mut word: [u8; 32] = [0u8; 32];
        let mut i: usize = 0;
        while i < num_bytes
            invariant
                i <= num_bytes,
                num_bytes <= 32,
                bytes@.len() == num_bytes,
                word@.len() == 32,
                forall|j: int| 0 <= j < i ==> word@[32 - num_bytes + j] == bytes@[j],
                forall|j: int|
                    0 <= j < 32 && !(32 - num_bytes <= j < 32 - num_bytes + i) ==> word@[j] == 0,
            decreases num_bytes - i,
        {
            word[32 - num_bytes + i] = *vstd::slice::slice_index_get(bytes, i);
            i += 1;
        }
        let mut stack_input: Vec<[u8; 32]> = Vec::new();
        stack_input.push(word);
        let r = Operation { opcode: self.opcode, stack_input };
        proof {
            assert(word@ =~= padded_word(bytes@));
            assert(r.input_words() =~= seq![padded_word(bytes@)]);
        }
        r
    }
}

impl PartialEq for Operation {
    /// Two operations are equal when their tags and immediate words are.
    fn eq(&self, other: &Self) -> (r: bool) {
        self.opcode == other.opcode && crate::words_eq(&self.stack_input, &other.stack_input)
    }
}

impl vstd::std_specs::cmp::PartialEqSpecImpl for Operation {
    open spec fn obeys_eq_spec() -> bool {
        true
    }

    open spec fn eq_spec(&self, other: &Self) -> bool {
        self.opcode == other.opcode && crate::word_views(self.stack_input@) == crate::word_views(
            other.stack_input@,
        )
    }
}

/// `bytes` right-justified in a 32-byte word, under leading zero padding.
pub open spec fn padded_word(bytes: Seq<u8>) -> Seq<u8>
    recommends
        bytes.len() <= 32,
{
    Seq::new(
        32,
        |i: int|
            if i < 32 - bytes.len() {
                0u8
            } else {
                bytes[i - (32 - bytes.len())]
            },
    )
}

} // verus!
