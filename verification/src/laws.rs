//! Laws of the decoder: how decoding behaves on whole classes of inputs.
//!
//! Each public proof function here states one law over the spec-level
//! decode functions of the crate root, for every input its `requires`
//! admits.

use vstd::prelude::*;

use crate::DecodeError;
use crate::Opcode;
use crate::decode_from;
use crate::decode_one;
use crate::disassembled;
use crate::opcode_for_byte;
use crate::strip_hex_prefix;
use crate::word_count;
use crate::words_of;

verus! {

/// The words of `words`, laid out one after another in order.
pub open spec fn concat_words(words: Seq<Seq<u8>>) -> Seq<u8>
    decreases words.len(),
{
    if words.len() == 0 {
        Seq::empty()
    } else {
        words[0] + concat_words(words.skip(1))
    }
}

pub proof fn lemma_concat_words_len(words: Seq<Seq<u8>>)
    requires
        forall|i: int| 0 <= i < words.len() ==> #[trigger] words[i].len() == 32,
    ensures
        concat_words(words).len() == 32 * words.len(),
    decreases words.len(),
{
    if words.len() > 0 {
        assert(words[0].len() == 32);
        assert(forall|i: int|
            0 <= i < words.skip(1).len() ==> #[trigger] words.skip(1)[i].len() == 32);
        lemma_concat_words_len(words.skip(1));
    }
}

pub proof fn lemma_words_of_concat(words: Seq<Seq<u8>>)
    requires
        forall|i: int| 0 <= i < words.len() ==> #[trigger] words[i].len() == 32,
    ensures
        words_of(concat_words(words), words.len()) == words,
    decreases words.len(),
{
    if words.len() > 0 {
        let rest = words.skip(1);
        assert(words[0].len() == 32);
        assert(forall|i: int| 0 <= i < rest.len() ==> #[trigger] rest[i].len() == 32);
        lemma_words_of_concat(rest);
        assert(concat_words(words).take(32) =~= words[0]);
        assert(concat_words(words).skip(32) =~= concat_words(rest));
        assert(seq![words[0]] + words_of(concat_words(rest), rest.len()) =~= words);
    }
}

/// Round-trip shape: for every opcode that takes a fixed number of
/// immediate words, a selector byte followed by exactly those words decodes
/// to exactly one operation carrying the tag and the words, in order.
pub proof fn lemma_fixed_words_round_trip(b: u8, op: Opcode, words: Seq<Seq<u8>>)
    requires
        opcode_for_byte(b) == Some(op),
        words.len() == word_count(op),
        forall|i: int| 0 <= i < words.len() ==> #[trigger] words[i].len() == 32,
    ensures
        decode_from(seq![b] + concat_words(words), 0) == Ok::<_, DecodeError>(seq![(op, words)]),
{
    let encoded = seq![b] + concat_words(words);
    lemma_concat_words_len(words);
    lemma_words_of_concat(words);
    let needed = 32 * word_count(op);
    assert(encoded[0] == b);
    assert(encoded.len() == 1 + needed);
    assert(encoded.subrange(1, 1 + needed as int) =~= concat_words(words));
    assert(decode_one(encoded, 0) == Ok::<_, DecodeError>(((op, words), 1 + needed as int)));
    assert(decode_from(encoded, 1 + needed as int) == Ok::<_, DecodeError>(
        Seq::<(Opcode, Seq<Seq<u8>>)>::empty(),
    ));
    assert(seq![(op, words)] + Seq::<(Opcode, Seq<Seq<u8>>)>::empty() =~= seq![(op, words)]);
}

proof fn lemma_decode_shift(a: Seq<u8>, b: Seq<u8>, pos: int)
    requires
        0 <= pos <= b.len(),
        decode_from(b, pos) is Ok,
    ensures
        decode_from(a + b, a.len() + pos) == decode_from(b, pos),
    decreases b.len() - pos,
{
    let ab = a + b;
    if pos < b.len() {
        assert(ab[a.len() + pos] == b[pos]);
        let one = decode_one(b, pos)->Ok_0;
        let op = one.0.0;
        let needed = 32 * word_count(op);
        assert(ab.subrange(a.len() + pos + 1, a.len() + pos + 1 + needed as int) =~= b.subrange(
            pos + 1,
            pos + 1 + needed as int,
        ));
        assert(decode_one(ab, a.len() + pos) == Ok::<_, DecodeError>(
            (one.0, a.len() + one.1),
        ));
        lemma_decode_shift(a, b, one.1);
    }
}

proof fn lemma_decode_concat_from(a: Seq<u8>, b: Seq<u8>, pos: int)
    requires
        0 <= pos <= a.len(),
        decode_from(a, pos) is Ok,
        decode_from(b, 0) is Ok,
    ensures
        decode_from(a + b, pos) == Ok::<_, DecodeError>(
            decode_from(a, pos)->Ok_0 + decode_from(b, 0)->Ok_0,
        ),
    decreases a.len() - pos,
{
    let ab = a + b;
    let tail = decode_from(b, 0)->Ok_0;
    if pos == a.len() {
        lemma_decode_shift(a, b, 0);
        assert(decode_from(a, pos)->Ok_0 + tail =~= tail);
    } else {
        assert(ab[pos] == a[pos]);
        let one = decode_one(a, pos)->Ok_0;
        let op = one.0.0;
        let needed = 32 * word_count(op);
        assert(ab.subrange(pos + 1, pos + 1 + needed as int) =~= a.subrange(
            pos + 1,
            pos + 1 + needed as int,
        ));
        assert(decode_one(ab, pos) == Ok::<_, DecodeError>(one));
        lemma_decode_concat_from(a, b, one.1);
        let rest = decode_from(a, one.1)->Ok_0;
        assert(seq![one.0] + (rest + tail) =~= (seq![one.0] + rest) + tail);
    }
}

/// Concatenation: decoding the concatenation of two well-formed instruction
/// streams yields the concatenation of their decodes.
pub proof fn lemma_decode_concat(a: Seq<u8>, b: Seq<u8>)
    requires
        decode_from(a, 0) is Ok,
        decode_from(b, 0) is Ok,
    ensures
        decode_from(a + b, 0) == Ok::<_, DecodeError>(
            decode_from(a, 0)->Ok_0 + decode_from(b, 0)->Ok_0,
        ),
{
    lemma_decode_concat_from(a, b, 0);
}

proof fn lemma_no_operand_repetition_from(b: u8, op: Opcode, n: nat, pos: int)
    requires
        opcode_for_byte(b) == Some(op),
        word_count(op) == 0,
        0 <= pos <= n,
    ensures
        decode_from(Seq::new(n, |i: int| b), pos) == Ok::<_, DecodeError>(
            Seq::new((n - pos) as nat, |i: int| (op, Seq::<Seq<u8>>::empty())),
        ),
    decreases n - pos,
{
    let s = Seq::new(n, |i: int| b);
    if pos == n {
        assert(Seq::new(0, |i: int| (op, Seq::<Seq<u8>>::empty()))
            =~= Seq::<(Opcode, Seq<Seq<u8>>)>::empty());
    } else {
        assert(s[pos] == b);
        assert(s.subrange(pos + 1, pos + 1) =~= Seq::<u8>::empty());
        assert(decode_one(s, pos) == Ok::<_, DecodeError>(
            ((op, Seq::<Seq<u8>>::empty()), pos + 1),
        ));
        lemma_no_operand_repetition_from(b, op, n, pos + 1);
        assert(seq![(op, Seq::<Seq<u8>>::empty())] + Seq::new(
            (n - pos - 1) as nat,
            |i: int| (op, Seq::<Seq<u8>>::empty()),
        ) =~= Seq::new((n - pos) as nat, |i: int| (op, Seq::<Seq<u8>>::empty())));
    }
}

/// Zero-operand idempotence: `n` repetitions of a no-operand selector byte
/// decode to `n` operations with that tag and no immediate words.
pub proof fn lemma_no_operand_repetition(b: u8, op: Opcode, n: nat)
    requires
        opcode_for_byte(b) == Some(op),
        word_count(op) == 0,
    ensures
        decode_from(Seq::new(n, |i: int| b), 0) == Ok::<_, DecodeError>(
            Seq::new(n, |i: int| (op, Seq::<Seq<u8>>::empty())),
        ),
{
    lemma_no_operand_repetition_from(b, op, n, 0);
}

/// Prefix stripping: putting a `0x` prefix in front of a text that does
/// not already carry one never changes what the text disassembles to.
pub proof fn lemma_prefix_stripping(s: Seq<char>)
    requires
        !(s.len() >= 2 && s[0] == '0' && s[1] == 'x'),
    ensures
        disassembled(seq!['0', 'x'] + s) == disassembled(s),
{
    let prefixed = seq!['0', 'x'] + s;
    assert(prefixed[0] == '0' && prefixed[1] == 'x');
    assert(prefixed.skip(2) =~= s);
    assert(strip_hex_prefix(prefixed) == s);
    assert(strip_hex_prefix(s) == s);
}

/// Truncation: a fixed-words selector byte followed by fewer immediate
/// bytes than its opcode needs fails with a truncation error naming the
/// opcode, the needed and available counts, and the selector's position.
pub proof fn lemma_truncated_input(b: u8, op: Opcode, tail: Seq<u8>)
    requires
        opcode_for_byte(b) == Some(op),
        word_count(op) > 0,
        tail.len() < 32 * word_count(op),
        tail.len() <= usize::MAX,
    ensures
        decode_from(seq![b] + tail, 0) == Err::<Seq<(Opcode, Seq<Seq<u8>>)>, _>(
            DecodeError::TruncatedInputError {
                opcode: op,
                needed: (32 * word_count(op)) as usize,
                available: tail.len() as usize,
                position: 0,
            },
        ),
{
    let encoded = seq![b] + tail;
    assert(encoded[0] == b);
    assert(encoded.len() - 1 == tail.len());
}

/// Unknown opcode: a selector byte with no table entry fails at once with
/// an error naming that byte and its position, whatever follows it.
pub proof fn lemma_unknown_opcode(b: u8, tail: Seq<u8>)
    requires
        opcode_for_byte(b) is None,
    ensures
        decode_from(seq![b] + tail, 0) == Err::<Seq<(Opcode, Seq<Seq<u8>>)>, _>(
            DecodeError::UnknownOpcodeError { byte: b, position: 0 },
        ),
{
    let encoded = seq![b] + tail;
    assert(encoded[0] == b);
}

/// Empty input: an empty byte buffer decodes to an empty operation
/// sequence, not an error.
pub proof fn lemma_empty_input()
    ensures
        decode_from(Seq::<u8>::empty(), 0) == Ok::<_, DecodeError>(
            Seq::<(Opcode, Seq<Seq<u8>>)>::empty(),
        ),
{
}

} // verus!
