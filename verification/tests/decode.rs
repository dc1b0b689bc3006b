use disasm::{decode, disassemble, DecodeError, Opcode, Operation};

fn pad_word(input: &str) -> [u8; 32] {
    let mut word = [0u8; 32];
    let padded = format!("{:0>64}", input);
    hex::decode_to_slice(padded, &mut word).unwrap();
    word
}

fn encode_op(opcode: &str, stack_input: &[[u8; 32]]) -> String {
    let mut text = opcode.to_owned();
    for word in stack_input {
        text += &hex::encode(word);
    }
    text
}

fn op(opcode: Opcode, words: &[[u8; 32]]) -> Operation {
    let mut bytes: Vec<u8> = Vec::new();
    for w in words {
        bytes.extend_from_slice(w);
    }
    Operation::new(opcode).with_stack_input(words.len() as u8, &bytes)
}

#[test]
fn decode_single_stop() {
    let result = disassemble("0x00").unwrap();
    assert_eq!(result, vec![op(Opcode::STOP, &[])]);
}

#[test]
fn decode_single_add() {
    let words = [pad_word("100"), pad_word("1234567")];
    let encoded = encode_op("0x01", &words);
    assert_eq!(disassemble(&encoded).unwrap(), vec![op(Opcode::ADD, &words)]);
}

#[test]
fn decode_single_mul() {
    let words = [pad_word("100"), pad_word("1234567")];
    let encoded = encode_op("0x02", &words);
    assert_eq!(disassemble(&encoded).unwrap(), vec![op(Opcode::MUL, &words)]);
}

#[test]
fn decode_single_div() {
    let words = [pad_word("100"), pad_word("1234567")];
    let encoded = encode_op("0x03", &words);
    assert_eq!(disassemble(&encoded).unwrap(), vec![op(Opcode::DIV, &words)]);
}

#[test]
fn decode_single_sdiv() {
    let words = [pad_word("100"), pad_word("1234567")];
    let encoded = encode_op("0x04", &words);
    assert_eq!(disassemble(&encoded).unwrap(), vec![op(Opcode::SDIV, &words)]);
}

#[test]
fn decode_single_mod() {
    let words = [pad_word("100"), pad_word("1234567")];
    let encoded = encode_op("0x05", &words);
    assert_eq!(disassemble(&encoded).unwrap(), vec![op(Opcode::MOD, &words)]);
}

#[test]
fn decode_single_smod() {
    let words = [pad_word("100"), pad_word("1234567")];
    let encoded = encode_op("0x06", &words);
    assert_eq!(disassemble(&encoded).unwrap(), vec![op(Opcode::SMOD, &words)]);
}

#[test]
fn decode_stop_and_add() {
    let a = pad_word("100");
    let b = pad_word("1234567");
    let add_op = encode_op("01", &[a, b]);
    let stop_op = encode_op("00", &[]);
    let result = disassemble(&(add_op + &stop_op)).unwrap();
    assert_eq!(result, vec![op(Opcode::ADD, &[a, b]), op(Opcode::STOP, &[])]);
}

#[test]
fn round_trip_all_zero_and_all_ff_words() {
    let zero = [0u8; 32];
    let ff = [0xffu8; 32];
    let encoded = encode_op("02", &[zero, ff]);
    assert_eq!(
        disassemble(&encoded).unwrap(),
        vec![op(Opcode::MUL, &[zero, ff])]
    );
}

#[test]
fn concatenation_of_streams() {
    let a_bytes = {
        let mut v = vec![0x01u8];
        v.extend_from_slice(&pad_word("64"));
        v.extend_from_slice(&pad_word("ff"));
        v
    };
    let b_bytes = vec![0x00u8, 0x00u8];
    let combined = {
        let mut v = a_bytes.clone();
        v.extend_from_slice(&b_bytes);
        v
    };
    let mut expected = decode(&a_bytes).unwrap();
    expected.extend(decode(&b_bytes).unwrap());
    assert_eq!(decode(&combined).unwrap(), expected);
}

#[test]
fn zero_operand_repetition() {
    let result = disassemble("0000000000").unwrap();
    assert_eq!(result.len(), 5);
    for o in &result {
        assert_eq!(o.opcode, Opcode::STOP);
        assert!(o.stack_input.is_empty());
    }
}

#[test]
fn prefix_stripping_same_result() {
    assert_eq!(disassemble("0x00").unwrap(), disassemble("00").unwrap());
}

#[test]
fn doubled_prefix_is_invalid_hex() {
    assert_eq!(disassemble("0x0x00"), Err(DecodeError::InvalidHexError));
}

#[test]
fn truncated_add_fails() {
    let mut bytes = vec![0x01u8];
    bytes.extend_from_slice(&[0u8; 63]);
    assert_eq!(
        decode(&bytes),
        Err(DecodeError::TruncatedInputError {
            opcode: Opcode::ADD,
            needed: 64,
            available: 63,
            position: 0,
        })
    );
}

#[test]
fn exact_add_succeeds() {
    let mut bytes = vec![0x01u8];
    bytes.extend_from_slice(&[0u8; 64]);
    let result = decode(&bytes).unwrap();
    assert_eq!(result, vec![op(Opcode::ADD, &[[0u8; 32], [0u8; 32]])]);
}

#[test]
fn extra_bytes_decode_as_next_instruction() {
    let mut bytes = vec![0x01u8];
    bytes.extend_from_slice(&[0u8; 64]);
    bytes.push(0x00);
    let result = decode(&bytes).unwrap();
    assert_eq!(
        result,
        vec![op(Opcode::ADD, &[[0u8; 32], [0u8; 32]]), op(Opcode::STOP, &[])]
    );
}

#[test]
fn truncated_in_later_instruction() {
    let mut bytes = vec![0x00u8, 0x05u8];
    bytes.extend_from_slice(&[0u8; 10]);
    assert_eq!(
        decode(&bytes),
        Err(DecodeError::TruncatedInputError {
            opcode: Opcode::MOD,
            needed: 64,
            available: 10,
            position: 1,
        })
    );
}

#[test]
fn unknown_opcode_fails() {
    assert_eq!(
        disassemble("07"),
        Err(DecodeError::UnknownOpcodeError { byte: 0x07, position: 0 })
    );
}

#[test]
fn unknown_opcode_at_later_position() {
    assert_eq!(
        disassemble("00ff"),
        Err(DecodeError::UnknownOpcodeError { byte: 0xff, position: 1 })
    );
}

#[test]
fn empty_input_decodes_to_nothing() {
    assert_eq!(disassemble(""), Ok(vec![]));
    assert_eq!(disassemble("0x"), Ok(vec![]));
    assert_eq!(decode(&vec![]), Ok(vec![]));
}

#[test]
fn odd_length_hex_is_invalid() {
    assert_eq!(disassemble("123"), Err(DecodeError::InvalidHexError));
}

#[test]
fn non_hex_digit_is_invalid() {
    assert_eq!(disassemble("0g"), Err(DecodeError::InvalidHexError));
}

#[test]
fn hex_digits_reach_the_decoder_as_bytes() {
    // "30" is ASCII '0'; were the text handed through undecoded, the first
    // byte seen by the decoder would be 0x33, not 0x30.
    assert_eq!(
        disassemble("30"),
        Err(DecodeError::UnknownOpcodeError { byte: 0x30, position: 0 })
    );
}

#[test]
fn uppercase_hex_accepted() {
    let words = [pad_word("AB"), pad_word("CD")];
    let encoded = encode_op("01", &words).to_uppercase();
    assert_eq!(disassemble(&encoded).unwrap(), vec![op(Opcode::ADD, &words)]);
}

#[test]
fn decode_operation_reports_next_position() {
    let mut bytes = vec![0x01u8];
    bytes.extend_from_slice(&[0u8; 64]);
    bytes.push(0x00);
    let (first, next) = disasm::decode_operation(&bytes, 0).unwrap();
    assert_eq!(first.opcode, Opcode::ADD);
    assert_eq!(next, 65);
    let (second, end) = disasm::decode_operation(&bytes, next).unwrap();
    assert_eq!(second.opcode, Opcode::STOP);
    assert_eq!(end, 66);
}

#[test]
fn lookup_table_entries() {
    assert_eq!(disasm::lookup(0x00), Some(Opcode::STOP));
    assert_eq!(disasm::lookup(0x06), Some(Opcode::SMOD));
    assert_eq!(disasm::lookup(0x07), None);
    assert_eq!(disasm::operand_word_count(Opcode::STOP), 0);
    assert_eq!(disasm::operand_word_count(Opcode::ADD), 2);
}

#[test]
fn concrete_add_then_stop_scenario() {
    let a = pad_word("64");
    let b = pad_word("1234567");
    let encoded = format!("0x01{}{}00", hex::encode(a), hex::encode(b));
    let result = disassemble(&encoded).unwrap();
    assert_eq!(result.len(), 2);
    assert_eq!(result[0].opcode, Opcode::ADD);
    assert_eq!(result[0].stack_input, vec![a, b]);
    assert_eq!(result[1].opcode, Opcode::STOP);
    assert!(result[1].stack_input.is_empty());
    assert_eq!(result[0].stack_input[0][31], 0x64);
    assert_eq!(result[0].stack_input[1][28..32], [0x01, 0x23, 0x45, 0x67]);
}
