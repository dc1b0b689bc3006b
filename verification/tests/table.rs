use disasm::types::{Opcode, Operation};

#[test]
fn new_has_no_immediate_data() {
    let o = Operation::new(Opcode::JUMPDEST);
    assert_eq!(o.opcode, Opcode::JUMPDEST);
    assert!(o.stack_input.is_empty());
}

#[test]
fn with_words_splits_stream_in_order() {
    let mut bytes = vec![0u8; 64];
    bytes[31] = 0x11;
    bytes[63] = 0x22;
    let o = Operation::new(Opcode::ADDMOD).with_words(2, &bytes);
    assert_eq!(o.opcode, Opcode::ADDMOD);
    assert_eq!(o.stack_input.len(), 2);
    assert_eq!(o.stack_input[0][31], 0x11);
    assert_eq!(o.stack_input[1][31], 0x22);
}

#[test]
fn with_words_zero_keeps_operation() {
    let o = Operation::new(Opcode::PC).with_words(0, &[]);
    assert_eq!(o.opcode, Opcode::PC);
    assert!(o.stack_input.is_empty());
}

#[test]
fn with_bytes_right_justifies_under_zero_padding() {
    let o = Operation::new(Opcode::PUSH4).with_bytes(4, &[0xde, 0xad, 0xbe, 0xef]);
    assert_eq!(o.stack_input.len(), 1);
    let word = o.stack_input[0];
    assert_eq!(&word[..28], &[0u8; 28]);
    assert_eq!(&word[28..], &[0xde, 0xad, 0xbe, 0xef]);
}

#[test]
fn with_bytes_full_word() {
    let data = [0xabu8; 32];
    let o = Operation::new(Opcode::PUSH32).with_bytes(32, &data);
    assert_eq!(o.stack_input.len(), 1);
    assert_eq!(o.stack_input[0], data);
}

#[test]
fn with_bytes_zero_keeps_operation() {
    let o = Operation::new(Opcode::PUSH1).with_bytes(0, &[]);
    assert_eq!(o.opcode, Opcode::PUSH1);
    assert!(o.stack_input.is_empty());
}

#[test]
fn operations_compare_by_tag_and_words() {
    let a = Operation::new(Opcode::PUSH1).with_bytes(1, &[0x01]);
    let b = Operation::new(Opcode::PUSH1).with_bytes(1, &[0x01]);
    let c = Operation::new(Opcode::PUSH1).with_bytes(1, &[0x02]);
    assert_eq!(a, b);
    assert_ne!(a, c);
}
