use simple_vm::assembly::{assemble, assembly};
use simple_vm::instruction::Instruction;

#[test]
fn assembles_push_add_halt() {
    let words = assembly("PUSH 5\nPUSH 3\nADD\nHALT".to_string());
    assert_eq!(words, vec![5, 5, 5, 3, 0, 19]);
}

#[test]
fn mnemonics_ignore_case() {
    let words = assembly("push 1\nPuSh 2\nsub\nHalt".to_string());
    assert_eq!(words, vec![5, 1, 5, 2, 1, 19]);
}

#[test]
fn every_mnemonic_has_its_opcode() {
    let source = "add\nsub\nmul\ndiv\nmod\npop\nequal\nlessthan\nand\nor\nnot\njumpifzero\nload\nstore\ninput\noutput\nread\nwrite\nhalt";
    let words = assembly(source.to_string());
    assert_eq!(
        words,
        vec![0, 1, 2, 3, 4, 6, 7, 8, 9, 10, 11, 12, 13, 14, 15, 16, 17, 18, 19]
    );
}

#[test]
fn jump_is_another_name_for_jump_if_zero() {
    assert_eq!(assembly("jump".to_string()), vec![12]);
}

#[test]
fn comments_and_blank_lines_give_no_words() {
    let source = "; a program\n\n   \npush 7 ; seven\n;only a comment\noutput";
    assert_eq!(assembly(source.to_string()), vec![5, 7, 16]);
}

#[test]
fn push_operand_defaults_to_zero() {
    assert_eq!(assembly("push".to_string()), vec![5, 0]);
    assert_eq!(assembly("push abc".to_string()), vec![5, 0]);
    assert_eq!(assembly("push 99999999999".to_string()), vec![5, 0]);
}

#[test]
fn push_operand_takes_a_sign() {
    assert_eq!(assembly("push -12\npush +4".to_string()), vec![5, -12, 5, 4]);
    assert_eq!(
        assembly("push -2147483648\npush 2147483647".to_string()),
        vec![5, i32::MIN, 5, i32::MAX]
    );
}

#[test]
fn tokens_split_at_tabs_and_full_width_spaces() {
    assert_eq!(assembly("\tpush\t3".to_string()), vec![5, 3]);
    assert_eq!(assembly("push\u{3000}4".to_string()), vec![5, 4]);
}

#[test]
fn windows_line_endings_are_blank() {
    assert_eq!(assembly("push 1\r\nhalt\r\n".to_string()), vec![5, 1, 19]);
}

#[test]
fn unknown_mnemonic_is_reported_and_skipped() {
    let a = assemble("push 1\nfrobnicate\nhalt\nnop 3");
    assert_eq!(a.words, vec![5, 1, 19]);
    assert_eq!(a.unknown, vec![1, 3]);
}

#[test]
fn empty_source_gives_no_words() {
    let a = assemble("");
    assert!(a.words.is_empty());
    assert!(a.unknown.is_empty());
}

#[test]
fn instruction_words_and_decode_agree() {
    assert_eq!(Instruction::Push(-3).words(), vec![5, -3]);
    assert_eq!(Instruction::Halt.words(), vec![19]);
    assert_eq!(Instruction::decode(5, 42), Some(Instruction::Push(42)));
    assert_eq!(Instruction::decode(12, 0), Some(Instruction::JumpIfZero));
    assert_eq!(Instruction::decode(20, 0), None);
    assert_eq!(Instruction::decode(-1, 0), None);
    assert_eq!(Instruction::Store.opcode(), 14);
}

#[test]
fn tokens_split_at_no_break_spaces() {
    assert_eq!(assembly("PUSH\u{A0}5".to_string()), vec![5, 5]);
    assert_eq!(assembly("\u{A0}push\u{2009}-2\u{202F}".to_string()), vec![5, -2]);
    assert_eq!(assembly("\u{1680}halt".to_string()), vec![19]);
}
