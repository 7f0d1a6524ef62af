use simple_vm::assembly::assembly;
use simple_vm::instruction::Instruction;
use simple_vm::storage::{read_specific_line, Storage};
use simple_vm::vm::{Fault, FaultKind, Mode, Status, Step, VirtualMachine};

fn machine(source: &str, mode: Mode) -> VirtualMachine {
    VirtualMachine::new(&assembly(source.to_string()), mode, Storage::new()).unwrap()
}

fn machine_with_storage(source: &str, storage: &str) -> VirtualMachine {
    VirtualMachine::new(&assembly(source.to_string()), Mode::Execute, Storage::parse(storage))
        .unwrap()
}

/// Steps until a step other than an executed or skipped instruction.
fn run(vm: &mut VirtualMachine) -> Step {
    for _ in 0..10_000 {
        match vm.step() {
            Step::Executed(_) | Step::Skipped(_) => {}
            other => return other,
        }
    }
    panic!("the program did not stop");
}

#[test]
fn push_push_add_leaves_eight_before_halt() {
    let mut vm = machine("PUSH 5\nPUSH 3\nADD\nHALT", Mode::Execute);
    assert_eq!(&vm.memory()[0..6], &[5, 5, 5, 3, 0, 19]);
    assert_eq!(vm.step(), Step::Executed(Instruction::Push(5)));
    assert_eq!(vm.pc(), 2);
    assert_eq!(vm.step(), Step::Executed(Instruction::Push(3)));
    assert_eq!(vm.step(), Step::Executed(Instruction::Add));
    assert_eq!(vm.stack(), &vec![8]);
    assert_eq!(vm.pc(), 5);
    assert_eq!(vm.step(), Step::Halted);
    assert_eq!(vm.stack(), &vec![8]);
    assert_eq!(vm.status(), Status::Halted);
    assert_eq!(vm.step(), Step::Halted);
}

#[test]
fn new_machine_is_zero_padded() {
    let vm = machine("push 1", Mode::Debug);
    assert_eq!(vm.memory().len(), 512);
    assert_eq!(vm.memory()[2], 0);
    assert!(vm.stack().is_empty());
    assert_eq!(vm.pc(), 0);
    assert_eq!(vm.mode(), Mode::Debug);
    assert_eq!(vm.status(), Status::Running);
}

#[test]
fn image_larger_than_memory_is_refused() {
    assert!(VirtualMachine::new(&vec![6; 513], Mode::Execute, Storage::new()).is_none());
    assert!(VirtualMachine::new(&vec![6; 512], Mode::Execute, Storage::new()).is_some());
}

#[test]
fn pushes_then_as_many_pops_leave_an_empty_stack() {
    let mut vm = machine("push 1\npush 2\npush 3\npop\npop\npop\nhalt", Mode::Execute);
    assert_eq!(run(&mut vm), Step::Halted);
    assert!(vm.stack().is_empty());
}

#[test]
fn pop_of_an_empty_stack_is_an_underflow() {
    let mut vm = machine("pop", Mode::Execute);
    assert_eq!(
        vm.step(),
        Step::Faulted(Fault { kind: FaultKind::StackUnderflow, pc: 0, opcode: 6 })
    );
    assert_eq!(
        vm.step(),
        Step::Faulted(Fault { kind: FaultKind::StackUnderflow, pc: 0, opcode: 6 })
    );
}

#[test]
fn binary_operator_with_one_operand_is_an_underflow() {
    let mut vm = machine("push 1\nadd", Mode::Execute);
    assert_eq!(
        run(&mut vm),
        Step::Faulted(Fault { kind: FaultKind::StackUnderflow, pc: 2, opcode: 0 })
    );
    assert_eq!(vm.stack(), &vec![1]);
}

#[test]
fn division_by_zero_fails() {
    let mut vm = machine("push 7\npush 0\ndiv", Mode::Execute);
    assert_eq!(
        run(&mut vm),
        Step::Faulted(Fault { kind: FaultKind::DivisionByZero(7), pc: 4, opcode: 3 })
    );
}

#[test]
fn modulo_by_zero_fails() {
    let mut vm = machine("push 7\npush 0\nmod", Mode::Execute);
    assert_eq!(
        run(&mut vm),
        Step::Faulted(Fault { kind: FaultKind::DivisionByZero(7), pc: 4, opcode: 4 })
    );
}

#[test]
fn operand_order_is_a_then_b() {
    let mut vm = machine(
        "push 10\npush 3\nsub\npush 10\npush 3\ndiv\npush 10\npush 3\nmod\npush -7\npush 2\ndiv\npush -7\npush 2\nmod\nhalt",
        Mode::Execute,
    );
    assert_eq!(run(&mut vm), Step::Halted);
    assert_eq!(vm.stack(), &vec![7, 3, 1, -3, -1]);
}

#[test]
fn arithmetic_wraps_around() {
    let mut vm = machine(
        "push 2147483647\npush 1\nadd\npush -2147483648\npush 1\nsub\npush 65536\npush 65536\nmul\npush -2147483648\npush -1\ndiv\npush -2147483648\npush -1\nmod\nhalt",
        Mode::Execute,
    );
    assert_eq!(run(&mut vm), Step::Halted);
    assert_eq!(vm.stack(), &vec![i32::MIN, i32::MAX, 0, i32::MIN, 0]);
}

#[test]
fn comparisons_and_logic_push_one_or_zero() {
    let mut vm = machine(
        "push 4\npush 4\nequal\npush 4\npush 5\nequal\npush 3\npush 5\nlessthan\npush 5\npush 3\nlessthan\npush 2\npush 0\nand\npush 2\npush 3\nand\npush 0\npush 0\nor\npush 0\npush 9\nor\nhalt",
        Mode::Execute,
    );
    assert_eq!(run(&mut vm), Step::Halted);
    assert_eq!(vm.stack(), &vec![1, 0, 1, 0, 0, 1, 0, 1]);
}

#[test]
fn not_is_the_bitwise_complement() {
    let mut vm = machine("push 5\nnot\npush 0\nnot\npush -2147483648\nnot\nhalt", Mode::Execute);
    assert_eq!(run(&mut vm), Step::Halted);
    assert_eq!(vm.stack(), &vec![-6, -1, i32::MAX]);
}

#[test]
fn store_then_load_gives_the_value_back() {
    let mut vm = machine("push 42\npush 300\nstore\npush 300\nload\nhalt", Mode::Execute);
    assert_eq!(run(&mut vm), Step::Halted);
    assert_eq!(vm.stack(), &vec![42]);
    assert_eq!(vm.memory()[300], 42);
}

#[test]
fn store_can_rewrite_the_program() {
    // overwrites the `pop` at address 5 with `halt`
    let mut vm = machine("push 19\npush 5\nstore\npop", Mode::Execute);
    assert_eq!(run(&mut vm), Step::Halted);
    assert!(vm.stack().is_empty());
}

#[test]
fn load_out_of_range_fails() {
    let mut vm = machine("push 512\nload", Mode::Execute);
    assert_eq!(
        run(&mut vm),
        Step::Faulted(Fault { kind: FaultKind::AddressOutOfRange(512), pc: 2, opcode: 13 })
    );
    let mut vm = machine("push 1\npush -1\nstore", Mode::Execute);
    assert_eq!(
        run(&mut vm),
        Step::Faulted(Fault { kind: FaultKind::AddressOutOfRange(-1), pc: 4, opcode: 14 })
    );
}

#[test]
fn jump_if_zero_jumps_to_the_target() {
    let mut vm = machine("push 7\npush 0\njumpifzero\npush 1\nhalt", Mode::Execute);
    vm.step();
    vm.step();
    assert_eq!(vm.step(), Step::Executed(Instruction::JumpIfZero));
    assert_eq!(vm.pc(), 7);
    assert!(vm.stack().is_empty());
    assert_eq!(vm.step(), Step::Halted);
}

#[test]
fn jump_if_zero_falls_through_on_nonzero() {
    let mut vm = machine("push 7\npush 3\njumpifzero\npush 1\nhalt", Mode::Execute);
    vm.step();
    vm.step();
    assert_eq!(vm.step(), Step::Executed(Instruction::JumpIfZero));
    assert_eq!(vm.pc(), 5);
    assert_eq!(run(&mut vm), Step::Halted);
    assert_eq!(vm.stack(), &vec![1]);
}

#[test]
fn jump_past_memory_finishes_the_run() {
    let mut vm = machine("push 600\npush 0\njump", Mode::Execute);
    assert_eq!(run(&mut vm), Step::Finished);
    assert_eq!(vm.step(), Step::Finished);
    let mut vm = machine("push -1\npush 0\njump", Mode::Execute);
    assert_eq!(
        run(&mut vm),
        Step::Faulted(Fault { kind: FaultKind::AddressOutOfRange(-1), pc: 4, opcode: 12 })
    );
}

#[test]
fn unknown_opcode_is_skipped() {
    let mut image = vec![77, -3];
    image.extend(assembly("push 1\nhalt".to_string()));
    let mut vm = VirtualMachine::new(&image, Mode::Execute, Storage::new()).unwrap();
    assert_eq!(vm.step(), Step::Skipped(77));
    assert_eq!(vm.pc(), 1);
    assert_eq!(vm.step(), Step::Skipped(-3));
    assert_eq!(run(&mut vm), Step::Halted);
    assert_eq!(vm.stack(), &vec![1]);
}

#[test]
fn push_in_the_last_word_has_no_immediate() {
    let mut image = vec![99; 511];
    image.push(5);
    let mut vm = VirtualMachine::new(&image, Mode::Execute, Storage::new()).unwrap();
    assert_eq!(
        run(&mut vm),
        Step::Faulted(Fault { kind: FaultKind::MissingImmediate, pc: 511, opcode: 5 })
    );
}

#[test]
fn input_waits_for_a_line() {
    let mut vm = machine("input\ninput\ninput\nhalt", Mode::Execute);
    assert_eq!(vm.step(), Step::NeedInput);
    assert_eq!(vm.pc(), 0);
    assert_eq!(vm.step_with_input(" 42 \n"), Step::Executed(Instruction::Input));
    assert_eq!(vm.step_with_input("not a number"), Step::Executed(Instruction::Input));
    assert_eq!(vm.step_with_input("\u{A0}-5"), Step::Executed(Instruction::Input));
    assert_eq!(vm.step_with_input("ignored"), Step::Halted);
    assert_eq!(vm.stack(), &vec![42, 0, -5]);
}

#[test]
fn output_in_execute_mode_prints_the_character_only() {
    let mut vm = machine("push 65\noutput\nhalt", Mode::Execute);
    assert_eq!(run(&mut vm), Step::Printed('A'));
    assert!(vm.output().is_empty());
    assert!(vm.stack().is_empty());
}

#[test]
fn output_in_debug_mode_is_logged() {
    let mut vm = machine("push 65\noutput\npush 10\noutput\npush 12354\noutput\nhalt", Mode::Debug);
    assert_eq!(run(&mut vm), Step::Printed('A'));
    assert_eq!(vm.output(), &vec!['A']);
    assert_eq!(vm.output_lines(), vec!["A".to_string()]);
    assert_eq!(run(&mut vm), Step::Printed('\n'));
    assert_eq!(run(&mut vm), Step::Printed('あ'));
    assert_eq!(vm.output_lines(), vec!["A".to_string(), "あ".to_string()]);
}

#[test]
fn output_of_a_surrogate_fails() {
    let mut vm = machine("push 55296\noutput", Mode::Execute);
    assert_eq!(
        run(&mut vm),
        Step::Faulted(Fault { kind: FaultKind::InvalidScalar(55296), pc: 2, opcode: 16 })
    );
    let mut vm = machine("push -65\noutput", Mode::Execute);
    assert_eq!(
        run(&mut vm),
        Step::Faulted(Fault { kind: FaultKind::InvalidScalar(-65), pc: 2, opcode: 16 })
    );
}

#[test]
fn write_then_read_through_storage() {
    let mut vm = machine_with_storage("push -321\npush 2\nwrite\npush 2\nread\nhalt", "1\n2\n3\n");
    assert_eq!(run(&mut vm), Step::Stored(2));
    assert_eq!(read_specific_line(vm.storage(), 2), Ok("-321".to_string()));
    assert_eq!(run(&mut vm), Step::Halted);
    assert_eq!(vm.stack(), &vec![-321]);
    assert_eq!(vm.storage().len(), 3);
    assert_eq!(vm.storage().to_text(), "1\n-321\n3\n");
}

#[test]
fn read_of_a_line_that_is_no_number_gives_zero() {
    let mut vm = machine_with_storage("push 1\nread\npush 2\nread\nhalt", "hello\n  17 \n");
    assert_eq!(run(&mut vm), Step::Halted);
    assert_eq!(vm.stack(), &vec![0, 17]);
}

#[test]
fn write_beyond_the_last_line_fails() {
    let mut vm = machine_with_storage("push 5\npush 4\nwrite", "1\n2\n3\n");
    assert_eq!(
        run(&mut vm),
        Step::Faulted(Fault { kind: FaultKind::StorageLineOutOfRange(4), pc: 4, opcode: 18 })
    );
    assert_eq!(vm.storage().len(), 3);
    assert_eq!(vm.storage().to_text(), "1\n2\n3\n");
}

#[test]
fn read_of_line_zero_fails() {
    let mut vm = machine_with_storage("push 0\nread", "1\n");
    assert_eq!(
        run(&mut vm),
        Step::Faulted(Fault { kind: FaultKind::StorageLineOutOfRange(0), pc: 2, opcode: 17 })
    );
}
