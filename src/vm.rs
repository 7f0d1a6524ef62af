//! The stack machine: one memory for program and data, a stack of `i32`, a
//! program counter, secondary storage and a log of what was output.
//!
//! The machine does no input or output of its own. `step` executes one
//! instruction and tells the caller what the outside world has to see: a
//! character to print, a storage line to persist, a request for an input
//! line (answered by `step_with_input`), or the end of the run.
use vstd::prelude::*;
use crate::instruction::{decode_spec, Instruction, PUSH_OPCODE};
use crate::storage::Storage;
use crate::text::{chars_of, decimal_text, format_decimal, int_or_zero, parse_int_or_zero};

verus! {

/// The number of memory words.
pub const MEMORY_SIZE: usize = 512;

/// How the machine is run: `Debug` narrates each instruction, keeps a log of
/// the output and offers the inspector after each step; `Execute` does not.
#[derive(Debug, Clone, Copy, PartialEq, Eq, Structural)]
pub enum Mode {
    Execute,
    Debug,
}

/// What went wrong in a failed instruction, with the operand involved.
#[derive(Debug, Clone, Copy, PartialEq, Eq, Structural)]
pub enum FaultKind {
    /// The instruction needed more values than the stack held.
    StackUnderflow,
    /// `Div` or `Mod` with a divisor of 0; the dividend is kept.
    DivisionByZero(i32),
    /// `Push` in the last memory word, with no word left for its immediate.
    MissingImmediate,
    /// An address of `Load` or `Store` outside memory, or a negative jump
    /// target. A jump to a target at or past the end of memory is no fault:
    /// the next step finds the run finished.
    AddressOutOfRange(i32),
    /// `Output` of a value that is no Unicode scalar value.
    InvalidScalar(i32),
    /// A storage line number that is 0, negative or beyond the last line.
    StorageLineOutOfRange(i32),
}

/// A failed instruction: what went wrong, where, and the opcode found there.
#[derive(Debug, Clone, Copy, PartialEq, Eq, Structural)]
pub struct Fault {
    pub kind: FaultKind,
    pub pc: usize,
    pub opcode: i32,
}

/// Whether the machine can go on.
#[derive(Debug, Clone, Copy, PartialEq, Eq, Structural)]
pub enum Status {
    Running,
    Halted,
    Faulted(Fault),
}

/// The outcome of one step, and what it asks of the outside world.
#[derive(Debug, Clone, Copy, PartialEq, Eq, Structural)]
pub enum Step {
    /// The instruction ran; nothing to show.
    Executed(Instruction),
    /// `Output` ran: the character is to be shown.
    Printed(char),
    /// `Write` ran: this storage line changed and is to be persisted.
    Stored(usize),
    /// A number outside the opcode table was passed over.
    Skipped(i32),
    /// The instruction is `Input` and no line was given: nothing changed.
    NeedInput,
    /// `Halt` ran, now or before.
    Halted,
    /// The program counter is past the end of memory.
    Finished,
    /// The instruction failed, now or before.
    Faulted(Fault),
}

/// The state of a machine.
pub struct MachineView {
    pub memory: Seq<i32>,
    pub stack: Seq<i32>,
    pub pc: usize,
    pub storage: Seq<Seq<char>>,
    pub mode: Mode,
    pub output: Seq<char>,
    pub status: Status,
}

/// A Unicode scalar value: a code point that is not a surrogate.
pub open spec fn is_scalar(v: i32) -> bool {
    0 <= v <= 0x10FFFF && !(0xD800 <= v <= 0xDFFF)
}

/// The character whose code is `v`, a Unicode scalar value.
pub open spec fn char_of(v: i32) -> char {
    choose|c: char| #[trigger] code_point(c) == v
}

/// The code of a character.
pub open spec fn code_point(c: char) -> int {
    c as int
}

/// The value that a two-operand instruction pushes for `a` and `b`, where `b`
/// was on top. Arithmetic wraps around; a quotient or remainder that does
/// not fit wraps as well.
pub open spec fn binary_spec(ins: Instruction, a: i32, b: i32) -> i32 {
    match ins {
        Instruction::Add => vstd::wrapping::i32_specs::wrapping_add(a, b),
        Instruction::Sub => vstd::wrapping::i32_specs::wrapping_sub(a, b),
        Instruction::Mul => vstd::wrapping::i32_specs::wrapping_mul(a, b),
        Instruction::Div => match a.checked_div(b) {
            Some(q) => q,
            None => i32::MIN,
        },
        Instruction::Mod => match a.checked_rem(b) {
            Some(q) => q,
            None => 0,
        },
        Instruction::Equal => if a == b {
            1
        } else {
            0
        },
        Instruction::LessThan => if a < b {
            1
        } else {
            0
        },
        Instruction::And => if a != 0 && b != 0 {
            1
        } else {
            0
        },
        Instruction::Or => if a != 0 || b != 0 {
            1
        } else {
            0
        },
        _ => 0,
    }
}

/// The instructions that pop two values and push one.
pub open spec fn is_binary(ins: Instruction) -> bool {
    ins is Add || ins is Sub || ins is Mul || ins is Div || ins is Mod || ins is Equal
        || ins is LessThan || ins is And || ins is Or
}

/// The machine left as it was but for a fault of `kind` at its `pc`.
pub open spec fn fail_spec(m: MachineView, kind: FaultKind) -> (MachineView, Step) {
    let f = Fault { kind, pc: m.pc, opcode: m.memory[m.pc as int] };
    (MachineView { status: Status::Faulted(f), ..m }, Step::Faulted(f))
}

/// The machine with a new stack and the program counter past `ins`.
pub open spec fn advance_spec(m: MachineView, ins: Instruction, stack: Seq<i32>) -> MachineView {
    MachineView { stack, pc: (m.pc + ins.words_spec().len()) as usize, ..m }
}

/// What executing `ins` at the machine's `pc` does; `input` is the line
/// that `Input` reads, if one was given.
pub open spec fn execute_spec(m: MachineView, ins: Instruction, input: Option<Seq<char>>) -> (
    MachineView,
    Step,
) {
    let s = m.stack;
    let n = s.len();
    if is_binary(ins) {
        if n < 2 {
            fail_spec(m, FaultKind::StackUnderflow)
        } else if (ins is Div || ins is Mod) && s[n - 1] == 0 {
            fail_spec(m, FaultKind::DivisionByZero(s[n - 2]))
        } else {
            (
                advance_spec(m, ins, s.take(n - 2).push(binary_spec(ins, s[n - 2], s[n - 1]))),
                Step::Executed(ins),
            )
        }
    } else {
        match ins {
            Instruction::Push(v) => (advance_spec(m, ins, s.push(v)), Step::Executed(ins)),
            Instruction::Pop => if n < 1 {
                fail_spec(m, FaultKind::StackUnderflow)
            } else {
                (advance_spec(m, ins, s.drop_last()), Step::Executed(ins))
            },
            Instruction::Not => if n < 1 {
                fail_spec(m, FaultKind::StackUnderflow)
            } else {
                (
                    advance_spec(m, ins, s.drop_last().push((-1 - s[n - 1]) as i32)),
                    Step::Executed(ins),
                )
            },
            Instruction::JumpIfZero => if n < 2 {
                fail_spec(m, FaultKind::StackUnderflow)
            } else if s[n - 1] != 0 {
                (advance_spec(m, ins, s.take(n - 2)), Step::Executed(ins))
            } else if s[n - 2] < 0 {
                fail_spec(m, FaultKind::AddressOutOfRange(s[n - 2]))
            } else {
                (
                    MachineView { stack: s.take(n - 2), pc: s[n - 2] as usize, ..m },
                    Step::Executed(ins),
                )
            },
            Instruction::Load => if n < 1 {
                fail_spec(m, FaultKind::StackUnderflow)
            } else if !(0 <= s[n - 1] < m.memory.len()) {
                fail_spec(m, FaultKind::AddressOutOfRange(s[n - 1]))
            } else {
                (
                    advance_spec(m, ins, s.drop_last().push(m.memory[s[n - 1] as int])),
                    Step::Executed(ins),
                )
            },
            Instruction::Store => if n < 2 {
                fail_spec(m, FaultKind::StackUnderflow)
            } else if !(0 <= s[n - 1] < m.memory.len()) {
                fail_spec(m, FaultKind::AddressOutOfRange(s[n - 1]))
            } else {
                (
                    MachineView {
                        memory: m.memory.update(s[n - 1] as int, s[n - 2]),
                        ..advance_spec(m, ins, s.take(n - 2))
                    },
                    Step::Executed(ins),
                )
            },
            Instruction::Input => match input {
                None => (m, Step::NeedInput),
                Some(line) => (advance_spec(m, ins, s.push(int_or_zero(line))), Step::Executed(ins)),
            },
            Instruction::Output => if n < 1 {
                fail_spec(m, FaultKind::StackUnderflow)
            } else if !is_scalar(s[n - 1]) {
                fail_spec(m, FaultKind::InvalidScalar(s[n - 1]))
            } else {
                let c = char_of(s[n - 1]);
                (
                    MachineView {
                        output: if m.mode == Mode::Debug {
                            m.output.push(c)
                        } else {
                            m.output
                        },
                        ..advance_spec(m, ins, s.drop_last())
                    },
                    Step::Printed(c),
                )
            },
            Instruction::Read => if n < 1 {
                fail_spec(m, FaultKind::StackUnderflow)
            } else if !(1 <= s[n - 1] <= m.storage.len()) {
                fail_spec(m, FaultKind::StorageLineOutOfRange(s[n - 1]))
            } else {
                (
                    advance_spec(
                        m,
                        ins,
                        s.drop_last().push(int_or_zero(m.storage[s[n - 1] - 1])),
                    ),
                    Step::Executed(ins),
                )
            },
            Instruction::Write => if n < 2 {
                fail_spec(m, FaultKind::StackUnderflow)
            } else if !(1 <= s[n - 1] <= m.storage.len()) {
                fail_spec(m, FaultKind::StorageLineOutOfRange(s[n - 1]))
            } else {
                (
                    MachineView {
                        storage: m.storage.update(s[n - 1] - 1, decimal_text(s[n - 2])),
                        ..advance_spec(m, ins, s.take(n - 2))
                    },
                    Step::Stored(s[n - 1] as usize),
                )
            },
            Instruction::Halt => (MachineView { status: Status::Halted, ..m }, Step::Halted),
            _ => (m, Step::Finished),
        }
    }
}

/// One step of the machine: fetch the word at `pc`, decode it, execute it.
/// `input` is the line that an `Input` instruction reads, if one was given.
pub open spec fn step_spec(m: MachineView, input: Option<Seq<char>>) -> (MachineView, Step) {
    match m.status {
        Status::Halted => (m, Step::Halted),
        Status::Faulted(f) => (m, Step::Faulted(f)),
        Status::Running => if m.pc >= m.memory.len() {
            (m, Step::Finished)
        } else {
            let op = m.memory[m.pc as int];
            if op == PUSH_OPCODE && m.pc + 1 >= m.memory.len() {
                fail_spec(m, FaultKind::MissingImmediate)
            } else {
                let imm = if op == PUSH_OPCODE {
                    m.memory[m.pc + 1]
                } else {
                    0
                };
                match decode_spec(op, imm) {
                    Some(ins) => execute_spec(m, ins, input),
                    None => (MachineView { pc: (m.pc + 1) as usize, ..m }, Step::Skipped(op)),
                }
            }
        },
    }
}

/// The state of a machine that starts on the memory image `image`.
pub open spec fn initial_spec(image: Seq<i32>, mode: Mode, storage: Seq<Seq<char>>) -> MachineView {
    MachineView {
        memory: Seq::new(
            MEMORY_SIZE as nat,
            |i: int|
                if i < image.len() {
                    image[i]
                } else {
                    0
                },
        ),
        stack: Seq::empty(),
        pc: 0,
        storage,
        mode,
        output: Seq::empty(),
        status: Status::Running,
    }
}

/// The characters of an input line, if one was given.
pub open spec fn line_view(input: Option<&Vec<char>>) -> Option<Seq<char>> {
    match input {
        Some(l) => Some(l@),
        None => None,
    }
}

/// Relies on `char::from_u32`: a character exactly for a Unicode scalar
/// value, and then the character of that code.
#[verifier::external_body]
fn char_from_code(v: u32) -> (r: Option<char>)
    ensures
        r is Some <==> (v <= 0x10FFFF && !(0xD800 <= v <= 0xDFFF)),
        r matches Some(c) ==> c as int == v as int,
{
    char::from_u32(v)
}

/// The value that a two-operand instruction pushes for `a` and `b`.
fn binary(ins: Instruction, a: i32, b: i32) -> (r: i32)
    requires
        is_binary(ins),
        (ins is Div || ins is Mod) ==> b != 0,
    ensures
        r == binary_spec(ins, a, b),
{
    match ins {
        Instruction::Add => a.wrapping_add(b),
        Instruction::Sub => a.wrapping_sub(b),
        Instruction::Mul => a.wrapping_mul(b),
        Instruction::Div => match a.checked_div(b) {
            Some(q) => q,
            None => i32::MIN,
        },
        Instruction::Mod => match a.checked_rem(b) {
            Some(q) => q,
            None => 0,
        },
        Instruction::Equal => if a == b {
            1
        } else {
            0
        },
        Instruction::LessThan => if a < b {
            1
        } else {
            0
        },
        Instruction::And => if a != 0 && b != 0 {
            1
        } else {
            0
        },
        _ => if a != 0 || b != 0 {
            1
        } else {
            0
        },
    }
}

/// A virtual machine: memory, stack, program counter, storage and output log.
pub struct VirtualMachine {
    memory: Vec<i32>,
    stack: Vec<i32>,
    storage: Storage,
    pc: usize,
    mode: Mode,
    output: Vec<char>,
    status: Status,
}

impl View for VirtualMachine {
    type V = MachineView;

    closed spec fn view(&self) -> MachineView {
        MachineView {
            memory: self.memory@,
            stack: self.stack@,
            pc: self.pc,
            storage: self.storage@,
            mode: self.mode,
            output: self.output@,
            status: self.status,
        }
    }
}

impl VirtualMachine {
    /// A machine whose memory holds `image` followed by zeros, with an empty
    /// stack, `pc` at 0, and `storage` as its secondary storage; `None` where
    /// the image does not fit in memory.
    pub fn new(image: &Vec<i32>, mode: Mode, storage: Storage) -> (r: Option<VirtualMachine>)
        ensures
            r is Some <==> image@.len() <= MEMORY_SIZE,
            r matches Some(vm) ==> vm@ == initial_spec(image@, mode, storage@),
    {
        if image.len() > MEMORY_SIZE {
            return None;
        }
        let mut memory: Vec<i32> = Vec::new();
        let mut i: usize = 0;
        while i < MEMORY_SIZE
            invariant
                i <= MEMORY_SIZE,
                image@.len() <= MEMORY_SIZE,
                memory@ == initial_spec(image@, mode, storage@).memory.take(i as int),
            decreases MEMORY_SIZE - i,
        {
            let w = if i < image.len() {
                image[i]
            } else {
                0
            };
            memory.push(w);
            i = i + 1;
            assert(memory@ =~= initial_spec(image@, mode, storage@).memory.take(i as int));
        }
        assert(memory@ =~= initial_spec(image@, mode, storage@).memory);
        let vm = VirtualMachine {
            memory,
            stack: Vec::new(),
            storage,
            pc: 0,
            mode,
            output: Vec::new(),
            status: Status::Running,
        };
        assert(vm@ =~= initial_spec(image@, mode, storage@));
        Some(vm)
    }

    pub fn pc(&self) -> (r: usize)
        ensures
            r == self@.pc,
    {
        self.pc
    }

    pub fn mode(&self) -> (r: Mode)
        ensures
            r == self@.mode,
    {
        self.mode
    }

    pub fn status(&self) -> (r: Status)
        ensures
            r == self@.status,
    {
        self.status
    }

    pub fn memory(&self) -> (r: &Vec<i32>)
        ensures
            r@ == self@.memory,
    {
        &self.memory
    }

    pub fn stack(&self) -> (r: &Vec<i32>)
        ensures
            r@ == self@.stack,
    {
        &self.stack
    }

    pub fn storage(&self) -> (r: &Storage)
        ensures
            r@ == self@.storage,
    {
        &self.storage
    }

    /// The characters output so far in `Debug` mode.
    pub fn output(&self) -> (r: &Vec<char>)
        ensures
            r@ == self@.output,
    {
        &self.output
    }

    /// Records a fault of `kind` at `pc`; nothing else changes.
    fn fail(&mut self, kind: FaultKind) -> (r: Step)
        requires
            old(self).pc < old(self).memory@.len(),
        ensures
            (final(self)@, r) == fail_spec(old(self)@, kind),
    {
        let f = Fault { kind, pc: self.pc, opcode: self.memory[self.pc] };
        self.status = Status::Faulted(f);
        Step::Faulted(f)
    }

    /// Removes the top of the stack.
    fn pop(&mut self) -> (r: i32)
        requires
            old(self).stack@.len() >= 1,
        ensures
            r == old(self)@.stack.last(),
            final(self)@ == (MachineView { stack: old(self)@.stack.drop_last(), ..old(self)@ }),
    {
        let r = self.stack.pop();
        match r {
            Some(v) => v,
            None => 0,
        }
    }

    /// Pushes `v` and moves `pc` past `ins`.
    fn finish(&mut self, ins: Instruction, v: i32) -> (r: Step)
        requires
            old(self).pc + ins.words_spec().len() <= old(self).memory@.len(),
        ensures
            final(self)@ == advance_spec(old(self)@, ins, old(self)@.stack.push(v)),
            r == Step::Executed(ins),
    {
        // a vector's length fits in usize, so `pc` cannot overflow
        let _ = self.memory.len();
        self.stack.push(v);
        self.pc = self.pc + if let Instruction::Push(_) = ins {
            2
        } else {
            1
        };
        Step::Executed(ins)
    }

    /// Executes `ins`, found at `pc`; `input` is the line that `Input` reads.
    #[verifier::rlimit(50)]
    fn execute(&mut self, ins: Instruction, input: Option<&Vec<char>>) -> (r: Step)
        requires
            old(self).status == Status::Running,
            old(self).pc + ins.words_spec().len() <= old(self).memory@.len(),
        ensures
            (final(self)@, r) == execute_spec(
                old(self)@,
                ins,
                line_view(input),
            ),
    {
        let n = self.stack.len();
        // a vector's length fits in usize, so `pc` cannot overflow
        let _ = self.memory.len();
        let ghost s = self@.stack;
        match ins {
            Instruction::Add | Instruction::Sub | Instruction::Mul | Instruction::Div
            | Instruction::Mod | Instruction::Equal | Instruction::LessThan | Instruction::And
            | Instruction::Or => {
                if n < 2 {
                    return self.fail(FaultKind::StackUnderflow);
                }
                let b = self.stack[n - 1];
                let a = self.stack[n - 2];
                if (ins == Instruction::Div || ins == Instruction::Mod) && b == 0 {
                    return self.fail(FaultKind::DivisionByZero(a));
                }
                self.pop();
                self.pop();
                assert(s.drop_last().drop_last() =~= s.take(n - 2));
                self.finish(ins, binary(ins, a, b))
            },
            Instruction::Push(v) => self.finish(ins, v),
            Instruction::Pop => {
                if n < 1 {
                    return self.fail(FaultKind::StackUnderflow);
                }
                self.pop();
                self.pc = self.pc + 1;
                Step::Executed(ins)
            },
            Instruction::Not => {
                if n < 1 {
                    return self.fail(FaultKind::StackUnderflow);
                }
                let a = self.pop();
                let c = !a;
                assert(c == (-1 - a) as i32) by (bit_vector)
                    requires
                        c == !a,
                ;
                self.finish(ins, c)
            },
            Instruction::JumpIfZero => {
                if n < 2 {
                    return self.fail(FaultKind::StackUnderflow);
                }
                let condition = self.stack[n - 1];
                let target = self.stack[n - 2];
                if condition == 0 && target < 0 {
                    return self.fail(FaultKind::AddressOutOfRange(target));
                }
                self.pop();
                self.pop();
                assert(s.drop_last().drop_last() =~= s.take(n - 2));
                if condition == 0 {
                    self.pc = target as usize;
                } else {
                    self.pc = self.pc + 1;
                }
                Step::Executed(ins)
            },
            Instruction::Load => {
                if n < 1 {
                    return self.fail(FaultKind::StackUnderflow);
                }
                let index = self.stack[n - 1];
                if index < 0 || index as usize >= self.memory.len() {
                    return self.fail(FaultKind::AddressOutOfRange(index));
                }
                self.pop();
                let v = self.memory[index as usize];
                self.finish(ins, v)
            },
            Instruction::Store => {
                if n < 2 {
                    return self.fail(FaultKind::StackUnderflow);
                }
                let index = self.stack[n - 1];
                let value = self.stack[n - 2];
                if index < 0 || index as usize >= self.memory.len() {
                    return self.fail(FaultKind::AddressOutOfRange(index));
                }
                self.pop();
                self.pop();
                assert(s.drop_last().drop_last() =~= s.take(n - 2));
                self.memory.set(index as usize, value);
                self.pc = self.pc + 1;
                Step::Executed(ins)
            },
            Instruction::Input => match input {
                None => Step::NeedInput,
                Some(line) => {
                    let v = parse_int_or_zero(line.as_slice());
                    self.finish(ins, v)
                },
            },
            Instruction::Output => {
                if n < 1 {
                    return self.fail(FaultKind::StackUnderflow);
                }
                let value = self.stack[n - 1];
                if value < 0 {
                    return self.fail(FaultKind::InvalidScalar(value));
                }
                match char_from_code(value as u32) {
                    None => self.fail(FaultKind::InvalidScalar(value)),
                    Some(c) => {
                        assert(code_point(c) == value);
                        assert(c == char_of(value));
                        self.pop();
                        if self.mode == Mode::Debug {
                            self.output.push(c);
                        }
                        self.pc = self.pc + 1;
                        Step::Printed(c)
                    },
                }
            },
            Instruction::Read => {
                if n < 1 {
                    return self.fail(FaultKind::StackUnderflow);
                }
                let line_number = self.stack[n - 1];
                if line_number < 1 || line_number as usize > self.storage.len() {
                    return self.fail(FaultKind::StorageLineOutOfRange(line_number));
                }
                self.pop();
                let v = match self.storage.read_line(line_number as usize) {
                    Ok(line) => parse_int_or_zero(line.as_slice()),
                    Err(_) => 0,
                };
                self.finish(ins, v)
            },
            Instruction::Write => {
                if n < 2 {
                    return self.fail(FaultKind::StackUnderflow);
                }
                let line_number = self.stack[n - 1];
                let value = self.stack[n - 2];
                if line_number < 1 || line_number as usize > self.storage.len() {
                    return self.fail(FaultKind::StorageLineOutOfRange(line_number));
                }
                self.pop();
                self.pop();
                assert(s.drop_last().drop_last() =~= s.take(n - 2));
                let _ = self.storage.write_line(line_number as usize, format_decimal(value));
                self.pc = self.pc + 1;
                Step::Stored(line_number as usize)
            },
            Instruction::Halt => {
                self.status = Status::Halted;
                Step::Halted
            },
        }
    }

    fn advance(&mut self, input: Option<&Vec<char>>) -> (r: Step)
        ensures
            (final(self)@, r) == step_spec(
                old(self)@,
                line_view(input),
            ),
    {
        match self.status {
            Status::Halted => return Step::Halted,
            Status::Faulted(f) => return Step::Faulted(f),
            Status::Running => {},
        }
        if self.pc >= self.memory.len() {
            return Step::Finished;
        }
        let op = self.memory[self.pc];
        if op == PUSH_OPCODE && self.pc + 1 >= self.memory.len() {
            return self.fail(FaultKind::MissingImmediate);
        }
        let imm = if op == PUSH_OPCODE {
            self.memory[self.pc + 1]
        } else {
            0
        };
        match Instruction::decode(op, imm) {
            Some(ins) => self.execute(ins, input),
            None => {
                self.pc = self.pc + 1;
                Step::Skipped(op)
            },
        }
    }

    /// Runs one instruction. An `Input` instruction is not run: the step
    /// says `NeedInput`, and `step_with_input` runs it with a line.
    pub fn step(&mut self) -> (r: Step)
        ensures
            (final(self)@, r) == step_spec(old(self)@, None),
    {
        self.advance(None)
    }

    /// Runs one instruction; an `Input` instruction reads `line`, whose
    /// trimmed text is taken as a decimal integer, or as 0 where it is none.
    pub fn step_with_input(&mut self, line: &str) -> (r: Step)
        ensures
            (final(self)@, r) == step_spec(old(self)@, Some(line@)),
    {
        let l = chars_of(line);
        self.advance(Some(&l))
    }
}

} // verus!
