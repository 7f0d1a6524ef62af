//! The instruction set and its numeric encoding.
use vstd::prelude::*;

verus! {

/// Opcode of `Push`, the one instruction that carries an immediate word.
pub const PUSH_OPCODE: i32 = 5;

/// One machine instruction. Each is encoded as its opcode; `Push` is followed
/// by its immediate value in the next memory word.
#[derive(Debug, Clone, Copy, PartialEq, Eq, Structural)]
pub enum Instruction {
    Add,
    Sub,
    Mul,
    Div,
    Mod,
    Push(i32),
    Pop,
    Equal,
    LessThan,
    And,
    Or,
    Not,
    JumpIfZero,
    Load,
    Store,
    Input,
    Output,
    Read,
    Write,
    Halt,
}

/// The instruction that opcode `op` stands for, a `Push` taking `immediate`;
/// `None` for a number outside the table.
pub open spec fn decode_spec(op: i32, immediate: i32) -> Option<Instruction> {
    if op == 0 {
        Some(Instruction::Add)
    } else if op == 1 {
        Some(Instruction::Sub)
    } else if op == 2 {
        Some(Instruction::Mul)
    } else if op == 3 {
        Some(Instruction::Div)
    } else if op == 4 {
        Some(Instruction::Mod)
    } else if op == 5 {
        Some(Instruction::Push(immediate))
    } else if op == 6 {
        Some(Instruction::Pop)
    } else if op == 7 {
        Some(Instruction::Equal)
    } else if op == 8 {
        Some(Instruction::LessThan)
    } else if op == 9 {
        Some(Instruction::And)
    } else if op == 10 {
        Some(Instruction::Or)
    } else if op == 11 {
        Some(Instruction::Not)
    } else if op == 12 {
        Some(Instruction::JumpIfZero)
    } else if op == 13 {
        Some(Instruction::Load)
    } else if op == 14 {
        Some(Instruction::Store)
    } else if op == 15 {
        Some(Instruction::Input)
    } else if op == 16 {
        Some(Instruction::Output)
    } else if op == 17 {
        Some(Instruction::Read)
    } else if op == 18 {
        Some(Instruction::Write)
    } else if op == 19 {
        Some(Instruction::Halt)
    } else {
        None
    }
}

impl Instruction {
    pub open spec fn opcode_spec(&self) -> i32 {
        match self {
            Instruction::Add => 0,
            Instruction::Sub => 1,
            Instruction::Mul => 2,
            Instruction::Div => 3,
            Instruction::Mod => 4,
            Instruction::Push(_) => 5,
            Instruction::Pop => 6,
            Instruction::Equal => 7,
            Instruction::LessThan => 8,
            Instruction::And => 9,
            Instruction::Or => 10,
            Instruction::Not => 11,
            Instruction::JumpIfZero => 12,
            Instruction::Load => 13,
            Instruction::Store => 14,
            Instruction::Input => 15,
            Instruction::Output => 16,
            Instruction::Read => 17,
            Instruction::Write => 18,
            Instruction::Halt => 19,
        }
    }

    /// The words that encode the instruction in memory.
    pub open spec fn words_spec(&self) -> Seq<i32> {
        match self {
            Instruction::Push(v) => seq![PUSH_OPCODE, *v],
            _ => seq![self.opcode_spec()],
        }
    }

    /// The opcode of the instruction.
    #[verifier::when_used_as_spec(opcode_spec)]
    pub fn opcode(&self) -> (r: i32)
        ensures
            r == self.opcode_spec(),
    {
        match self {
            Instruction::Add => 0,
            Instruction::Sub => 1,
            Instruction::Mul => 2,
            Instruction::Div => 3,
            Instruction::Mod => 4,
            Instruction::Push(_) => 5,
            Instruction::Pop => 6,
            Instruction::Equal => 7,
            Instruction::LessThan => 8,
            Instruction::And => 9,
            Instruction::Or => 10,
            Instruction::Not => 11,
            Instruction::JumpIfZero => 12,
            Instruction::Load => 13,
            Instruction::Store => 14,
            Instruction::Input => 15,
            Instruction::Output => 16,
            Instruction::Read => 17,
            Instruction::Write => 18,
            Instruction::Halt => 19,
        }
    }

    /// The words that encode the instruction in memory: its opcode, followed
    /// by the immediate for `Push`.
    pub fn words(&self) -> (r: Vec<i32>)
        ensures
            r@ == self.words_spec(),
    {
        match self {
            Instruction::Push(v) => vec![PUSH_OPCODE, *v],
            _ => vec![self.opcode()],
        }
    }

    /// The instruction that opcode `op` stands for; a `Push` takes `immediate`.
    /// `None` for a number outside the opcode table.
    pub fn decode(op: i32, immediate: i32) -> (r: Option<Instruction>)
        ensures
            r == decode_spec(op, immediate),
            r is None <==> !(0 <= op < 20),
            r matches Some(i) ==> i.opcode_spec() == op,
    {
        if op == 0 {
            Some(Instruction::Add)
        } else if op == 1 {
            Some(Instruction::Sub)
        } else if op == 2 {
            Some(Instruction::Mul)
        } else if op == 3 {
            Some(Instruction::Div)
        } else if op == 4 {
            Some(Instruction::Mod)
        } else if op == 5 {
            Some(Instruction::Push(immediate))
        } else if op == 6 {
            Some(Instruction::Pop)
        } else if op == 7 {
            Some(Instruction::Equal)
        } else if op == 8 {
            Some(Instruction::LessThan)
        } else if op == 9 {
            Some(Instruction::And)
        } else if op == 10 {
            Some(Instruction::Or)
        } else if op == 11 {
            Some(Instruction::Not)
        } else if op == 12 {
            Some(Instruction::JumpIfZero)
        } else if op == 13 {
            Some(Instruction::Load)
        } else if op == 14 {
            Some(Instruction::Store)
        } else if op == 15 {
            Some(Instruction::Input)
        } else if op == 16 {
            Some(Instruction::Output)
        } else if op == 17 {
            Some(Instruction::Read)
        } else if op == 18 {
            Some(Instruction::Write)
        } else if op == 19 {
            Some(Instruction::Halt)
        } else {
            None
        }
    }
}

} // verus!
