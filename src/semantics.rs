//! Consequences of the machine's step relation, proved once for all states.
use vstd::prelude::*;
use crate::instruction::{Instruction, PUSH_OPCODE};
use crate::text::{decimal_text, lemma_decimal_round_trip};
use crate::vm::{
    binary_spec, char_of, execute_spec, is_scalar, step_spec, Fault, FaultKind, MachineView,
    Mode, Status, Step, MEMORY_SIZE,
};

verus! {

/// The state after `k` steps, none of which is given an input line.
pub open spec fn run_spec(m: MachineView, k: nat) -> MachineView
    decreases k,
{
    if k == 0 {
        m
    } else {
        run_spec(step_spec(m, None).0, (k - 1) as nat)
    }
}

/// Running `a + b` steps is running `a` steps and then `b` more.
pub proof fn lemma_run_split(m: MachineView, a: nat, b: nat)
    ensures
        run_spec(m, a + b) == run_spec(run_spec(m, a), b),
    decreases a,
{
    if a > 0 {
        lemma_run_split(step_spec(m, None).0, (a - 1) as nat, b);
        assert((a + b - 1) as nat == (a - 1) as nat + b);
    }
}

/// The words of one `Push` of each of `values`, in order.
pub open spec fn push_words(values: Seq<i32>) -> Seq<i32>
    decreases values.len(),
{
    if values.len() == 0 {
        Seq::empty()
    } else {
        seq![PUSH_OPCODE, values[0]] + push_words(values.drop_first())
    }
}

/// The words of `n` `Pop` instructions.
pub open spec fn pop_words(n: nat) -> Seq<i32> {
    Seq::new(n, |i: int| Instruction::Pop.opcode_spec())
}

proof fn lemma_push_words_len(values: Seq<i32>)
    ensures
        push_words(values).len() == 2 * values.len(),
    decreases values.len(),
{
    if values.len() > 0 {
        lemma_push_words_len(values.drop_first());
    }
}

proof fn lemma_pushes(m: MachineView, values: Seq<i32>)
    requires
        m.status == Status::Running,
        m.memory.len() == MEMORY_SIZE,
        m.pc + 2 * values.len() <= m.memory.len(),
        m.memory.subrange(m.pc as int, m.pc + 2 * values.len()) == push_words(values),
    ensures
        forall|k: nat|
            k <= values.len() ==> #[trigger] run_spec(m, k) == (MachineView {
                stack: m.stack + values.take(k as int),
                pc: (m.pc + 2 * k) as usize,
                ..m
            }),
    decreases values.len(),
{
    assert forall|k: nat| k <= values.len() implies #[trigger] run_spec(m, k) == (MachineView {
        stack: m.stack + values.take(k as int),
        pc: (m.pc + 2 * k) as usize,
        ..m
    }) by {
        if k == 0 {
            assert(m.stack + values.take(0) =~= m.stack);
        } else {
            let n = values.len();
            let rest = values.drop_first();
            let w = m.memory.subrange(m.pc as int, m.pc + 2 * n);
            assert(w == seq![PUSH_OPCODE, values[0]] + push_words(rest));
            assert(w[0] == PUSH_OPCODE);
            assert(w[1] == values[0]);
            assert(m.memory[m.pc as int] == PUSH_OPCODE);
            assert(m.memory[m.pc + 1] == values[0]);
            let m1 = step_spec(m, None).0;
            assert(m1 == MachineView { stack: m.stack.push(values[0]), pc: (m.pc + 2) as usize, ..m });
            assert(m1.memory.subrange(m1.pc as int, m1.pc + 2 * rest.len()) =~= w.subrange(2, 2 * n as int));
            assert(w.subrange(2, 2 * n as int) =~= push_words(rest));
            lemma_pushes(m1, rest);
            let k1 = (k - 1) as nat;
            assert(run_spec(m1, k1) == (MachineView {
                stack: m1.stack + rest.take(k1 as int),
                pc: (m1.pc + 2 * k1) as usize,
                ..m1
            }));
            assert(m1.stack + rest.take(k1 as int) =~= m.stack + values.take(k as int));
        }
    }
}

proof fn lemma_pops(m: MachineView, n: nat)
    requires
        m.status == Status::Running,
        m.memory.len() == MEMORY_SIZE,
        m.stack.len() >= n,
        m.pc + n <= m.memory.len(),
        m.memory.subrange(m.pc as int, m.pc + n) == pop_words(n),
    ensures
        forall|k: nat|
            k <= n ==> #[trigger] run_spec(m, k) == (MachineView {
                stack: m.stack.take(m.stack.len() - k),
                pc: (m.pc + k) as usize,
                ..m
            }),
    decreases n,
{
    assert forall|k: nat| k <= n implies #[trigger] run_spec(m, k) == (MachineView {
        stack: m.stack.take(m.stack.len() - k),
        pc: (m.pc + k) as usize,
        ..m
    }) by {
        if k == 0 {
            assert(m.stack.take(m.stack.len() as int) =~= m.stack);
        } else {
            let w = m.memory.subrange(m.pc as int, m.pc + n);
            assert(w[0] == 6);
            assert(m.memory[m.pc as int] == 6);
            let m1 = step_spec(m, None).0;
            assert(m1 == MachineView { stack: m.stack.drop_last(), pc: (m.pc + 1) as usize, ..m });
            assert forall|j: int| 0 <= j < n - 1 implies #[trigger] m1.memory.subrange(
                m1.pc as int,
                m1.pc + (n - 1),
            )[j] == pop_words((n - 1) as nat)[j] by {
                assert(w[j + 1] == 6);
            }
            assert(m1.memory.subrange(m1.pc as int, m1.pc + (n - 1)) =~= pop_words((n - 1) as nat));
            lemma_pops(m1, (n - 1) as nat);
            let k1 = (k - 1) as nat;
            assert(run_spec(m1, k1) == (MachineView {
                stack: m1.stack.take(m1.stack.len() - k1),
                pc: (m1.pc + k1) as usize,
                ..m1
            }));
            assert(m1.stack.take(m1.stack.len() - k1) =~= m.stack.take(m.stack.len() - k));
        }
    }
}

/// A program of `n` `Push` instructions followed by `n` `Pop` instructions
/// runs without a fault and leaves the stack as it found it (empty, if it
/// was empty); a `Halt` after them then ends the run with that stack.
pub proof fn lemma_pushes_then_pops(m: MachineView, values: Seq<i32>)
    requires
        m.status == Status::Running,
        m.memory.len() == MEMORY_SIZE,
        m.pc + 3 * values.len() <= m.memory.len(),
        m.memory.subrange(m.pc as int, m.pc + 3 * values.len()) == push_words(values) + pop_words(
            values.len(),
        ),
    ensures
        forall|k: nat| k <= 2 * values.len() ==> (#[trigger] run_spec(m, k)).status == Status::Running,
        run_spec(m, 2 * values.len()).stack == m.stack,
        run_spec(m, 2 * values.len()).pc == m.pc + 3 * values.len(),
        run_spec(m, 2 * values.len()).memory == m.memory,
        m.pc + 3 * values.len() < m.memory.len() && m.memory[m.pc + 3 * values.len()]
            == Instruction::Halt.opcode_spec() ==> ({
            let end = step_spec(run_spec(m, 2 * values.len()), None);
            &&& end.1 == Step::Halted
            &&& end.0.status == Status::Halted
            &&& end.0.stack == m.stack
        }),
{
    let n = values.len();
    let w = m.memory.subrange(m.pc as int, m.pc + 3 * n);
    lemma_push_words_len(values);
    assert(m.memory.subrange(m.pc as int, m.pc + 2 * n) =~= w.subrange(0, 2 * n as int));
    assert(w.subrange(0, 2 * n as int) =~= push_words(values));
    lemma_pushes(m, values);
    let mid = run_spec(m, n);
    assert(mid.stack == m.stack + values.take(n as int));
    assert(mid.memory.subrange(mid.pc as int, mid.pc + n) =~= w.subrange(2 * n as int, 3 * n as int));
    assert(w.subrange(2 * n as int, 3 * n as int) =~= pop_words(n));
    lemma_pops(mid, n);
    assert forall|k: nat| k <= 2 * n implies (#[trigger] run_spec(m, k)).status == Status::Running by {
        if k > n {
            lemma_run_split(m, n, (k - n) as nat);
            assert(n + (k - n) as nat == k);
            assert(run_spec(mid, (k - n) as nat).status == Status::Running);
        }
    }
    lemma_run_split(m, n, n);
    assert(run_spec(mid, n).stack == mid.stack.take(mid.stack.len() - n));
    assert(mid.stack.take(mid.stack.len() - n) =~= m.stack);
}

/// `Div` and `Mod` with 0 on top of the stack fail, whatever the dividend.
pub proof fn lemma_division_by_zero_fails(m: MachineView, ins: Instruction)
    requires
        m.status == Status::Running,
        m.pc + 1 < m.memory.len(),
        ins == Instruction::Div || ins == Instruction::Mod,
        m.memory[m.pc as int] == ins.opcode_spec(),
        m.stack.len() >= 2,
        m.stack.last() == 0,
    ensures
        ({
            let f = Fault {
                kind: FaultKind::DivisionByZero(m.stack[m.stack.len() - 2]),
                pc: m.pc,
                opcode: ins.opcode_spec(),
            };
            step_spec(m, None) == (MachineView { status: Status::Faulted(f), ..m }, Step::Faulted(f))
        }),
{
}

/// `Add`, `Sub` and `Mul` on two operands never fail: they push the
/// wrapped result and move on.
pub proof fn lemma_arithmetic_never_fails(m: MachineView, ins: Instruction)
    requires
        m.status == Status::Running,
        m.pc + 1 < m.memory.len(),
        ins == Instruction::Add || ins == Instruction::Sub || ins == Instruction::Mul,
        m.memory[m.pc as int] == ins.opcode_spec(),
        m.stack.len() >= 2,
    ensures
        ({
            let n = m.stack.len();
            step_spec(m, None) == (MachineView {
                stack: m.stack.take(n - 2).push(binary_spec(ins, m.stack[n - 2], m.stack[n - 1])),
                pc: (m.pc + 1) as usize,
                ..m
            }, Step::Executed(ins))
        }),
{
}

/// `Store` of `v` at address `i`, then `Push i` and `Load`, leaves `v` where
/// `v` and `i` were.
pub proof fn lemma_store_then_load(m: MachineView, s: Seq<i32>, v: i32, i: i32)
    requires
        m.status == Status::Running,
        m.stack == s.push(v).push(i),
        0 <= i < m.memory.len(),
    ensures
        ({
            let m1 = execute_spec(m, Instruction::Store, None).0;
            let m2 = execute_spec(m1, Instruction::Push(i), None).0;
            let m3 = execute_spec(m2, Instruction::Load, None);
            &&& m3.0.stack == s.push(v)
            &&& m3.0.status == Status::Running
            &&& m3.1 == Step::Executed(Instruction::Load)
        }),
{
    let n = m.stack.len();
    assert(m.stack.take(n - 2) =~= s);
    let m1 = execute_spec(m, Instruction::Store, None).0;
    assert(m1.memory[i as int] == v);
    let m2 = execute_spec(m1, Instruction::Push(i), None).0;
    assert(m2.stack.drop_last() =~= s);
}

/// `JumpIfZero` with a condition of 0 sets `pc` to the target below it; with
/// any other condition it moves on to the next word.
pub proof fn lemma_jump_if_zero(m: MachineView, s: Seq<i32>, target: i32, condition: i32)
    requires
        m.status == Status::Running,
        m.pc + 1 < m.memory.len(),
        m.memory[m.pc as int] == 12,
        m.stack == s.push(target).push(condition),
        target >= 0,
    ensures
        ({
            let r = step_spec(m, None);
            &&& r.1 == Step::Executed(Instruction::JumpIfZero)
            &&& r.0.stack == s
            &&& r.0.pc == if condition == 0 {
                target as usize
            } else {
                (m.pc + 1) as usize
            }
        }),
{
    assert(m.stack.take(m.stack.len() - 2) =~= s);
}

/// `Write` of `v` to an existing storage line, then `Push line` and `Read`,
/// pushes `v` back; the storage keeps its number of lines.
pub proof fn lemma_write_then_read(m: MachineView, s: Seq<i32>, v: i32, line: i32)
    requires
        m.status == Status::Running,
        m.stack == s.push(v).push(line),
        1 <= line <= m.storage.len(),
    ensures
        ({
            let w = execute_spec(m, Instruction::Write, None);
            let m2 = execute_spec(w.0, Instruction::Push(line), None).0;
            let m3 = execute_spec(m2, Instruction::Read, None);
            &&& w.1 == Step::Stored(line as usize)
            &&& w.0.storage.len() == m.storage.len()
            &&& w.0.storage[line - 1] == decimal_text(v)
            &&& m3.0.stack == s.push(v)
            &&& m3.0.status == Status::Running
        }),
{
    let n = m.stack.len();
    assert(m.stack.take(n - 2) =~= s);
    lemma_decimal_round_trip(v);
    let m1 = execute_spec(m, Instruction::Write, None).0;
    let m2 = execute_spec(m1, Instruction::Push(line), None).0;
    assert(m2.stack.drop_last() =~= s);
}

/// `Write` to a line number that is not a line of storage fails and leaves
/// the storage as it was.
pub proof fn lemma_write_out_of_range(m: MachineView, v: i32, line: i32)
    requires
        m.status == Status::Running,
        m.stack.len() >= 2,
        m.stack.last() == line,
        !(1 <= line <= m.storage.len()),
    ensures
        ({
            let w = execute_spec(m, Instruction::Write, None);
            &&& w.1 is Faulted
            &&& w.1->Faulted_0.kind == FaultKind::StorageLineOutOfRange(line)
            &&& w.0.storage == m.storage
        }),
{
}

/// No instruction changes the number of storage lines.
pub proof fn lemma_storage_keeps_its_lines(
    m: MachineView,
    ins: Instruction,
    input: Option<Seq<char>>,
)
    ensures
        execute_spec(m, ins, input).0.storage.len() == m.storage.len(),
{
}

/// `Output` of a Unicode scalar value yields its character; `Debug` mode
/// also appends it to the output log, `Execute` mode leaves the log alone.
pub proof fn lemma_output(m: MachineView, v: i32)
    requires
        m.status == Status::Running,
        m.stack.len() >= 1,
        m.stack.last() == v,
        is_scalar(v),
    ensures
        ({
            let r = execute_spec(m, Instruction::Output, None);
            &&& r.1 == Step::Printed(char_of(v))
            &&& r.0.output == if m.mode == Mode::Debug {
                m.output.push(char_of(v))
            } else {
                m.output
            }
        }),
{
}

} // verus!
