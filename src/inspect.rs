//! The debug inspector: what an operator's command asks for between two
//! steps, and the read-only views of the machine that answer it.
use vstd::prelude::*;
use crate::text::{chars_of, split_on, string_of};
use crate::vm::VirtualMachine;

verus! {

/// An inspector command.
#[derive(Debug, Clone, Copy, PartialEq, Eq, Structural)]
pub enum Command {
    /// Show the stack, then ask again.
    ShowStack,
    /// Show every nonzero memory word with its address, then ask again.
    ShowMemory,
    /// Show the output log line by line, then ask again.
    ShowOutput,
    /// End the whole run.
    Exit,
    /// Go on with the next step.
    Resume,
}

/// Whether `w` occurs in `s` as a run of consecutive characters.
pub open spec fn contains_word(s: Seq<char>, w: Seq<char>) -> bool {
    exists|i: int| 0 <= i && i + w.len() <= s.len() && #[trigger] s.subrange(i, i + w.len()) == w
}

/// The command that the text `cmd` gives: the first of `s`, `m`, `o` and
/// `exit` that it contains, tried in that order; any other text resumes.
pub open spec fn command_spec(cmd: Seq<char>) -> Command {
    if cmd.contains('s') {
        Command::ShowStack
    } else if cmd.contains('m') {
        Command::ShowMemory
    } else if cmd.contains('o') {
        Command::ShowOutput
    } else if contains_word(cmd, "exit"@) {
        Command::Exit
    } else {
        Command::Resume
    }
}

/// The nonzero words of `mem`, each with its address, by address.
pub open spec fn nonzero_cells(mem: Seq<i32>) -> Seq<(usize, i32)>
    decreases mem.len(),
{
    if mem.len() == 0 {
        Seq::empty()
    } else if mem.last() != 0 {
        nonzero_cells(mem.drop_last()).push(((mem.len() - 1) as usize, mem.last()))
    } else {
        nonzero_cells(mem.drop_last())
    }
}

fn contains_char(s: &Vec<char>, c: char) -> (r: bool)
    ensures
        r == s@.contains(c),
{
    let mut i: usize = 0;
    while i < s.len()
        invariant
            i <= s@.len(),
            forall|j: int| 0 <= j < i ==> s@[j] != c,
        decreases s@.len() - i,
    {
        if s[i] == c {
            return true;
        }
        i = i + 1;
    }
    false
}

fn contains_chars(s: &Vec<char>, w: &Vec<char>) -> (r: bool)
    ensures
        r == contains_word(s@, w@),
{
    if w.len() > s.len() {
        return false;
    }
    if w.len() == 0 {
        assert(s@.subrange(0, 0 + w@.len() as int) =~= w@);
        return true;
    }
    let mut i: usize = 0;
    let last = s.len() - w.len();
    while i <= last
        invariant
            last == s@.len() - w@.len(),
            0 < w@.len() <= s@.len(),
            s@.len() <= usize::MAX,
            i <= s@.len() - w@.len() + 1,
            forall|j: int| 0 <= j < i ==> #[trigger] s@.subrange(j, j + w@.len()) != w@,
        decreases s@.len() - i,
    {
        let mut k: usize = 0;
        let mut same = true;
        while k < w.len()
            invariant
                i + w@.len() <= s@.len(),
                w@.len() <= s@.len(),
                k <= w@.len(),
                i <= last,
                last == s@.len() - w@.len(),
                s@.len() <= usize::MAX,
                same == (forall|j: int| 0 <= j < k ==> s@[i + j] == w@[j]),
            decreases w@.len() - k,
        {
            if s[i + k] != w[k] {
                same = false;
            }
            k = k + 1;
        }
        if same {
            assert(s@.subrange(i as int, i + w@.len()) =~= w@);
            return true;
        }
        assert(s@.subrange(i as int, i + w@.len()) != w@) by {
            let t = s@.subrange(i as int, i + w@.len());
            let j = choose|j: int| 0 <= j < w@.len() && s@[i + j] != w@[j];
            assert(t[j] != w@[j]);
        }
        i = i + 1;
    }
    assert(!contains_word(s@, w@)) by {
        if exists|j: int| 0 <= j && j + w@.len() <= s@.len() && #[trigger] s@.subrange(j, j + w@.len()) == w@ {
            let j = choose|j: int| 0 <= j && j + w@.len() <= s@.len() && #[trigger] s@.subrange(j, j + w@.len()) == w@;
            assert(j < i);
        }
    }
    false
}

/// The command that the operator's text `cmd` gives.
pub fn parse_command(cmd: &str) -> (r: Command)
    ensures
        r == command_spec(cmd@),
{
    let s = chars_of(cmd);
    if contains_char(&s, 's') {
        Command::ShowStack
    } else if contains_char(&s, 'm') {
        Command::ShowMemory
    } else if contains_char(&s, 'o') {
        Command::ShowOutput
    } else if contains_chars(&s, &chars_of("exit")) {
        Command::Exit
    } else {
        Command::Resume
    }
}

impl VirtualMachine {
    /// Every nonzero memory word with its address, by address.
    pub fn nonzero_memory(&self) -> (r: Vec<(usize, i32)>)
        ensures
            r@ == nonzero_cells(self@.memory),
    {
        let mem = self.memory();
        let mut r: Vec<(usize, i32)> = Vec::new();
        let mut i: usize = 0;
        while i < mem.len()
            invariant
                i <= mem@.len(),
                mem@ == self@.memory,
                r@ == nonzero_cells(mem@.take(i as int)),
            decreases mem@.len() - i,
        {
            assert(mem@.take(i + 1).drop_last() =~= mem@.take(i as int));
            if mem[i] != 0 {
                r.push((i, mem[i]));
            }
            i = i + 1;
        }
        assert(mem@.take(mem@.len() as int) =~= mem@);
        r
    }

    /// The output log, split at its newlines.
    pub fn output_lines(&self) -> (r: Vec<String>)
        ensures
            r@.len() == split_on(self@.output, '\n').len(),
            forall|i: int| 0 <= i < r@.len() ==> #[trigger] r@[i]@ == split_on(self@.output, '\n')[i],
    {
        let out = self.output();
        let mut r: Vec<String> = Vec::new();
        let mut cur: Vec<char> = Vec::new();
        let ghost mut done: Seq<Seq<char>> = Seq::empty();
        let mut i: usize = 0;
        assert(out@.take(0) =~= Seq::<char>::empty());
        while i < out.len()
            invariant
                i <= out@.len(),
                out@ == self@.output,
                split_on(out@.take(i as int), '\n') == done.push(cur@),
                r@.len() == done.len(),
                forall|j: int| 0 <= j < r@.len() ==> #[trigger] r@[j]@ == done[j],
            decreases out@.len() - i,
        {
            assert(out@.take(i + 1).drop_last() =~= out@.take(i as int));
            let c = out[i];
            if c == '\n' {
                r.push(string_of(cur.as_slice()));
                proof {
                    done = done.push(cur@);
                }
                cur = Vec::new();
            } else {
                cur.push(c);
            }
            i = i + 1;
        }
        assert(out@.take(out@.len() as int) =~= out@);
        r.push(string_of(cur.as_slice()));
        proof {
            done = done.push(cur@);
        }
        r
    }
}

} // verus!
