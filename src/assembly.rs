//! The assembler: mnemonic text, one instruction per line, to memory words.
//!
//! A line's text after the first `;` is a comment. The first token is the
//! mnemonic, compared without regard to ASCII case; `push` takes a decimal
//! operand, which stands as 0 where it is missing or not an `i32`. A blank
//! line gives no words, and so does a line with an unknown mnemonic, which is
//! reported by its line number.
use vstd::prelude::*;
use crate::instruction::PUSH_OPCODE;
use crate::text::{
    chars_of, split_on, next_blank, next_non_blank, parse_i32, parse_i32_spec, skip_blanks,
    token_end,
};

verus! {

/// The position of the first `;` at or after `i`, or the end.
pub open spec fn comment_start(s: Seq<char>, i: int) -> int
    decreases s.len() - i,
{
    if 0 <= i < s.len() && s[i] != ';' {
        comment_start(s, i + 1)
    } else {
        i
    }
}

/// The text of a line that comes before its comment.
pub open spec fn code_of(line: Seq<char>) -> Seq<char> {
    line.subrange(0, comment_start(line, 0))
}

pub open spec fn ascii_lower(c: char) -> char {
    if 'A' <= c && c <= 'Z' {
        ((c as u32) + 32) as char
    } else {
        c
    }
}

pub open spec fn lower(w: Seq<char>) -> Seq<char> {
    w.map_values(|c: char| ascii_lower(c))
}

/// The opcode of a mnemonic written in lower case; `jump` is another name
/// for `jumpifzero`.
pub open spec fn mnemonic_opcode(w: Seq<char>) -> Option<i32> {
    if w == "add"@ {
        Some(0)
    } else if w == "sub"@ {
        Some(1)
    } else if w == "mul"@ {
        Some(2)
    } else if w == "div"@ {
        Some(3)
    } else if w == "mod"@ {
        Some(4)
    } else if w == "push"@ {
        Some(5)
    } else if w == "pop"@ {
        Some(6)
    } else if w == "equal"@ {
        Some(7)
    } else if w == "lessthan"@ {
        Some(8)
    } else if w == "and"@ {
        Some(9)
    } else if w == "or"@ {
        Some(10)
    } else if w == "not"@ {
        Some(11)
    } else if w == "jumpifzero"@ || w == "jump"@ {
        Some(12)
    } else if w == "load"@ {
        Some(13)
    } else if w == "store"@ {
        Some(14)
    } else if w == "input"@ {
        Some(15)
    } else if w == "output"@ {
        Some(16)
    } else if w == "read"@ {
        Some(17)
    } else if w == "write"@ {
        Some(18)
    } else if w == "halt"@ {
        Some(19)
    } else {
        None
    }
}

/// The first token of a line's code: its mnemonic, as written.
pub open spec fn mnemonic_of(line: Seq<char>) -> Seq<char> {
    let code = code_of(line);
    let a = skip_blanks(code, 0);
    code.subrange(a, token_end(code, a))
}

/// The second token of a line's code: the operand of `push`.
pub open spec fn operand_of(line: Seq<char>) -> Seq<char> {
    let code = code_of(line);
    let b = token_end(code, skip_blanks(code, 0));
    let c = skip_blanks(code, b);
    code.subrange(c, token_end(code, c))
}

/// A line whose mnemonic is not in the table.
pub open spec fn is_unknown(line: Seq<char>) -> bool {
    mnemonic_of(line).len() > 0 && mnemonic_opcode(lower(mnemonic_of(line))) is None
}

/// The words that one line assembles to.
pub open spec fn assemble_line(line: Seq<char>) -> Seq<i32> {
    match mnemonic_opcode(lower(mnemonic_of(line))) {
        Some(op) => if op == PUSH_OPCODE {
            seq![
                PUSH_OPCODE,
                match parse_i32_spec(operand_of(line)) {
                    Some(v) => v,
                    None => 0,
                },
            ]
        } else {
            seq![op]
        },
        None => Seq::empty(),
    }
}

/// The words of the lines, in line order.
pub open spec fn assemble_lines(lines: Seq<Seq<char>>) -> Seq<i32>
    decreases lines.len(),
{
    if lines.len() == 0 {
        Seq::empty()
    } else {
        assemble_lines(lines.drop_last()) + assemble_line(lines.last())
    }
}

/// The indices (counted from 0) of the lines with an unknown mnemonic.
pub open spec fn unknown_lines(lines: Seq<Seq<char>>) -> Seq<usize>
    decreases lines.len(),
{
    if lines.len() == 0 {
        Seq::empty()
    } else if is_unknown(lines.last()) {
        unknown_lines(lines.drop_last()).push((lines.len() - 1) as usize)
    } else {
        unknown_lines(lines.drop_last())
    }
}

/// What the assembler makes of a source text.
pub struct Assembled {
    /// The memory image, in line order.
    pub words: Vec<i32>,
    /// The indices (counted from 0) of the lines whose mnemonic is unknown.
    pub unknown: Vec<usize>,
}

fn ascii_lower_char(c: char) -> (r: char)
    ensures
        r == ascii_lower(c),
{
    if 'A' <= c && c <= 'Z' {
        ((c as u8) + 32) as char
    } else {
        c
    }
}

/// Whether `s[a..b]` is `word` once its ASCII capitals are lowered.
fn token_is(s: &[char], a: usize, b: usize, word: &str) -> (r: bool)
    requires
        a <= b <= s@.len(),
    ensures
        r == (lower(s@.subrange(a as int, b as int)) == word@),
{
    let w = chars_of(word);
    let ghost t = lower(s@.subrange(a as int, b as int));
    if b - a != w.len() {
        assert(t.len() != w@.len());
        return false;
    }
    let mut k: usize = 0;
    while k < w.len()
        invariant
            a <= b <= s@.len(),
            b - a == w@.len(),
            t == lower(s@.subrange(a as int, b as int)),
            w@ == word@,
            k <= w@.len(),
            forall|j: int| 0 <= j < k ==> t[j] == w@[j],
        decreases w@.len() - k,
    {
        if ascii_lower_char(s[a + k]) != w[k] {
            assert(t[k as int] != w@[k as int]);
            assert(t != w@);
            return false;
        }
        k = k + 1;
    }
    assert(t =~= w@);
    true
}

/// The opcode of the mnemonic `s[a..b]`, compared without regard to case.
fn opcode_of_token(s: &[char], a: usize, b: usize) -> (r: Option<i32>)
    requires
        a <= b <= s@.len(),
    ensures
        r == mnemonic_opcode(lower(s@.subrange(a as int, b as int))),
{
    if token_is(s, a, b, "add") {
        Some(0)
    } else if token_is(s, a, b, "sub") {
        Some(1)
    } else if token_is(s, a, b, "mul") {
        Some(2)
    } else if token_is(s, a, b, "div") {
        Some(3)
    } else if token_is(s, a, b, "mod") {
        Some(4)
    } else if token_is(s, a, b, "push") {
        Some(5)
    } else if token_is(s, a, b, "pop") {
        Some(6)
    } else if token_is(s, a, b, "equal") {
        Some(7)
    } else if token_is(s, a, b, "lessthan") {
        Some(8)
    } else if token_is(s, a, b, "and") {
        Some(9)
    } else if token_is(s, a, b, "or") {
        Some(10)
    } else if token_is(s, a, b, "not") {
        Some(11)
    } else if token_is(s, a, b, "jumpifzero") || token_is(s, a, b, "jump") {
        Some(12)
    } else if token_is(s, a, b, "load") {
        Some(13)
    } else if token_is(s, a, b, "store") {
        Some(14)
    } else if token_is(s, a, b, "input") {
        Some(15)
    } else if token_is(s, a, b, "output") {
        Some(16)
    } else if token_is(s, a, b, "read") {
        Some(17)
    } else if token_is(s, a, b, "write") {
        Some(18)
    } else if token_is(s, a, b, "halt") {
        Some(19)
    } else {
        None
    }
}

/// The words that one line assembles to; `None` where its mnemonic is unknown.
pub fn assemble_line_words(line: &[char]) -> (r: Option<Vec<i32>>)
    ensures
        r is None <==> is_unknown(line@),
        r matches Some(w) ==> w@ == assemble_line(line@),
{
    let mut end: usize = 0;
    while end < line.len() && line[end] != ';'
        invariant
            end <= line@.len(),
            comment_start(line@, 0) == comment_start(line@, end as int),
        decreases line@.len() - end,
    {
        end = end + 1;
    }
    let code = &line[0..end];
    let ghost c = code_of(line@);
    assert(code@ == c);
    let a = next_non_blank(code, 0);
    let b = next_blank(code, a);
    assert(mnemonic_of(line@) == code@.subrange(a as int, b as int));
    match opcode_of_token(code, a, b) {
        None => if a == b {
            Some(Vec::new())
        } else {
            None
        },
        Some(op) => {
            if op == PUSH_OPCODE {
                let c0 = next_non_blank(code, b);
                let d = next_blank(code, c0);
                assert(operand_of(line@) == code@.subrange(c0 as int, d as int));
                let v = match parse_i32(code, c0, d) {
                    Some(v) => v,
                    None => 0,
                };
                Some(vec![PUSH_OPCODE, v])
            } else {
                Some(vec![op])
            }
        },
    }
}

proof fn lemma_split_step(s: Seq<char>, i: int)
    requires
        0 <= i < s.len(),
    ensures
        s.take(i + 1).drop_last() == s.take(i),
        s.take(i + 1).last() == s[i],
{
    assert(s.take(i + 1).drop_last() =~= s.take(i));
}

/// Appends the words of `line`, the line at index `index`, to `words`, and
/// its index to `unknown` where its mnemonic is unknown.
fn add_line(words: &mut Vec<i32>, unknown: &mut Vec<usize>, line: &[char], index: usize)
    ensures
        final(words)@ == old(words)@ + assemble_line(line@),
        final(unknown)@ == if is_unknown(line@) {
            old(unknown)@.push(index)
        } else {
            old(unknown)@
        },
{
    match assemble_line_words(line) {
        Some(w) => {
            let mut k: usize = 0;
            let ghost w0 = words@;
            while k < w.len()
                invariant
                    k <= w@.len(),
                    words@ == w0 + w@.take(k as int),
                    w@ == assemble_line(line@),
                decreases w@.len() - k,
            {
                words.push(w[k]);
                k = k + 1;
                assert(w@.take(k as int) =~= w@.take(k - 1).push(w@[k - 1]));
            }
            assert(w@.take(w@.len() as int) =~= w@);
        },
        None => {
            assert(assemble_line(line@) =~= Seq::<i32>::empty());
            unknown.push(index);
        },
    }
}

/// Assembles `source`, one instruction per line, and lists the lines whose
/// mnemonic is unknown.
pub fn assemble(source: &str) -> (r: Assembled)
    ensures
        r.words@ == assemble_lines(split_on(source@, '\n')),
        r.unknown@ == unknown_lines(split_on(source@, '\n')),
{
    let s = chars_of(source);
    let mut words: Vec<i32> = Vec::new();
    let mut unknown: Vec<usize> = Vec::new();
    let mut line: Vec<char> = Vec::new();
    let mut count: usize = 0;
    let ghost mut done: Seq<Seq<char>> = Seq::empty();
    let mut i: usize = 0;
    assert(s@.take(0) =~= Seq::<char>::empty());
    while i < s.len()
        invariant
            s@ == source@,
            i <= s@.len(),
            count <= i,
            split_on(s@.take(i as int), '\n') == done.push(line@),
            count == done.len(),
            words@ == assemble_lines(done),
            unknown@ == unknown_lines(done),
        decreases s@.len() - i,
    {
        proof {
            lemma_split_step(s@, i as int);
        }
        let c = s[i];
        if c == '\n' {
            add_line(&mut words, &mut unknown, &line, count);
            let ghost prev = done;
            proof {
                done = done.push(line@);
            }
            assert(done.drop_last() =~= prev);
            count = count + 1;
            line = Vec::new();
        } else {
            line.push(c);
        }
        i = i + 1;
    }
    assert(s@.take(s@.len() as int) =~= s@);
    add_line(&mut words, &mut unknown, &line, count);
    let ghost lines = done.push(line@);
    assert(lines.drop_last() =~= done);
    Assembled { words, unknown }
}

/// Assembles `source` into its memory image, one instruction per line.
pub fn assembly(source: String) -> (r: Vec<i32>)
    ensures
        r@ == assemble_lines(split_on(source@, '\n')),
{
    assemble(source.as_str()).words
}

} // verus!
