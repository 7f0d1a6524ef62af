//! Secondary storage: a text of newline-terminated lines, addressed by line
//! number from 1. The machine reads a line as a decimal integer and
//! overwrites a line with the decimal text of a value; it never adds a line.
use vstd::prelude::*;
use crate::text::{chars_of, split_on, string_of};

verus! {

/// A line without the carriage return that may end it.
pub open spec fn strip_cr(l: Seq<char>) -> Seq<char> {
    if l.len() > 0 && l.last() == '\r' {
        l.drop_last()
    } else {
        l
    }
}

/// The lines of a text: the pieces between newlines, where a final newline
/// ends the last line rather than starting an empty one, each without a
/// trailing carriage return.
pub open spec fn lines_of(content: Seq<char>) -> Seq<Seq<char>> {
    let p = split_on(content, '\n');
    let q = if p.last().len() == 0 {
        p.drop_last()
    } else {
        p
    };
    q.map_values(|l: Seq<char>| strip_cr(l))
}

/// The text of the lines, each followed by a newline.
pub open spec fn text_of(lines: Seq<Seq<char>>) -> Seq<char>
    decreases lines.len(),
{
    if lines.len() == 0 {
        Seq::empty()
    } else {
        text_of(lines.drop_last()) + lines.last().push('\n')
    }
}

proof fn lemma_split_len(s: Seq<char>, sep: char)
    ensures
        split_on(s, sep).len() >= 1,
    decreases s.len(),
{
    if s.len() > 0 {
        lemma_split_len(s.drop_last(), sep);
    }
}

/// Appending text without a separator extends the last piece.
proof fn lemma_split_append(s: Seq<char>, l: Seq<char>, sep: char)
    requires
        !l.contains(sep),
    ensures
        split_on(s + l, sep) == split_on(s, sep).update(
            split_on(s, sep).len() - 1,
            split_on(s, sep).last() + l,
        ),
    decreases l.len(),
{
    lemma_split_len(s, sep);
    let p = split_on(s, sep);
    if l.len() == 0 {
        assert(s + l =~= s);
        assert(p.last() + l =~= p.last());
        assert(p.update(p.len() - 1, p.last()) =~= p);
    } else {
        let init = l.drop_last();
        assert(!init.contains(sep)) by {
            if init.contains(sep) {
                let i = choose|i: int| 0 <= i < init.len() && init[i] == sep;
                assert(l[i] == sep);
            }
        }
        lemma_split_append(s, init, sep);
        assert((s + l).drop_last() =~= s + init);
        assert((s + l).last() == l.last());
        assert(l.last() != sep) by {
            assert(l[l.len() - 1] == l.last());
        }
        let q = split_on(s + init, sep);
        assert(q.last() == p.last() + init);
        assert(q.len() == p.len());
        assert(q.last().push(l.last()) =~= p.last() + l);
        assert(q.update(q.len() - 1, q.last().push(l.last())) =~= p.update(
            p.len() - 1,
            p.last() + l,
        ));
    }
}

proof fn lemma_split_text(lines: Seq<Seq<char>>)
    requires
        forall|i: int| 0 <= i < lines.len() ==> !(#[trigger] lines[i]).contains('\n'),
    ensures
        split_on(text_of(lines), '\n') == lines.push(Seq::<char>::empty()),
    decreases lines.len(),
{
    if lines.len() == 0 {
        assert(split_on(Seq::<char>::empty(), '\n') =~= seq![Seq::<char>::empty()]);
    } else {
        let init = lines.drop_last();
        let l = lines.last();
        assert(!l.contains('\n')) by {
            assert(lines[lines.len() - 1] == l);
        }
        assert forall|i: int| 0 <= i < init.len() implies !(#[trigger] init[i]).contains('\n') by {
            assert(init[i] == lines[i]);
        }
        lemma_split_text(init);
        let t = text_of(init);
        lemma_split_append(t, l, '\n');
        let whole = text_of(lines);
        assert(whole =~= (t + l).push('\n'));
        assert(whole.drop_last() =~= t + l);
        assert(split_on(t + l, '\n') =~= lines);
    }
}

/// Lines without newlines, none ending in a carriage return, read back
/// unchanged from the text that holds them: storage that is written out and
/// read in again is the same storage.
pub proof fn lemma_text_round_trip(lines: Seq<Seq<char>>)
    requires
        forall|i: int| 0 <= i < lines.len() ==> !(#[trigger] lines[i]).contains('\n'),
        forall|i: int|
            0 <= i < lines.len() ==> !((#[trigger] lines[i]).len() > 0 && lines[i].last()
                == '\r'),
    ensures
        lines_of(text_of(lines)) == lines,
{
    lemma_split_text(lines);
    let p = split_on(text_of(lines), '\n');
    assert(p.last().len() == 0);
    assert(p.drop_last() =~= lines);
    assert(lines.map_values(|l: Seq<char>| strip_cr(l)) =~= lines);
}

/// Why a storage access failed.
#[derive(Debug, Clone, Copy, PartialEq, Eq, Structural)]
pub enum StorageError {
    /// The line number is 0 or beyond the last line.
    LineOutOfRange(usize),
}

/// The contents of secondary storage, line by line.
pub struct Storage {
    lines: Vec<Vec<char>>,
}

impl View for Storage {
    type V = Seq<Seq<char>>;

    closed spec fn view(&self) -> Seq<Seq<char>> {
        self.lines@.map_values(|l: Vec<char>| l@)
    }
}

impl Storage {
    /// An empty storage, with no line.
    pub fn new() -> (r: Storage)
        ensures
            r@ == Seq::<Seq<char>>::empty(),
    {
        let r = Storage { lines: Vec::new() };
        assert(r@ =~= Seq::<Seq<char>>::empty());
        r
    }

    /// The storage whose lines are those of `content`.
    pub fn parse(content: &str) -> (r: Storage)
        ensures
            r@ == lines_of(content@),
    {
        let s = chars_of(content);
        let mut r = Storage::new();
        let mut cur: Vec<char> = Vec::new();
        let ghost mut done: Seq<Seq<char>> = Seq::empty();
        let mut i: usize = 0;
        assert(s@.take(0) =~= Seq::<char>::empty());
        while i < s.len()
            invariant
                s@ == content@,
                i <= s@.len(),
                split_on(s@.take(i as int), '\n') == done.push(cur@),
                r@ == done.map_values(|l: Seq<char>| strip_cr(l)),
            decreases s@.len() - i,
        {
            assert(s@.take(i + 1).drop_last() =~= s@.take(i as int));
            let c = s[i];
            if c == '\n' {
                let ghost prev = done;
                proof {
                    done = done.push(cur@);
                }
                r.push_line(cur);
                assert(done.map_values(|l: Seq<char>| strip_cr(l)) =~= prev.map_values(
                    |l: Seq<char>| strip_cr(l),
                ).push(strip_cr(done.last())));
                cur = Vec::new();
            } else {
                cur.push(c);
            }
            i = i + 1;
        }
        assert(s@.take(s@.len() as int) =~= s@);
        if cur.len() > 0 {
            let ghost prev = done;
            let ghost all = done.push(cur@);
            r.push_line(cur);
            assert(all.map_values(|l: Seq<char>| strip_cr(l)) =~= prev.map_values(
                |l: Seq<char>| strip_cr(l),
            ).push(strip_cr(all.last())));
        } else {
            assert(done.push(cur@).drop_last() =~= done);
        }
        r
    }

    /// Appends `line`, less the carriage return that may end it.
    fn push_line(&mut self, line: Vec<char>)
        ensures
            final(self)@ == old(self)@.push(strip_cr(line@)),
    {
        let mut l = line;
        if l.len() > 0 && l[l.len() - 1] == '\r' {
            l.pop();
            assert(l@ =~= line@.drop_last());
        }
        self.lines.push(l);
        assert(self@ =~= old(self)@.push(strip_cr(line@)));
    }

    /// The number of lines.
    pub fn len(&self) -> (r: usize)
        ensures
            r == self@.len(),
    {
        self.lines.len()
    }

    /// The characters of line `line_number`, counted from 1.
    pub fn read_line(&self, line_number: usize) -> (r: Result<&Vec<char>, StorageError>)
        ensures
            1 <= line_number <= self@.len() <==> r is Ok,
            r matches Ok(l) ==> l@ == self@[line_number - 1],
            r matches Err(e) ==> e == StorageError::LineOutOfRange(line_number),
    {
        if line_number == 0 || line_number > self.lines.len() {
            Err(StorageError::LineOutOfRange(line_number))
        } else {
            Ok(&self.lines[line_number - 1])
        }
    }

    /// Replaces line `line_number`, counted from 1, by `text`; a line number
    /// beyond the last line is refused and the storage left as it was.
    pub fn write_line(&mut self, line_number: usize, text: Vec<char>) -> (r: Result<
        (),
        StorageError,
    >)
        ensures
            1 <= line_number <= old(self)@.len() <==> r is Ok,
            r is Ok ==> final(self)@ == old(self)@.update(line_number - 1, text@),
            r is Err ==> final(self)@ == old(self)@,
            r matches Err(e) ==> e == StorageError::LineOutOfRange(line_number),
            final(self)@.len() == old(self)@.len(),
    {
        if line_number == 0 || line_number > self.lines.len() {
            Err(StorageError::LineOutOfRange(line_number))
        } else {
            self.lines.set(line_number - 1, text);
            assert(self@ =~= old(self)@.update(line_number - 1, text@));
            Ok(())
        }
    }

    /// The text that holds the lines, each ended by a newline.
    pub fn to_text(&self) -> (r: String)
        ensures
            r@ == text_of(self@),
    {
        let mut out: Vec<char> = Vec::new();
        let mut i: usize = 0;
        while i < self.lines.len()
            invariant
                i <= self@.len(),
                self@.len() == self.lines@.len(),
                out@ == text_of(self@.take(i as int)),
            decreases self.lines@.len() - i,
        {
            let line = &self.lines[i];
            let ghost out0 = out@;
            let mut k: usize = 0;
            while k < line.len()
                invariant
                    k <= line@.len(),
                    out@ == out0 + line@.take(k as int),
                decreases line@.len() - k,
            {
                out.push(line[k]);
                k = k + 1;
                assert(line@.take(k as int) =~= line@.take(k - 1).push(line@[k - 1]));
            }
            out.push('\n');
            assert(self@[i as int] == line@);
            assert(self@.take(i + 1).drop_last() =~= self@.take(i as int));
            assert(line@.take(line@.len() as int) =~= line@);
            assert(out@ =~= out0 + line@.push('\n'));
            i = i + 1;
        }
        assert(self@.take(self@.len() as int) =~= self@);
        string_of(out.as_slice())
    }
}

/// Line `line_number` of `storage`, counted from 1.
pub fn read_specific_line(storage: &Storage, line_number: usize) -> (r: Result<
    String,
    StorageError,
>)
    ensures
        1 <= line_number <= storage@.len() <==> r is Ok,
        r matches Ok(t) ==> t@ == storage@[line_number - 1],
        r matches Err(e) ==> e == StorageError::LineOutOfRange(line_number),
{
    match storage.read_line(line_number) {
        Ok(l) => Ok(string_of(l.as_slice())),
        Err(e) => Err(e),
    }
}

/// Replaces line `line_number` of `storage`, counted from 1, by `text`; a
/// line number beyond the last line is refused and nothing changes.
pub fn write_specific_line(storage: &mut Storage, line_number: usize, text: &str) -> (r: Result<
    (),
    StorageError,
>)
    ensures
        1 <= line_number <= old(storage)@.len() <==> r is Ok,
        r is Ok ==> final(storage)@ == old(storage)@.update(line_number - 1, text@),
        r is Err ==> final(storage)@ == old(storage)@,
        r matches Err(e) ==> e == StorageError::LineOutOfRange(line_number),
{
    storage.write_line(line_number, chars_of(text))
}

} // verus!
