//! Line-based lexer for ninja files: yields logical lines, joining lines
//! continued with a trailing `$`.
use vstd::prelude::*;
use crate::text::{chars_of, lines, split_lines, string_of, views};

verus! {

/// A line is continued when it ends with `$` but not with `$$`.
pub open spec fn is_continued(l: Seq<char>) -> bool {
    &&& l.len() >= 1
    &&& l.last() == '$'
    &&& !(l.len() >= 2 && l[l.len() - 2] == '$')
}

/// The logical line that starts at physical line `pos`, and how many physical
/// lines it spans: continued lines lose their `$` and are joined with a space.
/// `None` when `pos` is past the end, or the last line is continued.
pub open spec fn logical_line(ls: Seq<Seq<char>>, pos: int) -> Option<(Seq<char>, nat)>
    decreases ls.len() - pos,
{
    if pos < 0 || pos >= ls.len() {
        None
    } else if is_continued(ls[pos]) {
        match logical_line(ls, pos + 1) {
            None => None,
            Some((rest, n)) => Some((ls[pos].drop_last() + seq![' '] + rest, n + 1)),
        }
    } else {
        Some((ls[pos], 1))
    }
}

/// A logical line spans at least one physical line, and no more than remain.
pub proof fn lemma_logical_line_len(ls: Seq<Seq<char>>, pos: int)
    ensures
        match logical_line(ls, pos) {
            Some((_, n)) => 0 <= pos && n >= 1 && pos + n <= ls.len(),
            None => true,
        },
    decreases ls.len() - pos,
{
    if 0 <= pos < ls.len() && is_continued(ls[pos]) {
        lemma_logical_line_len(ls, pos + 1);
    }
}

/// Simple line-based lexer for ninja files.
pub struct Lexer {
    lines: Vec<String>,
    line_number: usize,
}

impl Lexer {
    /// The physical lines of the input.
    pub closed spec fn lines(&self) -> Seq<Seq<char>> {
        views(self.lines@)
    }

    /// The number of physical lines consumed so far.
    pub closed spec fn consumed(&self) -> nat {
        self.line_number as nat
    }

    /// The lexer never stands past the last line.
    pub closed spec fn wf(&self) -> bool {
        self.line_number <= self.lines@.len()
    }

    /// A well-formed lexer stands within its lines.
    pub proof fn lemma_wf(&self)
        requires
            self.wf(),
        ensures
            self.consumed() <= self.lines().len(),
    {
    }

    /// A lexer positioned before the first line of `content`.
    pub fn new(content: &str) -> (lx: Self)
        ensures
            lx.wf(),
            lx.lines() == lines(content@),
            lx.consumed() == 0,
    {
        Lexer { lines: split_lines(content), line_number: 0 }
    }

    /// The number of physical lines consumed so far.
    pub fn line_number(&self) -> (n: usize)
        ensures
            n == self.consumed(),
    {
        self.line_number
    }

    /// The next physical line, without consuming it.
    pub fn peek_line(&self) -> (r: Option<&str>)
        requires
            self.wf(),
        ensures
            self.consumed() < self.lines().len() ==> r is Some && r->0@ == self.lines()[self.consumed() as int],
            self.consumed() >= self.lines().len() ==> r is None,
    {
        if self.line_number < self.lines.len() {
            Some(self.lines[self.line_number].as_str())
        } else {
            None
        }
    }

    /// The next logical line (continuations joined); consumes its physical
    /// lines.  At the end of input, or when the last line is continued,
    /// returns `None` and consumes what is left.
    pub fn next_line(&mut self) -> (r: Option<String>)
        requires
            old(self).wf(),
        ensures
            final(self).wf(),
            final(self).lines() == old(self).lines(),
            match logical_line(old(self).lines(), old(self).consumed() as int) {
                Some((l, n)) => r is Some && r->0@ == l && final(self).consumed() == old(self).consumed() + n,
                None => r is None && final(self).consumed() == old(self).lines().len(),
            },
    {
        let ghost ls = self.lines();
        let ghost pos0 = self.line_number as int;
        let mut result: Vec<char> = Vec::new();
        let mut first = true;
        loop
            invariant
                self.wf(),
                ls == old(self).lines(),
                pos0 == old(self).consumed(),
                self.lines() == ls,
                ls.len() == self.lines@.len(),
                pos0 <= self.line_number,
                first ==> result@.len() == 0 && self.line_number == pos0,
                first ==> logical_line(ls, pos0) == logical_line(ls, self.line_number as int),
                !first ==> logical_line(ls, pos0) == match logical_line(ls, self.line_number as int) {
                    None => None,
                    Some((rest, n)) => Some((result@ + seq![' '] + rest, (n + (self.line_number - pos0)) as nat)),
                },
            decreases ls.len() - self.line_number,
        {
            if self.line_number >= self.lines.len() {
                return None;
            }
            let line = chars_of(self.lines[self.line_number].as_str());
            let ghost p = self.line_number as int;
            assert(line@ == ls[p]);
            self.line_number = self.line_number + 1;
            if !first {
                result.push(' ');
            }
            let cont = line.len() >= 1 && line[line.len() - 1] == '$' && !(line.len() >= 2
                && line[line.len() - 2] == '$');
            if cont {
                let ghost before = result@;
                let mut j: usize = 0;
                while j + 1 < line.len()
                    invariant
                        j + 1 <= line.len(),
                        result@ == before + line@.take(j as int),
                    decreases line.len() - j,
                {
                    result.push(line[j]);
                    j = j + 1;
                    proof {
                        assert(line@.take(j as int) =~= line@.take(j - 1).push(line@[j - 1]));
                    }
                }
                proof {
                    assert(line@.take(j as int) =~= line@.drop_last());
                }
                first = false;
            } else {
                let ghost before = result@;
                let mut j: usize = 0;
                while j < line.len()
                    invariant
                        j <= line.len(),
                        result@ == before + line@.take(j as int),
                    decreases line.len() - j,
                {
                    result.push(line[j]);
                    j = j + 1;
                    proof {
                        assert(line@.take(j as int) =~= line@.take(j - 1).push(line@[j - 1]));
                    }
                }
                proof {
                    assert(line@.take(j as int) =~= line@);
                }
                let s = string_of(&result);
                return Some(s);
            }
        }
    }
}

} // verus!
