//! The cursor: a peekable stream of characters that knows its line and column.

use vstd::prelude::*;

verus! {

/// Where the cursor stands after reading `c` at `at`: a line feed starts the
/// next line at column 1, any other character moves one column to the right.
pub open spec fn step_position(at: (nat, nat), c: char) -> (nat, nat) {
    if c == '\n' {
        (at.0 + 1, 1)
    } else {
        (at.0, at.1 + 1)
    }
}

/// The `(line, column)`, both counted from 1, of the character that follows
/// `consumed`.
pub open spec fn position_after(consumed: Seq<char>) -> (nat, nat)
    decreases consumed.len(),
{
    if consumed.len() == 0 {
        (1, 1)
    } else {
        step_position(position_after(consumed.drop_last()), consumed.last())
    }
}

/// The `(line, column)` of the character at index `at` of `text`.
pub open spec fn position_at(text: Seq<char>, at: int) -> (nat, nat) {
    position_after(text.take(at))
}

/// Whether the character at index `at` is the first of its line.
pub open spec fn at_line_start(text: Seq<char>, at: int) -> bool {
    at <= 0 || text[at - 1] == '\n'
}

/// Line and column count what was read: together they exceed its length by 2
/// at most, and neither is 0.
pub proof fn lemma_position_bounds(consumed: Seq<char>)
    ensures
        position_after(consumed).0 >= 1,
        position_after(consumed).1 >= 1,
        position_after(consumed).0 + position_after(consumed).1 <= consumed.len() + 2,
    decreases consumed.len(),
{
    if consumed.len() > 0 {
        lemma_position_bounds(consumed.drop_last());
    }
}

/// Reading one more character moves the position by one step.
pub proof fn lemma_position_step(text: Seq<char>, at: int)
    requires
        0 <= at < text.len(),
    ensures
        position_at(text, at + 1) == step_position(position_at(text, at), text[at]),
{
    assert(text.take(at + 1).drop_last() =~= text.take(at));
}

/// The column is 1 exactly at the start of a line.
pub proof fn lemma_line_start(text: Seq<char>, at: int)
    requires
        0 <= at <= text.len(),
    ensures
        position_at(text, at).1 == 1 <==> at_line_start(text, at),
{
    if at > 0 {
        lemma_position_step(text, at - 1);
        lemma_position_bounds(text.take(at - 1));
    }
}

/// Line and column of a place in a text add up to no more than the length of
/// the text and 2.
pub proof fn lemma_position_reach(text: Seq<char>, at: int)
    requires
        0 <= at <= text.len(),
    ensures
        position_at(text, at).0 + position_at(text, at).1 <= text.len() + 2,
{
    lemma_position_bounds(text.take(at));
}

/// A position-tracked, peekable stream of characters over a borrowed text.
pub struct PeekableCharTracker<'a> {
    text: &'a [char],
    index: usize,
    line: usize,
    column: usize,
}

impl<'a> PeekableCharTracker<'a> {
    /// The whole text that the cursor runs over.
    pub closed spec fn source(&self) -> Seq<char> {
        self.text@
    }

    /// How many characters have been read.
    pub closed spec fn offset(&self) -> int {
        self.index as int
    }

    /// The `(line, column)` that the cursor keeps.
    pub closed spec fn recorded(&self) -> (usize, usize) {
        (self.line, self.column)
    }

    /// The `(line, column)` of the character about to be read.
    pub open spec fn position(&self) -> (nat, nat) {
        position_at(self.source(), self.offset())
    }

    /// The cursor stands inside its text, the position it keeps is that of
    /// the character about to be read, and the text is short enough for
    /// every position in it to fit in `usize`.
    pub open spec fn wf(&self) -> bool {
        &&& 0 <= self.offset() <= self.source().len()
        &&& self.source().len() < usize::MAX
        &&& self.recorded().0 == self.position().0
        &&& self.recorded().1 == self.position().1
    }

    /// The cursor has moved on to `end` in the text that `before` runs over.
    pub open spec fn moved(&self, before: &Self, end: int) -> bool {
        &&& self.wf()
        &&& self.source() == before.source()
        &&& self.offset() == end
    }

    /// A cursor at the start of `text`.
    pub fn new(text: &'a [char]) -> (cursor: Self)
        requires
            text@.len() < usize::MAX,
        ensures
            cursor.wf(),
            cursor.source() == text@,
            cursor.offset() == 0,
    {
        PeekableCharTracker { text, index: 0, line: 1, column: 1 }
    }

    /// The `(line, column)` of the character about to be read.
    pub fn pos(&self) -> (at: (usize, usize))
        requires
            self.wf(),
        ensures
            at.0 == self.position().0,
            at.1 == self.position().1,
    {
        (self.line, self.column)
    }

    /// The character about to be read, if there is one.
    pub fn peek(&self) -> (next: Option<&'a char>)
        requires
            self.wf(),
        ensures
            match next {
                Some(c) => {
                    &&& self.offset() < self.source().len()
                    &&& *c == self.source()[self.offset()]
                },
                None => self.offset() == self.source().len(),
            },
    {
        if self.index < self.text.len() {
            Some(&self.text[self.index])
        } else {
            None
        }
    }

    /// Reads one character, if there is one.
    pub fn next(&mut self) -> (read: Option<char>)
        requires
            old(self).wf(),
        ensures
            match read {
                Some(c) => {
                    &&& old(self).offset() < old(self).source().len()
                    &&& c == old(self).source()[old(self).offset()]
                    &&& final(self).moved(old(self), old(self).offset() + 1)
                },
                None => {
                    &&& old(self).offset() == old(self).source().len()
                    &&& final(self).moved(old(self), old(self).offset())
                },
            },
    {
        if self.index < self.text.len() {
            let c = self.text[self.index];
            proof {
                lemma_position_step(self.text@, self.index as int);
                lemma_position_bounds(self.text@.take(self.index as int));
            }
            self.index += 1;
            self.check_newline(Some(c))
        } else {
            None
        }
    }

    /// Reads one character if there is one and `func` accepts it.
    pub fn next_if<F: FnOnce(&char) -> bool>(&mut self, func: F) -> (read: Option<char>)
        requires
            old(self).wf(),
            old(self).offset() < old(self).source().len() ==> call_requires(
                func,
                (&old(self).source()[old(self).offset()],),
            ),
        ensures
            match read {
                Some(c) => {
                    &&& old(self).offset() < old(self).source().len()
                    &&& c == old(self).source()[old(self).offset()]
                    &&& call_ensures(func, (&c,), true)
                    &&& final(self).moved(old(self), old(self).offset() + 1)
                },
                None => {
                    &&& final(self).moved(old(self), old(self).offset())
                    &&& old(self).offset() < old(self).source().len() ==> call_ensures(
                        func,
                        (&old(self).source()[old(self).offset()],),
                        false,
                    )
                },
            },
    {
        if self.index < self.text.len() {
            let c = self.text[self.index];
            if func(&c) {
                proof {
                    lemma_position_step(self.text@, self.index as int);
                    lemma_position_bounds(self.text@.take(self.index as int));
                }
                self.index += 1;
                self.check_newline(Some(c))
            } else {
                None
            }
        } else {
            None
        }
    }

    /// Whether the character about to be read is the first of its line.
    pub fn is_start_of_line(&self) -> (first: bool)
        requires
            self.wf(),
        ensures
            first == at_line_start(self.source(), self.offset()),
    {
        proof {
            lemma_line_start(self.text@, self.index as int);
        }
        self.column == 1
    }

    /// Moves the kept position over the character just read, and hands the
    /// character back.
    fn check_newline(&mut self, c: Option<char>) -> (same: Option<char>)
        requires
            c is Some ==> old(self).line < usize::MAX && old(self).column < usize::MAX,
        ensures
            same == c,
            final(self).text == old(self).text,
            final(self).index == old(self).index,
            match c {
                Some(read) => (final(self).line as nat, final(self).column as nat)
                    == step_position((old(self).line as nat, old(self).column as nat), read),
                None => final(self).line == old(self).line && final(self).column == old(
                    self,
                ).column,
            },
    {
        match c {
            Some('\n') => {
                self.line += 1;
                self.column = 1;
                Some('\n')
            },
            Some(other) => {
                self.column += 1;
                Some(other)
            },
            None => None,
        }
    }
}

/// The cursor under its short name.
pub type ModPeekable<'a> = PeekableCharTracker<'a>;

impl<'a> Clone for PeekableCharTracker<'a> {
    /// An independent cursor over the same text, at the same place.
    fn clone(&self) -> (copy: Self)
        ensures
            copy == *self,
    {
        PeekableCharTracker {
            text: self.text,
            index: self.index,
            line: self.line,
            column: self.column,
        }
    }
}

} // verus!
