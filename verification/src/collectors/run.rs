//! Runs: the longest stretch of characters of one class at the cursor.

use crate::chars::{is_indent, is_indent_char, is_name, is_name_char};
use crate::cursor::PeekableCharTracker;
use vstd::prelude::*;

verus! {

/// The classes of characters that the scanner reads as one stretch.
#[derive(Debug, Clone, Copy)]
pub enum Run {
    /// Spaces and tabs.
    Indent,
    /// Anything but whitespace and operator characters.
    Name,
    /// Anything up to the end of the line.
    Comment,
    /// Anything up to the brace that closes an embedded expression.
    Expression,
    /// Literal text of a formatted string: anything up to its quote or an
    /// opening brace and, unless the string may span lines, a line feed.
    Literal { quote: char, multi_line: bool },
}

impl Run {
    /// Whether `c` belongs to the run.
    pub open spec fn admits(self, c: char) -> bool {
        match self {
            Run::Indent => is_indent_char(c),
            Run::Name => is_name_char(c),
            Run::Comment => c != '\n',
            Run::Expression => c != '}',
            Run::Literal { quote, multi_line } => c != quote && c != '{' && (multi_line || c
                != '\n'),
        }
    }

    /// Whether `c` belongs to the run.
    pub fn accepts(&self, c: char) -> (b: bool)
        ensures
            b == self.admits(c),
    {
        match self {
            Run::Indent => is_indent(c),
            Run::Name => is_name(c),
            Run::Comment => c != '\n',
            Run::Expression => c != '}',
            Run::Literal { quote, multi_line } => c != *quote && c != '{' && (*multi_line || c
                != '\n'),
        }
    }
}

/// The index at which the run that starts at `from` ends: that of the first
/// character from there on that the run does not admit, or the end of the text.
pub open spec fn run_end(text: Seq<char>, from: int, run: Run) -> int
    decreases text.len() - from,
{
    if 0 <= from < text.len() && run.admits(text[from]) {
        run_end(text, from + 1, run)
    } else {
        from
    }
}

/// A run ends inside the text, holds only characters of its class, and stops
/// only at the end of the text or before a character of another class.
pub proof fn lemma_run_end(text: Seq<char>, from: int, run: Run)
    requires
        0 <= from <= text.len(),
    ensures
        from <= run_end(text, from, run) <= text.len(),
        forall|k: int| from <= k < run_end(text, from, run) ==> run.admits(#[trigger] text[k]),
        run_end(text, from, run) < text.len() ==> !run.admits(text[run_end(text, from, run)]),
    decreases text.len() - from,
{
    if from < text.len() && run.admits(text[from]) {
        lemma_run_end(text, from + 1, run);
    }
}

/// Reads the run at the cursor and appends it to `out`.
pub fn collect_run(cursor: &mut PeekableCharTracker, run: Run, out: &mut String)
    requires
        old(cursor).wf(),
    ensures
        final(cursor).moved(
            old(cursor),
            run_end(old(cursor).source(), old(cursor).offset(), run),
        ),
        final(out)@ == old(out)@ + old(cursor).source().subrange(
            old(cursor).offset(),
            final(cursor).offset(),
        ),
{
    loop
        invariant
            cursor.wf(),
            cursor.source() == old(cursor).source(),
            0 <= old(cursor).offset() <= cursor.offset(),
            run_end(cursor.source(), cursor.offset(), run) == run_end(
                old(cursor).source(),
                old(cursor).offset(),
                run,
            ),
            out@ == old(out)@ + cursor.source().subrange(old(cursor).offset(), cursor.offset()),
        ensures
            cursor.moved(old(cursor), run_end(old(cursor).source(), old(cursor).offset(), run)),
            out@ == old(out)@ + cursor.source().subrange(old(cursor).offset(), cursor.offset()),
        decreases cursor.source().len() - cursor.offset(),
    {
        let in_run = |c: &char| -> (keep: bool)
            ensures
                keep == run.admits(*c),
            { run.accepts(*c) };
        let read = cursor.next_if(in_run);
        match read {
            Some(c) => {
                out.push(c);
                assert(out@ =~= old(out)@ + cursor.source().subrange(
                    old(cursor).offset(),
                    cursor.offset(),
                ));
            },
            None => {
                break ;
            },
        }
    }
}

} // verus!
