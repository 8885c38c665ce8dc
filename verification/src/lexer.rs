//! What the scanner makes of a text: the tokens, or the failure that ends the
//! scan, as a function of the text alone.

use crate::chars::{
    is_alphabetic_char, is_digit_char, is_operator_char, is_prefix_char, is_quote_char,
};
use crate::collectors::comment::comment_body;
use crate::collectors::fstring::{fstring_scan, lemma_fstring_scan_advances};
use crate::collectors::number::{digit_at, lemma_number_end_bounds, number_scan};
use crate::collectors::operator::operator_scan;
use crate::collectors::run::{lemma_run_end, run_end, Run};
use crate::collectors::scan::{char_at, Emission};
use crate::collectors::string::{lemma_string_scan_advances, string_scan};
use crate::cursor::at_line_start;
use crate::error::{placed, Failure, TokenizeError};
use crate::token::{Token, TokenView};
use vstd::prelude::*;

verus! {

/// What the scanner remembers between tokens.
pub struct Nesting {
    /// The indentation of every block that is open, outermost first. The
    /// first entry is the empty indentation of the text itself.
    pub indents: Seq<Seq<char>>,
    /// The brackets that are open, outermost first.
    pub brackets: Seq<char>,
}

impl Nesting {
    /// The nesting at the start of a text: no block and no bracket is open.
    pub open spec fn start() -> Nesting {
        Nesting { indents: seq![Seq::empty()], brackets: Seq::empty() }
    }

    /// The outermost indentation is empty, and every deeper one is longer
    /// than the one around it.
    pub open spec fn wf(self) -> bool {
        &&& self.indents.len() >= 1
        &&& self.indents[0].len() == 0
        &&& forall|k: int|
            0 < k < self.indents.len() ==> self.indents[k - 1].len() < (
            #[trigger] self.indents[k]).len()
    }
}

/// One step of the scanner: what it reads at one place.
pub struct Step {
    /// The index at which the cursor is left.
    pub end: int,
    /// What the scanner remembers after the step.
    pub nesting: Nesting,
    /// The tokens that the step yields.
    pub tokens: Seq<TokenView>,
    /// Why the scan ends here, if it does.
    pub failure: Option<Failure>,
}

impl Step {
    /// The step that reads what `read` says and remembers `nesting`.
    pub open spec fn of(read: Emission, nesting: Nesting) -> Step {
        Step { end: read.end, nesting, tokens: read.tokens, failure: read.failure }
    }
}

/// The outcome of a scan.
pub struct Lexing {
    /// The tokens read, up to the failure where there is one.
    pub tokens: Seq<TokenView>,
    /// Why the scan ended early, if it did.
    pub failure: Option<Failure>,
}

impl Lexing {
    /// Whether `result` is what this scan hands out: its tokens where it
    /// does not fail, else its failure.
    pub open spec fn delivers(self, result: Result<Vec<Token>, TokenizeError>) -> bool {
        match result {
            Ok(tokens) => self.failure is None && tokens.deep_view() == self.tokens,
            Err(error) => self.failure == Some(error@),
        }
    }
}

/// `count` times `Dedent`.
pub open spec fn dedents(count: nat) -> Seq<TokenView> {
    Seq::new(count, |k: int| TokenView::Dedent)
}

/// How many of the innermost blocks are indented by more than `width`.
pub open spec fn closed_blocks(indents: Seq<Seq<char>>, width: nat) -> nat
    decreases indents.len(),
{
    if indents.len() > 0 && width < indents.last().len() {
        1 + closed_blocks(indents.drop_last(), width)
    } else {
        0
    }
}

/// The open brackets after the operator character `c`: an opening bracket is
/// added, and a closing one removes the innermost if that is its partner.
pub open spec fn brackets_after(brackets: Seq<char>, c: char) -> Seq<char> {
    if c == '(' || c == '[' || c == '{' {
        brackets.push(c)
    } else if brackets.len() > 0 && ((c == ')' && brackets.last() == '(') || (c == ']'
        && brackets.last() == '[') || (c == '}' && brackets.last() == '{')) {
        brackets.drop_last()
    } else {
        brackets
    }
}

/// What is read at a line feed, which stands at index `at`.
///
/// At the start of a line or inside brackets it is an `NL` and nothing else.
/// Anywhere else it ends a logical line: a `NewLine`, then the indentation of
/// the next line is read; an `Indent` follows if that is longer than the
/// innermost block's, and a `Dedent` for every block that is indented by more
/// than it.
pub open spec fn line_break_step(text: Seq<char>, at: int, nesting: Nesting) -> Step {
    if at_line_start(text, at) || nesting.brackets.len() > 0 {
        Step { end: at + 1, nesting, tokens: seq![TokenView::NL], failure: None }
    } else {
        let end = run_end(text, at + 1, Run::Indent);
        let indent = text.subrange(at + 1, end);
        let deeper = nesting.indents.len() > 0 && indent.len() > nesting.indents.last().len();
        let opened = if deeper {
            nesting.indents.push(indent)
        } else {
            nesting.indents
        };
        let closed = closed_blocks(opened, indent.len());
        Step {
            end,
            nesting: Nesting {
                indents: opened.take(opened.len() - closed),
                brackets: nesting.brackets,
            },
            tokens: seq![TokenView::NewLine] + (if deeper {
                seq![TokenView::Indent(indent)]
            } else {
                Seq::empty()
            }) + dedents(closed),
            failure: None,
        }
    }
}

/// What is read at a string literal whose first quote stands at index
/// `from`, after `prefix` where one was read before.
pub open spec fn string_part(text: Seq<char>, from: int, prefix: Option<char>) -> Emission {
    let scan = string_scan(text, from, prefix);
    Emission::token(scan, TokenView::String(scan.text), text)
}

/// What is read at a number literal that goes on at index `from`, after
/// `seed` where its first character was read before.
pub open spec fn number_part(text: Seq<char>, from: int, seed: Option<char>) -> Emission {
    let scan = number_scan(text, from, seed);
    Emission::token(scan, TokenView::Number(scan.text), text)
}

/// What is read at an operator character, which stands at index `at`: a
/// number if it is a dot before a digit, else an operator.
pub open spec fn operator_part(text: Seq<char>, at: int) -> Emission {
    if text[at] == '.' && digit_at(text, at + 1) {
        number_part(text, at + 1, Some('.'))
    } else {
        let scan = operator_scan(text[at], text, at + 1);
        Emission::token(scan, TokenView::OP(scan.text), text)
    }
}

/// What is read at a name whose first character stands at index `at`.
pub open spec fn name_part(text: Seq<char>, at: int) -> Emission {
    let end = run_end(text, at + 1, Run::Name);
    Emission::done(end, seq![TokenView::Name(text.subrange(at, end))])
}

/// What is read at a comment whose marker stands at index `at`.
pub open spec fn comment_part(text: Seq<char>, at: int) -> Emission {
    let end = run_end(text, at, Run::Comment);
    Emission::done(end, seq![TokenView::Comment(comment_body(text, at, end))])
}

/// Whether a formatted string starts at index `at`: an `f` before a quote.
pub open spec fn starts_fstring(text: Seq<char>, at: int) -> bool {
    0 <= at && at + 1 < text.len() && text[at] == 'f' && is_quote_char(text[at + 1])
}

/// What is read at one of the letters `r`, `f`, `b`, `u`, which stands at
/// index `at`: before a quote it starts a string, a formatted one if it is
/// `f`; before anything else it starts a name.
pub open spec fn prefixed_part(text: Seq<char>, at: int) -> Emission
    decreases text.len() - at, 1nat,
{
    if char_at(text, at + 1) is Some && is_quote_char(text[at + 1]) {
        if text[at] == 'f' {
            fstring_scan(text, at + 1, text[at])
        } else {
            string_part(text, at + 1, Some(text[at]))
        }
    } else {
        name_part(text, at)
    }
}

/// The step at index `at`, chosen by the character that stands there:
///
/// - `r`, `f`, `b`, `u` start a string or a name;
/// - a quote starts a string;
/// - a digit starts a number;
/// - a line feed ends a line;
/// - `#` starts a comment;
/// - an operator character starts an operator or a number, and the brackets
///   are kept up to date;
/// - a letter or `_` starts a name;
/// - anything else is passed over.
pub open spec fn step(text: Seq<char>, at: int, nesting: Nesting) -> Step
    decreases text.len() - at, 2nat,
{
    let c = text[at];
    if at < 0 || at >= text.len() {
        Step::of(Emission::done(at, Seq::empty()), nesting)
    } else if is_prefix_char(c) {
        Step::of(prefixed_part(text, at), nesting)
    } else if is_quote_char(c) {
        Step::of(string_part(text, at, None), nesting)
    } else if is_digit_char(c) {
        Step::of(number_part(text, at, None), nesting)
    } else if c == '\n' {
        line_break_step(text, at, nesting)
    } else if c == '#' {
        Step::of(comment_part(text, at), nesting)
    } else if is_operator_char(c) {
        Step::of(
            operator_part(text, at),
            Nesting { indents: nesting.indents, brackets: brackets_after(nesting.brackets, c) },
        )
    } else if is_alphabetic_char(c) || c == '_' {
        Step::of(name_part(text, at), nesting)
    } else {
        Step::of(Emission::done(at + 1, Seq::empty()), nesting)
    }
}

/// Every step that does not fail moves on, and stays inside the text.
pub proof fn lemma_step_advances(text: Seq<char>, at: int, nesting: Nesting)
    requires
        0 <= at < text.len(),
    ensures
        step(text, at, nesting).failure is None ==> at < step(text, at, nesting).end
            <= text.len(),
{
    let c = text[at];
    lemma_run_end(text, at + 1, Run::Name);
    lemma_run_end(text, at + 1, Run::Comment);
    lemma_run_end(text, at + 1, Run::Indent);
    if is_prefix_char(c) {
        if char_at(text, at + 1) is Some && is_quote_char(text[at + 1]) {
            if c == 'f' {
                lemma_fstring_scan_advances(text, at + 1, c);
            } else {
                lemma_string_scan_advances(text, at + 1, Some(c));
            }
        }
    } else if is_quote_char(c) {
        lemma_string_scan_advances(text, at, None);
    } else if is_digit_char(c) {
        lemma_number_end_bounds(text, at, false, false);
    } else if is_operator_char(c) {
        lemma_number_end_bounds(text, at + 1, true, false);
    }
}

/// The tokens that end every scan: a `Dedent` for each block still open, and
/// the end marker.
pub open spec fn closing(nesting: Nesting) -> Seq<TokenView> {
    dedents(closed_blocks(nesting.indents, 0)).push(TokenView::EndMarker)
}

/// The scan of `text` from index `at` on, where `emitted` holds the tokens
/// read so far: step by step to the end of the text, or to the first failure.
/// Every step moves on, so the scan ends.
pub open spec fn lex_from(
    text: Seq<char>,
    at: int,
    nesting: Nesting,
    emitted: Seq<TokenView>,
) -> Lexing
    decreases text.len() - at, 3nat,
{
    if at < 0 || at >= text.len() {
        Lexing { tokens: emitted + closing(nesting), failure: None }
    } else {
        let next = step(text, at, nesting);
        if next.failure is Some || !(at < next.end <= text.len()) {
            Lexing { tokens: emitted + next.tokens, failure: next.failure }
        } else {
            lex_from(text, next.end, next.nesting, emitted + next.tokens)
        }
    }
}

/// The text as it is scanned: with a line feed at its end, added if it is
/// not there.
pub open spec fn normalized(text: Seq<char>) -> Seq<char> {
    if text.len() > 0 && text.last() == '\n' {
        text
    } else {
        text.push('\n')
    }
}

/// The scan of `text`: the tokens from its first character to the end
/// marker, or the failure that ends the scan.
#[verifier::opaque]
pub open spec fn lex(text: Seq<char>) -> Lexing
    decreases text.len() + 1, 4nat,
{
    lex_from(normalized(text), 0, Nesting::start(), Seq::empty())
}

/// A scan that does not fail ends with the end marker.
pub proof fn lemma_lex_from_ends(
    text: Seq<char>,
    at: int,
    nesting: Nesting,
    emitted: Seq<TokenView>,
)
    ensures
        lex_from(text, at, nesting, emitted).failure is None ==> lex_from(
            text,
            at,
            nesting,
            emitted,
        ).tokens.len() > 0 && lex_from(text, at, nesting, emitted).tokens.last() is EndMarker,
    decreases text.len() - at,
{
    if !(at < 0 || at >= text.len()) {
        let next = step(text, at, nesting);
        lemma_step_advances(text, at, nesting);
        if !(next.failure is Some || !(at < next.end <= text.len())) {
            lemma_lex_from_ends(text, next.end, next.nesting, emitted + next.tokens);
        }
    }
}

/// Whether `text` can be scanned: every position in it, with the line feed
/// that may be added to it, fits in `usize`, and so does the position of its
/// failure, if it has one.
pub open spec fn scannable(text: Seq<char>) -> bool {
    text.len() + 1 < usize::MAX && placed(lex(text).failure)
}

/// The scan of a text is the scan from its start, with nothing open and
/// nothing read.
pub proof fn lemma_lex_unfolds(text: Seq<char>)
    ensures
        lex(text) == lex_from(normalized(text), 0, Nesting::start(), Seq::empty()),
{
    reveal(lex);
}

} // verus!
