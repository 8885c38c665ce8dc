//! Logical lines: each has its `NewLine` where no bracket is open.

use crate::chars::{
    is_alphabetic_char, is_digit_char, is_operator_char, is_prefix_char, is_quote_char,
};
use crate::collectors::comment::comment_body;
use crate::collectors::fstring::{
    closing_part, fstring_body, lemma_fstring_scan_unfolds, literal_part,
};
use crate::collectors::number::{digit_at, number_scan};
use crate::collectors::operator::operator_scan;
use crate::collectors::run::{lemma_run_end, run_end, Run};
use crate::collectors::scan::{char_at, Emission, Scan};
use crate::collectors::string::{opens_multi_line, quotes, string_scan};
use crate::cursor::at_line_start;
use crate::laws::fidelity::lemma_number_stops;
use crate::laws::count::{
    lemma_counts_add, lemma_counts_dedents, lemma_counts_single, new_line_count,
};
use crate::lexer::{
    closed_blocks, closing, dedents, lemma_lex_unfolds, lemma_step_advances, lex, lex_from,
    normalized, step, Nesting,
};
use crate::token::TokenView;
use vstd::prelude::*;

verus! {

/// Whether none of the brackets `(`, `[`, `{` stands in `text`.
pub open spec fn bracket_free(text: Seq<char>) -> bool {
    forall|k: int|
        0 <= k < text.len() ==> #[trigger] text[k] != '(' && text[k] != '[' && text[k] != '{'
}

/// Whether a logical line ends at index `at`: a line feed stands there, and
/// not at the start of its line.
pub open spec fn ends_line(text: Seq<char>, at: int) -> bool {
    0 <= at < text.len() && text[at] == '\n' && !at_line_start(text, at)
}

/// How many logical lines end where the scanner steps from index `at` on.
/// The scanner steps from token to token, so a line feed inside a string is
/// the end of no line.
pub open spec fn line_ends_from(text: Seq<char>, at: int, nesting: Nesting) -> nat
    decreases text.len() - at,
{
    if at < 0 || at >= text.len() {
        0
    } else {
        let next = step(text, at, nesting);
        let here = if ends_line(text, at) {
            1nat
        } else {
            0nat
        };
        if next.failure is Some || !(at < next.end <= text.len()) {
            here
        } else {
            here + line_ends_from(text, next.end, next.nesting)
        }
    }
}

/// How many logical lines `text` has.
pub open spec fn logical_lines(text: Seq<char>) -> nat {
    line_ends_from(normalized(text), 0, Nesting::start())
}

/// The token of a scan is no `NewLine`.
proof fn lemma_token_no_new_line(scan: Scan, token: TokenView, text: Seq<char>)
    requires
        !(token is NewLine),
    ensures
        new_line_count(Emission::token(scan, token, text).tokens) == 0,
{
    lemma_counts_single(token);
}

/// In a text without brackets, the body of a formatted string yields no
/// `NewLine` if there is none among the tokens read before.
proof fn lemma_fstring_body_no_new_line(
    text: Seq<char>,
    at: int,
    emitted: Seq<TokenView>,
    quote: char,
    multi_line: bool,
)
    requires
        bracket_free(text),
        new_line_count(emitted) == 0,
    ensures
        new_line_count(fstring_body(text, at, emitted, quote, multi_line).tokens) == 0,
    decreases text.len() - at,
{
    let none = Seq::<TokenView>::empty();
    if at < 0 || at >= text.len() {
        lemma_counts_add(emitted, none);
    } else if text[at] == quote {
        let part = closing_part(text, at, quote, multi_line);
        lemma_counts_single(TokenView::FStringEnd(quotes(quote, false)));
        lemma_counts_single(TokenView::FStringEnd(quotes(quote, true)));
        lemma_counts_add(emitted, part.tokens);
    } else {
        let part = literal_part(text, at, quote, multi_line);
        let end = run_end(text, at, Run::Literal { quote, multi_line });
        lemma_counts_single(TokenView::FStringMiddle(text.subrange(at, end)));
        lemma_counts_add(emitted, part.tokens);
        if !(part.failure is Some || !(at < part.end <= text.len())) {
            lemma_fstring_body_no_new_line(
                text,
                part.end,
                emitted + part.tokens,
                quote,
                multi_line,
            );
        }
    }
}

/// In a text without brackets, a step with no bracket open leaves none
/// open, and yields a `NewLine` where a logical line ends, and nowhere else.
proof fn lemma_step_lines(text: Seq<char>, at: int, nesting: Nesting)
    requires
        bracket_free(text),
        nesting.brackets.len() == 0,
        0 <= at < text.len(),
    ensures
        step(text, at, nesting).nesting.brackets.len() == 0,
        new_line_count(step(text, at, nesting).tokens) == (if ends_line(text, at) {
            1nat
        } else {
            0nat
        }),
{
    let c = text[at];
    let none = Seq::<TokenView>::empty();
    assert(new_line_count(none) == 0);
    if is_prefix_char(c) {
        if char_at(text, at + 1) is Some && is_quote_char(text[at + 1]) {
            if c == 'f' {
                lemma_fstring_scan_unfolds(text, at + 1, c);
                let quote = text[at + 1];
                let multi_line = opens_multi_line(text, at + 1);
                let start = TokenView::FStringStart(seq![c] + quotes(quote, multi_line));
                lemma_counts_single(start);
                lemma_fstring_body_no_new_line(
                    text,
                    at + 1 + quotes(quote, multi_line).len(),
                    seq![start],
                    quote,
                    multi_line,
                );
            } else {
                let scan = string_scan(text, at + 1, Some(c));
                lemma_token_no_new_line(scan, TokenView::String(scan.text), text);
            }
        } else {
            let end = run_end(text, at + 1, Run::Name);
            lemma_counts_single(TokenView::Name(text.subrange(at, end)));
        }
    } else if is_quote_char(c) {
        let scan = string_scan(text, at, None);
        lemma_token_no_new_line(scan, TokenView::String(scan.text), text);
    } else if is_digit_char(c) {
        let scan = number_scan(text, at, None);
        lemma_token_no_new_line(scan, TokenView::Number(scan.text), text);
    } else if c == '\n' {
        if at_line_start(text, at) {
            lemma_counts_single(TokenView::NL);
        } else {
            let end = run_end(text, at + 1, Run::Indent);
            let indent = text.subrange(at + 1, end);
            let deeper = nesting.indents.len() > 0 && indent.len() > nesting.indents.last().len();
            let opened = if deeper {
                nesting.indents.push(indent)
            } else {
                nesting.indents
            };
            let closed = closed_blocks(opened, indent.len());
            let opening = if deeper {
                seq![TokenView::Indent(indent)]
            } else {
                none
            };
            lemma_counts_single(TokenView::NewLine);
            lemma_counts_single(TokenView::Indent(indent));
            lemma_counts_dedents(closed);
            lemma_counts_add(seq![TokenView::NewLine], opening);
            lemma_counts_add(seq![TokenView::NewLine] + opening, dedents(closed));
        }
    } else if c == '#' {
        let end = run_end(text, at, Run::Comment);
        lemma_counts_single(TokenView::Comment(comment_body(text, at, end)));
    } else if is_operator_char(c) {
        let dotted = number_scan(text, at + 1, Some('.'));
        lemma_token_no_new_line(dotted, TokenView::Number(dotted.text), text);
        let scan = operator_scan(c, text, at + 1);
        lemma_token_no_new_line(scan, TokenView::OP(scan.text), text);
    } else if is_alphabetic_char(c) || c == '_' {
        let end = run_end(text, at + 1, Run::Name);
        lemma_counts_single(TokenView::Name(text.subrange(at, end)));
    } else {
    }
}

/// In a text without brackets, a scan that goes on with no bracket open
/// yields one `NewLine` for each logical line that ends from there on.
proof fn lemma_lex_from_lines(
    text: Seq<char>,
    at: int,
    nesting: Nesting,
    emitted: Seq<TokenView>,
)
    requires
        bracket_free(text),
        nesting.brackets.len() == 0,
    ensures
        lex_from(text, at, nesting, emitted).failure is None ==> new_line_count(
            lex_from(text, at, nesting, emitted).tokens,
        ) == new_line_count(emitted) + line_ends_from(text, at, nesting),
    decreases text.len() - at,
{
    if at < 0 || at >= text.len() {
        let count = closed_blocks(nesting.indents, 0);
        lemma_counts_dedents(count);
        lemma_counts_single(TokenView::EndMarker);
        assert(closing(nesting) =~= dedents(count) + seq![TokenView::EndMarker]);
        lemma_counts_add(dedents(count), seq![TokenView::EndMarker]);
        lemma_counts_add(emitted, closing(nesting));
    } else {
        let next = step(text, at, nesting);
        lemma_step_lines(text, at, nesting);
        lemma_step_advances(text, at, nesting);
        lemma_counts_add(emitted, next.tokens);
        if !(next.failure is Some || !(at < next.end <= text.len())) {
            lemma_lex_from_lines(text, next.end, next.nesting, emitted + next.tokens);
        }
    }
}

/// Where no bracket stands in a text, every logical line has its `NewLine`:
/// a scan that does not fail yields as many `NewLine` tokens as the text has
/// logical lines.
pub proof fn logical_lines_have_new_lines(text: Seq<char>)
    requires
        bracket_free(text),
    ensures
        lex(text).failure is None ==> new_line_count(lex(text).tokens) == logical_lines(text),
{
    lemma_lex_unfolds(text);
    assert(bracket_free(normalized(text)));
    lemma_lex_from_lines(normalized(text), 0, Nesting::start(), Seq::empty());
}

/// Whether no quote stands in `text`.
pub open spec fn quote_free(text: Seq<char>) -> bool {
    forall|k: int| 0 <= k < text.len() ==> !is_quote_char(#[trigger] text[k])
}

/// How many lines that are not empty end in `text` from index `from` on:
/// how many line feeds stand there that are not the first character of their
/// line.
pub open spec fn filled_lines_from(text: Seq<char>, from: int) -> nat
    decreases text.len() - from,
{
    if from < 0 || from >= text.len() {
        0
    } else {
        filled_lines_from(text, from + 1) + if ends_line(text, from) {
            1nat
        } else {
            0nat
        }
    }
}

/// A stretch without a line feed ends no line.
proof fn lemma_filled_lines_skip(text: Seq<char>, from: int, to: int)
    requires
        0 <= from <= to <= text.len(),
        forall|k: int| from <= k < to ==> #[trigger] text[k] != '\n',
    ensures
        filled_lines_from(text, from) == filled_lines_from(text, to),
    decreases to - from,
{
    if from < to {
        lemma_filled_lines_skip(text, from + 1, to);
    }
}

/// In a text without brackets and quotes, a step that does not fail passes
/// over no line feed but the one it starts at.
proof fn lemma_step_meets_line_feeds(text: Seq<char>, at: int, nesting: Nesting)
    requires
        quote_free(text),
        0 <= at < text.len(),
        step(text, at, nesting).failure is None,
    ensures
        at < step(text, at, nesting).end <= text.len(),
        forall|k: int| at < k < step(text, at, nesting).end ==> #[trigger] text[k] != '\n',
{
    let c = text[at];
    let end = step(text, at, nesting).end;
    lemma_step_advances(text, at, nesting);
    lemma_run_end(text, at + 1, Run::Name);
    lemma_run_end(text, at + 1, Run::Indent);
    lemma_run_end(text, at, Run::Comment);
    if is_prefix_char(c) {
        if at + 1 < text.len() {
            assert(!is_quote_char(text[at + 1]));
        }
    } else if is_quote_char(c) {
    } else if is_digit_char(c) {
        assert forall|k: int| at < k < end implies #[trigger] text[k] != '\n' by {
            if text[k] == '\n' {
                lemma_number_stops(text, at, false, false, k);
            }
        }
    } else if c == '\n' {
    } else if c == '#' {
    } else if is_operator_char(c) {
        if c == '.' && digit_at(text, at + 1) {
            assert forall|k: int| at < k < end implies #[trigger] text[k] != '\n' by {
                if text[k] == '\n' {
                    lemma_number_stops(text, at + 1, true, false, k);
                }
            }
        }
    } else {
    }
}

/// In a text without brackets and quotes, the logical lines that end from
/// index `at` on are the lines that are not empty.
proof fn lemma_line_ends_are_filled_lines(
    text: Seq<char>,
    at: int,
    nesting: Nesting,
    emitted: Seq<TokenView>,
)
    requires
        quote_free(text),
        0 <= at,
        lex_from(text, at, nesting, emitted).failure is None,
    ensures
        line_ends_from(text, at, nesting) == filled_lines_from(text, at),
    decreases text.len() - at,
{
    if at < text.len() {
        let next = step(text, at, nesting);
        if next.failure is None {
            lemma_step_meets_line_feeds(text, at, nesting);
            lemma_filled_lines_skip(text, at + 1, next.end);
            lemma_line_ends_are_filled_lines(text, next.end, next.nesting, emitted + next.tokens);
        }
    }
}

/// Where neither a bracket nor a quote stands in a text, every line that is
/// not empty has its `NewLine`: a scan that does not fail yields as many
/// `NewLine` tokens as line feeds stand in the text, as it is scanned, that
/// are not the first character of their line.
pub proof fn filled_lines_have_new_lines(text: Seq<char>)
    requires
        bracket_free(text),
        quote_free(text),
    ensures
        lex(text).failure is None ==> new_line_count(lex(text).tokens) == filled_lines_from(
            normalized(text),
            0,
        ),
{
    logical_lines_have_new_lines(text);
    lemma_lex_unfolds(text);
    assert(quote_free(normalized(text)));
    if lex(text).failure is None {
        lemma_line_ends_are_filled_lines(normalized(text), 0, Nesting::start(), Seq::empty());
    }
}

} // verus!
