//! Embedded expressions: what their scans end with.

use crate::chars::{
    is_alphabetic_char, is_digit_char, is_operator_char, is_prefix_char, is_quote_char,
};
use crate::collectors::fstring::{
    embedded, expression_part, fstring_body, fstring_scan, lemma_fstring_scan_unfolds,
    lemma_part_bounds, literal_part,
};
use crate::collectors::operator::operator_extent;
use crate::collectors::run::{lemma_run_end, run_end, Run};
use crate::collectors::number::digit_at;
use crate::collectors::scan::{char_at, seed_text};
use crate::collectors::string::{
    escape_value, opens_multi_line, quotes, string_body, string_scan,
};
use crate::laws::fidelity::{lemma_number_stops, lemma_run_stops};
use crate::lexer::{
    closed_blocks, closing, dedents, lemma_lex_unfolds, lemma_step_advances, lex, lex_from,
    normalized, step, Nesting,
};
use crate::token::TokenView;
use vstd::prelude::*;

verus! {

/// Whether `text` is an embedded expression: it goes from an opening brace
/// to the first closing brace.
pub open spec fn is_expression(text: Seq<char>) -> bool {
    &&& text.len() >= 2
    &&& text[0] == '{'
    &&& text.last() == '}'
    &&& forall|k: int| 0 < k < text.len() - 1 ==> #[trigger] text[k] != '}'
}

/// The body of a string literal that is read ends with its quote.
pub proof fn lemma_string_body_closes(
    text: Seq<char>,
    at: int,
    so_far: Seq<char>,
    quote: char,
    multi_line: bool,
    raw: bool,
)
    requires
        0 <= at <= text.len(),
        string_body(text, at, so_far, quote, multi_line, raw).fault is None,
    ensures
        at < string_body(text, at, so_far, quote, multi_line, raw).end <= text.len(),
        text[string_body(text, at, so_far, quote, multi_line, raw).end - 1] == quote,
    decreases text.len() - at,
{
    if at < text.len() {
        if text[at] == '\\' && !raw {
            if at + 1 < text.len() {
                let escaped = text[at + 1];
                if escaped == '\n' {
                    lemma_string_body_closes(text, at + 2, so_far, quote, multi_line, raw);
                } else if escape_value(escaped) is Some {
                    lemma_string_body_closes(
                        text,
                        at + 2,
                        so_far.push(escape_value(escaped)->0),
                        quote,
                        multi_line,
                        raw,
                    );
                }
            }
        } else if text[at] == '\n' && !multi_line {
        } else if text[at] == quote {
            if multi_line && !(char_at(text, at + 1) == Some(quote) && char_at(text, at + 2)
                == Some(quote)) {
                lemma_string_body_closes(
                    text,
                    at + 1,
                    so_far.push(quote),
                    quote,
                    multi_line,
                    raw,
                );
            }
        } else {
            lemma_string_body_closes(
                text,
                at + 1,
                so_far.push(text[at]),
                quote,
                multi_line,
                raw,
            );
        }
    }
}

/// A string literal that is read ends with the quote that it starts with.
pub proof fn lemma_string_closes(text: Seq<char>, from: int, prefix: Option<char>)
    requires
        0 <= from <= text.len(),
        string_scan(text, from, prefix).fault is None,
    ensures
        from < string_scan(text, from, prefix).end <= text.len(),
        text[string_scan(text, from, prefix).end - 1] == text[from],
{
    let quote = text[from];
    let multi_line = opens_multi_line(text, from);
    lemma_string_body_closes(
        text,
        from + quotes(quote, multi_line).len(),
        seed_text(prefix) + quotes(quote, multi_line),
        quote,
        multi_line,
        prefix == Some('r'),
    );
}

/// The body of a formatted string that is read ends with its quote.
pub proof fn lemma_fstring_body_closes(
    text: Seq<char>,
    at: int,
    emitted: Seq<TokenView>,
    quote: char,
    multi_line: bool,
)
    requires
        0 <= at <= text.len(),
        fstring_body(text, at, emitted, quote, multi_line).failure is None,
    ensures
        at < fstring_body(text, at, emitted, quote, multi_line).end <= text.len(),
        text[fstring_body(text, at, emitted, quote, multi_line).end - 1] == quote,
    decreases text.len() - at,
{
    if at < text.len() && text[at] != quote {
        lemma_part_bounds(text, at, quote, multi_line);
        let part = if text[at] == '{' {
            expression_part(text, at)
        } else {
            literal_part(text, at, quote, multi_line)
        };
        if !(part.failure is Some || !(at < part.end <= text.len())) {
            lemma_fstring_body_closes(text, part.end, emitted + part.tokens, quote, multi_line);
        }
    }
}

/// A formatted string that is read ends with the quote that it starts with.
pub proof fn lemma_fstring_closes(text: Seq<char>, from: int, prefix: char)
    requires
        0 <= from <= text.len(),
        fstring_scan(text, from, prefix).failure is None,
    ensures
        from < fstring_scan(text, from, prefix).end <= text.len(),
        text[fstring_scan(text, from, prefix).end - 1] == text[from],
{
    lemma_fstring_scan_unfolds(text, from, prefix);
    let quote = text[from];
    let multi_line = opens_multi_line(text, from);
    lemma_fstring_body_closes(
        text,
        from + quotes(quote, multi_line).len(),
        seq![TokenView::FStringStart(seq![prefix] + quotes(quote, multi_line))],
        quote,
        multi_line,
    );
}

/// Where the scanner can stand in an expression that is scanned with a line
/// feed behind it: at its start with nothing open, inside it with its brace
/// as the outermost open bracket, or at the line feed. No block is open.
pub open spec fn inside(text: Seq<char>, at: int, nesting: Nesting) -> bool {
    &&& nesting.indents == seq![Seq::<char>::empty()]
    &&& {
        ||| at == 0 && nesting.brackets.len() == 0
        ||| 0 < at < text.len() - 1 && nesting.brackets.len() >= 1 && nesting.brackets[0] == '{'
        ||| at == text.len() - 1
    }
}

/// A step inside an expression leaves the scanner inside it, or at the line
/// feed behind it.
proof fn lemma_step_inside(text: Seq<char>, at: int, nesting: Nesting)
    requires
        text.len() >= 3,
        text.last() == '\n',
        is_expression(text.drop_last()),
        inside(text, at, nesting),
        0 <= at < text.len() - 1,
        step(text, at, nesting).failure is None,
    ensures
        at < step(text, at, nesting).end,
        inside(text, step(text, at, nesting).end, step(text, at, nesting).nesting),
{
    let c = text[at];
    let last = text.len() - 1;
    lemma_step_advances(text, at, nesting);
    assert(text[0] == text.drop_last()[0]);
    assert(text[last - 1] == text.drop_last().last());
    assert forall|k: int| 0 < k < last - 1 implies text[k] != '}' by {
        assert(text.drop_last()[k] != '}');
    }
    if at == 0 {
        assert(operator_extent('{', text, 1) == 0);
    } else if is_prefix_char(c) {
        if char_at(text, at + 1) is Some && is_quote_char(text[at + 1]) {
            if c == 'f' {
                lemma_fstring_closes(text, at + 1, c);
            } else {
                lemma_string_closes(text, at + 1, Some(c));
            }
        } else {
            lemma_run_stops(text, at + 1, Run::Name, last);
        }
    } else if is_quote_char(c) {
        lemma_string_closes(text, at, None);
    } else if is_digit_char(c) {
        lemma_number_stops(text, at, false, false, last);
    } else if c == '\n' {
    } else if c == '#' {
        lemma_run_stops(text, at, Run::Comment, last);
    } else if is_operator_char(c) {
        if c == '.' && digit_at(text, at + 1) {
            lemma_number_stops(text, at + 1, true, false, last);
        }
    } else if is_alphabetic_char(c) || c == '_' {
        lemma_run_stops(text, at + 1, Run::Name, last);
    } else {
    }
}

/// A scan that goes on inside an expression ends with a line break and the
/// end marker.
proof fn lemma_lex_from_inside(
    text: Seq<char>,
    at: int,
    nesting: Nesting,
    emitted: Seq<TokenView>,
)
    requires
        text.len() >= 3,
        text.last() == '\n',
        is_expression(text.drop_last()),
        inside(text, at, nesting),
        0 <= at < text.len(),
    ensures
        ({
            let read = lex_from(text, at, nesting, emitted);
            read.failure is None ==> {
                &&& read.tokens.len() >= emitted.len() + 2
                &&& read.tokens.last() is EndMarker
                &&& read.tokens[read.tokens.len() - 2].is_line_break()
            }
        }),
    decreases text.len() - at,
{
    let next = step(text, at, nesting);
    let last = text.len() - 1;
    if next.failure is None {
        if at < last {
            lemma_step_inside(text, at, nesting);
            lemma_lex_from_inside(text, next.end, next.nesting, emitted + next.tokens);
        } else {
            assert(text[last - 1] == text.drop_last().last());
            assert(run_end(text, at + 1, Run::Indent) == at + 1);
            assert(text.subrange(at + 1, at + 1) =~= Seq::<char>::empty());
            assert(closed_blocks(nesting.indents, 0) == 0);
            assert(nesting.indents.take(1) =~= nesting.indents);
            assert(next.end == at + 1);
            assert(next.nesting.indents == nesting.indents);
            assert(next.tokens =~= seq![next.tokens[0]]);
            assert(next.tokens[0].is_line_break());
            assert(dedents(0) =~= Seq::<TokenView>::empty());
            assert(closing(next.nesting) =~= seq![TokenView::EndMarker]);
            let read = lex_from(text, at, nesting, emitted);
            let rest = lex_from(text, next.end, next.nesting, emitted + next.tokens);
            assert(rest.tokens == (emitted + next.tokens) + closing(next.nesting));
            assert(read == rest);
            assert(read.tokens =~= emitted + next.tokens + seq![TokenView::EndMarker]);
        }
    }
}

/// The scan of an embedded expression ends with a line break and the end
/// marker, so what enters the tokens around the expression is that scan
/// without its last two tokens.
pub proof fn expressions_end_with_a_line_break(text: Seq<char>)
    requires
        is_expression(text),
    ensures
        lex(text).failure is None ==> {
            &&& lex(text).tokens.len() >= 2
            &&& lex(text).tokens.last() is EndMarker
            &&& lex(text).tokens[lex(text).tokens.len() - 2].is_line_break()
            &&& embedded(lex(text).tokens) == lex(text).tokens.take(lex(text).tokens.len() - 2)
        },
{
    lemma_lex_unfolds(text);
    let scanned = normalized(text);
    assert(scanned == text.push('\n'));
    assert(scanned.drop_last() =~= text);
    lemma_lex_from_inside(scanned, 0, Nesting::start(), Seq::empty());
    let tokens = lex(text).tokens;
    if lex(text).failure is None {
        assert(tokens.drop_last().drop_last() =~= tokens.take(tokens.len() - 2));
    }
}

/// What an expression embedded in a formatted string is scanned as is an
/// expression.
pub proof fn embedded_texts_are_expressions(text: Seq<char>, at: int)
    requires
        0 <= at < text.len(),
        text[at] == '{',
        run_end(text, at + 1, Run::Expression) < text.len(),
    ensures
        is_expression(text.subrange(at, run_end(text, at + 1, Run::Expression) + 1)),
{
    lemma_run_end(text, at + 1, Run::Expression);
}

} // verus!
