//! Positions: how far the position of a failure can reach.

use crate::collectors::fstring::{
    expression_part, fstring_body, fstring_scan, lemma_fstring_scan_unfolds, lemma_part_bounds,
    literal_part,
};
use crate::collectors::run::{lemma_run_end, run_end, Run};
use crate::collectors::number::lemma_number_end_bounds;
use crate::collectors::string::{lemma_string_scan_advances, opens_multi_line, quotes};
use crate::cursor::{lemma_position_reach, position_at};
use crate::error::{placed, Failure};
use crate::lexer::{
    lemma_lex_unfolds, lex, lex_from, normalized, scannable, starts_fstring, step, Nesting,
};
use crate::limits::{lemma_short_enough, position_budget, short_enough};
use crate::token::TokenView;
use vstd::prelude::*;

verus! {

/// The most that the line and the column of a failure can add up to where
/// an expression may start in a text of length `len` with `room` characters
/// from there to the end of the text.
#[verifier::opaque]
pub open spec fn nested_budget(len: int, room: int) -> int {
    (room + 3) * (room + 3) + len + 2
}

/// Whether `failure`, if there is one, reaches no further than `budget`.
pub open spec fn within(failure: Option<Failure>, budget: int) -> bool {
    match failure {
        Some(failure) => failure.reach() <= budget,
        None => true,
    }
}

/// The budget covers every position in the text, and grows with the room.
proof fn lemma_nested_budget(len: int, less: int, more: int)
    requires
        -3 <= less <= more,
    ensures
        len + 2 <= nested_budget(len, less) <= nested_budget(len, more),
{
    reveal(nested_budget);
    assert(0 <= (less + 3) * (less + 3) <= (more + 3) * (more + 3)) by (nonlinear_arith)
        requires
            -3 <= less <= more,
    ;
}

/// The budget of an expression, and the position behind it, together stay
/// within the budget of the place where the expression starts.
proof fn lemma_nested_budget_of_expression(len: int, inner: nat, room: int)
    requires
        inner <= room,
    ensures
        position_budget(inner) + len + 2 <= nested_budget(len, room),
{
    reveal(nested_budget);
    reveal(position_budget);
    assert((inner + 3) * (inner + 3) <= (room + 3) * (room + 3)) by (nonlinear_arith)
        requires
            0 <= inner <= room,
    ;
}

/// The budget at the start of a text, as it is scanned, is within the budget
/// of the text.
proof fn lemma_nested_budget_of_text(len: nat, scanned: int)
    requires
        0 <= scanned <= len + 1,
    ensures
        nested_budget(scanned, scanned - 2) <= position_budget(len),
{
    reveal(nested_budget);
    reveal(position_budget);
    assert((scanned + 1) * (scanned + 1) + scanned + 2 <= (len + 3) * (len + 3))
        by (nonlinear_arith)
        requires
            0 <= scanned <= len + 1,
    ;
}

/// The failure of an embedded expression stays within the budget of the
/// place where it starts.
proof fn lemma_expression_reach(text: Seq<char>, at: int)
    requires
        0 <= at < text.len(),
    ensures
        within(
            expression_part(text, at).failure,
            nested_budget(text.len() as int, text.len() - at),
        ),
    decreases text.len() - at + 1, 6nat,
{
    let close = run_end(text, at + 1, Run::Expression);
    let len = text.len() as int;
    lemma_nested_budget(len, len - at, len - at);
    if 0 <= at < close < text.len() {
        let inner = text.subrange(at, close + 1);
        lemma_lex_reach(inner);
        lemma_position_reach(text, close + 1);
        lemma_nested_budget_of_expression(len, inner.len(), len - at);
    } else {
        lemma_run_end(text, at + 1, Run::Expression);
        lemma_position_reach(text, close);
    }
}

/// The failure of the body of a formatted string stays within the budget of
/// the place where the body is taken up.
proof fn lemma_fstring_body_reach(
    text: Seq<char>,
    at: int,
    emitted: Seq<TokenView>,
    quote: char,
    multi_line: bool,
)
    requires
        0 <= at <= text.len(),
    ensures
        within(
            fstring_body(text, at, emitted, quote, multi_line).failure,
            nested_budget(text.len() as int, text.len() - at),
        ),
    decreases text.len() - at + 1, 7nat,
{
    let len = text.len() as int;
    lemma_nested_budget(len, len - at, len - at);
    if at >= text.len() {
        lemma_position_reach(text, at);
    } else if text[at] == quote {
        if at + 3 <= len {
            lemma_position_reach(text, at + 3);
        }
        lemma_position_reach(text, len);
    } else {
        lemma_part_bounds(text, at, quote, multi_line);
        let part = if text[at] == '{' {
            expression_part(text, at)
        } else {
            literal_part(text, at, quote, multi_line)
        };
        if text[at] == '{' {
            lemma_expression_reach(text, at);
        } else {
            let end = run_end(text, at, Run::Literal { quote, multi_line });
            lemma_run_end(text, at, Run::Literal { quote, multi_line });
            if end < len {
                lemma_position_reach(text, end + 1);
            }
        }
        if !(part.failure is Some || !(at < part.end <= text.len())) {
            lemma_fstring_body_reach(text, part.end, emitted + part.tokens, quote, multi_line);
            lemma_nested_budget(len, len - part.end, len - at);
        }
    }
}

/// The failure of a formatted string stays within the budget of the place
/// behind its first quote.
proof fn lemma_fstring_scan_reach(text: Seq<char>, from: int, prefix: char)
    requires
        0 <= from <= text.len(),
    ensures
        within(
            fstring_scan(text, from, prefix).failure,
            nested_budget(text.len() as int, text.len() - from - 1),
        ),
    decreases text.len() - from, 8nat,
{
    let len = text.len() as int;
    lemma_fstring_scan_unfolds(text, from, prefix);
    lemma_nested_budget(len, len - from - 1, len - from - 1);
    if from >= text.len() {
        lemma_position_reach(text, from);
    } else {
        let quote = text[from];
        let multi_line = opens_multi_line(text, from);
        let start = from + quotes(quote, multi_line).len();
        lemma_fstring_body_reach(
            text,
            start,
            seq![TokenView::FStringStart(seq![prefix] + quotes(quote, multi_line))],
            quote,
            multi_line,
        );
        lemma_nested_budget(len, len - start, len - from - 1);
    }
}

/// The failure of a step stays within the budget of the place behind the
/// two characters that a formatted string starts with.
proof fn lemma_step_reach(text: Seq<char>, at: int, nesting: Nesting)
    requires
        0 <= at < text.len(),
    ensures
        within(
            step(text, at, nesting).failure,
            nested_budget(text.len() as int, text.len() - at - 2),
        ),
    decreases text.len() - at, 2nat,
{
    let len = text.len() as int;
    let next = step(text, at, nesting);
    lemma_nested_budget(len, len - at - 2, len - at - 2);
    if starts_fstring(text, at) {
        lemma_fstring_scan_reach(text, at + 1, text[at]);
    } else if next.failure is Some {
        lemma_step_fails_in_text(text, at, nesting);
        lemma_position_reach(text, next.end);
    }
}

/// A step that is no formatted string fails, if it fails, at the place in
/// the text where it gives up.
proof fn lemma_step_fails_in_text(text: Seq<char>, at: int, nesting: Nesting)
    requires
        0 <= at < text.len(),
        !starts_fstring(text, at),
        step(text, at, nesting).failure is Some,
    ensures
        0 <= step(text, at, nesting).end <= text.len(),
        step(text, at, nesting).failure->0.line == position_at(
            text,
            step(text, at, nesting).end,
        ).0,
        step(text, at, nesting).failure->0.column == position_at(
            text,
            step(text, at, nesting).end,
        ).1,
{
    lemma_string_scan_advances(text, at + 1, Some(text[at]));
    lemma_string_scan_advances(text, at, None);
    lemma_number_end_bounds(text, at, false, false);
    if at + 1 <= text.len() {
        lemma_number_end_bounds(text, at + 1, true, false);
    }
}

/// The failure of a scan from index `at` on stays within the budget of the
/// place behind the two characters that a formatted string starts with.
proof fn lemma_lex_from_reach(
    text: Seq<char>,
    at: int,
    nesting: Nesting,
    emitted: Seq<TokenView>,
)
    requires
        0 <= at <= text.len(),
    ensures
        within(
            lex_from(text, at, nesting, emitted).failure,
            nested_budget(text.len() as int, text.len() - at - 2),
        ),
    decreases text.len() - at, 3nat,
{
    let len = text.len() as int;
    if at < text.len() {
        let next = step(text, at, nesting);
        lemma_step_reach(text, at, nesting);
        if !(next.failure is Some || !(at < next.end <= text.len())) {
            lemma_lex_from_reach(text, next.end, next.nesting, emitted + next.tokens);
            lemma_nested_budget(len, len - next.end - 2, len - at - 2);
        }
    }
}

/// The failure of a scan stays within the budget of the text.
proof fn lemma_lex_reach(text: Seq<char>)
    ensures
        within(lex(text).failure, position_budget(text.len()) as int),
    decreases text.len() + 1, 4nat,
{
    lemma_lex_unfolds(text);
    let scanned = normalized(text);
    lemma_lex_from_reach(scanned, 0, Nesting::start(), Seq::empty());
    lemma_nested_budget_of_text(text.len(), scanned.len() as int);
}

/// Line and column of the failure of a scan add up to no more than the
/// square of the text's length and 3.
pub proof fn failures_stay_within_budget(text: Seq<char>)
    ensures
        lex(text).failure matches Some(failure) ==> failure.reach() <= position_budget(
            text.len(),
        ),
{
    lemma_lex_reach(text);
}

/// In a text that is short enough, the position of the failure of a
/// formatted string fits in `usize`, wherever the string stands.
pub proof fn short_texts_place_failures(text: Seq<char>, from: int, prefix: char)
    requires
        short_enough(text.len()),
        0 <= from <= text.len(),
    ensures
        placed(fstring_scan(text, from, prefix).failure),
{
    let len = text.len() as int;
    lemma_short_enough(text.len());
    lemma_fstring_scan_reach(text, from, prefix);
    lemma_nested_budget(len, len - from - 1, len - 1);
    lemma_nested_budget_of_text(text.len(), len + 1);
    assert(nested_budget(len, len - 1) <= nested_budget(len + 1, len - 1)) by {
        reveal(nested_budget);
    }
}

/// A text that is short enough can be scanned, whatever it holds.
pub proof fn short_texts_are_scannable(text: Seq<char>)
    requires
        short_enough(text.len()),
    ensures
        scannable(text),
{
    lemma_short_enough(text.len());
    lemma_lex_reach(text);
}

} // verus!
