//! Lexemes: names, numbers, comments and strings read as they are written.

use crate::chars::{
    is_alphabetic_char, is_digit_char, is_operator_char, is_prefix_char, is_quote_char,
};
use crate::collectors::fstring::{
    closing_part, embedded, expression_part, fstring_body, fstring_scan,
    lemma_fstring_scan_unfolds, literal_part,
};
use crate::collectors::number::{digit_at, number_end, number_scan, sign_at};
use crate::collectors::run::{lemma_run_end, run_end, Run};
use crate::collectors::scan::{char_at, seed_text};
use crate::collectors::string::{
    escape_value, lemma_string_body_bounds, opens_multi_line, quotes, string_body, string_scan,
};
use crate::lexer::{
    closing, lemma_lex_unfolds, lemma_step_advances, lex, lex_from, normalized, starts_fstring,
    step, Nesting,
};
use crate::token::TokenView;
use vstd::prelude::*;

verus! {

/// Whether `lexeme` stands in `text` as it is, before the last character of
/// the text.
pub open spec fn stands_in(text: Seq<char>, lexeme: Seq<char>) -> bool {
    exists|from: int, to: int|
        0 <= from <= to < text.len() && lexeme == #[trigger] text.subrange(from, to)
}

/// Whether the text of `token` stands in `text` as it is, if `token` is a
/// name, a number or a comment, or a string in a text without a backslash.
pub open spec fn verbatim(text: Seq<char>, token: TokenView) -> bool {
    match token {
        TokenView::Name(lexeme) => stands_in(text, lexeme),
        TokenView::Number(lexeme) => stands_in(text, lexeme),
        TokenView::Comment(lexeme) => stands_in(text, lexeme),
        TokenView::String(lexeme) => !text.contains('\\') ==> stands_in(text, lexeme),
        _ => true,
    }
}

/// Whether every token of `tokens` is verbatim in `text`.
pub open spec fn all_verbatim(text: Seq<char>, tokens: Seq<TokenView>) -> bool {
    forall|k: int| 0 <= k < tokens.len() ==> verbatim(text, #[trigger] tokens[k])
}

/// Whether `text` ends with a line feed.
pub open spec fn ends_with_line_feed(text: Seq<char>) -> bool {
    text.len() > 0 && text.last() == '\n'
}

/// A run that starts at or before a character of another class ends at or
/// before it.
pub proof fn lemma_run_stops(text: Seq<char>, from: int, run: Run, stop: int)
    requires
        0 <= from <= stop < text.len(),
        !run.admits(text[stop]),
    ensures
        run_end(text, from, run) <= stop,
{
    lemma_run_end(text, from, run);
}

/// A well-formed number literal that starts at or before a line feed ends at
/// or before it.
pub proof fn lemma_number_stops(text: Seq<char>, from: int, dot: bool, exponent: bool, stop: int)
    requires
        0 <= from <= stop < text.len(),
        text[stop] == '\n',
        number_end(text, from, dot, exponent).valid,
    ensures
        from <= number_end(text, from, dot, exponent).end <= stop,
    decreases text.len() - from,
{
    if from < stop {
        if is_digit_char(text[from]) {
            lemma_number_stops(text, from + 1, dot, exponent, stop);
        } else if text[from] == '_' {
            if digit_at(text, from + 1) {
                lemma_number_stops(text, from + 1, dot, exponent, stop);
            }
        } else if text[from] == '.' && !dot {
            if digit_at(text, from + 1) {
                lemma_number_stops(text, from + 1, true, exponent, stop);
            }
        } else if text[from] == 'j' {
        } else if text[from] == 'e' && !exponent {
            if sign_at(text, from + 1) && digit_at(text, from + 2) {
                lemma_number_stops(text, from + 2, dot, true, stop);
            }
        }
    }
}

/// Whether a backslash stands in `text` from index `from` up to `to`.
pub open spec fn backslash_between(text: Seq<char>, from: int, to: int) -> bool {
    exists|k: int| from <= k < to && 0 <= k < text.len() && #[trigger] text[k] == '\\'
}

/// The body of a string literal that is raw, or holds no backslash, reads as
/// it is written, and ends with the quote behind which the cursor is left.
pub proof fn lemma_string_body_verbatim(
    text: Seq<char>,
    at: int,
    so_far: Seq<char>,
    quote: char,
    multi_line: bool,
    raw: bool,
    from: int,
    seed: Seq<char>,
)
    requires
        0 <= from <= at <= text.len(),
        so_far == seed + text.subrange(from, at),
        string_body(text, at, so_far, quote, multi_line, raw).fault is None,
        raw || !backslash_between(
            text,
            from,
            string_body(text, at, so_far, quote, multi_line, raw).end,
        ),
    ensures
        at < string_body(text, at, so_far, quote, multi_line, raw).end <= text.len(),
        string_body(text, at, so_far, quote, multi_line, raw).text == seed + text.subrange(
            from,
            string_body(text, at, so_far, quote, multi_line, raw).end,
        ),
        text[string_body(text, at, so_far, quote, multi_line, raw).end - 1] == quote,
    decreases text.len() - at,
{
    let scan = string_body(text, at, so_far, quote, multi_line, raw);
    if at < text.len() {
        if text[at] == '\\' && !raw {
            lemma_string_body_bounds(
                text,
                at,
                so_far,
                quote,
                multi_line,
                raw,
            );
            if at + 1 < text.len() {
                let escaped = text[at + 1];
                if escaped == '\n' {
                    lemma_string_body_bounds(
                        text,
                        at + 2,
                        so_far,
                        quote,
                        multi_line,
                        raw,
                    );
                } else if escape_value(escaped) is Some {
                    lemma_string_body_bounds(
                        text,
                        at + 2,
                        so_far.push(escape_value(escaped)->0),
                        quote,
                        multi_line,
                        raw,
                    );
                }
            }
            assert(text[at] == '\\' && from <= at < scan.end);
            assert(false);
        } else if text[at] == '\n' && !multi_line {
        } else if text[at] == quote {
            if !multi_line {
                assert(so_far.push(quote) =~= seed + text.subrange(from, at + 1));
            } else if char_at(text, at + 1) == Some(quote) && char_at(text, at + 2) == Some(
                quote,
            ) {
                assert(so_far + quotes(quote, true) =~= seed + text.subrange(from, at + 3));
            } else {
                assert(so_far.push(quote) =~= seed + text.subrange(from, at + 1));
                lemma_string_body_verbatim(
                    text,
                    at + 1,
                    so_far.push(quote),
                    quote,
                    multi_line,
                    raw,
                    from,
                    seed,
                );
            }
        } else {
            assert(so_far.push(text[at]) =~= seed + text.subrange(from, at + 1));
            lemma_string_body_verbatim(
                text,
                at + 1,
                so_far.push(text[at]),
                quote,
                multi_line,
                raw,
                from,
                seed,
            );
        }
    }
}

/// A string literal that is raw, or in which no backslash stands, reads as
/// it is written: its text is its prefix and the characters from its first
/// quote to its last, which is where the cursor is left behind.
pub proof fn string_reads_as_written(text: Seq<char>, from: int, prefix: Option<char>)
    requires
        0 <= from <= text.len(),
        string_scan(text, from, prefix).fault is None,
        prefix == Some('r') || !backslash_between(
            text,
            from,
            string_scan(text, from, prefix).end,
        ),
    ensures
        from < string_scan(text, from, prefix).end <= text.len(),
        string_scan(text, from, prefix).text == seed_text(prefix) + text.subrange(
            from,
            string_scan(text, from, prefix).end,
        ),
        text[string_scan(text, from, prefix).end - 1] == text[from],
{
    let quote = text[from];
    let multi_line = opens_multi_line(text, from);
    let opening = quotes(quote, multi_line);
    assert(seed_text(prefix) + opening =~= seed_text(prefix) + text.subrange(
        from,
        from + opening.len(),
    ));
    lemma_string_body_verbatim(
        text,
        from + opening.len(),
        seed_text(prefix) + opening,
        quote,
        multi_line,
        prefix == Some('r'),
        from,
        seed_text(prefix),
    );
}

/// Tokens that are verbatim each are verbatim together.
pub proof fn lemma_all_verbatim_add(
    text: Seq<char>,
    first: Seq<TokenView>,
    second: Seq<TokenView>,
)
    requires
        all_verbatim(text, first),
        all_verbatim(text, second),
    ensures
        all_verbatim(text, first + second),
{
    assert forall|k: int| 0 <= k < (first + second).len() implies verbatim(
        text,
        #[trigger] (first + second)[k],
    ) by {
        if k < first.len() {
            assert((first + second)[k] == first[k]);
        } else {
            assert((first + second)[k] == second[k - first.len()]);
        }
    }
}

/// The name whose first character stands at index `at` stands in the text.
proof fn lemma_name_verbatim(text: Seq<char>, at: int)
    requires
        ends_with_line_feed(text),
        0 <= at < text.len(),
        text[at] != '\n',
    ensures
        stands_in(text, text.subrange(at, run_end(text, at + 1, Run::Name))),
{
    lemma_run_end(text, at + 1, Run::Name);
    lemma_run_stops(text, at + 1, Run::Name, text.len() - 1);
    let end = run_end(text, at + 1, Run::Name);
    assert(0 <= at <= end < text.len() && text.subrange(at, end) == text.subrange(at, end));
}

/// The number literal that starts at index `at`, or behind the dot that
/// stands there, stands in the text.
proof fn lemma_number_verbatim(text: Seq<char>, at: int, seed: Option<char>)
    requires
        ends_with_line_feed(text),
        0 <= at < text.len(),
        text[at] != '\n',
        seed is None || (seed == Some(text[at]) && text[at] == '.'),
    ensures
        ({
            let scan = number_scan(
                text,
                if seed is None {
                    at
                } else {
                    at + 1
                },
                seed,
            );
            scan.fault is None ==> stands_in(text, scan.text)
        }),
{
    let from = if seed is None {
        at
    } else {
        at + 1
    };
    let scan = number_scan(text, from, seed);
    if scan.fault is None {
        lemma_number_stops(text, from, seed == Some('.'), seed == Some('e'), text.len() - 1);
        assert(scan.text =~= text.subrange(at, scan.end));
        assert(0 <= at <= scan.end < text.len());
    }
}

/// The string literal whose first quote stands at index `from` stands in the
/// text, prefix included, if no backslash stands in the text.
proof fn lemma_string_verbatim(text: Seq<char>, from: int, prefix: Option<char>)
    requires
        ends_with_line_feed(text),
        0 <= from < text.len(),
        is_quote_char(text[from]),
        prefix is Some ==> from > 0 && prefix == Some(text[from - 1]),
        !text.contains('\\'),
    ensures
        string_scan(text, from, prefix).fault is None ==> stands_in(
            text,
            string_scan(text, from, prefix).text,
        ),
{
    let scan = string_scan(text, from, prefix);
    if scan.fault is None {
        assert(!backslash_between(text, from, scan.end)) by {
            if backslash_between(text, from, scan.end) {
                let k = choose|k: int|
                    from <= k < scan.end && 0 <= k < text.len() && #[trigger] text[k] == '\\';
                assert(text.contains('\\'));
            }
        }
        string_reads_as_written(text, from, prefix);
        let start = if prefix is Some {
            from - 1
        } else {
            from
        };
        assert(scan.text =~= text.subrange(start, scan.end));
        assert(0 <= start <= scan.end < text.len());
    }
}

/// What stands in an embedded expression stands in the text around it.
proof fn lemma_verbatim_transfers(text: Seq<char>, at: int, close: int, token: TokenView)
    requires
        ends_with_line_feed(text),
        0 <= at < close < text.len(),
        text[close] == '}',
        verbatim(normalized(text.subrange(at, close + 1)), token),
    ensures
        verbatim(text, token),
{
    let inner = text.subrange(at, close + 1);
    let scanned = normalized(inner);
    assert(inner.last() == '}');
    assert(scanned == inner.push('\n'));
    assert forall|lexeme: Seq<char>| stands_in(scanned, lexeme) implies stands_in(
        text,
        lexeme,
    ) by {
        let (from, to) = choose|from: int, to: int|
            0 <= from <= to < scanned.len() && lexeme == #[trigger] scanned.subrange(from, to);
        assert(scanned.subrange(from, to) =~= text.subrange(at + from, at + to));
        assert(0 <= at + from <= at + to < text.len());
    }
    if text.contains('\\') {
    } else {
        if scanned.contains('\\') {
            let k = choose|k: int| 0 <= k < scanned.len() && scanned[k] == '\\';
            assert(text[at + k] == '\\');
            assert(text.contains('\\'));
        }
    }
}

/// The tokens of an embedded expression are verbatim in the text around it.
proof fn lemma_expression_verbatim(text: Seq<char>, at: int)
    requires
        ends_with_line_feed(text),
    ensures
        all_verbatim(text, expression_part(text, at).tokens),
    decreases text.len() - at + 1, 6nat,
{
    let close = run_end(text, at + 1, Run::Expression);
    if 0 <= at < close < text.len() {
        lemma_run_end(text, at + 1, Run::Expression);
        let inner = text.subrange(at, close + 1);
        let read = lex(inner);
        if read.failure is None {
            lemma_lex_verbatim(inner);
            let tokens = embedded(read.tokens);
            assert forall|k: int| 0 <= k < tokens.len() implies verbatim(
                text,
                #[trigger] tokens[k],
            ) by {
                assert(tokens[k] == read.tokens[k]);
                lemma_verbatim_transfers(text, at, close, read.tokens[k]);
            }
        }
    }
}

/// The tokens of the body of a formatted string are verbatim in the text if
/// those read before are.
proof fn lemma_fstring_body_verbatim(
    text: Seq<char>,
    at: int,
    emitted: Seq<TokenView>,
    quote: char,
    multi_line: bool,
)
    requires
        ends_with_line_feed(text),
        all_verbatim(text, emitted),
    ensures
        all_verbatim(text, fstring_body(text, at, emitted, quote, multi_line).tokens),
    decreases text.len() - at + 1, 7nat,
{
    let none = Seq::<TokenView>::empty();
    if at < 0 || at >= text.len() {
        lemma_all_verbatim_add(text, emitted, none);
    } else if text[at] == quote {
        lemma_all_verbatim_add(text, emitted, closing_part(text, at, quote, multi_line).tokens);
    } else {
        let part = if text[at] == '{' {
            expression_part(text, at)
        } else {
            literal_part(text, at, quote, multi_line)
        };
        if text[at] == '{' {
            lemma_expression_verbatim(text, at);
        }
        lemma_all_verbatim_add(text, emitted, part.tokens);
        if !(part.failure is Some || !(at < part.end <= text.len())) {
            lemma_fstring_body_verbatim(text, part.end, emitted + part.tokens, quote, multi_line);
        }
    }
}

/// The tokens of a formatted string are verbatim in the text.
proof fn lemma_fstring_scan_verbatim(text: Seq<char>, from: int, prefix: char)
    requires
        ends_with_line_feed(text),
    ensures
        all_verbatim(text, fstring_scan(text, from, prefix).tokens),
    decreases text.len() - from, 8nat,
{
    lemma_fstring_scan_unfolds(text, from, prefix);
    if !(from < 0 || from >= text.len()) {
        let quote = text[from];
        let multi_line = opens_multi_line(text, from);
        lemma_fstring_body_verbatim(
            text,
            from + quotes(quote, multi_line).len(),
            seq![TokenView::FStringStart(seq![prefix] + quotes(quote, multi_line))],
            quote,
            multi_line,
        );
    }
}

/// The tokens of a step are verbatim in the text.
proof fn lemma_step_verbatim(text: Seq<char>, at: int, nesting: Nesting)
    requires
        ends_with_line_feed(text),
        0 <= at < text.len(),
    ensures
        all_verbatim(text, step(text, at, nesting).tokens),
    decreases text.len() - at, 2nat,
{
    let c = text[at];
    if is_prefix_char(c) {
        if char_at(text, at + 1) is Some && is_quote_char(text[at + 1]) {
            if c == 'f' {
                lemma_fstring_scan_verbatim(text, at + 1, c);
            } else if !text.contains('\\') {
                lemma_string_verbatim(text, at + 1, Some(c));
            }
        } else {
            lemma_name_verbatim(text, at);
        }
    } else if is_quote_char(c) {
        if !text.contains('\\') {
            lemma_string_verbatim(text, at, None);
        }
    } else if is_digit_char(c) {
        lemma_number_verbatim(text, at, None);
    } else if c == '\n' {
    } else if c == '#' {
        lemma_run_end(text, at, Run::Comment);
        lemma_run_end(text, at + 1, Run::Comment);
        lemma_run_stops(text, at, Run::Comment, text.len() - 1);
        let end = run_end(text, at, Run::Comment);
        assert(0 <= at + 1 <= end < text.len() && text.subrange(at + 1, end) == text.subrange(
            at + 1,
            end,
        ));
    } else if is_operator_char(c) {
        if c == '.' {
            lemma_number_verbatim(text, at, Some(c));
        }
    } else if is_alphabetic_char(c) || c == '_' {
        lemma_name_verbatim(text, at);
    } else {
    }
}

/// The tokens of a scan from index `at` on are verbatim in the text if those
/// read before are.
proof fn lemma_lex_from_verbatim(
    text: Seq<char>,
    at: int,
    nesting: Nesting,
    emitted: Seq<TokenView>,
)
    requires
        ends_with_line_feed(text),
        all_verbatim(text, emitted),
    ensures
        all_verbatim(text, lex_from(text, at, nesting, emitted).tokens),
    decreases text.len() - at, 3nat,
{
    if at < 0 || at >= text.len() {
        lemma_all_verbatim_add(text, emitted, closing(nesting));
    } else {
        let next = step(text, at, nesting);
        lemma_step_verbatim(text, at, nesting);
        lemma_all_verbatim_add(text, emitted, next.tokens);
        if !(next.failure is Some || !(at < next.end <= text.len())) {
            lemma_lex_from_verbatim(text, next.end, next.nesting, emitted + next.tokens);
        }
    }
}

/// The tokens of a scan are verbatim in the text as it is scanned.
proof fn lemma_lex_verbatim(text: Seq<char>)
    ensures
        all_verbatim(normalized(text), lex(text).tokens),
    decreases text.len() + 1, 4nat,
{
    lemma_lex_unfolds(text);
    lemma_lex_from_verbatim(normalized(text), 0, Nesting::start(), Seq::empty());
}

/// Every token reads as the stretch of text that its step takes up: the text
/// of a name or a number is the text from where the step starts to where it
/// ends, that of a comment the same without the marker, and that of a string
/// the same if the string is raw or no backslash stands in the stretch.
pub proof fn tokens_read_as_their_stretch(text: Seq<char>, at: int, nesting: Nesting)
    requires
        0 <= at < text.len(),
        !starts_fstring(text, at),
        step(text, at, nesting).failure is None,
    ensures
        at < step(text, at, nesting).end <= text.len(),
        step(text, at, nesting).tokens.len() >= 1 ==> match step(text, at, nesting).tokens[0] {
            TokenView::Name(lexeme) => lexeme == text.subrange(at, step(text, at, nesting).end),
            TokenView::Number(lexeme) => lexeme == text.subrange(
                at,
                step(text, at, nesting).end,
            ),
            TokenView::Comment(lexeme) => lexeme == text.subrange(
                at + 1,
                step(text, at, nesting).end,
            ),
            TokenView::String(lexeme) => text[at] == 'r' || !backslash_between(
                text,
                at,
                step(text, at, nesting).end,
            ) ==> lexeme == text.subrange(at, step(text, at, nesting).end),
            _ => true,
        },
{
    let c = text[at];
    let next = step(text, at, nesting);
    lemma_step_advances(text, at, nesting);
    if is_prefix_char(c) {
        if char_at(text, at + 1) is Some && is_quote_char(text[at + 1]) {
            if c == 'r' || !backslash_between(text, at, next.end) {
                assert(!backslash_between(text, at, next.end) ==> !backslash_between(
                    text,
                    at + 1,
                    next.end,
                )) by {
                    if backslash_between(text, at + 1, next.end) {
                        let k = choose|k: int|
                            at + 1 <= k < next.end && 0 <= k < text.len() && #[trigger] text[k]
                                == '\\';
                        assert(at <= k < next.end && text[k] == '\\');
                    }
                }
                string_reads_as_written(text, at + 1, Some(c));
                assert(next.tokens[0]->String_0 =~= text.subrange(at, next.end));
            }
        }
    } else if is_quote_char(c) {
        if !backslash_between(text, at, next.end) {
            string_reads_as_written(text, at, None);
            assert(next.tokens[0]->String_0 =~= text.subrange(at, next.end));
        }
    } else if is_digit_char(c) {
        assert(next.tokens[0]->Number_0 =~= text.subrange(at, next.end));
    } else if c == '\n' {
    } else if c == '#' {
    } else if is_operator_char(c) {
        if c == '.' && digit_at(text, at + 1) {
            assert(next.tokens[0]->Number_0 =~= text.subrange(at, next.end));
        }
    } else {
    }
}

/// Names, numbers and comments read as they are written: the text of every
/// such token of a scan stands, character for character, in the text as it
/// is scanned. So does the text of every string, quotes and prefix
/// included, where no backslash stands in the text; for a single string
/// [`string_reads_as_written`] says when it does.
pub proof fn lexemes_read_as_written(text: Seq<char>, k: int)
    requires
        0 <= k < lex(text).tokens.len(),
    ensures
        verbatim(normalized(text), lex(text).tokens[k]),
{
    lemma_lex_verbatim(text);
}

} // verus!
