//! Formatted strings: literal runs and embedded expressions between quotes.

use crate::collectors::run::{collect_run, lemma_run_end, run_end, Run};
use crate::collectors::scan::{
    char_at, fail_here, peek_first, peek_second, peek_third, Emission,
};
use crate::collectors::string::{opens_multi_line, quotes};
use crate::cursor::{position_at, PeekableCharTracker};
use crate::error::{placed, ErrorKind, TokenizeError};
use crate::lexer::lex;
use crate::token::{emit, emit_all, Token, TokenView};
use crate::tokenizer::tokenize;
use vstd::prelude::*;

verus! {

/// The tokens of an embedded expression as they enter the tokens around it:
/// without the end marker and without the line break before it, since an
/// expression is no program of its own.
pub open spec fn embedded(tokens: Seq<TokenView>) -> Seq<TokenView> {
    let body = if tokens.len() > 0 && tokens.last() is EndMarker {
        tokens.drop_last()
    } else {
        tokens
    };
    if body.len() > 0 && body.last().is_line_break() {
        body.drop_last()
    } else {
        body
    }
}

/// The message for a formatted string that its quotes do not close.
pub open spec fn unterminated(multi_line: bool) -> Seq<char> {
    if multi_line {
        "Unterminated triple-quoted f-string literal"@
    } else {
        "Unterminated f-string literal"@
    }
}

/// The end of a formatted string, whose quote stands at index `at`: a
/// `FStringEnd` with the closing quotes. A string that opened with three
/// quotes needs three to close; fewer are a fault, found after the three
/// characters are read, or as many as the text still has.
pub open spec fn closing_part(text: Seq<char>, at: int, quote: char, multi_line: bool) -> Emission {
    if !multi_line {
        Emission::done(at + 1, seq![TokenView::FStringEnd(quotes(quote, false))])
    } else if char_at(text, at + 1) == Some(quote) && char_at(text, at + 2) == Some(quote) {
        Emission::done(at + 3, seq![TokenView::FStringEnd(quotes(quote, true))])
    } else {
        Emission::failed(
            text,
            if at + 3 <= text.len() {
                at + 3
            } else {
                text.len() as int
            },
            ErrorKind::String,
            unterminated(true),
        )
    }
}

/// A literal run of a formatted string, which starts at index `at`: a
/// `FStringMiddle` with the characters up to the quote or the next opening
/// brace. In a string that opened with one quote the run also stops at a
/// line feed, which is read and is a fault.
pub open spec fn literal_part(text: Seq<char>, at: int, quote: char, multi_line: bool) -> Emission {
    let end = run_end(text, at, Run::Literal { quote, multi_line });
    if !multi_line && char_at(text, end) == Some('\n') {
        Emission::failed(text, end + 1, ErrorKind::String, unterminated(false))
    } else {
        Emission::done(end, seq![TokenView::FStringMiddle(text.subrange(at, end))])
    }
}

/// An expression embedded in a formatted string, whose opening brace stands
/// at index `at`. It runs up to the first closing brace and is scanned,
/// braces included, as a text of its own. Its tokens are those of that scan
/// without the line break and the end marker that end it; its failure is
/// that of that scan, moved by the position after the closing brace. A
/// missing closing brace is a fault at the end of the text.
pub open spec fn expression_part(text: Seq<char>, at: int) -> Emission
    decreases text.len() - at + 1, 6nat,
{
    let close = run_end(text, at + 1, Run::Expression);
    if 0 <= at < close < text.len() {
        let inner = lex(text.subrange(at, close + 1));
        match inner.failure {
            Some(failure) => Emission {
                end: close + 1,
                tokens: Seq::empty(),
                failure: Some(
                    failure.shifted(
                        position_at(text, close + 1).0,
                        position_at(text, close + 1).1,
                    ),
                ),
            },
            None => Emission::done(close + 1, embedded(inner.tokens)),
        }
    } else {
        Emission::failed(text, close, ErrorKind::EndOfFile, "Unexpected EndOfFile"@)
    }
}

/// Reads on in the body of a formatted string from index `at`, where
/// `emitted` holds the tokens of the string read so far: expressions and
/// literal runs as they come, up to the quote, which ends the string. The
/// end of the text is a fault.
pub open spec fn fstring_body(
    text: Seq<char>,
    at: int,
    emitted: Seq<TokenView>,
    quote: char,
    multi_line: bool,
) -> Emission
    decreases text.len() - at + 1, 7nat,
{
    if at < 0 || at >= text.len() {
        Emission::failed(text, at, ErrorKind::String, unterminated(multi_line)).after(emitted)
    } else if text[at] == quote {
        closing_part(text, at, quote, multi_line).after(emitted)
    } else {
        let part = if text[at] == '{' {
            expression_part(text, at)
        } else {
            literal_part(text, at, quote, multi_line)
        };
        if part.failure is Some || !(at < part.end <= text.len()) {
            part.after(emitted)
        } else {
            fstring_body(text, part.end, emitted + part.tokens, quote, multi_line)
        }
    }
}

/// The formatted string whose first quote stands at index `from`, after
/// `prefix`, which was read before: a `FStringStart` with the prefix and the
/// opening quotes, then what the body yields.
#[verifier::opaque]
pub open spec fn fstring_scan(text: Seq<char>, from: int, prefix: char) -> Emission
    decreases text.len() - from, 8nat,
{
    if from < 0 || from >= text.len() {
        Emission::failed(text, from, ErrorKind::EndOfFile, "Unexpected EndOfFile"@)
    } else {
        let quote = text[from];
        let multi_line = opens_multi_line(text, from);
        fstring_body(
            text,
            from + quotes(quote, multi_line).len(),
            seq![TokenView::FStringStart(seq![prefix] + quotes(quote, multi_line))],
            quote,
            multi_line,
        )
    }
}

/// A formatted string is its start and its body; where the text ends before
/// its first quote, it is a fault.
pub proof fn lemma_fstring_scan_unfolds(text: Seq<char>, from: int, prefix: char)
    ensures
        fstring_scan(text, from, prefix) == if from < 0 || from >= text.len() {
            Emission::failed(text, from, ErrorKind::EndOfFile, "Unexpected EndOfFile"@)
        } else {
            fstring_body(
                text,
                from + quotes(text[from], opens_multi_line(text, from)).len(),
                seq![
                    TokenView::FStringStart(
                        seq![prefix] + quotes(text[from], opens_multi_line(text, from)),
                    ),
                ],
                text[from],
                opens_multi_line(text, from),
            )
        },
{
    reveal(fstring_scan);
}

/// Every part of a formatted string's body is left inside the text, and
/// behind the place where it was taken up unless it fails.
pub proof fn lemma_part_bounds(text: Seq<char>, at: int, quote: char, multi_line: bool)
    requires
        0 <= at < text.len(),
    ensures
        at <= expression_part(text, at).end <= text.len(),
        at <= literal_part(text, at, quote, multi_line).end <= text.len(),
        text[at] != quote && text[at] != '{' && literal_part(
            text,
            at,
            quote,
            multi_line,
        ).failure is None ==> at < literal_part(text, at, quote, multi_line).end,
        expression_part(text, at).failure is None ==> at < expression_part(text, at).end,
{
    lemma_run_end(text, at + 1, Run::Expression);
    lemma_run_end(text, at, Run::Literal { quote, multi_line });
    lemma_run_end(text, at + 1, Run::Literal { quote, multi_line });
}

/// The body of a formatted string is left inside the text, at or after the
/// place where it was taken up.
pub proof fn lemma_fstring_body_bounds(
    text: Seq<char>,
    at: int,
    emitted: Seq<TokenView>,
    quote: char,
    multi_line: bool,
)
    requires
        0 <= at <= text.len(),
    ensures
        at <= fstring_body(text, at, emitted, quote, multi_line).end <= text.len(),
    decreases text.len() - at,
{
    if at < text.len() && text[at] != quote {
        lemma_part_bounds(text, at, quote, multi_line);
        let part = if text[at] == '{' {
            expression_part(text, at)
        } else {
            literal_part(text, at, quote, multi_line)
        };
        if !(part.failure is Some || !(at < part.end <= text.len())) {
            lemma_fstring_body_bounds(text, part.end, emitted + part.tokens, quote, multi_line);
        }
    }
}

/// A formatted string that is read takes up at least its opening quote.
pub proof fn lemma_fstring_scan_advances(text: Seq<char>, from: int, prefix: char)
    requires
        0 <= from <= text.len(),
    ensures
        from <= fstring_scan(text, from, prefix).end <= text.len(),
        fstring_scan(text, from, prefix).failure is None ==> from < fstring_scan(
            text,
            from,
            prefix,
        ).end,
{
    lemma_fstring_scan_unfolds(text, from, prefix);
    if from < text.len() {
        let quote = text[from];
        let multi_line = opens_multi_line(text, from);
        lemma_fstring_body_bounds(
            text,
            from + quotes(quote, multi_line).len(),
            seq![TokenView::FStringStart(seq![prefix] + quotes(quote, multi_line))],
            quote,
            multi_line,
        );
    }
}

fn is_end_marker(token: &Token) -> (yes: bool)
    ensures
        yes == (token@ is EndMarker),
{
    match token {
        Token::EndMarker => true,
        _ => false,
    }
}

fn is_line_break(token: &Token) -> (yes: bool)
    ensures
        yes == token@.is_line_break(),
{
    match token {
        Token::NewLine => true,
        Token::NL => true,
        _ => false,
    }
}

/// Takes the end marker, and the line break before it, off the tokens of an
/// embedded expression.
fn strip(tokens: &mut Vec<Token>)
    ensures
        final(tokens).deep_view() == embedded(old(tokens).deep_view()),
{
    let ghost whole = tokens.deep_view();
    let n = tokens.len();
    if n > 0 && is_end_marker(&tokens[n - 1]) {
        tokens.pop();
        assert(tokens.deep_view() =~= whole.drop_last());
    }
    let ghost body = tokens.deep_view();
    let m = tokens.len();
    if m > 0 && is_line_break(&tokens[m - 1]) {
        tokens.pop();
        assert(tokens.deep_view() =~= body.drop_last());
    }
}

/// Reads the quotes that close a formatted string.
fn collect_closing(
    cursor: &mut PeekableCharTracker,
    tokens: &mut Vec<Token>,
    quote: char,
    multi_line: bool,
) -> (result: Result<(), TokenizeError>)
    requires
        old(cursor).wf(),
        char_at(old(cursor).source(), old(cursor).offset()) == Some(quote),
    ensures
        closing_part(old(cursor).source(), old(cursor).offset(), quote, multi_line).carried_out(
            old(cursor),
            final(cursor),
            old(tokens).deep_view(),
            final(tokens).deep_view(),
            result,
        ),
{
    let ghost before = tokens.deep_view();
    let matched = !multi_line || (peek_second(cursor) == Some(quote) && peek_third(cursor)
        == Some(quote));
    let mut closing = String::new();
    cursor.next();
    closing.push(quote);
    if multi_line {
        cursor.next();
        cursor.next();
        closing.push(quote);
        closing.push(quote);
    }
    if matched {
        assert(closing@ =~= quotes(quote, multi_line));
        emit(tokens, Token::FStringEnd(closing));
        assert(tokens.deep_view() =~= before + seq![
            TokenView::FStringEnd(quotes(quote, multi_line)),
        ]);
        Ok(())
    } else {
        proof {
            assert(tokens.deep_view() =~= before + Seq::<TokenView>::empty());
        }
        Err(
            fail_here(
                cursor,
                ErrorKind::String,
                "Unterminated triple-quoted f-string literal".to_owned(),
            ),
        )
    }
}

/// Reads a literal run of a formatted string.
fn collect_literal(
    cursor: &mut PeekableCharTracker,
    tokens: &mut Vec<Token>,
    quote: char,
    multi_line: bool,
) -> (result: Result<(), TokenizeError>)
    requires
        old(cursor).wf(),
    ensures
        literal_part(old(cursor).source(), old(cursor).offset(), quote, multi_line).carried_out(
            old(cursor),
            final(cursor),
            old(tokens).deep_view(),
            final(tokens).deep_view(),
            result,
        ),
{
    let ghost before = tokens.deep_view();
    let ghost source = cursor.source();
    let ghost at = cursor.offset();
    let mut middle = String::new();
    collect_run(cursor, Run::Literal { quote, multi_line }, &mut middle);
    if !multi_line && peek_first(cursor) == Some('\n') {
        cursor.next();
        proof {
            assert(tokens.deep_view() =~= before + Seq::<TokenView>::empty());
        }
        return Err(
            fail_here(cursor, ErrorKind::String, "Unterminated f-string literal".to_owned()),
        );
    }
    assert(middle@ =~= source.subrange(at, cursor.offset()));
    emit(tokens, Token::FStringMiddle(middle));
    assert(tokens.deep_view() =~= before + seq![
        TokenView::FStringMiddle(source.subrange(at, cursor.offset())),
    ]);
    Ok(())
}

/// Reads an expression embedded in a formatted string, and scans it.
fn collect_expression(cursor: &mut PeekableCharTracker, tokens: &mut Vec<Token>) -> (result:
    Result<(), TokenizeError>)
    requires
        old(cursor).wf(),
        0 < old(cursor).offset(),
        char_at(old(cursor).source(), old(cursor).offset()) == Some('{'),
        placed(expression_part(old(cursor).source(), old(cursor).offset()).failure),
    ensures
        expression_part(old(cursor).source(), old(cursor).offset()).carried_out(
            old(cursor),
            final(cursor),
            old(tokens).deep_view(),
            final(tokens).deep_view(),
            result,
        ),
    decreases old(cursor).source().len() - old(cursor).offset() + 1, 0nat,
{
    let ghost before = tokens.deep_view();
    let ghost source = cursor.source();
    let ghost at = cursor.offset();
    let mut inner = String::new();
    cursor.next();
    inner.push('{');
    collect_run(cursor, Run::Expression, &mut inner);
    let ghost close = cursor.offset();
    proof {
        lemma_run_end(source, at + 1, Run::Expression);
        assert(tokens.deep_view() =~= before + Seq::<TokenView>::empty());
    }
    match cursor.next() {
        Some(brace) => {
            inner.push(brace);
        },
        None => {
            return Err(
                fail_here(cursor, ErrorKind::EndOfFile, "Unexpected EndOfFile".to_owned()),
            );
        },
    }
    assert(inner@ =~= source.subrange(at, close + 1));
    match tokenize(inner.as_str()) {
        Ok(mut expression) => {
            strip(&mut expression);
            emit_all(tokens, &mut expression);
            Ok(())
        },
        Err(error) => {
            let here = cursor.pos();
            Err(error.shifted(here))
        },
    }
}

/// Reads one part of the body of a formatted string: an expression where an
/// opening brace stands at the cursor, else a literal run.
fn collect_part(
    cursor: &mut PeekableCharTracker,
    tokens: &mut Vec<Token>,
    quote: char,
    multi_line: bool,
    c: char,
) -> (result: Result<(), TokenizeError>)
    requires
        old(cursor).wf(),
        0 < old(cursor).offset(),
        char_at(old(cursor).source(), old(cursor).offset()) == Some(c),
        c != quote,
        c == '{' ==> placed(expression_part(old(cursor).source(), old(cursor).offset()).failure),
    ensures
        (if c == '{' {
            expression_part(old(cursor).source(), old(cursor).offset())
        } else {
            literal_part(old(cursor).source(), old(cursor).offset(), quote, multi_line)
        }).carried_out(
            old(cursor),
            final(cursor),
            old(tokens).deep_view(),
            final(tokens).deep_view(),
            result,
        ),
        result is Ok ==> old(cursor).offset() < final(cursor).offset(),
    decreases old(cursor).source().len() - old(cursor).offset() + 1, 1nat,
{
    proof {
        lemma_part_bounds(cursor.source(), cursor.offset(), quote, multi_line);
    }
    if c == '{' {
        collect_expression(cursor, tokens)
    } else {
        collect_literal(cursor, tokens, quote, multi_line)
    }
}

/// Reads the body of a formatted string, up to its closing quotes.
fn collect_body(
    cursor: &mut PeekableCharTracker,
    tokens: &mut Vec<Token>,
    quote: char,
    multi_line: bool,
) -> (result: Result<(), TokenizeError>)
    requires
        old(cursor).wf(),
        0 < old(cursor).offset(),
        placed(
            fstring_body(
                old(cursor).source(),
                old(cursor).offset(),
                Seq::empty(),
                quote,
                multi_line,
            ).failure,
        ),
    ensures
        fstring_body(
            old(cursor).source(),
            old(cursor).offset(),
            Seq::empty(),
            quote,
            multi_line,
        ).carried_out(
            old(cursor),
            final(cursor),
            old(tokens).deep_view(),
            final(tokens).deep_view(),
            result,
        ),
    decreases old(cursor).source().len() - old(cursor).offset() + 1, 2nat,
{
    let ghost source = cursor.source();
    let ghost start = cursor.offset();
    let ghost before = tokens.deep_view();
    let ghost scan = fstring_body(source, start, Seq::empty(), quote, multi_line);
    let ghost mut emitted = Seq::<TokenView>::empty();
    assert(tokens.deep_view() =~= before + emitted);
    loop
        invariant
            cursor.wf(),
            cursor.source() == source,
            source == old(cursor).source(),
            start == old(cursor).offset(),
            0 < start <= cursor.offset(),
            before == old(tokens).deep_view(),
            scan == fstring_body(source, start, Seq::empty(), quote, multi_line),
            scan == fstring_body(source, cursor.offset(), emitted, quote, multi_line),
            placed(scan.failure),
            tokens.deep_view() == before + emitted,
        decreases source.len() - cursor.offset(),
    {
        let ghost at = cursor.offset();
        let c = match peek_first(cursor) {
            Some(c) => c,
            None => {
                proof {
                    assert(tokens.deep_view() =~= before + scan.tokens);
                }
                return Err(
                    fail_here(
                        cursor,
                        ErrorKind::String,
                        if multi_line {
                            "Unterminated triple-quoted f-string literal".to_owned()
                        } else {
                            "Unterminated f-string literal".to_owned()
                        },
                    ),
                );
            },
        };
        if c == quote {
            let closed = collect_closing(cursor, tokens, quote, multi_line);
            assert(tokens.deep_view() =~= before + scan.tokens);
            return closed;
        }
        let ghost part = if c == '{' {
            expression_part(source, at)
        } else {
            literal_part(source, at, quote, multi_line)
        };
        let read = collect_part(cursor, tokens, quote, multi_line, c);
        proof {
            assert(tokens.deep_view() =~= before + (emitted + part.tokens));
            emitted = emitted + part.tokens;
        }
        if read.is_err() {
            return read;
        }
    }
}

/// What is read before the tokens in `emitted` is read the same after them.
pub proof fn lemma_fstring_body_after(
    text: Seq<char>,
    at: int,
    emitted: Seq<TokenView>,
    quote: char,
    multi_line: bool,
)
    ensures
        fstring_body(text, at, emitted, quote, multi_line) == fstring_body(
            text,
            at,
            Seq::empty(),
            quote,
            multi_line,
        ).after(emitted),
    decreases text.len() - at,
{
    let none = Seq::<TokenView>::empty();
    if at < 0 || at >= text.len() {
        assert(emitted + none =~= emitted);
        assert(none + none =~= none);
    } else if text[at] == quote {
        let part = closing_part(text, at, quote, multi_line);
        assert(emitted + (none + part.tokens) =~= emitted + part.tokens);
    } else {
        let part = if text[at] == '{' {
            expression_part(text, at)
        } else {
            literal_part(text, at, quote, multi_line)
        };
        if part.failure is Some || !(at < part.end <= text.len()) {
            assert(emitted + (none + part.tokens) =~= emitted + part.tokens);
        } else {
            lemma_fstring_body_after(text, part.end, emitted + part.tokens, quote, multi_line);
            lemma_fstring_body_after(text, part.end, none + part.tokens, quote, multi_line);
            let rest = fstring_body(text, part.end, none, quote, multi_line);
            assert((emitted + part.tokens) + rest.tokens =~= emitted + ((none + part.tokens)
                + rest.tokens));
        }
    }
}

/// Reads a formatted string whose first quote stands at the cursor, after
/// `prefix`, and appends its tokens to `tokens`: the start, then literal
/// runs and the tokens of embedded expressions as they come, then the end.
///
/// Fails with a `String` error where a quote is missing, where a string
/// that opened with three quotes is closed with fewer, and at a line feed in
/// a literal run of a string that opened with one; with an `EndOfFile` error
/// where the text ends before the first quote or inside an expression; and
/// with the error of an expression, moved by the position that the cursor
/// has behind the expression. The tokens read before the failure stay in
/// `tokens`.
///
/// The position of the failure, if there is one, has to fit in `usize`: it
/// does where the text is [`short_enough`](crate::limits::short_enough).
pub fn collect_fstring(
    cursor: &mut PeekableCharTracker,
    tokens: &mut Vec<Token>,
    prefix: char,
) -> (result: Result<(), TokenizeError>)
    requires
        old(cursor).wf(),
        placed(fstring_scan(old(cursor).source(), old(cursor).offset(), prefix).failure),
    ensures
        fstring_scan(old(cursor).source(), old(cursor).offset(), prefix).carried_out(
            old(cursor),
            final(cursor),
            old(tokens).deep_view(),
            final(tokens).deep_view(),
            result,
        ),
    decreases old(cursor).source().len() - old(cursor).offset(), 3nat,
{
    let ghost source = cursor.source();
    let ghost start = cursor.offset();
    let ghost before = tokens.deep_view();
    proof {
        lemma_fstring_scan_unfolds(source, start, prefix);
    }
    let multi_line = {
        let first = peek_first(cursor);
        first.is_some() && peek_second(cursor) == first && peek_third(cursor) == first
    };
    let quote = match cursor.next() {
        Some(quote) => quote,
        None => {
            proof {
                assert(tokens.deep_view() =~= before + Seq::<TokenView>::empty());
            }
            return Err(
                fail_here(cursor, ErrorKind::EndOfFile, "Unexpected EndOfFile".to_owned()),
            );
        },
    };
    let mut opening = String::new();
    opening.push(prefix);
    opening.push(quote);
    if multi_line {
        cursor.next();
        cursor.next();
        opening.push(quote);
        opening.push(quote);
    }
    assert(opening@ =~= seq![prefix] + quotes(quote, multi_line));
    emit(tokens, Token::FStringStart(opening));
    let ghost emitted = seq![TokenView::FStringStart(seq![prefix] + quotes(quote, multi_line))];
    let ghost body = fstring_body(source, cursor.offset(), Seq::empty(), quote, multi_line);
    proof {
        lemma_fstring_body_after(source, cursor.offset(), emitted, quote, multi_line);
        assert(before + (emitted + body.tokens) =~= before.push(emitted[0]) + body.tokens);
    }
    collect_body(cursor, tokens, quote, multi_line)
}

} // verus!
