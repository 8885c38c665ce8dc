//! The scanner itself: from a text to its tokens.

use crate::chars::{decode, is_digit, is_letter, is_operator, is_quote};
use crate::collectors::comment::collect_comment;
use crate::collectors::fstring::{collect_fstring, lemma_fstring_scan_advances};
use crate::collectors::indent::collect_indent;
use crate::collectors::name::collect_name;
use crate::collectors::number::{collect_number, lemma_number_end_bounds};
use crate::collectors::operator::collect_operator;
use crate::collectors::run::{lemma_run_end, Run};
use crate::collectors::scan::{char_at, peek_first, peek_second};
use crate::collectors::string::{collect_string, lemma_string_scan_advances};
use crate::cursor::PeekableCharTracker;
use crate::error::{placed, TokenizeError};
use crate::laws::positions::short_texts_are_scannable;
use crate::limits::{fits, short_enough};
use crate::lexer::{
    brackets_after, closed_blocks, closing, comment_part, dedents, lemma_lex_unfolds, lex,
    lex_from, line_break_step, name_part, normalized, number_part, operator_part,
    prefixed_part, scannable, step, string_part, Lexing, Nesting,
};
use crate::token::{emit, Token, TokenView};
use vstd::prelude::*;

verus! {

/// Whether the indentation stack holds what the scanner relies on: the empty
/// indentation at its bottom.
pub open spec fn grounded(indents: Seq<Seq<char>>) -> bool {
    indents.len() >= 1 && indents[0].len() == 0
}

/// Keeps the open brackets up to date over the operator character `c`.
fn track_bracket(brackets: &mut Vec<char>, c: char)
    ensures
        final(brackets)@ == brackets_after(old(brackets)@, c),
{
    if c == '(' || c == '[' || c == '{' {
        brackets.push(c);
    } else {
        let n = brackets.len();
        if n > 0 {
            let innermost = brackets[n - 1];
            if (c == ')' && innermost == '(') || (c == ']' && innermost == '[') || (c == '}'
                && innermost == '{') {
                brackets.pop();
                assert(brackets@ =~= old(brackets)@.drop_last());
            }
        }
    }
}

/// Closes every block that is indented by more than `width`, with a `Dedent`
/// for each.
fn close_blocks(indents: &mut Vec<String>, tokens: &mut Vec<Token>, width: usize)
    requires
        grounded(old(indents).deep_view()),
    ensures
        grounded(final(indents).deep_view()),
        final(indents).deep_view() == old(indents).deep_view().take(
            old(indents).deep_view().len() - closed_blocks(
                old(indents).deep_view(),
                width as nat,
            ),
        ),
        final(tokens).deep_view() == old(tokens).deep_view() + dedents(
            closed_blocks(old(indents).deep_view(), width as nat),
        ),
{
    let ghost open = indents.deep_view();
    let ghost before = tokens.deep_view();
    let ghost mut closed: nat = 0;
    assert(open.take(open.len() - 0) =~= open);
    assert(before + dedents(0) =~= before);
    loop
        invariant_except_break
            closed + closed_blocks(indents.deep_view(), width as nat) == closed_blocks(
                open,
                width as nat,
            ),
        invariant
            grounded(indents.deep_view()),
            closed <= open.len() - 1,
            indents.deep_view() == open.take(open.len() - closed),
            tokens.deep_view() == before + dedents(closed),
        ensures
            closed == closed_blocks(open, width as nat),
        decreases indents.len(),
    {
        let n = indents.len();
        assert(indents.deep_view().last() == indents[n - 1]@);
        if width < indents[n - 1].as_str().unicode_len() {
            let ghost inner = indents.deep_view();
            indents.pop();
            emit(tokens, Token::Dedent);
            proof {
                assert(indents.deep_view() =~= inner.drop_last());
                assert(inner.drop_last() =~= open.take(open.len() - (closed + 1)));
                assert(before + dedents(closed + 1) =~= (before + dedents(closed)).push(
                    TokenView::Dedent,
                ));
                closed = closed + 1;
            }
        } else {
            break ;
        }
    }
}

/// Reads the line feed at the cursor and, where it ends a logical line, the
/// indentation of the next line.
fn scan_line_break(
    cursor: &mut PeekableCharTracker,
    tokens: &mut Vec<Token>,
    indents: &mut Vec<String>,
    brackets: &Vec<char>,
)
    requires
        old(cursor).wf(),
        char_at(old(cursor).source(), old(cursor).offset()) == Some('\n'),
        grounded(old(indents).deep_view()),
    ensures
        grounded(final(indents).deep_view()),
        old(cursor).offset() < final(cursor).offset(),
        ({
            let next = line_break_step(
                old(cursor).source(),
                old(cursor).offset(),
                Nesting { indents: old(indents).deep_view(), brackets: brackets@ },
            );
            &&& final(cursor).moved(old(cursor), next.end)
            &&& final(tokens).deep_view() == old(tokens).deep_view() + next.tokens
            &&& final(indents).deep_view() == next.nesting.indents
            &&& next.nesting.brackets == brackets@
            &&& next.failure is None
        }),
{
    let ghost source = cursor.source();
    let ghost at = cursor.offset();
    let ghost before = tokens.deep_view();
    let ghost open = indents.deep_view();
    if cursor.is_start_of_line() || brackets.len() > 0 {
        cursor.next();
        emit(tokens, Token::NL);
        assert(tokens.deep_view() =~= before + seq![TokenView::NL]);
    } else {
        cursor.next();
        emit(tokens, Token::NewLine);
        let indent = collect_indent(cursor);
        proof {
            lemma_run_end(source, at + 1, Run::Indent);
        }
        let width = indent.as_str().unicode_len();
        let n = indents.len();
        assert(open.last() == indents[n - 1]@);
        let deeper = width > indents[n - 1].as_str().unicode_len();
        if deeper {
            let ghost text = indent@;
            indents.push(indent.clone());
            emit(tokens, Token::Indent(indent));
            assert(indents.deep_view() =~= open.push(text));
        }
        let ghost opened = indents.deep_view();
        close_blocks(indents, tokens, width);
        assert(tokens.deep_view() =~= before + (seq![TokenView::NewLine] + (if deeper {
            seq![TokenView::Indent(source.subrange(at + 1, cursor.offset()))]
        } else {
            Seq::empty()
        }) + dedents(closed_blocks(opened, width as nat))));
    }
}

/// Hands out the one token that a scanner has read, or its error.
fn emit_scanned(
    tokens: &mut Vec<Token>,
    scanned: Result<Token, TokenizeError>,
) -> (result: Result<(), TokenizeError>)
    ensures
        match scanned {
            Ok(token) => result is Ok && final(tokens).deep_view() == old(tokens).deep_view()
                + seq![token@],
            Err(error) => result == Err::<(), TokenizeError>(error) && final(tokens).deep_view()
                == old(tokens).deep_view() + Seq::<TokenView>::empty(),
        },
{
    let ghost before = tokens.deep_view();
    match scanned {
        Ok(token) => {
            let ghost view = token@;
            emit(tokens, token);
            assert(tokens.deep_view() =~= before + seq![view]);
            Ok(())
        },
        Err(error) => {
            assert(tokens.deep_view() =~= before + Seq::<TokenView>::empty());
            Err(error)
        },
    }
}

/// Reads a string literal at the cursor.
fn scan_string(
    cursor: &mut PeekableCharTracker,
    tokens: &mut Vec<Token>,
    prefix: Option<char>,
) -> (result: Result<(), TokenizeError>)
    requires
        old(cursor).wf(),
    ensures
        string_part(old(cursor).source(), old(cursor).offset(), prefix).carried_out(
            old(cursor),
            final(cursor),
            old(tokens).deep_view(),
            final(tokens).deep_view(),
            result,
        ),
        result is Ok ==> old(cursor).offset() < final(cursor).offset(),
{
    proof {
        lemma_string_scan_advances(cursor.source(), cursor.offset(), prefix);
    }
    let scanned = match collect_string(cursor, prefix) {
        Ok(string) => Ok(Token::String(string)),
        Err(error) => Err(error),
    };
    emit_scanned(tokens, scanned)
}

/// Reads a number literal at the cursor.
fn scan_number(
    cursor: &mut PeekableCharTracker,
    tokens: &mut Vec<Token>,
    seed: Option<char>,
) -> (result: Result<(), TokenizeError>)
    requires
        old(cursor).wf(),
    ensures
        number_part(old(cursor).source(), old(cursor).offset(), seed).carried_out(
            old(cursor),
            final(cursor),
            old(tokens).deep_view(),
            final(tokens).deep_view(),
            result,
        ),
        old(cursor).offset() <= final(cursor).offset(),
{
    proof {
        lemma_number_end_bounds(
            cursor.source(),
            cursor.offset(),
            seed == Some('.'),
            seed == Some('e'),
        );
    }
    let scanned = match collect_number(cursor, seed) {
        Ok(number) => Ok(Token::Number(number)),
        Err(error) => Err(error),
    };
    emit_scanned(tokens, scanned)
}

/// Reads the operator character at the cursor and what belongs to it.
fn scan_operator(cursor: &mut PeekableCharTracker, tokens: &mut Vec<Token>) -> (result: Result<
    (),
    TokenizeError,
>)
    requires
        old(cursor).wf(),
        char_at(old(cursor).source(), old(cursor).offset()) is Some,
    ensures
        operator_part(old(cursor).source(), old(cursor).offset()).carried_out(
            old(cursor),
            final(cursor),
            old(tokens).deep_view(),
            final(tokens).deep_view(),
            result,
        ),
        old(cursor).offset() < final(cursor).offset(),
{
    let first = cursor.next().unwrap();
    let dotted = first == '.' && match peek_first(cursor) {
        Some(second) => is_digit(second),
        None => false,
    };
    if dotted {
        scan_number(cursor, tokens, Some(first))
    } else {
        let scanned = match collect_operator(cursor, first) {
            Ok(operator) => Ok(Token::OP(operator)),
            Err(error) => Err(error),
        };
        emit_scanned(tokens, scanned)
    }
}

/// Reads a name whose first character stands at the cursor.
fn scan_name(cursor: &mut PeekableCharTracker, tokens: &mut Vec<Token>) -> (result: Result<
    (),
    TokenizeError,
>)
    requires
        old(cursor).wf(),
        char_at(old(cursor).source(), old(cursor).offset()) is Some,
    ensures
        name_part(old(cursor).source(), old(cursor).offset()).carried_out(
            old(cursor),
            final(cursor),
            old(tokens).deep_view(),
            final(tokens).deep_view(),
            result,
        ),
        result is Ok,
        old(cursor).offset() < final(cursor).offset(),
{
    let ghost source = cursor.source();
    let ghost at = cursor.offset();
    let first = cursor.next();
    let name = collect_name(cursor, first);
    proof {
        lemma_run_end(source, at + 1, Run::Name);
        assert(name@ =~= source.subrange(at, cursor.offset()));
    }
    emit_scanned(tokens, Ok(Token::Name(name)))
}

/// Reads a comment whose marker stands at the cursor.
fn scan_comment(cursor: &mut PeekableCharTracker, tokens: &mut Vec<Token>) -> (result: Result<
    (),
    TokenizeError,
>)
    requires
        old(cursor).wf(),
        char_at(old(cursor).source(), old(cursor).offset()) == Some('#'),
    ensures
        comment_part(old(cursor).source(), old(cursor).offset()).carried_out(
            old(cursor),
            final(cursor),
            old(tokens).deep_view(),
            final(tokens).deep_view(),
            result,
        ),
        result is Ok,
        old(cursor).offset() < final(cursor).offset(),
{
    proof {
        lemma_run_end(cursor.source(), cursor.offset() + 1, Run::Comment);
    }
    let comment = collect_comment(cursor);
    emit_scanned(tokens, Ok(Token::Comment(comment)))
}

/// Reads what starts with one of the letters `r`, `f`, `b`, `u`, which
/// stands at the cursor.
fn scan_prefixed(cursor: &mut PeekableCharTracker, tokens: &mut Vec<Token>) -> (result: Result<
    (),
    TokenizeError,
>)
    requires
        old(cursor).wf(),
        char_at(old(cursor).source(), old(cursor).offset()) is Some,
        placed(prefixed_part(old(cursor).source(), old(cursor).offset()).failure),
    ensures
        prefixed_part(old(cursor).source(), old(cursor).offset()).carried_out(
            old(cursor),
            final(cursor),
            old(tokens).deep_view(),
            final(tokens).deep_view(),
            result,
        ),
        result is Ok ==> old(cursor).offset() < final(cursor).offset(),
    decreases old(cursor).source().len() - old(cursor).offset() - 1, 4nat,
{
    let ghost source = cursor.source();
    let ghost at = cursor.offset();
    let quoted = match peek_second(cursor) {
        Some(second) => is_quote(second),
        None => false,
    };
    if quoted {
        let letter = cursor.next().unwrap();
        if letter == 'f' {
            proof {
                lemma_fstring_scan_advances(source, at + 1, letter);
            }
            collect_fstring(cursor, tokens, letter)
        } else {
            scan_string(cursor, tokens, Some(letter))
        }
    } else {
        scan_name(cursor, tokens)
    }
}

/// Scans `text` into its tokens.
///
/// The text is scanned with a line feed at its end, which is added if it is
/// not there. The result is the whole sequence of tokens, from the first to
/// the end marker, or the first failure: a failure anywhere ends the scan.
///
/// The text has to be [`scannable`]: every position in it, and that of its
/// failure if it has one, has to fit in `usize`. A text that is
/// [`short_enough`] is; [`try_tokenize`] tests that before it scans.
pub fn tokenize(text: &str) -> (result: Result<Vec<Token>, TokenizeError>)
    requires
        scannable(text@),
    ensures
        lex(text@).delivers(result),
        result matches Ok(tokens) ==> tokens@.len() > 0 && tokens@.last()@ is EndMarker,
    decreases text@.len(), 5nat,
{
    let mut chars = decode(text);
    let count = chars.len();
    if count == 0 || chars[count - 1] != '\n' {
        chars.push('\n');
    }
    assert(chars@ =~= normalized(text@));
    let ghost source = chars@;
    let ghost total = lex(text@);
    proof {
        lemma_lex_unfolds(text@);
    }
    let mut cursor = PeekableCharTracker::new(chars.as_slice());
    let mut tokens: Vec<Token> = Vec::new();
    let mut indents: Vec<String> = Vec::new();
    indents.push(String::new());
    let mut brackets: Vec<char> = Vec::new();
    assert(indents.deep_view() =~= Nesting::start().indents);
    assert(tokens.deep_view() =~= Seq::<TokenView>::empty());
    loop
        invariant_except_break
            total == lex_from(
                source,
                cursor.offset(),
                Nesting { indents: indents.deep_view(), brackets: brackets@ },
                tokens.deep_view(),
            ),
        invariant
            cursor.wf(),
            cursor.source() == source,
            source == normalized(text@),
            total == lex(text@),
            placed(total.failure),
            grounded(indents.deep_view()),
        ensures
            total == (Lexing {
                tokens: tokens.deep_view() + closing(
                    Nesting { indents: indents.deep_view(), brackets: brackets@ },
                ),
                failure: None,
            }),
        decreases source.len() - cursor.offset(),
    {
        let ghost at = cursor.offset();
        let ghost nesting = Nesting { indents: indents.deep_view(), brackets: brackets@ };
        let ghost before = tokens.deep_view();
        let ghost next = step(source, at, nesting);
        let c = match peek_first(&cursor) {
            Some(c) => c,
            None => {
                break ;
            },
        };
        let read = if c == 'r' || c == 'f' || c == 'b' || c == 'u' {
            scan_prefixed(&mut cursor, &mut tokens)
        } else if is_quote(c) {
            scan_string(&mut cursor, &mut tokens, None)
        } else if is_digit(c) {
            proof {
                lemma_number_end_bounds(source, at, false, false);
            }
            scan_number(&mut cursor, &mut tokens, None)
        } else if c == '\n' {
            scan_line_break(&mut cursor, &mut tokens, &mut indents, &brackets);
            Ok(())
        } else if c == '#' {
            scan_comment(&mut cursor, &mut tokens)
        } else if is_operator(c) {
            track_bracket(&mut brackets, c);
            scan_operator(&mut cursor, &mut tokens)
        } else if is_letter(c) || c == '_' {
            scan_name(&mut cursor, &mut tokens)
        } else {
            cursor.next();
            assert(tokens.deep_view() =~= before + Seq::<TokenView>::empty());
            Ok(())
        };
        assert(cursor.offset() == next.end);
        assert(tokens.deep_view() == before + next.tokens);
        match read {
            Ok(_) => {
                assert(next.failure is None);
                assert(at < next.end <= source.len());
                assert(indents.deep_view() == next.nesting.indents);
                assert(brackets@ == next.nesting.brackets);
            },
            Err(error) => {
                assert(next.failure == Some(error@));
                return Err(error);
            },
        }
    }
    let ghost so_far = tokens.deep_view();
    let ghost open = indents.deep_view();
    close_blocks(&mut indents, &mut tokens, 0);
    emit(&mut tokens, Token::EndMarker);
    assert(tokens.deep_view() =~= so_far + closing(
        Nesting { indents: open, brackets: brackets@ },
    ));
    assert(tokens.deep_view().last() == tokens@.last()@);
    Ok(tokens)
}

/// Scans `text` into its tokens if it is short enough for the position of
/// every failure to fit in `usize`, whatever it holds; does nothing if it is
/// not.
pub fn try_tokenize(text: &str) -> (result: Option<Result<Vec<Token>, TokenizeError>>)
    ensures
        result is Some <==> short_enough(text@.len()),
        result matches Some(scanned) ==> lex(text@).delivers(scanned),
{
    if fits(text.unicode_len()) {
        proof {
            short_texts_are_scannable(text@);
        }
        Some(tokenize(text))
    } else {
        None
    }
}

} // verus!
