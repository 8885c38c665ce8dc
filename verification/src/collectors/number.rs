//! Number literals.

use crate::chars::{is_digit, is_digit_char};
use crate::collectors::scan::{fail_here, peek_first, peek_second, seed_text, Scan};
use crate::cursor::PeekableCharTracker;
use crate::error::{ErrorKind, TokenizeError};
use vstd::prelude::*;

verus! {

/// Where a number literal stops, and whether it is well formed that far.
pub struct NumberEnd {
    pub end: int,
    pub valid: bool,
}

/// Whether a digit stands at index `at`.
pub open spec fn digit_at(text: Seq<char>, at: int) -> bool {
    0 <= at < text.len() && is_digit_char(text[at])
}

/// Whether a sign stands at index `at`.
pub open spec fn sign_at(text: Seq<char>, at: int) -> bool {
    0 <= at < text.len() && (text[at] == '+' || text[at] == '-')
}

/// Reads on in a number literal from index `from`, where `dot` and `exponent`
/// say whether the literal already holds a decimal point or an exponent.
///
/// - Digits belong to the literal.
/// - An underscore belongs to it if a digit follows, and is malformed if not.
/// - The first decimal point belongs to it, and ends it unless a digit follows.
/// - `j` belongs to it and ends it.
/// - The first `e` belongs to it only together with a sign, after which a
///   digit has to follow; without a sign the literal ends before the `e`.
/// - Anything else ends it.
pub open spec fn number_end(text: Seq<char>, from: int, dot: bool, exponent: bool) -> NumberEnd
    decreases text.len() - from,
{
    if from < 0 || from >= text.len() {
        NumberEnd { end: from, valid: true }
    } else if is_digit_char(text[from]) {
        number_end(text, from + 1, dot, exponent)
    } else if text[from] == '_' {
        if digit_at(text, from + 1) {
            number_end(text, from + 1, dot, exponent)
        } else {
            NumberEnd { end: from + 1, valid: false }
        }
    } else if text[from] == '.' && !dot {
        if digit_at(text, from + 1) {
            number_end(text, from + 1, true, exponent)
        } else {
            NumberEnd { end: from + 1, valid: true }
        }
    } else if text[from] == 'j' {
        NumberEnd { end: from + 1, valid: true }
    } else if text[from] == 'e' && !exponent {
        if sign_at(text, from + 1) {
            if digit_at(text, from + 2) {
                number_end(text, from + 2, dot, true)
            } else {
                NumberEnd { end: from + 2, valid: false }
            }
        } else {
            NumberEnd { end: from, valid: true }
        }
    } else {
        NumberEnd { end: from, valid: true }
    }
}

/// The number literal at index `from`, after `seed` where one was read
/// before: the seed and the characters up to where the literal stops, as they
/// stand in the text.
pub open spec fn number_scan(text: Seq<char>, from: int, seed: Option<char>) -> Scan {
    let stop = number_end(text, from, seed == Some('.'), seed == Some('e'));
    if stop.valid {
        Scan::done(stop.end, seed_text(seed) + text.subrange(from, stop.end))
    } else {
        Scan::failed(stop.end, ErrorKind::Number, "Invalid decimal literal"@)
    }
}

/// A number literal stops inside the text, at or after the place where it was
/// taken up.
pub proof fn lemma_number_end_bounds(text: Seq<char>, from: int, dot: bool, exponent: bool)
    requires
        0 <= from <= text.len(),
    ensures
        from <= number_end(text, from, dot, exponent).end <= text.len(),
        digit_at(text, from) ==> from < number_end(text, from, dot, exponent).end,
    decreases text.len() - from,
{
    if from < text.len() {
        if is_digit_char(text[from]) {
            lemma_number_end_bounds(text, from + 1, dot, exponent);
        } else if text[from] == '_' {
            if digit_at(text, from + 1) {
                lemma_number_end_bounds(text, from + 1, dot, exponent);
            }
        } else if text[from] == '.' && !dot {
            if digit_at(text, from + 1) {
                lemma_number_end_bounds(text, from + 1, true, exponent);
            }
        } else if text[from] == 'j' {
        } else if text[from] == 'e' && !exponent {
            if sign_at(text, from + 1) && digit_at(text, from + 2) {
                lemma_number_end_bounds(text, from + 2, dot, true);
            }
        }
    }
}

fn digit_ahead(cursor: &PeekableCharTracker) -> (found: bool)
    requires
        cursor.wf(),
    ensures
        found == digit_at(cursor.source(), cursor.offset()),
{
    match peek_first(cursor) {
        Some(c) => is_digit(c),
        None => false,
    }
}

/// Reads a number literal at the cursor, after `digit` where the literal's
/// first character was read before. A malformed literal is a `Number` error at
/// the place where the cursor stands when that shows.
pub fn collect_number(cursor: &mut PeekableCharTracker, digit: Option<char>) -> (result: Result<
    String,
    TokenizeError,
>)
    requires
        old(cursor).wf(),
    ensures
        final(cursor).moved(
            old(cursor),
            number_scan(old(cursor).source(), old(cursor).offset(), digit).end,
        ),
        number_scan(old(cursor).source(), old(cursor).offset(), digit).delivers(
            old(cursor).source(),
            result,
        ),
{
    let mut number = String::new();
    let mut dot = false;
    let mut exponent = false;
    if let Some(first) = digit {
        number.push(first);
        dot = first == '.';
        exponent = first == 'e';
    }
    let ghost source = cursor.source();
    let ghost start = cursor.offset();
    let ghost stop = number_end(source, start, dot, exponent);
    assert(number@ =~= seed_text(digit) + source.subrange(start, start));
    loop
        invariant_except_break
            number_end(source, cursor.offset(), dot, exponent) == stop,
        invariant
            cursor.wf(),
            cursor.source() == source,
            source == old(cursor).source(),
            start == old(cursor).offset(),
            0 <= start <= cursor.offset(),
            stop == number_end(source, start, digit == Some('.'), digit == Some('e')),
            number@ == seed_text(digit) + source.subrange(start, cursor.offset()),
        ensures
            stop.valid,
            stop.end == cursor.offset(),
        decreases source.len() - cursor.offset(),
    {
        let ghost at = cursor.offset();
        let c = match peek_first(cursor) {
            Some(c) => c,
            None => {
                break ;
            },
        };
        if is_digit(c) {
            cursor.next();
            number.push(c);
        } else if c == '_' {
            cursor.next();
            if digit_ahead(cursor) {
                number.push('_');
            } else {
                return Err(
                    fail_here(cursor, ErrorKind::Number, "Invalid decimal literal".to_owned()),
                );
            }
        } else if c == '.' && !dot {
            cursor.next();
            number.push('.');
            dot = true;
            if !digit_ahead(cursor) {
                assert(number@ =~= seed_text(digit) + source.subrange(start, cursor.offset()));
                break ;
            }
        } else if c == 'j' {
            cursor.next();
            number.push('j');
            assert(number@ =~= seed_text(digit) + source.subrange(start, cursor.offset()));
            break ;
        } else if c == 'e' && !exponent {
            match peek_second(cursor) {
                Some('+') | Some('-') => {
                    cursor.next();
                    number.push('e');
                    let sign = cursor.next();
                    number.push(sign.unwrap());
                    exponent = true;
                    if !digit_ahead(cursor) {
                        return Err(
                            fail_here(
                                cursor,
                                ErrorKind::Number,
                                "Invalid decimal literal".to_owned(),
                            ),
                        );
                    }
                    assert(number@ =~= seed_text(digit) + source.subrange(start, at + 2));
                },
                _ => {
                    break ;
                },
            }
        } else {
            break ;
        }
        assert(number@ =~= seed_text(digit) + source.subrange(start, cursor.offset()));
    }
    Ok(number)
}

} // verus!
