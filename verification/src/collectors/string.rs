//! String literals: plain, byte and raw, on one line or on several.

use crate::chars::{str_debug, str_debug_text};
use crate::collectors::scan::{
    char_at, fail_here, peek_first, peek_second, peek_third, seed_text, Scan,
};
use crate::cursor::PeekableCharTracker;
use crate::error::{ErrorKind, TokenizeError};
use vstd::prelude::*;

verus! {

/// The letters that may stand before the quote of a string literal.
pub open spec fn is_string_prefix(c: char) -> bool {
    c == 'u' || c == 'b' || c == 'r'
}

/// The character that a backslash and `c` stand for, where they stand for one.
pub open spec fn escape_value(c: char) -> Option<char> {
    if c == '\\' {
        Some('\\')
    } else if c == '"' {
        Some('"')
    } else if c == '\'' {
        Some('\'')
    } else if c == 'n' {
        Some('\n')
    } else if c == 'r' {
        Some('\r')
    } else if c == 't' {
        Some('\t')
    } else if c == 'b' {
        Some('\u{0008}')
    } else if c == 'v' {
        Some('\u{000B}')
    } else if c == 'f' {
        Some('\u{000C}')
    } else if c == 'a' {
        Some('\u{0007}')
    } else {
        None
    }
}

/// The opening or closing quotes of a literal: three where it may span
/// lines, else one.
pub open spec fn quotes(quote: char, multi_line: bool) -> Seq<char> {
    if multi_line {
        seq![quote, quote, quote]
    } else {
        seq![quote]
    }
}

/// Whether the literal whose first quote stands at index `at` opens with
/// three quotes.
pub open spec fn opens_multi_line(text: Seq<char>, at: int) -> bool {
    char_at(text, at) is Some && char_at(text, at + 1) == char_at(text, at) && char_at(
        text,
        at + 2,
    ) == char_at(text, at)
}

/// Reads on in the body of a string literal from index `at`, where `so_far`
/// is the literal's text up to there.
///
/// - Unless the literal is raw, a backslash and the character after it stand
///   for one character; a backslash and a line feed stand for nothing; a
///   backslash before any other character is a fault.
/// - A line feed ends the literal with a fault unless it may span lines.
/// - The quote ends a one-line literal; three quotes in a row end one that
///   may span lines, in which a quote that is not one of three is text.
/// - Any other character is text.
/// - The end of the text is a fault.
pub open spec fn string_body(
    text: Seq<char>,
    at: int,
    so_far: Seq<char>,
    quote: char,
    multi_line: bool,
    raw: bool,
) -> Scan
    decreases text.len() - at,
{
    if at < 0 || at >= text.len() {
        if multi_line {
            Scan::failed(at, ErrorKind::EndOfFile, "Unexpected EndOfFile"@)
        } else {
            Scan::failed(at, ErrorKind::String, "Not cloused string"@)
        }
    } else if text[at] == '\\' && !raw {
        match char_at(text, at + 1) {
            None => Scan::failed(at + 1, ErrorKind::EndOfFile, "Unexpected EndOfFile"@),
            Some(escaped) => if escaped == '\n' {
                string_body(text, at + 2, so_far, quote, multi_line, raw)
            } else {
                match escape_value(escaped) {
                    Some(value) => string_body(
                        text,
                        at + 2,
                        so_far.push(value),
                        quote,
                        multi_line,
                        raw,
                    ),
                    None => Scan::failed(
                        at + 2,
                        ErrorKind::EscapeSeq,
                        "Unexpected escape sequence: "@ + str_debug_text(seq!['\\', escaped]),
                    ),
                }
            },
        }
    } else if text[at] == '\n' && !multi_line {
        Scan::failed(at, ErrorKind::String, "Not cloused string"@)
    } else if text[at] == quote {
        if !multi_line {
            Scan::done(at + 1, so_far.push(quote))
        } else if char_at(text, at + 1) == Some(quote) && char_at(text, at + 2) == Some(quote) {
            Scan::done(at + 3, so_far + quotes(quote, true))
        } else {
            string_body(text, at + 1, so_far.push(quote), quote, multi_line, raw)
        }
    } else {
        string_body(text, at + 1, so_far.push(text[at]), quote, multi_line, raw)
    }
}

/// The string literal whose first quote stands at index `from`, after
/// `prefix` where one was read before. The text of the literal starts with the
/// prefix and the opening quotes and ends with the closing ones.
pub open spec fn string_scan(text: Seq<char>, from: int, prefix: Option<char>) -> Scan {
    if prefix is Some && !is_string_prefix(prefix->0) {
        Scan::failed(from, ErrorKind::String, "Invalid prefix"@)
    } else if char_at(text, from) is None {
        Scan::failed(from, ErrorKind::EndOfFile, "Unexpected EndOfFile"@)
    } else {
        let quote = text[from];
        let multi_line = opens_multi_line(text, from);
        string_body(
            text,
            from + quotes(quote, multi_line).len(),
            seed_text(prefix) + quotes(quote, multi_line),
            quote,
            multi_line,
            prefix == Some('r'),
        )
    }
}

/// The body of a string literal is left inside the text, at or after the
/// place where it was taken up.
pub proof fn lemma_string_body_bounds(
    text: Seq<char>,
    at: int,
    so_far: Seq<char>,
    quote: char,
    multi_line: bool,
    raw: bool,
)
    requires
        0 <= at <= text.len(),
    ensures
        at <= string_body(text, at, so_far, quote, multi_line, raw).end <= text.len(),
    decreases text.len() - at,
{
    if at < text.len() {
        if text[at] == '\\' && !raw {
            if at + 1 < text.len() {
                let escaped = text[at + 1];
                if escaped == '\n' {
                    lemma_string_body_bounds(text, at + 2, so_far, quote, multi_line, raw);
                } else if escape_value(escaped) is Some {
                    lemma_string_body_bounds(
                        text,
                        at + 2,
                        so_far.push(escape_value(escaped)->0),
                        quote,
                        multi_line,
                        raw,
                    );
                }
            }
        } else if text[at] == '\n' && !multi_line {
        } else if text[at] == quote {
            if multi_line && !(char_at(text, at + 1) == Some(quote) && char_at(text, at + 2)
                == Some(quote)) {
                lemma_string_body_bounds(
                    text,
                    at + 1,
                    so_far.push(quote),
                    quote,
                    multi_line,
                    raw,
                );
            }
        } else {
            lemma_string_body_bounds(
                text,
                at + 1,
                so_far.push(text[at]),
                quote,
                multi_line,
                raw,
            );
        }
    }
}

/// A string literal that is read takes up at least its opening quote.
pub proof fn lemma_string_scan_advances(text: Seq<char>, from: int, prefix: Option<char>)
    requires
        0 <= from <= text.len(),
    ensures
        from <= string_scan(text, from, prefix).end <= text.len(),
        string_scan(text, from, prefix).fault is None ==> from < string_scan(
            text,
            from,
            prefix,
        ).end,
{
    if !(prefix is Some && !is_string_prefix(prefix->0)) && char_at(text, from) is Some {
        let quote = text[from];
        let multi_line = opens_multi_line(text, from);
        lemma_string_body_bounds(
            text,
            from + quotes(quote, multi_line).len(),
            seed_text(prefix) + quotes(quote, multi_line),
            quote,
            multi_line,
            prefix == Some('r'),
        );
    }
}

fn unescape(c: char) -> (value: Option<char>)
    ensures
        value == escape_value(c),
{
    match c {
        '\\' => Some('\\'),
        '"' => Some('"'),
        '\'' => Some('\''),
        'n' => Some('\n'),
        'r' => Some('\r'),
        't' => Some('\t'),
        'b' => Some('\u{0008}'),
        'v' => Some('\u{000B}'),
        'f' => Some('\u{000C}'),
        'a' => Some('\u{0007}'),
        _ => None,
    }
}

/// Reads a string literal whose first quote stands at the cursor, and returns
/// it as it reads: prefix, quotes, and the body with its escapes resolved
/// unless the literal is raw.
///
/// Fails with a `String` error for a `prefix` other than `u`, `b` and `r`,
/// and for a one-line literal that its line does not close; with an
/// `EscapeSeq` error for a backslash before a character that it cannot
/// escape; with an `EndOfFile` error where the text ends inside a literal
/// that may span lines, after a backslash, or before the first quote.
pub fn collect_string(cursor: &mut PeekableCharTracker, prefix: Option<char>) -> (result: Result<
    String,
    TokenizeError,
>)
    requires
        old(cursor).wf(),
    ensures
        final(cursor).moved(
            old(cursor),
            string_scan(old(cursor).source(), old(cursor).offset(), prefix).end,
        ),
        string_scan(old(cursor).source(), old(cursor).offset(), prefix).delivers(
            old(cursor).source(),
            result,
        ),
{
    let mut string = String::new();
    let mut raw = false;
    if let Some(letter) = prefix {
        if letter == 'u' || letter == 'b' || letter == 'r' {
            string.push(letter);
            raw = letter == 'r';
        } else {
            return Err(fail_here(cursor, ErrorKind::String, "Invalid prefix".to_owned()));
        }
    }
    let ghost source = cursor.source();
    let ghost start = cursor.offset();
    let multi_line = {
        let first = peek_first(cursor);
        first.is_some() && peek_second(cursor) == first && peek_third(cursor) == first
    };
    let quote = match cursor.next() {
        Some(quote) => quote,
        None => {
            return Err(
                fail_here(cursor, ErrorKind::EndOfFile, "Unexpected EndOfFile".to_owned()),
            );
        },
    };
    string.push(quote);
    if multi_line {
        cursor.next();
        cursor.next();
        string.push(quote);
        string.push(quote);
    }
    assert(string@ =~= seed_text(prefix) + quotes(quote, multi_line));
    let ghost scan = string_scan(source, start, prefix);
    loop
        invariant
            cursor.wf(),
            cursor.source() == source,
            source == old(cursor).source(),
            scan == string_scan(source, old(cursor).offset(), prefix),
            scan == string_body(source, cursor.offset(), string@, quote, multi_line, raw),
        decreases source.len() - cursor.offset(),
    {
        let c = match peek_first(cursor) {
            Some(c) => c,
            None => {
                if multi_line {
                    return Err(
                        fail_here(
                            cursor,
                            ErrorKind::EndOfFile,
                            "Unexpected EndOfFile".to_owned(),
                        ),
                    );
                } else {
                    return Err(
                        fail_here(cursor, ErrorKind::String, "Not cloused string".to_owned()),
                    );
                }
            },
        };
        if c == '\\' && !raw {
            cursor.next();
            match cursor.next() {
                None => {
                    return Err(
                        fail_here(
                            cursor,
                            ErrorKind::EndOfFile,
                            "Unexpected EndOfFile".to_owned(),
                        ),
                    );
                },
                Some(escaped) => {
                    if escaped != '\n' {
                        match unescape(escaped) {
                            Some(value) => {
                                string.push(value);
                            },
                            None => {
                                let mut sequence = String::new();
                                sequence.push('\\');
                                sequence.push(escaped);
                                assert(sequence@ =~= seq!['\\', escaped]);
                                let mut message = "Unexpected escape sequence: ".to_owned();
                                message.append(str_debug(sequence.as_str()).as_str());
                                return Err(fail_here(cursor, ErrorKind::EscapeSeq, message));
                            },
                        }
                    }
                },
            }
        } else if c == '\n' && !multi_line {
            return Err(fail_here(cursor, ErrorKind::String, "Not cloused string".to_owned()));
        } else if c == quote {
            if !multi_line {
                cursor.next();
                string.push(quote);
                return Ok(string);
            } else if peek_second(cursor) == Some(quote) && peek_third(cursor) == Some(quote) {
                cursor.next();
                cursor.next();
                cursor.next();
                let ghost body = string@;
                string.push(quote);
                string.push(quote);
                string.push(quote);
                assert(string@ =~= body + quotes(quote, true));
                return Ok(string);
            } else {
                cursor.next();
                string.push(quote);
            }
        } else {
            cursor.next();
            string.push(c);
        }
    }
}

} // verus!
