//! String literals: what is read is closed.

use crate::collectors::scan::{char_at, seed_text};
use crate::collectors::string::{
    escape_value, opens_multi_line, quotes, string_body, string_scan,
};
use vstd::prelude::*;

verus! {

/// How often `c` stands in `text`.
pub open spec fn occurrences(text: Seq<char>, c: char) -> nat
    decreases text.len(),
{
    if text.len() == 0 {
        0
    } else {
        occurrences(text.drop_last(), c) + if text.last() == c {
            1nat
        } else {
            0nat
        }
    }
}

/// A character more never makes the occurrences fewer, and makes them one
/// more if it is the character that is counted.
pub proof fn lemma_occurrences_push(text: Seq<char>, c: char, more: char)
    ensures
        occurrences(text.push(more), c) == occurrences(text, c) + if more == c {
            1nat
        } else {
            0nat
        },
{
    assert(text.push(more).drop_last() =~= text);
}

/// More text never makes the occurrences fewer.
pub proof fn lemma_occurrences_add(first: Seq<char>, second: Seq<char>, c: char)
    ensures
        occurrences(first + second, c) == occurrences(first, c) + occurrences(second, c),
    decreases second.len(),
{
    if second.len() == 0 {
        assert(first + second =~= first);
    } else {
        lemma_occurrences_add(first, second.drop_last(), c);
        assert((first + second).drop_last() =~= first + second.drop_last());
    }
}

/// The body of a string literal that is read adds at least one quote to the
/// text read before.
proof fn lemma_string_body_adds_quote(
    text: Seq<char>,
    at: int,
    so_far: Seq<char>,
    quote: char,
    multi_line: bool,
    raw: bool,
)
    requires
        string_body(text, at, so_far, quote, multi_line, raw).fault is None,
    ensures
        occurrences(string_body(text, at, so_far, quote, multi_line, raw).text, quote)
            > occurrences(so_far, quote),
    decreases text.len() - at,
{
    if !(at < 0 || at >= text.len()) {
        if text[at] == '\\' && !raw {
            if at + 1 < text.len() {
                let escaped = text[at + 1];
                if escaped == '\n' {
                    lemma_string_body_adds_quote(text, at + 2, so_far, quote, multi_line, raw);
                } else if escape_value(escaped) is Some {
                    let value = escape_value(escaped)->0;
                    lemma_occurrences_push(so_far, quote, value);
                    lemma_string_body_adds_quote(
                        text,
                        at + 2,
                        so_far.push(value),
                        quote,
                        multi_line,
                        raw,
                    );
                }
            }
        } else if text[at] == '\n' && !multi_line {
        } else if text[at] == quote {
            lemma_occurrences_push(so_far, quote, quote);
            if !multi_line {
            } else if char_at(text, at + 1) == Some(quote) && char_at(text, at + 2) == Some(
                quote,
            ) {
                lemma_occurrences_add(so_far, quotes(quote, true), quote);
                lemma_occurrences_push(Seq::empty(), quote, quote);
                lemma_occurrences_push(seq![quote], quote, quote);
                lemma_occurrences_push(seq![quote, quote], quote, quote);
                assert(Seq::<char>::empty().push(quote) =~= seq![quote]);
                assert(seq![quote].push(quote) =~= seq![quote, quote]);
                assert(seq![quote, quote].push(quote) =~= quotes(quote, true));
            } else {
                lemma_string_body_adds_quote(
                    text,
                    at + 1,
                    so_far.push(quote),
                    quote,
                    multi_line,
                    raw,
                );
            }
        } else {
            lemma_occurrences_push(so_far, quote, text[at]);
            lemma_string_body_adds_quote(
                text,
                at + 1,
                so_far.push(text[at]),
                quote,
                multi_line,
                raw,
            );
        }
    }
}

/// A string literal that is read is closed: its quote stands in its text
/// twice at least, once to open it and once to close it.
pub proof fn strings_are_closed(text: Seq<char>, from: int, prefix: Option<char>)
    requires
        string_scan(text, from, prefix).fault is None,
    ensures
        0 <= from < text.len(),
        occurrences(string_scan(text, from, prefix).text, text[from]) >= 2,
{
    let quote = text[from];
    let multi_line = opens_multi_line(text, from);
    let opening = seed_text(prefix) + quotes(quote, multi_line);
    assert(opening.drop_last().push(quote) =~= opening);
    lemma_occurrences_push(opening.drop_last(), quote, quote);
    lemma_string_body_adds_quote(
        text,
        from + quotes(quote, multi_line).len(),
        opening,
        quote,
        multi_line,
        prefix == Some('r'),
    );
}

} // verus!
