//! Operators and punctuation.

use crate::chars::{
    char_debug, char_debug_text, is_augmentable, is_augmentable_char, is_doubling,
    is_doubling_char, is_operator, is_operator_char,
};
use crate::collectors::scan::{char_at, fail_here, peek_first, Scan};
use crate::cursor::PeekableCharTracker;
use crate::error::{ErrorKind, TokenizeError};
use vstd::prelude::*;

verus! {

/// How many characters from index `from` on belong to the operator that
/// starts with `first`, which stands before them. The longest form wins:
///
/// - `=` after a character that it extends (`+=`, `==`, `!=`, ...);
/// - `>` after `-` or `<` (`->`, `<>`);
/// - the same character once more after `*`, `/`, `<` or `>`, and `=` after
///   that (`**`, `//=`, ...);
/// - else none.
pub open spec fn operator_extent(first: char, text: Seq<char>, from: int) -> int {
    let next = char_at(text, from);
    if next == Some('=') && is_augmentable_char(first) {
        1
    } else if first == '-' && next == Some('>') {
        1
    } else if first == '<' && next == Some('>') {
        1
    } else if next == Some(first) && is_doubling_char(first) {
        if char_at(text, from + 1) == Some('=') {
            2
        } else {
            1
        }
    } else {
        0
    }
}

/// The operator that starts with `first`, read before, and goes on at index
/// `from`. A `first` that is no operator character is a fault.
pub open spec fn operator_scan(first: char, text: Seq<char>, from: int) -> Scan {
    if is_operator_char(first) {
        let end = from + operator_extent(first, text, from);
        Scan::done(end, seq![first] + text.subrange(from, end))
    } else {
        Scan::failed(from, ErrorKind::Operator, "Invalid operator: "@ + char_debug_text(first))
    }
}

/// Reads the rest of the operator whose first character, `operator`, was read
/// before, and returns the whole of it. An `operator` that is no operator
/// character is an `Operator` error, and nothing is read.
pub fn collect_operator(cursor: &mut PeekableCharTracker, operator: char) -> (result: Result<
    String,
    TokenizeError,
>)
    requires
        old(cursor).wf(),
    ensures
        final(cursor).moved(
            old(cursor),
            operator_scan(operator, old(cursor).source(), old(cursor).offset()).end,
        ),
        operator_scan(operator, old(cursor).source(), old(cursor).offset()).delivers(
            old(cursor).source(),
            result,
        ),
{
    if !is_operator(operator) {
        let mut message = "Invalid operator: ".to_owned();
        message.append(char_debug(operator).as_str());
        return Err(fail_here(cursor, ErrorKind::Operator, message));
    }
    let ghost source = cursor.source();
    let ghost start = cursor.offset();
    let mut text = String::new();
    text.push(operator);
    let next = peek_first(cursor);
    if next == Some('=') && is_augmentable(operator) {
        cursor.next();
        text.push('=');
    } else if operator == '-' && next == Some('>') {
        cursor.next();
        text.push('>');
    } else if operator == '<' && next == Some('>') {
        cursor.next();
        text.push('>');
    } else if next == Some(operator) && is_doubling(operator) {
        cursor.next();
        text.push(operator);
        if peek_first(cursor) == Some('=') {
            cursor.next();
            text.push('=');
        }
    }
    assert(text@ =~= seq![operator] + source.subrange(start, cursor.offset()));
    Ok(text)
}

} // verus!
