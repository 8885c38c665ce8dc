//! Character classes of the scanner, and the contracts under which the few
//! `std` routines it relies on are used.

use vstd::prelude::*;

verus! {

/// Whether `char::is_whitespace` holds of `c`: the Unicode `White_Space`
/// property, which is a table too long to write out here.
pub uninterp spec fn white_space_property(c: char) -> bool;

/// Whether `char::is_alphabetic` holds of `c`: the Unicode `Alphabetic`
/// property.
pub uninterp spec fn alphabetic_property(c: char) -> bool;

/// The text that `{:?}` prints for a character: the character between single
/// quotes, escaped where it is not printable.
pub uninterp spec fn char_debug_text(c: char) -> Seq<char>;

/// The text that `{:?}` prints for a string: the string between double quotes,
/// escaped where it is not printable.
pub uninterp spec fn str_debug_text(s: Seq<char>) -> Seq<char>;

/// `char::is_whitespace` is trusted to report the `White_Space` property, and
/// to hold of the space and of the line feed, as its documentation shows.
/// Nothing else is claimed of it.
pub assume_specification[ char::is_whitespace ](c: char) -> (b: bool)
    ensures
        b == white_space_property(c),
        c == ' ' || c == '\n' ==> b,
;

/// `char::is_alphabetic` is trusted to report the `Alphabetic` property.
/// Nothing is claimed of which characters have it.
pub assume_specification[ char::is_alphabetic ](c: char) -> (b: bool)
    ensures
        b == alphabetic_property(c),
;

/// `String::push` is trusted to append the character to the end of the string
/// and to leave what was there before in place.
pub assume_specification[ std::string::String::push ](s: &mut std::string::String, c: char)
    ensures
        final(s)@ == old(s)@.push(c),
;

/// Prints a character with `format!` and `{:?}`, that is through
/// `<char as Debug>::fmt`. What is printed is trusted to depend on the
/// character alone; nothing is claimed of how it reads.
#[verifier::external_body]
pub(crate) fn char_debug(c: char) -> (text: String)
    ensures
        text@ == char_debug_text(c),
{
    format!("{:?}", c)
}

/// Prints a string with `format!` and `{:?}`, that is through
/// `<str as Debug>::fmt`. What is printed is trusted to depend on the
/// characters of the string alone; nothing is claimed of how it reads.
#[verifier::external_body]
pub(crate) fn str_debug(s: &str) -> (text: String)
    ensures
        text@ == str_debug_text(s@),
{
    format!("{:?}", s)
}

/// Characters that separate names: every character with the `White_Space`
/// property, among them the space and the line feed.
pub open spec fn is_whitespace_char(c: char) -> bool {
    c == ' ' || c == '\n' || white_space_property(c)
}

/// Characters that may start a name besides the underscore.
pub open spec fn is_alphabetic_char(c: char) -> bool {
    alphabetic_property(c)
}

/// The decimal digits `0` to `9`.
pub open spec fn is_digit_char(c: char) -> bool {
    '0' <= c <= '9'
}

/// The two characters that make up indentation.
pub open spec fn is_indent_char(c: char) -> bool {
    c == ' ' || c == '\t'
}

/// The two characters that delimit string literals.
pub open spec fn is_quote_char(c: char) -> bool {
    c == '\'' || c == '"'
}

/// The letters that may stand directly before a quote.
pub open spec fn is_prefix_char(c: char) -> bool {
    c == 'r' || c == 'f' || c == 'b' || c == 'u'
}

/// The characters that operators and punctuation are made of.
pub open spec fn is_operator_char(c: char) -> bool {
    ||| c == '=' || c == '+' || c == '-' || c == '*' || c == '/' || c == '%' || c == '&'
    ||| c == '|' || c == '<' || c == '>' || c == '!' || c == '^' || c == ':' || c == ';'
    ||| c == '.' || c == ',' || c == '(' || c == ')' || c == '[' || c == ']' || c == '{'
    ||| c == '}' || c == '@' || c == '$' || c == '?' || c == '~' || c == '`'
}

/// Operator characters that a directly following `=` extends.
pub open spec fn is_augmentable_char(c: char) -> bool {
    ||| c == '=' || c == '+' || c == '-' || c == '*' || c == '/' || c == '%' || c == '&'
    ||| c == '|' || c == '<' || c == '>' || c == '!' || c == '^' || c == ':' || c == '@'
}

/// Operator characters that form an operator of their own when doubled.
pub open spec fn is_doubling_char(c: char) -> bool {
    c == '*' || c == '/' || c == '<' || c == '>'
}

/// Characters that may continue a name: anything but whitespace and operator
/// characters.
pub open spec fn is_name_char(c: char) -> bool {
    !is_whitespace_char(c) && !is_operator_char(c)
}

pub fn is_space(c: char) -> (b: bool)
    ensures
        b == is_whitespace_char(c),
{
    c.is_whitespace()
}

pub fn is_letter(c: char) -> (b: bool)
    ensures
        b == is_alphabetic_char(c),
{
    c.is_alphabetic()
}

pub fn is_digit(c: char) -> (b: bool)
    ensures
        b == is_digit_char(c),
{
    '0' <= c && c <= '9'
}

pub fn is_indent(c: char) -> (b: bool)
    ensures
        b == is_indent_char(c),
{
    c == ' ' || c == '\t'
}

pub fn is_quote(c: char) -> (b: bool)
    ensures
        b == is_quote_char(c),
{
    c == '\'' || c == '"'
}

pub fn is_operator(c: char) -> (b: bool)
    ensures
        b == is_operator_char(c),
{
    match c {
        '=' | '+' | '-' | '*' | '/' | '%' | '&' | '|' | '<' | '>' | '!' | '^' | ':' | ';' | '.'
        | ',' | '(' | ')' | '[' | ']' | '{' | '}' | '@' | '$' | '?' | '~' | '`' => true,
        _ => false,
    }
}

pub fn is_augmentable(c: char) -> (b: bool)
    ensures
        b == is_augmentable_char(c),
{
    match c {
        '=' | '+' | '-' | '*' | '/' | '%' | '&' | '|' | '<' | '>' | '!' | '^' | ':' | '@' => true,
        _ => false,
    }
}

pub fn is_doubling(c: char) -> (b: bool)
    ensures
        b == is_doubling_char(c),
{
    c == '*' || c == '/' || c == '<' || c == '>'
}

pub fn is_name(c: char) -> (b: bool)
    ensures
        b == is_name_char(c),
{
    !is_space(c) && !is_operator(c)
}

/// Copies the characters of `text` into a vector, in order.
pub(crate) fn decode(text: &str) -> (chars: Vec<char>)
    ensures
        chars@ == text@,
{
    let mut chars: Vec<char> = Vec::new();
    for c in it: text.chars()
        invariant
            it.seq() == text@,
            chars@ == it.seq().take(it.index() as int),
    {
        chars.push(c);
        assert(chars@ =~= it.seq().take(it.index() + 1));
    }
    assert(text@.take(text@.len() as int) =~= text@);
    chars
}

} // verus!
