//! A lexical scanner for Python-dialect source text.

use vstd::prelude::*;

pub mod chars;
pub mod collectors;
pub mod cursor;
pub mod error;
pub mod laws;
pub mod lexer;
pub mod limits;
pub mod token;
pub mod tokenizer;

pub use cursor::ModPeekable;
pub use cursor::PeekableCharTracker;
pub use error::ErrorKind;
pub use error::Failure;
pub use error::TokenizeError;
pub use token::Token;
pub use token::TokenView;
pub use tokenizer::tokenize;
pub use tokenizer::try_tokenize;

verus! {

/// Every character that an operator or a piece of punctuation is made of.
pub const OPERATORS: &'static str = "=+-*/%&|<>!^:;.,()[]{}@$?~`";

/// The operator characters are those of [`OPERATORS`], and no others.
pub proof fn operator_chars_are_listed(c: char)
    ensures
        chars::is_operator_char(c) <==> OPERATORS@.contains(c),
{
    reveal_strlit("=+-*/%&|<>!^:;.,()[]{}@$?~`");
    let all = OPERATORS@;
    if chars::is_operator_char(c) {
        if c == '=' {
            assert(all[0] == c);
        } else if c == '+' {
            assert(all[1] == c);
        } else if c == '-' {
            assert(all[2] == c);
        } else if c == '*' {
            assert(all[3] == c);
        } else if c == '/' {
            assert(all[4] == c);
        } else if c == '%' {
            assert(all[5] == c);
        } else if c == '&' {
            assert(all[6] == c);
        } else if c == '|' {
            assert(all[7] == c);
        } else if c == '<' {
            assert(all[8] == c);
        } else if c == '>' {
            assert(all[9] == c);
        } else if c == '!' {
            assert(all[10] == c);
        } else if c == '^' {
            assert(all[11] == c);
        } else if c == ':' {
            assert(all[12] == c);
        } else if c == ';' {
            assert(all[13] == c);
        } else if c == '.' {
            assert(all[14] == c);
        } else if c == ',' {
            assert(all[15] == c);
        } else if c == '(' {
            assert(all[16] == c);
        } else if c == ')' {
            assert(all[17] == c);
        } else if c == '[' {
            assert(all[18] == c);
        } else if c == ']' {
            assert(all[19] == c);
        } else if c == '{' {
            assert(all[20] == c);
        } else if c == '}' {
            assert(all[21] == c);
        } else if c == '@' {
            assert(all[22] == c);
        } else if c == '$' {
            assert(all[23] == c);
        } else if c == '?' {
            assert(all[24] == c);
        } else if c == '~' {
            assert(all[25] == c);
        } else if c == '`' {
            assert(all[26] == c);
        }
        assert(all.contains(c));
    }
    if all.contains(c) {
        let k = choose|k: int| 0 <= k < all.len() && all[k] == c;
        assert(chars::is_operator_char(c));
    }
}

} // verus!
