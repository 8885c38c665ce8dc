//! What holds of every scan.

use crate::error::TokenizeError;
use crate::lexer::{lemma_lex_from_ends, lemma_lex_unfolds, lex, normalized, Nesting};
use crate::token::Token;
use vstd::prelude::*;

pub mod balance;
pub mod count;
pub mod expressions;
pub mod fidelity;
pub mod lines;
pub mod positions;
pub mod strings;

verus! {

/// Scanning is a function of the text: two scans of the same text give the
/// same tokens, or fail in the same way.
pub proof fn scan_is_deterministic(
    text: Seq<char>,
    first: Result<Vec<Token>, TokenizeError>,
    second: Result<Vec<Token>, TokenizeError>,
)
    requires
        lex(text).delivers(first),
        lex(text).delivers(second),
    ensures
        first is Ok <==> second is Ok,
        first is Ok ==> first->Ok_0.deep_view() == second->Ok_0.deep_view(),
        first is Err ==> first->Err_0@ == second->Err_0@,
{
}

/// Every scan that does not fail ends with the end marker.
pub proof fn scan_ends_with_end_marker(text: Seq<char>)
    ensures
        lex(text).failure is None ==> lex(text).tokens.len() > 0 && lex(text).tokens.last()
            is EndMarker,
{
    lemma_lex_unfolds(text);
    lemma_lex_from_ends(normalized(text), 0, Nesting::start(), Seq::empty());
}

} // verus!
