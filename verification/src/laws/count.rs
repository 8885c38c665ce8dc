//! Counting tokens of one kind.

use crate::lexer::dedents;
use crate::token::TokenView;
use vstd::prelude::*;

verus! {

/// How many `Indent` tokens `tokens` holds.
pub open spec fn indent_count(tokens: Seq<TokenView>) -> nat
    decreases tokens.len(),
{
    if tokens.len() == 0 {
        0
    } else {
        indent_count(tokens.drop_last()) + if tokens.last() is Indent {
            1nat
        } else {
            0nat
        }
    }
}

/// How many `Dedent` tokens `tokens` holds.
pub open spec fn dedent_count(tokens: Seq<TokenView>) -> nat
    decreases tokens.len(),
{
    if tokens.len() == 0 {
        0
    } else {
        dedent_count(tokens.drop_last()) + if tokens.last() is Dedent {
            1nat
        } else {
            0nat
        }
    }
}

/// How many `NewLine` tokens `tokens` holds.
pub open spec fn new_line_count(tokens: Seq<TokenView>) -> nat
    decreases tokens.len(),
{
    if tokens.len() == 0 {
        0
    } else {
        new_line_count(tokens.drop_last()) + if tokens.last() is NewLine {
            1nat
        } else {
            0nat
        }
    }
}

/// By how many the `Indent` tokens outnumber the `Dedent` tokens.
pub open spec fn surplus(tokens: Seq<TokenView>) -> int {
    indent_count(tokens) - dedent_count(tokens)
}

/// The counts of a sequence are the sums of the counts of its parts.
pub proof fn lemma_counts_add(first: Seq<TokenView>, second: Seq<TokenView>)
    ensures
        indent_count(first + second) == indent_count(first) + indent_count(second),
        dedent_count(first + second) == dedent_count(first) + dedent_count(second),
        new_line_count(first + second) == new_line_count(first) + new_line_count(second),
        surplus(first + second) == surplus(first) + surplus(second),
    decreases second.len(),
{
    if second.len() == 0 {
        assert(first + second =~= first);
    } else {
        lemma_counts_add(first, second.drop_last());
        assert((first + second).drop_last() =~= first + second.drop_last());
    }
}

/// A single token counts as what it is.
pub proof fn lemma_counts_single(token: TokenView)
    ensures
        indent_count(seq![token]) == (if token is Indent {
            1nat
        } else {
            0nat
        }),
        dedent_count(seq![token]) == (if token is Dedent {
            1nat
        } else {
            0nat
        }),
        new_line_count(seq![token]) == (if token is NewLine {
            1nat
        } else {
            0nat
        }),
{
    reveal_with_fuel(indent_count, 2);
    reveal_with_fuel(dedent_count, 2);
    reveal_with_fuel(new_line_count, 2);
    assert(seq![token].drop_last() =~= Seq::<TokenView>::empty());
}

/// A run of `Dedent` tokens holds as many of them as it is long, and no
/// `Indent`.
pub proof fn lemma_counts_dedents(count: nat)
    ensures
        indent_count(dedents(count)) == 0,
        dedent_count(dedents(count)) == count,
        new_line_count(dedents(count)) == 0,
    decreases count,
{
    if count > 0 {
        lemma_counts_dedents((count - 1) as nat);
        assert(dedents(count).drop_last() =~= dedents((count - 1) as nat));
    }
}

} // verus!
