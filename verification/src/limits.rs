//! How long a text may be for every position of a failure to fit in `usize`.

use vstd::prelude::*;

verus! {

/// The most that the line and the column of a failure can add up to in the
/// scan of a text of length `len`. A failure inside an embedded expression is
/// moved by the position of the text around it, at every level anew, so this
/// grows with the square of the length.
#[verifier::opaque]
pub open spec fn position_budget(len: nat) -> nat {
    (len + 3) * (len + 3)
}

/// The largest number whose square fits in `usize`.
pub open spec fn largest_root() -> nat {
    if usize::MAX > 0xffff_ffff {
        0xffff_ffff
    } else {
        0xffff
    }
}

/// Whether a text of length `len` is short enough that the position of
/// every failure in it fits in `usize`, whatever the text holds.
pub open spec fn short_enough(len: nat) -> bool {
    len + 4 <= largest_root()
}

/// A text that is short enough is shorter than `usize` reaches, by 4 at
/// least, and its budget fits in `usize`.
pub proof fn lemma_short_enough(len: nat)
    requires
        short_enough(len),
    ensures
        len + 4 <= usize::MAX,
        position_budget(len) <= usize::MAX,
{
    reveal(position_budget);
    let root = largest_root();
    assert(root * root <= usize::MAX) by {
        assert(0xffff_ffffnat * 0xffff_ffffnat <= 0xffff_ffff_ffff_ffff) by (nonlinear_arith);
        assert(0xffffnat * 0xffffnat <= 0xffff_ffff) by (nonlinear_arith);
    }
    assert((len + 3) * (len + 3) <= root * root) by (nonlinear_arith)
        requires
            len + 3 <= root,
    ;
}

/// Whether a text of `len` characters is short enough.
pub fn fits(len: usize) -> (yes: bool)
    ensures
        yes == short_enough(len as nat),
{
    let root: usize = if usize::MAX > 0xffff_ffff {
        0xffff_ffff
    } else {
        0xffff
    };
    len <= root - 4
}

} // verus!
