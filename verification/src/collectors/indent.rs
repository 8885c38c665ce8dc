//! Indentation at the start of a line.

use crate::collectors::run::{collect_run, run_end, Run};
use crate::cursor::PeekableCharTracker;
use vstd::prelude::*;

verus! {

/// Reads the spaces and tabs at the cursor and returns them as they stand;
/// the result is empty where there are none.
pub fn collect_indent(cursor: &mut PeekableCharTracker) -> (indent: String)
    requires
        old(cursor).wf(),
    ensures
        final(cursor).moved(
            old(cursor),
            run_end(old(cursor).source(), old(cursor).offset(), Run::Indent),
        ),
        indent@ == old(cursor).source().subrange(old(cursor).offset(), final(cursor).offset()),
{
    let mut indent = String::new();
    collect_run(cursor, Run::Indent, &mut indent);
    assert(indent@ =~= old(cursor).source().subrange(old(cursor).offset(), cursor.offset()));
    indent
}

} // verus!
