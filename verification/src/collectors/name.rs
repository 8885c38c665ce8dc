//! Names: identifiers and keywords alike.

use crate::collectors::run::{collect_run, run_end, Run};
use crate::collectors::scan::seed_text;
use crate::cursor::PeekableCharTracker;
use vstd::prelude::*;

verus! {

/// Reads a name: the characters at the cursor up to the next whitespace or
/// operator character, after `prefix` where one was read before. No word is
/// treated as a keyword.
pub fn collect_name(cursor: &mut PeekableCharTracker, prefix: Option<char>) -> (name: String)
    requires
        old(cursor).wf(),
    ensures
        final(cursor).moved(
            old(cursor),
            run_end(old(cursor).source(), old(cursor).offset(), Run::Name),
        ),
        name@ == seed_text(prefix) + old(cursor).source().subrange(
            old(cursor).offset(),
            final(cursor).offset(),
        ),
{
    let mut name = String::new();
    if let Some(first) = prefix {
        name.push(first);
    }
    assert(name@ =~= seed_text(prefix));
    collect_run(cursor, Run::Name, &mut name);
    name
}

} // verus!
