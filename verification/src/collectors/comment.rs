//! Comments: from the marker to the end of the line.

use crate::collectors::run::{collect_run, lemma_run_end, run_end, Run};
use crate::cursor::PeekableCharTracker;
use vstd::prelude::*;

verus! {

/// The text of the comment whose marker stands at `from` and which ends
/// before `end`: everything after the marker.
pub open spec fn comment_body(text: Seq<char>, from: int, end: int) -> Seq<char> {
    if from < end {
        text.subrange(from + 1, end)
    } else {
        Seq::empty()
    }
}

/// Reads a comment: every character at the cursor up to the end of the line,
/// which stays unread. The first of them is the marker and is left out of
/// the result.
pub fn collect_comment(cursor: &mut PeekableCharTracker) -> (comment: String)
    requires
        old(cursor).wf(),
    ensures
        final(cursor).moved(
            old(cursor),
            run_end(old(cursor).source(), old(cursor).offset(), Run::Comment),
        ),
        comment@ == comment_body(
            old(cursor).source(),
            old(cursor).offset(),
            final(cursor).offset(),
        ),
{
    let mut comment = String::new();
    let in_line = |c: &char| -> (keep: bool)
        ensures
            keep == (*c != '\n'),
        { *c != '\n' };
    let marker = cursor.next_if(in_line);
    proof {
        lemma_run_end(cursor.source(), cursor.offset(), Run::Comment);
    }
    if marker.is_some() {
        collect_run(cursor, Run::Comment, &mut comment);
        assert(comment@ =~= comment_body(
            old(cursor).source(),
            old(cursor).offset(),
            cursor.offset(),
        ));
    }
    comment
}

} // verus!
