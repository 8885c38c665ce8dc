//! What a scanner reports of one token: where it stopped, and the text or the
//! fault it found.

use crate::cursor::{position_at, PeekableCharTracker};
use crate::error::{ErrorKind, Failure, TokenizeError};
use crate::token::TokenView;
use vstd::prelude::*;

verus! {

/// Why a token could not be read.
pub struct Fault {
    pub kind: ErrorKind,
    pub message: Seq<char>,
}

impl Fault {
    /// The failure that this fault raises at `position`.
    pub open spec fn at(self, position: (nat, nat)) -> Failure {
        Failure { kind: self.kind, message: self.message, line: position.0, column: position.1 }
    }
}

/// The outcome of reading one token from a text.
pub struct Scan {
    /// The index at which the cursor is left.
    pub end: int,
    /// The text of the token; of no account where there is a fault.
    pub text: Seq<char>,
    /// Why the token could not be read, if it could not.
    pub fault: Option<Fault>,
}

impl Scan {
    /// The scan that reads `text` and stops at `end`.
    pub open spec fn done(end: int, text: Seq<char>) -> Scan {
        Scan { end, text, fault: None }
    }

    /// The scan that gives up at `end`.
    pub open spec fn failed(end: int, kind: ErrorKind, message: Seq<char>) -> Scan {
        Scan { end, text: Seq::empty(), fault: Some(Fault { kind, message }) }
    }

    /// Whether `result` is what this scan of `source` hands out: its text
    /// where there is no fault, else the fault at the position of `end`.
    pub open spec fn delivers(
        self,
        source: Seq<char>,
        result: Result<String, TokenizeError>,
    ) -> bool {
        match result {
            Ok(text) => self.fault is None && text@ == self.text,
            Err(error) => self.fault is Some && error@ == self.fault->0.at(
                position_at(source, self.end),
            ),
        }
    }
}

/// The outcome of reading a stretch of text that yields tokens.
pub struct Emission {
    /// The index at which the cursor is left.
    pub end: int,
    /// The tokens read, up to the failure where there is one.
    pub tokens: Seq<TokenView>,
    /// Why reading stopped early, if it did.
    pub failure: Option<Failure>,
}

impl Emission {
    /// The emission that reads `tokens` and stops at `end`.
    pub open spec fn done(end: int, tokens: Seq<TokenView>) -> Emission {
        Emission { end, tokens, failure: None }
    }

    /// The emission that gives up at `end`, in `text`, with nothing read.
    pub open spec fn failed(
        text: Seq<char>,
        end: int,
        kind: ErrorKind,
        message: Seq<char>,
    ) -> Emission {
        Emission {
            end,
            tokens: Seq::empty(),
            failure: Some((Fault { kind, message }).at(position_at(text, end))),
        }
    }

    /// The emission of one token, read with `scan` in `text`: the token
    /// where the scan has no fault, else the failure at the place where the
    /// scan gave up.
    pub open spec fn token(scan: Scan, token: TokenView, text: Seq<char>) -> Emission {
        match scan.fault {
            Some(fault) => Emission {
                end: scan.end,
                tokens: Seq::empty(),
                failure: Some(fault.at(position_at(text, scan.end))),
            },
            None => Emission::done(scan.end, seq![token]),
        }
    }

    /// The emission after `emitted`: the same, with those tokens before its
    /// own.
    pub open spec fn after(self, emitted: Seq<TokenView>) -> Emission {
        Emission { end: self.end, tokens: emitted + self.tokens, failure: self.failure }
    }

    /// Whether a scanner that started with the cursor `before` and the
    /// tokens `had` has done what this emission says: the cursor stands at
    /// its end, the tokens are those it had and the emission's, and the
    /// result is its failure, if it has one.
    pub open spec fn carried_out(
        self,
        before: &PeekableCharTracker,
        after: &PeekableCharTracker,
        had: Seq<TokenView>,
        have: Seq<TokenView>,
        result: Result<(), TokenizeError>,
    ) -> bool {
        &&& after.moved(before, self.end)
        &&& have == had + self.tokens
        &&& match result {
            Ok(_) => self.failure is None,
            Err(error) => self.failure == Some(error@),
        }
    }
}

/// The character at index `at`, if the text reaches that far.
pub open spec fn char_at(text: Seq<char>, at: int) -> Option<char> {
    if 0 <= at < text.len() {
        Some(text[at])
    } else {
        None
    }
}

/// The text that a character read ahead of a token contributes to it.
pub open spec fn seed_text(seed: Option<char>) -> Seq<char> {
    match seed {
        Some(c) => seq![c],
        None => Seq::empty(),
    }
}

/// The error of category `kind` at the place where the cursor stands.
pub(crate) fn fail_here(cursor: &PeekableCharTracker, kind: ErrorKind, message: String) -> (error:
    TokenizeError)
    requires
        cursor.wf(),
    ensures
        error@ == (Fault { kind, message: message@ }).at(cursor.position()),
{
    TokenizeError::of_kind(kind, message, cursor.pos())
}

/// The character after the one about to be read, if there is one.
pub(crate) fn peek_second(cursor: &PeekableCharTracker) -> (second: Option<char>)
    requires
        cursor.wf(),
    ensures
        second == char_at(cursor.source(), cursor.offset() + 1),
{
    let mut ahead = cursor.clone();
    ahead.next();
    match ahead.peek() {
        Some(c) => Some(*c),
        None => None,
    }
}

/// The character about to be read, if there is one.
pub(crate) fn peek_first(cursor: &PeekableCharTracker) -> (first: Option<char>)
    requires
        cursor.wf(),
    ensures
        first == char_at(cursor.source(), cursor.offset()),
{
    match cursor.peek() {
        Some(c) => Some(*c),
        None => None,
    }
}

/// The second character after the one about to be read, if there is one.
pub(crate) fn peek_third(cursor: &PeekableCharTracker) -> (third: Option<char>)
    requires
        cursor.wf(),
    ensures
        third == char_at(cursor.source(), cursor.offset() + 2),
{
    let mut ahead = cursor.clone();
    ahead.next();
    ahead.next();
    match ahead.peek() {
        Some(c) => Some(*c),
        None => None,
    }
}

} // verus!
