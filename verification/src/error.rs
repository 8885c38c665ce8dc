//! The errors that end a scan.

use vstd::prelude::*;

verus! {

/// Why a scan failed. Each variant carries a message and the `(line, column)`
/// at which the cursor stood when the scan gave up.
#[derive(Debug, PartialEq, Eq)]
pub enum TokenizeError {
    EscapeSeq(String, (usize, usize)),
    String(String, (usize, usize)),
    Number(String, (usize, usize)),
    Operator(String, (usize, usize)),
    Char(String, (usize, usize)),
    Indent(String, (usize, usize)),
    EndOfFile(String, (usize, usize)),
}

/// The category of a [`TokenizeError`].
#[derive(Debug, Clone, Copy, PartialEq, Eq, Structural)]
pub enum ErrorKind {
    EscapeSeq,
    String,
    Number,
    Operator,
    Char,
    Indent,
    EndOfFile,
}

/// What a [`TokenizeError`] stands for in contracts.
pub struct Failure {
    pub kind: ErrorKind,
    pub message: Seq<char>,
    pub line: nat,
    pub column: nat,
}

impl Failure {
    /// Line and column together.
    pub open spec fn reach(self) -> nat {
        self.line + self.column
    }

    /// Whether line and column fit in `usize`.
    pub open spec fn placed(self) -> bool {
        self.line <= usize::MAX && self.column <= usize::MAX
    }

    /// The failure as seen from a scan that embeds the failed one and stands
    /// at `(line, column)` itself: both coordinates are added.
    pub open spec fn shifted(self, line: nat, column: nat) -> Failure {
        Failure {
            kind: self.kind,
            message: self.message,
            line: self.line + line,
            column: self.column + column,
        }
    }
}

/// Whether the position of `failure` fits in `usize`, if there is a failure.
pub open spec fn placed(failure: Option<Failure>) -> bool {
    match failure {
        Some(failure) => failure.placed(),
        None => true,
    }
}

impl View for TokenizeError {
    type V = Failure;

    open spec fn view(&self) -> Failure {
        match self {
            TokenizeError::EscapeSeq(message, at) => Failure {
                kind: ErrorKind::EscapeSeq,
                message: message@,
                line: at.0 as nat,
                column: at.1 as nat,
            },
            TokenizeError::String(message, at) => Failure {
                kind: ErrorKind::String,
                message: message@,
                line: at.0 as nat,
                column: at.1 as nat,
            },
            TokenizeError::Number(message, at) => Failure {
                kind: ErrorKind::Number,
                message: message@,
                line: at.0 as nat,
                column: at.1 as nat,
            },
            TokenizeError::Operator(message, at) => Failure {
                kind: ErrorKind::Operator,
                message: message@,
                line: at.0 as nat,
                column: at.1 as nat,
            },
            TokenizeError::Char(message, at) => Failure {
                kind: ErrorKind::Char,
                message: message@,
                line: at.0 as nat,
                column: at.1 as nat,
            },
            TokenizeError::Indent(message, at) => Failure {
                kind: ErrorKind::Indent,
                message: message@,
                line: at.0 as nat,
                column: at.1 as nat,
            },
            TokenizeError::EndOfFile(message, at) => Failure {
                kind: ErrorKind::EndOfFile,
                message: message@,
                line: at.0 as nat,
                column: at.1 as nat,
            },
        }
    }
}

/// The words that name a category when an error is rendered.
pub open spec fn kind_label(kind: ErrorKind) -> Seq<char> {
    match kind {
        ErrorKind::EscapeSeq => "Escape Sequence"@,
        ErrorKind::String => "String"@,
        ErrorKind::Number => "Number"@,
        ErrorKind::Operator => "Operator"@,
        ErrorKind::Char => "Character"@,
        ErrorKind::Indent => "Indentation"@,
        ErrorKind::EndOfFile => "End of File"@,
    }
}

/// The decimal digit that stands for `d`, for `d` below ten.
pub open spec fn digit_char(d: nat) -> char {
    if d == 0 {
        '0'
    } else if d == 1 {
        '1'
    } else if d == 2 {
        '2'
    } else if d == 3 {
        '3'
    } else if d == 4 {
        '4'
    } else if d == 5 {
        '5'
    } else if d == 6 {
        '6'
    } else if d == 7 {
        '7'
    } else if d == 8 {
        '8'
    } else {
        '9'
    }
}

/// The decimal numeral of `n`, without leading zeros.
pub open spec fn decimal(n: nat) -> Seq<char>
    decreases n,
{
    if n < 10 {
        seq![digit_char(n)]
    } else {
        decimal(n / 10).push(digit_char(n % 10))
    }
}

/// How a failure reads: `<Kind> Error: <message> at pos <line>:<column>`.
pub open spec fn rendered(failure: Failure) -> Seq<char> {
    kind_label(failure.kind) + " Error: "@ + failure.message + " at pos "@ + decimal(failure.line)
        + seq![':'] + decimal(failure.column)
}

fn digit_of(d: usize) -> (c: char)
    requires
        d < 10,
    ensures
        c == digit_char(d as nat),
{
    if d == 0 {
        '0'
    } else if d == 1 {
        '1'
    } else if d == 2 {
        '2'
    } else if d == 3 {
        '3'
    } else if d == 4 {
        '4'
    } else if d == 5 {
        '5'
    } else if d == 6 {
        '6'
    } else if d == 7 {
        '7'
    } else if d == 8 {
        '8'
    } else {
        '9'
    }
}

/// Appends the decimal numeral of `n` to `out`.
fn push_decimal(out: &mut String, n: usize)
    ensures
        final(out)@ == old(out)@ + decimal(n as nat),
    decreases n,
{
    if n < 10 {
        out.push(digit_of(n));
        assert(out@ =~= old(out)@ + decimal(n as nat));
    } else {
        push_decimal(out, n / 10);
        out.push(digit_of(n % 10));
        assert(out@ =~= old(out)@ + decimal(n as nat));
    }
}

impl TokenizeError {
    /// The category of the error.
    pub fn kind(&self) -> (kind: ErrorKind)
        ensures
            kind == self@.kind,
    {
        match self {
            TokenizeError::EscapeSeq(_, _) => ErrorKind::EscapeSeq,
            TokenizeError::String(_, _) => ErrorKind::String,
            TokenizeError::Number(_, _) => ErrorKind::Number,
            TokenizeError::Operator(_, _) => ErrorKind::Operator,
            TokenizeError::Char(_, _) => ErrorKind::Char,
            TokenizeError::Indent(_, _) => ErrorKind::Indent,
            TokenizeError::EndOfFile(_, _) => ErrorKind::EndOfFile,
        }
    }

    /// The `(line, column)` at which the scan gave up.
    pub fn position(&self) -> (at: (usize, usize))
        ensures
            at.0 == self@.line,
            at.1 == self@.column,
    {
        match self {
            TokenizeError::EscapeSeq(_, at) => *at,
            TokenizeError::String(_, at) => *at,
            TokenizeError::Number(_, at) => *at,
            TokenizeError::Operator(_, at) => *at,
            TokenizeError::Char(_, at) => *at,
            TokenizeError::Indent(_, at) => *at,
            TokenizeError::EndOfFile(_, at) => *at,
        }
    }

    /// The message of the error.
    pub fn message(&self) -> (message: &String)
        ensures
            message@ == self@.message,
    {
        match self {
            TokenizeError::EscapeSeq(message, _) => message,
            TokenizeError::String(message, _) => message,
            TokenizeError::Number(message, _) => message,
            TokenizeError::Operator(message, _) => message,
            TokenizeError::Char(message, _) => message,
            TokenizeError::Indent(message, _) => message,
            TokenizeError::EndOfFile(message, _) => message,
        }
    }

    /// Builds the error of category `kind`.
    pub fn of_kind(kind: ErrorKind, message: String, at: (usize, usize)) -> (error: TokenizeError)
        ensures
            error@ == (Failure {
                kind,
                message: message@,
                line: at.0 as nat,
                column: at.1 as nat,
            }),
    {
        match kind {
            ErrorKind::EscapeSeq => TokenizeError::EscapeSeq(message, at),
            ErrorKind::String => TokenizeError::String(message, at),
            ErrorKind::Number => TokenizeError::Number(message, at),
            ErrorKind::Operator => TokenizeError::Operator(message, at),
            ErrorKind::Char => TokenizeError::Char(message, at),
            ErrorKind::Indent => TokenizeError::Indent(message, at),
            ErrorKind::EndOfFile => TokenizeError::EndOfFile(message, at),
        }
    }

    /// The same error as seen from an embedding scan that stands at `by`.
    pub fn shifted(self, by: (usize, usize)) -> (error: TokenizeError)
        requires
            self@.line + by.0 <= usize::MAX,
            self@.column + by.1 <= usize::MAX,
        ensures
            error@ == self@.shifted(by.0 as nat, by.1 as nat),
    {
        match self {
            TokenizeError::EscapeSeq(message, at) => TokenizeError::EscapeSeq(
                message,
                (at.0 + by.0, at.1 + by.1),
            ),
            TokenizeError::String(message, at) => TokenizeError::String(
                message,
                (at.0 + by.0, at.1 + by.1),
            ),
            TokenizeError::Number(message, at) => TokenizeError::Number(
                message,
                (at.0 + by.0, at.1 + by.1),
            ),
            TokenizeError::Operator(message, at) => TokenizeError::Operator(
                message,
                (at.0 + by.0, at.1 + by.1),
            ),
            TokenizeError::Char(message, at) => TokenizeError::Char(
                message,
                (at.0 + by.0, at.1 + by.1),
            ),
            TokenizeError::Indent(message, at) => TokenizeError::Indent(
                message,
                (at.0 + by.0, at.1 + by.1),
            ),
            TokenizeError::EndOfFile(message, at) => TokenizeError::EndOfFile(
                message,
                (at.0 + by.0, at.1 + by.1),
            ),
        }
    }

    /// The error as a line of text for a reader.
    pub fn render(&self) -> (text: String)
        ensures
            text@ == rendered(self@),
    {
        let label = match self {
            TokenizeError::EscapeSeq(_, _) => "Escape Sequence",
            TokenizeError::String(_, _) => "String",
            TokenizeError::Number(_, _) => "Number",
            TokenizeError::Operator(_, _) => "Operator",
            TokenizeError::Char(_, _) => "Character",
            TokenizeError::Indent(_, _) => "Indentation",
            TokenizeError::EndOfFile(_, _) => "End of File",
        };
        let at = self.position();
        let mut text = label.to_owned();
        text.append(" Error: ");
        text.append(self.message().as_str());
        text.append(" at pos ");
        push_decimal(&mut text, at.0);
        text.push(':');
        push_decimal(&mut text, at.1);
        assert(text@ =~= rendered(self@));
        text
    }
}

} // verus!
