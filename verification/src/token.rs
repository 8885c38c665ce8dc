//! The tokens that the scanner produces.

use vstd::prelude::*;

verus! {

/// A token of Python-dialect source text. Variants that carry text own it.
#[derive(Debug, PartialEq, Eq)]
pub enum Token {
    /// Marks the end of the text.
    EndMarker,
    /// A name: an identifier or a keyword.
    Name(String),
    /// A number literal.
    Number(String),
    /// A string literal, with its quotes and its prefix.
    String(String),
    /// The end of a logical line.
    NewLine,
    /// An operator or a piece of punctuation.
    OP(String),
    /// The start of a deeper block, with the whitespace that opens it.
    Indent(String),
    /// The end of a block.
    Dedent,
    /// A comment, without the marker that starts it.
    Comment(String),
    /// A line break that ends no logical line.
    NL,
    /// The start of a formatted string: its prefix and opening quotes.
    FStringStart(String),
    /// A literal run inside a formatted string.
    FStringMiddle(String),
    /// The closing quotes of a formatted string.
    FStringEnd(String),
}

/// What a [`Token`] stands for in contracts: the same variants over sequences
/// of characters.
pub enum TokenView {
    EndMarker,
    Name(Seq<char>),
    Number(Seq<char>),
    String(Seq<char>),
    NewLine,
    OP(Seq<char>),
    Indent(Seq<char>),
    Dedent,
    Comment(Seq<char>),
    NL,
    FStringStart(Seq<char>),
    FStringMiddle(Seq<char>),
    FStringEnd(Seq<char>),
}

impl View for Token {
    type V = TokenView;

    open spec fn view(&self) -> TokenView {
        match self {
            Token::EndMarker => TokenView::EndMarker,
            Token::Name(text) => TokenView::Name(text@),
            Token::Number(text) => TokenView::Number(text@),
            Token::String(text) => TokenView::String(text@),
            Token::NewLine => TokenView::NewLine,
            Token::OP(text) => TokenView::OP(text@),
            Token::Indent(text) => TokenView::Indent(text@),
            Token::Dedent => TokenView::Dedent,
            Token::Comment(text) => TokenView::Comment(text@),
            Token::NL => TokenView::NL,
            Token::FStringStart(text) => TokenView::FStringStart(text@),
            Token::FStringMiddle(text) => TokenView::FStringMiddle(text@),
            Token::FStringEnd(text) => TokenView::FStringEnd(text@),
        }
    }
}

impl DeepView for Token {
    type V = TokenView;

    open spec fn deep_view(&self) -> TokenView {
        self@
    }
}

impl TokenView {
    /// Whether the token ends a line: `NewLine` or `NL`.
    pub open spec fn is_line_break(self) -> bool {
        self is NewLine || self is NL
    }
}

/// Appends `token` to `tokens`.
pub(crate) fn emit(tokens: &mut Vec<Token>, token: Token)
    ensures
        final(tokens).deep_view() == old(tokens).deep_view().push(token@),
{
    let ghost view = token@;
    tokens.push(token);
    assert(tokens.deep_view() =~= old(tokens).deep_view().push(view));
}

/// Moves every token of `more` to the end of `tokens`.
pub(crate) fn emit_all(tokens: &mut Vec<Token>, more: &mut Vec<Token>)
    ensures
        final(tokens).deep_view() == old(tokens).deep_view() + old(more).deep_view(),
        final(more)@.len() == 0,
{
    tokens.append(more);
    assert(tokens.deep_view() =~= old(tokens).deep_view() + old(more).deep_view());
}

} // verus!
