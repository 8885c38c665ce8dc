//! Blocks: every `Indent` has its `Dedent`.

use crate::chars::{
    is_alphabetic_char, is_digit_char, is_operator_char, is_prefix_char, is_quote_char,
};
use crate::collectors::comment::comment_body;
use crate::collectors::fstring::{
    closing_part, embedded, expression_part, fstring_body, fstring_scan,
    lemma_fstring_scan_unfolds, literal_part,
};
use crate::collectors::number::number_scan;
use crate::collectors::operator::operator_scan;
use crate::collectors::run::{lemma_run_end, run_end, Run};
use crate::collectors::scan::{char_at, Emission, Scan};
use crate::collectors::string::{opens_multi_line, quotes, string_scan};
use crate::cursor::at_line_start;
use crate::lexer::{
    closed_blocks, closing, dedents, lemma_lex_unfolds, lemma_step_advances, lex, lex_from,
    line_break_step, normalized, step, Nesting,
};
use crate::laws::count::{
    dedent_count, indent_count, lemma_counts_add, lemma_counts_dedents, lemma_counts_single,
    surplus,
};
use crate::token::TokenView;
use vstd::prelude::*;

verus! {

/// What an embedded expression loses on its way into the tokens around it
/// is neither an `Indent` nor a `Dedent`.
pub proof fn lemma_counts_embedded(tokens: Seq<TokenView>)
    ensures
        indent_count(embedded(tokens)) == indent_count(tokens),
        dedent_count(embedded(tokens)) == dedent_count(tokens),
{
    let body = if tokens.len() > 0 && tokens.last() is EndMarker {
        tokens.drop_last()
    } else {
        tokens
    };
    assert(indent_count(body) == indent_count(tokens));
    assert(dedent_count(body) == dedent_count(tokens));
    if body.len() > 0 && body.last().is_line_break() {
        assert(indent_count(body.drop_last()) == indent_count(body));
        assert(dedent_count(body.drop_last()) == dedent_count(body));
    }
}

/// Of well-formed indentations, those deeper than nothing are all but the
/// outermost.
pub proof fn lemma_closed_blocks_all(indents: Seq<Seq<char>>)
    requires
        (Nesting { indents, brackets: Seq::empty() }).wf(),
    ensures
        closed_blocks(indents, 0) == indents.len() - 1,
    decreases indents.len(),
{
    if indents.len() > 1 {
        let rest = indents.drop_last();
        assert(indents[indents.len() - 2].len() < indents[indents.len() - 1].len());
        assert forall|k: int| 0 < k < rest.len() implies rest[k - 1].len() < (
        #[trigger] rest[k]).len() by {
            assert(indents[k - 1].len() < indents[k].len());
        }
        lemma_closed_blocks_all(rest);
    }
}

/// Closing blocks never closes the outermost, and leaves well-formed what it
/// leaves.
pub proof fn lemma_closed_blocks_keep(indents: Seq<Seq<char>>, width: nat)
    requires
        (Nesting { indents, brackets: Seq::empty() }).wf(),
    ensures
        closed_blocks(indents, width) <= indents.len() - 1,
        (Nesting {
            indents: indents.take(indents.len() - closed_blocks(indents, width)),
            brackets: Seq::empty(),
        }).wf(),
    decreases indents.len(),
{
    if indents.len() > 0 && width < indents.last().len() {
        let rest = indents.drop_last();
        assert forall|k: int| 0 < k < rest.len() implies rest[k - 1].len() < (
        #[trigger] rest[k]).len() by {
            assert(indents[k - 1].len() < indents[k].len());
        }
        lemma_closed_blocks_keep(rest, width);
        assert(rest.take(rest.len() - closed_blocks(rest, width)) =~= indents.take(
            indents.len() - closed_blocks(indents, width),
        ));
    } else {
        assert(indents.take(indents.len() - 0) =~= indents);
    }
}

/// A line break opens and closes blocks as its tokens say, and leaves the
/// indentations well formed.
pub proof fn lemma_line_break_surplus(text: Seq<char>, at: int, nesting: Nesting)
    requires
        nesting.wf(),
        0 <= at < text.len(),
    ensures
        line_break_step(text, at, nesting).nesting.wf(),
        surplus(line_break_step(text, at, nesting).tokens) == line_break_step(
            text,
            at,
            nesting,
        ).nesting.indents.len() - nesting.indents.len(),
{
    if at_line_start(text, at) || nesting.brackets.len() > 0 {
        lemma_counts_single(TokenView::NL);
    } else {
        let end = run_end(text, at + 1, Run::Indent);
        lemma_run_end(text, at + 1, Run::Indent);
        let indent = text.subrange(at + 1, end);
        let deeper = indent.len() > nesting.indents.last().len();
        let opened = if deeper {
            nesting.indents.push(indent)
        } else {
            nesting.indents
        };
        assert forall|k: int| 0 < k < opened.len() implies opened[k - 1].len() < (
        #[trigger] opened[k]).len() by {
            if k < nesting.indents.len() {
                assert(nesting.indents[k - 1].len() < nesting.indents[k].len());
            }
        }
        lemma_closed_blocks_keep(opened, indent.len());
        let closed = closed_blocks(opened, indent.len());
        let opening = if deeper {
            seq![TokenView::Indent(indent)]
        } else {
            Seq::<TokenView>::empty()
        };
        lemma_counts_single(TokenView::NewLine);
        lemma_counts_single(TokenView::Indent(indent));
        lemma_counts_dedents(closed);
        lemma_counts_add(seq![TokenView::NewLine], opening);
        lemma_counts_add(seq![TokenView::NewLine] + opening, dedents(closed));
    }
}

/// The token of a scan is no `Indent` and no `Dedent` unless it is one.
proof fn lemma_token_surplus(scan: Scan, token: TokenView, text: Seq<char>)
    requires
        !(token is Indent),
        !(token is Dedent),
    ensures
        surplus(Emission::token(scan, token, text).tokens) == 0,
{
    lemma_counts_single(token);
}

/// The tokens of an embedded expression hold as many `Indent` tokens as
/// `Dedent` tokens.
proof fn lemma_expression_surplus(text: Seq<char>, at: int)
    ensures
        surplus(expression_part(text, at).tokens) == 0,
    decreases text.len() - at + 1, 6nat,
{
    let close = run_end(text, at + 1, Run::Expression);
    let none = Seq::<TokenView>::empty();
    assert(surplus(none) == 0);
    if 0 <= at < close < text.len() {
        let inner = lex(text.subrange(at, close + 1));
        if inner.failure is None {
            lemma_lex_surplus(text.subrange(at, close + 1));
            lemma_counts_embedded(inner.tokens);
            assert(surplus(embedded(inner.tokens)) == 0);
            assert(expression_part(text, at).tokens == embedded(inner.tokens));
        } else {
            assert(expression_part(text, at).tokens == none);
        }
    } else {
        assert(expression_part(text, at).tokens == none);
    }
}

/// The tokens of the body of a formatted string hold as many `Indent` tokens
/// as `Dedent` tokens if those read before do.
proof fn lemma_fstring_body_surplus(
    text: Seq<char>,
    at: int,
    emitted: Seq<TokenView>,
    quote: char,
    multi_line: bool,
)
    requires
        surplus(emitted) == 0,
    ensures
        surplus(fstring_body(text, at, emitted, quote, multi_line).tokens) == 0,
    decreases text.len() - at + 1, 7nat,
{
    let none = Seq::<TokenView>::empty();
    if at < 0 || at >= text.len() {
        lemma_counts_add(emitted, none);
    } else if text[at] == quote {
        let part = closing_part(text, at, quote, multi_line);
        lemma_counts_single(TokenView::FStringEnd(quotes(quote, false)));
        lemma_counts_single(TokenView::FStringEnd(quotes(quote, true)));
        lemma_counts_add(emitted, part.tokens);
    } else {
        let part = if text[at] == '{' {
            expression_part(text, at)
        } else {
            literal_part(text, at, quote, multi_line)
        };
        if text[at] == '{' {
            lemma_expression_surplus(text, at);
        } else {
            let end = run_end(text, at, Run::Literal { quote, multi_line });
            lemma_counts_single(TokenView::FStringMiddle(text.subrange(at, end)));
        }
        lemma_counts_add(emitted, part.tokens);
        if !(part.failure is Some || !(at < part.end <= text.len())) {
            lemma_fstring_body_surplus(text, part.end, emitted + part.tokens, quote, multi_line);
        }
    }
}

/// The tokens of a formatted string hold as many `Indent` tokens as `Dedent`
/// tokens.
proof fn lemma_fstring_scan_surplus(text: Seq<char>, from: int, prefix: char)
    ensures
        surplus(fstring_scan(text, from, prefix).tokens) == 0,
    decreases text.len() - from, 8nat,
{
    lemma_fstring_scan_unfolds(text, from, prefix);
    if !(from < 0 || from >= text.len()) {
        let quote = text[from];
        let multi_line = opens_multi_line(text, from);
        let start = TokenView::FStringStart(seq![prefix] + quotes(quote, multi_line));
        lemma_counts_single(start);
        lemma_fstring_body_surplus(
            text,
            from + quotes(quote, multi_line).len(),
            seq![start],
            quote,
            multi_line,
        );
    }
}

/// A step opens and closes blocks as its tokens say, and leaves the
/// indentations well formed.
proof fn lemma_step_surplus(text: Seq<char>, at: int, nesting: Nesting)
    requires
        nesting.wf(),
        0 <= at < text.len(),
    ensures
        step(text, at, nesting).nesting.wf(),
        surplus(step(text, at, nesting).tokens) == step(text, at, nesting).nesting.indents.len()
            - nesting.indents.len(),
    decreases text.len() - at, 2nat,
{
    let c = text[at];
    let none = Seq::<TokenView>::empty();
    assert(surplus(none) == 0);
    if is_prefix_char(c) {
        if char_at(text, at + 1) is Some && is_quote_char(
            text[at + 1],
        ) {
            if c == 'f' {
                lemma_fstring_scan_surplus(text, at + 1, c);
            } else {
                let scan = string_scan(text, at + 1, Some(c));
                lemma_token_surplus(scan, TokenView::String(scan.text), text);
            }
        } else {
            let end = run_end(text, at + 1, Run::Name);
            lemma_counts_single(TokenView::Name(text.subrange(at, end)));
        }
    } else if is_quote_char(c) {
        let scan = string_scan(text, at, None);
        lemma_token_surplus(scan, TokenView::String(scan.text), text);
    } else if is_digit_char(c) {
        let scan = number_scan(text, at, None);
        lemma_token_surplus(scan, TokenView::Number(scan.text), text);
    } else if c == '\n' {
        lemma_line_break_surplus(text, at, nesting);
    } else if c == '#' {
        let end = run_end(text, at, Run::Comment);
        lemma_counts_single(
            TokenView::Comment(comment_body(text, at, end)),
        );
    } else if is_operator_char(c) {
        let dotted = number_scan(text, at + 1, Some('.'));
        lemma_token_surplus(dotted, TokenView::Number(dotted.text), text);
        let scan = operator_scan(c, text, at + 1);
        lemma_token_surplus(scan, TokenView::OP(scan.text), text);
    } else if is_alphabetic_char(c) || c == '_' {
        let end = run_end(text, at + 1, Run::Name);
        lemma_counts_single(TokenView::Name(text.subrange(at, end)));
    } else {
    }
}

/// A scan that goes on with as many blocks open as the tokens read so far
/// say ends with as many `Indent` tokens as `Dedent` tokens.
proof fn lemma_lex_from_surplus(
    text: Seq<char>,
    at: int,
    nesting: Nesting,
    emitted: Seq<TokenView>,
)
    requires
        nesting.wf(),
        surplus(emitted) == nesting.indents.len() - 1,
    ensures
        lex_from(text, at, nesting, emitted).failure is None ==> surplus(
            lex_from(text, at, nesting, emitted).tokens,
        ) == 0,
    decreases text.len() - at, 3nat,
{
    if at < 0 || at >= text.len() {
        let count = closed_blocks(nesting.indents, 0);
        assert(nesting.indents.len() - 1 == count) by {
            assert((Nesting { indents: nesting.indents, brackets: Seq::empty() }).wf());
            lemma_closed_blocks_all(nesting.indents);
        }
        lemma_counts_dedents(count);
        lemma_counts_single(TokenView::EndMarker);
        assert(closing(nesting) =~= dedents(count) + seq![TokenView::EndMarker]);
        lemma_counts_add(dedents(count), seq![TokenView::EndMarker]);
        lemma_counts_add(emitted, closing(nesting));
    } else {
        let next = step(text, at, nesting);
        lemma_step_surplus(text, at, nesting);
        lemma_counts_add(emitted, next.tokens);
        if !(next.failure is Some || !(at < next.end <= text.len())) {
            lemma_lex_from_surplus(text, next.end, next.nesting, emitted + next.tokens);
        } else if next.failure is None {
            assert(false) by {
                lemma_step_advances(text, at, nesting);
            }
        }
    }
}

/// The tokens of a scan hold as many `Indent` tokens as `Dedent` tokens.
proof fn lemma_lex_surplus(text: Seq<char>)
    ensures
        lex(text).failure is None ==> surplus(lex(text).tokens) == 0,
    decreases text.len() + 1, 4nat,
{
    lemma_lex_unfolds(text);
    lemma_lex_from_surplus(normalized(text), 0, Nesting::start(), Seq::empty());
}

/// Blocks stay nested: after every step the outermost indentation is the
/// empty one, and every deeper one is longer than the one around it.
pub proof fn blocks_stay_nested(text: Seq<char>, at: int, nesting: Nesting)
    requires
        nesting.wf(),
        0 <= at < text.len(),
    ensures
        step(text, at, nesting).nesting.wf(),
{
    lemma_step_surplus(text, at, nesting);
}

/// Every block that a scan opens it also closes: where the scan does not
/// fail, its tokens hold as many `Indent` tokens as `Dedent` tokens.
pub proof fn indents_and_dedents_balance(text: Seq<char>)
    ensures
        lex(text).failure is None ==> indent_count(lex(text).tokens) == dedent_count(
            lex(text).tokens,
        ),
{
    lemma_lex_surplus(text);
}

} // verus!
