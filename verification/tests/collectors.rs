use tokenizer_py::collectors::{
    collect_comment, collect_fstring, collect_indent, collect_name, collect_number,
    collect_operator, collect_string,
};
use tokenizer_py::{PeekableCharTracker, Token, TokenizeError};

fn chars(text: &str) -> Vec<char> {
    text.chars().collect()
}

#[test]
fn indent_takes_spaces_and_tabs_verbatim() {
    let text = chars(" \t  x");
    let mut cursor = PeekableCharTracker::new(&text);
    assert_eq!(collect_indent(&mut cursor), " \t  ");
    assert_eq!(cursor.peek(), Some(&'x'));
    assert_eq!(cursor.pos(), (1, 5));
}

#[test]
fn indent_may_be_empty() {
    let text = chars("x");
    let mut cursor = PeekableCharTracker::new(&text);
    assert_eq!(collect_indent(&mut cursor), "");
    assert_eq!(cursor.pos(), (1, 1));
}

#[test]
fn name_stops_at_whitespace_and_operators() {
    let text = chars("abc+d");
    let mut cursor = PeekableCharTracker::new(&text);
    assert_eq!(collect_name(&mut cursor, None), "abc");
    assert_eq!(cursor.peek(), Some(&'+'));
    let text = chars("abc\u{a0}d");
    let mut cursor = PeekableCharTracker::new(&text);
    assert_eq!(collect_name(&mut cursor, None), "abc");
    assert_eq!(cursor.peek(), Some(&'\u{a0}'));
}

#[test]
fn name_starts_with_its_prefix() {
    let text = chars("ange(");
    let mut cursor = PeekableCharTracker::new(&text);
    assert_eq!(collect_name(&mut cursor, Some('r')), "range");
    assert_eq!(cursor.pos(), (1, 5));
}

#[test]
fn comment_leaves_out_its_marker_and_the_line_feed() {
    let text = chars("# note\nx");
    let mut cursor = PeekableCharTracker::new(&text);
    assert_eq!(collect_comment(&mut cursor), " note");
    assert_eq!(cursor.peek(), Some(&'\n'));
}

#[test]
fn comment_at_a_line_feed_is_empty() {
    let text = chars("\nx");
    let mut cursor = PeekableCharTracker::new(&text);
    assert_eq!(collect_comment(&mut cursor), "");
    assert_eq!(cursor.pos(), (1, 1));
}

fn number_of(text: &str, digit: Option<char>) -> (Result<String, TokenizeError>, Option<char>) {
    let text = chars(text);
    let mut cursor = PeekableCharTracker::new(&text);
    let result = collect_number(&mut cursor, digit);
    (result, cursor.peek().copied())
}

#[test]
fn number_forms() {
    assert_eq!(number_of("123 ", None), (Ok("123".to_owned()), Some(' ')));
    assert_eq!(number_of("1_000x", None), (Ok("1_000".to_owned()), Some('x')));
    assert_eq!(number_of("1.", None), (Ok("1.".to_owned()), None));
    assert_eq!(number_of("1.5.2", None), (Ok("1.5".to_owned()), Some('.')));
    assert_eq!(number_of("1e5", None), (Ok("1".to_owned()), Some('e')));
    assert_eq!(number_of("1e+5e-3", None), (Ok("1e+5".to_owned()), Some('e')));
    assert_eq!(number_of("2jj", None), (Ok("2j".to_owned()), Some('j')));
    assert_eq!(number_of("5.3", Some('.')), (Ok(".5".to_owned()), Some('.')));
    assert_eq!(number_of("", None), (Ok("".to_owned()), None));
}

#[test]
fn number_errors() {
    assert_eq!(
        number_of("1__2", None),
        (Err(TokenizeError::Number("Invalid decimal literal".to_owned(), (1, 3))), Some('_'))
    );
    assert_eq!(
        number_of("1_", None),
        (Err(TokenizeError::Number("Invalid decimal literal".to_owned(), (1, 3))), None)
    );
    assert_eq!(
        number_of("1e-x", None),
        (Err(TokenizeError::Number("Invalid decimal literal".to_owned(), (1, 4))), Some('x'))
    );
}

fn operator_of(first: char, rest: &str) -> (Result<String, TokenizeError>, Option<char>) {
    let text = chars(rest);
    let mut cursor = PeekableCharTracker::new(&text);
    let result = collect_operator(&mut cursor, first);
    (result, cursor.peek().copied())
}

#[test]
fn operator_takes_the_longest_form() {
    assert_eq!(operator_of('+', "=1"), (Ok("+=".to_owned()), Some('1')));
    assert_eq!(operator_of('=', "=="), (Ok("==".to_owned()), Some('=')));
    assert_eq!(operator_of('!', "="), (Ok("!=".to_owned()), None));
    assert_eq!(operator_of('-', ">x"), (Ok("->".to_owned()), Some('x')));
    assert_eq!(operator_of('<', ">x"), (Ok("<>".to_owned()), Some('x')));
    assert_eq!(operator_of('<', "=x"), (Ok("<=".to_owned()), Some('x')));
    assert_eq!(operator_of('*', "*x"), (Ok("**".to_owned()), Some('x')));
    assert_eq!(operator_of('*', "*=x"), (Ok("**=".to_owned()), Some('x')));
    assert_eq!(operator_of('/', "/=x"), (Ok("//=".to_owned()), Some('x')));
    assert_eq!(operator_of('<', "<=x"), (Ok("<<=".to_owned()), Some('x')));
    assert_eq!(operator_of('>', ">=x"), (Ok(">>=".to_owned()), Some('x')));
    assert_eq!(operator_of('>', ">"), (Ok(">>".to_owned()), None));
    assert_eq!(operator_of('+', "+"), (Ok("+".to_owned()), Some('+')));
    assert_eq!(operator_of('(', "="), (Ok("(".to_owned()), Some('=')));
    assert_eq!(operator_of('~', ""), (Ok("~".to_owned()), None));
}

#[test]
fn operator_refuses_other_characters() {
    assert_eq!(
        operator_of('a', "=b"),
        (Err(TokenizeError::Operator("Invalid operator: 'a'".to_owned(), (1, 1))), Some('='))
    );
    assert_eq!(
        operator_of('\n', ""),
        (Err(TokenizeError::Operator("Invalid operator: '\\n'".to_owned(), (1, 1))), None)
    );
}

fn string_of(text: &str, prefix: Option<char>) -> (Result<String, TokenizeError>, Option<char>) {
    let text = chars(text);
    let mut cursor = PeekableCharTracker::new(&text);
    let result = collect_string(&mut cursor, prefix);
    (result, cursor.peek().copied())
}

#[test]
fn string_keeps_quotes_and_prefix() {
    assert_eq!(string_of("'abc'x", None), (Ok("'abc'".to_owned()), Some('x')));
    assert_eq!(string_of("\"a'c\"", Some('b')), (Ok("b\"a'c\"".to_owned()), None));
    assert_eq!(string_of("''x", Some('u')), (Ok("u''".to_owned()), Some('x')));
    assert_eq!(string_of("'''a'b''c'''x", None), (Ok("'''a'b''c'''".to_owned()), Some('x')));
    assert_eq!(string_of("\"\"\"a\nb\"\"\"", None), (Ok("\"\"\"a\nb\"\"\"".to_owned()), None));
}

#[test]
fn string_resolves_escapes_unless_raw() {
    assert_eq!(
        string_of("'a\\n\\t\\\\\\'\\\"\\r\\b\\f\\v\\a'", None),
        (Ok("'a\n\t\\'\"\r\u{8}\u{c}\u{b}\u{7}'".to_owned()), None)
    );
    assert_eq!(string_of("'a\\\nb'", None), (Ok("'ab'".to_owned()), None));
    assert_eq!(string_of("'a\\nb'", Some('r')), (Ok("r'a\\nb'".to_owned()), None));
    assert_eq!(string_of("'a\\'b'", Some('r')), (Ok("r'a\\'".to_owned()), Some('b')));
}

#[test]
fn string_errors() {
    assert_eq!(
        string_of("'abc", None),
        (Err(TokenizeError::String("Not cloused string".to_owned(), (1, 5))), None)
    );
    assert_eq!(
        string_of("'ab\nc'", None),
        (Err(TokenizeError::String("Not cloused string".to_owned(), (1, 4))), Some('\n'))
    );
    assert_eq!(
        string_of("'''ab\nc''", None),
        (Err(TokenizeError::EndOfFile("Unexpected EndOfFile".to_owned(), (2, 4))), None)
    );
    assert_eq!(
        string_of("'a\\", None),
        (Err(TokenizeError::EndOfFile("Unexpected EndOfFile".to_owned(), (1, 4))), None)
    );
    assert_eq!(
        string_of("", None),
        (Err(TokenizeError::EndOfFile("Unexpected EndOfFile".to_owned(), (1, 1))), None)
    );
    assert_eq!(
        string_of("'a\\qb'", None),
        (
            Err(TokenizeError::EscapeSeq(
                "Unexpected escape sequence: \"\\\\q\"".to_owned(),
                (1, 5)
            )),
            Some('b')
        )
    );
    assert_eq!(
        string_of("'a'", Some('x')),
        (Err(TokenizeError::String("Invalid prefix".to_owned(), (1, 1))), Some('\''))
    );
}

fn fstring_of(text: &str) -> (Result<(), TokenizeError>, Vec<Token>, Option<char>) {
    let text = chars(text);
    let mut cursor = PeekableCharTracker::new(&text);
    let mut tokens = vec![Token::NL];
    let result = collect_fstring(&mut cursor, &mut tokens, 'f');
    (result, tokens, cursor.peek().copied())
}

fn start(text: &str) -> Token {
    Token::FStringStart(text.to_owned())
}

fn middle(text: &str) -> Token {
    Token::FStringMiddle(text.to_owned())
}

fn end(text: &str) -> Token {
    Token::FStringEnd(text.to_owned())
}

fn op(text: &str) -> Token {
    Token::OP(text.to_owned())
}

fn name(text: &str) -> Token {
    Token::Name(text.to_owned())
}

#[test]
fn fstring_alternates_runs_and_expressions() {
    assert_eq!(
        fstring_of("\"a{b}{c}d\"x"),
        (
            Ok(()),
            vec![
                Token::NL,
                start("f\""),
                middle("a"),
                op("{"),
                name("b"),
                op("}"),
                op("{"),
                name("c"),
                op("}"),
                middle("d"),
                end("\""),
            ],
            Some('x')
        )
    );
    assert_eq!(fstring_of("''"), (Ok(()), vec![Token::NL, start("f'"), end("'")], None));
    assert_eq!(
        fstring_of("'''a\n\"b'''"),
        (Ok(()), vec![Token::NL, start("f'''"), middle("a\n\"b"), end("'''")], None)
    );
}

#[test]
fn fstring_expression_with_open_bracket_loses_its_line_break() {
    assert_eq!(
        fstring_of("'{(}'"),
        (Ok(()), vec![Token::NL, start("f'"), op("{"), op("("), op("}"), end("'")], None)
    );
}

#[test]
fn fstring_errors() {
    assert_eq!(
        fstring_of("'ab"),
        (
            Err(TokenizeError::String("Unterminated f-string literal".to_owned(), (1, 4))),
            vec![Token::NL, start("f'"), middle("ab")],
            None
        )
    );
    assert_eq!(
        fstring_of("'ab\nc'"),
        (
            Err(TokenizeError::String("Unterminated f-string literal".to_owned(), (2, 1))),
            vec![Token::NL, start("f'")],
            Some('c')
        )
    );
    assert_eq!(
        fstring_of("'''ab'c'''"),
        (
            Err(TokenizeError::String(
                "Unterminated triple-quoted f-string literal".to_owned(),
                (1, 9)
            )),
            vec![Token::NL, start("f'''"), middle("ab")],
            Some('\'')
        )
    );
    assert_eq!(
        fstring_of("'''ab"),
        (
            Err(TokenizeError::String(
                "Unterminated triple-quoted f-string literal".to_owned(),
                (1, 6)
            )),
            vec![Token::NL, start("f'''"), middle("ab")],
            None
        )
    );
    assert_eq!(
        fstring_of("'a{b"),
        (
            Err(TokenizeError::EndOfFile("Unexpected EndOfFile".to_owned(), (1, 5))),
            vec![Token::NL, start("f'"), middle("a")],
            None
        )
    );
    assert_eq!(
        fstring_of(""),
        (
            Err(TokenizeError::EndOfFile("Unexpected EndOfFile".to_owned(), (1, 1))),
            vec![Token::NL],
            None
        )
    );
}

#[test]
fn fstring_on_one_line_ends_at_any_line_feed() {
    assert_eq!(
        fstring_of("'{a}\nb'"),
        (
            Err(TokenizeError::String("Unterminated f-string literal".to_owned(), (2, 1))),
            vec![Token::NL, start("f'"), op("{"), name("a"), op("}")],
            Some('b')
        )
    );
}

#[test]
fn fstring_moves_the_error_of_an_expression() {
    assert_eq!(
        fstring_of("'ab{1_}'"),
        (
            Err(TokenizeError::Number("Invalid decimal literal".to_owned(), (2, 12))),
            vec![Token::NL, start("f'"), middle("ab")],
            Some('\'')
        )
    );
}
