use tokenizer_py::{tokenize, Token, TokenizeError, OPERATORS};

fn name(text: &str) -> Token {
    Token::Name(text.to_owned())
}

fn op(text: &str) -> Token {
    Token::OP(text.to_owned())
}

fn number(text: &str) -> Token {
    Token::Number(text.to_owned())
}

fn string(text: &str) -> Token {
    Token::String(text.to_owned())
}

#[test]
fn test_tokenize_1_level_of_indent() {
    let actual_tokens = tokenize("for i in range(10):\n    print(i)\n").unwrap();
    let expected_tokens = vec![
        name("for"),
        name("i"),
        name("in"),
        name("range"),
        op("("),
        number("10"),
        op(")"),
        op(":"),
        Token::NewLine,
        Token::Indent("    ".to_owned()),
        name("print"),
        op("("),
        name("i"),
        op(")"),
        Token::NewLine,
        Token::Dedent,
        Token::EndMarker,
    ];
    assert_eq!(actual_tokens, expected_tokens);
}

#[test]
fn test_tokenize_different_indent_levels() {
    let actual_tokens = tokenize("level_1\n  level_2\n    level_3").unwrap();
    let expected_tokens = vec![
        name("level_1"),
        Token::NewLine,
        Token::Indent("  ".to_owned()),
        name("level_2"),
        Token::NewLine,
        Token::Indent("    ".to_owned()),
        name("level_3"),
        Token::NewLine,
        Token::Dedent,
        Token::Dedent,
        Token::EndMarker,
    ];
    assert_eq!(actual_tokens, expected_tokens);
}

#[test]
fn test_tokenize_different_strings() {
    let actual_tokens =
        tokenize("'base 1'\"base 2\"r'raw \\n 1'r\"raw \\n 2\"b'byte 1'b\"byte 2\" r'''\nmulti\nline\n1''' b\"\"\"\nmulti\nline\n2\"\"\" f'''format\nmulti\nline\n{string}'''").unwrap();
    let expected_tokens = vec![
        string("'base 1'"),
        string("\"base 2\""),
        string("r'raw \\n 1'"),
        string("r\"raw \\n 2\""),
        string("b'byte 1'"),
        string("b\"byte 2\""),
        string("r'''\nmulti\nline\n1'''"),
        string("b\"\"\"\nmulti\nline\n2\"\"\""),
        Token::FStringStart("f'''".to_owned()),
        Token::FStringMiddle("format\nmulti\nline\n".to_owned()),
        op("{"),
        name("string"),
        op("}"),
        Token::FStringEnd("'''".to_owned()),
        Token::NewLine,
        Token::EndMarker,
    ];
    assert_eq!(actual_tokens, expected_tokens);
}

#[test]
fn test_tokenize_numbers() {
    let actual_tokens = tokenize("1234567890 1.234 0.67890 1j 0.2e-9j 4_3e-5 .532").unwrap();
    let expected_tokens = vec![
        number("1234567890"),
        number("1.234"),
        number("0.67890"),
        number("1j"),
        number("0.2e-9j"),
        number("4_3e-5"),
        number(".532"),
        Token::NewLine,
        Token::EndMarker,
    ];
    assert_eq!(actual_tokens, expected_tokens);
}

#[test]
fn test_tokenize_fstring() {
    let actual_tokens = tokenize("f\"midle {2 + 2 = ?}\"").unwrap();
    let expected_tokens = vec![
        Token::FStringStart("f\"".to_owned()),
        Token::FStringMiddle("midle ".to_owned()),
        op("{"),
        number("2"),
        op("+"),
        number("2"),
        op("="),
        op("?"),
        op("}"),
        Token::FStringEnd("\"".to_owned()),
        Token::NewLine,
        Token::EndMarker,
    ];
    assert_eq!(actual_tokens, expected_tokens);
}

#[test]
fn test_tokenize_operators() {
    let actual_tokens = tokenize(OPERATORS).unwrap();
    let expected_tokens = vec![
        op("="),
        op("+"),
        op("-"),
        op("*"),
        op("/"),
        op("%"),
        op("&"),
        op("|"),
        op("<>"),
        op("!"),
        op("^"),
        op(":"),
        op(";"),
        op("."),
        op(","),
        op("("),
        op(")"),
        op("["),
        op("]"),
        op("{"),
        op("}"),
        op("@"),
        op("$"),
        op("?"),
        op("~"),
        op("`"),
        Token::NewLine,
        Token::EndMarker,
    ];
    assert_eq!(actual_tokens, expected_tokens);
}

#[test]
fn test_tokenize_() {
    let actual = tokenize(
        "
TokenizeError::EscapeSeq(msg, (iter_num, char_num)) => {
TokenizeError::EscapeSeq(
        msg,
        (iter_num + pos.0, char_num + pos.1),
    )
}
",
    )
    .unwrap();
    let expected = vec![
        Token::NL,
        name("TokenizeError"),
        op(":"),
        op(":"),
        name("EscapeSeq"),
        op("("),
        name("msg"),
        op(","),
        op("("),
        name("iter_num"),
        op(","),
        name("char_num"),
        op(")"),
        op(")"),
        op("="),
        op(">"),
        op("{"),
        Token::NL,
        name("TokenizeError"),
        op(":"),
        op(":"),
        name("EscapeSeq"),
        op("("),
        Token::NL,
        name("msg"),
        op(","),
        Token::NL,
        op("("),
        name("iter_num"),
        op("+"),
        name("pos"),
        number(".0"),
        op(","),
        name("char_num"),
        op("+"),
        name("pos"),
        number(".1"),
        op(")"),
        op(","),
        Token::NL,
        op(")"),
        Token::NL,
        op("}"),
        Token::NewLine,
        Token::EndMarker,
    ];
    assert_eq!(actual, expected);
}

#[test]
fn invalid_underscore_is_a_number_error() {
    assert_eq!(
        Err(TokenizeError::Number("Invalid decimal literal".to_owned(), (1, 3))),
        tokenize("1_.1")
    );
}

#[test]
fn unterminated_string_is_a_string_error() {
    assert_eq!(
        Err(TokenizeError::String("Not cloused string".to_owned(), (1, 5))),
        tokenize("'abc")
    );
}

#[test]
fn hello_world() {
    let tokens = tokenize("hello\nworld").unwrap();
    assert_eq!(
        tokens,
        vec![name("hello"), Token::NewLine, name("world"), Token::NewLine, Token::EndMarker]
    );
}

#[test]
fn a_block_without_its_last_line_feed() {
    assert_eq!(
        tokenize("for i in range(10):\n    print(i)"),
        Ok(vec![
            name("for"),
            name("i"),
            name("in"),
            name("range"),
            op("("),
            number("10"),
            op(")"),
            op(":"),
            Token::NewLine,
            Token::Indent("    ".to_owned()),
            name("print"),
            op("("),
            name("i"),
            op(")"),
            Token::NewLine,
            Token::Dedent,
            Token::EndMarker,
        ])
    );
}
