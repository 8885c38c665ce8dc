use tokenizer_py::{tokenize, try_tokenize, ErrorKind, Token, TokenizeError};

fn name(text: &str) -> Token {
    Token::Name(text.to_owned())
}

fn op(text: &str) -> Token {
    Token::OP(text.to_owned())
}

fn number(text: &str) -> Token {
    Token::Number(text.to_owned())
}

#[test]
fn empty_text_is_one_blank_line() {
    assert_eq!(tokenize(""), Ok(vec![Token::NL, Token::EndMarker]));
    assert_eq!(tokenize("\n"), Ok(vec![Token::NL, Token::EndMarker]));
}

#[test]
fn blank_lines_are_no_logical_lines() {
    assert_eq!(
        tokenize("a\n\n\nb\n"),
        Ok(vec![
            name("a"),
            Token::NewLine,
            Token::NL,
            Token::NL,
            name("b"),
            Token::NewLine,
            Token::EndMarker
        ])
    );
}

#[test]
fn line_feeds_inside_brackets_end_no_line() {
    assert_eq!(
        tokenize("f(a,\n  b)\nc"),
        Ok(vec![
            name("f"),
            op("("),
            name("a"),
            op(","),
            Token::NL,
            name("b"),
            op(")"),
            Token::NewLine,
            name("c"),
            Token::NewLine,
            Token::EndMarker
        ])
    );
}

#[test]
fn a_closing_bracket_closes_only_its_partner() {
    assert_eq!(
        tokenize("(]\nx"),
        Ok(vec![op("("), op("]"), Token::NL, name("x"), Token::NL, Token::EndMarker])
    );
    assert_eq!(
        tokenize(")\nx"),
        Ok(vec![op(")"), Token::NewLine, name("x"), Token::NewLine, Token::EndMarker])
    );
}

#[test]
fn several_blocks_close_at_once() {
    assert_eq!(
        tokenize("a\n b\n  c\nd"),
        Ok(vec![
            name("a"),
            Token::NewLine,
            Token::Indent(" ".to_owned()),
            name("b"),
            Token::NewLine,
            Token::Indent("  ".to_owned()),
            name("c"),
            Token::NewLine,
            Token::Dedent,
            Token::Dedent,
            name("d"),
            Token::NewLine,
            Token::EndMarker
        ])
    );
}

#[test]
fn tabs_indent_as_they_stand() {
    assert_eq!(
        tokenize("a\n\t b"),
        Ok(vec![
            name("a"),
            Token::NewLine,
            Token::Indent("\t ".to_owned()),
            name("b"),
            Token::NewLine,
            Token::Dedent,
            Token::EndMarker
        ])
    );
}

#[test]
fn a_partial_dedent_opens_no_block() {
    assert_eq!(
        tokenize("a\n    b\n  c"),
        Ok(vec![
            name("a"),
            Token::NewLine,
            Token::Indent("    ".to_owned()),
            name("b"),
            Token::NewLine,
            Token::Dedent,
            name("c"),
            Token::NewLine,
            Token::EndMarker
        ])
    );
}

#[test]
fn comments_lose_their_marker() {
    assert_eq!(
        tokenize("x # note\n#\ny"),
        Ok(vec![
            name("x"),
            Token::Comment(" note".to_owned()),
            Token::NewLine,
            Token::Comment("".to_owned()),
            Token::NewLine,
            name("y"),
            Token::NewLine,
            Token::EndMarker
        ])
    );
}

#[test]
fn keywords_are_names() {
    assert_eq!(
        tokenize("if x: return"),
        Ok(vec![
            name("if"),
            name("x"),
            op(":"),
            name("return"),
            Token::NewLine,
            Token::EndMarker
        ])
    );
}

#[test]
fn prefix_letters_start_names_too() {
    assert_eq!(
        tokenize("r f b u rb for"),
        Ok(vec![
            name("r"),
            name("f"),
            name("b"),
            name("u"),
            name("rb"),
            name("for"),
            Token::NewLine,
            Token::EndMarker
        ])
    );
}

#[test]
fn upper_case_prefix_is_part_of_a_name() {
    assert_eq!(
        tokenize("R'a'"),
        Ok(vec![name("R'a'"), Token::NewLine, Token::EndMarker])
    );
}

#[test]
fn letters_of_other_scripts_start_names() {
    assert_eq!(
        tokenize("\u{e9}t\u{e9} = 1"),
        Ok(vec![name("\u{e9}t\u{e9}"), op("="), number("1"), Token::NewLine, Token::EndMarker])
    );
}

#[test]
fn other_characters_are_passed_over() {
    assert_eq!(
        tokenize("\u{20ac} \\ a"),
        Ok(vec![name("a"), Token::NewLine, Token::EndMarker])
    );
}

#[test]
fn an_exponent_without_sign_starts_a_name() {
    assert_eq!(
        tokenize("1e5"),
        Ok(vec![number("1"), name("e5"), Token::NewLine, Token::EndMarker])
    );
}

#[test]
fn operators_in_context() {
    assert_eq!(
        tokenize("a**=b->c<>d//e!=f"),
        Ok(vec![
            name("a"),
            op("**="),
            name("b"),
            op("->"),
            name("c"),
            op("<>"),
            name("d"),
            op("//"),
            name("e"),
            op("!="),
            name("f"),
            Token::NewLine,
            Token::EndMarker
        ])
    );
}

#[test]
fn nested_formatted_strings() {
    assert_eq!(
        tokenize("f'a{f\"{x}\"}b'"),
        Err(TokenizeError::String("Unterminated f-string literal".to_owned(), (3, 11)))
    );
    assert_eq!(
        tokenize("f'{f\"b\"}'"),
        Ok(vec![
            Token::FStringStart("f'".to_owned()),
            op("{"),
            Token::FStringStart("f\"".to_owned()),
            Token::FStringMiddle("b".to_owned()),
            Token::FStringEnd("\"".to_owned()),
            op("}"),
            Token::FStringEnd("'".to_owned()),
            Token::NewLine,
            Token::EndMarker
        ])
    );
}

#[test]
fn errors_carry_their_position() {
    assert_eq!(
        tokenize("a = 1\nb = 2_\n"),
        Err(TokenizeError::Number("Invalid decimal literal".to_owned(), (2, 7)))
    );
    assert_eq!(
        tokenize("x = '''abc\ndef"),
        Err(TokenizeError::EndOfFile("Unexpected EndOfFile".to_owned(), (3, 1)))
    );
    assert_eq!(
        tokenize("x = 'a\\qb'"),
        Err(TokenizeError::EscapeSeq("Unexpected escape sequence: \"\\\\q\"".to_owned(), (1, 9)))
    );
    assert_eq!(
        tokenize("f'{1_}'"),
        Err(TokenizeError::Number("Invalid decimal literal".to_owned(), (2, 11)))
    );
}

#[test]
fn scanning_twice_gives_the_same() {
    let text = "def f(x):\n    return f'{x!r}' # done\n";
    assert_eq!(tokenize(text), tokenize(text));
    let broken = "x = 'abc";
    assert_eq!(tokenize(broken), tokenize(broken));
    assert!(tokenize(broken).is_err());
}

fn count(tokens: &[Token], wanted: &Token) -> usize {
    tokens.iter().filter(|token| *token == wanted).count()
}

#[test]
fn every_indent_has_its_dedent() {
    let tokens = tokenize("a\n b\n  c\n   d\n e\n    f\ng\n  h").unwrap();
    let indents = tokens.iter().filter(|token| matches!(token, Token::Indent(_))).count();
    assert_eq!(indents, 5);
    assert_eq!(count(&tokens, &Token::Dedent), 5);
}

#[test]
fn every_logical_line_has_its_new_line() {
    let tokens = tokenize("a\n\n b # c\n'''x\ny'''\nz = 1\n").unwrap();
    assert_eq!(count(&tokens, &Token::NewLine), 4);
    assert_eq!(count(&tokens, &Token::NL), 1);
}

#[test]
fn names_numbers_strings_and_comments_read_as_written() {
    let text = "alpha = 12_3.5e+7j # rest \n'one' r'two\\n'";
    assert_eq!(
        tokenize(text),
        Ok(vec![
            name(&text[0..5]),
            op("="),
            number(&text[8..18]),
            Token::Comment(text[20..26].to_owned()),
            Token::NewLine,
            Token::String(text[27..32].to_owned()),
            Token::String(text[33..41].to_owned()),
            Token::NewLine,
            Token::EndMarker
        ])
    );
}

#[test]
fn errors_render_for_a_reader() {
    assert_eq!(
        tokenize("1_.1").unwrap_err().render(),
        "Number Error: Invalid decimal literal at pos 1:3"
    );
    assert_eq!(
        TokenizeError::EscapeSeq("a".to_owned(), (0, 10)).render(),
        "Escape Sequence Error: a at pos 0:10"
    );
    assert_eq!(
        TokenizeError::String("b".to_owned(), (12, 345)).render(),
        "String Error: b at pos 12:345"
    );
    assert_eq!(
        TokenizeError::Operator("c".to_owned(), (7, 8)).render(),
        "Operator Error: c at pos 7:8"
    );
    assert_eq!(
        TokenizeError::Char("d".to_owned(), (9, 1)).render(),
        "Character Error: d at pos 9:1"
    );
    assert_eq!(
        TokenizeError::Indent("".to_owned(), (100, 2000)).render(),
        "Indentation Error:  at pos 100:2000"
    );
    assert_eq!(
        TokenizeError::EndOfFile("e".to_owned(), (usize::MAX, 1)).render(),
        format!("End of File Error: e at pos {}:1", usize::MAX)
    );
}

#[test]
fn errors_give_their_parts() {
    let error = TokenizeError::of_kind(ErrorKind::Char, "odd".to_owned(), (3, 4));
    assert_eq!(error, TokenizeError::Char("odd".to_owned(), (3, 4)));
    assert_eq!(error.kind(), ErrorKind::Char);
    assert_eq!(error.position(), (3, 4));
    assert_eq!(error.message(), "odd");
    assert_eq!(error.shifted((1, 2)), TokenizeError::Char("odd".to_owned(), (4, 6)));
}

#[test]
fn short_texts_are_scanned() {
    assert_eq!(try_tokenize("a = 1"), Some(tokenize("a = 1")));
    assert_eq!(
        try_tokenize("1_"),
        Some(Err(TokenizeError::Number("Invalid decimal literal".to_owned(), (1, 3))))
    );
    assert_eq!(try_tokenize(""), Some(Ok(vec![Token::NL, Token::EndMarker])));
}

#[test]
fn long_texts_are_scanned_line_by_line() {
    let line = "value = compute(first, second) # note\n";
    let text = line.repeat(5_000);
    let tokens = tokenize(&text).unwrap();
    assert_eq!(tokens.len(), 5_000 * 10 + 1);
    assert_eq!(count(&tokens, &Token::NewLine), 5_000);
    assert_eq!(tokens.last(), Some(&Token::EndMarker));
}

#[test]
fn deep_nesting_adds_up_positions() {
    let mut text = String::new();
    for _ in 0..50 {
        text.push_str("f'{");
    }
    text.push_str("1_}");
    match tokenize(&text) {
        Err(TokenizeError::Number(message, (line, column))) => {
            assert_eq!(message, "Invalid decimal literal");
            assert_eq!(line, 51);
            assert_eq!(column, 4 + 154 + (0..49).map(|level| 152 - 3 * level).sum::<usize>());
        }
        other => panic!("{:?}", other),
    }
}
