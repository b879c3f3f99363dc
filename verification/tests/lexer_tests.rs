use cool_lexer::lexer::{Lexer, LexerError, Pos, TokenType};

/// Pulls the token stream to its end, keeping errors, stopping at end of
/// input. The pull count is capped so a scanner that stopped making
/// progress would fail the test instead of hanging it.
fn lex_all(input: &str) -> Vec<Result<TokenType, LexerError>> {
    let mut lexer = Lexer::new(input);
    let mut out = Vec::new();
    let mut pulls = 0;
    while let Some(item) = lexer.next() {
        out.push(item.map(|t| t.token_type));
        pulls += 1;
        assert!(pulls <= 1000, "lexer stopped making progress");
    }
    out
}

#[test]
fn empty_input_is_eof() {
    let mut lexer = Lexer::new("");
    let tok = lexer.next_token().unwrap();
    assert_eq!(tok.token_type, TokenType::Eof);
    assert_eq!(tok.span.start, tok.span.end);
}

#[test]
fn whitespace_only_is_eof_on_first_call() {
    for input in ["   ", "\t\r\n", " \n \t ", "\u{a0}\u{2003}"] {
        let mut lexer = Lexer::new(input);
        let tok = lexer.next_token().unwrap();
        assert_eq!(tok.token_type, TokenType::Eof, "input {:?}", input);
    }
}

#[test]
fn int_literal_exact_value_and_span() {
    let mut lexer = Lexer::new("12345");
    let tok = lexer.next_token().unwrap();
    assert_eq!(tok.token_type, TokenType::IntLiteral(12345));
    assert_eq!(tok.span.start.offset, 0);
    assert_eq!(tok.span.end.offset, 5);
    assert_eq!(tok.span.start.line, 1);
    assert_eq!(tok.span.start.col, 0);
    assert_eq!(tok.span.end.col, 5);
}

#[test]
fn int_literal_zero_and_max() {
    let mut lexer = Lexer::new("0");
    assert_eq!(lexer.next_token().unwrap().token_type, TokenType::IntLiteral(0));
    let mut lexer = Lexer::new("9223372036854775807");
    assert_eq!(
        lexer.next_token().unwrap().token_type,
        TokenType::IntLiteral(9223372036854775807)
    );
}

#[test]
fn int_overflow_is_invalid_char_zero() {
    let mut lexer = Lexer::new("9223372036854775808");
    assert_eq!(lexer.next_token(), Err(LexerError::InvalidChar('0')));
    // the whole digit run was consumed
    assert_eq!(lexer.next_token().unwrap().token_type, TokenType::Eof);
}

#[test]
fn string_literal_payload_is_verbatim() {
    let mut lexer = Lexer::new("\"hello, world!\"");
    let tok = lexer.next_token().unwrap();
    assert_eq!(
        tok.token_type,
        TokenType::StringLiteral(String::from("hello, world!"))
    );
    assert_eq!(tok.span.start.offset, 0);
    assert_eq!(tok.span.end.offset, 15);
}

#[test]
fn string_backslash_is_ordinary_content() {
    // no escape processing: the two characters backslash and n stay as they are
    let mut lexer = Lexer::new("\"a\\nb\"");
    let tok = lexer.next_token().unwrap();
    assert_eq!(tok.token_type, TokenType::StringLiteral(String::from("a\\nb")));
}

#[test]
fn string_with_newline_is_unterminated() {
    let mut lexer = Lexer::new("\"ab\ncd\"");
    assert_eq!(lexer.next_token(), Err(LexerError::StringUnterminated));
}

#[test]
fn string_with_null_is_rejected() {
    let mut lexer = Lexer::new("\"a\0b\"");
    assert_eq!(lexer.next_token(), Err(LexerError::StringContainsNull));
}

#[test]
fn string_hitting_eof_is_rejected() {
    let mut lexer = Lexer::new("\"abc");
    assert_eq!(lexer.next_token(), Err(LexerError::StringContainsEof));
}

#[test]
fn keyword_casing_is_exact() {
    let mut lexer = Lexer::new("Class");
    assert_eq!(
        lexer.next_token().unwrap().token_type,
        TokenType::ClassName(String::from("Class"))
    );
    let mut lexer = Lexer::new("True");
    assert_eq!(
        lexer.next_token().unwrap().token_type,
        TokenType::ClassName(String::from("True"))
    );
}

#[test]
fn identifier_class_name_boundary() {
    let mut lexer = Lexer::new("foo");
    assert_eq!(lexer.next_token().unwrap().token_type, TokenType::Ident(String::from("foo")));
    let mut lexer = Lexer::new("Foo");
    assert_eq!(
        lexer.next_token().unwrap().token_type,
        TokenType::ClassName(String::from("Foo"))
    );
    let mut lexer = Lexer::new("_foo");
    assert_eq!(lexer.next_token().unwrap().token_type, TokenType::Ident(String::from("_foo")));
}

#[test]
fn every_keyword_lexes_to_its_kind() {
    let toks = lex_all(
        "class else fi if in inherits isvoid let loop new not of pool then while case esac true false",
    );
    let expected = vec![
        TokenType::Class,
        TokenType::Else,
        TokenType::Fi,
        TokenType::If,
        TokenType::In,
        TokenType::Inherits,
        TokenType::IsVoid,
        TokenType::Let,
        TokenType::Loop,
        TokenType::New,
        TokenType::Not,
        TokenType::Of,
        TokenType::Pool,
        TokenType::Then,
        TokenType::While,
        TokenType::Case,
        TokenType::Esac,
        TokenType::BoolLiteral(true),
        TokenType::BoolLiteral(false),
    ];
    assert_eq!(toks, expected.into_iter().map(Ok).collect::<Vec<_>>());
}

#[test]
fn class_main_scenario() {
    let toks = lex_all("class Main { x : Int ; }");
    let expected: Vec<Result<TokenType, LexerError>> = vec![
        Ok(TokenType::Class),
        Ok(TokenType::ClassName(String::from("Main"))),
        Ok(TokenType::LBrace),
        Ok(TokenType::Ident(String::from("x"))),
        Err(LexerError::InvalidChar(':')),
        Ok(TokenType::ClassName(String::from("Int"))),
        Ok(TokenType::Semicolon),
        Ok(TokenType::RBrace),
    ];
    assert_eq!(toks, expected);
}

#[test]
fn whitespace_style_does_not_change_kinds() {
    let a = lex_all("class Main { x ; }");
    let b = lex_all("class\n\tMain{x;\n}");
    assert_eq!(a, b);
}

#[test]
fn plus_surfaces_invalid_char_after_the_int() {
    let mut lexer = Lexer::new("5 + 3");
    assert_eq!(lexer.next_token().unwrap().token_type, TokenType::IntLiteral(5));
    assert_eq!(lexer.next_token(), Err(LexerError::InvalidChar('+')));
    assert_eq!(lexer.next_token().unwrap().token_type, TokenType::IntLiteral(3));
    assert_eq!(lexer.next_token().unwrap().token_type, TokenType::Eof);
}

#[test]
fn invalid_char_is_consumed_so_calls_progress() {
    let mut lexer = Lexer::new("@x");
    assert_eq!(lexer.next_token(), Err(LexerError::InvalidChar('@')));
    assert_eq!(lexer.next_token().unwrap().token_type, TokenType::Ident(String::from("x")));
}

#[test]
fn position_after_newline() {
    let mut lexer = Lexer::new("a\nb");
    let a = lexer.next_token().unwrap();
    assert_eq!(a.span.start, Pos::new(0, 1, 0));
    assert_eq!(a.span.end, Pos::new(1, 1, 1));
    let b = lexer.next_token().unwrap();
    assert_eq!(b.token_type, TokenType::Ident(String::from("b")));
    assert_eq!(b.span.start.line, 2);
    assert_eq!(b.span.start.col, 0);
    assert_eq!(b.span.start.offset, 2);
}

#[test]
fn braces_and_semicolon() {
    let toks = lex_all("{;}");
    assert_eq!(
        toks,
        vec![Ok(TokenType::LBrace), Ok(TokenType::Semicolon), Ok(TokenType::RBrace)]
    );
}

#[test]
fn sequence_ends_at_eof_and_stays_ended() {
    let mut lexer = Lexer::new("1 2");
    assert_eq!(lexer.next().unwrap().unwrap().token_type, TokenType::IntLiteral(1));
    assert_eq!(lexer.next().unwrap().unwrap().token_type, TokenType::IntLiteral(2));
    assert!(lexer.next().is_none());
    assert!(lexer.next().is_none());
}

#[test]
fn eof_repeats_on_further_calls() {
    let mut lexer = Lexer::new("  ");
    assert_eq!(lexer.next_token().unwrap().token_type, TokenType::Eof);
    assert_eq!(lexer.next_token().unwrap().token_type, TokenType::Eof);
}

#[test]
fn unicode_identifier_continues_past_ascii() {
    // identifier characters beyond ASCII are accepted after an ASCII start
    let mut lexer = Lexer::new("h\u{e9}llo");
    assert_eq!(
        lexer.next_token().unwrap().token_type,
        TokenType::Ident(String::from("h\u{e9}llo"))
    );
    assert_eq!(lexer.next_token().unwrap().token_type, TokenType::Eof);
}

#[test]
fn string_payload_keeps_unicode_content() {
    let mut lexer = Lexer::new("\"h\u{e9}llo \u{4e16}\"");
    assert_eq!(
        lexer.next_token().unwrap().token_type,
        TokenType::StringLiteral(String::from("h\u{e9}llo \u{4e16}"))
    );
    assert_eq!(lexer.next_token().unwrap().token_type, TokenType::Eof);
}

#[test]
fn number_stops_at_first_letter() {
    let toks = lex_all("12ab");
    assert_eq!(
        toks,
        vec![
            Ok(TokenType::IntLiteral(12)),
            Ok(TokenType::Ident(String::from("ab"))),
        ]
    );
}

#[test]
fn leading_zeros_keep_their_value() {
    let mut lexer = Lexer::new("007");
    let tok = lexer.next_token().unwrap();
    assert_eq!(tok.token_type, TokenType::IntLiteral(7));
    assert_eq!(tok.span.end.offset, 3);
}

#[test]
fn error_messages_are_exact() {
    assert_eq!(LexerError::InvalidChar('x').message(), "Invalid character: x");
    assert_eq!(
        LexerError::StringConstantTooLong(1025).message(),
        "String constant too long: 1025 chars"
    );
    assert_eq!(
        LexerError::StringConstantTooLong(0).message(),
        "String constant too long: 0 chars"
    );
    assert_eq!(LexerError::StringContainsNull.message(), "String contains null character");
    assert_eq!(LexerError::StringUnterminated.message(), "Unterminated string constant");
    assert_eq!(LexerError::StringContainsEof.message(), "EOF in string constant");
    assert_eq!(LexerError::UnmatchedComment.message(), "Unmatched comment");
    assert_eq!(LexerError::UnterminatedComment.message(), "EOF in comment");
}

#[test]
fn pos_new_carries_its_coordinates() {
    let p = Pos::new(7, 3, 2);
    assert_eq!(p.offset, 7);
    assert_eq!(p.line, 3);
    assert_eq!(p.col, 2);
}
