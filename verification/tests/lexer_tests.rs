use minilang::error::ErrorKind;
use minilang::lexer::{is_float_literal_body, is_ident_body, is_ident_start, Lexer};
use minilang::token::TokenKind;

#[test]
fn char_classes() {
    assert!(is_ident_start('a'));
    assert!(is_ident_start('Z'));
    assert!(is_ident_start('_'));
    assert!(!is_ident_start('1'));
    assert!(!is_ident_start(' '));
    assert!(is_ident_body('a'));
    assert!(is_ident_body('9'));
    assert!(is_ident_body('_'));
    assert!(!is_ident_body('.'));
    assert!(is_float_literal_body('0'));
    assert!(is_float_literal_body('.'));
    assert!(is_float_literal_body('_'));
    assert!(!is_float_literal_body('x'));
}

#[test]
fn tokens_of_simple_program() {
    let source = "let x: float = 1.0\n";
    let tokens = Lexer::new(source).lex().unwrap();
    assert_eq!(tokens.len(), 9);
    // The stream is wrapped in a synthetic bracket pair.
    assert_eq!(tokens[0].kind, TokenKind::LBracket);
    assert_eq!(tokens[0].pos.start_pos.index, 0);
    assert_eq!(tokens[0].pos.source_len, 0);
    assert_eq!(tokens[1].kind, TokenKind::Let);
    assert_eq!(tokens[1].pos.start_pos.index, 0);
    assert_eq!(tokens[1].pos.source_len, 3);
    assert_eq!(tokens[2].kind, TokenKind::Identifier("x".to_string()));
    assert_eq!(tokens[2].pos.start_pos.index, 4);
    assert_eq!(tokens[2].pos.source_len, 1);
    assert_eq!(tokens[3].kind, TokenKind::Colon);
    assert_eq!(tokens[4].kind, TokenKind::Identifier("float".to_string()));
    assert_eq!(tokens[4].pos.start_pos.index, 7);
    assert_eq!(tokens[4].pos.source_len, 5);
    assert_eq!(tokens[5].kind, TokenKind::Assignment);
    assert_eq!(tokens[5].pos.start_pos.index, 13);
    assert_eq!(tokens[6].kind, TokenKind::FloatLiteral("1.0".to_string()));
    assert_eq!(tokens[6].pos.start_pos.index, 15);
    assert_eq!(tokens[6].pos.source_len, 3);
    assert_eq!(tokens[7].kind, TokenKind::Eol);
    assert_eq!(tokens[7].pos.start_pos.index, 18);
    assert_eq!(tokens[8].kind, TokenKind::RBracket);
    assert_eq!(tokens[8].pos.start_pos.index, 19);
    assert_eq!(tokens[8].pos.source_len, 0);
}

#[test]
fn token_spans_slice_back_to_text() {
    let source = "let abc: float = 12.5";
    let tokens = Lexer::new(source).lex().unwrap();
    for tok in &tokens {
        let start = tok.pos.start_pos.index;
        let end = start + tok.pos.source_len;
        match &tok.kind {
            TokenKind::Identifier(text) => {
                assert_eq!(&source[start..end], text.as_str());
            }
            TokenKind::FloatLiteral(text) => {
                assert_eq!(&source[start..end], text.as_str());
            }
            _ => {}
        }
    }
}

#[test]
fn second_period_ends_float_without_being_consumed() {
    // The literal stops at `1.2`; lexing then resumes at the second period,
    // which no token can start with.
    let err = Lexer::new("1.2.3").lex().unwrap_err();
    assert_eq!(err.kind, ErrorKind::UnexpectedChar);
    assert_eq!(err.pos.start_pos.index, 3);
    assert_eq!(err.pos.source_len, 1);
    assert_eq!(err.msg, "Unexpected character '.'");
}

#[test]
fn float_with_one_period_scans_whole() {
    let tokens = Lexer::new("1.2").lex().unwrap();
    assert_eq!(tokens.len(), 3);
    assert_eq!(tokens[1].kind, TokenKind::FloatLiteral("1.2".to_string()));
    assert_eq!(tokens[1].pos.start_pos.index, 0);
    assert_eq!(tokens[1].pos.source_len, 3);
}

#[test]
fn float_with_underscores() {
    let tokens = Lexer::new("1_000.5").lex().unwrap();
    assert_eq!(tokens[1].kind, TokenKind::FloatLiteral("1_000.5".to_string()));
    assert_eq!(tokens[1].pos.source_len, 7);
}

#[test]
fn whitespace_is_skipped() {
    let tokens = Lexer::new("  \tx").lex().unwrap();
    assert_eq!(tokens.len(), 3);
    assert_eq!(tokens[1].kind, TokenKind::Identifier("x".to_string()));
    assert_eq!(tokens[1].pos.start_pos.index, 3);
}

#[test]
fn let_is_a_keyword_but_lets_is_not() {
    let tokens = Lexer::new("let lets").lex().unwrap();
    assert_eq!(tokens[1].kind, TokenKind::Let);
    assert_eq!(tokens[2].kind, TokenKind::Identifier("lets".to_string()));
}

#[test]
fn newline_advances_line_and_resets_column() {
    let tokens = Lexer::new("a\nb").lex().unwrap();
    assert_eq!(tokens[1].pos.start_pos.line, 0);
    assert_eq!(tokens[1].pos.start_pos.column, 0);
    assert_eq!(tokens[2].kind, TokenKind::Eol);
    let b = &tokens[3];
    assert_eq!(b.kind, TokenKind::Identifier("b".to_string()));
    assert_eq!(b.pos.start_pos.index, 2);
    assert_eq!(b.pos.start_pos.line, 1);
    assert_eq!(b.pos.start_pos.column, 0);
}

#[test]
fn operator_tokens() {
    let tokens = Lexer::new("+-*/%(){}=:").lex().unwrap();
    let kinds: Vec<&TokenKind> = tokens.iter().map(|t| &t.kind).collect();
    assert!(matches!(kinds[1], TokenKind::Add));
    assert!(matches!(kinds[2], TokenKind::Subtract));
    assert!(matches!(kinds[3], TokenKind::Multiply));
    assert!(matches!(kinds[4], TokenKind::Divide));
    assert!(matches!(kinds[5], TokenKind::Modulo));
    assert!(matches!(kinds[6], TokenKind::LParen));
    assert!(matches!(kinds[7], TokenKind::RParen));
    assert!(matches!(kinds[8], TokenKind::LBracket));
    assert!(matches!(kinds[9], TokenKind::RBracket));
    assert!(matches!(kinds[10], TokenKind::Assignment));
    assert!(matches!(kinds[11], TokenKind::Colon));
}

#[test]
fn unexpected_character_is_reported_with_its_position() {
    let err = Lexer::new("x @").lex().unwrap_err();
    assert_eq!(err.kind, ErrorKind::UnexpectedChar);
    assert_eq!(err.pos.start_pos.index, 2);
    assert_eq!(err.pos.source_len, 1);
    assert_eq!(err.msg, "Unexpected character '@'");
}
