use rcc::LexError;
use rcc::Lexer;
use rcc::Token;
use rcc::TokenType;

fn lex_ok(src: &str) -> Vec<Token> {
    let text = String::from(src);
    let mut lexer = Lexer::new(&text);
    lexer.lex().expect("lexing should succeed");
    lexer.tokens
}

#[test]
fn new_lexer_holds_source_and_no_tokens() {
    let text = String::from("int");
    let lexer = Lexer::new(&text);
    assert_eq!(lexer.source, "int");
    assert!(lexer.tokens.is_empty());
}

#[test]
fn keywords_lex_as_keyword_tokens() {
    for kw in ["int", "return", "void"] {
        let tokens = lex_ok(kw);
        assert_eq!(tokens.len(), 1);
        assert_eq!(tokens[0].kind, TokenType::Keyword);
        assert_eq!(tokens[0].value, kw);
    }
}

#[test]
fn keyword_prefix_is_one_identifier() {
    for ident in ["intx", "returning", "voids", "mainint"] {
        let tokens = lex_ok(ident);
        assert_eq!(tokens.len(), 1);
        assert_eq!(tokens[0].kind, TokenType::Identifier);
        assert_eq!(tokens[0].value, ident);
    }
}

#[test]
fn comment_content_is_skipped() {
    let tokens = lex_ok("int x; // return 5\n");
    let kinds: Vec<TokenType> = tokens.iter().map(|t| t.kind.clone()).collect();
    assert_eq!(
        kinds,
        vec![TokenType::Keyword, TokenType::Identifier, TokenType::Semicolon]
    );
    assert_eq!(tokens[0].value, "int");
    assert_eq!(tokens[1].value, "x");
    assert_eq!(tokens[2].value, ";");
}

#[test]
fn comment_reaching_end_of_input_is_fine() {
    let tokens = lex_ok("int // trailing");
    assert_eq!(tokens.len(), 1);
    assert_eq!(tokens[0].value, "int");
}

#[test]
fn token_after_comment_newline_is_kept() {
    let tokens = lex_ok("// first line\nint");
    assert_eq!(tokens.len(), 1);
    assert_eq!(tokens[0].kind, TokenType::Keyword);
    assert_eq!(tokens[0].value, "int");
}

#[test]
fn lone_slash_is_a_lex_error() {
    for src in ["/", "int / x", "a/b"] {
        let text = String::from(src);
        let mut lexer = Lexer::new(&text);
        assert_eq!(lexer.lex(), Err(LexError::MalformedComment));
    }
}

#[test]
fn operator_glyphs_lex_to_their_kinds() {
    let tokens = lex_ok("-~!;{}()");
    let kinds: Vec<TokenType> = tokens.iter().map(|t| t.kind.clone()).collect();
    assert_eq!(
        kinds,
        vec![
            TokenType::Negation,
            TokenType::BitwiseComplement,
            TokenType::LogicalNegation,
            TokenType::Semicolon,
            TokenType::OpenBrace,
            TokenType::CloseBrace,
            TokenType::OpenParen,
            TokenType::CloseParen,
        ]
    );
}

#[test]
fn unrecognized_characters_are_skipped() {
    let tokens = lex_ok("int @ main #\t$ 12");
    assert_eq!(tokens.len(), 3);
    assert_eq!(tokens[0].value, "int");
    assert_eq!(tokens[1].value, "main");
    assert_eq!(tokens[2].kind, TokenType::Integer);
    assert_eq!(tokens[2].value, "12");
}

#[test]
fn empty_source_lexes_to_no_tokens() {
    let tokens = lex_ok("");
    assert!(tokens.is_empty());
}

#[test]
fn digit_run_is_one_integer_token() {
    let tokens = lex_ok("1234567890123456789012345");
    assert_eq!(tokens.len(), 1);
    assert_eq!(tokens[0].kind, TokenType::Integer);
    assert_eq!(tokens[0].value, "1234567890123456789012345");
}
