use rcc::Lexer;
use rcc::NodeType;
use rcc::ParseError;
use rcc::Parser;
use rcc::Token;
use rcc::TokenType;

fn tokens_of(src: &str) -> Vec<Token> {
    let text = String::from(src);
    let mut lexer = Lexer::new(&text);
    lexer.lex().expect("lexing should succeed");
    lexer.tokens
}

fn parse_src(src: &str) -> Result<NodeType, ParseError> {
    let mut parser = Parser::new(tokens_of(src));
    parser.parse()
}

fn program_id_and_value(ast: &NodeType) -> (String, u32) {
    let program = match ast {
        NodeType::Program(p) => p,
        _ => panic!("root is not a program"),
    };
    assert_eq!(program.children.len(), 1);
    let function = match &program.children[0] {
        NodeType::Function(f) => f,
        _ => panic!("program child is not a function"),
    };
    assert_eq!(function.children.len(), 1);
    let statement = match &function.children[0] {
        NodeType::Statement(s) => s,
        _ => panic!("function child is not a statement"),
    };
    assert_eq!(statement.children.len(), 1);
    let expression = match &statement.children[0] {
        NodeType::Expression(e) => e,
        _ => panic!("statement child is not a constant"),
    };
    (function.id.clone(), expression.value)
}

#[test]
fn minimal_program_parses_to_expected_tree() {
    let ast = parse_src("int main(void){return 2;}").expect("parse should succeed");
    let (id, value) = program_id_and_value(&ast);
    assert_eq!(id, "main");
    assert_eq!(value, 2);
}

#[test]
fn new_parser_starts_at_cursor_zero() {
    let parser = Parser::new(tokens_of("int main(void){return 2;}"));
    assert_eq!(parser.current, 0);
    assert_eq!(parser.tokens.len(), 10);
}

#[test]
fn largest_32_bit_literal_parses() {
    let ast = parse_src("int main(void){return 4294967295;}").expect("parse should succeed");
    let (_, value) = program_id_and_value(&ast);
    assert_eq!(value, 4294967295);
}

#[test]
fn literal_beyond_32_bits_fails_with_number_error() {
    assert!(matches!(parse_src("int main(void){return 4294967296;}"), Err(ParseError::Number)));
    assert!(matches!(parse_src("int main(void){return 999999999999999999999;}"), Err(ParseError::Number)));
}

#[test]
fn leading_zeros_keep_their_value() {
    let ast = parse_src("int main(void){return 007;}").expect("parse should succeed");
    let (_, value) = program_id_and_value(&ast);
    assert_eq!(value, 7);
}

#[test]
fn truncated_program_fails_without_panic() {
    let full = "int main(void){return 2;}";
    for cut in 1..full.len() {
        let truncated = &full[..full.len() - cut];
        assert!(parse_src(truncated).is_err(), "no error for {truncated:?}");
    }
}

#[test]
fn missing_int_keyword_is_a_function_error() {
    assert!(matches!(parse_src("foo main(void){return 2;}"), Err(ParseError::Function)));
    assert!(matches!(parse_src(""), Err(ParseError::Function)));
}

#[test]
fn missing_return_keyword_is_a_statement_error() {
    assert!(matches!(parse_src("int main(void){x 2;}"), Err(ParseError::Statement)));
}

#[test]
fn missing_semicolon_is_a_statement_error() {
    assert!(matches!(parse_src("int main(void){return 2}"), Err(ParseError::Statement)));
}

#[test]
fn non_integer_return_value_is_an_expression_error() {
    assert!(matches!(parse_src("int main(void){return x;}"), Err(ParseError::Expression)));
}

#[test]
fn keyword_in_place_of_identifier_fails() {
    assert!(matches!(parse_src("int return(void){return 2;}"), Err(ParseError::Function)));
}

#[test]
fn trailing_tokens_after_program_are_ignored() {
    let ast = parse_src("int main(void){return 2;} extra").expect("parse should succeed");
    let (id, value) = program_id_and_value(&ast);
    assert_eq!(id, "main");
    assert_eq!(value, 2);
}

#[test]
fn integer_token_with_bad_text_is_a_number_error() {
    let tokens = vec![
        Token { kind: TokenType::Keyword, value: String::from("int") },
        Token { kind: TokenType::Identifier, value: String::from("main") },
        Token { kind: TokenType::OpenParen, value: String::from("(") },
        Token { kind: TokenType::Keyword, value: String::from("void") },
        Token { kind: TokenType::CloseParen, value: String::from(")") },
        Token { kind: TokenType::OpenBrace, value: String::from("{") },
        Token { kind: TokenType::Keyword, value: String::from("return") },
        Token { kind: TokenType::Integer, value: String::from("12a") },
        Token { kind: TokenType::Semicolon, value: String::from(";") },
        Token { kind: TokenType::CloseBrace, value: String::from("}") },
    ];
    let mut parser = Parser::new(tokens);
    assert!(matches!(parser.parse(), Err(ParseError::Number)));
}
