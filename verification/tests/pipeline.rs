use rcc::CodeGenError;
use rcc::CodeGenerator;
use rcc::CompileError;
use rcc::Compiler;
use rcc::ExpressionNode;
use rcc::FunctionNode;
use rcc::Lexer;
use rcc::NodeType;
use rcc::ParseError;
use rcc::Parser;
use rcc::ProgramNode;
use rcc::StatementNode;
use rcc::TokenType;

fn compile(src: &str) -> Result<String, CompileError> {
    Compiler::compile_source(&String::from(src))
}

#[test]
fn concrete_scenario_tokens_tree_and_assembly() {
    let text = String::from("int main(void){return 2;}");
    let mut lexer = Lexer::new(&text);
    lexer.lex().expect("lexing should succeed");
    let expected = [
        (TokenType::Keyword, "int"),
        (TokenType::Identifier, "main"),
        (TokenType::OpenParen, "("),
        (TokenType::Keyword, "void"),
        (TokenType::CloseParen, ")"),
        (TokenType::OpenBrace, "{"),
        (TokenType::Keyword, "return"),
        (TokenType::Integer, "2"),
        (TokenType::Semicolon, ";"),
        (TokenType::CloseBrace, "}"),
    ];
    assert_eq!(lexer.tokens.len(), expected.len());
    for (token, (kind, value)) in lexer.tokens.iter().zip(expected.iter()) {
        assert_eq!(token.kind, *kind);
        assert_eq!(token.value, *value);
    }

    let mut parser = Parser::new(lexer.tokens);
    let ast = parser.parse().expect("parse should succeed");
    match &ast {
        NodeType::Program(program) => {
            assert_eq!(program.children.len(), 1);
            match &program.children[0] {
                NodeType::Function(function) => {
                    assert_eq!(function.id, "main");
                    assert_eq!(function.children.len(), 1);
                    match &function.children[0] {
                        NodeType::Statement(statement) => {
                            assert_eq!(statement.children.len(), 1);
                            match &statement.children[0] {
                                NodeType::Expression(expression) => {
                                    assert_eq!(expression.value, 2);
                                },
                                _ => panic!("statement child is not a constant"),
                            }
                        },
                        _ => panic!("function child is not a statement"),
                    }
                },
                _ => panic!("program child is not a function"),
            }
        },
        _ => panic!("root is not a program"),
    }

    let code = CodeGenerator::generate(&ast).expect("generation should succeed");
    assert_eq!(code, "\t.globl main\nmain:\n\tmov\t$2, %rax\n\tret\n");
}

#[test]
fn round_trip_shape_for_other_names_and_values() {
    assert_eq!(
        compile("int foo(void){return 42;}").expect("compile should succeed"),
        "\t.globl foo\nfoo:\n\tmov\t$42, %rax\n\tret\n"
    );
    assert_eq!(
        compile("int f(void){return 0;}").expect("compile should succeed"),
        "\t.globl f\nf:\n\tmov\t$0, %rax\n\tret\n"
    );
    assert_eq!(
        compile("int top(void){return 4294967295;}").expect("compile should succeed"),
        "\t.globl top\ntop:\n\tmov\t$4294967295, %rax\n\tret\n"
    );
}

#[test]
fn pipeline_is_deterministic() {
    let src = "int main(void){return 2;}";
    let first = compile(src);
    let second = compile(src);
    assert_eq!(first, second);
    assert_eq!(first.unwrap(), second.unwrap());
}

#[test]
fn whitespace_and_comments_do_not_change_the_output() {
    let plain = compile("int main(void){return 7;}").unwrap();
    let spaced = compile("int  main ( void ) { return 7 ; } // done\n").unwrap();
    assert_eq!(plain, spaced);
}

#[test]
fn lex_stage_error_reaches_the_caller() {
    assert_eq!(
        compile("int main(void){return 2/;}"),
        Err(CompileError::Lex(rcc::LexError::MalformedComment))
    );
}

#[test]
fn parse_stage_error_reaches_the_caller() {
    assert_eq!(
        compile("int main(void){return;}"),
        Err(CompileError::Parse(ParseError::Expression))
    );
    assert_eq!(
        compile("int main(void){return 4294967296;}"),
        Err(CompileError::Parse(ParseError::Number))
    );
}

#[test]
fn generate_rejects_statement_without_constant_child() {
    let statement = NodeType::Statement(StatementNode::new(vec![NodeType::Function(
        FunctionNode::new(String::from("f"), vec![]),
    )]));
    assert_eq!(CodeGenerator::generate(&statement), Err(CodeGenError::NotAConstant));

    let empty_statement = NodeType::Statement(StatementNode::new(vec![]));
    assert_eq!(CodeGenerator::generate(&empty_statement), Err(CodeGenError::NotAConstant));
}

#[test]
fn generate_emits_nothing_for_a_bare_constant() {
    let constant = NodeType::Expression(ExpressionNode::new(5));
    assert_eq!(CodeGenerator::generate(&constant).unwrap(), "");
}

#[test]
fn generate_emits_nothing_for_an_empty_program() {
    let program = NodeType::Program(ProgramNode::new(vec![]));
    assert_eq!(CodeGenerator::generate(&program).unwrap(), "");
}

#[test]
fn generated_text_for_hand_built_tree_matches_parsed_tree() {
    let built = NodeType::Program(ProgramNode::new(vec![NodeType::Function(FunctionNode::new(
        String::from("main"),
        vec![NodeType::Statement(StatementNode::new(vec![NodeType::Expression(
            ExpressionNode::new(2),
        )]))],
    ))]));
    let from_source = compile("int main(void){return 2;}").unwrap();
    assert_eq!(CodeGenerator::generate(&built).unwrap(), from_source);
}
