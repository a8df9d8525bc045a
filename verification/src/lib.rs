//! A minimal ahead-of-time compiler front end for a tiny C-like subset:
//! one function definition containing a single `return` of an integer
//! constant.  The pipeline has three verified stages: lexical analysis,
//! recursive-descent parsing into an abstract syntax tree, and
//! AST-to-assembly code generation.

pub mod code_generator;
pub mod compiler;
pub mod lexer;
pub mod numeral;
pub mod parser;

pub use code_generator::CodeGenError;
pub use code_generator::CodeGenerator;
pub use compiler::CompileError;
pub use compiler::Compiler;
pub use lexer::LexError;
pub use lexer::Lexer;
pub use lexer::Token;
pub use lexer::TokenType;
pub use parser::ExpressionNode;
pub use parser::FunctionNode;
pub use parser::NodeType;
pub use parser::ParseError;
pub use parser::Parser;
pub use parser::ProgramNode;
pub use parser::StatementNode;
