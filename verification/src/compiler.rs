//! The whole pipeline on one source text: lexical analysis, parsing, code
//! generation.  Reading source files, writing the emitted text and invoking
//! an external assembler are a driver's concern and stay outside.
//!
//! The mathematical model is [`spec_compile`]; [`Compiler::compile_source`]
//! is proved to return exactly that outcome.  Because every stage's result
//! is a function of its input alone, the pipeline is deterministic
//! ([`lemma_compile_deterministic`]), and a well-formed minimal program
//! compiles to exactly its declaration, label and return instructions
//! ([`lemma_round_trip_shape`]).

use crate::code_generator::CodeGenerator;
use crate::code_generator::decl_text;
use crate::code_generator::lemma_spec_generate_program;
use crate::code_generator::mov_text;
use crate::lexer::LexError;
use crate::lexer::Lexer;
use crate::lexer::SpecToken;
use crate::lexer::TokenType;
use crate::lexer::alpha_token;
use crate::lexer::is_alpha_char;
use crate::lexer::is_identifier_text;
use crate::lexer::lemma_alpha_end_is;
use crate::lexer::lemma_digit_end_is;
use crate::lexer::spec_lex;
use crate::lexer::toks_view;
use crate::numeral::dec_value;
use crate::numeral::is_decimal_text;
use crate::numeral::is_digit_char;
use crate::parser::ParseError;
use crate::parser::Parser;
use crate::parser::spec_parse;
use crate::parser::spec_parse_expression;
use crate::parser::spec_parse_function;
use crate::parser::spec_parse_statement;
use vstd::prelude::*;

verus! {

/// A compilation error: the failing stage's own error.  Code generation
/// cannot fail on a tree the parser produced, so it contributes no case.
#[derive(Debug, Clone, PartialEq, Eq, Structural)]
pub enum CompileError {
    Lex(LexError),
    Parse(ParseError),
}

/// The outcome of the whole pipeline on a source text: the assembly of the
/// parsed function, or the error of the first stage that fails.
pub open spec fn spec_compile(s: Seq<char>) -> Result<Seq<char>, CompileError> {
    match spec_lex(s, 0) {
        None => Err(CompileError::Lex(LexError::MalformedComment)),
        Some(toks) => match spec_parse(toks, 0) {
            Err(e) => Err(CompileError::Parse(e)),
            Ok((id, v)) => Ok(decl_text(id) + mov_text(v)),
        },
    }
}

/// The compiler.  It holds no state: each compilation is independent.
#[derive(Debug, Clone)]
pub struct Compiler;

impl Compiler {
    /// Runs the three stages on one source text and returns the emitted
    /// assembly, exactly as [`spec_compile`] describes it.
    pub fn compile_source(source: &String) -> (r: Result<String, CompileError>)
        ensures
            match (r, spec_compile(source@)) {
                (Ok(code), Ok(text)) => code@ == text,
                (Err(e), Err(se)) => e == se,
                _ => false,
            },
    {
        let mut lexer = Lexer::new(source);
        match lexer.lex() {
            Err(e) => {
                return Err(CompileError::Lex(e));
            },
            Ok(_) => {},
        }
        proof {
            assert(lexer.tokens@.skip(0) =~= lexer.tokens@);
        }
        let ghost toks: Seq<SpecToken> = toks_view(lexer.tokens@);
        let mut parser = Parser::new(lexer.tokens);
        let ast = match parser.parse() {
            Err(e) => {
                return Err(CompileError::Parse(e));
            },
            Ok(ast) => ast,
        };
        let ghost id = spec_parse(toks, 0)->Ok_0.0;
        let ghost v = spec_parse(toks, 0)->Ok_0.1;
        match CodeGenerator::generate(&ast) {
            Ok(code) => {
                proof {
                    lemma_spec_generate_program(ast, id, v);
                }
                Ok(code)
            },
            Err(_) => {
                proof {
                    lemma_spec_generate_program(ast, id, v);
                }
                vstd::pervasive::unreached()
            },
        }
    }
}

/// The source text of a minimal program `int NAME(void){return V;}`.
pub open spec fn minimal_program_text(name: Seq<char>, digits: Seq<char>) -> Seq<char> {
    "int "@ + name + "(void){return "@ + digits + ";}"@
}

/// The ten tokens of a minimal program, in source order.
pub open spec fn minimal_program_tokens(name: Seq<char>, digits: Seq<char>) -> Seq<SpecToken> {
    seq![
        SpecToken { kind: TokenType::Keyword, text: "int"@ },
        SpecToken { kind: TokenType::Identifier, text: name },
        SpecToken { kind: TokenType::OpenParen, text: seq!['('] },
        SpecToken { kind: TokenType::Keyword, text: "void"@ },
        SpecToken { kind: TokenType::CloseParen, text: seq![')'] },
        SpecToken { kind: TokenType::OpenBrace, text: seq!['{'] },
        SpecToken { kind: TokenType::Keyword, text: "return"@ },
        SpecToken { kind: TokenType::Integer, text: digits },
        SpecToken { kind: TokenType::Semicolon, text: seq![';'] },
        SpecToken { kind: TokenType::CloseBrace, text: seq!['}'] },
    ]
}

/// Lexing a minimal program yields exactly its ten tokens.
proof fn lemma_lex_minimal_program(name: Seq<char>, digits: Seq<char>)
    requires
        is_identifier_text(name),
        is_decimal_text(digits),
    ensures
        spec_lex(minimal_program_text(name, digits), 0) == Some(
            minimal_program_tokens(name, digits),
        ),
{
    reveal_strlit("int ");
    reveal_strlit("(void){return ");
    reveal_strlit(";}");
    reveal_strlit("int");
    reveal_strlit("void");
    reveal_strlit("return");
    let a = "int "@;
    let b = "(void){return "@;
    let z = ";}"@;
    let src = minimal_program_text(name, digits);
    let n = name.len() as int;
    let d = digits.len() as int;
    assert(a.len() == 4);
    assert(b.len() == 14);
    assert(z.len() == 2);
    assert(src.len() == 20 + n + d);
    assert(forall|k: int| 0 <= k < 4 ==> src[k] == a[k]);
    assert(forall|k: int| 0 <= k < n ==> src[4 + k] == name[k]);
    assert(forall|k: int| 0 <= k < 14 ==> src[4 + n + k] == b[k]);
    assert(forall|k: int| 0 <= k < d ==> src[18 + n + k] == digits[k]);
    assert(forall|k: int| 0 <= k < 2 ==> src[18 + n + d + k] == z[k]);
    assert(src[0] == 'i' && src[1] == 'n' && src[2] == 't' && src[3] == ' ');
    assert(src[4 + n] == '(' && src[5 + n] == 'v' && src[6 + n] == 'o' && src[7 + n] == 'i' && src[8
        + n] == 'd' && src[9 + n] == ')' && src[10 + n] == '{');
    assert(src[11 + n] == 'r' && src[12 + n] == 'e' && src[13 + n] == 't' && src[14 + n] == 'u'
        && src[15 + n] == 'r' && src[16 + n] == 'n' && src[17 + n] == ' ');
    assert(src[18 + n + d] == ';' && src[19 + n + d] == '}');

    // The maximal runs.
    assert(forall|k: int| 4 <= k < 4 + n ==> is_alpha_char(#[trigger] src[k]));
    assert(forall|k: int| 18 + n <= k < 18 + n + d ==> is_digit_char(#[trigger] src[k]));
    lemma_alpha_end_is(src, 0, 3);
    lemma_alpha_end_is(src, 4 as nat, (4 + n) as nat);
    lemma_alpha_end_is(src, (5 + n) as nat, (9 + n) as nat);
    lemma_alpha_end_is(src, (11 + n) as nat, (17 + n) as nat);
    lemma_digit_end_is(src, (18 + n) as nat, (18 + n + d) as nat);

    // The lexemes the runs produce.
    assert(src.subrange(0, 3) =~= "int"@);
    assert(src.subrange(4, 4 + n) =~= name);
    assert(src.subrange(5 + n, 9 + n) =~= "void"@);
    assert(src.subrange(11 + n, 17 + n) =~= "return"@);
    assert(src.subrange(18 + n, 18 + n + d) =~= digits);

    let t0 = SpecToken { kind: TokenType::Keyword, text: "int"@ };
    let t1 = SpecToken { kind: TokenType::Identifier, text: name };
    let t2 = SpecToken { kind: TokenType::OpenParen, text: seq!['('] };
    let t3 = SpecToken { kind: TokenType::Keyword, text: "void"@ };
    let t4 = SpecToken { kind: TokenType::CloseParen, text: seq![')'] };
    let t5 = SpecToken { kind: TokenType::OpenBrace, text: seq!['{'] };
    let t6 = SpecToken { kind: TokenType::Keyword, text: "return"@ };
    let t7 = SpecToken { kind: TokenType::Integer, text: digits };
    let t8 = SpecToken { kind: TokenType::Semicolon, text: seq![';'] };
    let t9 = SpecToken { kind: TokenType::CloseBrace, text: seq!['}'] };
    let r10 = Seq::<SpecToken>::empty();
    let r9 = seq![t9];
    let r8 = seq![t8, t9];
    let r7 = seq![t7, t8, t9];
    let r6 = seq![t6, t7, t8, t9];
    let r5 = seq![t5, t6, t7, t8, t9];
    let r4 = seq![t4, t5, t6, t7, t8, t9];
    let r3 = seq![t3, t4, t5, t6, t7, t8, t9];
    let r2 = seq![t2, t3, t4, t5, t6, t7, t8, t9];
    let r1 = seq![t1, t2, t3, t4, t5, t6, t7, t8, t9];
    let r0 = seq![t0, t1, t2, t3, t4, t5, t6, t7, t8, t9];

    // Walk the scan backwards from the end of the input.
    assert(spec_lex(src, (20 + n + d) as nat) == Some(r10));
    assert(seq![t9] + r10 =~= r9);
    assert(spec_lex(src, (19 + n + d) as nat) == Some(r9));
    assert(seq![t8] + r9 =~= r8);
    assert(spec_lex(src, (18 + n + d) as nat) == Some(r8));
    assert(seq![t7] + r8 =~= r7);
    assert(spec_lex(src, (18 + n) as nat) == Some(r7));
    assert(spec_lex(src, (17 + n) as nat) == Some(r7));
    assert(alpha_token(src, (11 + n) as nat, (17 + n) as nat) =~~= t6);
    assert(seq![t6] + r7 =~= r6);
    assert(spec_lex(src, (11 + n) as nat) == Some(r6));
    assert(seq![t5] + r6 =~= r5);
    assert(spec_lex(src, (10 + n) as nat) == Some(r5));
    assert(seq![t4] + r5 =~= r4);
    assert(spec_lex(src, (9 + n) as nat) == Some(r4));
    assert(alpha_token(src, (5 + n) as nat, (9 + n) as nat) =~~= t3);
    assert(seq![t3] + r4 =~= r3);
    assert(spec_lex(src, (5 + n) as nat) == Some(r3));
    assert(seq![t2] + r3 =~= r2);
    assert(spec_lex(src, (4 + n) as nat) == Some(r2));
    assert(alpha_token(src, 4 as nat, (4 + n) as nat) =~~= t1);
    assert(seq![t1] + r2 =~= r1);
    assert(spec_lex(src, 4 as nat) == Some(r1));
    assert(spec_lex(src, 3 as nat) == Some(r1));
    assert(alpha_token(src, 0 as nat, 3 as nat) =~~= t0);
    assert(seq![t0] + r1 =~= r0);
    assert(spec_lex(src, 0) == Some(r0));
    assert(r0 =~~= minimal_program_tokens(name, digits));
}

/// Round-trip shape: a well-formed minimal program `int NAME(void){return
/// V;}` — NAME a valid identifier, V a decimal literal fitting 32 bits —
/// compiles successfully, to exactly the global declaration and label for
/// NAME followed by the return of V's value.
pub proof fn lemma_round_trip_shape(name: Seq<char>, digits: Seq<char>)
    requires
        is_identifier_text(name),
        is_decimal_text(digits),
        dec_value(digits) <= u32::MAX,
    ensures
        spec_compile(minimal_program_text(name, digits)) == Ok::<Seq<char>, CompileError>(
            decl_text(name) + mov_text(dec_value(digits) as u32),
        ),
{
    lemma_lex_minimal_program(name, digits);
    let toks = minimal_program_tokens(name, digits);
    let v = dec_value(digits) as u32;
    reveal_strlit("(");
    reveal_strlit(")");
    reveal_strlit("{");
    reveal_strlit("}");
    reveal_strlit(";");
    assert(toks[2].text =~= "("@);
    assert(toks[4].text =~= ")"@);
    assert(toks[5].text =~= "{"@);
    assert(toks[8].text =~= ";"@);
    assert(toks[9].text =~= "}"@);
    assert(spec_parse_expression(toks, 7) == Ok::<(u32, nat), ParseError>((v, 8 as nat)));
    assert(spec_parse_statement(toks, 6) == Ok::<(u32, nat), ParseError>((v, 9 as nat)));
    assert(spec_parse_function(toks, 0) == Ok::<(Seq<char>, u32, nat), ParseError>(
        (name, v, 9 as nat),
    ));
    assert(spec_parse(toks, 0) == Ok::<(Seq<char>, u32), ParseError>((name, v)));
}

/// Determinism: the pipeline's outcome is a function of the source text
/// alone, so running it twice on identical input yields byte-identical
/// assembly text.  [`Compiler::compile_source`] returns exactly
/// [`spec_compile`] of its input, so this carries over to execution.
pub proof fn lemma_compile_deterministic(s1: Seq<char>, s2: Seq<char>)
    requires
        s1 == s2,
    ensures
        spec_compile(s1) == spec_compile(s2),
{
}

} // verus!
