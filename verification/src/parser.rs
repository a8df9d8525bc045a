//! Parsing: predictive recursive descent over the token sequence, one
//! procedure per grammar rule, with a single monotonically advancing cursor
//! and no backtracking.
//!
//! The grammar is fixed:
//!
//! ```text
//! program    := function
//! function   := "int" IDENTIFIER "(" "void" ")" "{" statement "}"
//! statement  := "return" expression ";"
//! expression := INTEGER
//! ```
//!
//! The mathematical model is [`spec_parse`] (with one spec function per
//! rule); [`Parser::parse`] is proved to build exactly the tree those
//! functions describe, or to return exactly the error of the first grammar
//! rule that fails.  Running past the end of the token sequence is a parse
//! error, never a panic.

use crate::lexer::SpecToken;
use crate::lexer::Token;
use crate::lexer::TokenType;
use crate::lexer::toks_view;
use crate::numeral::dec_value;
use crate::numeral::is_decimal_text;
use crate::numeral::parse_decimal;
use vstd::prelude::*;

verus! {

/// An abstract syntax tree node: a closed sum type with one case per
/// grammar production.  The tree is immutable once built and is consumed
/// read-only by the code generator.
#[derive(Debug)]
pub enum NodeType {
    Program(ProgramNode),
    Function(FunctionNode),
    Statement(StatementNode),
    Expression(ExpressionNode),
}

/// The root node; in this grammar it always has exactly one `Function`
/// child.
#[derive(Debug)]
pub struct ProgramNode {
    pub children: Vec<NodeType>,
}

impl ProgramNode {
    pub fn new(children: Vec<NodeType>) -> (r: Self)
        ensures
            r.children == children,
    {
        Self { children }
    }
}

/// A function definition: its identifier and, in this grammar, exactly one
/// `Statement` child.
#[derive(Debug)]
pub struct FunctionNode {
    pub id: String,
    pub children: Vec<NodeType>,
}

impl FunctionNode {
    pub fn new(id: String, children: Vec<NodeType>) -> (r: Self)
        ensures
            r.id == id,
            r.children == children,
    {
        Self { id, children }
    }
}

/// A `return` statement: exactly one constant-expression child.
#[derive(Debug)]
pub struct StatementNode {
    pub children: Vec<NodeType>,
}

impl StatementNode {
    pub fn new(children: Vec<NodeType>) -> (r: Self)
        ensures
            r.children == children,
    {
        Self { children }
    }
}

/// A leaf holding a decimal literal's numeric value.
#[derive(Debug, Clone)]
pub struct ExpressionNode {
    pub value: u32,
}

impl ExpressionNode {
    pub fn new(value: u32) -> (r: Self)
        ensures
            r.value == value,
    {
        Self { value }
    }
}

/// A parse error, reported for the grammar rule that failed first.
/// `Number` marks an integer token whose text does not denote an unsigned
/// 32-bit value (it overflows, or is not a plain digit run).
#[derive(Debug, Clone, PartialEq, Eq, Structural)]
pub enum ParseError {
    Function,
    Statement,
    Expression,
    Number,
}

/// The rule `expression := INTEGER`: the token at `i` must be an integer
/// literal denoting a value that fits in 32 bits.  Yields the value and the
/// cursor position after the rule.
pub open spec fn spec_parse_expression(toks: Seq<SpecToken>, i: nat) -> Result<
    (u32, nat),
    ParseError,
> {
    if i >= toks.len() || toks[i as int].kind != TokenType::Integer {
        Err(ParseError::Expression)
    } else if is_decimal_text(toks[i as int].text) && dec_value(toks[i as int].text) <= u32::MAX {
        Ok((dec_value(toks[i as int].text) as u32, (i + 1) as nat))
    } else {
        Err(ParseError::Number)
    }
}

/// The rule `statement := "return" expression ";"`.  Yields the returned
/// value and the cursor position after the rule.
pub open spec fn spec_parse_statement(toks: Seq<SpecToken>, i: nat) -> Result<
    (u32, nat),
    ParseError,
> {
    if i >= toks.len() || toks[i as int].text != "return"@ {
        Err(ParseError::Statement)
    } else {
        match spec_parse_expression(toks, i + 1) {
            Err(e) => Err(e),
            Ok((v, j)) => if j >= toks.len() || toks[j as int].text != ";"@ {
                Err(ParseError::Statement)
            } else {
                Ok((v, (j + 1) as nat))
            },
        }
    }
}

/// The rule `function := "int" IDENTIFIER "(" "void" ")" "{" statement "}"`.
/// Yields the function's identifier, the returned value, and the cursor
/// position of the closing brace (which the parser does not consume).
pub open spec fn spec_parse_function(toks: Seq<SpecToken>, i: nat) -> Result<
    (Seq<char>, u32, nat),
    ParseError,
> {
    if i >= toks.len() || toks[i as int].text != "int"@ {
        Err(ParseError::Function)
    } else if i + 1 >= toks.len() || toks[i as int + 1].kind != TokenType::Identifier {
        Err(ParseError::Function)
    } else if i + 2 >= toks.len() || toks[i as int + 2].text != "("@ {
        Err(ParseError::Function)
    } else if i + 3 >= toks.len() || toks[i as int + 3].text != "void"@ {
        Err(ParseError::Function)
    } else if i + 4 >= toks.len() || toks[i as int + 4].text != ")"@ {
        Err(ParseError::Function)
    } else if i + 5 >= toks.len() || toks[i as int + 5].text != "{"@ {
        Err(ParseError::Function)
    } else {
        match spec_parse_statement(toks, i + 6) {
            Err(e) => Err(e),
            Ok((v, j)) => if j >= toks.len() || toks[j as int].text != "}"@ {
                Err(ParseError::Function)
            } else {
                Ok((toks[i as int + 1].text, v, j))
            },
        }
    }
}

/// The rule `program := function`: what a whole parse yields, the
/// function's identifier and its returned value.
pub open spec fn spec_parse(toks: Seq<SpecToken>, i: nat) -> Result<(Seq<char>, u32), ParseError> {
    match spec_parse_function(toks, i) {
        Ok((id, v, _)) => Ok((id, v)),
        Err(e) => Err(e),
    }
}

/// The tree shape of a constant expression holding `v`.
pub open spec fn is_constant_ast(n: NodeType, v: u32) -> bool {
    n matches NodeType::Expression(e) && e.value == v
}

/// The tree shape of a `return v;` statement: exactly one constant child.
pub open spec fn is_statement_ast(n: NodeType, v: u32) -> bool {
    n matches NodeType::Statement(st) && st.children@.len() == 1 && is_constant_ast(
        st.children@[0],
        v,
    )
}

/// The tree shape of a function `id` returning `v`: exactly one statement
/// child.
pub open spec fn is_function_ast(n: NodeType, id: Seq<char>, v: u32) -> bool {
    n matches NodeType::Function(f) && f.id@ == id && f.children@.len() == 1 && is_statement_ast(
        f.children@[0],
        v,
    )
}

/// The tree shape of a whole program: exactly one function child.
pub open spec fn is_program_ast(n: NodeType, id: Seq<char>, v: u32) -> bool {
    n matches NodeType::Program(p) && p.children@.len() == 1 && is_function_ast(
        p.children@[0],
        id,
        v,
    )
}

/// Whether a token's text equals a given literal.
fn token_value_is(t: &Token, lit: &str) -> (b: bool)
    ensures
        b == (t@.text == lit@),
{
    t.value == lit.to_owned()
}

/// The parser: the token sequence under analysis and the cursor into it.
#[derive(Debug, Clone)]
pub struct Parser {
    pub tokens: Vec<Token>,
    pub current: usize,
}

impl Parser {
    /// A fresh parser with the cursor at the first token.
    pub fn new(tokens: Vec<Token>) -> (p: Parser)
        ensures
            p.tokens == tokens,
            p.current == 0,
    {
        Parser { tokens, current: 0 }
    }

    /// Parses a whole program.  The result is exactly what [`spec_parse`]
    /// describes from the current cursor: on success a `Program` tree with
    /// the parsed function's identifier and returned value, otherwise the
    /// error of the first grammar rule that failed.
    pub fn parse(&mut self) -> (r: Result<NodeType, ParseError>)
        ensures
            final(self).tokens == old(self).tokens,
            final(self).current >= old(self).current,
            match (r, spec_parse(toks_view(old(self).tokens@), old(self).current as nat)) {
                (Ok(ast), Ok(res)) => is_program_ast(ast, res.0, res.1),
                (Err(e), Err(se)) => e == se,
                _ => false,
            },
            r is Ok ==> (spec_parse_function(toks_view(old(self).tokens@), old(self).current as nat)
                matches Ok(res) && final(self).current == res.2),
    {
        match self.parse_function() {
            Ok(function) => {
                let ghost f = function;
                let children = vec![function];
                proof {
                    assert(children@ =~= seq![f]);
                }
                Ok(NodeType::Program(ProgramNode::new(children)))
            },
            Err(err) => Err(err),
        }
    }

    /// Parses one function definition.
    fn parse_function(&mut self) -> (r: Result<NodeType, ParseError>)
        ensures
            final(self).tokens == old(self).tokens,
            final(self).current >= old(self).current,
            match (r, spec_parse_function(toks_view(old(self).tokens@), old(self).current as nat)) {
                (Ok(ast), Ok(res)) => is_function_ast(ast, res.0, res.1) && final(self).current
                    == res.2,
                (Err(e), Err(se)) => e == se,
                _ => false,
            },
    {
        if self.current >= self.tokens.len() || !token_value_is(&self.tokens[self.current], "int") {
            return Err(ParseError::Function);
        }
        self.current = self.current + 1;

        if self.current >= self.tokens.len() || self.tokens[self.current].kind
            != TokenType::Identifier {
            return Err(ParseError::Function);
        }
        let id = self.tokens[self.current].value.clone();
        self.current = self.current + 1;

        if self.current >= self.tokens.len() || !token_value_is(&self.tokens[self.current], "(") {
            return Err(ParseError::Function);
        }
        self.current = self.current + 1;

        if self.current >= self.tokens.len() || !token_value_is(&self.tokens[self.current], "void")
            {
            return Err(ParseError::Function);
        }
        self.current = self.current + 1;

        if self.current >= self.tokens.len() || !token_value_is(&self.tokens[self.current], ")") {
            return Err(ParseError::Function);
        }
        self.current = self.current + 1;

        if self.current >= self.tokens.len() || !token_value_is(&self.tokens[self.current], "{") {
            return Err(ParseError::Function);
        }
        self.current = self.current + 1;

        let statement = match self.parse_statement() {
            Err(e) => {
                return Err(e);
            },
            Ok(st) => st,
        };

        if self.current >= self.tokens.len() || !token_value_is(&self.tokens[self.current], "}") {
            return Err(ParseError::Function);
        }

        let ghost st = statement;
        let children = vec![statement];
        proof {
            assert(children@ =~= seq![st]);
        }
        Ok(NodeType::Function(FunctionNode::new(id, children)))
    }

    /// Parses one `return` statement.
    fn parse_statement(&mut self) -> (r: Result<NodeType, ParseError>)
        ensures
            final(self).tokens == old(self).tokens,
            final(self).current >= old(self).current,
            match (r, spec_parse_statement(toks_view(old(self).tokens@), old(self).current as nat))
                {
                (Ok(ast), Ok(res)) => is_statement_ast(ast, res.0) && final(self).current == res.1,
                (Err(e), Err(se)) => e == se,
                _ => false,
            },
    {
        if self.current >= self.tokens.len() || !token_value_is(
            &self.tokens[self.current],
            "return",
        ) {
            return Err(ParseError::Statement);
        }
        self.current = self.current + 1;

        let expression = match self.parse_expression() {
            Err(e) => {
                return Err(e);
            },
            Ok(ex) => ex,
        };

        if self.current >= self.tokens.len() || !token_value_is(&self.tokens[self.current], ";") {
            return Err(ParseError::Statement);
        }
        self.current = self.current + 1;

        let ghost ex = expression;
        let children = vec![expression];
        proof {
            assert(children@ =~= seq![ex]);
        }
        Ok(NodeType::Statement(StatementNode::new(children)))
    }

    /// Parses one integer-constant expression.
    fn parse_expression(&mut self) -> (r: Result<NodeType, ParseError>)
        ensures
            final(self).tokens == old(self).tokens,
            final(self).current >= old(self).current,
            match (r, spec_parse_expression(toks_view(old(self).tokens@), old(self).current as nat))
                {
                (Ok(ast), Ok(res)) => is_constant_ast(ast, res.0) && final(self).current == res.1,
                (Err(e), Err(se)) => e == se,
                _ => false,
            },
    {
        if self.current >= self.tokens.len() || self.tokens[self.current].kind
            != TokenType::Integer {
            return Err(ParseError::Expression);
        }
        let value = match parse_decimal(self.tokens[self.current].value.as_str()) {
            None => {
                return Err(ParseError::Number);
            },
            Some(v) => v,
        };
        self.current = self.current + 1;
        Ok(NodeType::Expression(ExpressionNode::new(value)))
    }
}

/// A well-formed minimal program is exactly ten tokens; cutting the
/// sequence off anywhere before the closing brace makes the parse fail with
/// an error rather than a partial tree.  The first nine tokens are the
/// longest proper prefix, so every shorter truncation fails as well, at an
/// earlier rule.
pub proof fn lemma_parse_fails_on_truncation(toks: Seq<SpecToken>)
    requires
        spec_parse(toks, 0) is Ok,
    ensures
        spec_parse(toks.take(9), 0) == Err::<(Seq<char>, u32), ParseError>(ParseError::Function),
{
    let t9 = toks.take(9);
    assert(spec_parse_function(toks, 0) is Ok);
    assert(spec_parse_statement(toks, 6) is Ok);
    assert(spec_parse_expression(toks, 7) is Ok);
    assert(spec_parse_expression(t9, 7) == spec_parse_expression(toks, 7));
    assert(spec_parse_statement(t9, 6) == spec_parse_statement(toks, 6));
    assert(spec_parse_statement(t9, 6) matches Ok((v, j)) && j == 9);
    assert(spec_parse_function(t9, 0) == Err::<(Seq<char>, u32, nat), ParseError>(
        ParseError::Function,
    ));
}

/// The numeric bound on integer literals: a decimal literal whose value
/// fits in 32 bits parses to exactly that value; one that exceeds the
/// unsigned 32-bit range fails with the numeric-overflow error.
pub proof fn lemma_integer_literal_bound(toks: Seq<SpecToken>, i: nat)
    requires
        i < toks.len(),
        toks[i as int].kind == TokenType::Integer,
        is_decimal_text(toks[i as int].text),
    ensures
        dec_value(toks[i as int].text) <= u32::MAX ==> spec_parse_expression(toks, i) == Ok::<
            (u32, nat),
            ParseError,
        >((dec_value(toks[i as int].text) as u32, (i + 1) as nat)),
        dec_value(toks[i as int].text) > u32::MAX ==> spec_parse_expression(toks, i) == Err::<
            (u32, nat),
            ParseError,
        >(ParseError::Number),
{
}

} // verus!
