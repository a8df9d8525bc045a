//! Code generation: a structural recursive walk over the abstract syntax
//! tree that emits x86-64 assembly text.
//!
//! The mathematical model is [`spec_generate`]; [`CodeGenerator::generate`]
//! is proved to emit exactly that text.  Generation is a pure function of
//! the tree: identical trees always produce byte-identical text.

use crate::numeral::dec_text;
use crate::numeral::to_decimal;
use crate::parser::NodeType;
use crate::parser::is_program_ast;
use vstd::prelude::*;

verus! {

/// A code-generation error: a tree shape the generator does not know how
/// to emit (a `return` statement whose child is not a constant).
#[derive(Debug, Clone, PartialEq, Eq, Structural)]
pub enum CodeGenError {
    NotAConstant,
}

/// The global-symbol declaration and label emitted for a function named
/// `id`.
pub open spec fn decl_text(id: Seq<char>) -> Seq<char> {
    "\t.globl "@ + id + "\n"@ + id + ":\n"@
}

/// The two instructions emitted for `return v;`: load the constant into
/// the return-value register, then return.
pub open spec fn mov_text(v: u32) -> Seq<char> {
    "\tmov\t$"@ + dec_text(v as nat) + ", %rax\n\tret\n"@
}

/// The text generated for a program's children, concatenated in order;
/// the first failing child aborts generation.
pub open spec fn spec_gen_program_children(s: Seq<NodeType>) -> Result<Seq<char>, CodeGenError>
    decreases s,
{
    if s.len() == 0 {
        Ok(Seq::empty())
    } else {
        match spec_generate(s[0]) {
            Err(e) => Err(e),
            Ok(code) => match spec_gen_program_children(s.subrange(1, s.len() as int)) {
                Err(e) => Err(e),
                Ok(rest) => Ok(code + rest),
            },
        }
    }
}

/// The text generated for a function's children: a declaration and label
/// for `id` before each child's code.
pub open spec fn spec_gen_function_children(id: Seq<char>, s: Seq<NodeType>) -> Result<
    Seq<char>,
    CodeGenError,
>
    decreases s,
{
    if s.len() == 0 {
        Ok(Seq::empty())
    } else {
        match spec_generate(s[0]) {
            Err(e) => Err(e),
            Ok(code) => match spec_gen_function_children(id, s.subrange(1, s.len() as int)) {
                Err(e) => Err(e),
                Ok(rest) => Ok(decl_text(id) + code + rest),
            },
        }
    }
}

/// The assembly text of a tree, or the error for a `return` statement
/// whose child is not a constant.  A standalone constant emits no code.
pub open spec fn spec_generate(n: NodeType) -> Result<Seq<char>, CodeGenError>
    decreases n,
{
    match n {
        NodeType::Program(p) => spec_gen_program_children(p.children@),
        NodeType::Function(f) => spec_gen_function_children(f.id@, f.children@),
        NodeType::Statement(st) => if st.children@.len() >= 1 {
            match st.children@[0] {
                NodeType::Expression(e) => Ok(mov_text(e.value)),
                _ => Err(CodeGenError::NotAConstant),
            }
        } else {
            Err(CodeGenError::NotAConstant)
        },
        NodeType::Expression(_) => Ok(Seq::empty()),
    }
}

/// Prepends already-emitted text to a generation outcome.
pub open spec fn gen_prefixed(pre: Seq<char>, rest: Result<Seq<char>, CodeGenError>) -> Result<
    Seq<char>,
    CodeGenError,
> {
    match rest {
        Ok(t) => Ok(pre + t),
        Err(e) => Err(e),
    }
}

/// Prepending no text changes nothing.
proof fn lemma_gen_prefixed_empty(rest: Result<Seq<char>, CodeGenError>)
    ensures
        gen_prefixed(Seq::empty(), rest) == rest,
{
    match rest {
        Ok(t) => {
            assert(Seq::<char>::empty() + t =~= t);
        },
        Err(_) => {},
    }
}

/// Emitting one more piece of text commutes with prepending it to the
/// remaining outcome.
proof fn lemma_gen_prefixed_extend(
    pre: Seq<char>,
    mid: Seq<char>,
    rest: Result<Seq<char>, CodeGenError>,
)
    ensures
        gen_prefixed(pre + mid, rest) == gen_prefixed(pre, gen_prefixed(mid, rest)),
{
    match rest {
        Ok(t) => {
            assert((pre + mid) + t =~= pre + (mid + t));
        },
        Err(_) => {},
    }
}

/// The code generator.  It holds no state: generation is a pure function
/// of the tree it is given.
#[derive(Debug, Clone)]
pub struct CodeGenerator;

impl CodeGenerator {
    /// Emits the assembly text of `ast`, exactly as [`spec_generate`]
    /// describes it.
    #[verifier::loop_isolation(false)]
    pub fn generate(ast: &NodeType) -> (r: Result<String, CodeGenError>)
        ensures
            match (r, spec_generate(*ast)) {
                (Ok(code), Ok(text)) => code@ == text,
                (Err(e), Err(se)) => e == se,
                _ => false,
            },
        decreases *ast,
    {
        let mut out = String::new();
        match ast {
            NodeType::Program(program) => {
                let n = program.children.len();
                let mut i: usize = 0;
                proof {
                    assert(program.children@.skip(0) =~= program.children@);
                    lemma_gen_prefixed_empty(spec_gen_program_children(program.children@));
                }
                while i < n
                    invariant
                        i <= n,
                        gen_prefixed(out@, spec_gen_program_children(program.children@.skip(i as int)))
                            == spec_gen_program_children(program.children@),
                    decreases n - i,
                {
                    let ghost tail = program.children@.skip(i as int);
                    proof {
                        assert(tail[0] == program.children@[i as int]);
                        assert(tail.subrange(1, tail.len() as int) =~= program.children@.skip(
                            i as int + 1,
                        ));
                    }
                    let code = match CodeGenerator::generate(&program.children[i]) {
                        Ok(code) => code,
                        Err(error) => {
                            return Err(error);
                        },
                    };
                    proof {
                        lemma_gen_prefixed_extend(
                            out@,
                            code@,
                            spec_gen_program_children(program.children@.skip(i as int + 1)),
                        );
                    }
                    out.append(code.as_str());
                    i = i + 1;
                }
                proof {
                    assert(program.children@.skip(n as int) =~= Seq::<NodeType>::empty());
                    assert(out@ + Seq::<char>::empty() =~= out@);
                }
            },
            NodeType::Function(function) => {
                let n = function.children.len();
                let mut i: usize = 0;
                proof {
                    assert(function.children@.skip(0) =~= function.children@);
                    lemma_gen_prefixed_empty(
                        spec_gen_function_children(function.id@, function.children@),
                    );
                }
                while i < n
                    invariant
                        i <= n,
                        gen_prefixed(
                            out@,
                            spec_gen_function_children(
                                function.id@,
                                function.children@.skip(i as int),
                            ),
                        ) == spec_gen_function_children(function.id@, function.children@),
                    decreases n - i,
                {
                    let ghost tail = function.children@.skip(i as int);
                    proof {
                        assert(tail[0] == function.children@[i as int]);
                        assert(tail.subrange(1, tail.len() as int) =~= function.children@.skip(
                            i as int + 1,
                        ));
                    }
                    let ghost out0 = out@;
                    out.append("\t.globl ");
                    out.append(function.id.as_str());
                    out.append("\n");
                    out.append(function.id.as_str());
                    out.append(":\n");
                    proof {
                        assert(out@ =~= out0 + decl_text(function.id@));
                    }
                    let code = match CodeGenerator::generate(&function.children[i]) {
                        Ok(code) => code,
                        Err(error) => {
                            return Err(error);
                        },
                    };
                    proof {
                        assert(out0 + (decl_text(function.id@) + code@) =~= (out0 + decl_text(
                            function.id@,
                        )) + code@);
                        lemma_gen_prefixed_extend(
                            out0,
                            decl_text(function.id@) + code@,
                            spec_gen_function_children(
                                function.id@,
                                function.children@.skip(i as int + 1),
                            ),
                        );
                    }
                    out.append(code.as_str());
                    i = i + 1;
                }
                proof {
                    assert(function.children@.skip(n as int) =~= Seq::<NodeType>::empty());
                    assert(out@ + Seq::<char>::empty() =~= out@);
                }
            },
            NodeType::Statement(statement) => {
                if statement.children.len() == 0 {
                    return Err(CodeGenError::NotAConstant);
                }
                let value = match &statement.children[0] {
                    NodeType::Expression(expression) => expression.value,
                    _ => {
                        return Err(CodeGenError::NotAConstant);
                    },
                };
                out.append("\tmov\t$");
                let num = to_decimal(value);
                out.append(num.as_str());
                out.append(", %rax\n\tret\n");
                proof {
                    assert(out@ =~= mov_text(value));
                }
            },
            NodeType::Expression(_) => {},
        }
        Ok(out)
    }
}

/// The assembly of a well-formed program tree for a function `id`
/// returning `v`: the declaration and label for `id`, then the return of
/// `v`.  In particular, code generation cannot fail on a tree the parser
/// produced.
pub proof fn lemma_spec_generate_program(ast: NodeType, id: Seq<char>, v: u32)
    requires
        is_program_ast(ast, id, v),
    ensures
        spec_generate(ast) == Ok::<Seq<char>, CodeGenError>(decl_text(id) + mov_text(v)),
{
    let p = ast->Program_0;
    let f = p.children@[0]->Function_0;
    let st = f.children@[0];
    assert(spec_generate(st) == Ok::<Seq<char>, CodeGenError>(mov_text(v)));
    assert(spec_gen_function_children(id, Seq::<NodeType>::empty()) == Ok::<
        Seq<char>,
        CodeGenError,
    >(Seq::empty()));
    assert(spec_gen_program_children(Seq::<NodeType>::empty()) == Ok::<Seq<char>, CodeGenError>(
        Seq::empty(),
    ));
    assert(f.children@.subrange(1, f.children@.len() as int) =~= Seq::<NodeType>::empty());
    assert(spec_gen_function_children(id, f.children@) == Ok::<Seq<char>, CodeGenError>(
        decl_text(id) + mov_text(v) + Seq::<char>::empty(),
    ));
    assert(decl_text(id) + mov_text(v) + Seq::<char>::empty() =~= decl_text(id) + mov_text(v));
    assert(spec_gen_function_children(id, f.children@) == Ok::<Seq<char>, CodeGenError>(
        decl_text(id) + mov_text(v),
    ));
    assert(spec_generate(p.children@[0]) == Ok::<Seq<char>, CodeGenError>(
        decl_text(id) + mov_text(v),
    ));
    assert(p.children@.subrange(1, p.children@.len() as int) =~= Seq::<NodeType>::empty());
    assert(spec_gen_program_children(p.children@) == Ok::<Seq<char>, CodeGenError>(
        (decl_text(id) + mov_text(v)) + Seq::<char>::empty(),
    ));
    assert((decl_text(id) + mov_text(v)) + Seq::<char>::empty() =~= decl_text(id) + mov_text(v));
}

} // verus!
