//! Lexical analysis: a single left-to-right scan that turns source text into
//! a flat, ordered sequence of classified tokens.
//!
//! The mathematical model is [`spec_lex`], a recursive function over the
//! source character sequence; [`Lexer::lex`] is proved to produce exactly the
//! tokens that [`spec_lex`] describes, or to report the one lexical error
//! (a `/` that does not open a `//` line comment).

use crate::numeral::is_digit_char;
use vstd::prelude::*;

verus! {

/// The classification of a token.  `Negation`, `BitwiseComplement` and
/// `LogicalNegation` are recognized for a future grammar extension; the
/// parser does not consume them.
#[derive(Debug, Clone, PartialEq, Eq, Structural)]
pub enum TokenType {
    Keyword,
    Identifier,
    Integer,
    CloseParen,
    OpenParen,
    CloseBrace,
    OpenBrace,
    Semicolon,
    Negation,
    BitwiseComplement,
    LogicalNegation,
}

/// The mathematical view of a token: its kind and its text as a character
/// sequence.
#[verifier::ext_equal]
pub ghost struct SpecToken {
    pub kind: TokenType,
    pub text: Seq<char>,
}

/// A classified, indivisible lexical unit.  The text always reflects the
/// original lexeme exactly and is never mutated after creation.
#[derive(Debug, Clone)]
pub struct Token {
    pub kind: TokenType,
    pub value: String,
}

impl View for Token {
    type V = SpecToken;

    open spec fn view(&self) -> SpecToken {
        SpecToken { kind: self.kind, text: self.value@ }
    }
}

/// The view of a whole token sequence.
pub open spec fn toks_view(ts: Seq<Token>) -> Seq<SpecToken> {
    ts.map_values(|t: Token| t@)
}

/// The lexical error: a `/` that is not followed by a second `/`.
#[derive(Debug, Clone, PartialEq, Eq, Structural)]
pub enum LexError {
    MalformedComment,
}

/// Whether `c` is an ASCII alphabetic character.
pub open spec fn is_alpha_char(c: char) -> bool {
    (65 <= c as u32 <= 90) || (97 <= c as u32 <= 122)
}

/// Whether a lexeme is one of the closed keyword set.
pub open spec fn is_keyword(s: Seq<char>) -> bool {
    s == "int"@ || s == "return"@ || s == "void"@
}

/// A lexeme that lexes as a single identifier: a non-empty run of
/// alphabetic characters that is not a keyword.
pub open spec fn is_identifier_text(s: Seq<char>) -> bool {
    &&& s.len() > 0
    &&& forall|k: int| 0 <= k < s.len() ==> is_alpha_char(#[trigger] s[k])
    &&& !is_keyword(s)
}

/// The end of the maximal run of alphabetic characters starting at `i`.
pub open spec fn alpha_end(s: Seq<char>, i: nat) -> nat
    decreases s.len() - i,
    when i <= s.len()
{
    if i < s.len() && is_alpha_char(s[i as int]) {
        alpha_end(s, i + 1)
    } else {
        i
    }
}

/// The end of the maximal run of decimal digits starting at `i`.
pub open spec fn digit_end(s: Seq<char>, i: nat) -> nat
    decreases s.len() - i,
    when i <= s.len()
{
    if i < s.len() && is_digit_char(s[i as int]) {
        digit_end(s, i + 1)
    } else {
        i
    }
}

/// The position just past the next newline at or after `i`, or the end of
/// the input if no newline follows: where scanning resumes after a comment.
pub open spec fn comment_end(s: Seq<char>, i: nat) -> nat
    decreases s.len() - i,
    when i <= s.len()
{
    if i >= s.len() {
        s.len()
    } else if s[i as int] == '\n' {
        i + 1
    } else {
        comment_end(s, i + 1)
    }
}

/// Prepends one token to a lexing outcome.
pub open spec fn lex_cons(t: SpecToken, rest: Option<Seq<SpecToken>>) -> Option<Seq<SpecToken>> {
    match rest {
        Some(ts) => Some(seq![t] + ts),
        None => None,
    }
}

/// Prepends an already-emitted token sequence to a lexing outcome.
pub open spec fn lex_prefixed(ts: Seq<SpecToken>, rest: Option<Seq<SpecToken>>) -> Option<
    Seq<SpecToken>,
> {
    match rest {
        Some(r) => Some(ts + r),
        None => None,
    }
}

/// The token read at position `i` when `s[i]` starts a maximal alphabetic
/// run ending at `j`: a keyword if the lexeme is in the keyword set, else an
/// identifier.
pub open spec fn alpha_token(s: Seq<char>, i: nat, j: nat) -> SpecToken {
    let text = s.subrange(i as int, j as int);
    SpecToken {
        kind: if is_keyword(text) {
            TokenType::Keyword
        } else {
            TokenType::Identifier
        },
        text,
    }
}

/// The fixed token for a single-character punctuation or operator glyph,
/// or `None` for any other character (which the lexer skips).
pub open spec fn punct_token(c: char) -> Option<SpecToken> {
    if c == '-' {
        Some(SpecToken { kind: TokenType::Negation, text: seq![c] })
    } else if c == '~' {
        Some(SpecToken { kind: TokenType::BitwiseComplement, text: seq![c] })
    } else if c == '!' {
        Some(SpecToken { kind: TokenType::LogicalNegation, text: seq![c] })
    } else if c == ';' {
        Some(SpecToken { kind: TokenType::Semicolon, text: seq![c] })
    } else if c == '{' {
        Some(SpecToken { kind: TokenType::OpenBrace, text: seq![c] })
    } else if c == '}' {
        Some(SpecToken { kind: TokenType::CloseBrace, text: seq![c] })
    } else if c == '(' {
        Some(SpecToken { kind: TokenType::OpenParen, text: seq![c] })
    } else if c == ')' {
        Some(SpecToken { kind: TokenType::CloseParen, text: seq![c] })
    } else {
        None
    }
}

/// The tokens of `s` from position `i` on, or `None` on a malformed comment
/// opener.  Alphabetic and digit runs follow maximal munch; `//` comments
/// are consumed through the end of the line; every other unrecognized
/// character (whitespace included) is skipped without a token.
pub open spec fn spec_lex(s: Seq<char>, i: nat) -> Option<Seq<SpecToken>>
    decreases s.len() - i,
    when i <= s.len()
    via spec_lex_decreases
{
    if i >= s.len() {
        Some(Seq::empty())
    } else {
        let c = s[i as int];
        if c == '/' {
            if i + 1 < s.len() && s[i as int + 1] == '/' {
                spec_lex(s, comment_end(s, i + 2))
            } else {
                None
            }
        } else if is_alpha_char(c) {
            lex_cons(alpha_token(s, i, alpha_end(s, i)), spec_lex(s, alpha_end(s, i)))
        } else if is_digit_char(c) {
            lex_cons(
                SpecToken {
                    kind: TokenType::Integer,
                    text: s.subrange(i as int, digit_end(s, i) as int),
                },
                spec_lex(s, digit_end(s, i)),
            )
        } else {
            match punct_token(c) {
                Some(t) => lex_cons(t, spec_lex(s, i + 1)),
                None => spec_lex(s, i + 1),
            }
        }
    }
}

#[via_fn]
proof fn spec_lex_decreases(s: Seq<char>, i: nat) {
    if i < s.len() {
        lemma_alpha_end_bounds(s, i);
        lemma_digit_end_bounds(s, i);
        if i + 2 <= s.len() {
            lemma_comment_end_bounds(s, (i + 2) as nat);
        }
    }
}

/// The maximal alphabetic run: every character before `alpha_end` is
/// alphabetic and the run stops only at the end of input or at the first
/// non-alphabetic character.
pub proof fn lemma_alpha_end_bounds(s: Seq<char>, i: nat)
    requires
        i <= s.len(),
    ensures
        i <= alpha_end(s, i) <= s.len(),
        forall|k: int| i <= k < alpha_end(s, i) ==> #[trigger] is_alpha_char(s[k]),
        alpha_end(s, i) < s.len() ==> !is_alpha_char(s[alpha_end(s, i) as int]),
        i < s.len() && is_alpha_char(s[i as int]) ==> alpha_end(s, i) > i,
    decreases s.len() - i,
{
    if i < s.len() && is_alpha_char(s[i as int]) {
        lemma_alpha_end_bounds(s, i + 1);
    }
}

/// A run known to be alphabetic on `[i, j)` and stopped at `j` is exactly
/// the maximal run.
pub proof fn lemma_alpha_end_is(s: Seq<char>, i: nat, j: nat)
    requires
        i <= j <= s.len(),
        forall|k: int| i <= k < j ==> #[trigger] is_alpha_char(s[k]),
        j < s.len() ==> !is_alpha_char(s[j as int]),
    ensures
        alpha_end(s, i) == j,
    decreases j - i,
{
    if i < j {
        lemma_alpha_end_is(s, i + 1, j);
    }
}

/// The maximal digit run, as [`lemma_alpha_end_bounds`] for digits.
pub proof fn lemma_digit_end_bounds(s: Seq<char>, i: nat)
    requires
        i <= s.len(),
    ensures
        i <= digit_end(s, i) <= s.len(),
        forall|k: int| i <= k < digit_end(s, i) ==> #[trigger] is_digit_char(s[k]),
        digit_end(s, i) < s.len() ==> !is_digit_char(s[digit_end(s, i) as int]),
        i < s.len() && is_digit_char(s[i as int]) ==> digit_end(s, i) > i,
    decreases s.len() - i,
{
    if i < s.len() && is_digit_char(s[i as int]) {
        lemma_digit_end_bounds(s, i + 1);
    }
}

/// A run known to be digits on `[i, j)` and stopped at `j` is exactly the
/// maximal run.
pub proof fn lemma_digit_end_is(s: Seq<char>, i: nat, j: nat)
    requires
        i <= j <= s.len(),
        forall|k: int| i <= k < j ==> #[trigger] is_digit_char(s[k]),
        j < s.len() ==> !is_digit_char(s[j as int]),
    ensures
        digit_end(s, i) == j,
    decreases j - i,
{
    if i < j {
        lemma_digit_end_is(s, i + 1, j);
    }
}

/// Where a comment ends: within bounds, and past its starting point.
pub proof fn lemma_comment_end_bounds(s: Seq<char>, i: nat)
    requires
        i <= s.len(),
    ensures
        i <= comment_end(s, i) <= s.len(),
    decreases s.len() - i,
{
    if i < s.len() && s[i as int] != '\n' {
        lemma_comment_end_bounds(s, i + 1);
    }
}

/// A scan that saw no newline on `[i, j)` and stopped at `j` determines the
/// comment's end: just past the newline at `j`, or the end of the input.
pub proof fn lemma_comment_end_is(s: Seq<char>, i: nat, j: nat)
    requires
        i <= j <= s.len(),
        forall|k: int| i <= k < j ==> (#[trigger] s[k]) != '\n',
        j < s.len() ==> s[j as int] == '\n',
    ensures
        comment_end(s, i) == if j < s.len() {
            j + 1
        } else {
            s.len()
        },
    decreases j - i,
{
    if i < j {
        lemma_comment_end_is(s, i + 1, j);
    }
}

/// The keyword/identifier boundary, by maximal munch: a source text that
/// is one unbroken alphabetic run lexes to a single token covering the
/// whole run — a keyword exactly when the run is `int`, `return` or
/// `void`, and a single identifier otherwise (so `intx` or `returning` is
/// one identifier, never a keyword prefix followed by more).
pub proof fn lemma_lex_alpha_run(s: Seq<char>)
    requires
        s.len() > 0,
        forall|k: int| 0 <= k < s.len() ==> is_alpha_char(#[trigger] s[k]),
    ensures
        spec_lex(s, 0) == Some(seq![alpha_token(s, 0, s.len())]),
        alpha_token(s, 0, s.len()).text == s,
        alpha_token(s, 0, s.len()).kind == if is_keyword(s) {
            TokenType::Keyword
        } else {
            TokenType::Identifier
        },
{
    lemma_alpha_end_is(s, 0, s.len());
    assert(s.subrange(0, s.len() as int) =~= s);
    assert(spec_lex(s, s.len()) == Some(Seq::<SpecToken>::empty()));
    assert(seq![alpha_token(s, 0, s.len())] + Seq::<SpecToken>::empty() =~= seq![
        alpha_token(s, 0, s.len()),
    ]);
}

/// Emitting one more token commutes with prepending it to the remaining
/// outcome.
proof fn lemma_lex_prefixed_push(ts: Seq<SpecToken>, t: SpecToken, rest: Option<Seq<SpecToken>>)
    ensures
        lex_prefixed(ts.push(t), rest) == lex_prefixed(ts, lex_cons(t, rest)),
{
    match rest {
        Some(r) => {
            assert(ts.push(t) + r =~= ts + (seq![t] + r));
        },
        None => {},
    }
}

/// Pushing a token onto a vector extends the viewed sequence with its view.
proof fn lemma_toks_view_push(ts: Seq<Token>, t: Token)
    ensures
        toks_view(ts.push(t)) == toks_view(ts).push(t@),
{
    assert(toks_view(ts.push(t)) =~= toks_view(ts).push(t@));
}

/// Whether a lexeme equals one of the keywords `int`, `return`, `void`.
fn is_keyword_text(t: &String) -> (b: bool)
    ensures
        b == is_keyword(t@),
{
    *t == "int".to_owned() || *t == "return".to_owned() || *t == "void".to_owned()
}

/// Whether `c` is an ASCII alphabetic character.
fn char_is_alpha(c: char) -> (b: bool)
    ensures
        b == is_alpha_char(c),
{
    let u: u32 = c as u32;
    (65 <= u && u <= 90) || (97 <= u && u <= 122)
}

/// Whether `c` is a decimal digit character.
fn char_is_digit(c: char) -> (b: bool)
    ensures
        b == is_digit_char(c),
{
    let u: u32 = c as u32;
    48 <= u && u <= 57
}

/// The lexer: the source text under analysis and the tokens produced so far,
/// in encounter order.
#[derive(Debug, Clone)]
pub struct Lexer {
    pub source: String,
    pub tokens: Vec<Token>,
}

impl Lexer {
    /// A fresh lexer over `src` with no tokens produced yet.
    pub fn new(src: &String) -> (l: Lexer)
        ensures
            l.source@ == src@,
            l.tokens@ == Seq::<Token>::empty(),
    {
        Lexer { source: src.clone(), tokens: Vec::<Token>::new() }
    }

    /// Scans the whole source.  On success the produced tokens are appended
    /// to `tokens`, and are exactly the tokens of [`spec_lex`]; on a
    /// malformed comment opener the lexer is left unchanged and the one
    /// lexical error is returned.
    pub fn lex(&mut self) -> (r: Result<(), LexError>)
        ensures
            final(self).source@ == old(self).source@,
            match r {
                Ok(_) => {
                    &&& final(self).tokens@.len() >= old(self).tokens@.len()
                    &&& final(self).tokens@.take(old(self).tokens@.len() as int) == old(
                        self,
                    ).tokens@
                    &&& spec_lex(old(self).source@, 0) matches Some(ts) && toks_view(
                        final(self).tokens@.skip(old(self).tokens@.len() as int),
                    ) == ts
                },
                Err(e) => {
                    &&& spec_lex(old(self).source@, 0) is None
                    &&& e == LexError::MalformedComment
                    &&& *final(self) == *old(self)
                },
            },
    {
        let ghost s: Seq<char> = self.source@;
        let ghost toks0: Seq<Token> = self.tokens@;
        let len: usize = self.source.unicode_len();
        let mut toks: Vec<Token> = Vec::<Token>::new();
        let mut i: usize = 0;
        while i < len
            invariant
                len == s.len(),
                i <= len,
                self.source@ == s,
                self.tokens@ == toks0,
                lex_prefixed(toks_view(toks@), spec_lex(s, i as nat)) == spec_lex(s, 0),
            decreases len - i,
        {
            let c = self.source.as_str().get_char(i);
            if c == '/' {
                if i + 1 >= len || self.source.as_str().get_char(i + 1) != '/' {
                    assert(spec_lex(s, i as nat) is None);
                    return Err(LexError::MalformedComment);
                }
                let mut j: usize = i + 2;
                while j < len && self.source.as_str().get_char(j) != '\n'
                    invariant
                        len == s.len(),
                        self.source@ == s,
                        i + 2 <= j <= len,
                        forall|k: int| i + 2 <= k < j ==> (#[trigger] s[k]) != '\n',
                    decreases len - j,
                {
                    j = j + 1;
                }
                proof {
                    lemma_comment_end_is(s, (i + 2) as nat, j as nat);
                }
                if j < len {
                    i = j + 1;
                } else {
                    i = j;
                }
            } else {
                if char_is_alpha(c) {
                    let mut y: usize = i;
                    while y < len && char_is_alpha(self.source.as_str().get_char(y))
                        invariant
                            len == s.len(),
                            self.source@ == s,
                            i <= y <= len,
                            forall|k: int| i <= k < y ==> #[trigger] is_alpha_char(s[k]),
                        decreases len - y,
                    {
                        y = y + 1;
                    }
                    proof {
                        lemma_alpha_end_is(s, i as nat, y as nat);
                    }
                    let text = self.source.as_str().substring_char(i, y).to_owned();
                    let kind = if is_keyword_text(&text) {
                        TokenType::Keyword
                    } else {
                        TokenType::Identifier
                    };
                    let t = Token { kind, value: text };
                    proof {
                        assert(t@ =~= alpha_token(s, i as nat, y as nat));
                        lemma_toks_view_push(toks@, t);
                        lemma_lex_prefixed_push(toks_view(toks@), t@, spec_lex(s, y as nat));
                    }
                    toks.push(t);
                    i = y;
                } else if char_is_digit(c) {
                    let mut y: usize = i;
                    while y < len && char_is_digit(self.source.as_str().get_char(y))
                        invariant
                            len == s.len(),
                            self.source@ == s,
                            i <= y <= len,
                            forall|k: int| i <= k < y ==> #[trigger] is_digit_char(s[k]),
                        decreases len - y,
                    {
                        y = y + 1;
                    }
                    proof {
                        lemma_digit_end_is(s, i as nat, y as nat);
                    }
                    let text = self.source.as_str().substring_char(i, y).to_owned();
                    let t = Token { kind: TokenType::Integer, value: text };
                    proof {
                        assert(t@ =~= SpecToken {
                            kind: TokenType::Integer,
                            text: s.subrange(i as int, y as int),
                        });
                        lemma_toks_view_push(toks@, t);
                        lemma_lex_prefixed_push(toks_view(toks@), t@, spec_lex(s, y as nat));
                    }
                    toks.push(t);
                    i = y;
                } else {
                    let punct: Option<Token> = if c == '-' {
                        Some(Token { kind: TokenType::Negation, value: "-".to_owned() })
                    } else if c == '~' {
                        Some(Token { kind: TokenType::BitwiseComplement, value: "~".to_owned() })
                    } else if c == '!' {
                        Some(Token { kind: TokenType::LogicalNegation, value: "!".to_owned() })
                    } else if c == ';' {
                        Some(Token { kind: TokenType::Semicolon, value: ";".to_owned() })
                    } else if c == '{' {
                        Some(Token { kind: TokenType::OpenBrace, value: "{".to_owned() })
                    } else if c == '}' {
                        Some(Token { kind: TokenType::CloseBrace, value: "}".to_owned() })
                    } else if c == '(' {
                        Some(Token { kind: TokenType::OpenParen, value: "(".to_owned() })
                    } else if c == ')' {
                        Some(Token { kind: TokenType::CloseParen, value: ")".to_owned() })
                    } else {
                        None
                    };
                    match punct {
                        Some(t) => {
                            proof {
                                reveal_strlit("-");
                                reveal_strlit("~");
                                reveal_strlit("!");
                                reveal_strlit(";");
                                reveal_strlit("{");
                                reveal_strlit("}");
                                reveal_strlit("(");
                                reveal_strlit(")");
                                assert(t@.text =~= seq![c]);
                                assert(punct_token(c) == Some(t@));
                                lemma_toks_view_push(toks@, t);
                                lemma_lex_prefixed_push(
                                    toks_view(toks@),
                                    t@,
                                    spec_lex(s, i as nat + 1),
                                );
                            }
                            toks.push(t);
                        },
                        None => {
                            assert(punct_token(c) is None);
                        },
                    }
                    i = i + 1;
                }
            }
        }
        proof {
            assert(spec_lex(s, i as nat) == Some(Seq::<SpecToken>::empty()));
            assert(toks_view(toks@) + Seq::<SpecToken>::empty() =~= toks_view(toks@));
            assert(spec_lex(s, 0) == Some(toks_view(toks@)));
        }
        let ghost emitted: Seq<Token> = toks@;
        self.tokens.append(&mut toks);
        proof {
            assert(self.tokens@ == toks0 + emitted);
            assert((toks0 + emitted).take(toks0.len() as int) =~= toks0);
            assert((toks0 + emitted).skip(toks0.len() as int) =~= emitted);
        }
        Ok(())
    }
}

} // verus!
