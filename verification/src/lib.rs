//! An arithmetic expression calculator: a tokenizer, a recursive-descent
//! parser with the usual precedence and associativity rules, and an exact
//! evaluator over rational numbers.
//!
//! The pipeline is `tokenize` -> `parse` -> `calculate`; `evaluate_expression`
//! runs all three stages on a character sequence.
#![verifier::loop_isolation(false)]

pub mod calculate;
pub mod lexer;
pub mod parser;

use vstd::prelude::*;

use crate::calculate::{sp_eval, EvalError, Rat};
use crate::lexer::{spec_tokenize, LexError, Lexer};
use crate::parser::{spec_parse, ParseError, Parser};

verus! {

/// An error from any stage of the pipeline, tagged with the stage that
/// produced it.
#[derive(Clone, Copy, Debug, PartialEq, Eq, Structural)]
pub enum CalcError {
    Lex(LexError),
    Parse(ParseError),
    Eval(EvalError),
}

/// What `spec_evaluate_expression` yields for a character sequence: the
/// syntax tree and the exact value as a numerator/denominator pair, or the
/// first error any stage reports.
pub open spec fn spec_evaluate_expression(s: Seq<char>) -> Result<
    (crate::parser::Expr, (int, int)),
    CalcError,
> {
    match spec_tokenize(s) {
        Ok(tvs) => match spec_parse(tvs) {
            Ok(e) => match sp_eval(e) {
                Ok(v) => Ok((e, v)),
                Err(er) => Err(CalcError::Eval(er)),
            },
            Err(er) => Err(CalcError::Parse(er)),
        },
        Err((c, p)) => Err(
            CalcError::Lex(LexError::UnexpectedCharacter { character: c, position: p as usize }),
        ),
    }
}

/// Determinism of the pipeline: the outcome — tree, value, or error — is a
/// function of the input text alone, so equal texts always evaluate to equal
/// results.  `evaluate_expression` ensures that its result equals
/// `spec_evaluate_expression` of its input, so two calls on equal inputs
/// agree.
pub proof fn lemma_evaluate_expression_deterministic(s1: Seq<char>, s2: Seq<char>)
    requires
        s1 == s2,
    ensures
        spec_evaluate_expression(s1) == spec_evaluate_expression(s2),
{
}

/// Whitespace insensitivity of the pipeline: inserting a whitespace
/// character at any position that does not split a number's digit run leaves
/// the tokens, the tree, and the value of a valid expression unchanged —
/// texts that differ only in such whitespace produce identical results.
/// Splitting a digit run is excluded because it genuinely changes the
/// expression (it turns one number into two).
pub proof fn lemma_whitespace_insensitive(s: Seq<char>, i: int, c: char)
    requires
        crate::lexer::is_whitespace_char(c),
        0 <= i <= s.len(),
        !(0 < i < s.len() && crate::lexer::is_digit_char(s[i - 1]) && crate::lexer::is_digit_char(
            s[i],
        )),
    ensures
        spec_tokenize(s) is Ok ==> spec_evaluate_expression(s.insert(i, c))
            == spec_evaluate_expression(s),
{
    crate::lexer::lemma_tokenize_whitespace_insensitive(s, i, c);
}

/// The result of a successful evaluation: the syntax tree and the exact
/// rational value of the expression.
#[derive(Debug)]
pub struct Evaluation {
    pub ast: crate::parser::Expr,
    pub value: Rat,
}

/// Runs the whole pipeline on a character sequence: tokenize, parse,
/// evaluate.  Returns the syntax tree together with the exact value, or the
/// first error any stage reports.
pub fn evaluate_expression(input: Vec<char>) -> (r: Result<Evaluation, CalcError>)
    ensures
        match r {
            Ok(ev) => spec_evaluate_expression(input@) == Ok::<_, CalcError>(
                (ev.ast, (ev.value.num as int, ev.value.den as int)),
            ) && ev.value.den != 0,
            Err(er) => spec_evaluate_expression(input@) == Err::<(crate::parser::Expr, (int, int)),
                _,
            >(er),
        },
{
    let mut lexer = Lexer::new(input);
    let tokens = match lexer.tokenize() {
        Ok(ts) => ts,
        Err(er) => {
            return Err(CalcError::Lex(er));
        },
    };
    proof {
        crate::lexer::lemma_tokenize_wf(lexer.input@);
    }
    let mut parser = Parser::new(tokens);
    let ast = match parser.parse() {
        Ok(e) => e,
        Err(er) => {
            return Err(CalcError::Parse(er));
        },
    };
    let value = match crate::calculate::calculate(&ast) {
        Ok(v) => v,
        Err(er) => {
            return Err(CalcError::Eval(er));
        },
    };
    Ok(Evaluation { ast, value })
}

} // verus!
