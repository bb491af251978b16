//! The evaluator: a post-order walk that reduces a syntax tree to one exact
//! rational value.
//!
//! Numbers are kept as numerator/denominator pairs of machine integers, so
//! every result is exact; division by zero and results that no longer fit the
//! machine integers are reported as structured errors, never returned as
//! partial values.
use vstd::prelude::*;

use crate::parser::{BinOp, Expr};

verus! {

/// An exact rational value: `num / den`, with `den` never zero.  The pair is
/// not reduced; `eq_int` compares by value.
#[derive(Clone, Copy, Debug, PartialEq, Eq, Structural)]
pub struct Rat {
    pub num: i64,
    pub den: i64,
}

/// An error of the evaluator.
#[derive(Clone, Copy, Debug, PartialEq, Eq, Structural)]
pub enum EvalError {
    /// A division whose divisor evaluates to zero.
    DivisionByZero,
    /// A numerator or denominator that no longer fits the machine integer a
    /// value holds.
    Overflow,
}

/// Whether a mathematical integer fits the machine integer a `Rat` holds.
pub open spec fn in_i64(x: int) -> bool {
    i64::MIN <= x <= i64::MAX
}

/// Combining two exact rationals `ln/ld` and `rn/rd` with one operator:
/// division by a zero divisor is an error; so is a numerator or denominator
/// outside the machine range; anything else yields the exact cross-multiplied
/// pair.
pub open spec fn sp_combine(ln: int, ld: int, rn: int, rd: int, op: BinOp) -> Result<
    (int, int),
    EvalError,
> {
    if op == BinOp::Div && rn == 0 {
        Err(EvalError::DivisionByZero)
    } else {
        let n = match op {
            BinOp::Add => ln * rd + rn * ld,
            BinOp::Sub => ln * rd - rn * ld,
            BinOp::Mul => ln * rn,
            BinOp::Div => ln * rd,
        };
        let d = if op == BinOp::Div {
            ld * rn
        } else {
            ld * rd
        };
        if in_i64(n) && in_i64(d) {
            Ok((n, d))
        } else {
            Err(EvalError::Overflow)
        }
    }
}

/// The exact value of a tree as a numerator/denominator pair, or the first
/// error of the post-order walk: the left subtree's error first, then the
/// right subtree's, then the node's own.
pub open spec fn sp_eval(e: Expr) -> Result<(int, int), EvalError>
    decreases e,
{
    match e {
        Expr::Number(v) => Ok((v as int, 1)),
        Expr::BinaryExpr { left, operator, right } => match sp_eval(*left) {
            Ok((ln, ld)) => match sp_eval(*right) {
                Ok((rn, rd)) => sp_combine(ln, ld, rn, rd, operator),
                Err(er) => Err(er),
            },
            Err(er) => Err(er),
        },
    }
}

/// A denominator that `sp_eval` accepts is never zero.
pub proof fn lemma_sp_eval_den_nonzero(e: Expr)
    ensures
        sp_eval(e) matches Ok((n, d)) ==> d != 0,
    decreases e,
{
    match e {
        Expr::Number(_) => {
        },
        Expr::BinaryExpr { left, operator, right } => {
            lemma_sp_eval_den_nonzero(*left);
            lemma_sp_eval_den_nonzero(*right);
            if sp_eval(*left) matches Ok((ln, ld)) && sp_eval(*right) matches Ok((rn, rd)) {
                let (ln, ld) = sp_eval(*left)->Ok_0;
                let (rn, rd) = sp_eval(*right)->Ok_0;
                if !(operator == BinOp::Div && rn == 0) {
                    let d = if operator == BinOp::Div {
                        ld * rn
                    } else {
                        ld * rd
                    };
                    if operator == BinOp::Div {
                        assert(ld * rn != 0) by (nonlinear_arith)
                            requires
                                ld != 0,
                                rn != 0,
                        ;
                    } else {
                        assert(ld * rd != 0) by (nonlinear_arith)
                            requires
                                ld != 0,
                                rd != 0,
                        ;
                    }
                }
            }
        },
    }
}

/// A product of two values of the machine range stays well inside the wide
/// intermediate range.
proof fn lemma_prod_in_i128(a: int, b: int)
    requires
        in_i64(a),
        in_i64(b),
    ensures
        i128::MIN <= a * b <= i128::MAX,
{
    assert(-0x4000_0000_0000_0000_0000_0000_0000_0000 <= a * b
        <= 0x4000_0000_0000_0000_0000_0000_0000_0000) by (nonlinear_arith)
        requires
            -0x8000_0000_0000_0000 <= a <= 0x7fff_ffff_ffff_ffff,
            -0x8000_0000_0000_0000 <= b <= 0x7fff_ffff_ffff_ffff,
    ;
}

impl Rat {
    /// Whether this rational equals a whole number, compared by value:
    /// `num / den == n` exactly.
    pub fn eq_int(&self, n: i64) -> (r: bool)
        requires
            self.den != 0,
        ensures
            r == (self.num as int == n as int * self.den as int),
    {
        proof {
            lemma_prod_in_i128(n as int, self.den as int);
        }
        (self.num as i128) == (n as i128) * (self.den as i128)
    }
}

/// Combines two evaluated operands with one operator, exactly as
/// `sp_combine` says: the products are taken in a wide intermediate type and
/// the result must fit back into the machine range.
pub fn calculate_binary_expr(left: Rat, right: Rat, operator: BinOp) -> (r: Result<Rat, EvalError>)
    requires
        left.den != 0,
        right.den != 0,
    ensures
        match r {
            Ok(v) => sp_combine(
                left.num as int,
                left.den as int,
                right.num as int,
                right.den as int,
                operator,
            ) == Ok::<_, EvalError>((v.num as int, v.den as int)) && v.den != 0,
            Err(er) => sp_combine(
                left.num as int,
                left.den as int,
                right.num as int,
                right.den as int,
                operator,
            ) == Err::<(int, int), _>(er),
        },
{
    if operator == BinOp::Div && right.num == 0 {
        return Err(EvalError::DivisionByZero);
    }
    let ln = left.num as i128;
    let ld = left.den as i128;
    let rn = right.num as i128;
    let rd = right.den as i128;
    proof {
        lemma_prod_in_i128(left.num as int, right.den as int);
        lemma_prod_in_i128(right.num as int, left.den as int);
        lemma_prod_in_i128(left.num as int, right.num as int);
        lemma_prod_in_i128(left.den as int, right.den as int);
        lemma_prod_in_i128(left.den as int, right.num as int);
    }
    let n_wide: Option<i128> = match operator {
        BinOp::Add => (ln * rd).checked_add(rn * ld),
        BinOp::Sub => (ln * rd).checked_sub(rn * ld),
        BinOp::Mul => Some(ln * rn),
        BinOp::Div => Some(ln * rd),
    };
    let d_wide: i128 = if operator == BinOp::Div {
        ld * rn
    } else {
        ld * rd
    };
    let n = match n_wide {
        Some(x) => x,
        None => {
            return Err(EvalError::Overflow);
        },
    };
    if n < i64::MIN as i128 || n > i64::MAX as i128 || d_wide < i64::MIN as i128 || d_wide
        > i64::MAX as i128 {
        return Err(EvalError::Overflow);
    }
    let v = Rat { num: n as i64, den: d_wide as i64 };
    proof {
        if operator == BinOp::Div {
            assert((left.den as int) * (right.num as int) != 0) by (nonlinear_arith)
                requires
                    left.den as int != 0,
                    right.num as int != 0,
            ;
        } else {
            assert((left.den as int) * (right.den as int) != 0) by (nonlinear_arith)
                requires
                    left.den as int != 0,
                    right.den as int != 0,
            ;
        }
    }
    Ok(v)
}

/// Evaluates a tree bottom-up: a leaf is its value over one; an inner node
/// combines its children's exact values.  The result is exactly what
/// `sp_eval` says.
pub fn calculate_expr(expr: &Expr) -> (r: Result<Rat, EvalError>)
    ensures
        match r {
            Ok(v) => sp_eval(*expr) == Ok::<_, EvalError>((v.num as int, v.den as int)) && v.den
                != 0,
            Err(er) => sp_eval(*expr) == Err::<(int, int), _>(er),
        },
    decreases *expr,
{
    match expr {
        Expr::Number(v) => Ok(Rat { num: *v, den: 1 }),
        Expr::BinaryExpr { left, operator, right } => {
            let l = match calculate_expr(&**left) {
                Ok(v) => v,
                Err(er) => {
                    return Err(er);
                },
            };
            let r = match calculate_expr(&**right) {
                Ok(v) => v,
                Err(er) => {
                    return Err(er);
                },
            };
            calculate_binary_expr(l, r, *operator)
        },
    }
}

/// Evaluates a whole syntax tree to its exact rational value, or the first
/// arithmetic error of the walk.
pub fn calculate(expr: &Expr) -> (r: Result<Rat, EvalError>)
    ensures
        match r {
            Ok(v) => sp_eval(*expr) == Ok::<_, EvalError>((v.num as int, v.den as int)) && v.den
                != 0,
            Err(er) => sp_eval(*expr) == Err::<(int, int), _>(er),
        },
{
    calculate_expr(expr)
}

} // verus!
