//! Literal expressions inside VALUES, and their evaluation to the
//! text form a cell is stored in.

use vstd::prelude::*;
use crate::text::{dec_text_signed, format_i64, int_literal, parse_int_literal};

verus! {

/// A binary arithmetic operator over integer literals.
#[derive(Clone, Copy, PartialEq, Eq, Structural, Debug)]
pub enum ArithOp {
    Plus,
    Minus,
    Multiply,
    Divide,
    Modulus,
}

/// An expression inside a VALUES row, as the statement reader hands
/// it over.
#[derive(PartialEq, Eq, Debug)]
pub enum Expr {
    /// A numeric literal, kept as its source text.
    Number(String),
    /// A single-quoted string literal, unquoted.
    StringLiteral(String),
    /// A boolean literal.
    Bool(bool),
    /// `CAST(inner AS BOOLEAN)`: the only cast the core runs.
    CastToBool(Box<Expr>),
    /// Unary minus.
    Minus(Box<Expr>),
    /// Binary arithmetic.
    Binary(ArithOp, Box<Expr>, Box<Expr>),
    /// Any other shape, carried as its display text for the error
    /// message it will produce.
    Unsupported(String),
}

/// How an evaluation failed.
#[derive(Clone, PartialEq, Eq, Debug)]
pub enum EvalError {
    /// The expression has a shape the core does not evaluate; carries
    /// its display text.
    SyntaxError(String),
    /// Integer arithmetic left the 64-bit range.
    OutOfRange,
    /// Division or remainder by zero.
    DivisionByZero,
}

/// What evaluating an expression yields.
pub enum EvalOutcome {
    Value(Seq<char>),
    Syntax(Seq<char>),
    OutOfRange,
    DivisionByZero,
}

/// Display text of an operator, spaces included.
pub open spec fn spec_op_text(op: ArithOp) -> Seq<char> {
    match op {
        ArithOp::Plus => " + "@,
        ArithOp::Minus => " - "@,
        ArithOp::Multiply => " * "@,
        ArithOp::Divide => " / "@,
        ArithOp::Modulus => " % "@,
    }
}

/// Display text of an expression, as it appears in error messages.
pub open spec fn spec_expr_text(e: Expr) -> Seq<char>
    decreases e,
{
    match e {
        Expr::Number(s) => s@,
        Expr::StringLiteral(s) => "'"@ + s@ + "'"@,
        Expr::Bool(b) => if b {
            "true"@
        } else {
            "false"@
        },
        Expr::CastToBool(inner) => "CAST("@ + spec_expr_text(*inner) + " AS BOOLEAN)"@,
        Expr::Minus(inner) => "-"@ + spec_expr_text(*inner),
        Expr::Binary(op, l, r) => spec_expr_text(*l) + spec_op_text(op) + spec_expr_text(*r),
        Expr::Unsupported(t) => t@,
    }
}

/// Division truncated toward zero, as SQL integer division rounds.
pub open spec fn trunc_div(a: int, b: int) -> int {
    let q = abs(a) / abs(b);
    if (a < 0) != (b < 0) {
        -q
    } else {
        q
    }
}

/// Remainder of truncated division: the sign follows the dividend.
pub open spec fn trunc_rem(a: int, b: int) -> int {
    let r = abs(a) % abs(b);
    if a < 0 {
        -r
    } else {
        r
    }
}

/// Absolute value.
pub open spec fn abs(a: int) -> int {
    if a < 0 {
        -a
    } else {
        a
    }
}

/// The 64-bit check every arithmetic result passes through.
pub open spec fn fit_i64(v: int) -> EvalOutcome {
    if -9223372036854775808 <= v <= 9223372036854775807 {
        EvalOutcome::Value(dec_text_signed(v))
    } else {
        EvalOutcome::OutOfRange
    }
}

/// One arithmetic operator applied to two in-range integers.
pub open spec fn apply_op(op: ArithOp, a: int, b: int) -> EvalOutcome {
    match op {
        ArithOp::Plus => fit_i64(a + b),
        ArithOp::Minus => fit_i64(a - b),
        ArithOp::Multiply => fit_i64(a * b),
        ArithOp::Divide => if b == 0 {
            EvalOutcome::DivisionByZero
        } else {
            fit_i64(trunc_div(a, b))
        },
        ArithOp::Modulus => if b == 0 {
            EvalOutcome::DivisionByZero
        } else {
            fit_i64(trunc_rem(a, b))
        },
    }
}

/// Evaluation of a binary arithmetic node: both operands must be
/// numeric literals whose values fit 64 bits.
pub open spec fn spec_eval_binary(op: ArithOp, l: Expr, r: Expr) -> EvalOutcome {
    match (l, r) {
        (Expr::Number(a), Expr::Number(b)) => {
            if int_literal(a@) is None || int_literal(b@) is None {
                EvalOutcome::Syntax(a@ + spec_op_text(op) + b@)
            } else {
                let av = int_literal(a@).unwrap();
                let bv = int_literal(b@).unwrap();
                if av < -9223372036854775808 || av > 9223372036854775807 || bv
                    < -9223372036854775808 || bv > 9223372036854775807 {
                    EvalOutcome::OutOfRange
                } else {
                    apply_op(op, av, bv)
                }
            }
        },
        (l, r) => EvalOutcome::Syntax(
            spec_expr_text(l) + spec_op_text(op) + spec_expr_text(r),
        ),
    }
}

/// What evaluating an expression yields: the rules of literal
/// expression evaluation, one clause per supported shape.
pub open spec fn spec_eval(e: Expr) -> EvalOutcome
    decreases e,
{
    match e {
        Expr::Number(s) => EvalOutcome::Value(s@),
        Expr::StringLiteral(s) => EvalOutcome::Value(s@),
        Expr::Bool(b) => EvalOutcome::Value(
            if b {
                "true"@
            } else {
                "false"@
            },
        ),
        Expr::CastToBool(inner) => match *inner {
            Expr::Bool(b) => EvalOutcome::Value(
                if b {
                    "true"@
                } else {
                    "false"@
                },
            ),
            Expr::StringLiteral(s) => EvalOutcome::Value(s@),
            other => EvalOutcome::Syntax(
                "CAST("@ + spec_expr_text(other) + " AS BOOLEAN)"@,
            ),
        },
        Expr::Minus(inner) => match *inner {
            Expr::Number(s) => EvalOutcome::Value("-"@ + s@),
            other => EvalOutcome::Syntax("-"@ + spec_expr_text(other)),
        },
        Expr::Binary(op, l, r) => spec_eval_binary(op, *l, *r),
        Expr::Unsupported(t) => EvalOutcome::Syntax(t@),
    }
}

impl ArithOp {
    /// Display text of the operator, spaces included.
    pub fn op_text(&self) -> (r: &'static str)
        ensures
            r@ == spec_op_text(*self),
    {
        proof {
            reveal_strlit(" + ");
            reveal_strlit(" - ");
            reveal_strlit(" * ");
            reveal_strlit(" / ");
            reveal_strlit(" % ");
        }
        match self {
            ArithOp::Plus => " + ",
            ArithOp::Minus => " - ",
            ArithOp::Multiply => " * ",
            ArithOp::Divide => " / ",
            ArithOp::Modulus => " % ",
        }
    }
}

impl Expr {
    /// Display text of the expression, as error messages carry it.
    pub fn to_text(&self) -> (r: String)
        ensures
            r@ == spec_expr_text(*self),
        decreases *self,
    {
        match self {
            Expr::Number(s) => s.clone(),
            Expr::StringLiteral(s) => {
                let mut out = String::from_str("'");
                out.append(s.as_str());
                out.append("'");
                proof {
                    assert(out@ =~= spec_expr_text(*self));
                }
                out
            },
            Expr::Bool(b) => if *b {
                String::from_str("true")
            } else {
                String::from_str("false")
            },
            Expr::CastToBool(inner) => {
                let mut out = String::from_str("CAST(");
                let t = inner.to_text();
                out.append(t.as_str());
                out.append(" AS BOOLEAN)");
                proof {
                    assert(out@ =~= spec_expr_text(*self));
                }
                out
            },
            Expr::Minus(inner) => {
                let mut out = String::from_str("-");
                let t = inner.to_text();
                out.append(t.as_str());
                proof {
                    assert(out@ =~= spec_expr_text(*self));
                }
                out
            },
            Expr::Binary(op, l, r) => {
                let mut out = l.to_text();
                out.append(op.op_text());
                let rt = r.to_text();
                out.append(rt.as_str());
                proof {
                    assert(out@ =~= spec_expr_text(*self));
                }
                out
            },
            Expr::Unsupported(t) => t.clone(),
        }
    }
}

/// Signed 64-bit value of a parsed in-range literal.
fn literal_value(s: &String) -> (r: Result<i64, bool>)
    ensures
        r matches Ok(v) ==> int_literal(s@) == Some(v as int),
        r == Err::<i64, bool>(false) ==> int_literal(s@) is None,
        r == Err::<i64, bool>(true) ==> int_literal(s@) is Some && (int_literal(s@).unwrap()
            < -9223372036854775808 || int_literal(s@).unwrap() > 9223372036854775807),
{
    match parse_int_literal(s.as_str()) {
        None => Err(false),
        Some(p) => {
            if p.oversized {
                return Err(true);
            }
            if p.negative {
                if p.magnitude > 9223372036854775808u64 {
                    return Err(true);
                }
                if p.magnitude == 9223372036854775808u64 {
                    Ok(i64::MIN)
                } else {
                    Ok(-(p.magnitude as i64))
                }
            } else {
                if p.magnitude > 9223372036854775807u64 {
                    return Err(true);
                }
                Ok(p.magnitude as i64)
            }
        },
    }
}

/// Evaluation of the literal expressions inside VALUES.
pub struct ExpressionEvaluation;

impl ExpressionEvaluation {
    /// A fresh evaluator.
    pub fn new() -> (r: ExpressionEvaluation) {
        ExpressionEvaluation
    }

    /// Evaluate one expression to the text form its cell is stored
    /// in, by the evaluation rules of [`spec_eval`].
    pub fn eval(&self, e: &Expr) -> (r: Result<String, EvalError>)
        ensures
            match spec_eval(*e) {
                EvalOutcome::Value(v) => r matches Ok(s) && s@ == v,
                EvalOutcome::Syntax(t) => r matches Err(EvalError::SyntaxError(s)) && s@ == t,
                EvalOutcome::OutOfRange => r matches Err(EvalError::OutOfRange),
                EvalOutcome::DivisionByZero => r matches Err(EvalError::DivisionByZero),
            },
    {
        match e {
            Expr::Number(s) => Ok(s.clone()),
            Expr::StringLiteral(s) => Ok(s.clone()),
            Expr::Bool(b) => if *b {
                Ok(String::from_str("true"))
            } else {
                Ok(String::from_str("false"))
            },
            Expr::CastToBool(inner) => match &**inner {
                Expr::Bool(b) => if *b {
                    Ok(String::from_str("true"))
                } else {
                    Ok(String::from_str("false"))
                },
                Expr::StringLiteral(s) => Ok(s.clone()),
                _ => Err(EvalError::SyntaxError(e.to_text())),
            },
            Expr::Minus(inner) => match &**inner {
                Expr::Number(s) => {
                    let mut out = String::from_str("-");
                    out.append(s.as_str());
                    Ok(out)
                },
                _ => Err(EvalError::SyntaxError(e.to_text())),
            },
            Expr::Binary(op, l, r) => match (&**l, &**r) {
                (Expr::Number(a), Expr::Number(b)) => {
                    let (av, bv) = match (literal_value(a), literal_value(b)) {
                        (Err(false), _) | (_, Err(false)) => {
                            proof {
                                assert(int_literal(a@) is None || int_literal(b@) is None);
                                assert(spec_eval(*e) == EvalOutcome::Syntax(
                                    a@ + spec_op_text(*op) + b@,
                                ));
                                assert(*e is Binary);
                                assert(**l is Number);
                                assert(**r is Number);
                                assert(spec_expr_text(**l) == a@);
                                assert(spec_expr_text(**r) == b@);
                                assert(spec_expr_text(*e) =~= spec_expr_text(**l)
                                    + spec_op_text(*op) + spec_expr_text(**r));
                                assert(spec_expr_text(*e) =~= a@ + spec_op_text(*op) + b@);
                            }
                            return Err(EvalError::SyntaxError(e.to_text()));
                        },
                        (Err(true), _) | (_, Err(true)) => {
                            return Err(EvalError::OutOfRange);
                        },
                        (Ok(x), Ok(y)) => (x, y),
                    };
                    let wide_a: i128 = av as i128;
                    let wide_b: i128 = bv as i128;
                    let value: i128 = match op {
                        ArithOp::Plus => wide_a + wide_b,
                        ArithOp::Minus => wide_a - wide_b,
                        ArithOp::Multiply => {
                            proof {
                                assert(wide_a * wide_b <= i128::MAX && wide_a * wide_b
                                    >= i128::MIN) by (nonlinear_arith)
                                    requires
                                        -9223372036854775808 <= wide_a
                                            <= 9223372036854775807,
                                        -9223372036854775808 <= wide_b
                                            <= 9223372036854775807,
                                ;
                            }
                            wide_a * wide_b
                        },
                        ArithOp::Divide => {
                            if bv == 0 {
                                return Err(EvalError::DivisionByZero);
                            }
                            let qa: u64 = unsigned_magnitude(av);
                            let qb: u64 = unsigned_magnitude(bv);
                            let q: u64 = qa / qb;
                            proof {
                                assert(q == abs(av as int) / abs(bv as int));
                            }
                            if (av < 0) != (bv < 0) {
                                -(q as i128)
                            } else {
                                q as i128
                            }
                        },
                        ArithOp::Modulus => {
                            if bv == 0 {
                                return Err(EvalError::DivisionByZero);
                            }
                            let qa: u64 = unsigned_magnitude(av);
                            let qb: u64 = unsigned_magnitude(bv);
                            let q: u64 = qa % qb;
                            proof {
                                assert(q == abs(av as int) % abs(bv as int));
                            }
                            if av < 0 {
                                -(q as i128)
                            } else {
                                q as i128
                            }
                        },
                    };
                    if value < -9223372036854775808i128 || value > 9223372036854775807i128 {
                        return Err(EvalError::OutOfRange);
                    }
                    Ok(format_i64(value as i64))
                },
                (_, _) => Err(EvalError::SyntaxError(e.to_text())),
            },
            Expr::Unsupported(t) => Err(EvalError::SyntaxError(t.clone())),
        }
    }
}

/// Magnitude of a signed 64-bit value, exact at the minimum too.
fn unsigned_magnitude(v: i64) -> (r: u64)
    ensures
        r as int == abs(v as int),
{
    if v == i64::MIN {
        9223372036854775808u64
    } else if v < 0 {
        (-v) as u64
    } else {
        v as u64
    }
}

} // verus!
