use vstd::prelude::*;
use crate::token::{Token, TokenS, token_view};
use crate::fbits;
use crate::strutil;
use vstd::string::StringExecFns;

verus! {

/// A fault that ends the whole run.  The language treats an integer
/// division or modulo with divisor zero (and the one overflowing
/// quotient, the minimum value divided by minus one) as fatal; `StepLimit`
/// reports that the evaluator's step budget ran out.
#[derive(Clone, Copy, PartialEq, Eq, Structural, Debug)]
pub enum Fault {
    DivByZero,
    Overflow,
    StepLimit,
}

/// A value of the interpreted language: uninitialized (`New`), a scalar,
/// a string, or a pending binary expression whose operands wait to be
/// reduced.  A float is carried as its IEEE-754 binary64 bit pattern.
#[derive(Debug)]
pub enum Expr {
    New,
    Bool(bool),
    Int(i64),
    Float(u64),
    Str(String),
    BinOp(Box<Expr>, Token, Box<Expr>),
}

/// Mathematical mirror of `Expr`, with strings as character sequences.
#[verifier::ext_equal]
pub enum ExprS {
    New,
    Bool(bool),
    Int(i64),
    Float(u64),
    Str(Seq<char>),
    BinOp(Box<ExprS>, TokenS, Box<ExprS>),
}

pub open spec fn expr_view(e: Expr) -> ExprS
    decreases e,
{
    match e {
        Expr::New => ExprS::New,
        Expr::Bool(b) => ExprS::Bool(b),
        Expr::Int(n) => ExprS::Int(n),
        Expr::Float(f) => ExprS::Float(f),
        Expr::Str(s) => ExprS::Str(s@),
        Expr::BinOp(a, op, b) => ExprS::BinOp(
            Box::new(expr_view(*a)),
            token_view(op),
            Box::new(expr_view(*b)),
        ),
    }
}

impl View for Expr {
    type V = ExprS;

    open spec fn view(&self) -> ExprS {
        expr_view(*self)
    }
}

/// Nesting height of a pending expression; ground values have height zero.
pub open spec fn height_s(v: ExprS) -> nat
    decreases v,
{
    match v {
        ExprS::BinOp(a, _, b) => 1 + if height_s(*a) >= height_s(*b) {
            height_s(*a)
        } else {
            height_s(*b)
        },
        _ => 0,
    }
}

/// Deep copy of a value; the copy has the same view as the original.
pub fn copy_expr(e: &Expr) -> (r: Expr)
    ensures
        r@ == e@,
    decreases *e,
{
    match e {
        Expr::New => Expr::New,
        Expr::Bool(b) => Expr::Bool(*b),
        Expr::Int(n) => Expr::Int(*n),
        Expr::Float(f) => Expr::Float(*f),
        Expr::Str(s) => Expr::Str(s.clone()),
        Expr::BinOp(a, op, b) => {
            let ca = copy_expr(&*a);
            let cop = crate::token::copy_token(op);
            let cb = copy_expr(&*b);
            Expr::BinOp(Box::new(ca), cop, Box::new(cb))
        },
    }
}

// ---------------------------------------------------------------------------
// The four total coercions.  Every variant maps to a result; none can fail.
// ---------------------------------------------------------------------------

/// What a value prints as.  Uninitialized and pending values print as the
/// fixed placeholder text the language ships with.
pub open spec fn to_seq_s(v: ExprS) -> Seq<char> {
    match v {
        ExprS::Bool(t) => if t {
            "true"@
        } else {
            "false"@
        },
        ExprS::Int(t) => strutil::dec_i64(t as int),
        ExprS::Float(t) => fbits::float_repr_s(t),
        ExprS::Str(t) => t,
        _ => "tom is a genius"@,
    }
}

/// The number of bytes of a string's UTF-8 form, capped at the largest
/// signed 64-bit value.
pub open spec fn str_len_i64(s: Seq<char>) -> i64 {
    let n = (vstd::utf8::encode_utf8(s).len() as usize) as u64;
    if n <= 0x7fff_ffff_ffff_ffff {
        n as i64
    } else {
        0x7fff_ffff_ffff_ffff as i64
    }
}

/// What a value counts as: booleans as zero or one, floats truncated, a
/// string as its length (not a numeric parse), and the fixed sentinel for
/// uninitialized and pending values.
pub open spec fn to_int_s(v: ExprS) -> i64 {
    match v {
        ExprS::Bool(t) => if t {
            1i64
        } else {
            0i64
        },
        ExprS::Int(t) => t,
        ExprS::Float(t) => fbits::i64_of_bits(t),
        ExprS::Str(t) => str_len_i64(t),
        _ => 69i64,
    }
}

/// What a value means as a condition: positive numbers and nonempty
/// strings are true; uninitialized and pending values are false.
pub open spec fn to_bool_s(v: ExprS) -> bool {
    match v {
        ExprS::Bool(t) => t,
        ExprS::Int(t) => t > 0,
        ExprS::Float(t) => fbits::gt_bits(t, fbits::bits_of_i64(0)),
        ExprS::Str(t) => t.len() != 0,
        _ => false,
    }
}

/// What a value measures as a float: a string is parsed, and every failed
/// parse, like every uninitialized or pending value, falls back to the
/// fixed sentinel 420.
pub open spec fn to_float_s(v: ExprS) -> u64 {
    match v {
        ExprS::Bool(t) => if t {
            fbits::bits_of_i64(1)
        } else {
            fbits::bits_of_i64(0)
        },
        ExprS::Int(t) => fbits::bits_of_i64(t),
        ExprS::Float(t) => t,
        ExprS::Str(t) => match fbits::bits_of_dec(t) {
            Option::Some(b) => b,
            Option::None => fbits::bits_of_i64(420),
        },
        _ => fbits::bits_of_i64(420),
    }
}

impl Expr {
    /// Coerce any value to its printed text; total over every variant.
    pub fn parse_exp_string(exp: Expr) -> (r: String)
        ensures
            r@ == to_seq_s(exp@),
    {
        match exp {
            Expr::Bool(t) => {
                if t {
                    String::from_str("true")
                } else {
                    String::from_str("false")
                }
            },
            Expr::Int(t) => strutil::i64_to_string(t),
            Expr::Float(t) => fbits::float_repr(t),
            Expr::Str(t) => t,
            _ => String::from_str("tom is a genius"),
        }
    }

    /// Coerce any value to a float bit pattern; total over every variant.
    pub fn parse_exp_float(exp: Expr) -> (r: u64)
        ensures
            r == to_float_s(exp@),
    {
        match exp {
            Expr::Bool(t) => {
                if t {
                    fbits::float_of_i64(1)
                } else {
                    fbits::float_of_i64(0)
                }
            },
            Expr::Int(t) => fbits::float_of_i64(t),
            Expr::Float(t) => t,
            Expr::Str(t) => {
                match fbits::float_of_dec(t.as_str()) {
                    Option::Some(b) => b,
                    Option::None => fbits::float_of_i64(420),
                }
            },
            _ => fbits::float_of_i64(420),
        }
    }

    /// Coerce any value to an integer; total over every variant.
    pub fn parse_exp_integer(exp: Expr) -> (r: i64)
        ensures
            r == to_int_s(exp@),
    {
        match exp {
            Expr::Bool(t) => {
                if t {
                    1
                } else {
                    0
                }
            },
            Expr::Int(t) => t,
            Expr::Float(t) => fbits::float_to_i64(t),
            Expr::Str(t) => {
                let n = t.as_str().len() as u64;
                if n <= 0x7fff_ffff_ffff_ffff {
                    n as i64
                } else {
                    0x7fff_ffff_ffff_ffff
                }
            },
            _ => 69,
        }
    }

    /// Coerce any value to a condition; total over every variant.
    pub fn parse_exp_boolean(exp: Expr) -> (r: bool)
        ensures
            r == to_bool_s(exp@),
    {
        match exp {
            Expr::Bool(t) => t,
            Expr::Int(t) => t > 0,
            Expr::Float(t) => {
                let zero = fbits::float_of_i64(0);
                fbits::float_gt(t, zero)
            },
            Expr::Str(t) => !t.as_str().is_empty(),
            _ => false,
        }
    }
}

} // verus!
