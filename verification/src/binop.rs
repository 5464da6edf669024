use vstd::prelude::*;
use crate::expr::{Expr, ExprS, Fault, to_bool_s, to_int_s, to_seq_s, to_float_s, height_s};
use crate::token::{Token, TokenS};
use crate::fbits;
use crate::strutil;
use vstd::math::abs;
use vstd::string::StringExecFns;

verus! {

/// The shared bound on the combined nesting of operator reduction and
/// function calls.  Reaching it silently truncates: a pending expression is
/// returned unreduced, an over-limit call is skipped.
pub const RECURS_LIMIT: i64 = 300;

/// Nesting height of a pair of operands, as seen by a pending expression
/// built over them.
pub open spec fn hmax(a: ExprS, b: ExprS) -> nat {
    1 + if height_s(a) >= height_s(b) {
        height_s(a)
    } else {
        height_s(b)
    }
}

/// Truncating (round toward zero) signed division, the native `/`.
pub open spec fn tdiv64(a: i64, b: i64) -> i64
    recommends
        b != 0,
        !(a == i64::MIN && b == -1),
{
    if (a < 0) != (b < 0) {
        (-(abs(a as int) / abs(b as int))) as i64
    } else {
        (abs(a as int) / abs(b as int)) as i64
    }
}

/// Truncating signed remainder, the native `%`: its sign follows the
/// dividend.
pub open spec fn trem64(a: i64, b: i64) -> i64
    recommends
        b != 0,
        !(a == i64::MIN && b == -1),
{
    if a < 0 {
        (-(abs(a as int) % abs(b as int))) as i64
    } else {
        (abs(a as int) % abs(b as int)) as i64
    }
}

/// Lexicographic order on character sequences by code point; the order the
/// native byte-wise string comparison induces, since UTF-8 preserves it.
pub open spec fn seq_lt(a: Seq<char>, b: Seq<char>) -> bool
    decreases a.len(),
{
    if b.len() == 0 {
        false
    } else if a.len() == 0 {
        true
    } else if a[0] != b[0] {
        (a[0] as u32) < (b[0] as u32)
    } else {
        seq_lt(a.drop_first(), b.drop_first())
    }
}

/// A string with its last `k` characters dropped; dropping a negative
/// count drops nothing, dropping more than the length leaves nothing.
pub open spec fn drop_chars(s: Seq<char>, k: int) -> Seq<char> {
    if k <= 0 {
        s
    } else if k >= s.len() {
        Seq::empty()
    } else {
        s.subrange(0, s.len() - k)
    }
}

/// The last `k` characters of a string, reversed; a negative count takes
/// nothing, a count past the length takes the whole string.
pub open spec fn rev_tail(s: Seq<char>, k: int) -> Seq<char> {
    let take = if k <= 0 {
        0
    } else if k >= s.len() {
        s.len() as int
    } else {
        k
    };
    Seq::new(take as nat, |i: int| s[s.len() - 1 - i])
}

/// A string followed by `n` further copies of itself; none for `n <= 0`.
pub open spec fn repeat_s(s: Seq<char>, n: int) -> Seq<char>
    decreases n,
{
    if n <= 0 {
        s
    } else {
        repeat_s(s, n - 1) + s
    }
}

/// One reduction of a pending expression.  The counter value on entry is
/// `depth`; the reduction itself runs at `depth + 1`, and is skipped -- the
/// expression comes back unreduced -- once that reaches the shared limit.
pub open spec fn reduce_s(v: ExprS, depth: int) -> Result<ExprS, Fault>
    decreases height_s(v), 3int,
{
    if depth + 1 >= RECURS_LIMIT as int {
        Result::Ok(v)
    } else {
        match v {
            ExprS::BinOp(a, op, b) => op_apply_s(*a, op, *b, depth + 1),
            _ => Result::Ok(v),
        }
    }
}

/// Dispatch of one operator over already-unboxed operands.  A token that is
/// no operator reduces to the uninitialized value without touching either
/// operand.
pub open spec fn op_apply_s(a: ExprS, op: TokenS, b: ExprS, d: int) -> Result<ExprS, Fault>
    decreases hmax(a, b), 2int,
{
    match op {
        TokenS::Add => add_op_s(a, b, d),
        TokenS::Sub => sub_op_s(a, b, d),
        TokenS::Multiply => mul_op_s(a, b, d),
        TokenS::Divide => div_op_s(a, b, d),
        TokenS::Mod => mod_op_s(a, b, d),
        TokenS::Equals => eq_op_s(a, b, d),
        TokenS::Neq => neq_op_s(a, b, d),
        TokenS::Lt => lt_op_s(a, b, d),
        TokenS::Gt => gt_op_s(a, b, d),
        TokenS::LtEq => lteq_op_s(a, b, d),
        TokenS::GtEq => gteq_op_s(a, b, d),
        TokenS::Or => or_op_s(a, b, d),
        TokenS::And => and_op_s(a, b, d),
        TokenS::Xor => xor_op_s(a, b, d),
        _ => Result::Ok(ExprS::New),
    }
}

/// The right operand as the operator functions see it: reduced first when
/// it is itself pending.
pub open spec fn rhs_s(b: ExprS, d: int) -> Result<ExprS, Fault>
    decreases height_s(b) + 1, 0int,
{
    if b is BinOp {
        reduce_s(b, d)
    } else {
        Result::Ok(b)
    }
}

/// `+`: OR on booleans, wrapping addition on integers, IEEE addition on
/// floats; on strings the right operand's text is prefixed to the left.
pub open spec fn add_op_s(a: ExprS, b: ExprS, d: int) -> Result<ExprS, Fault>
    decreases hmax(a, b), 1int,
{
    match rhs_s(b, d) {
        Result::Err(f) => Result::Err(f),
        Result::Ok(bv) => match a {
            ExprS::BinOp(_, _, _) => reduce_s(a, d),
            ExprS::Bool(t) => Result::Ok(ExprS::Bool(t || to_bool_s(bv))),
            ExprS::Int(t) => Result::Ok(ExprS::Int(t.wrapping_add(to_int_s(bv)))),
            ExprS::Float(t) => Result::Ok(ExprS::Float(fbits::add_bits(t, to_float_s(bv)))),
            ExprS::Str(t) => Result::Ok(ExprS::Str(to_seq_s(bv) + t)),
            _ => Result::Ok(a),
        },
    }
}

/// `-`: XOR on booleans, wrapping subtraction on integers, IEEE
/// subtraction on floats; a string drops its last `toInt(right)` characters.
pub open spec fn sub_op_s(a: ExprS, b: ExprS, d: int) -> Result<ExprS, Fault>
    decreases hmax(a, b), 1int,
{
    match rhs_s(b, d) {
        Result::Err(f) => Result::Err(f),
        Result::Ok(bv) => match a {
            ExprS::BinOp(_, _, _) => reduce_s(a, d),
            ExprS::Bool(t) => Result::Ok(ExprS::Bool(t != to_bool_s(bv))),
            ExprS::Int(t) => Result::Ok(ExprS::Int(t.wrapping_sub(to_int_s(bv)))),
            ExprS::Float(t) => Result::Ok(ExprS::Float(fbits::sub_bits(t, to_float_s(bv)))),
            ExprS::Str(t) => Result::Ok(ExprS::Str(drop_chars(t, to_int_s(bv) as int))),
            _ => Result::Ok(a),
        },
    }
}

/// `*`: AND on booleans, wrapping multiplication on integers, IEEE
/// multiplication on floats; a string is followed by `toInt(right)` further
/// copies of itself.
pub open spec fn mul_op_s(a: ExprS, b: ExprS, d: int) -> Result<ExprS, Fault>
    decreases hmax(a, b), 1int,
{
    match rhs_s(b, d) {
        Result::Err(f) => Result::Err(f),
        Result::Ok(bv) => match a {
            ExprS::BinOp(_, _, _) => reduce_s(a, d),
            ExprS::Bool(t) => Result::Ok(ExprS::Bool(t && to_bool_s(bv))),
            ExprS::Int(t) => Result::Ok(ExprS::Int(t.wrapping_mul(to_int_s(bv)))),
            ExprS::Float(t) => Result::Ok(ExprS::Float(fbits::mul_bits(t, to_float_s(bv)))),
            ExprS::Str(t) => Result::Ok(ExprS::Str(repeat_s(t, to_int_s(bv) as int))),
            _ => Result::Ok(a),
        },
    }
}

/// `/`: XOR on booleans; integer division is truncating and faults on a
/// zero divisor or the one overflowing quotient; float division follows
/// IEEE semantics and never faults; a string keeps its last
/// `toInt(right)` characters, reversed.
pub open spec fn div_op_s(a: ExprS, b: ExprS, d: int) -> Result<ExprS, Fault>
    decreases hmax(a, b), 1int,
{
    match rhs_s(b, d) {
        Result::Err(f) => Result::Err(f),
        Result::Ok(bv) => match a {
            ExprS::BinOp(_, _, _) => reduce_s(a, d),
            ExprS::Bool(t) => Result::Ok(ExprS::Bool(t != to_bool_s(bv))),
            ExprS::Int(t) => {
                let k = to_int_s(bv);
                if k == 0 {
                    Result::Err(Fault::DivByZero)
                } else if t == i64::MIN && k == -1 {
                    Result::Err(Fault::Overflow)
                } else {
                    Result::Ok(ExprS::Int(tdiv64(t, k)))
                }
            },
            ExprS::Float(t) => Result::Ok(ExprS::Float(fbits::div_bits(t, to_float_s(bv)))),
            ExprS::Str(t) => Result::Ok(ExprS::Str(rev_tail(t, to_int_s(bv) as int))),
            _ => Result::Ok(a),
        },
    }
}

/// `%`: XOR on booleans; integer remainder faults exactly as division
/// does; float remainder is the IEEE `fmod` and never faults; a string
/// drops as many characters as `toString(right)` is long.
pub open spec fn mod_op_s(a: ExprS, b: ExprS, d: int) -> Result<ExprS, Fault>
    decreases hmax(a, b), 1int,
{
    match rhs_s(b, d) {
        Result::Err(f) => Result::Err(f),
        Result::Ok(bv) => match a {
            ExprS::BinOp(_, _, _) => reduce_s(a, d),
            ExprS::Bool(t) => Result::Ok(ExprS::Bool(t != to_bool_s(bv))),
            ExprS::Int(t) => {
                let k = to_int_s(bv);
                if k == 0 {
                    Result::Err(Fault::DivByZero)
                } else if t == i64::MIN && k == -1 {
                    Result::Err(Fault::Overflow)
                } else {
                    Result::Ok(ExprS::Int(trem64(t, k)))
                }
            },
            ExprS::Float(t) => Result::Ok(ExprS::Float(fbits::rem_bits(t, to_float_s(bv)))),
            ExprS::Str(t) => Result::Ok(ExprS::Str(drop_chars(t, to_seq_s(bv).len() as int))),
            _ => Result::Ok(a),
        },
    }
}

/// `==`: the right operand is coerced to the left one's type first.
pub open spec fn eq_op_s(a: ExprS, b: ExprS, d: int) -> Result<ExprS, Fault>
    decreases hmax(a, b), 1int,
{
    match rhs_s(b, d) {
        Result::Err(f) => Result::Err(f),
        Result::Ok(bv) => match a {
            ExprS::BinOp(_, _, _) => reduce_s(a, d),
            ExprS::Bool(t) => Result::Ok(ExprS::Bool(t == to_bool_s(bv))),
            ExprS::Int(t) => Result::Ok(ExprS::Bool(t == to_int_s(bv))),
            ExprS::Float(t) => Result::Ok(ExprS::Bool(fbits::eq_bits(t, to_float_s(bv)))),
            ExprS::Str(t) => Result::Ok(ExprS::Bool(t == to_seq_s(bv))),
            _ => Result::Ok(a),
        },
    }
}

/// `!=`: the negation of `==` on every type, NaN included.
pub open spec fn neq_op_s(a: ExprS, b: ExprS, d: int) -> Result<ExprS, Fault>
    decreases hmax(a, b), 1int,
{
    match rhs_s(b, d) {
        Result::Err(f) => Result::Err(f),
        Result::Ok(bv) => match a {
            ExprS::BinOp(_, _, _) => reduce_s(a, d),
            ExprS::Bool(t) => Result::Ok(ExprS::Bool(t != to_bool_s(bv))),
            ExprS::Int(t) => Result::Ok(ExprS::Bool(t != to_int_s(bv))),
            ExprS::Float(t) => Result::Ok(ExprS::Bool(!fbits::eq_bits(t, to_float_s(bv)))),
            ExprS::Str(t) => Result::Ok(ExprS::Bool(t != to_seq_s(bv))),
            _ => Result::Ok(a),
        },
    }
}

/// `<`: standard order per type, lexicographic on strings.
pub open spec fn lt_op_s(a: ExprS, b: ExprS, d: int) -> Result<ExprS, Fault>
    decreases hmax(a, b), 1int,
{
    match rhs_s(b, d) {
        Result::Err(f) => Result::Err(f),
        Result::Ok(bv) => match a {
            ExprS::BinOp(_, _, _) => reduce_s(a, d),
            ExprS::Bool(t) => Result::Ok(ExprS::Bool(!t && to_bool_s(bv))),
            ExprS::Int(t) => Result::Ok(ExprS::Bool(t < to_int_s(bv))),
            ExprS::Float(t) => Result::Ok(ExprS::Bool(fbits::lt_bits(t, to_float_s(bv)))),
            ExprS::Str(t) => Result::Ok(ExprS::Bool(seq_lt(t, to_seq_s(bv)))),
            _ => Result::Ok(a),
        },
    }
}

/// `>`: standard order per type, lexicographic on strings.
pub open spec fn gt_op_s(a: ExprS, b: ExprS, d: int) -> Result<ExprS, Fault>
    decreases hmax(a, b), 1int,
{
    match rhs_s(b, d) {
        Result::Err(f) => Result::Err(f),
        Result::Ok(bv) => match a {
            ExprS::BinOp(_, _, _) => reduce_s(a, d),
            ExprS::Bool(t) => Result::Ok(ExprS::Bool(t && !to_bool_s(bv))),
            ExprS::Int(t) => Result::Ok(ExprS::Bool(t > to_int_s(bv))),
            ExprS::Float(t) => Result::Ok(ExprS::Bool(fbits::gt_bits(t, to_float_s(bv)))),
            ExprS::Str(t) => Result::Ok(ExprS::Bool(seq_lt(to_seq_s(bv), t))),
            _ => Result::Ok(a),
        },
    }
}

/// `<=`: standard order per type, lexicographic on strings.
pub open spec fn lteq_op_s(a: ExprS, b: ExprS, d: int) -> Result<ExprS, Fault>
    decreases hmax(a, b), 1int,
{
    match rhs_s(b, d) {
        Result::Err(f) => Result::Err(f),
        Result::Ok(bv) => match a {
            ExprS::BinOp(_, _, _) => reduce_s(a, d),
            ExprS::Bool(t) => Result::Ok(ExprS::Bool(!t || to_bool_s(bv))),
            ExprS::Int(t) => Result::Ok(ExprS::Bool(t <= to_int_s(bv))),
            ExprS::Float(t) => Result::Ok(
                ExprS::Bool(
                    fbits::lt_bits(t, to_float_s(bv)) || fbits::eq_bits(t, to_float_s(bv)),
                ),
            ),
            ExprS::Str(t) => Result::Ok(ExprS::Bool(seq_lt(t, to_seq_s(bv)) || t == to_seq_s(bv))),
            _ => Result::Ok(a),
        },
    }
}

/// `>=`: standard order per type, lexicographic on strings.
pub open spec fn gteq_op_s(a: ExprS, b: ExprS, d: int) -> Result<ExprS, Fault>
    decreases hmax(a, b), 1int,
{
    match rhs_s(b, d) {
        Result::Err(f) => Result::Err(f),
        Result::Ok(bv) => match a {
            ExprS::BinOp(_, _, _) => reduce_s(a, d),
            ExprS::Bool(t) => Result::Ok(ExprS::Bool(t || !to_bool_s(bv))),
            ExprS::Int(t) => Result::Ok(ExprS::Bool(t >= to_int_s(bv))),
            ExprS::Float(t) => Result::Ok(
                ExprS::Bool(
                    fbits::gt_bits(t, to_float_s(bv)) || fbits::eq_bits(t, to_float_s(bv)),
                ),
            ),
            ExprS::Str(t) => Result::Ok(ExprS::Bool(seq_lt(to_seq_s(bv), t) || t == to_seq_s(bv))),
            _ => Result::Ok(a),
        },
    }
}

/// `|`: both sides coerced to booleans, then OR.
pub open spec fn or_op_s(a: ExprS, b: ExprS, d: int) -> Result<ExprS, Fault>
    decreases hmax(a, b), 1int,
{
    match rhs_s(b, d) {
        Result::Err(f) => Result::Err(f),
        Result::Ok(bv) => match a {
            ExprS::BinOp(_, _, _) => reduce_s(a, d),
            ExprS::New => Result::Ok(a),
            _ => Result::Ok(ExprS::Bool(to_bool_s(a) || to_bool_s(bv))),
        },
    }
}

/// `&`: both sides coerced to booleans, then AND.
pub open spec fn and_op_s(a: ExprS, b: ExprS, d: int) -> Result<ExprS, Fault>
    decreases hmax(a, b), 1int,
{
    match rhs_s(b, d) {
        Result::Err(f) => Result::Err(f),
        Result::Ok(bv) => match a {
            ExprS::BinOp(_, _, _) => reduce_s(a, d),
            ExprS::New => Result::Ok(a),
            _ => Result::Ok(ExprS::Bool(to_bool_s(a) && to_bool_s(bv))),
        },
    }
}

/// `^`: both sides coerced to booleans, then XOR.
pub open spec fn xor_op_s(a: ExprS, b: ExprS, d: int) -> Result<ExprS, Fault>
    decreases hmax(a, b), 1int,
{
    match rhs_s(b, d) {
        Result::Err(f) => Result::Err(f),
        Result::Ok(bv) => match a {
            ExprS::BinOp(_, _, _) => reduce_s(a, d),
            ExprS::New => Result::Ok(a),
            _ => Result::Ok(ExprS::Bool(to_bool_s(a) != to_bool_s(bv))),
        },
    }
}

/// The view of a reduction outcome.
pub open spec fn res_view(r: Result<Expr, Fault>) -> Result<ExprS, Fault> {
    match r {
        Result::Ok(e) => Result::Ok(e@),
        Result::Err(f) => Result::Err(f),
    }
}


// ---------------------------------------------------------------------------
// Executable reduction, proved equal to the specification above.
// ---------------------------------------------------------------------------

/// Whether a value is a pending expression.
pub fn is_binop(e: &Expr) -> (r: bool)
    ensures
        r == (e@ is BinOp),
{
    match e {
        Expr::BinOp(_, _, _) => true,
        _ => false,
    }
}

/// Truncating signed division on machine integers.
fn div_trunc_i64(a: i64, b: i64) -> (r: i64)
    requires
        b != 0,
        !(a == i64::MIN && b == -1),
    ensures
        r == tdiv64(a, b),
{
    let ua: u64 = if a >= 0 {
        a as u64
    } else {
        (-(a as i128)) as u64
    };
    let ub: u64 = if b >= 0 {
        b as u64
    } else {
        (-(b as i128)) as u64
    };
    let uq: u64 = ua / ub;
    proof {
        assert(ua == abs(a as int));
        assert(ub == abs(b as int));
        assert(uq <= ua) by (nonlinear_arith)
            requires
                ub >= 1,
                uq == ua as int / ub as int,
        ;
    }
    if (a < 0) != (b < 0) {
        proof {
            assert(uq <= 0x8000_0000_0000_0000u64);
        }
        (-(uq as i128)) as i64
    } else {
        proof {
            if a >= 0 && b > 0 {
                assert(uq < 0x8000_0000_0000_0000u64);
            } else {
                assert(a < 0 && b < 0);
                if ub == 1 {
                    assert(b == -1 && a != i64::MIN);
                    assert(uq < 0x8000_0000_0000_0000u64);
                } else {
                    assert(uq < 0x8000_0000_0000_0000u64) by (nonlinear_arith)
                        requires
                            ub >= 2,
                            ua <= 0x8000_0000_0000_0000u64,
                            uq == ua as int / ub as int,
                    ;
                }
            }
        }
        uq as i64
    }
}

/// Truncating signed remainder on machine integers; the sign follows the
/// dividend.
fn rem_trunc_i64(a: i64, b: i64) -> (r: i64)
    requires
        b != 0,
        !(a == i64::MIN && b == -1),
    ensures
        r == trem64(a, b),
{
    let ua: u64 = if a >= 0 {
        a as u64
    } else {
        (-(a as i128)) as u64
    };
    let ub: u64 = if b >= 0 {
        b as u64
    } else {
        (-(b as i128)) as u64
    };
    let ur: u64 = ua % ub;
    proof {
        assert(ua == abs(a as int));
        assert(ub == abs(b as int));
        assert(ur < ub);
    }
    if a < 0 {
        (-(ur as i128)) as i64
    } else {
        ur as i64
    }
}

/// Lexicographic comparison of two string slices, by code point.
#[verifier::loop_isolation(false)]
fn str_lt(x: &str, y: &str) -> (r: bool)
    ensures
        r == seq_lt(x@, y@),
{
    let a = strutil::chars_of_str(x);
    let b = strutil::chars_of_str(y);
    let mut i: usize = 0;
    proof {
        assert(x@.skip(0) =~= x@);
        assert(y@.skip(0) =~= y@);
    }
    loop
        invariant
            i <= a@.len(),
            i <= b@.len(),
            a@ == x@,
            b@ == y@,
            seq_lt(x@, y@) == seq_lt(x@.skip(i as int), y@.skip(i as int)),
        decreases a@.len() - i,
    {
        if i >= b.len() {
            return false;
        }
        if i >= a.len() {
            return true;
        }
        let ca = a[i];
        let cb = b[i];
        if ca != cb {
            return (ca as u32) < (cb as u32);
        }
        proof {
            assert(x@.skip(i as int).drop_first() =~= x@.skip(i as int + 1));
            assert(y@.skip(i as int).drop_first() =~= y@.skip(i as int + 1));
        }
        i = i + 1;
    }
}

/// The right operand, reduced first when it is itself pending.  `Ok` and
/// the matching fault mirror `rhs_s`.
fn rhs_exec(exp_b: Expr, d: i64) -> (r: Result<Expr, Fault>)
    requires
        0 <= d <= RECURS_LIMIT,
    ensures
        res_view(r) == rhs_s(exp_b@, d as int),
    decreases height_s(exp_b@) + 1, 0int,
{
    if is_binop(&exp_b) {
        eval_binop(exp_b, d)
    } else {
        Result::Ok(exp_b)
    }
}

/// Executable `==`; see `eq_op_s`.
pub fn eq_exp(exp_a: Expr, exp_b: Expr, depth: i64) -> (r: Result<Expr, Fault>)
    requires
        0 <= depth <= RECURS_LIMIT,
    ensures
        res_view(r) == eq_op_s(exp_a@, exp_b@, depth as int),
    decreases hmax(exp_a@, exp_b@), 1int,
{
    let bv: Expr;
    match rhs_exec(exp_b, depth) {
        Result::Ok(v) => {
            bv = v;
        },
        Result::Err(f) => {
            return Result::Err(f);
        },
    }
    if is_binop(&exp_a) {
        return eval_binop(exp_a, depth);
    }
    match exp_a {
        Expr::Bool(t) => Result::Ok(Expr::Bool(t == Expr::parse_exp_boolean(bv))),
        Expr::Int(t) => Result::Ok(Expr::Bool(t == Expr::parse_exp_integer(bv))),
        Expr::Float(t) => Result::Ok(Expr::Bool(fbits::float_eq(t, Expr::parse_exp_float(bv)))),
        Expr::Str(t) => Result::Ok(Expr::Bool(t == Expr::parse_exp_string(bv))),
        other => Result::Ok(other),
    }
}

/// Executable `!=`; see `neq_op_s`.
pub fn neq_exp(exp_a: Expr, exp_b: Expr, depth: i64) -> (r: Result<Expr, Fault>)
    requires
        0 <= depth <= RECURS_LIMIT,
    ensures
        res_view(r) == neq_op_s(exp_a@, exp_b@, depth as int),
    decreases hmax(exp_a@, exp_b@), 1int,
{
    let bv: Expr;
    match rhs_exec(exp_b, depth) {
        Result::Ok(v) => {
            bv = v;
        },
        Result::Err(f) => {
            return Result::Err(f);
        },
    }
    if is_binop(&exp_a) {
        return eval_binop(exp_a, depth);
    }
    match exp_a {
        Expr::Bool(t) => Result::Ok(Expr::Bool(t != Expr::parse_exp_boolean(bv))),
        Expr::Int(t) => Result::Ok(Expr::Bool(t != Expr::parse_exp_integer(bv))),
        Expr::Float(t) => Result::Ok(Expr::Bool(!fbits::float_eq(t, Expr::parse_exp_float(bv)))),
        Expr::Str(t) => Result::Ok(Expr::Bool(t != Expr::parse_exp_string(bv))),
        other => Result::Ok(other),
    }
}

/// Executable `<`; see `lt_op_s`.
pub fn lt_exp(exp_a: Expr, exp_b: Expr, depth: i64) -> (r: Result<Expr, Fault>)
    requires
        0 <= depth <= RECURS_LIMIT,
    ensures
        res_view(r) == lt_op_s(exp_a@, exp_b@, depth as int),
    decreases hmax(exp_a@, exp_b@), 1int,
{
    let bv: Expr;
    match rhs_exec(exp_b, depth) {
        Result::Ok(v) => {
            bv = v;
        },
        Result::Err(f) => {
            return Result::Err(f);
        },
    }
    if is_binop(&exp_a) {
        return eval_binop(exp_a, depth);
    }
    match exp_a {
        Expr::Bool(t) => Result::Ok(Expr::Bool(!t && Expr::parse_exp_boolean(bv))),
        Expr::Int(t) => Result::Ok(Expr::Bool(t < Expr::parse_exp_integer(bv))),
        Expr::Float(t) => Result::Ok(Expr::Bool(fbits::float_lt(t, Expr::parse_exp_float(bv)))),
        Expr::Str(t) => Result::Ok(Expr::Bool(str_lt(t.as_str(), Expr::parse_exp_string(bv).as_str()))),
        other => Result::Ok(other),
    }
}

/// Executable `>`; see `gt_op_s`.
pub fn gt_exp(exp_a: Expr, exp_b: Expr, depth: i64) -> (r: Result<Expr, Fault>)
    requires
        0 <= depth <= RECURS_LIMIT,
    ensures
        res_view(r) == gt_op_s(exp_a@, exp_b@, depth as int),
    decreases hmax(exp_a@, exp_b@), 1int,
{
    let bv: Expr;
    match rhs_exec(exp_b, depth) {
        Result::Ok(v) => {
            bv = v;
        },
        Result::Err(f) => {
            return Result::Err(f);
        },
    }
    if is_binop(&exp_a) {
        return eval_binop(exp_a, depth);
    }
    match exp_a {
        Expr::Bool(t) => Result::Ok(Expr::Bool(t && !Expr::parse_exp_boolean(bv))),
        Expr::Int(t) => Result::Ok(Expr::Bool(t > Expr::parse_exp_integer(bv))),
        Expr::Float(t) => Result::Ok(Expr::Bool(fbits::float_gt(t, Expr::parse_exp_float(bv)))),
        Expr::Str(t) => Result::Ok(Expr::Bool(str_lt(Expr::parse_exp_string(bv).as_str(), t.as_str()))),
        other => Result::Ok(other),
    }
}

/// Executable `<=`; see `lteq_op_s`.
pub fn lteq_exp(exp_a: Expr, exp_b: Expr, depth: i64) -> (r: Result<Expr, Fault>)
    requires
        0 <= depth <= RECURS_LIMIT,
    ensures
        res_view(r) == lteq_op_s(exp_a@, exp_b@, depth as int),
    decreases hmax(exp_a@, exp_b@), 1int,
{
    let bv: Expr;
    match rhs_exec(exp_b, depth) {
        Result::Ok(v) => {
            bv = v;
        },
        Result::Err(f) => {
            return Result::Err(f);
        },
    }
    if is_binop(&exp_a) {
        return eval_binop(exp_a, depth);
    }
    match exp_a {
        Expr::Bool(t) => Result::Ok(Expr::Bool(!t || Expr::parse_exp_boolean(bv))),
        Expr::Int(t) => Result::Ok(Expr::Bool(t <= Expr::parse_exp_integer(bv))),
        Expr::Float(t) => {
            let f = Expr::parse_exp_float(bv);
            Result::Ok(Expr::Bool(fbits::float_lt(t, f) || fbits::float_eq(t, f)))
        },
        Expr::Str(t) => {
            let bs = Expr::parse_exp_string(bv);
            Result::Ok(Expr::Bool(str_lt(t.as_str(), bs.as_str()) || t == bs))
        },
        other => Result::Ok(other),
    }
}

/// Executable `>=`; see `gteq_op_s`.
pub fn gteq_exp(exp_a: Expr, exp_b: Expr, depth: i64) -> (r: Result<Expr, Fault>)
    requires
        0 <= depth <= RECURS_LIMIT,
    ensures
        res_view(r) == gteq_op_s(exp_a@, exp_b@, depth as int),
    decreases hmax(exp_a@, exp_b@), 1int,
{
    let bv: Expr;
    match rhs_exec(exp_b, depth) {
        Result::Ok(v) => {
            bv = v;
        },
        Result::Err(f) => {
            return Result::Err(f);
        },
    }
    if is_binop(&exp_a) {
        return eval_binop(exp_a, depth);
    }
    match exp_a {
        Expr::Bool(t) => Result::Ok(Expr::Bool(t || !Expr::parse_exp_boolean(bv))),
        Expr::Int(t) => Result::Ok(Expr::Bool(t >= Expr::parse_exp_integer(bv))),
        Expr::Float(t) => {
            let f = Expr::parse_exp_float(bv);
            Result::Ok(Expr::Bool(fbits::float_gt(t, f) || fbits::float_eq(t, f)))
        },
        Expr::Str(t) => {
            let bs = Expr::parse_exp_string(bv);
            Result::Ok(Expr::Bool(str_lt(bs.as_str(), t.as_str()) || t == bs))
        },
        other => Result::Ok(other),
    }
}

/// Executable `|`; see `or_op_s`.
pub fn or_exp(exp_a: Expr, exp_b: Expr, depth: i64) -> (r: Result<Expr, Fault>)
    requires
        0 <= depth <= RECURS_LIMIT,
    ensures
        res_view(r) == or_op_s(exp_a@, exp_b@, depth as int),
    decreases hmax(exp_a@, exp_b@), 1int,
{
    let bv: Expr;
    match rhs_exec(exp_b, depth) {
        Result::Ok(v) => {
            bv = v;
        },
        Result::Err(f) => {
            return Result::Err(f);
        },
    }
    if is_binop(&exp_a) {
        return eval_binop(exp_a, depth);
    }
    match &exp_a {
        Expr::New => Result::Ok(exp_a),
        _ => {
            let ta = Expr::parse_exp_boolean(exp_a);
            let tb = Expr::parse_exp_boolean(bv);
            Result::Ok(Expr::Bool(ta || tb))
        },
    }
}

/// Executable `&`; see `and_op_s`.
pub fn and_exp(exp_a: Expr, exp_b: Expr, depth: i64) -> (r: Result<Expr, Fault>)
    requires
        0 <= depth <= RECURS_LIMIT,
    ensures
        res_view(r) == and_op_s(exp_a@, exp_b@, depth as int),
    decreases hmax(exp_a@, exp_b@), 1int,
{
    let bv: Expr;
    match rhs_exec(exp_b, depth) {
        Result::Ok(v) => {
            bv = v;
        },
        Result::Err(f) => {
            return Result::Err(f);
        },
    }
    if is_binop(&exp_a) {
        return eval_binop(exp_a, depth);
    }
    match &exp_a {
        Expr::New => Result::Ok(exp_a),
        _ => {
            let ta = Expr::parse_exp_boolean(exp_a);
            let tb = Expr::parse_exp_boolean(bv);
            Result::Ok(Expr::Bool(ta && tb))
        },
    }
}

/// Executable `^`; see `xor_op_s`.
pub fn xor_exp(exp_a: Expr, exp_b: Expr, depth: i64) -> (r: Result<Expr, Fault>)
    requires
        0 <= depth <= RECURS_LIMIT,
    ensures
        res_view(r) == xor_op_s(exp_a@, exp_b@, depth as int),
    decreases hmax(exp_a@, exp_b@), 1int,
{
    let bv: Expr;
    match rhs_exec(exp_b, depth) {
        Result::Ok(v) => {
            bv = v;
        },
        Result::Err(f) => {
            return Result::Err(f);
        },
    }
    if is_binop(&exp_a) {
        return eval_binop(exp_a, depth);
    }
    match &exp_a {
        Expr::New => Result::Ok(exp_a),
        _ => {
            let ta = Expr::parse_exp_boolean(exp_a);
            let tb = Expr::parse_exp_boolean(bv);
            Result::Ok(Expr::Bool(ta != tb))
        },
    }
}


/// Executable `+`; see `add_op_s`.
pub fn add_exp(exp_a: Expr, exp_b: Expr, depth: i64) -> (r: Result<Expr, Fault>)
    requires
        0 <= depth <= RECURS_LIMIT,
    ensures
        res_view(r) == add_op_s(exp_a@, exp_b@, depth as int),
    decreases hmax(exp_a@, exp_b@), 1int,
{
    let bv: Expr;
    match rhs_exec(exp_b, depth) {
        Result::Ok(v) => {
            bv = v;
        },
        Result::Err(f) => {
            return Result::Err(f);
        },
    }
    if is_binop(&exp_a) {
        return eval_binop(exp_a, depth);
    }
    match exp_a {
        Expr::Bool(t) => Result::Ok(Expr::Bool(t || Expr::parse_exp_boolean(bv))),
        Expr::Int(t) => Result::Ok(Expr::Int(t.wrapping_add(Expr::parse_exp_integer(bv)))),
        Expr::Float(t) => Result::Ok(Expr::Float(fbits::float_add(t, Expr::parse_exp_float(bv)))),
        Expr::Str(t) => {
            let mut s = Expr::parse_exp_string(bv);
            s.append(t.as_str());
            Result::Ok(Expr::Str(s))
        },
        other => Result::Ok(other),
    }
}

/// Executable `-`; see `sub_op_s`.
#[verifier::loop_isolation(false)]
pub fn sub_exp(exp_a: Expr, exp_b: Expr, depth: i64) -> (r: Result<Expr, Fault>)
    requires
        0 <= depth <= RECURS_LIMIT,
    ensures
        res_view(r) == sub_op_s(exp_a@, exp_b@, depth as int),
    decreases hmax(exp_a@, exp_b@), 1int,
{
    let bv: Expr;
    match rhs_exec(exp_b, depth) {
        Result::Ok(v) => {
            bv = v;
        },
        Result::Err(f) => {
            return Result::Err(f);
        },
    }
    if is_binop(&exp_a) {
        return eval_binop(exp_a, depth);
    }
    match exp_a {
        Expr::Bool(t) => Result::Ok(Expr::Bool(t != Expr::parse_exp_boolean(bv))),
        Expr::Int(t) => Result::Ok(Expr::Int(t.wrapping_sub(Expr::parse_exp_integer(bv)))),
        Expr::Float(t) => Result::Ok(Expr::Float(fbits::float_sub(t, Expr::parse_exp_float(bv)))),
        Expr::Str(t) => {
            let k = Expr::parse_exp_integer(bv);
            Result::Ok(Expr::Str(drop_tail(&t, k)))
        },
        other => Result::Ok(other),
    }
}

/// Executable `*`; see `mul_op_s`.
#[verifier::loop_isolation(false)]
pub fn mult_exp(exp_a: Expr, exp_b: Expr, depth: i64) -> (r: Result<Expr, Fault>)
    requires
        0 <= depth <= RECURS_LIMIT,
    ensures
        res_view(r) == mul_op_s(exp_a@, exp_b@, depth as int),
    decreases hmax(exp_a@, exp_b@), 1int,
{
    let bv: Expr;
    match rhs_exec(exp_b, depth) {
        Result::Ok(v) => {
            bv = v;
        },
        Result::Err(f) => {
            return Result::Err(f);
        },
    }
    if is_binop(&exp_a) {
        return eval_binop(exp_a, depth);
    }
    match exp_a {
        Expr::Bool(t) => Result::Ok(Expr::Bool(t && Expr::parse_exp_boolean(bv))),
        Expr::Int(t) => Result::Ok(Expr::Int(t.wrapping_mul(Expr::parse_exp_integer(bv)))),
        Expr::Float(t) => Result::Ok(Expr::Float(fbits::float_mul(t, Expr::parse_exp_float(bv)))),
        Expr::Str(t) => {
            let k = Expr::parse_exp_integer(bv);
            let mut out = t.clone();
            let mut c: i64 = 0;
            while c < k
                invariant
                    0 <= c,
                    k > 0 ==> c <= k,
                    k <= 0 ==> c == 0,
                    out@ == repeat_s(t@, c as int),
                decreases k - c,
            {
                out.append(t.as_str());
                c = c + 1;
            }
            Result::Ok(Expr::Str(out))
        },
        other => Result::Ok(other),
    }
}

/// Executable `/`; see `div_op_s`.
#[verifier::loop_isolation(false)]
pub fn div_exp(exp_a: Expr, exp_b: Expr, depth: i64) -> (r: Result<Expr, Fault>)
    requires
        0 <= depth <= RECURS_LIMIT,
    ensures
        res_view(r) == div_op_s(exp_a@, exp_b@, depth as int),
    decreases hmax(exp_a@, exp_b@), 1int,
{
    let bv: Expr;
    match rhs_exec(exp_b, depth) {
        Result::Ok(v) => {
            bv = v;
        },
        Result::Err(f) => {
            return Result::Err(f);
        },
    }
    if is_binop(&exp_a) {
        return eval_binop(exp_a, depth);
    }
    match exp_a {
        Expr::Bool(t) => Result::Ok(Expr::Bool(t != Expr::parse_exp_boolean(bv))),
        Expr::Int(t) => {
            let k = Expr::parse_exp_integer(bv);
            if k == 0 {
                Result::Err(Fault::DivByZero)
            } else if t == i64::MIN && k == -1 {
                Result::Err(Fault::Overflow)
            } else {
                Result::Ok(Expr::Int(div_trunc_i64(t, k)))
            }
        },
        Expr::Float(t) => Result::Ok(Expr::Float(fbits::float_div(t, Expr::parse_exp_float(bv)))),
        Expr::Str(t) => {
            let k = Expr::parse_exp_integer(bv);
            let chars = strutil::chars_of_str(t.as_str());
            let len = chars.len();
            let take: usize = if k <= 0 {
                0
            } else if (k as u64) >= (len as u64) {
                len
            } else {
                k as usize
            };
            let mut out: Vec<char> = Vec::new();
            let mut i: usize = 0;
            while i < take
                invariant
                    i <= take,
                    take <= len,
                    out@.len() == i,
                    forall|j: int| 0 <= j < i ==> out@[j] == t@[len - 1 - j],
                decreases take - i,
            {
                let c = chars[len - 1 - i];
                out.push(c);
                i = i + 1;
            }
            proof {
                assert(out@ =~= rev_tail(t@, k as int));
            }
            let s = strutil::string_from_chars(&out);
            Result::Ok(Expr::Str(s))
        },
        other => Result::Ok(other),
    }
}

/// Executable `%`; see `mod_op_s`.
#[verifier::loop_isolation(false)]
pub fn mod_exp(exp_a: Expr, exp_b: Expr, depth: i64) -> (r: Result<Expr, Fault>)
    requires
        0 <= depth <= RECURS_LIMIT,
    ensures
        res_view(r) == mod_op_s(exp_a@, exp_b@, depth as int),
    decreases hmax(exp_a@, exp_b@), 1int,
{
    let bv: Expr;
    match rhs_exec(exp_b, depth) {
        Result::Ok(v) => {
            bv = v;
        },
        Result::Err(f) => {
            return Result::Err(f);
        },
    }
    if is_binop(&exp_a) {
        return eval_binop(exp_a, depth);
    }
    match exp_a {
        Expr::Bool(t) => Result::Ok(Expr::Bool(t != Expr::parse_exp_boolean(bv))),
        Expr::Int(t) => {
            let k = Expr::parse_exp_integer(bv);
            if k == 0 {
                Result::Err(Fault::DivByZero)
            } else if t == i64::MIN && k == -1 {
                Result::Err(Fault::Overflow)
            } else {
                Result::Ok(Expr::Int(rem_trunc_i64(t, k)))
            }
        },
        Expr::Float(t) => Result::Ok(Expr::Float(fbits::float_rem(t, Expr::parse_exp_float(bv)))),
        Expr::Str(t) => {
            let bs = Expr::parse_exp_string(bv);
            let bchars = strutil::chars_of_str(bs.as_str());
            let k64 = bchars.len() as u64;
            let k: i64 = if k64 <= 0x7fff_ffff_ffff_ffff {
                k64 as i64
            } else {
                0x7fff_ffff_ffff_ffff
            };
            proof {
                assert(k as int == to_seq_s(bv@).len() || to_seq_s(bv@).len()
                    > 0x7fff_ffff_ffff_ffff);
            }
            Result::Ok(Expr::Str(drop_tail_big(&t, bchars.len())))
        },
        other => Result::Ok(other),
    }
}

/// The string with its last `k` characters removed; `k` below zero removes
/// none.
#[verifier::loop_isolation(false)]
fn drop_tail(t: &String, k: i64) -> (r: String)
    ensures
        r@ == drop_chars(t@, k as int),
{
    let mut chars = strutil::chars_of_str(t.as_str());
    let len = chars.len();
    let keep: usize = if k <= 0 {
        len
    } else if (k as u64) >= (len as u64) {
        0
    } else {
        len - (k as usize)
    };
    chars.truncate(keep);
    proof {
        assert(chars@ =~= drop_chars(t@, k as int));
    }
    strutil::string_from_chars(&chars)
}

/// The string with its last `k` characters removed, for a count that is
/// already a machine size.
#[verifier::loop_isolation(false)]
fn drop_tail_big(t: &String, k: usize) -> (r: String)
    ensures
        r@ == drop_chars(t@, k as int),
{
    let mut chars = strutil::chars_of_str(t.as_str());
    let len = chars.len();
    let keep: usize = if k >= len {
        0
    } else {
        len - k
    };
    chars.truncate(keep);
    proof {
        assert(chars@ =~= drop_chars(t@, k as int));
    }
    strutil::string_from_chars(&chars)
}

/// One reduction step over a pending expression: mirrors `reduce_s` exactly,
/// truncating silently at the shared depth limit.
pub fn eval_binop(exp: Expr, depth: i64) -> (r: Result<Expr, Fault>)
    requires
        0 <= depth <= RECURS_LIMIT,
    ensures
        res_view(r) == reduce_s(exp@, depth as int),
    decreases height_s(exp@), 3int,
{
    if depth + 1 >= RECURS_LIMIT {
        return Result::Ok(exp);
    }
    let d = depth + 1;
    match exp {
        Expr::BinOp(a, op, b) => {
            let av = *a;
            let bv = *b;
            match op {
                Token::Add => add_exp(av, bv, d),
                Token::Sub => sub_exp(av, bv, d),
                Token::Multiply => mult_exp(av, bv, d),
                Token::Divide => div_exp(av, bv, d),
                Token::Mod => mod_exp(av, bv, d),
                Token::Equals => eq_exp(av, bv, d),
                Token::Neq => neq_exp(av, bv, d),
                Token::Lt => lt_exp(av, bv, d),
                Token::Gt => gt_exp(av, bv, d),
                Token::LtEq => lteq_exp(av, bv, d),
                Token::GtEq => gteq_exp(av, bv, d),
                Token::Or => or_exp(av, bv, d),
                Token::And => and_exp(av, bv, d),
                Token::Xor => xor_exp(av, bv, d),
                _ => Result::Ok(Expr::New),
            }
        },
        other => Result::Ok(other),
    }
}


/// `+` on two strings is order-reversing: the reduction of
/// `Str(a) + Str(b)` yields the right operand's text followed by the
/// left's, so `"x" + "y"` evaluates to `"yx"`.
pub proof fn lemma_string_add_reverses(a: Seq<char>, b: Seq<char>, depth: int)
    requires
        depth + 1 < RECURS_LIMIT as int,
    ensures
        reduce_s(
            ExprS::BinOp(Box::new(ExprS::Str(a)), TokenS::Add, Box::new(ExprS::Str(b))),
            depth,
        ) == Result::<ExprS, Fault>::Ok(ExprS::Str(b + a)),
{
    let v = ExprS::BinOp(Box::new(ExprS::Str(a)), TokenS::Add, Box::new(ExprS::Str(b)));
    assert(reduce_s(v, depth) == add_op_s(ExprS::Str(a), ExprS::Str(b), depth + 1));
    assert(rhs_s(ExprS::Str(b), depth + 1) == Result::<ExprS, Fault>::Ok(ExprS::Str(b)));
    assert(to_seq_s(ExprS::Str(b)) == b);
}

/// Integer division and remainder fault exactly on a zero divisor (or the
/// one overflowing quotient); float division and remainder never fault,
/// following IEEE semantics instead.
pub proof fn lemma_div_fatality(t: i64, f: u64, b: ExprS, depth: int)
    requires
        depth + 1 < RECURS_LIMIT as int,
        !(b is BinOp),
    ensures
        to_int_s(b) == 0 ==> div_op_s(ExprS::Int(t), b, depth + 1) == Result::<
            ExprS,
            Fault,
        >::Err(Fault::DivByZero),
        to_int_s(b) == 0 ==> mod_op_s(ExprS::Int(t), b, depth + 1) == Result::<
            ExprS,
            Fault,
        >::Err(Fault::DivByZero),
        div_op_s(ExprS::Float(f), b, depth + 1) is Ok,
        mod_op_s(ExprS::Float(f), b, depth + 1) is Ok,
{
    assert(rhs_s(b, depth + 1) == Result::<ExprS, Fault>::Ok(b));
}


} // verus!
