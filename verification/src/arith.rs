//! The arithmetic of the built-in binary operations: 32-bit two's-complement
//! wrapping for `+ - * /`, division rounding toward zero, and the 0/1 result
//! of the comparison.

use vstd::arithmetic::div_mod::{
    lemma_mod_add_multiples_vanish, lemma_mod_multiples_vanish, lemma_small_mod,
};
use vstd::prelude::*;

use crate::value::NativeOp;

verus! {

/// The 32-bit two's-complement wrap of an integer.
pub open spec fn wrap_i32(n: int) -> int {
    let m = n % 0x1_0000_0000;
    if m >= 0x8000_0000 {
        m - 0x1_0000_0000
    } else {
        m
    }
}

/// Division rounding toward zero, as the machine's `/` computes it.
pub open spec fn trunc_div(a: int, b: int) -> int {
    let q = vstd::math::abs(a) / vstd::math::abs(b);
    if (a < 0) != (b < 0) {
        -q
    } else {
        q as int
    }
}

/// Whether `op` is one of the five binary number primitives.
pub open spec fn is_arith(op: NativeOp) -> bool {
    ||| op == NativeOp::Add
    ||| op == NativeOp::Sub
    ||| op == NativeOp::Mul
    ||| op == NativeOp::Div
    ||| op == NativeOp::Lt
}

/// What a binary number primitive computes from its left and right operand.
pub open spec fn arith_result(op: NativeOp, lhs: int, rhs: int) -> int {
    match op {
        NativeOp::Add => wrap_i32(lhs + rhs),
        NativeOp::Sub => wrap_i32(lhs - rhs),
        NativeOp::Mul => wrap_i32(lhs * rhs),
        NativeOp::Div => wrap_i32(trunc_div(lhs, rhs)),
        NativeOp::Lt => if lhs < rhs {
            1
        } else {
            0
        },
        _ => 0,
    }
}

/// Wrapping is the identity on values already in 32-bit range.
pub proof fn lemma_wrap_small(v: int)
    requires
        -0x8000_0000 <= v < 0x8000_0000,
    ensures
        wrap_i32(v) == v,
{
    if v >= 0 {
        lemma_small_mod(v as nat, 0x1_0000_0000 as nat);
    } else {
        lemma_mod_add_multiples_vanish(v, 0x1_0000_0000);
        lemma_small_mod((v + 0x1_0000_0000) as nat, 0x1_0000_0000 as nat);
    }
}

/// Wrap a value no further than one width outside the 32-bit range.
fn wrap_narrow(s: i64) -> (r: i32)
    requires
        -0x1_0000_0000 <= s < 0x1_0000_0000,
    ensures
        r as int == wrap_i32(s as int),
{
    if s > 0x7fff_ffff {
        proof {
            lemma_small_mod(s as nat, 0x1_0000_0000 as nat);
        }
        (s - 0x1_0000_0000) as i32
    } else if s < -0x8000_0000 {
        proof {
            lemma_mod_add_multiples_vanish(s as int, 0x1_0000_0000);
            lemma_small_mod((s + 0x1_0000_0000) as nat, 0x1_0000_0000 as nat);
        }
        (s + 0x1_0000_0000) as i32
    } else {
        proof {
            lemma_wrap_small(s as int);
        }
        s as i32
    }
}

/// The wrapped 32-bit product.
fn wrap_mul(a: i32, b: i32) -> (r: i32)
    ensures
        r as int == wrap_i32((a as int) * (b as int)),
{
    if a == i32::MIN && b == i32::MIN {
        proof {
            lemma_mod_multiples_vanish(0x4000_0000, 0, 0x1_0000_0000);
            lemma_small_mod(0 as nat, 0x1_0000_0000 as nat);
            assert(a as int * b as int == 0x1_0000_0000 * 0x4000_0000);
        }
        return 0;
    }
    proof {
        assert(-0x4000_0000_0000_0000 <= (a as int) * (b as int)
            && (a as int) * (b as int) < 0x4000_0000_0000_0000) by (nonlinear_arith)
            requires
                -0x8000_0000 <= a as int <= 0x7fff_ffff,
                -0x8000_0000 <= b as int <= 0x7fff_ffff,
                !(a as int == -0x8000_0000 && b as int == -0x8000_0000);
    }
    let p: i64 = (a as i64) * (b as i64);
    let q: i64 = p + 0x4000_0000_0000_0000;
    let qu: u64 = q as u64;
    let low: u64 = qu % 0x1_0000_0000;
    proof {
        lemma_mod_multiples_vanish(0x4000_0000, p as int, 0x1_0000_0000);
        assert(0x1_0000_0000 * 0x4000_0000 + p == q as int);
        assert(low as int == p as int % 0x1_0000_0000);
    }
    if low >= 0x8000_0000 {
        ((low as i64) - 0x1_0000_0000) as i32
    } else {
        low as i32
    }
}

/// The wrapped 32-bit quotient, rounding toward zero.
fn wrap_div(a: i32, b: i32) -> (r: i32)
    requires
        b != 0,
    ensures
        r as int == wrap_i32(trunc_div(a as int, b as int)),
{
    let ma: u64 = if a < 0 {
        (-(a as i64)) as u64
    } else {
        a as u64
    };
    let mb: u64 = if b < 0 {
        (-(b as i64)) as u64
    } else {
        b as u64
    };
    proof {
        assert(ma as int == vstd::math::abs(a as int));
        assert(mb as int == vstd::math::abs(b as int));
    }
    let q: u64 = ma / mb;
    proof {
        assert(q <= ma) by (nonlinear_arith)
            requires
                mb >= 1,
                q == ma / mb;
    }
    let neg = (a < 0) != (b < 0);
    if neg {
        proof {
            lemma_wrap_small(-(q as int));
        }
        (-(q as i64)) as i32
    } else if q > 0x7fff_ffff {
        proof {
            assert(q == 0x8000_0000);
            lemma_small_mod(0x8000_0000 as nat, 0x1_0000_0000 as nat);
        }
        i32::MIN
    } else {
        proof {
            lemma_wrap_small(q as int);
        }
        q as i32
    }
}

/// Compute one binary number primitive; division by zero is ruled out by
/// the caller.
pub fn arith_exec(op: NativeOp, lhs: i32, rhs: i32) -> (r: i32)
    requires
        is_arith(op),
        op == NativeOp::Div ==> rhs != 0,
    ensures
        r as int == arith_result(op, lhs as int, rhs as int),
{
    match op {
        NativeOp::Add => wrap_narrow((lhs as i64) + (rhs as i64)),
        NativeOp::Sub => wrap_narrow((lhs as i64) - (rhs as i64)),
        NativeOp::Mul => wrap_mul(lhs, rhs),
        NativeOp::Div => wrap_div(lhs, rhs),
        _ => {
            if lhs < rhs {
                1
            } else {
                0
            }
        },
    }
}

} // verus!
