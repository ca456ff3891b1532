use vstd::prelude::*;
use vstd::arithmetic::power::pow;
use crate::ast::Op;
use crate::numeral::fits_i64;
use crate::semantics::{abs, apply, checked, invalid_operation, lift, trunc_div, Fault};
use crate::value::Value;

verus! {

use vstd::string::*;

proof fn lemma_pow_unit(x: int, n: nat)
    requires
        x == 1 || x == -1,
    ensures
        pow(x, n) == (if x == 1 || n % 2 == 0 {
            1int
        } else {
            -1int
        }),
    decreases n,
{
    reveal(pow);
    if n > 0 {
        lemma_pow_unit(x, (n - 1) as nat);
    }
}

proof fn lemma_abs_mul(x: int, p: int)
    ensures
        abs(x * p) == abs(x) * abs(p),
{
    if x >= 0 && p >= 0 {
        assert(x * p >= 0) by (nonlinear_arith)
            requires
                x >= 0,
                p >= 0,
        ;
    } else if x >= 0 {
        assert(x * p <= 0 && -(x * p) == x * (-p)) by (nonlinear_arith)
            requires
                x >= 0,
                p < 0,
        ;
    } else if p >= 0 {
        assert(x * p <= 0 && -(x * p) == (-x) * p) by (nonlinear_arith)
            requires
                x < 0,
                p >= 0,
        ;
    } else {
        assert(x * p > 0 && x * p == (-x) * (-p)) by (nonlinear_arith)
            requires
                x < 0,
                p < 0,
        ;
    }
}

/// Powers of a base of magnitude at least 2 grow in magnitude.
proof fn lemma_pow_grows(x: int, i: nat, j: nat)
    requires
        abs(x) >= 2,
        i <= j,
    ensures
        abs(pow(x, i)) <= abs(pow(x, j)),
        i < j ==> 2 * abs(pow(x, i)) <= abs(pow(x, j)),
    decreases j - i,
{
    reveal(pow);
    if i < j {
        let jm = (j - 1) as nat;
        lemma_pow_grows(x, i, jm);
        let p = pow(x, jm);
        assert(pow(x, j) == x * p);
        lemma_abs_mul(x, p);
        let ax = abs(x);
        let ap = abs(p);
        assert(ax * ap >= 2 * ap) by (nonlinear_arith)
            requires
                ax >= 2,
                ap >= 0,
        ;
    }
}

fn magnitude_of(x: i64) -> (r: u64)
    ensures
        r as int == abs(x as int),
{
    if x < 0 {
        ((-(x + 1)) as u64) + 1
    } else {
        x as u64
    }
}

fn checked_value(v: Option<i64>) -> (r: Result<Value, Fault>)
    ensures
        v matches Some(n) ==> r matches Ok(Value::Number(m)) && m == n,
        v is None ==> r == Err::<Value, Fault>(Fault::Overflow),
{
    match v {
        Some(n) => Ok(Value::Number(n)),
        None => Err(Fault::Overflow),
    }
}

/// `x / y` truncated toward zero.
fn trunc_divide(x: i64, y: i64) -> (r: Result<Value, Fault>)
    requires
        y != 0,
    ensures
        lift(r) == checked(trunc_div(x as int, y as int)),
{
    let ax = magnitude_of(x);
    let ay = magnitude_of(y);
    let q = ax / ay;
    assert(q <= ax) by (nonlinear_arith)
        requires
            ay >= 1,
            q == ax / ay,
            ax >= 0,
    ;
    if (x < 0) == (y < 0) {
        if q > 0x7fff_ffff_ffff_ffff {
            Err(Fault::Overflow)
        } else {
            Ok(Value::Number(q as i64))
        }
    } else if q == 0x8000_0000_0000_0000 {
        Ok(Value::Number(i64::MIN))
    } else {
        Ok(Value::Number(-(q as i64)))
    }
}

/// `x` raised to `y`.
fn power(x: i64, y: i64) -> (r: Result<Value, Fault>)
    requires
        y >= 0,
    ensures
        lift(r) == checked(pow(x as int, y as nat)),
{
    proof {
        reveal(pow);
    }
    if x == 0 {
        if y == 0 {
            assert(pow(0, 0) == 1);
            Ok(Value::Number(1))
        } else {
            assert(pow(0, y as nat) == 0 * pow(0, (y - 1) as nat));
            Ok(Value::Number(0))
        }
    } else if x == 1 || x == -1 {
        proof {
            lemma_pow_unit(x as int, y as nat);
        }
        if x == 1 || y % 2 == 0 {
            Ok(Value::Number(1))
        } else {
            Ok(Value::Number(-1))
        }
    } else {
        let mut acc: i64 = 1;
        let mut i: i64 = 0;
        assert(pow(x as int, 0) == 1);
        while i < y
            invariant
                0 <= i <= y,
                abs(x as int) >= 2,
                acc as int == pow(x as int, i as nat),
            decreases y - i,
        {
            proof {
                reveal(pow);
            }
            assert(pow(x as int, (i + 1) as nat) == x * pow(x as int, i as nat));
            assert((x as int) * (acc as int) == (acc as int) * (x as int)) by (nonlinear_arith);
            match acc.checked_mul(x) {
                Some(z) => {
                    acc = z;
                    i = i + 1;
                },
                None => {
                    proof {
                        let p1 = pow(x as int, (i + 1) as nat);
                        assert(p1 == acc * x);
                        assert(!fits_i64(p1));
                        if i + 1 < y {
                            lemma_pow_grows(x as int, (i + 1) as nat, y as nat);
                        }
                    }
                    return Err(Fault::Overflow);
                },
            }
        }
        Ok(Value::Number(acc))
    }
}

/// One step of a binary fold.
pub fn apply_op(op: &Op, a: Value, b: Value) -> (r: Result<Value, Fault>)
    ensures
        lift(r) == apply(*op, a@, b@),
{
    let invalid = Value::Text(String::from_str("Error: Invalid operation"));
    assert(invalid@ == invalid_operation());
    match (a, b) {
        (Value::Number(x), Value::Number(y)) => match op {
            Op::Add => checked_value(x.checked_add(y)),
            Op::Sub => checked_value(x.checked_sub(y)),
            Op::Mul => checked_value(x.checked_mul(y)),
            Op::Div => if y == 0 {
                Err(Fault::DivideByZero)
            } else {
                trunc_divide(x, y)
            },
            Op::Pow => if y < 0 {
                Err(Fault::NegativeExponent)
            } else {
                power(x, y)
            },
            Op::Eq => Ok(Value::Number(if x == y { 1 } else { 0 })),
            Op::Ge => Ok(Value::Number(if x >= y { 1 } else { 0 })),
            Op::Le => Ok(Value::Number(if x <= y { 1 } else { 0 })),
            Op::Other(_) => Ok(invalid),
        },
        _ => Ok(invalid),
    }
}

} // verus!
