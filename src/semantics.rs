use vstd::prelude::*;
use vstd::arithmetic::power::pow;
use crate::ast::{Expr, Mutator, Op, Stmt};
use crate::numeral::{fits_i64, literal_value};
use crate::value::{show, texts, Val, Value};

verus! {

use vstd::string::*;

broadcast use vstd::std_specs::vec::group_vec_axioms, vstd::seq::group_seq_axioms;

/// A structural error: it aborts the statement it occurs in.
#[derive(Debug, Clone, Copy, PartialEq, Eq, Structural)]
pub enum Fault {
    /// A numeric literal that does not parse.
    BadNumber,
    DivideByZero,
    /// An arithmetic result outside the 64-bit range.
    Overflow,
    NegativeExponent,
}

/// What the evaluator has built so far: the variables and the lines reported.
pub struct World {
    pub vars: Map<Seq<char>, Val>,
    pub out: Seq<Seq<char>>,
}

pub open spec fn emit(w: World, line: Seq<char>) -> World {
    World { vars: w.vars, out: w.out.push(line) }
}

pub open spec fn bind(w: World, name: Seq<char>, v: Val) -> World {
    World { vars: w.vars.insert(name, v), out: w.out }
}

pub open spec fn lift(r: Result<Value, Fault>) -> Result<Val, Fault> {
    match r {
        Ok(v) => Ok(v@),
        Err(f) => Err(f),
    }
}

pub open spec fn fault_of<T>(r: Result<T, Fault>) -> Option<Fault> {
    match r {
        Ok(_) => None,
        Err(f) => Some(f),
    }
}

pub open spec fn fault_text(f: Fault) -> Seq<char> {
    match f {
        Fault::BadNumber => "Error: invalid number literal"@,
        Fault::DivideByZero => "Error: division by zero"@,
        Fault::Overflow => "Error: arithmetic overflow"@,
        Fault::NegativeExponent => "Error: negative exponent"@,
    }
}

impl Fault {
    /// The line that reports this fault.
    pub fn message(&self) -> (r: String)
        ensures
            r@ == fault_text(*self),
    {
        match self {
            Fault::BadNumber => String::from_str("Error: invalid number literal"),
            Fault::DivideByZero => String::from_str("Error: division by zero"),
            Fault::Overflow => String::from_str("Error: arithmetic overflow"),
            Fault::NegativeExponent => String::from_str("Error: negative exponent"),
        }
    }
}

pub open spec fn invalid_operation() -> Val {
    Val::Text("Error: Invalid operation"@)
}

pub open spec fn abs(x: int) -> int {
    if x < 0 {
        -x
    } else {
        x
    }
}

/// Integer division truncating toward zero.
pub open spec fn trunc_div(x: int, y: int) -> int {
    if (x < 0) == (y < 0) {
        abs(x) / abs(y)
    } else {
        -(abs(x) / abs(y))
    }
}

pub open spec fn checked(v: int) -> Result<Val, Fault> {
    if fits_i64(v) {
        Ok(Val::Num(v))
    } else {
        Err(Fault::Overflow)
    }
}

pub open spec fn flag(b: bool) -> Val {
    Val::Num(if b {
        1
    } else {
        0
    })
}

/// One step of a binary fold: both operands must be numbers and the operator known,
/// else the result is an error text.
pub open spec fn apply(op: Op, a: Val, b: Val) -> Result<Val, Fault> {
    match (a, b) {
        (Val::Num(x), Val::Num(y)) => match op {
            Op::Add => checked(x + y),
            Op::Sub => checked(x - y),
            Op::Mul => checked(x * y),
            Op::Div => if y == 0 {
                Err(Fault::DivideByZero)
            } else {
                checked(trunc_div(x, y))
            },
            Op::Pow => if y < 0 {
                Err(Fault::NegativeExponent)
            } else {
                checked(pow(x, y as nat))
            },
            Op::Eq => Ok(flag(x == y)),
            Op::Ge => Ok(flag(x >= y)),
            Op::Le => Ok(flag(x <= y)),
            Op::Other(_) => Ok(invalid_operation()),
        },
        _ => Ok(invalid_operation()),
    }
}

/// What a call reports: the argument's display form for `print`, else an error line.
pub open spec fn call_line(name: Seq<char>, v: Val) -> Seq<char> {
    if name == "print"@ {
        show(v)
    } else {
        "Error: Unknown function"@
    }
}

pub open spec fn undefined(name: Seq<char>) -> Val {
    Val::Text("undefined variable: "@ + name)
}

/// Evaluates an expression: the world after it (calls may report lines) and its value.
pub open spec fn eval(w: World, base: u32, e: Expr) -> (World, Result<Val, Fault>)
    decreases e, 0nat,
{
    match e {
        Expr::Text(s) => (w, Ok(Val::Text(s@))),
        Expr::Number(t) => match literal_value(t@, base as int) {
            Some(n) => (w, Ok(Val::Num(n))),
            None => (w, Err(Fault::BadNumber)),
        },
        Expr::Array(items) => {
            let (w1, r) = eval_items(w, base, items@, 0, Seq::empty());
            match r {
                Ok(vs) => (w1, Ok(Val::List(vs))),
                Err(f) => (w1, Err(f)),
            }
        },
        Expr::Ident(name) => if w.vars.contains_key(name@) {
            (w, Ok(w.vars[name@]))
        } else {
            (w, Ok(undefined(name@)))
        },
        Expr::Binary(first, rest) => {
            let (w1, r) = eval(w, base, *first);
            match r {
                Ok(a) => fold_ops(w1, base, a, rest@, 0),
                Err(f) => (w1, Err(f)),
            }
        },
        Expr::Function(ps, body) => (w, Ok(Val::Func(texts(ps@), body@))),
        Expr::Call(name, arg) => call_outcome(w, base, name@, *arg),
        Expr::Unknown => (w, Ok(Val::Text("Error: Unknown expression type"@))),
    }
}

/// Evaluates the argument of a call and reports per `call_line`; the call's value
/// is the empty text.
pub open spec fn call_outcome(w: World, base: u32, name: Seq<char>, arg: Expr) -> (
    World,
    Result<Val, Fault>,
)
    decreases arg, 1nat,
{
    let (w1, r) = eval(w, base, arg);
    match r {
        Ok(v) => (emit(w1, call_line(name, v)), Ok(Val::Text(Seq::empty()))),
        Err(f) => (w1, Err(f)),
    }
}

/// Evaluates `items[i..]` left to right after the values `acc`.
pub open spec fn eval_items(w: World, base: u32, items: Seq<Expr>, i: int, acc: Seq<Val>) -> (
    World,
    Result<Seq<Val>, Fault>,
)
    decreases items, (items.len() - i) as nat,
{
    if i < 0 || i >= items.len() {
        (w, Ok(acc))
    } else {
        let (w1, r) = eval(w, base, items[i]);
        match r {
            Ok(v) => eval_items(w1, base, items, i + 1, acc.push(v)),
            Err(f) => (w1, Err(f)),
        }
    }
}

/// Folds `rest[i..]` from the left onto `acc`.
pub open spec fn fold_ops(w: World, base: u32, acc: Val, rest: Seq<(Op, Expr)>, i: int) -> (
    World,
    Result<Val, Fault>,
)
    decreases rest, (rest.len() - i) as nat,
{
    if i < 0 || i >= rest.len() {
        (w, Ok(acc))
    } else {
        let (w1, r) = eval(w, base, rest[i].1);
        match r {
            Ok(b) => match apply(rest[i].0, acc, b) {
                Ok(c) => fold_ops(w1, base, c, rest, i + 1),
                Err(f) => (w1, Err(f)),
            },
            Err(f) => (w1, Err(f)),
        }
    }
}

/// Runs one statement: the world after it, and the fault that cut it short, if any.
pub open spec fn run(w: World, base: u32, s: Stmt) -> (World, Option<Fault>)
    decreases s, 0nat,
{
    match s {
        Stmt::Assign(name, e) => {
            let (w1, r) = eval(w, base, e);
            match r {
                Ok(v) => (bind(w1, name@, v), None),
                Err(f) => (w1, Some(f)),
            }
        },
        Stmt::Call(name, e) => {
            let (w1, r) = call_outcome(w, base, name@, e);
            (w1, fault_of(r))
        },
        Stmt::For { var, mutator, target, target_text, step, body } => {
            let (w1, t) = eval(w, base, target);
            match t {
                Err(f) => (w1, Some(f)),
                Ok(tv) => {
                    let (w2, sr) = match step {
                        Some(e) => eval(w1, base, e),
                        None => (w1, Ok(Val::Num(1))),
                    };
                    match sr {
                        Err(f) => (w2, Some(f)),
                        Ok(sv) => match mutator {
                            Mutator::In => match (tv, sv) {
                                (Val::Num(end), Val::Num(by)) => if by <= 0 && end > 0 {
                                    (emit(w2, "Error: Invalid for loop step"@), None)
                                } else {
                                    run_range(w2, base, var@, 0, end, by, body@)
                                },
                                _ => (emit(w2, "Error: Invalid for loop parameters"@), None),
                            },
                            Mutator::Of => match tv {
                                Val::List(items) => {
                                    let (w3, f, acc) = run_each(
                                        w2,
                                        base,
                                        var@,
                                        items,
                                        0,
                                        Seq::empty(),
                                        body@,
                                    );
                                    match f {
                                        Some(f) => (w3, Some(f)),
                                        None => (bind(w3, target_text@, Val::List(acc)), None),
                                    }
                                },
                                _ => (emit(w2, "Error: Invalid for loop parameters"@), None),
                            },
                            Mutator::Other(_) => (
                                emit(w2, "Error: Invalid for loop mutator"@),
                                None,
                            ),
                        },
                    }
                },
            }
        },
        Stmt::If(c, then_block, else_block) => {
            let (w1, r) = eval(w, base, c);
            match r {
                Err(f) => (w1, Some(f)),
                Ok(Val::Num(n)) => if n != 0 {
                    run_block(w1, base, then_block@, 0)
                } else {
                    match else_block {
                        Some(b) => run_block(w1, base, b@, 0),
                        None => (w1, None),
                    }
                },
                Ok(_) => (w1, None),
            }
        },
        Stmt::Which(cases) => run_cases(w, base, cases@, 0),
        Stmt::Bare(e) => {
            let (w1, r) = eval(w, base, e);
            match r {
                Ok(v) => (emit(bind(w1, "ans"@, v), "ans = "@ + show(v)), None),
                Err(f) => (w1, Some(f)),
            }
        },
        Stmt::Show(name) => if w.vars.contains_key(name@) {
            (emit(w, name@ + " = "@ + show(w.vars[name@])), None)
        } else {
            (emit(w, name@ + " is not defined"@), None)
        },
        Stmt::Skip => (w, None),
    }
}

/// Runs `b[i..]` in order, stopping at the first fault.
pub open spec fn run_block(w: World, base: u32, b: Seq<Stmt>, i: int) -> (World, Option<Fault>)
    decreases b, (b.len() - i) as nat,
{
    if i < 0 || i >= b.len() {
        (w, None)
    } else {
        let (w1, f) = run(w, base, b[i]);
        match f {
            Some(f) => (w1, Some(f)),
            None => run_block(w1, base, b, i + 1),
        }
    }
}

/// Tries the cases from `i` on: the first whose condition is a nonzero number, or
/// the default, runs its block; the rest are not evaluated.
pub open spec fn run_cases(w: World, base: u32, cases: Seq<(Option<Expr>, Vec<Stmt>)>, i: int) -> (
    World,
    Option<Fault>,
)
    decreases cases, (cases.len() - i) as nat,
{
    if i < 0 || i >= cases.len() {
        (w, None)
    } else {
        match cases[i].0 {
            None => run_block(w, base, cases[i].1@, 0),
            Some(c) => {
                let (w1, r) = eval(w, base, c);
                match r {
                    Err(f) => (w1, Some(f)),
                    Ok(Val::Num(n)) => if n != 0 {
                        run_block(w1, base, cases[i].1@, 0)
                    } else {
                        run_cases(w1, base, cases, i + 1)
                    },
                    Ok(_) => run_cases(w1, base, cases, i + 1),
                }
            },
        }
    }
}

/// The counting loop from `cur`: binds `var` to `cur`, runs the body, and
/// advances by `step` while the counter stays below `end`.
pub open spec fn run_range(
    w: World,
    base: u32,
    var: Seq<char>,
    cur: int,
    end: int,
    step: int,
    body: Seq<Stmt>,
) -> (World, Option<Fault>)
    decreases body, (body.len() + 1 + end - cur) as nat,
{
    if cur >= end || step <= 0 {
        (w, None)
    } else {
        let (w1, f) = run_block(bind(w, var, Val::Num(cur)), base, body, 0);
        match f {
            Some(f) => (w1, Some(f)),
            None => if fits_i64(cur + step) && cur + step < end {
                run_range(w1, base, var, cur + step, end, step, body)
            } else {
                (w1, None)
            },
        }
    }
}

/// The array loop from element `i`: binds `var` to the element, runs the body, and
/// collects what `var` holds afterwards onto `acc`.
pub open spec fn run_each(
    w: World,
    base: u32,
    var: Seq<char>,
    items: Seq<Val>,
    i: int,
    acc: Seq<Val>,
    body: Seq<Stmt>,
) -> (World, Option<Fault>, Seq<Val>)
    decreases body, (body.len() + 1 + items.len() - i) as nat,
{
    if i < 0 || i >= items.len() {
        (w, None, acc)
    } else {
        let (w1, f) = run_block(bind(w, var, items[i]), base, body, 0);
        match f {
            Some(f) => (w1, Some(f), acc),
            None => run_each(w1, base, var, items, i + 1, acc.push(w1.vars[var]), body),
        }
    }
}

/// Runs top-level statements from `i` on; a fault ends only its own statement and
/// is reported.
pub open spec fn run_program(w: World, base: u32, prog: Seq<Stmt>, i: int) -> World
    decreases prog.len() - i,
{
    if i < 0 || i >= prog.len() {
        w
    } else {
        let (w1, f) = run(w, base, prog[i]);
        let w2 = match f {
            Some(f) => emit(w1, fault_text(f)),
            None => w1,
        };
        run_program(w2, base, prog, i + 1)
    }
}

} // verus!
