use vstd::prelude::*;
use crate::ast::{Expr, Mutator, Op, Stmt};
use crate::numeral::{decimal_value, fits_i64, in_radix, literal_value, no_b};
use crate::semantics::{
    apply, bind, call_outcome, emit, eval, eval_items, fold_ops, run, run_block, run_cases,
    run_each, run_program, run_range, undefined, Fault, World,
};
use crate::value::{int_text, show, Val};
use vstd::arithmetic::div_mod::{lemma_basic_div, lemma_div_plus_one};

verus! {

/// A literal `<digits>b<radix>` denotes the digits read in that radix (the radix
/// written in decimal, from 2 to 36); a literal without the marker is read in the
/// default base.
pub proof fn lemma_radix_marker(digits: Seq<char>, radix: Seq<char>, base: int)
    requires
        no_b(digits),
        no_b(radix),
    ensures
        literal_value(digits + seq!['b'] + radix, base) == match decimal_value(radix) {
            Some(r) => in_radix(digits, r),
            None => None,
        },
        literal_value(digits, base) == in_radix(digits, base),
{
    let s = digits + seq!['b'] + radix;
    let n = digits.len() as int;
    assert(s[n] == 'b');
    assert(!no_b(s));
    let p = choose|p: int| 0 <= p < s.len() && s[p] == 'b';
    if p < n {
        assert(digits[p] == s[p]);
    } else if p > n {
        assert(radix[p - n - 1] == s[p]);
    }
    assert(p == n);
    assert(s.subrange(0, p) =~= digits);
    assert(s.subrange(p + 1, s.len() as int) =~= radix);
}

/// The operators fold from the left: `a op1 b op2 c` is `(a op1 b) op2 c`.
pub proof fn lemma_fold_left(
    w: World,
    base: u32,
    a: Val,
    rest: Seq<(Op, Expr)>,
    b: Val,
    c: Val,
    ab: Val,
)
    requires
        rest.len() == 2,
        eval(w, base, rest[0].1) == (w, Ok::<Val, Fault>(b)),
        eval(w, base, rest[1].1) == (w, Ok::<Val, Fault>(c)),
        apply(rest[0].0, a, b) == Ok::<Val, Fault>(ab),
    ensures
        fold_ops(w, base, a, rest, 0) == (w, apply(rest[1].0, ab, c)),
{
    assert(fold_ops(w, base, ab, rest, 1) == (w, apply(rest[1].0, ab, c))) by {
        assert(fold_ops(w, base, ab, rest, 2) == (w, Ok::<Val, Fault>(ab)));
        match apply(rest[1].0, ab, c) {
            Ok(abc) => {
                assert(fold_ops(w, base, abc, rest, 2) == (w, Ok::<Val, Fault>(abc)));
            },
            Err(_) => {},
        }
    }
}

/// An unbound name evaluates to the text `undefined variable: <name>`, a value
/// like any other: an assignment of it completes and binds that text.
pub proof fn lemma_unbound_name(w: World, base: u32, name: String, target: String)
    requires
        !w.vars.contains_key(name@),
    ensures
        eval(w, base, Expr::Ident(name)) == (w, Ok::<Val, Fault>(Val::Text(
            "undefined variable: "@ + name@,
        ))),
        run(w, base, Stmt::Assign(target, Expr::Ident(name))) == (
            bind(w, target@, undefined(name@)),
            None::<Fault>,
        ),
{
}

/// A conditional runs its first block on a nonzero number, its second (if any) on
/// zero, and neither on a value that is not a number.
pub proof fn lemma_if_branches(
    w: World,
    base: u32,
    c: Expr,
    then_block: Vec<Stmt>,
    else_block: Vec<Stmt>,
)
    ensures
        ({
            let (w1, r) = eval(w, base, c);
            let s = Stmt::If(c, then_block, Some(else_block));
            match r {
                Ok(Val::Num(n)) => if n != 0 {
                    run(w, base, s) == run_block(w1, base, then_block@, 0)
                } else {
                    run(w, base, s) == run_block(w1, base, else_block@, 0)
                },
                Ok(_) => run(w, base, s) == (w1, None::<Fault>),
                Err(f) => run(w, base, s) == (w1, Some(f)),
            }
        }),
{
}

/// Assigning a value and then naming the variable reports `name = <display form>`.
pub proof fn lemma_assign_then_show(w: World, base: u32, name: String, e: Expr, prog: Seq<Stmt>)
    requires
        prog == seq![Stmt::Assign(name, e), Stmt::Show(name)],
    ensures
        ({
            let (w1, r) = eval(w, base, e);
            r matches Ok(v) ==> run_program(w, base, prog, 0) == emit(
                bind(w1, name@, v),
                name@ + " = "@ + show(v),
            )
        }),
{
    let (w1, r) = eval(w, base, e);
    if let Ok(v) = r {
        let w2 = bind(w1, name@, v);
        assert(run(w, base, prog[0]) == (w2, None::<Fault>));
        assert(w2.vars.contains_key(name@) && w2.vars[name@] == v);
        let w3 = emit(w2, name@ + " = "@ + show(v));
        assert(run(w2, base, prog[1]) == (w3, None::<Fault>));
        assert(run_program(w3, base, prog, 2) == w3);
        assert(run_program(w2, base, prog, 1) == w3);
    }
}

/// How many counter values from `cur` by `step` stay below `end`.
pub open spec fn passes(cur: int, end: int, step: int) -> int {
    if cur >= end {
        0
    } else {
        (end - cur + step - 1) / step
    }
}

/// The lines a counting loop whose body prints its counter reports.
pub open spec fn counter_lines(cur: int, end: int, step: int) -> Seq<Seq<char>> {
    Seq::new(passes(cur, end, step) as nat, |j: int| int_text(cur + j * step))
}

proof fn lemma_range_prints(
    w: World,
    base: u32,
    var: String,
    p: String,
    body: Vec<Stmt>,
    cur: int,
    end: int,
    step: int,
)
    requires
        p@ == "print"@,
        body@ == seq![Stmt::Call(p, Expr::Ident(var))],
        step > 0,
        fits_i64(end),
        fits_i64(cur),
    ensures
        run_range(w, base, var@, cur, end, step, body@).1 is None,
        run_range(w, base, var@, cur, end, step, body@).0.out == w.out + counter_lines(
            cur,
            end,
            step,
        ),
    decreases end - cur,
{
    if cur < end {
        let w1 = bind(w, var@, Val::Num(cur));
        let w2 = emit(w1, int_text(cur));
        assert(eval(w1, base, Expr::Ident(var)) == (w1, Ok::<Val, Fault>(Val::Num(cur))));
        assert(call_outcome(w1, base, p@, Expr::Ident(var)) == (
            w2,
            Ok::<Val, Fault>(Val::Text(Seq::empty())),
        ));
        assert(run(w1, base, body@[0]) == (w2, None::<Fault>));
        assert(run_block(w2, base, body@, 1) == (w2, None::<Fault>));
        assert(run_block(w1, base, body@, 0) == (w2, None::<Fault>));
        lemma_div_plus_one(end - cur - 1, step);
        assert(end - cur + step - 1 == step + (end - cur - 1));
        if fits_i64(cur + step) && cur + step < end {
            lemma_range_prints(w2, base, var, p, body, cur + step, end, step);
            assert(end - (cur + step) + step - 1 == end - cur - 1);
            let tail = counter_lines(cur + step, end, step);
            assert forall|j: int| 0 <= j < tail.len() implies tail[j] == int_text(
                cur + (j + 1) * step,
            ) by {
                assert(cur + step + j * step == cur + (j + 1) * step) by (nonlinear_arith);
            }
            assert(w.out + counter_lines(cur, end, step) =~= w2.out + tail);
        } else {
            lemma_basic_div(end - cur - 1, step);
            assert(w.out + counter_lines(cur, end, step) =~= w2.out);
        }
    } else {
        assert(w.out + counter_lines(cur, end, step) =~= w.out);
    }
}

/// `for i in n by step` with `step > 0` runs its body once for each of
/// `0, step, 2 step, ...` below `n`: `ceil(n / step)` times, none when `n <= 0`.
/// With a body that prints `i`, those values are what it reports, in order.
pub proof fn lemma_counting_loop(
    w: World,
    base: u32,
    var: String,
    p: String,
    target: Expr,
    text: String,
    by: Expr,
    body: Vec<Stmt>,
    n: int,
    step: int,
)
    requires
        p@ == "print"@,
        body@ == seq![Stmt::Call(p, Expr::Ident(var))],
        eval(w, base, target) == (w, Ok::<Val, Fault>(Val::Num(n))),
        eval(w, base, by) == (w, Ok::<Val, Fault>(Val::Num(step))),
        fits_i64(n),
        step > 0,
    ensures
        ({
            let (w1, f) = run(
                w,
                base,
                Stmt::For {
                    var: var,
                    mutator: Mutator::In,
                    target: target,
                    target_text: text,
                    step: Some(by),
                    body: body,
                },
            );
            &&& f is None
            &&& w1.out == w.out + counter_lines(0, n, step)
            &&& counter_lines(0, n, step).len() == (if n <= 0 {
                0
            } else {
                (n + step - 1) / step
            })
        }),
{
    lemma_range_prints(w, base, var, p, body, 0, n, step);
}

/// The world after an array loop's body has run on `items[0]` to `items[k]`,
/// the loop variable bound to each element before its pass.
pub open spec fn after_pass(
    w: World,
    base: u32,
    var: Seq<char>,
    items: Seq<Val>,
    body: Seq<Stmt>,
    k: nat,
) -> World
    decreases k,
{
    let before = if k == 0 {
        w
    } else {
        after_pass(w, base, var, items, body, (k - 1) as nat)
    };
    run_block(bind(before, var, items[k as int]), base, body, 0).0
}

proof fn lemma_each_collects(
    w0: World,
    base: u32,
    var: Seq<char>,
    items: Seq<Val>,
    body: Seq<Stmt>,
    i: int,
    acc: Seq<Val>,
    w: World,
)
    requires
        0 <= i <= items.len(),
        acc.len() == i,
        forall|k: int| 0 <= k < i ==> acc[k] == #[trigger] after_pass(w0, base, var, items, body, k as nat).vars[var],
        w == (if i == 0 {
            w0
        } else {
            after_pass(w0, base, var, items, body, (i - 1) as nat)
        }),
        run_each(w, base, var, items, i, acc, body).1 is None,
    ensures
        ({
            let r = run_each(w, base, var, items, i, acc, body);
            &&& r.2.len() == items.len()
            &&& forall|k: int|
                0 <= k < items.len() ==> r.2[k] == #[trigger] after_pass(
                    w0,
                    base,
                    var,
                    items,
                    body,
                    k as nat,
                ).vars[var]
        }),
    decreases items.len() - i,
{
    if i < items.len() {
        let b = bind(w, var, items[i]);
        lemma_block_keeps_names(b, base, body, 0);
        let (w1, f) = run_block(b, base, body, 0);
        assert(w1 == after_pass(w0, base, var, items, body, i as nat));
        assert(b.vars.contains_key(var));
        assert(w1.vars.contains_key(var));
        let next = acc.push(w1.vars[var]);
        lemma_each_collects(w0, base, var, items, body, i + 1, next, w1);
    }
}

/// `for x of arr { ... }` rebinds the name the array was written as to a new array
/// of the same length, whose element `k` is what `x` holds once the body has run
/// on element `k`.
pub proof fn lemma_array_loop(
    w: World,
    base: u32,
    var: String,
    target: Expr,
    text: String,
    body: Vec<Stmt>,
    items: Seq<Val>,
)
    requires
        eval(w, base, target).1 == Ok::<Val, Fault>(Val::List(items)),
        run(
            w,
            base,
            Stmt::For {
                var: var,
                mutator: Mutator::Of,
                target: target,
                target_text: text,
                step: None,
                body: body,
            },
        ).1 is None,
    ensures
        ({
            let w1 = eval(w, base, target).0;
            let after = run(
                w,
                base,
                Stmt::For {
                    var: var,
                    mutator: Mutator::Of,
                    target: target,
                    target_text: text,
                    step: None,
                    body: body,
                },
            ).0;
            &&& after.vars.contains_key(text@)
            &&& after.vars[text@] is List
            &&& after.vars[text@]->List_0.len() == items.len()
            &&& forall|k: int|
                0 <= k < items.len() ==> after.vars[text@]->List_0[k] == #[trigger] after_pass(
                    w1,
                    base,
                    var@,
                    items,
                    body@,
                    k as nat,
                ).vars[var@]
        }),
{
    let w1 = eval(w, base, target).0;
    lemma_each_collects(w1, base, var@, items, body@, 0, Seq::empty(), w1);
}

/// Evaluating an expression never changes the variables.
pub proof fn lemma_eval_keeps_vars(w: World, base: u32, e: Expr)
    ensures
        eval(w, base, e).0.vars == w.vars,
    decreases e, 0nat,
{
    match e {
        Expr::Array(items) => lemma_items_keep_vars(w, base, items@, 0, Seq::empty()),
        Expr::Binary(first, rest) => {
            lemma_eval_keeps_vars(w, base, *first);
            let (w1, r) = eval(w, base, *first);
            if let Ok(a) = r {
                lemma_fold_keeps_vars(w1, base, a, rest@, 0);
            }
        },
        Expr::Call(name, arg) => lemma_call_keeps_vars(w, base, name@, *arg),
        _ => {},
    }
}

proof fn lemma_call_keeps_vars(w: World, base: u32, name: Seq<char>, arg: Expr)
    ensures
        call_outcome(w, base, name, arg).0.vars == w.vars,
    decreases arg, 1nat,
{
    lemma_eval_keeps_vars(w, base, arg);
}

proof fn lemma_items_keep_vars(w: World, base: u32, items: Seq<Expr>, i: int, acc: Seq<Val>)
    ensures
        eval_items(w, base, items, i, acc).0.vars == w.vars,
    decreases items, (items.len() - i) as nat,
{
    if 0 <= i < items.len() {
        lemma_eval_keeps_vars(w, base, items[i]);
        let (w1, r) = eval(w, base, items[i]);
        if let Ok(v) = r {
            lemma_items_keep_vars(w1, base, items, i + 1, acc.push(v));
        }
    }
}

proof fn lemma_fold_keeps_vars(w: World, base: u32, acc: Val, rest: Seq<(Op, Expr)>, i: int)
    ensures
        fold_ops(w, base, acc, rest, i).0.vars == w.vars,
    decreases rest, (rest.len() - i) as nat,
{
    if 0 <= i < rest.len() {
        lemma_eval_keeps_vars(w, base, rest[i].1);
        let (w1, r) = eval(w, base, rest[i].1);
        if let Ok(b) = r {
            if let Ok(c) = apply(rest[i].0, acc, b) {
                lemma_fold_keeps_vars(w1, base, c, rest, i + 1);
            }
        }
    }
}

/// Running a statement never removes a binding.
pub proof fn lemma_run_keeps_names(w: World, base: u32, s: Stmt)
    ensures
        w.vars.dom().subset_of(run(w, base, s).0.vars.dom()),
    decreases s, 0nat,
{
    match s {
        Stmt::Assign(name, e) => lemma_eval_keeps_vars(w, base, e),
        Stmt::Call(name, e) => lemma_call_keeps_vars(w, base, name@, e),
        Stmt::For { var, mutator, target, target_text, step, body } => {
            lemma_eval_keeps_vars(w, base, target);
            let (w1, t) = eval(w, base, target);
            if let Ok(tv) = t {
                if let Some(e) = step {
                    lemma_eval_keeps_vars(w1, base, e);
                }
                let (w2, sr) = match step {
                    Some(e) => eval(w1, base, e),
                    None => (w1, Ok(Val::Num(1))),
                };
                if let Ok(sv) = sr {
                    match mutator {
                        Mutator::In => match (tv, sv) {
                            (Val::Num(end), Val::Num(by)) => {
                                lemma_range_keeps_names(w2, base, var@, 0, end, by, body@);
                            },
                            _ => {},
                        },
                        Mutator::Of => match tv {
                            Val::List(items) => {
                                lemma_each_keeps_names(
                                    w2,
                                    base,
                                    var@,
                                    items,
                                    0,
                                    Seq::empty(),
                                    body@,
                                );
                            },
                            _ => {},
                        },
                        _ => {},
                    }
                }
            }
        },
        Stmt::If(c, then_block, else_block) => {
            lemma_eval_keeps_vars(w, base, c);
            let (w1, r) = eval(w, base, c);
            lemma_block_keeps_names(w1, base, then_block@, 0);
            if let Some(b) = else_block {
                lemma_block_keeps_names(w1, base, b@, 0);
            }
        },
        Stmt::Which(cases) => lemma_cases_keep_names(w, base, cases@, 0),
        Stmt::Bare(e) => lemma_eval_keeps_vars(w, base, e),
        _ => {},
    }
}

pub(crate) proof fn lemma_block_keeps_names(w: World, base: u32, b: Seq<Stmt>, i: int)
    ensures
        w.vars.dom().subset_of(run_block(w, base, b, i).0.vars.dom()),
    decreases b, (b.len() - i) as nat,
{
    if 0 <= i < b.len() {
        lemma_run_keeps_names(w, base, b[i]);
        let (w1, f) = run(w, base, b[i]);
        if f is None {
            lemma_block_keeps_names(w1, base, b, i + 1);
        }
    }
}

proof fn lemma_cases_keep_names(
    w: World,
    base: u32,
    cases: Seq<(Option<Expr>, Vec<Stmt>)>,
    i: int,
)
    ensures
        w.vars.dom().subset_of(run_cases(w, base, cases, i).0.vars.dom()),
    decreases cases, (cases.len() - i) as nat,
{
    if 0 <= i < cases.len() {
        match cases[i].0 {
            None => lemma_block_keeps_names(w, base, cases[i].1@, 0),
            Some(c) => {
                lemma_eval_keeps_vars(w, base, c);
                let (w1, r) = eval(w, base, c);
                lemma_block_keeps_names(w1, base, cases[i].1@, 0);
                lemma_cases_keep_names(w1, base, cases, i + 1);
            },
        }
    }
}

proof fn lemma_range_keeps_names(
    w: World,
    base: u32,
    var: Seq<char>,
    cur: int,
    end: int,
    step: int,
    body: Seq<Stmt>,
)
    ensures
        w.vars.dom().subset_of(run_range(w, base, var, cur, end, step, body).0.vars.dom()),
    decreases body, (body.len() + 1 + end - cur) as nat,
{
    if cur < end && step > 0 {
        let w0 = bind(w, var, Val::Num(cur));
        lemma_block_keeps_names(w0, base, body, 0);
        let (w1, f) = run_block(w0, base, body, 0);
        if f is None && fits_i64(cur + step) && cur + step < end {
            lemma_range_keeps_names(w1, base, var, cur + step, end, step, body);
        }
    }
}

proof fn lemma_each_keeps_names(
    w: World,
    base: u32,
    var: Seq<char>,
    items: Seq<Val>,
    i: int,
    acc: Seq<Val>,
    body: Seq<Stmt>,
)
    ensures
        w.vars.dom().subset_of(run_each(w, base, var, items, i, acc, body).0.vars.dom()),
    decreases body, (body.len() + 1 + items.len() - i) as nat,
{
    if 0 <= i < items.len() {
        let w0 = bind(w, var, items[i]);
        lemma_block_keeps_names(w0, base, body, 0);
        let (w1, f) = run_block(w0, base, body, 0);
        if f is None {
            lemma_each_keeps_names(w1, base, var, items, i + 1, acc.push(w1.vars[var]), body);
        }
    }
}

} // verus!
