use vstd::prelude::*;
use crate::ast::{Expr, Mutator, Stmt};
use crate::env::Env;
use crate::laws::lemma_block_keeps_names;
use crate::numeral::parse_literal;
use crate::ops::apply_op;
use crate::semantics::{
    bind, call_line, call_outcome, emit, eval, eval_items, fault_of, fold_ops, lift,
    run, run_block, run_cases, run_each, run_program, run_range, undefined, Fault, World,
};
use crate::value::{copy_texts, lemma_views, views, Val, Value};

verus! {

use vstd::string::*;

broadcast use vstd::std_specs::vec::group_vec_axioms, vstd::seq::group_seq_axioms;

/// Runs parsed programs against one flat, persistent namespace, collecting the
/// lines it reports.
pub struct Interpreter {
    vars: Env,
    base: u32,
    out: Vec<String>,
}

pub open spec fn lines(v: Seq<String>) -> Seq<Seq<char>> {
    v.map_values(|s: String| s@)
}

proof fn lemma_views_push(s: Seq<Value>, v: Value)
    ensures
        views(s.push(v)) == views(s).push(v@),
{
    assert(s.push(v).subrange(0, s.len() as int) =~= s);
}

impl View for Interpreter {
    type V = World;

    closed spec fn view(&self) -> World {
        World { vars: self.vars.view(), out: lines(self.out@) }
    }
}

impl Interpreter {
    pub closed spec fn wf(&self) -> bool {
        self.vars.wf()
    }

    /// The default base for numeric literals without a radix marker.
    pub closed spec fn radix(&self) -> u32 {
        self.base
    }

    /// An interpreter with no variables, no output, and base 10.
    pub fn new() -> (r: Interpreter)
        ensures
            r.wf(),
            r.radix() == 10,
            r@ == (World { vars: Map::empty(), out: Seq::empty() }),
    {
        let r = Interpreter { vars: Env::new(), base: 10, out: Vec::new() };
        assert(lines(r.out@) =~= Seq::<Seq<char>>::empty());
        r
    }

    /// An interpreter with no variables and no output that reads numeric literals
    /// without a radix marker in `base`.
    pub fn with_base(base: u32) -> (r: Interpreter)
        requires
            2 <= base <= 36,
        ensures
            r.wf(),
            r.radix() == base,
            r@ == (World { vars: Map::empty(), out: Seq::empty() }),
    {
        let r = Interpreter { vars: Env::new(), base, out: Vec::new() };
        assert(lines(r.out@) =~= Seq::<Seq<char>>::empty());
        r
    }

    /// A copy of the value bound to `name`, if any.
    pub fn variable(&self, name: &String) -> (r: Option<Value>)
        requires
            self.wf(),
        ensures
            match r {
                Some(v) => self@.vars.contains_key(name@) && v@ == self@.vars[name@],
                None => !self@.vars.contains_key(name@),
            },
    {
        self.vars.get(name)
    }

    /// Hands over the lines reported so far and forgets them.
    pub fn take_output(&mut self) -> (r: Vec<String>)
        requires
            old(self).wf(),
        ensures
            final(self).wf(),
            final(self).radix() == old(self).radix(),
            lines(r@) == old(self)@.out,
            final(self)@ == (World { vars: old(self)@.vars, out: Seq::empty() }),
    {
        let mut r: Vec<String> = Vec::new();
        std::mem::swap(&mut r, &mut self.out);
        assert(lines(self.out@) =~= Seq::<Seq<char>>::empty());
        r
    }

    fn emit(&mut self, line: String)
        requires
            old(self).wf(),
        ensures
            final(self).wf(),
            final(self).radix() == old(self).radix(),
            final(self)@ == emit(old(self)@, line@),
    {
        let ghost l = line@;
        self.out.push(line);
        assert(lines(self.out@) =~= lines(old(self).out@).push(l));
    }

    fn bind(&mut self, name: &String, v: Value)
        requires
            old(self).wf(),
        ensures
            final(self).wf(),
            final(self).radix() == old(self).radix(),
            final(self)@ == bind(old(self)@, name@, v@),
    {
        self.vars.set(name, v);
    }

    /// Evaluates an expression: a value, or the fault that stopped it.
    pub fn evaluate_expression(&mut self, e: &Expr) -> (r: Result<Value, Fault>)
        requires
            old(self).wf(),
        ensures
            final(self).wf(),
            final(self).radix() == old(self).radix(),
            eval(old(self)@, old(self).radix(), *e) == (final(self)@, lift(r)),
        decreases e, 0nat,
    {
        let ghost w0 = self@;
        let ghost base = self.base;
        match e {
            Expr::Text(s) => Ok(Value::Text(s.clone())),
            Expr::Number(t) => match parse_literal(t, self.base) {
                Some(n) => Ok(Value::Number(n)),
                None => Err(Fault::BadNumber),
            },
            Expr::Array(items) => {
                let ghost target = eval_items(w0, base, items@, 0, Seq::empty());
                let mut vals: Vec<Value> = Vec::new();
                let mut i: usize = 0;
                assert(views(vals@) =~= Seq::<Val>::empty());
                while i < items.len()
                    invariant
                        0 <= i <= items@.len(),
                        *e == Expr::Array(*items),
                        self.wf(),
                        self.radix() == base,
                        old(self).radix() == base,
                        target == eval_items(old(self)@, base, items@, 0, Seq::empty()),
                        eval_items(self@, base, items@, i as int, views(vals@)) == target,
                    decreases items@.len() - i,
                {
                    proof {
                        assert(decreases_to!(*e => e->Array_0));
                        assert(decreases_to!(e->Array_0 => items[i as int]));
                    }
                    match self.evaluate_expression(&items[i]) {
                        Ok(v) => {
                            proof {
                                lemma_views_push(vals@, v);
                            }
                            vals.push(v);
                        },
                        Err(f) => {
                            return Err(f);
                        },
                    }
                    i = i + 1;
                }
                Ok(Value::Array(vals))
            },
            Expr::Ident(name) => match self.vars.get(name) {
                Some(v) => Ok(v),
                None => {
                    let mut t = String::from_str("undefined variable: ");
                    t.append(name.as_str());
                    assert(Value::Text(t)@ == undefined(name@));
                    Ok(Value::Text(t))
                },
            },
            Expr::Binary(first, rest) => {
                let mut acc = match self.evaluate_expression(first) {
                    Ok(a) => a,
                    Err(f) => {
                        return Err(f);
                    },
                };
                let ghost w1 = self@;
                let ghost acc0 = acc;
                let ghost target = fold_ops(w1, base, acc@, rest@, 0);
                let mut i: usize = 0;
                while i < rest.len()
                    invariant
                        0 <= i <= rest@.len(),
                        *e == Expr::Binary(*first, *rest),
                        self.wf(),
                        self.radix() == base,
                        old(self).radix() == base,
                        eval(old(self)@, base, **first) == (w1, Ok::<Val, Fault>(acc0@)),
                        target == fold_ops(w1, base, acc0@, rest@, 0),
                        fold_ops(self@, base, acc@, rest@, i as int) == target,
                    decreases rest@.len() - i,
                {
                    proof {
                        assert(decreases_to!(*e => e->Binary_1));
                        assert(decreases_to!(e->Binary_1 => rest[i as int]));
                        assert(decreases_to!(rest[i as int] => rest[i as int].1));
                    }
                    let b = match self.evaluate_expression(&rest[i].1) {
                        Ok(b) => b,
                        Err(f) => {
                            return Err(f);
                        },
                    };
                    match apply_op(&rest[i].0, acc, b) {
                        Ok(c) => {
                            acc = c;
                        },
                        Err(f) => {
                            return Err(f);
                        },
                    }
                    i = i + 1;
                }
                Ok(acc)
            },
            Expr::Function(ps, body) => Ok(Value::Function(copy_texts(ps), body.clone())),
            Expr::Call(name, arg) => self.interpret_call(name, arg),
            Expr::Unknown => Ok(Value::Text(String::from_str("Error: Unknown expression type"))),
        }
    }

    /// Evaluates the argument and reports it for `print`, or reports an unknown
    /// function; the value of a call is the empty text.
    pub fn interpret_call(&mut self, name: &String, arg: &Expr) -> (r: Result<Value, Fault>)
        requires
            old(self).wf(),
        ensures
            final(self).wf(),
            final(self).radix() == old(self).radix(),
            call_outcome(old(self)@, old(self).radix(), name@, *arg) == (final(self)@, lift(r)),
        decreases arg, 1nat,
    {
        let v = match self.evaluate_expression(arg) {
            Ok(v) => v,
            Err(f) => {
                return Err(f);
            },
        };
        let print = String::from_str("print");
        let line = if *name == print {
            v.display()
        } else {
            String::from_str("Error: Unknown function")
        };
        assert(line@ == call_line(name@, v@));
        self.emit(line);
        Ok(Value::Text(String::new()))
    }

    /// Binds `name` to the value of `e`.
    pub fn interpret_assignment(&mut self, name: &String, e: &Expr) -> (r: Result<(), Fault>)
        requires
            old(self).wf(),
        ensures
            final(self).wf(),
            final(self).radix() == old(self).radix(),
            run(old(self)@, old(self).radix(), Stmt::Assign(*name, *e)) == (
                final(self)@,
                fault_of(r),
            ),
    {
        match self.evaluate_expression(e) {
            Ok(v) => {
                self.bind(name, v);
                Ok(())
            },
            Err(f) => Err(f),
        }
    }

    /// Runs the statements of a block in order, stopping at the first fault.
    pub fn interpret_block(&mut self, b: &Vec<Stmt>) -> (r: Result<(), Fault>)
        requires
            old(self).wf(),
        ensures
            final(self).wf(),
            final(self).radix() == old(self).radix(),
            run_block(old(self)@, old(self).radix(), b@, 0) == (final(self)@, fault_of(r)),
        decreases b, 2nat,
    {
        let ghost base = self.base;
        let ghost target = run_block(self@, base, b@, 0);
        let mut i: usize = 0;
        while i < b.len()
            invariant
                0 <= i <= b@.len(),
                self.wf(),
                self.radix() == base,
                old(self).radix() == base,
                target == run_block(old(self)@, base, b@, 0),
                run_block(self@, base, b@, i as int) == target,
            decreases b@.len() - i,
        {
            proof {
                assert(decreases_to!(b => b[i as int]));
            }
            match self.interpret_statement(&b[i]) {
                Ok(()) => {},
                Err(f) => {
                    return Err(f);
                },
            }
            i = i + 1;
        }
        Ok(())
    }

    /// Runs a `for` statement: a counting loop (`in`) or an array walk (`of`).
    pub fn interpret_for_statement(&mut self, s: &Stmt) -> (r: Result<(), Fault>)
        requires
            old(self).wf(),
            s is For,
        ensures
            final(self).wf(),
            final(self).radix() == old(self).radix(),
            run(old(self)@, old(self).radix(), *s) == (final(self)@, fault_of(r)),
        decreases s, 1nat,
    {
        let ghost base = self.base;
        let ghost w0 = self@;
        match s {
            Stmt::For { var, mutator, target, target_text, step, body } => {
                proof {
                    assert(decreases_to!(*s => s->body));
                }
                let tv = match self.evaluate_expression(target) {
                    Ok(v) => v,
                    Err(f) => {
                        return Err(f);
                    },
                };
                let sv = match step {
                    Some(e) => match self.evaluate_expression(e) {
                        Ok(v) => v,
                        Err(f) => {
                            return Err(f);
                        },
                    },
                    None => Value::Number(1),
                };
                let ghost w2 = self@;
                match mutator {
                    Mutator::In => match (tv, sv) {
                        (Value::Number(end), Value::Number(by)) => {
                            if by <= 0 && end > 0 {
                                self.emit(String::from_str("Error: Invalid for loop step"));
                                return Ok(());
                            }
                            let ghost goal = run_range(w2, base, var@, 0, end as int, by as int, body@);
                            let mut cur: i64 = 0;
                            let mut done = false;
                            while !done && cur < end
                                invariant
                                    *s == (Stmt::For {
                                        var: *var,
                                        mutator: *mutator,
                                        target: *target,
                                        target_text: *target_text,
                                        step: *step,
                                        body: *body,
                                    }),
                                    decreases_to!(*s => s->body),
                                    self.wf(),
                                    self.radix() == base,
                                    old(self).radix() == base,
                                    run(old(self)@, base, *s) == (goal.0, goal.1),
                                    end > 0 ==> by > 0,
                                    0 <= cur,
                                    !done ==> run_range(self@, base, var@, cur as int, end as int, by as int, body@) == goal,
                                    done ==> goal == (self@, None::<Fault>),
                                decreases end - cur + (if done {
                                    0int
                                } else {
                                    1int
                                }),
                            {
                                self.bind(var, Value::Number(cur));
                                match self.interpret_block(body) {
                                    Ok(()) => {},
                                    Err(f) => {
                                        return Err(f);
                                    },
                                }
                                match cur.checked_add(by) {
                                    Some(n) => if n < end {
                                        cur = n;
                                    } else {
                                        done = true;
                                    },
                                    None => {
                                        done = true;
                                    },
                                }
                            }
                            Ok(())
                        },
                        _ => {
                            self.emit(String::from_str("Error: Invalid for loop parameters"));
                            Ok(())
                        },
                    },
                    Mutator::Of => match tv {
                        Value::Array(items) => {
                            let ghost goal = run_each(w2, base, var@, views(items@), 0, Seq::empty(), body@);
                            proof {
                                lemma_views(items@);
                            }
                            let mut acc: Vec<Value> = Vec::new();
                            let mut i: usize = 0;
                            assert(views(acc@) =~= Seq::<Val>::empty());
                            while i < items.len()
                                invariant
                                    0 <= i <= items@.len(),
                                    *s == (Stmt::For {
                                        var: *var,
                                        mutator: *mutator,
                                        target: *target,
                                        target_text: *target_text,
                                        step: *step,
                                        body: *body,
                                    }),
                                    decreases_to!(*s => s->body),
                                    self.wf(),
                                    self.radix() == base,
                                    old(self).radix() == base,
                                    run(old(self)@, base, *s) == (match goal.1 {
                                        Some(f) => (goal.0, Some(f)),
                                        None => (bind(goal.0, target_text@, Val::List(goal.2)), None::<Fault>),
                                    }),
                                    views(items@).len() == items@.len(),
                                    forall|j: int| 0 <= j < items@.len() ==> #[trigger] views(items@)[j] == items@[j]@,
                                    run_each(self@, base, var@, views(items@), i as int, views(acc@), body@) == goal,
                                decreases items@.len() - i,
                            {
                                self.bind(var, items[i].copy());
                                let ghost before = self@;
                                match self.interpret_block(body) {
                                    Ok(()) => {},
                                    Err(f) => {
                                        return Err(f);
                                    },
                                }
                                proof {
                                    lemma_block_keeps_names(before, base, body@, 0);
                                }
                                let x = match self.vars.get(var) {
                                    Some(v) => v,
                                    None => items[i].copy(),
                                };
                                proof {
                                    lemma_views_push(acc@, x);
                                }
                                acc.push(x);
                                i = i + 1;
                            }
                            let ghost w3 = self@;
                            let ghost collected = views(acc@);
                            self.bind(target_text, Value::Array(acc));
                            assert(goal == (w3, None::<Fault>, collected));
                            Ok(())
                        },
                        _ => {
                            self.emit(String::from_str("Error: Invalid for loop parameters"));
                            Ok(())
                        },
                    },
                    Mutator::Other(_) => {
                        self.emit(String::from_str("Error: Invalid for loop mutator"));
                        Ok(())
                    },
                }
            },
            _ => Ok(()),
        }
    }

    /// Runs one statement; a fault is handed back, not reported.
    pub fn interpret_statement(&mut self, s: &Stmt) -> (r: Result<(), Fault>)
        requires
            old(self).wf(),
        ensures
            final(self).wf(),
            final(self).radix() == old(self).radix(),
            run(old(self)@, old(self).radix(), *s) == (final(self)@, fault_of(r)),
        decreases s, 2nat,
    {
        let ghost base = self.base;
        match s {
            Stmt::Assign(name, e) => self.interpret_assignment(name, e),
            Stmt::Call(name, e) => match self.interpret_call(name, e) {
                Ok(_) => Ok(()),
                Err(f) => Err(f),
            },
            Stmt::For { .. } => self.interpret_for_statement(s),
            Stmt::If(c, then_block, else_block) => {
                let cv = match self.evaluate_expression(c) {
                    Ok(v) => v,
                    Err(f) => {
                        return Err(f);
                    },
                };
                match cv {
                    Value::Number(n) => if n != 0 {
                        proof {
                            assert(decreases_to!(*s => s->If_1));
                        }
                        self.interpret_block(then_block)
                    } else {
                        match else_block {
                            Some(b) => {
                                proof {
                                    assert(decreases_to!(*s => s->If_2));
                                    assert(decreases_to!(s->If_2 => s->If_2->Some_0));
                                }
                                self.interpret_block(b)
                            },
                            None => Ok(()),
                        }
                    },
                    _ => Ok(()),
                }
            },
            Stmt::Which(cases) => {
                let ghost goal = run_cases(self@, base, cases@, 0);
                let mut i: usize = 0;
                while i < cases.len()
                    invariant
                        0 <= i <= cases@.len(),
                        *s == Stmt::Which(*cases),
                        self.wf(),
                        self.radix() == base,
                        old(self).radix() == base,
                        goal == run_cases(old(self)@, base, cases@, 0),
                        run_cases(self@, base, cases@, i as int) == goal,
                    decreases cases@.len() - i,
                {
                    proof {
                        assert(decreases_to!(*s => s->Which_0));
                        assert(decreases_to!(s->Which_0 => cases[i as int]));
                        assert(decreases_to!(cases[i as int] => cases[i as int].1));
                    }
                    let hit = match &cases[i].0 {
                        None => true,
                        Some(c) => match self.evaluate_expression(c) {
                            Ok(Value::Number(n)) => n != 0,
                            Ok(_) => false,
                            Err(f) => {
                                return Err(f);
                            },
                        },
                    };
                    if hit {
                        return self.interpret_block(&cases[i].1);
                    }
                    i = i + 1;
                }
                Ok(())
            },
            Stmt::Bare(e) => {
                let v = match self.evaluate_expression(e) {
                    Ok(v) => v,
                    Err(f) => {
                        return Err(f);
                    },
                };
                let mut line = String::from_str("ans = ");
                line.append(v.display().as_str());
                let ans = String::from_str("ans");
                self.bind(&ans, v);
                self.emit(line);
                Ok(())
            },
            Stmt::Show(name) => {
                let line = match self.vars.get(name) {
                    Some(v) => {
                        let mut t = name.clone();
                        t.append(" = ");
                        t.append(v.display().as_str());
                        t
                    },
                    None => {
                        let mut t = name.clone();
                        t.append(" is not defined");
                        t
                    },
                };
                self.emit(line);
                Ok(())
            },
            Stmt::Skip => Ok(()),
        }
    }

    /// Runs a parsed program statement by statement. A fault ends its own top-level
    /// statement, is reported, and the next statement runs.
    pub fn interpret(&mut self, program: &Vec<Stmt>)
        requires
            old(self).wf(),
        ensures
            final(self).wf(),
            final(self).radix() == old(self).radix(),
            final(self)@ == run_program(old(self)@, old(self).radix(), program@, 0),
    {
        let ghost base = self.base;
        let ghost goal = run_program(self@, base, program@, 0);
        let mut i: usize = 0;
        while i < program.len()
            invariant
                0 <= i <= program@.len(),
                self.wf(),
                self.radix() == base,
                run_program(self@, base, program@, i as int) == goal,
            decreases program@.len() - i,
        {
            match self.interpret_statement(&program[i]) {
                Ok(()) => {},
                Err(f) => {
                    self.emit(f.message());
                },
            }
            i = i + 1;
        }
    }
}

} // verus!
