use egg::ast::{Expr, Mutator, Op, Stmt};
use egg::interpreter::Interpreter;
use egg::semantics::Fault;
use egg::value::Value;

fn s(x: &str) -> String {
    x.to_string()
}

fn num(t: &str) -> Expr {
    Expr::Number(s(t))
}

fn ident(n: &str) -> Expr {
    Expr::Ident(s(n))
}

fn text(t: &str) -> Expr {
    Expr::Text(s(t))
}

fn bin(first: Expr, rest: Vec<(Op, Expr)>) -> Expr {
    Expr::Binary(Box::new(first), rest)
}

fn print(e: Expr) -> Stmt {
    Stmt::Call(s("print"), e)
}

fn assign(n: &str, e: Expr) -> Stmt {
    Stmt::Assign(s(n), e)
}

fn run(prog: Vec<Stmt>) -> (Interpreter, Vec<String>) {
    let mut it = Interpreter::new();
    it.interpret(&prog);
    let out = it.take_output();
    (it, out)
}

fn shown(it: &Interpreter, n: &str) -> Option<String> {
    it.variable(&s(n)).map(|v| v.display())
}

fn range_loop(var: &str, end: Expr, step: Option<Expr>, body: Vec<Stmt>) -> Stmt {
    Stmt::For {
        var: s(var),
        mutator: Mutator::In,
        target: end,
        target_text: s("end"),
        step,
        body,
    }
}

#[test]
fn counting_loop_by_step() {
    let (_, out) = run(vec![range_loop("i", num("10"), Some(num("3")), vec![print(ident("i"))])]);
    assert_eq!(out, vec![s("0"), s("3"), s("6"), s("9")]);
}

#[test]
fn counting_loop_exact_multiple() {
    let (_, out) = run(vec![range_loop("i", num("6"), Some(num("2")), vec![print(ident("i"))])]);
    assert_eq!(out, vec![s("0"), s("2"), s("4")]);
}

#[test]
fn counting_loop_default_step() {
    let (it, out) = run(vec![range_loop("i", num("3"), None, vec![print(ident("i"))])]);
    assert_eq!(out, vec![s("0"), s("1"), s("2")]);
    assert_eq!(shown(&it, "i"), Some(s("2")));
}

#[test]
fn counting_loop_empty_ranges() {
    let (it, out) = run(vec![
        range_loop("i", num("0"), None, vec![print(ident("i"))]),
        range_loop("j", num("-5"), Some(num("2")), vec![print(ident("j"))]),
    ]);
    assert!(out.is_empty());
    assert_eq!(shown(&it, "i"), None);
}

#[test]
fn counting_loop_rejects_bad_step_and_bounds() {
    let (_, out) = run(vec![
        range_loop("i", num("5"), Some(num("0")), vec![print(ident("i"))]),
        range_loop("i", text("five"), None, vec![print(ident("i"))]),
    ]);
    assert_eq!(
        out,
        vec![s("Error: Invalid for loop step"), s("Error: Invalid for loop parameters")]
    );
}

#[test]
fn array_loop_rebinds_source() {
    let prog = vec![
        assign("arr", Expr::Array(vec![num("1"), num("2"), num("3")])),
        Stmt::For {
            var: s("x"),
            mutator: Mutator::Of,
            target: ident("arr"),
            target_text: s("arr"),
            step: None,
            body: vec![assign("x", bin(ident("x"), vec![(Op::Mul, num("2"))]))],
        },
        Stmt::Show(s("arr")),
    ];
    let (it, out) = run(prog);
    assert_eq!(out, vec![s("arr = [ 2 4 6 ]")]);
    match it.variable(&s("arr")) {
        Some(Value::Array(v)) => assert_eq!(v.len(), 3),
        other => panic!("unexpected {:?}", other),
    }
}

#[test]
fn array_loop_keeps_unchanged_elements() {
    let prog = vec![
        assign("a", Expr::Array(vec![text("p"), num("7")])),
        Stmt::For {
            var: s("x"),
            mutator: Mutator::Of,
            target: ident("a"),
            target_text: s("a"),
            step: None,
            body: vec![print(ident("x"))],
        },
    ];
    let (it, out) = run(prog);
    assert_eq!(out, vec![s("p"), s("7")]);
    assert_eq!(shown(&it, "a"), Some(s("[ p 7 ]")));
}

#[test]
fn array_loop_needs_an_array() {
    let prog = vec![Stmt::For {
        var: s("x"),
        mutator: Mutator::Of,
        target: num("4"),
        target_text: s("4"),
        step: None,
        body: vec![print(ident("x"))],
    }];
    let (_, out) = run(prog);
    assert_eq!(out, vec![s("Error: Invalid for loop parameters")]);
}

#[test]
fn unknown_mutator_is_reported() {
    let prog = vec![Stmt::For {
        var: s("x"),
        mutator: Mutator::Other(s("to")),
        target: num("4"),
        target_text: s("4"),
        step: None,
        body: vec![],
    }];
    let (_, out) = run(prog);
    assert_eq!(out, vec![s("Error: Invalid for loop mutator")]);
}

#[test]
fn subtraction_folds_left() {
    let e = bin(num("2"), vec![(Op::Sub, num("3")), (Op::Sub, num("4"))]);
    let (it, out) = run(vec![Stmt::Bare(e)]);
    assert_eq!(out, vec![s("ans = -5")]);
    assert_eq!(shown(&it, "ans"), Some(s("-5")));
}

#[test]
fn unbound_name_is_a_text_value() {
    let (it, out) = run(vec![assign("y", ident("zzz")), print(num("1"))]);
    assert_eq!(shown(&it, "y"), Some(s("undefined variable: zzz")));
    assert_eq!(out, vec![s("1")]);
}

#[test]
fn if_picks_a_branch() {
    let cond = |c: Expr| {
        Stmt::If(c, vec![assign("a", num("1"))], Some(vec![assign("b", num("1"))]))
    };
    let (it, _) = run(vec![cond(num("5"))]);
    assert_eq!((shown(&it, "a"), shown(&it, "b")), (Some(s("1")), None));
    let (it, _) = run(vec![cond(num("0"))]);
    assert_eq!((shown(&it, "a"), shown(&it, "b")), (None, Some(s("1"))));
    let (it, _) = run(vec![cond(text("yes"))]);
    assert_eq!((shown(&it, "a"), shown(&it, "b")), (None, None));
    let (it, _) = run(vec![Stmt::If(num("0"), vec![assign("a", num("1"))], None)]);
    assert_eq!(shown(&it, "a"), None);
}

#[test]
fn which_runs_first_match_only() {
    let prog = vec![Stmt::Which(vec![
        (Some(num("0")), vec![print(text("a"))]),
        (Some(num("1")), vec![print(text("b"))]),
        (None, vec![print(text("c"))]),
    ])];
    let (_, out) = run(prog);
    assert_eq!(out, vec![s("b")]);
}

#[test]
fn which_default_and_no_match() {
    let prog = vec![
        Stmt::Which(vec![(Some(num("0")), vec![print(text("a"))]), (None, vec![print(text("c"))])]),
        Stmt::Which(vec![(Some(num("0")), vec![print(text("a"))])]),
    ];
    let (_, out) = run(prog);
    assert_eq!(out, vec![s("c")]);
}

#[test]
fn assign_then_show_round_trip() {
    let prog = vec![
        assign("x", num("5")),
        Stmt::Show(s("x")),
        assign("l", Expr::Array(vec![num("1"), text("two")])),
        Stmt::Show(s("l")),
        Stmt::Show(s("nothing")),
    ];
    let (_, out) = run(prog);
    assert_eq!(out, vec![s("x = 5"), s("l = [ 1 two ]"), s("nothing is not defined")]);
}

#[test]
fn state_persists_across_calls() {
    let mut it = Interpreter::new();
    it.interpret(&vec![assign("x", num("41"))]);
    it.interpret(&vec![Stmt::Bare(bin(ident("x"), vec![(Op::Add, num("1"))]))]);
    assert_eq!(it.take_output(), vec![s("ans = 42")]);
    assert!(it.take_output().is_empty());
}

#[test]
fn faults_end_only_their_statement() {
    let prog = vec![
        print(bin(num("1"), vec![(Op::Div, num("0"))])),
        print(bin(num("9223372036854775807"), vec![(Op::Add, num("1"))])),
        print(bin(num("2"), vec![(Op::Pow, num("-1"))])),
        print(num("12b1")),
        print(text("after")),
    ];
    let (_, out) = run(prog);
    assert_eq!(
        out,
        vec![
            s("Error: division by zero"),
            s("Error: arithmetic overflow"),
            s("Error: negative exponent"),
            s("Error: invalid number literal"),
            s("after"),
        ]
    );
}

#[test]
fn fault_inside_a_block_keeps_earlier_effects() {
    let prog = vec![range_loop(
        "i",
        num("5"),
        None,
        vec![print(ident("i")), print(bin(num("1"), vec![(Op::Div, bin(ident("i"), vec![(Op::Sub, num("1"))]))]))],
    )];
    let (_, out) = run(prog);
    assert_eq!(out, vec![s("0"), s("-1"), s("1"), s("Error: division by zero")]);
}

#[test]
fn invalid_operation_poisons_the_fold() {
    let e = bin(text("a"), vec![(Op::Add, num("1")), (Op::Add, num("2"))]);
    let (it, _) = run(vec![assign("r", e), assign("q", bin(num("1"), vec![(Op::Other(s("%")), num("2"))]))]);
    assert_eq!(shown(&it, "r"), Some(s("Error: Invalid operation")));
    assert_eq!(shown(&it, "q"), Some(s("Error: Invalid operation")));
}

#[test]
fn operator_table() {
    let cases: Vec<(&str, Op, &str, &str)> = vec![
        ("7", Op::Add, "5", "12"),
        ("7", Op::Sub, "10", "-3"),
        ("-7", Op::Mul, "6", "-42"),
        ("-7", Op::Div, "2", "-3"),
        ("7", Op::Div, "-2", "-3"),
        ("-7", Op::Div, "-2", "3"),
        ("2", Op::Pow, "10", "1024"),
        ("-2", Op::Pow, "63", "-9223372036854775808"),
        ("0", Op::Pow, "0", "1"),
        ("-1", Op::Pow, "3", "-1"),
        ("1", Op::Pow, "999999999999", "1"),
        ("3", Op::Eq, "3", "1"),
        ("3", Op::Eq, "4", "0"),
        ("3", Op::Ge, "4", "0"),
        ("4", Op::Ge, "4", "1"),
        ("3", Op::Le, "4", "1"),
    ];
    for (a, op, b, want) in cases {
        let (it, _) = run(vec![assign("r", bin(num(a), vec![(op, num(b))]))]);
        assert_eq!(shown(&it, "r"), Some(s(want)), "{} {}", a, b);
    }
}

#[test]
fn overflowing_power_and_division() {
    let (_, out) = run(vec![
        print(bin(num("2"), vec![(Op::Pow, num("63"))])),
        print(bin(num("-9223372036854775808"), vec![(Op::Div, num("-1"))])),
    ]);
    assert_eq!(out, vec![s("Error: arithmetic overflow"), s("Error: arithmetic overflow")]);
}

#[test]
fn calls_in_expressions() {
    let (it, out) = run(vec![
        assign("r", Expr::Call(s("print"), Box::new(num("3")))),
        Stmt::Call(s("shout"), num("1")),
    ]);
    assert_eq!(out, vec![s("3"), s("Error: Unknown function")]);
    assert_eq!(shown(&it, "r"), Some(s("")));
}

#[test]
fn function_and_unknown_expressions() {
    let f = Expr::Function(vec![s("a"), s("b")], s("{ print(a); }"));
    let (it, _) = run(vec![assign("f", f), assign("u", Expr::Unknown), Stmt::Skip]);
    match it.variable(&s("f")) {
        Some(Value::Function(ps, body)) => {
            assert_eq!(ps, vec![s("a"), s("b")]);
            assert_eq!(body, s("{ print(a); }"));
        }
        other => panic!("unexpected {:?}", other),
    }
    assert_eq!(shown(&it, "f"), Some(s("Function(a\nb)")));
    assert_eq!(shown(&it, "u"), Some(s("Error: Unknown expression type")));
}

#[test]
fn evaluate_expression_reports_faults() {
    let mut it = Interpreter::new();
    let r = it.evaluate_expression(&bin(num("1"), vec![(Op::Div, num("0"))]));
    assert_eq!(r, Err(Fault::DivideByZero));
    let r = it.evaluate_expression(&Expr::Array(vec![num("1"), num("zz")]));
    assert_eq!(r, Err(Fault::BadNumber));
    let r = it.evaluate_expression(&Expr::Array(vec![]));
    assert_eq!(r.map(|v| v.display()), Ok(s("[  ]")));
}

#[test]
fn default_base_is_configurable() {
    let mut it = Interpreter::with_base(16);
    it.interpret(&vec![assign("x", num("10")), assign("y", num("10b10"))]);
    assert_eq!(shown(&it, "x"), Some(s("16")));
    assert_eq!(shown(&it, "y"), Some(s("10")));
    let (it, _) = run(vec![assign("x", num("10"))]);
    assert_eq!(shown(&it, "x"), Some(s("10")));
}
