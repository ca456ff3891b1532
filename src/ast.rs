use vstd::prelude::*;

verus! {

/// A binary operator of the language.
#[derive(Debug)]
pub enum Op {
    Add,
    Sub,
    Mul,
    Div,
    Pow,
    Eq,
    Ge,
    Le,
    /// An operator token that the evaluator does not know.
    Other(String),
}

/// An expression node of the parse tree.
#[derive(Debug)]
pub enum Expr {
    /// A string literal: its inner text.
    Text(String),
    /// A numeric literal: its source text, `<digits>` or `<digits>b<radix>`.
    Number(String),
    Array(Vec<Expr>),
    Ident(String),
    /// The first operand, then each operator with its right operand, folded from the left.
    Binary(Box<Expr>, Vec<(Op, Expr)>),
    /// A function literal: parameter names and the source text of the body.
    Function(Vec<String>, String),
    /// A call used as an expression: the function name and its argument.
    Call(String, Box<Expr>),
    /// A node kind the evaluator does not know.
    Unknown,
}

/// The keyword that selects how a `for` loop iterates.
#[derive(Debug)]
pub enum Mutator {
    /// Counts from 0 up to an end, by a step.
    In,
    /// Walks an array, collecting what the loop variable holds after each pass.
    Of,
    Other(String),
}

/// A statement node of the parse tree.
#[derive(Debug)]
pub enum Stmt {
    Assign(String, Expr),
    Call(String, Expr),
    For {
        var: String,
        mutator: Mutator,
        target: Expr,
        /// The source text of `target`: the name an `of` loop rebinds.
        target_text: String,
        step: Option<Expr>,
        body: Vec<Stmt>,
    },
    If(Expr, Vec<Stmt>, Option<Vec<Stmt>>),
    /// Cases in order; a case without a condition is the default.
    Which(Vec<(Option<Expr>, Vec<Stmt>)>),
    /// A bare expression, bound to `ans` and reported.
    Bare(Expr),
    /// A standalone identifier, reported with its value.
    Show(String),
    /// A statement kind the evaluator does not know; it is skipped.
    Skip,
}

} // verus!
