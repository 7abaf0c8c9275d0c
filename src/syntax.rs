//! The syntax tree of the language.
use vstd::prelude::*;

verus! {

/// One-operand operators.
#[derive(Clone, Copy, Debug, PartialEq, Eq, Structural)]
pub enum UnOp {
    Add1,
    Sub1,
    Negate,
}

/// Two-operand operators; `Minus` computes left minus right.
#[derive(Clone, Copy, Debug, PartialEq, Eq, Structural)]
pub enum BinOp {
    Plus,
    Minus,
    Times,
}

/// An expression of the language.
#[derive(Debug)]
pub enum Expr {
    Num(i32),
    Var(String),
    Let(Vec<(String, Expr)>, Box<Expr>),
    UnOp(UnOp, Box<Expr>),
    BinOp(BinOp, Box<Expr>, Box<Expr>),
}

/// Number of stack slots an expression may claim: one per `let` pair and one
/// per binary operation.
pub open spec fn slot_count(e: Expr) -> nat
    decreases e, 1nat, 0nat,
{
    match e {
        Expr::Num(_) => 0,
        Expr::Var(_) => 0,
        Expr::Let(binds, body) => binds@.len() + slot_count_from(e, 0),
        Expr::UnOp(_, x) => slot_count(*x),
        Expr::BinOp(_, l, r) => 1 + slot_count(*l) + slot_count(*r),
    }
}

/// For `e` a `let`, the slots claimed by the right-hand sides from index `i` on,
/// and by the body.
pub open spec fn slot_count_from(e: Expr, i: nat) -> nat
    decreases e, 0nat, (if e is Let { e->Let_0@.len() } else { 0 }) - i,
{
    match e {
        Expr::Let(binds, body) => if i < binds@.len() {
            slot_count(binds@[i as int].1) + slot_count_from(e, i + 1)
        } else {
            slot_count(*body)
        },
        _ => 0,
    }
}

} // verus!

verus! {

/// Why a program was refused.
#[derive(Clone, Copy, Debug, PartialEq, Eq, Structural)]
pub enum CompileError {
    /// The tree matches no form of the grammar.
    InvalidExpr,
    /// A reserved word stands where an identifier is expected.
    ReservedWord,
    /// An integer literal does not fit in 32 bits.
    LiteralRange,
    /// A variable is used where no binding of it is in scope.
    Unbound,
    /// One `let` binds the same name twice.
    DuplicateBinding,
}

/// Whether two pairs of a binding list share a name.
pub open spec fn has_duplicate(binds: Seq<(String, Expr)>) -> bool {
    exists|i: int, j: int| 0 <= i < j < binds.len() && binds[i].0@ == binds[j].0@
}

/// The value of `e` when each name in `vals` holds its value, in unbounded
/// integers.
pub open spec fn eval(e: Expr, vals: Map<Seq<char>, int>) -> int
    decreases e, 1nat, 0nat,
{
    match e {
        Expr::Num(n) => n as int,
        Expr::Var(x) => vals[x@],
        Expr::Let(_, _) => eval_let(e, 0, vals),
        Expr::UnOp(op, x) => match op {
            UnOp::Add1 => eval(*x, vals) + 1,
            UnOp::Sub1 => eval(*x, vals) - 1,
            UnOp::Negate => -eval(*x, vals),
        },
        Expr::BinOp(op, l, r) => match op {
            BinOp::Plus => eval(*l, vals) + eval(*r, vals),
            BinOp::Minus => eval(*l, vals) - eval(*r, vals),
            BinOp::Times => eval(*l, vals) * eval(*r, vals),
        },
    }
}

/// For `e` a `let`: bind its pairs from index `i` on, each under the names
/// bound before it, then evaluate the body.
pub open spec fn eval_let(e: Expr, i: nat, vals: Map<Seq<char>, int>) -> int
    decreases e, 0nat, (if e is Let { e->Let_0@.len() } else { 0 }) - i,
{
    match e {
        Expr::Let(binds, body) => if i < binds@.len() {
            let (x, rhs) = binds@[i as int];
            eval_let(e, i + 1, vals.insert(x@, eval(rhs, vals)))
        } else {
            eval(*body, vals)
        },
        _ => 0,
    }
}

} // verus!
