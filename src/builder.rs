//! The tree builder: from a generic S-expression tree to a syntax tree.
use vstd::prelude::*;
use crate::syntax::{Expr, UnOp, BinOp, CompileError};

verus! {

/// A generic S-expression tree, as a reader produces it.
#[derive(Debug)]
pub enum Sexpr {
    /// An integer atom.
    Int(i64),
    /// A numeric atom with a fractional part; no form of the grammar uses
    /// its value.
    Float,
    /// Any other atom.
    Sym(String),
    /// A parenthesized list.
    List(Vec<Sexpr>),
}

/// The words that cannot name a variable.
pub open spec fn is_reserved(s: Seq<char>) -> bool {
    s == "let"@ || s == "add1"@ || s == "sub1"@ || s == "negate"@
}

/// An ASCII letter.
pub open spec fn is_alpha(c: char) -> bool {
    ('a' <= c && c <= 'z') || ('A' <= c && c <= 'Z')
}

/// An ASCII letter or digit.
pub open spec fn is_alnum(c: char) -> bool {
    is_alpha(c) || ('0' <= c && c <= '9')
}

/// `s` has the shape of an identifier: a letter, then letters and digits.
pub open spec fn is_ident(s: Seq<char>) -> bool {
    s.len() > 0 && is_alpha(s[0]) && forall|i: int| 1 <= i < s.len() ==> is_alnum(#[trigger] s[i])
}

/// The one-operand operator a keyword names.
pub open spec fn unop_named(s: Seq<char>) -> Option<UnOp> {
    if s == "add1"@ {
        Some(UnOp::Add1)
    } else if s == "sub1"@ {
        Some(UnOp::Sub1)
    } else if s == "negate"@ {
        Some(UnOp::Negate)
    } else {
        None
    }
}

/// The two-operand operator a keyword names.
pub open spec fn binop_named(s: Seq<char>) -> Option<BinOp> {
    if s == "+"@ {
        Some(BinOp::Plus)
    } else if s == "-"@ {
        Some(BinOp::Minus)
    } else if s == "*"@ {
        Some(BinOp::Times)
    } else {
        None
    }
}

/// The text of a symbol atom.
pub open spec fn sym_text(t: Sexpr) -> Option<Seq<char>> {
    match t {
        Sexpr::Sym(s) => Some(s@),
        _ => None,
    }
}

/// `(let <list> <body>)`.
pub open spec fn is_let_form(items: Seq<Sexpr>) -> bool {
    items.len() == 3 && sym_text(items[0]) == Some("let"@) && items[1] is List
}

/// `(<op> <e>)` with `op` a one-operand keyword.
pub open spec fn is_unop_form(items: Seq<Sexpr>) -> bool {
    items.len() == 2 && items[0] is Sym && unop_named(items[0]->Sym_0@) is Some
}

/// `(<op> <e1> <e2>)` with `op` a two-operand keyword.
pub open spec fn is_binop_form(items: Seq<Sexpr>) -> bool {
    items.len() == 3 && items[0] is Sym && binop_named(items[0]->Sym_0@) is Some
}

/// The pairs of a `let` form.
pub open spec fn let_pairs(t: Sexpr) -> Seq<Sexpr> {
    t->List_0@[1]->List_0@
}

/// The first error that building the tree `t` meets, or `None` if it is a
/// program.
pub open spec fn build_error(t: Sexpr) -> Option<CompileError>
    decreases t, 1nat, 0nat,
{
    match t {
        Sexpr::Int(n) => if i32::MIN <= n <= i32::MAX {
            None
        } else {
            Some(CompileError::LiteralRange)
        },
        Sexpr::Float => Some(CompileError::InvalidExpr),
        Sexpr::Sym(s) => if is_reserved(s@) {
            Some(CompileError::ReservedWord)
        } else if is_ident(s@) {
            None
        } else {
            Some(CompileError::InvalidExpr)
        },
        Sexpr::List(items) => if is_let_form(items@) {
            if let_pairs(t).len() == 0 {
                Some(CompileError::InvalidExpr)
            } else {
                let_error_from(t, 0)
            }
        } else if is_unop_form(items@) {
            build_error(items@[1])
        } else if is_binop_form(items@) {
            match build_error(items@[1]) {
                Some(err) => Some(err),
                None => build_error(items@[2]),
            }
        } else {
            Some(CompileError::InvalidExpr)
        },
    }
}

/// The error of a binding pair's shape and name, before its expression.
pub open spec fn pair_shape_error(p: Sexpr) -> Option<CompileError> {
    if !(p is List && p->List_0@.len() == 2 && p->List_0@[0] is Sym) {
        Some(CompileError::InvalidExpr)
    } else if is_reserved(p->List_0@[0]->Sym_0@) {
        Some(CompileError::ReservedWord)
    } else if !is_ident(p->List_0@[0]->Sym_0@) {
        Some(CompileError::InvalidExpr)
    } else {
        None
    }
}

/// For `t` a `let` form: the first error in its pairs from index `i` on, or
/// else in its body.
pub open spec fn let_error_from(t: Sexpr, i: nat) -> Option<CompileError>
    decreases t, 0nat, (if t is List && t->List_0@.len() > 1 && t->List_0@[1] is List {
        let_pairs(t).len()
    } else {
        0
    }) - i,
{
    if t is List && t->List_0@.len() > 2 && t->List_0@[1] is List {
        if i < let_pairs(t).len() {
            let p = let_pairs(t)[i as int];
            match pair_shape_error(p) {
                Some(err) => Some(err),
                None => match build_error(p->List_0@[1]) {
                    Some(err) => Some(err),
                    None => let_error_from(t, i + 1),
                },
            }
        } else {
            build_error(t->List_0@[2])
        }
    } else {
        Some(CompileError::InvalidExpr)
    }
}

/// `e` is the syntax tree that the program `t` stands for.
pub open spec fn builds(t: Sexpr, e: Expr) -> bool
    decreases t, 1nat, 0nat,
{
    match t {
        Sexpr::Int(n) => e is Num && e->Num_0 as int == n as int,
        Sexpr::Float => false,
        Sexpr::Sym(s) => e is Var && e->Var_0@ == s@,
        Sexpr::List(items) => if is_let_form(items@) {
            e is Let && e->Let_0@.len() == let_pairs(t).len() && builds_pairs_from(t, e, 0)
        } else if is_unop_form(items@) {
            e is UnOp && Some(e->UnOp_0) == unop_named(items@[0]->Sym_0@) && builds(items@[1], *e->UnOp_1)
        } else if is_binop_form(items@) {
            e is BinOp && Some(e->BinOp_0) == binop_named(items@[0]->Sym_0@) && builds(items@[1], *e->BinOp_1)
                && builds(items@[2], *e->BinOp_2)
        } else {
            false
        },
    }
}

/// `b` is the binding that the pair `p` of a `let` form stands for.
pub open spec fn pair_builds(p: Sexpr, b: (String, Expr)) -> bool
    decreases p, 2nat, 0nat,
{
    p is List && p->List_0@.len() == 2 && p->List_0@[0] is Sym && b.0@ == p->List_0@[0]->Sym_0@
        && builds(p->List_0@[1], b.1)
}

/// For `t` a `let` form and `e` a `let` with as many pairs: the pairs from
/// index `i` on, and the body, correspond.
pub open spec fn builds_pairs_from(t: Sexpr, e: Expr, i: nat) -> bool
    decreases t, 0nat, (if t is List && t->List_0@.len() > 1 && t->List_0@[1] is List {
        let_pairs(t).len()
    } else {
        0
    }) - i,
{
    if t is List && t->List_0@.len() > 2 && t->List_0@[1] is List && e is Let {
        if i < let_pairs(t).len() {
            pair_builds(let_pairs(t)[i as int], e->Let_0@[i as int]) && builds_pairs_from(t, e, i + 1)
        } else {
            builds(t->List_0@[2], *e->Let_1)
        }
    } else {
        false
    }
}

/// Whether two strings are the same text.
fn same_text(a: &str, b: &str) -> (r: bool)
    ensures
        r == (a@ == b@),
{
    let n = a.unicode_len();
    if n != b.unicode_len() {
        return false;
    }
    let mut i: usize = 0;
    while i < n
        invariant
            n == a@.len() == b@.len(),
            i <= n,
            forall|k: int| 0 <= k < i ==> a@[k] == b@[k],
        decreases n - i,
    {
        if a.get_char(i) != b.get_char(i) {
            return false;
        }
        i = i + 1;
    }
    assert(a@ =~= b@);
    true
}

/// Whether `s` is a reserved word.
pub fn reserved_word(s: &str) -> (r: bool)
    ensures
        r == is_reserved(s@),
{
    same_text(s, "let") || same_text(s, "add1") || same_text(s, "sub1") || same_text(s, "negate")
}

/// Whether `s` has the shape of an identifier.
pub fn ident_shaped(s: &str) -> (r: bool)
    ensures
        r == is_ident(s@),
{
    let n = s.unicode_len();
    if n == 0 {
        return false;
    }
    let c = s.get_char(0);
    if !(('a' <= c && c <= 'z') || ('A' <= c && c <= 'Z')) {
        return false;
    }
    let mut i: usize = 1;
    while i < n
        invariant
            n == s@.len(),
            1 <= i <= n,
            forall|k: int| 1 <= k < i ==> is_alnum(#[trigger] s@[k]),
        decreases n - i,
    {
        let c = s.get_char(i);
        if !(('a' <= c && c <= 'z') || ('A' <= c && c <= 'Z') || ('0' <= c && c <= '9')) {
            return false;
        }
        i = i + 1;
    }
    true
}

/// The one-operand operator that `s` names, if any.
fn unop_keyword(s: &str) -> (r: Option<UnOp>)
    ensures
        r == unop_named(s@),
{
    if same_text(s, "add1") {
        Some(UnOp::Add1)
    } else if same_text(s, "sub1") {
        Some(UnOp::Sub1)
    } else if same_text(s, "negate") {
        Some(UnOp::Negate)
    } else {
        None
    }
}

/// The two-operand operator that `s` names, if any.
fn binop_keyword(s: &str) -> (r: Option<BinOp>)
    ensures
        r == binop_named(s@),
{
    if same_text(s, "+") {
        Some(BinOp::Plus)
    } else if same_text(s, "-") {
        Some(BinOp::Minus)
    } else if same_text(s, "*") {
        Some(BinOp::Times)
    } else {
        None
    }
}

/// `r` is the outcome of building `t`: its syntax tree when `t` is a program,
/// else the first error met.
pub open spec fn build_outcome(t: Sexpr, r: Result<Expr, CompileError>) -> bool {
    match r {
        Ok(e) => build_error(t) is None && builds(t, e),
        Err(err) => build_error(t) == Some(err),
    }
}

/// The syntax tree of the program `t`, or the first error met in it.
pub fn parse_expr(t: &Sexpr) -> (r: Result<Expr, CompileError>)
    ensures
        build_outcome(*t, r),
    decreases *t, 1nat, 0nat,
{
    match t {
        Sexpr::Int(n) => {
            if i32::MIN as i64 <= *n && *n <= i32::MAX as i64 {
                Ok(Expr::Num(*n as i32))
            } else {
                Err(CompileError::LiteralRange)
            }
        },
        Sexpr::Float => Err(CompileError::InvalidExpr),
        Sexpr::Sym(s) => {
            if reserved_word(s.as_str()) {
                Err(CompileError::ReservedWord)
            } else if ident_shaped(s.as_str()) {
                Ok(Expr::Var(s.clone()))
            } else {
                Err(CompileError::InvalidExpr)
            }
        },
        Sexpr::List(items) => {
            if let Some(Sexpr::Sym(op)) = items.first() {
                if items.len() == 3 && same_text(op.as_str(), "let") && matches!(items[1], Sexpr::List(_)) {
                    return parse_let(t);
                }
                if items.len() == 2 {
                    if let Some(u) = unop_keyword(op.as_str()) {
                        let x = match parse_expr(&items[1]) {
                            Ok(x) => x,
                            Err(err) => return Err(err),
                        };
                        return Ok(Expr::UnOp(u, Box::new(x)));
                    }
                }
                if items.len() == 3 {
                    if let Some(b) = binop_keyword(op.as_str()) {
                        let l = match parse_expr(&items[1]) {
                            Ok(x) => x,
                            Err(err) => return Err(err),
                        };
                        let r = match parse_expr(&items[2]) {
                            Ok(x) => x,
                            Err(err) => return Err(err),
                        };
                        return Ok(Expr::BinOp(b, Box::new(l), Box::new(r)));
                    }
                }
            }
            Err(CompileError::InvalidExpr)
        },
    }
}

proof fn lemma_builds_pairs(t: Sexpr, e: Expr, k: nat)
    requires
        t is List && t->List_0@.len() > 2 && t->List_0@[1] is List && e is Let,
        k <= let_pairs(t).len() == e->Let_0@.len(),
        builds(t->List_0@[2], *e->Let_1),
        forall|j: int| k <= j < let_pairs(t).len() ==> pair_builds(let_pairs(t)[j], #[trigger] e->Let_0@[j]),
    ensures
        builds_pairs_from(t, e, k),
    decreases let_pairs(t).len() - k,
{
    if k < let_pairs(t).len() {
        lemma_builds_pairs(t, e, k + 1);
    }
}

/// Builds a `let` form.
fn parse_let(t: &Sexpr) -> (r: Result<Expr, CompileError>)
    requires
        t is List && is_let_form(t->List_0@),
    ensures
        build_outcome(*t, r),
    decreases *t, 0nat, 0nat,
{
    let items = match t {
        Sexpr::List(items) => items,
        _ => return Err(CompileError::InvalidExpr),
    };
    let pairs = match &items[1] {
        Sexpr::List(ps) => ps,
        _ => return Err(CompileError::InvalidExpr),
    };
    if pairs.len() == 0 {
        return Err(CompileError::InvalidExpr);
    }
    let mut binds: Vec<(String, Expr)> = Vec::new();
    let mut i: usize = 0;
    while i < pairs.len()
        invariant
            t is List && is_let_form(t->List_0@),
            items@ == t->List_0@,
            pairs@ == let_pairs(*t),
            i <= pairs@.len(),
            binds@.len() == i,
            let_error_from(*t, 0) == let_error_from(*t, i as nat),
            forall|j: int| 0 <= j < i ==> pair_builds(let_pairs(*t)[j], #[trigger] binds@[j]),
        decreases pairs@.len() - i,
    {
        let (name, rhs) = match &pairs[i] {
            Sexpr::List(pv) => {
                if pv.len() != 2 {
                    return Err(CompileError::InvalidExpr);
                }
                match &pv[0] {
                    Sexpr::Sym(x) => (x, &pv[1]),
                    _ => return Err(CompileError::InvalidExpr),
                }
            },
            _ => return Err(CompileError::InvalidExpr),
        };
        if reserved_word(name.as_str()) {
            return Err(CompileError::ReservedWord);
        }
        if !ident_shaped(name.as_str()) {
            return Err(CompileError::InvalidExpr);
        }
        let x = match parse_expr(rhs) {
            Ok(x) => x,
            Err(err) => return Err(err),
        };
        let ghost before = binds@;
        binds.push((name.clone(), x));
        assert(forall|j: int| 0 <= j < i ==> binds@[j] == before[j]);
        i = i + 1;
    }
    let body = match parse_expr(&items[2]) {
        Ok(x) => x,
        Err(err) => return Err(err),
    };
    let e = Expr::Let(binds, Box::new(body));
    proof {
        lemma_builds_pairs(*t, e, 0);
    }
    Ok(e)
}

} // verus!
