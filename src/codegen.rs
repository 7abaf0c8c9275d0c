//! Code generation: from a syntax tree to machine instructions.
use vstd::prelude::*;
use vstd::set_lib::{set_int_range, lemma_int_range, lemma_map_size_bound, lemma_len_subset};
use crate::machine::{Instr, Machine, run, written_slot, lemma_run_concat, lemma_run_keeps_unwritten};
use crate::env::Env;
use crate::syntax::{Expr, UnOp, BinOp, CompileError, has_duplicate, slot_count, slot_count_from, eval, eval_let};

verus! {

/// The instruction applying a one-operand operator to the accumulator.
pub open spec fn unop_instr(op: UnOp) -> Instr {
    match op {
        UnOp::Add1 => Instr::Inc,
        UnOp::Sub1 => Instr::Dec,
        UnOp::Negate => Instr::Neg,
    }
}

/// The instructions combining the left operand, saved in slot `k`, with the
/// right operand in the accumulator.
pub open spec fn binop_code(op: BinOp, k: u64) -> Seq<Instr> {
    match op {
        BinOp::Plus => seq![Instr::AddSlot(k)],
        BinOp::Minus => seq![Instr::LoadScratch(k), Instr::SubScratch, Instr::MoveScratch],
        BinOp::Times => seq![Instr::MulSlot(k)],
    }
}

/// The code for `e`, with `env` giving each name in scope its slot and `c` the
/// first slot free for temporaries.
pub open spec fn code_for(e: Expr, env: Map<Seq<char>, int>, c: int) -> Result<Seq<Instr>, CompileError>
    decreases e, 1nat, 0nat,
{
    match e {
        Expr::Num(n) => Ok(seq![Instr::LoadImm(n)]),
        Expr::Var(x) => if env.contains_key(x@) {
            Ok(seq![Instr::Load(env[x@] as u64)])
        } else {
            Err(CompileError::Unbound)
        },
        Expr::Let(binds, _) => if has_duplicate(binds@) {
            Err(CompileError::DuplicateBinding)
        } else {
            let_code_from(e, 0, env, c)
        },
        Expr::UnOp(op, x) => match code_for(*x, env, c) {
            Ok(code) => Ok(code.push(unop_instr(op))),
            Err(err) => Err(err),
        },
        Expr::BinOp(op, l, r) => match code_for(*l, env, c) {
            Ok(lc) => match code_for(*r, env, c + 8) {
                Ok(rc) => Ok(lc + seq![Instr::Store(c as u64)] + rc + binop_code(op, c as u64)),
                Err(err) => Err(err),
            },
            Err(err) => Err(err),
        },
    }
}

/// For `e` a `let`: the code for its pairs from index `i` on, pair `i` being
/// evaluated at cursor `c` and stored in slot `c`, then the code for the body.
pub open spec fn let_code_from(e: Expr, i: nat, env: Map<Seq<char>, int>, c: int) -> Result<Seq<Instr>, CompileError>
    decreases e, 0nat, (if e is Let { e->Let_0@.len() } else { 0 }) - i,
{
    match e {
        Expr::Let(binds, body) => if i < binds@.len() {
            let (x, rhs) = binds@[i as int];
            match code_for(rhs, env, c) {
                Ok(rc) => match let_code_from(e, i + 1, env.insert(x@, c), c + 8) {
                    Ok(rest) => Ok(rc + seq![Instr::Store(c as u64)] + rest),
                    Err(err) => Err(err),
                },
                Err(err) => Err(err),
            }
        } else {
            code_for(*body, env, c)
        },
        _ => Err(CompileError::InvalidExpr),
    }
}

/// Number of slots claimed by the pairs of `let` expression `e` from index
/// `i` on (one each, plus what their right-hand sides claim) and by its body.
pub open spec fn let_slots_from(e: Expr, i: nat) -> int {
    (e->Let_0@.len() - i) + slot_count_from(e, i)
}

/// Every slot that `code` writes lies in `lo..hi`, a whole number of slots
/// above `lo`.
pub open spec fn writes_within(code: Seq<Instr>, lo: int, hi: int) -> bool {
    forall|j: int| #![trigger code[j]] 0 <= j < code.len() ==> match written_slot(code[j]) {
        Some(k) => lo <= k < hi && (k - lo) % 8 == 0,
        None => true,
    }
}

proof fn lemma_writes_concat(a: Seq<Instr>, b: Seq<Instr>, lo: int, hi: int)
    requires
        writes_within(a, lo, hi),
        writes_within(b, lo, hi),
    ensures
        writes_within(a + b, lo, hi),
{
    assert forall|j: int| 0 <= j < (a + b).len() implies match written_slot(#[trigger] (a + b)[j]) {
        Some(k) => lo <= k < hi && (k - lo) % 8 == 0,
        None => true,
    } by {
        if j < a.len() {
            assert((a + b)[j] == a[j]);
        } else {
            assert((a + b)[j] == b[j - a.len()]);
        }
    }
}

proof fn lemma_writes_widen(code: Seq<Instr>, lo: int, hi: int, lo2: int, hi2: int)
    requires
        writes_within(code, lo, hi),
        lo2 <= lo,
        hi <= hi2,
        (lo - lo2) % 8 == 0,
    ensures
        writes_within(code, lo2, hi2),
{
    assert forall|j: int| 0 <= j < code.len() implies match written_slot(#[trigger] code[j]) {
        Some(k) => lo2 <= k < hi2 && (k - lo2) % 8 == 0,
        None => true,
    } by {
        if let Some(k) = written_slot(code[j]) {
            assert((k - lo) % 8 == 0);
        }
    }
}

proof fn lemma_writes_single(i: Instr, lo: int, hi: int)
    requires
        match written_slot(i) {
            Some(k) => lo <= k < hi && (k - lo) % 8 == 0,
            None => true,
        },
    ensures
        writes_within(seq![i], lo, hi),
{
    assert(seq![i][0] == i);
}

/// Slots are never shared between live values: the code for `e` at cursor `c`
/// writes only slots `c`, `c + 8`, ... below `c + 8 * slot_count(e)`, so it
/// uses at most one slot per `let` pair and per binary operation, and never
/// one below its cursor.
pub proof fn lemma_slots_used(e: Expr, env: Map<Seq<char>, int>, c: int)
    requires
        code_for(e, env, c) is Ok,
        0 <= c,
        c + 8 * slot_count(e) <= u64::MAX,
    ensures
        writes_within(code_for(e, env, c)->Ok_0, c, c + 8 * slot_count(e)),
    decreases e, 1nat, 0nat,
{
    let code = code_for(e, env, c)->Ok_0;
    let hi = c + 8 * slot_count(e);
    match e {
        Expr::Num(n) => {
            lemma_writes_single(Instr::LoadImm(n), c, hi);
        },
        Expr::Var(x) => {
            lemma_writes_single(Instr::Load(env[x@] as u64), c, hi);
        },
        Expr::Let(binds, _) => {
            lemma_slots_used_let(e, 0, env, c);
        },
        Expr::UnOp(op, x) => {
            let xc = code_for(*x, env, c)->Ok_0;
            lemma_slots_used(*x, env, c);
            lemma_writes_single(unop_instr(op), c, hi);
            assert(code == xc + seq![unop_instr(op)]);
            lemma_writes_concat(xc, seq![unop_instr(op)], c, hi);
        },
        Expr::BinOp(op, l, r) => {
            let lc = code_for(*l, env, c)->Ok_0;
            let rc = code_for(*r, env, c + 8)->Ok_0;
            lemma_slots_used(*l, env, c);
            lemma_slots_used(*r, env, c + 8);
            lemma_writes_widen(lc, c, c + 8 * slot_count(*l), c, hi);
            lemma_writes_widen(rc, c + 8, c + 8 + 8 * slot_count(*r), c, hi);
            lemma_writes_single(Instr::Store(c as u64), c, hi);
            let bc = binop_code(op, c as u64);
            assert(writes_within(bc, c, hi)) by {
                assert forall|j: int| 0 <= j < bc.len() implies written_slot(#[trigger] bc[j]) is None by {
                    if op == BinOp::Minus && j == 1 {
                        assert(bc[1] == Instr::SubScratch);
                    }
                }
            }
            lemma_writes_concat(lc, seq![Instr::Store(c as u64)], c, hi);
            lemma_writes_concat(lc + seq![Instr::Store(c as u64)], rc, c, hi);
            lemma_writes_concat(lc + seq![Instr::Store(c as u64)] + rc, bc, c, hi);
        },
    }
}

/// The set of slots that `code` writes.
pub open spec fn written_slots(code: Seq<Instr>) -> Set<int> {
    Set::new(|k: int| exists|j: int| 0 <= j < code.len() && written_slot(code[j]) == Some(k))
}

/// The code for `e` writes at most `slot_count(e)` distinct slots: one per
/// `let` pair and one per binary operation, at most.
pub proof fn lemma_distinct_slots_bounded(e: Expr, env: Map<Seq<char>, int>, c: int)
    requires
        code_for(e, env, c) is Ok,
        0 <= c,
        c + 8 * slot_count(e) <= u64::MAX,
    ensures
        written_slots(code_for(e, env, c)->Ok_0).finite(),
        written_slots(code_for(e, env, c)->Ok_0).len() <= slot_count(e),
{
    let code = code_for(e, env, c)->Ok_0;
    let n = slot_count(e) as int;
    lemma_slots_used(e, env, c);
    let f = |i: int| c + 8 * i;
    let range = set_int_range(0, n);
    let slots = range.map(f);
    lemma_int_range(0, n);
    lemma_map_size_bound(range, slots, f);
    assert forall|k: int| #[trigger] written_slots(code).contains(k) implies slots.contains(k) by {
        let j = choose|j: int| 0 <= j < code.len() && written_slot(code[j]) == Some(k);
        assert(written_slot(code[j]) == Some(k));
        let i = (k - c) / 8;
        assert(range.contains(i) && f(i) == k);
    }
    lemma_len_subset(written_slots(code), slots);
}

proof fn lemma_slots_used_let(e: Expr, i: nat, env: Map<Seq<char>, int>, c: int)
    requires
        e is Let,
        i <= e->Let_0@.len(),
        let_code_from(e, i, env, c) is Ok,
        0 <= c,
        c + 8 * let_slots_from(e, i) <= u64::MAX,
    ensures
        writes_within(let_code_from(e, i, env, c)->Ok_0, c, c + 8 * let_slots_from(e, i)),
    decreases e, 0nat, e->Let_0@.len() - i,
{
    let binds = e->Let_0;
    let body = e->Let_1;
    let hi = c + 8 * let_slots_from(e, i);
    if i < binds@.len() {
        let (x, rhs) = binds@[i as int];
        let rc = code_for(rhs, env, c)->Ok_0;
        let rest = let_code_from(e, i + 1, env.insert(x@, c), c + 8)->Ok_0;
        lemma_slots_used(rhs, env, c);
        lemma_slots_used_let(e, i + 1, env.insert(x@, c), c + 8);
        lemma_writes_widen(rc, c, c + 8 * slot_count(rhs), c, hi);
        lemma_writes_widen(rest, c + 8, c + 8 + 8 * let_slots_from(e, i + 1), c, hi);
        lemma_writes_single(Instr::Store(c as u64), c, hi);
        lemma_writes_concat(rc, seq![Instr::Store(c as u64)], c, hi);
        lemma_writes_concat(rc + seq![Instr::Store(c as u64)], rest, c, hi);
    } else {
        lemma_slots_used(*body, env, c);
    }
}

/// Each name of `env` has a slot below `c`, and that slot holds the name's
/// value in `vals`.
pub open spec fn env_agrees(env: Map<Seq<char>, int>, c: int, vals: Map<Seq<char>, int>, m: Machine) -> bool {
    forall|x: Seq<char>| #[trigger] env.contains_key(x) ==> 0 <= env[x] < c && (m.slots)(env[x]) == vals[x]
}

proof fn lemma_run_single(m: Machine, i: Instr)
    ensures
        run(m, seq![i]) == crate::machine::step(m, i),
{
    reveal_with_fuel(run, 2);
}

proof fn lemma_keeps_below(m: Machine, code: Seq<Instr>, lo: int, hi: int)
    requires
        writes_within(code, lo, hi),
    ensures
        forall|k: int| k < lo ==> (#[trigger] (run(m, code).slots)(k)) == (m.slots)(k),
{
    assert forall|k: int| k < lo implies (#[trigger] (run(m, code).slots)(k)) == (m.slots)(k) by {
        assert forall|j: int| 0 <= j < code.len() implies written_slot(#[trigger] code[j]) != Some(k) by {}
        lemma_run_keeps_unwritten(m, code, k);
    }
}

/// The generated code computes the expression: run from a state in which each
/// slot of `env` holds its name's value, it leaves the value of `e` in the
/// accumulator and every slot below its cursor as it was.
pub proof fn lemma_compile_correct(e: Expr, env: Map<Seq<char>, int>, c: int, vals: Map<Seq<char>, int>, m: Machine)
    requires
        code_for(e, env, c) is Ok,
        0 <= c,
        c + 8 * slot_count(e) <= u64::MAX,
        env_agrees(env, c, vals, m),
    ensures
        run(m, code_for(e, env, c)->Ok_0).acc == eval(e, vals),
        forall|k: int| k < c ==> (#[trigger] (run(m, code_for(e, env, c)->Ok_0).slots)(k)) == (m.slots)(k),
    decreases e, 1nat, 0nat,
{
    let code = code_for(e, env, c)->Ok_0;
    lemma_slots_used(e, env, c);
    lemma_keeps_below(m, code, c, c + 8 * slot_count(e));
    match e {
        Expr::Num(n) => {
            lemma_run_single(m, Instr::LoadImm(n));
        },
        Expr::Var(x) => {
            lemma_run_single(m, Instr::Load(env[x@] as u64));
        },
        Expr::Let(binds, _) => {
            lemma_compile_correct_let(e, 0, env, c, vals, m);
        },
        Expr::UnOp(op, x) => {
            let xc = code_for(*x, env, c)->Ok_0;
            lemma_compile_correct(*x, env, c, vals, m);
            lemma_run_concat(m, xc, seq![unop_instr(op)]);
            lemma_run_single(run(m, xc), unop_instr(op));
            assert(code == xc + seq![unop_instr(op)]);
        },
        Expr::BinOp(op, l, r) => {
            let lc = code_for(*l, env, c)->Ok_0;
            let rc = code_for(*r, env, c + 8)->Ok_0;
            let st = seq![Instr::Store(c as u64)];
            let bc = binop_code(op, c as u64);
            lemma_compile_correct(*l, env, c, vals, m);
            let m1 = run(m, lc);
            lemma_run_single(m1, Instr::Store(c as u64));
            let m2 = run(m1, st);
            assert(env_agrees(env, c + 8, vals, m2));
            lemma_compile_correct(*r, env, c + 8, vals, m2);
            let m3 = run(m2, rc);
            assert((m3.slots)(c) == eval(*l, vals));
            lemma_run_concat(m, lc, st);
            lemma_run_concat(m, lc + st, rc);
            lemma_run_concat(m, lc + st + rc, bc);
            assert(code == lc + st + rc + bc);
            match op {
                BinOp::Plus => {
                    lemma_run_single(m3, Instr::AddSlot(c as u64));
                },
                BinOp::Minus => {
                    reveal_with_fuel(run, 4);
                    assert(bc.drop_first().drop_first() =~= seq![Instr::MoveScratch]);
                    assert(bc.drop_first() =~= seq![Instr::SubScratch, Instr::MoveScratch]);
                },
                BinOp::Times => {
                    lemma_run_single(m3, Instr::MulSlot(c as u64));
                    assert(eval(*r, vals) * eval(*l, vals) == eval(*l, vals) * eval(*r, vals)) by (nonlinear_arith);
                },
            }
        },
    }
}

proof fn lemma_compile_correct_let(e: Expr, i: nat, env: Map<Seq<char>, int>, c: int, vals: Map<Seq<char>, int>, m: Machine)
    requires
        e is Let,
        i <= e->Let_0@.len(),
        let_code_from(e, i, env, c) is Ok,
        0 <= c,
        c + 8 * let_slots_from(e, i) <= u64::MAX,
        env_agrees(env, c, vals, m),
    ensures
        run(m, let_code_from(e, i, env, c)->Ok_0).acc == eval_let(e, i, vals),
        forall|k: int| k < c ==> (#[trigger] (run(m, let_code_from(e, i, env, c)->Ok_0).slots)(k)) == (m.slots)(k),
    decreases e, 0nat, e->Let_0@.len() - i,
{
    let binds = e->Let_0;
    let body = e->Let_1;
    let code = let_code_from(e, i, env, c)->Ok_0;
    lemma_slots_used_let(e, i, env, c);
    lemma_keeps_below(m, code, c, c + 8 * let_slots_from(e, i));
    if i < binds@.len() {
        let (x, rhs) = binds@[i as int];
        let rc = code_for(rhs, env, c)->Ok_0;
        let env2 = env.insert(x@, c);
        let vals2 = vals.insert(x@, eval(rhs, vals));
        let rest = let_code_from(e, i + 1, env2, c + 8)->Ok_0;
        let st = seq![Instr::Store(c as u64)];
        lemma_compile_correct(rhs, env, c, vals, m);
        let m1 = run(m, rc);
        lemma_run_single(m1, Instr::Store(c as u64));
        let m2 = run(m1, st);
        assert(env_agrees(env2, c + 8, vals2, m2));
        lemma_compile_correct_let(e, i + 1, env2, c + 8, vals2, m2);
        lemma_run_concat(m, rc, st);
        lemma_run_concat(m, rc + st, rest);
        assert(code == rc + st + rest);
    } else {
        lemma_compile_correct(*body, env, c, vals, m);
    }
}

/// `r` is the outcome that `s` describes.
pub open spec fn same_outcome(r: Result<Vec<Instr>, CompileError>, s: Result<Seq<Instr>, CompileError>) -> bool {
    match r {
        Ok(code) => s == Ok::<Seq<Instr>, CompileError>(code@),
        Err(err) => s == Err::<Seq<Instr>, CompileError>(err),
    }
}

/// Whether two pairs of `binds` share a name.
pub fn has_duplicate_names(binds: &Vec<(String, Expr)>) -> (r: bool)
    ensures
        r == has_duplicate(binds@),
{
    let n = binds.len();
    let mut j: usize = 0;
    while j < n
        invariant
            n == binds@.len(),
            j <= n,
            forall|a: int, b: int| 0 <= a < b < j ==> (#[trigger] binds@[a]).0@ != (#[trigger] binds@[b]).0@,
        decreases n - j,
    {
        let mut i: usize = 0;
        while i < j
            invariant
                n == binds@.len(),
                i <= j < n,
                forall|a: int| 0 <= a < i ==> (#[trigger] binds@[a]).0@ != binds@[j as int].0@,
            decreases j - i,
        {
            if binds[i].0 == binds[j].0 {
                return true;
            }
            i = i + 1;
        }
        j = j + 1;
    }
    false
}

/// The instructions for `e`, with `env` giving the slot of each variable in
/// scope and `cursor` the first slot free for temporaries: exactly the code
/// that `code_for` describes, or the error it describes.
pub fn compile_expr(e: &Expr, env: &Env, cursor: u64) -> (r: Result<Vec<Instr>, CompileError>)
    requires
        cursor + 8 * slot_count(*e) <= u64::MAX,
    ensures
        same_outcome(r, code_for(*e, env@, cursor as int)),
    decreases *e, 1nat, 0nat,
{
    match e {
        Expr::Num(n) => {
            let code = vec![Instr::LoadImm(*n)];
            assert(code@ =~= seq![Instr::LoadImm(*n)]);
            Ok(code)
        },
        Expr::Var(x) => match env.lookup(x) {
            Some(k) => {
                let code = vec![Instr::Load(k)];
                assert(code@ =~= seq![Instr::Load(k)]);
                Ok(code)
            },
            None => Err(CompileError::Unbound),
        },
        Expr::Let(binds, _) => {
            if has_duplicate_names(binds) {
                Err(CompileError::DuplicateBinding)
            } else {
                compile_let(e, 0, env, cursor)
            }
        },
        Expr::UnOp(op, x) => {
            let mut code = match compile_expr(x, env, cursor) {
                Ok(code) => code,
                Err(err) => return Err(err),
            };
            let instr = match op {
                UnOp::Add1 => Instr::Inc,
                UnOp::Sub1 => Instr::Dec,
                UnOp::Negate => Instr::Neg,
            };
            assert(instr == unop_instr(*op));
            code.push(instr);
            Ok(code)
        },
        Expr::BinOp(op, l, r) => {
            let mut code = match compile_expr(l, env, cursor) {
                Ok(code) => code,
                Err(err) => return Err(err),
            };
            let ghost lc = code@;
            code.push(Instr::Store(cursor));
            let mut rc = match compile_expr(r, env, cursor + 8) {
                Ok(code) => code,
                Err(err) => return Err(err),
            };
            let ghost rcv = rc@;
            code.append(&mut rc);
            match op {
                BinOp::Plus => code.push(Instr::AddSlot(cursor)),
                BinOp::Minus => {
                    code.push(Instr::LoadScratch(cursor));
                    code.push(Instr::SubScratch);
                    code.push(Instr::MoveScratch);
                },
                BinOp::Times => code.push(Instr::MulSlot(cursor)),
            }
            assert(code@ =~= lc + seq![Instr::Store(cursor)] + rcv + binop_code(*op, cursor));
            Ok(code)
        },
    }
}

/// For `e` a `let`: the code for its pairs from index `i` on, then for its body.
fn compile_let(e: &Expr, i: usize, env: &Env, cursor: u64) -> (r: Result<Vec<Instr>, CompileError>)
    requires
        e is Let,
        i <= e->Let_0@.len(),
        cursor + 8 * let_slots_from(*e, i as nat) <= u64::MAX,
    ensures
        same_outcome(r, let_code_from(*e, i as nat, env@, cursor as int)),
    decreases *e, 0nat, e->Let_0@.len() - i,
{
    match e {
        Expr::Let(binds, body) => {
            if i < binds.len() {
                let (x, rhs) = &binds[i];
                let mut code = match compile_expr(rhs, env, cursor) {
                    Ok(code) => code,
                    Err(err) => return Err(err),
                };
                let ghost rc = code@;
                code.push(Instr::Store(cursor));
                let inner = env.bind(x, cursor);
                let mut rest = match compile_let(e, i + 1, &inner, cursor + 8) {
                    Ok(code) => code,
                    Err(err) => return Err(err),
                };
                let ghost restv = rest@;
                code.append(&mut rest);
                assert(code@ =~= rc + seq![Instr::Store(cursor)] + restv);
                Ok(code)
            } else {
                compile_expr(body, env, cursor)
            }
        },
        _ => Err(CompileError::InvalidExpr),
    }
}

/// The first slot of a program: offset 8 below the stack pointer.
pub const FIRST_SLOT: u64 = 8;

/// The code of a whole program, generated with no variable in scope and
/// temporaries from the first slot on.
pub fn compile_program(e: &Expr) -> (r: Result<Vec<Instr>, CompileError>)
    requires
        FIRST_SLOT + 8 * slot_count(*e) <= u64::MAX,
    ensures
        same_outcome(r, code_for(*e, Map::empty(), FIRST_SLOT as int)),
{
    compile_expr(e, &Env::new(), FIRST_SLOT)
}

/// Whether the slots of program `e` can all be addressed, as
/// `compile_program` requires.
pub fn program_fits(e: &Expr) -> (r: bool)
    ensures
        r == (FIRST_SLOT + 8 * slot_count(*e) <= u64::MAX),
{
    match count_slots(e) {
        Some(n) => n <= (u64::MAX - FIRST_SLOT) / 8,
        None => false,
    }
}

/// `slot_count(e)`, where it fits in a `u64`.
pub fn count_slots(e: &Expr) -> (r: Option<u64>)
    ensures
        r matches Some(n) ==> n as int == slot_count(*e),
        r is None ==> slot_count(*e) > u64::MAX,
    decreases *e, 1nat, 0nat,
{
    match e {
        Expr::Num(_) => Some(0),
        Expr::Var(_) => Some(0),
        Expr::Let(binds, _) => {
            let n = binds.len() as u64;
            match count_slots_let(e, 0) {
                Some(k) => n.checked_add(k),
                None => None,
            }
        },
        Expr::UnOp(_, x) => count_slots(x),
        Expr::BinOp(_, l, r) => {
            let a = match count_slots(l) {
                Some(a) => a,
                None => return None,
            };
            let b = match count_slots(r) {
                Some(b) => b,
                None => return None,
            };
            match a.checked_add(b) {
                Some(ab) => ab.checked_add(1),
                None => None,
            }
        },
    }
}

fn count_slots_let(e: &Expr, i: usize) -> (r: Option<u64>)
    requires
        e is Let,
        i <= e->Let_0@.len(),
    ensures
        r matches Some(n) ==> n as int == slot_count_from(*e, i as nat),
        r is None ==> slot_count_from(*e, i as nat) > u64::MAX,
    decreases *e, 0nat, e->Let_0@.len() - i,
{
    match e {
        Expr::Let(binds, body) => {
            if i < binds.len() {
                let a = match count_slots(&binds[i].1) {
                    Some(a) => a,
                    None => return None,
                };
                match count_slots_let(e, i + 1) {
                    Some(b) => a.checked_add(b),
                    None => None,
                }
            } else {
                count_slots(body)
            }
        },
        _ => None,
    }
}

/// A literal compiles to the single instruction loading it, whatever the
/// scope and cursor, and that code leaves the literal in the accumulator.
pub proof fn lemma_number_compiles(n: i32, env: Map<Seq<char>, int>, c: int, m: Machine)
    ensures
        code_for(Expr::Num(n), env, c) == Ok::<Seq<Instr>, CompileError>(seq![Instr::LoadImm(n)]),
        run(m, seq![Instr::LoadImm(n)]).acc == n as int,
{
    lemma_run_single(m, Instr::LoadImm(n));
}

/// A whole program's code, run from any machine state, leaves the program's
/// value in the accumulator.
pub proof fn lemma_program_correct(e: Expr, m: Machine)
    requires
        code_for(e, Map::empty(), FIRST_SLOT as int) is Ok,
        FIRST_SLOT + 8 * slot_count(e) <= u64::MAX,
    ensures
        run(m, code_for(e, Map::empty(), FIRST_SLOT as int)->Ok_0).acc == eval(e, Map::empty()),
{
    lemma_compile_correct(e, Map::empty(), FIRST_SLOT as int, Map::empty(), m);
}

} // verus!
