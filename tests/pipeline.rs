use boa::builder::{parse_expr, reserved_word, ident_shaped, Sexpr};
use boa::codegen::{compile_expr, compile_program, count_slots, has_duplicate_names, program_fits};
use boa::env::Env;
use boa::machine::Instr;
use boa::syntax::{BinOp, CompileError, Expr, UnOp};
use boa::text::assemble;
use std::collections::HashMap;

fn num(n: i64) -> Sexpr {
    Sexpr::Int(n)
}

fn sym(s: &str) -> Sexpr {
    Sexpr::Sym(s.to_string())
}

fn list(items: Vec<Sexpr>) -> Sexpr {
    Sexpr::List(items)
}

fn pair(name: &str, e: Sexpr) -> Sexpr {
    list(vec![sym(name), e])
}

fn let_form(pairs: Vec<Sexpr>, body: Sexpr) -> Sexpr {
    list(vec![sym("let"), list(pairs), body])
}

fn compile_tree(t: &Sexpr) -> Result<Vec<Instr>, CompileError> {
    let e = parse_expr(t)?;
    compile_program(&e)
}

/// Runs code on a model of the machine and returns the accumulator.
fn run(code: &[Instr]) -> i64 {
    let (mut rax, mut rbx) = (0i64, 0i64);
    let mut slots: HashMap<u64, i64> = HashMap::new();
    for i in code {
        match *i {
            Instr::LoadImm(n) => rax = n as i64,
            Instr::Load(k) => rax = slots[&k],
            Instr::Store(k) => {
                slots.insert(k, rax);
            }
            Instr::Inc => rax += 1,
            Instr::Dec => rax -= 1,
            Instr::Neg => rax = -rax,
            Instr::AddSlot(k) => rax += slots[&k],
            Instr::MulSlot(k) => rax *= slots[&k],
            Instr::LoadScratch(k) => rbx = slots[&k],
            Instr::SubScratch => rbx -= rax,
            Instr::MoveScratch => rax = rbx,
        }
    }
    rax
}

fn stored_slots(code: &[Instr]) -> Vec<u64> {
    let mut out = Vec::new();
    for i in code {
        if let Instr::Store(k) = *i {
            if !out.contains(&k) {
                out.push(k);
            }
        }
    }
    out.sort();
    out
}

#[test]
fn number_compiles_to_one_load() {
    for n in [0i32, 42, -7, i32::MAX, i32::MIN] {
        let code = compile_program(&Expr::Num(n)).unwrap();
        assert_eq!(code, vec![Instr::LoadImm(n)]);
        assert_eq!(run(&code), n as i64);
    }
}

#[test]
fn number_text() {
    assert_eq!(Instr::LoadImm(42).text(), "mov rax, 42");
    assert_eq!(Instr::LoadImm(-2147483648).text(), "mov rax, -2147483648");
    assert_eq!(Instr::LoadImm(0).text(), "mov rax, 0");
}

#[test]
fn shadowing_resolves_innermost() {
    let t = let_form(vec![pair("x", num(5))], let_form(vec![pair("x", num(6))], sym("x")));
    let code = compile_tree(&t).unwrap();
    assert_eq!(
        code,
        vec![
            Instr::LoadImm(5),
            Instr::Store(8),
            Instr::LoadImm(6),
            Instr::Store(16),
            Instr::Load(16),
        ]
    );
    assert_eq!(run(&code), 6);
}

#[test]
fn self_reference_is_unbound() {
    let t = let_form(vec![pair("x", sym("x"))], sym("x"));
    assert_eq!(compile_tree(&t), Err(CompileError::Unbound));
}

#[test]
fn duplicate_binding_rejected() {
    let t = let_form(vec![pair("x", num(1)), pair("x", num(2))], sym("x"));
    assert_eq!(compile_tree(&t), Err(CompileError::DuplicateBinding));
}

#[test]
fn subtraction_keeps_operand_order() {
    let t = list(vec![sym("-"), num(10), num(3)]);
    let code = compile_tree(&t).unwrap();
    assert_eq!(
        code,
        vec![
            Instr::LoadImm(10),
            Instr::Store(8),
            Instr::LoadImm(3),
            Instr::LoadScratch(8),
            Instr::SubScratch,
            Instr::MoveScratch,
        ]
    );
    assert_eq!(run(&code), 7);
}

#[test]
fn end_to_end_add_of_product() {
    let t = list(vec![sym("+"), num(1), list(vec![sym("*"), num(2), num(3)])]);
    let e = parse_expr(&t).unwrap();
    match &e {
        Expr::BinOp(BinOp::Plus, l, r) => {
            assert!(matches!(**l, Expr::Num(1)));
            match &**r {
                Expr::BinOp(BinOp::Times, a, b) => {
                    assert!(matches!(**a, Expr::Num(2)));
                    assert!(matches!(**b, Expr::Num(3)));
                }
                _ => panic!("right operand is not a product"),
            }
        }
        _ => panic!("not a sum"),
    }
    let code = compile_program(&e).unwrap();
    assert_eq!(
        code,
        vec![
            Instr::LoadImm(1),
            Instr::Store(8),
            Instr::LoadImm(2),
            Instr::Store(16),
            Instr::LoadImm(3),
            Instr::MulSlot(16),
            Instr::AddSlot(8),
        ]
    );
    assert_eq!(run(&code), 7);
}

#[test]
fn reserved_word_atom_rejected() {
    for w in ["let", "add1", "sub1", "negate"] {
        assert!(matches!(parse_expr(&sym(w)), Err(CompileError::ReservedWord)));
    }
}

#[test]
fn reserved_word_as_binding_name_rejected() {
    let t = let_form(vec![pair("add1", num(1))], num(2));
    assert!(matches!(parse_expr(&t), Err(CompileError::ReservedWord)));
}

#[test]
fn invalid_forms_rejected() {
    let cases = vec![
        list(vec![]),
        list(vec![sym("foo"), num(1)]),
        list(vec![sym("add1"), num(1), num(2)]),
        list(vec![sym("+"), num(1)]),
        list(vec![sym("let"), sym("x"), num(1)]),
        let_form(vec![], num(1)),
        let_form(vec![list(vec![sym("x")])], num(1)),
        let_form(vec![list(vec![num(1), num(2)])], num(1)),
        let_form(vec![num(3)], num(1)),
        sym("x-y"),
        sym("1x"),
        sym("+"),
        Sexpr::Float,
    ];
    for t in &cases {
        assert!(matches!(parse_expr(t), Err(CompileError::InvalidExpr)), "{:?}", t);
    }
}

#[test]
fn literal_out_of_range_rejected() {
    assert!(matches!(parse_expr(&num(1 << 40)), Err(CompileError::LiteralRange)));
    assert!(matches!(parse_expr(&num(-2147483649)), Err(CompileError::LiteralRange)));
    assert!(matches!(parse_expr(&num(2147483647)), Ok(Expr::Num(2147483647))));
}

#[test]
fn first_error_wins() {
    let t = list(vec![sym("+"), sym("let"), num(1 << 40)]);
    assert!(matches!(parse_expr(&t), Err(CompileError::ReservedWord)));
    let t = list(vec![sym("+"), num(1 << 40), sym("let")]);
    assert!(matches!(parse_expr(&t), Err(CompileError::LiteralRange)));
}

#[test]
fn unary_operators() {
    let t = list(vec![sym("negate"), list(vec![sym("add1"), list(vec![sym("sub1"), num(5)])])]);
    let code = compile_tree(&t).unwrap();
    assert_eq!(code, vec![Instr::LoadImm(5), Instr::Dec, Instr::Inc, Instr::Neg]);
    assert_eq!(run(&code), -5);
    match parse_expr(&t).unwrap() {
        Expr::UnOp(UnOp::Negate, _) => {}
        _ => panic!("not a negation"),
    }
}

#[test]
fn later_pair_sees_earlier_pair() {
    let t = let_form(
        vec![pair("x", num(4)), pair("y", list(vec![sym("*"), sym("x"), num(3)]))],
        list(vec![sym("-"), sym("y"), sym("x")]),
    );
    let code = compile_tree(&t).unwrap();
    assert_eq!(run(&code), 8);
}

#[test]
fn unbound_variable_rejected() {
    assert_eq!(compile_tree(&sym("z")), Err(CompileError::Unbound));
}

#[test]
fn slots_never_below_cursor_and_bounded() {
    let t = list(vec![sym("+"), list(vec![sym("+"), num(1), num(2)]), num(3)]);
    let code = compile_tree(&t).unwrap();
    assert_eq!(stored_slots(&code), vec![8]);
    assert_eq!(run(&code), 6);
    let t = let_form(
        vec![pair("a", num(1)), pair("b", num(2))],
        list(vec![sym("+"), sym("a"), list(vec![sym("*"), sym("b"), num(10)])]),
    );
    let code = compile_tree(&t).unwrap();
    assert_eq!(stored_slots(&code), vec![8, 16, 24, 32]);
    assert_eq!(count_slots(&parse_expr(&t).unwrap()), Some(4));
    assert_eq!(run(&code), 21);
}

#[test]
fn compile_at_other_cursor_uses_env() {
    let env = Env::new().bind(&"q".to_string(), 8);
    let e = Expr::BinOp(BinOp::Minus, Box::new(Expr::Var("q".to_string())), Box::new(Expr::Num(1)));
    let code = compile_expr(&e, &env, 16).unwrap();
    assert_eq!(
        code,
        vec![
            Instr::Load(8),
            Instr::Store(16),
            Instr::LoadImm(1),
            Instr::LoadScratch(16),
            Instr::SubScratch,
            Instr::MoveScratch,
        ]
    );
}

#[test]
fn env_bind_and_lookup() {
    let x = "x".to_string();
    let e0 = Env::new();
    assert_eq!(e0.lookup(&x), None);
    let e1 = e0.bind(&x, 8);
    let e2 = e1.bind(&x, 24);
    assert_eq!(e1.lookup(&x), Some(8));
    assert_eq!(e2.lookup(&x), Some(24));
    assert_eq!(e2.lookup(&"y".to_string()), None);
}

#[test]
fn duplicate_name_check() {
    let b = vec![("a".to_string(), Expr::Num(1)), ("b".to_string(), Expr::Num(2))];
    assert!(!has_duplicate_names(&b));
    let b = vec![
        ("a".to_string(), Expr::Num(1)),
        ("b".to_string(), Expr::Num(2)),
        ("a".to_string(), Expr::Num(3)),
    ];
    assert!(has_duplicate_names(&b));
}

#[test]
fn word_classes() {
    assert!(reserved_word("negate"));
    assert!(!reserved_word("neg"));
    assert!(ident_shaped("aB9"));
    assert!(!ident_shaped("9a"));
    assert!(!ident_shaped(""));
}

#[test]
fn assembled_program_text() {
    let t = list(vec![sym("-"), num(10), num(3)]);
    let code = compile_tree(&t).unwrap();
    let program = assemble(&code);
    assert_eq!(
        program,
        "section .text\nglobal our_code_starts_here\nour_code_starts_here:\n  mov rax, 10\n  mov [rsp - 8], rax\n  mov rax, 3\n  mov rbx, [rsp - 8]\n  sub rbx, rax\n  mov rax, rbx\n  ret\n"
    );
}

#[test]
fn instruction_texts() {
    assert_eq!(Instr::Load(16).text(), "mov rax, [rsp - 16]");
    assert_eq!(Instr::Store(1024).text(), "mov [rsp - 1024], rax");
    assert_eq!(Instr::Inc.text(), "add rax, 1");
    assert_eq!(Instr::Dec.text(), "sub rax, 1");
    assert_eq!(Instr::Neg.text(), "imul rax, -1");
    assert_eq!(Instr::AddSlot(8).text(), "add rax, [rsp - 8]");
    assert_eq!(Instr::MulSlot(8).text(), "imul rax, [rsp - 8]");
}

#[test]
fn small_programs_fit() {
    let t = list(vec![sym("+"), num(1), list(vec![sym("*"), num(2), num(3)])]);
    let e = parse_expr(&t).unwrap();
    assert_eq!(count_slots(&e), Some(2));
    assert!(program_fits(&e));
    assert!(program_fits(&Expr::Num(1)));
    assert_eq!(count_slots(&Expr::Num(1)), Some(0));
}
