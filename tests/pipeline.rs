use sysy_compiler::ast::{
    BinaryOp, Block, BlockItem, CompUnit, ConstDef, Expr, FuncDef, FuncParam, FuncType, Stmt,
    UnaryOp, VarDef,
};
use sysy_compiler::ast2ir::ast2ir;
use sysy_compiler::driver::{check_call_arity, check_ir_text, check_targets, emit_koopa, emit_riscv, ir_text_checked};
use sysy_compiler::error::CompileError;
use std::collections::HashMap;
use sysy_compiler::env::IdTable;
use sysy_compiler::fold::compute_expr;
use sysy_compiler::ir::{Inst, IrBinOp, IrFunction, IrProgram, Label, Operand, Symbol};
use sysy_compiler::riscv::ir2riscv;
use sysy_compiler::ir_text::ir_to_string;

fn num(n: i32) -> Expr {
    Expr::Number(n)
}

fn var(s: &str) -> Expr {
    Expr::LVal(s.to_string())
}

fn bin(l: Expr, op: BinaryOp, r: Expr) -> Expr {
    Expr::BinaryExpr(Box::new(l), op, Box::new(r))
}

fn ret(e: Expr) -> BlockItem {
    BlockItem::Stmt(Stmt::Ret(Some(e)))
}

fn int_var(id: &str, e: Option<Expr>) -> BlockItem {
    BlockItem::VarDecl(vec![VarDef { kind: "int".to_string(), id: id.to_string(), value: e }])
}

fn func(name: &str, ty: FuncType, params: &[&str], items: Vec<BlockItem>) -> FuncDef {
    FuncDef {
        func_type: ty,
        ident: name.to_string(),
        block: Block { items },
        params: params
            .iter()
            .map(|p| FuncParam { ident: p.to_string(), kind: "int".to_string() })
            .collect(),
    }
}

fn main_of(items: Vec<BlockItem>) -> CompUnit {
    CompUnit { func_defs: vec![func("main", FuncType::Int, &[], items)] }
}

fn ir_of(unit: &CompUnit) -> String {
    emit_koopa(unit).expect("lowering succeeds")
}

#[test]
fn constant_return() {
    let unit = main_of(vec![ret(num(42))]);
    let ir = ir_of(&unit);
    assert_eq!(ir, "fun @main(): i32 {\n%entry:\n  ret 42\n}\n\n");
    let rv = emit_riscv(&unit).unwrap();
    assert_eq!(
        rv,
        ".text\n.globl main\nmain:\n  addi sp, sp, -16\n  sw ra, 12(sp)\n  li a0, 42\n  lw ra, 12(sp)\n  addi sp, sp, 16\n  ret\n\n"
    );
}

#[test]
fn short_circuit_guards_division() {
    let cond = bin(
        bin(var("x"), BinaryOp::Neq, num(0)),
        BinaryOp::And,
        bin(bin(num(10), BinaryOp::Divide, var("x")), BinaryOp::Greater, num(0)),
    );
    let unit = main_of(vec![
        int_var("x", Some(num(0))),
        BlockItem::Stmt(Stmt::IfElse(cond, Box::new(Stmt::Ret(Some(num(1)))), None)),
        ret(num(0)),
    ]);
    let ir = ir_of(&unit);
    assert!(ir.contains("  @x_0 = alloc i32\n  store 0, @x_0\n"));
    let block_start = ir.find("%and_if0:\n").expect("right operand block");
    let div = ir.find(" = div 10, ").expect("division");
    let join = ir.find("%and_end0:\n").expect("join block");
    assert!(block_start < div && div < join);
    assert!(ir.contains("  br %"));
    assert!(emit_riscv(&unit).is_ok());
}

#[test]
fn inner_scope_shadows() {
    let unit = main_of(vec![
        int_var("a", Some(num(1))),
        BlockItem::Stmt(Stmt::Block(Box::new(Block { items: vec![int_var("a", Some(num(2)))] }))),
        ret(var("a")),
    ]);
    let ir = ir_of(&unit);
    assert!(ir.contains("  @a_0 = alloc i32\n  store 1, @a_0\n"));
    assert!(ir.contains("  @a_1 = alloc i32\n  store 2, @a_1\n"));
    assert!(ir.contains("  %0 = load @a_0\n  ret %0\n"));
}

#[test]
fn while_with_break() {
    let body = Stmt::Block(Box::new(Block {
        items: vec![
            BlockItem::Stmt(Stmt::IfElse(
                bin(var("i"), BinaryOp::Eq, num(5)),
                Box::new(Stmt::Break),
                None,
            )),
            BlockItem::Stmt(Stmt::Assign("i".to_string(), bin(var("i"), BinaryOp::Plus, num(1)))),
        ],
    }));
    let unit = main_of(vec![
        int_var("i", Some(num(0))),
        BlockItem::Stmt(Stmt::While(bin(var("i"), BinaryOp::Less, num(10)), Box::new(body))),
        ret(var("i")),
    ]);
    let ir = ir_of(&unit);
    assert_eq!(ir.matches("%while_entry0:\n").count(), 1);
    assert_eq!(ir.matches("%while_body0:\n").count(), 1);
    assert_eq!(ir.matches("%while_end0:\n").count(), 1);
    assert!(ir.contains("%then_0:\n  jump %while_end0\n%end_0:\n"));
    assert!(emit_riscv(&unit).is_ok());
}

#[test]
fn dead_code_after_return() {
    let unit = main_of(vec![ret(num(1)), ret(num(2))]);
    let ir = ir_of(&unit);
    assert_eq!(ir.matches("ret").count(), 1);
    assert_eq!(ir, "fun @main(): i32 {\n%entry:\n  ret 1\n}\n\n");
}

#[test]
fn function_call() {
    let add = func("add", FuncType::Int, &["a", "b"], vec![ret(bin(var("a"), BinaryOp::Plus, var("b")))]);
    let main = func("main", FuncType::Int, &[], vec![ret(Expr::Func("add".to_string(), vec![num(2), num(3)]))]);
    let unit = CompUnit { func_defs: vec![add, main] };
    let ir = ir_of(&unit);
    assert!(ir.contains("fun @add(%arg0: i32, %arg1: i32): i32 {\n"));
    assert!(ir.contains("  store %arg0, @a_0\n"));
    assert!(ir.contains(" = call @add(2, 3)\n"));
    let rv = emit_riscv(&unit).unwrap();
    assert!(rv.contains("  li t0, 2\n  sw t0, 0(sp)\n  li t0, 3\n  sw t0, 4(sp)\n  call add\n  sw a0, "));
    assert!(rv.contains(".globl add\nadd:\n"));
    // the callee reads its arguments above its own frame
    assert!(rv.contains("  lw t0, 48(sp)\n"));
}

#[test]
fn const_folding() {
    let unit = main_of(vec![
        BlockItem::ConstDecl(vec![ConstDef {
            kind: "int".to_string(),
            id: "k".to_string(),
            value: bin(bin(num(7), BinaryOp::Multiply, num(6)), BinaryOp::Modulo, num(5)),
        }]),
        ret(bin(var("k"), BinaryOp::GreaterOrEqual, num(2))),
    ]);
    let ir = ir_of(&unit);
    assert!(ir.contains("  %0 = le 2, 2\n  ret %0\n"));
}

#[test]
fn unary_operators() {
    let unit = main_of(vec![ret(Expr::UnaryExpr(
        UnaryOp::Not,
        Box::new(Expr::UnaryExpr(UnaryOp::Minus, Box::new(Expr::UnaryExpr(UnaryOp::Plus, Box::new(num(3)))))),
    ))]);
    let ir = ir_of(&unit);
    assert!(ir.contains("  %0 = sub 0, 3\n  %1 = eq 0, %0\n  ret %1\n"));
}

#[test]
fn or_branches_on_negation() {
    let unit = main_of(vec![ret(bin(num(1), BinaryOp::Or, num(0)))]);
    let ir = ir_of(&unit);
    assert!(ir.contains(
        "  %0 = ne 0, 1\n  @tmp0 = alloc i32\n  store %0, @tmp0\n  %1 = eq 0, %0\n  br %1, %or_if0, %or_end0\n%or_if0:\n  %2 = ne 0, 0\n  store %2, @tmp0\n  jump %or_end0\n%or_end0:\n  %3 = load @tmp0\n"
    ));
}

#[test]
fn void_function_gets_ret() {
    let unit = CompUnit { func_defs: vec![func("f", FuncType::Void, &[], vec![])] };
    assert_eq!(ir_of(&unit), "fun @f() {\n%entry:\n  ret\n}\n\n");
}

#[test]
fn int_function_falls_off_end() {
    let unit = main_of(vec![int_var("x", None)]);
    assert_eq!(ir_of(&unit), "fun @main(): i32 {\n%entry:\n  @x_0 = alloc i32\n  ret 0\n}\n\n");
}

#[test]
fn redefinition_is_refused() {
    let unit = main_of(vec![int_var("a", None), int_var("a", None)]);
    assert_eq!(emit_koopa(&unit).unwrap_err(), CompileError::Redefinition);
}

#[test]
fn undeclared_is_refused() {
    let unit = main_of(vec![ret(var("nope"))]);
    assert_eq!(emit_koopa(&unit).unwrap_err(), CompileError::Undeclared);
}

#[test]
fn assign_to_const_is_refused() {
    let unit = main_of(vec![
        BlockItem::ConstDecl(vec![ConstDef { kind: "int".to_string(), id: "c".to_string(), value: num(1) }]),
        BlockItem::Stmt(Stmt::Assign("c".to_string(), num(2))),
    ]);
    assert_eq!(emit_koopa(&unit).unwrap_err(), CompileError::AssignToConst);
}

#[test]
fn non_constant_initializer_is_refused() {
    let unit = main_of(vec![
        int_var("v", Some(num(1))),
        BlockItem::ConstDecl(vec![ConstDef { kind: "int".to_string(), id: "c".to_string(), value: var("v") }]),
    ]);
    assert_eq!(emit_koopa(&unit).unwrap_err(), CompileError::NonConstant);
}

#[test]
fn break_outside_loop_is_refused() {
    let unit = main_of(vec![BlockItem::Stmt(Stmt::Break)]);
    assert_eq!(emit_koopa(&unit).unwrap_err(), CompileError::BreakOutsideLoop);
}

#[test]
fn continue_outside_loop_is_refused() {
    let unit = main_of(vec![BlockItem::Stmt(Stmt::Continue)]);
    assert_eq!(emit_koopa(&unit).unwrap_err(), CompileError::ContinueOutsideLoop);
}

#[test]
fn unknown_function_is_refused() {
    let unit = main_of(vec![ret(Expr::Func("getint".to_string(), vec![]))]);
    assert_eq!(emit_koopa(&unit).unwrap_err(), CompileError::UndeclaredFunction);
}

#[test]
fn malformed_ir_is_reported() {
    assert_eq!(check_ir_text("x".to_string(), false).unwrap_err(), CompileError::MalformedIr);
    assert_eq!(check_ir_text("x".to_string(), true).unwrap(), "x");
}

#[test]
fn every_block_ends_in_one_terminator() {
    let unit = main_of(vec![
        int_var("i", Some(num(0))),
        BlockItem::Stmt(Stmt::While(
            bin(var("i"), BinaryOp::Less, num(3)),
            Box::new(Stmt::IfElse(
                bin(var("i"), BinaryOp::Eq, num(1)),
                Box::new(Stmt::Continue),
                Some(Box::new(Stmt::Assign("i".to_string(), bin(var("i"), BinaryOp::Plus, num(2))))),
            )),
        )),
    ]);
    let p = ast2ir(&unit).unwrap();
    let body = &p.funcs[0].body;
    let is_term = |i: &Inst| matches!(i, Inst::Branch(..) | Inst::Jump(_) | Inst::Ret(_));
    assert!(is_term(body.last().unwrap()));
    for k in 0..body.len() - 1 {
        assert_eq!(is_term(&body[k]), matches!(body[k + 1], Inst::Label(_)));
    }
    let mut defs: Vec<u64> = Vec::new();
    for i in body {
        match i {
            Inst::Binary(t, ..) | Inst::Load(t, _) | Inst::Call(Some(t), ..) => defs.push(*t),
            _ => {}
        }
    }
    let mut sorted = defs.clone();
    sorted.sort();
    sorted.dedup();
    assert_eq!(sorted.len(), defs.len());
    assert!(matches!(body[0], Inst::Alloc(_)));
    assert!(ir_of(&unit).contains("%else_0:\n"));
}

#[test]
fn ir_reads_back_and_reprints() {
    let add = func("add", FuncType::Int, &["a", "b"], vec![ret(bin(var("a"), BinaryOp::Plus, var("b")))]);
    let main = func(
        "main",
        FuncType::Int,
        &[],
        vec![ret(bin(Expr::Func("add".to_string(), vec![num(2), num(3)]), BinaryOp::And, num(4)))],
    );
    let unit = CompUnit { func_defs: vec![add, main] };
    let p = ast2ir(&unit).unwrap();
    let text = ir_to_string(&p);
    let program = koopa::front::Driver::from(text.as_str()).generate_program().unwrap();
    let mut g = koopa::back::KoopaGenerator::new(Vec::new());
    g.generate_on(&program).unwrap();
    let again = String::from_utf8(g.writer()).unwrap();
    let squash = |s: &str| s.split_whitespace().collect::<Vec<_>>().join(" ");
    assert!(koopa::front::Driver::from(again.as_str()).generate_program().is_ok());
    assert_eq!(squash(&again), squash(&text));
}

#[test]
fn frame_is_aligned() {
    let unit = main_of(vec![int_var("a", Some(num(1))), int_var("b", Some(num(2))), ret(bin(var("a"), BinaryOp::Plus, var("b")))]);
    let p = ast2ir(&unit).unwrap();
    let n = p.funcs[0].body.len();
    let rv = emit_riscv(&unit).unwrap();
    let line = rv.lines().find(|l| l.contains("addi sp, sp, -")).unwrap();
    let size: usize = line.trim().trim_start_matches("addi sp, sp, -").parse().unwrap();
    assert_eq!(size % 16, 0);
    assert!(size >= 4 * n + 4);
    assert_eq!(n, 8);
    assert_eq!(size, 48);
}

#[test]
fn operand_kinds_print() {
    let unit = main_of(vec![ret(bin(num(-5), BinaryOp::Minus, num(i32::MIN)))]);
    let ir = ir_of(&unit);
    assert!(ir.contains("  %0 = sub -5, -2147483648\n"));
    let _ = Operand::Imm(0);
}

#[test]
fn unresolved_value_is_malformed() {
    let p = IrProgram {
        funcs: vec![IrFunction {
            name: "main".to_string(),
            n_params: 0,
            returns_int: true,
            body: vec![Inst::Ret(Some(Operand::Temp(5)))],
        }],
    };
    assert_eq!(ir2riscv(&p).unwrap_err(), CompileError::MalformedIr);
}

// Runs the lowered code of `main` and returns the value it returns: a small
// reference evaluator for the IR, used to compare with constant folding.
fn run_main(unit: &CompUnit) -> i32 {
    let p = ast2ir(unit).unwrap();
    let body = &p.funcs[0].body;
    let mut temps: HashMap<u64, i32> = HashMap::new();
    let mut mem: HashMap<String, i32> = HashMap::new();
    let key = |s: &Symbol| match s {
        Symbol::Var(n, k) => format!("{}_{}", n, k),
        Symbol::Tmp(n) => format!("tmp{}", n),
    };
    let find = |l: &Label| body.iter().position(|i| matches!(i, Inst::Label(m) if m == l)).unwrap();
    let mut pc = 0;
    loop {
        let val = |o: &Operand, temps: &HashMap<u64, i32>| match o {
            Operand::Imm(v) => *v,
            Operand::Temp(t) => temps[t],
            Operand::Arg(_) => panic!("no arguments"),
        };
        match &body[pc] {
            Inst::Binary(d, op, a, b) => {
                let (x, y) = (val(a, &temps), val(b, &temps));
                let r = match op {
                    IrBinOp::Add => x.wrapping_add(y),
                    IrBinOp::Sub => x.wrapping_sub(y),
                    IrBinOp::Mul => x.wrapping_mul(y),
                    IrBinOp::Div => if y == 0 { -1 } else { x.wrapping_div(y) },
                    IrBinOp::Mod => if y == 0 { x } else { x.wrapping_rem(y) },
                    IrBinOp::Eq => (x == y) as i32,
                    IrBinOp::Ne => (x != y) as i32,
                    IrBinOp::Lt => (x < y) as i32,
                    IrBinOp::Le => (x <= y) as i32,
                };
                temps.insert(*d, r);
            }
            Inst::Alloc(_) | Inst::Label(_) => {}
            Inst::Load(d, s) => {
                temps.insert(*d, mem[&key(s)]);
            }
            Inst::Store(v, s) => {
                mem.insert(key(s), val(v, &temps));
            }
            Inst::Call(..) => panic!("no calls"),
            Inst::Branch(c, t, f) => {
                pc = if val(c, &temps) != 0 { find(t) } else { find(f) };
                continue;
            }
            Inst::Jump(l) => {
                pc = find(l);
                continue;
            }
            Inst::Ret(v) => return v.as_ref().map(|o| val(o, &temps)).unwrap_or(0),
        }
        pc += 1;
    }
}

#[test]
fn folding_agrees_with_emitted_code() {
    let ops = [
        BinaryOp::Plus, BinaryOp::Minus, BinaryOp::Multiply, BinaryOp::Divide, BinaryOp::Modulo,
        BinaryOp::Less, BinaryOp::LessOrEqual, BinaryOp::Greater, BinaryOp::GreaterOrEqual,
        BinaryOp::Eq, BinaryOp::Neq, BinaryOp::And, BinaryOp::Or,
    ];
    let vals = [0, 1, -1, 7, -3, i32::MAX, i32::MIN];
    for op in ops {
        for &a in &vals {
            for &b in &vals {
                let e = || Expr::UnaryExpr(UnaryOp::Minus, Box::new(bin(num(a), op, num(b))));
                let folded = compute_expr(&e(), &IdTable::new(0)).unwrap();
                let unit = main_of(vec![int_var("v", Some(e())), ret(var("v"))]);
                assert_eq!(run_main(&unit), folded, "{:?} {} {}", op, a, b);
            }
        }
    }
}

#[test]
fn short_circuit_skips_right_operand() {
    // 0 && (1 / 0): the division sits in a block the branch never enters
    let unit = main_of(vec![ret(bin(num(0), BinaryOp::And, bin(num(1), BinaryOp::Divide, num(0))))]);
    assert_eq!(run_main(&unit), 0);
    let ir = ir_of(&unit);
    let div = ir.find(" = div 1, 0").unwrap();
    assert!(ir.find("%and_if0:\n").unwrap() < div && div < ir.find("%and_end0:\n").unwrap());
    let unit = main_of(vec![ret(bin(num(2), BinaryOp::Or, bin(num(1), BinaryOp::Divide, num(0))))]);
    assert_eq!(run_main(&unit), 1);
}

#[test]
fn arity_mismatch_is_refused_by_the_ir_reader() {
    let add = func("add", FuncType::Int, &["a", "b"], vec![ret(bin(var("a"), BinaryOp::Plus, var("b")))]);
    let main = func("main", FuncType::Int, &[], vec![ret(Expr::Func("add".to_string(), vec![num(1)]))]);
    let unit = CompUnit { func_defs: vec![add, main] };
    assert!(ast2ir(&unit).is_ok());
    assert_eq!(emit_koopa(&unit).unwrap_err(), CompileError::MalformedIr);
    assert_eq!(emit_riscv(&unit).unwrap_err(), CompileError::MalformedIr);
}

#[test]
fn jump_to_missing_label_is_malformed() {
    let p = IrProgram {
        funcs: vec![IrFunction {
            name: "main".to_string(),
            n_params: 0,
            returns_int: true,
            body: vec![Inst::Jump(Label::End(3))],
        }],
    };
    assert_eq!(ir_text_checked(&p).unwrap_err(), CompileError::MalformedIr);
    assert!(!check_targets(&p));
    assert!(check_call_arity(&p));
}

#[test]
fn void_call_value_is_refused() {
    let f = func("f", FuncType::Void, &[], vec![]);
    let main = func("main", FuncType::Int, &[], vec![int_var("x", Some(Expr::Func("f".to_string(), vec![]))), ret(var("x"))]);
    let unit = CompUnit { func_defs: vec![f, main] };
    assert_eq!(emit_koopa(&unit).unwrap_err(), CompileError::VoidValue);
}

#[test]
fn void_call_statement_is_lowered() {
    let f = func("f", FuncType::Void, &["a"], vec![BlockItem::Stmt(Stmt::Ret(None))]);
    let main = func(
        "main",
        FuncType::Int,
        &[],
        vec![BlockItem::Stmt(Stmt::Expr(Some(Expr::Func("f".to_string(), vec![num(7)])))), ret(num(0))],
    );
    let unit = CompUnit { func_defs: vec![f, main] };
    let ir = ir_of(&unit);
    assert!(ir.contains("%entry:\n  call @f(7)\n  ret 0\n"));
    assert!(emit_riscv(&unit).unwrap().contains("  li t0, 7\n  sw t0, 0(sp)\n  call f\n  li a0, 0\n  lw ra, "));
}

#[test]
fn name_with_ir_text_is_refused() {
    let bad = "g(%arg0: i32): i32 {\n%entry:\n  ret 0\n}\nfun @main";
    let unit = CompUnit { func_defs: vec![func(bad, FuncType::Int, &[], vec![ret(num(0))])] };
    assert_eq!(emit_koopa(&unit).unwrap_err(), CompileError::BadName);
    assert_eq!(emit_riscv(&unit).unwrap_err(), CompileError::BadName);
    let unit = main_of(vec![int_var("9x", None)]);
    assert_eq!(emit_koopa(&unit).unwrap_err(), CompileError::BadName);
}
