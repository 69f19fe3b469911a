//! Lowering of the syntax tree to IR: scoped name resolution, constant
//! folding of `const` declarations, basic blocks for control flow and
//! short-circuit operators, and unique numbering of temporaries and labels.
use vstd::prelude::*;
use crate::ast::{
    BinaryOp, Block, BlockItem, CompUnit, ConstDef, Expr, FuncDef, FuncParam, FuncType, Stmt, UnaryOp, VarDef,
};
use crate::env::{bind, bound_here, empty_scope, lookup_scopes, IdElement, IdTable, ScopeV};
use crate::error::CompileError;
use crate::fold::{compute_expr, const_value};
use crate::ir::{
    blocks_split, closed_code, def_of, fresh_temps, insts_view, is_label, is_terminator, lemma_fresh_concat, lemma_fresh_push,
    lemma_fresh_push_none, lemma_open_concat, lemma_view_concat, lemma_view_push, open_code, Inst,
    InstV, IrBinOp, IrFunction, IrProgram, Label, Operand, Symbol, SymbolV,
};

verus! {

/// The counters that number temporaries, if/short-circuit labels, loops and
/// scopes. Each hands out its current value and then moves on by one.
#[derive(Debug, Clone, Copy, PartialEq, Eq, Structural)]
pub struct Context {
    pub temp: u64,
    pub label: u64,
    pub looping: u64,
    pub scope: u64,
}

pub open spec fn next_temp(c: Context) -> Option<(u64, Context)> {
    if c.temp < u64::MAX {
        Some((c.temp, Context { temp: (c.temp + 1) as u64, ..c }))
    } else {
        None
    }
}

pub open spec fn next_label(c: Context) -> Option<(u64, Context)> {
    if c.label < u64::MAX {
        Some((c.label, Context { label: (c.label + 1) as u64, ..c }))
    } else {
        None
    }
}

pub open spec fn next_loop(c: Context) -> Option<(u64, Context)> {
    if c.looping < u64::MAX {
        Some((c.looping, Context { looping: (c.looping + 1) as u64, ..c }))
    } else {
        None
    }
}

pub open spec fn next_scope(c: Context) -> Option<(u64, Context)> {
    if c.scope < u64::MAX {
        Some((c.scope, Context { scope: (c.scope + 1) as u64, ..c }))
    } else {
        None
    }
}

/// What `fresh_*` returns, given the spec step.
pub open spec fn fresh_result(step: Option<(u64, Context)>, r: Result<u64, CompileError>, before: Context, after: Context) -> bool {
    match step {
        Some((n, c)) => r == Ok::<u64, CompileError>(n) && after == c,
        None => r == Err::<u64, CompileError>(CompileError::TooLarge) && after == before,
    }
}

impl Context {
    /// All counters at zero.
    pub fn new() -> (r: Context)
        ensures
            r == (Context { temp: 0, label: 0, looping: 0, scope: 0 }),
    {
        Context { temp: 0, label: 0, looping: 0, scope: 0 }
    }

    pub fn fresh_temp(&mut self) -> (r: Result<u64, CompileError>)
        ensures
            fresh_result(next_temp(*old(self)), r, *old(self), *final(self)),
    {
        if self.temp < u64::MAX {
            let t = self.temp;
            self.temp = self.temp + 1;
            Ok(t)
        } else {
            Err(CompileError::TooLarge)
        }
    }

    pub fn fresh_label(&mut self) -> (r: Result<u64, CompileError>)
        ensures
            fresh_result(next_label(*old(self)), r, *old(self), *final(self)),
    {
        if self.label < u64::MAX {
            let t = self.label;
            self.label = self.label + 1;
            Ok(t)
        } else {
            Err(CompileError::TooLarge)
        }
    }

    pub fn fresh_loop(&mut self) -> (r: Result<u64, CompileError>)
        ensures
            fresh_result(next_loop(*old(self)), r, *old(self), *final(self)),
    {
        if self.looping < u64::MAX {
            let t = self.looping;
            self.looping = self.looping + 1;
            Ok(t)
        } else {
            Err(CompileError::TooLarge)
        }
    }

    pub fn fresh_scope(&mut self) -> (r: Result<u64, CompileError>)
        ensures
            fresh_result(next_scope(*old(self)), r, *old(self), *final(self)),
    {
        if self.scope < u64::MAX {
            let t = self.scope;
            self.scope = self.scope + 1;
            Ok(t)
        } else {
            Err(CompileError::TooLarge)
        }
    }
}

/// A function of the unit as calls see it: its name and whether it returns a value.
#[derive(Debug)]
pub struct FuncSig {
    pub name: String,
    pub returns_int: bool,
}

/// Function signatures as the contracts see them: name and whether the
/// function returns a value.
pub type Sigs = Seq<(Seq<char>, bool)>;

pub open spec fn sigs_view(fs: Seq<FuncSig>) -> Sigs {
    fs.map_values(|f: FuncSig| (f.name@, f.returns_int))
}

/// Whether the first function named `name` returns a value; `None` where
/// there is none.
pub open spec fn find_func(fs: Sigs, name: Seq<char>) -> Option<bool>
    decreases fs.len(),
{
    if fs.len() == 0 {
        None
    } else if fs[0].0 == name {
        Some(fs[0].1)
    } else {
        find_func(fs.drop_first(), name)
    }
}

pub fn lookup_func(funcs: &Vec<FuncSig>, name: &String) -> (r: Option<bool>)
    ensures
        r == find_func(sigs_view(funcs@), name@),
{
    let ghost all = sigs_view(funcs@);
    let mut i: usize = 0;
    assert(all.subrange(0, all.len() as int) =~= all);
    while i < funcs.len()
        invariant
            i <= funcs@.len(),
            all == sigs_view(funcs@),
            find_func(all, name@) == find_func(all.subrange(i as int, all.len() as int), name@),
        decreases funcs@.len() - i,
    {
        let ghost rest = all.subrange(i as int, all.len() as int);
        assert(rest.drop_first() =~= all.subrange(i + 1, all.len() as int));
        assert(rest[0] == (funcs@[i as int].name@, funcs@[i as int].returns_int));
        if funcs[i].name == *name {
            return Some(funcs[i].returns_int);
        }
        i = i + 1;
    }
    None
}

/// The IR opcode and operand order for a non-short-circuit binary operator:
/// `>` and `>=` become `lt` and `le` with the operands swapped.
pub open spec fn binary_inst(t: u64, op: BinaryOp, a: Operand, b: Operand) -> InstV {
    match op {
        BinaryOp::Plus => InstV::Binary(t, IrBinOp::Add, a, b),
        BinaryOp::Minus => InstV::Binary(t, IrBinOp::Sub, a, b),
        BinaryOp::Multiply => InstV::Binary(t, IrBinOp::Mul, a, b),
        BinaryOp::Divide => InstV::Binary(t, IrBinOp::Div, a, b),
        BinaryOp::Modulo => InstV::Binary(t, IrBinOp::Mod, a, b),
        BinaryOp::Less => InstV::Binary(t, IrBinOp::Lt, a, b),
        BinaryOp::LessOrEqual => InstV::Binary(t, IrBinOp::Le, a, b),
        BinaryOp::Greater => InstV::Binary(t, IrBinOp::Lt, b, a),
        BinaryOp::GreaterOrEqual => InstV::Binary(t, IrBinOp::Le, b, a),
        BinaryOp::Eq => InstV::Binary(t, IrBinOp::Eq, a, b),
        BinaryOp::Neq => InstV::Binary(t, IrBinOp::Ne, a, b),
        BinaryOp::And => InstV::Binary(t, IrBinOp::Ne, a, b),
        BinaryOp::Or => InstV::Binary(t, IrBinOp::Ne, a, b),
    }
}

/// The numbers a short-circuit operator takes before its right operand: the
/// normalized left value, the label pair (which also names the scratch
/// slot, returned twice), and for `||` the negated left value.
pub open spec fn short_head(c: Context, is_or: bool) -> Option<(u64, u64, u64, u64, Context)> {
    match next_temp(c) {
        None => None,
        Some((t1, c1)) => match next_label(c1) {
            None => None,
            Some((k, c2)) => if is_or {
                match next_temp(c2) {
                    None => None,
                    Some((t2, c3)) => Some((t1, k, k, t2, c3)),
                }
            } else {
                Some((t1, k, k, t1, c2))
            },
        },
    }
}

/// The numbers a short-circuit operator takes after its right operand: the
/// normalized right value and the loaded result.
pub open spec fn short_tail(c: Context) -> Option<(u64, u64, Context)> {
    match next_temp(c) {
        None => None,
        Some((t3, c1)) => match next_temp(c1) {
            None => None,
            Some((t4, c2)) => Some((t3, t4, c2)),
        },
    }
}

/// The code that decides whether the right operand of `&&` / `||` runs.
pub open spec fn short_head_code(
    is_or: bool,
    vl: Operand,
    t1: u64,
    d: u64,
    k: u64,
    t2: u64,
) -> Seq<InstV> {
    let common = seq![
        InstV::Binary(t1, IrBinOp::Ne, Operand::Imm(0), vl),
        InstV::Alloc(SymbolV::Tmp(d)),
        InstV::Store(Operand::Temp(t1), SymbolV::Tmp(d)),
    ];
    if is_or {
        common + seq![
            InstV::Binary(t2, IrBinOp::Eq, Operand::Imm(0), Operand::Temp(t1)),
            InstV::Branch(Operand::Temp(t2), Label::OrIf(k), Label::OrEnd(k)),
            InstV::Label(Label::OrIf(k)),
        ]
    } else {
        common + seq![
            InstV::Branch(Operand::Temp(t1), Label::AndIf(k), Label::AndEnd(k)),
            InstV::Label(Label::AndIf(k)),
        ]
    }
}

pub open spec fn end_label(is_or: bool, k: u64) -> Label {
    if is_or {
        Label::OrEnd(k)
    } else {
        Label::AndEnd(k)
    }
}

/// The code that stores the right operand's truth value and joins.
pub open spec fn short_tail_code(is_or: bool, vr: Operand, k: u64, d: u64, t3: u64, t4: u64) -> Seq<InstV> {
    seq![
        InstV::Binary(t3, IrBinOp::Ne, Operand::Imm(0), vr),
        InstV::Store(Operand::Temp(t3), SymbolV::Tmp(d)),
        InstV::Jump(end_label(is_or, k)),
        InstV::Label(end_label(is_or, k)),
        InstV::Load(t4, SymbolV::Tmp(d)),
    ]
}

pub type LowerOut = Result<(Seq<InstV>, Operand, Context), CompileError>;

/// How an expression lowers: its code, the operand that holds its value,
/// and the counters afterwards.
pub open spec fn lower_expr(c: Context, sc: Seq<ScopeV>, fs: Sigs, e: Expr) -> LowerOut
    decreases e, 1nat, 0nat,
{
    match e {
        Expr::Number(n) => Ok((seq![], Operand::Imm(n), c)),
        Expr::LVal(name) => match lookup_scopes(sc, name@) {
            None => Err(CompileError::Undeclared),
            Some((IdElement::Const(v), _)) => Ok((seq![], Operand::Imm(v), c)),
            Some((IdElement::Var, k)) => match next_temp(c) {
                None => Err(CompileError::TooLarge),
                Some((t, c1)) => Ok(
                    (seq![InstV::Load(t, SymbolV::Var(name@, k))], Operand::Temp(t), c1),
                ),
            },
        },
        Expr::UnaryExpr(op, x) => match lower_expr(c, sc, fs, *x) {
            Err(er) => Err(er),
            Ok((s, v, c1)) => match op {
                UnaryOp::Plus => Ok((s, v, c1)),
                UnaryOp::Minus => match next_temp(c1) {
                    None => Err(CompileError::TooLarge),
                    Some((t, c2)) => Ok(
                        (s.push(InstV::Binary(t, IrBinOp::Sub, Operand::Imm(0), v)), Operand::Temp(t), c2),
                    ),
                },
                UnaryOp::Not => match next_temp(c1) {
                    None => Err(CompileError::TooLarge),
                    Some((t, c2)) => Ok(
                        (s.push(InstV::Binary(t, IrBinOp::Eq, Operand::Imm(0), v)), Operand::Temp(t), c2),
                    ),
                },
            },
        },
        Expr::BinaryExpr(l, op, r) => match lower_expr(c, sc, fs, *l) {
            Err(er) => Err(er),
            Ok((sl, vl, c1)) => if op == BinaryOp::And || op == BinaryOp::Or {
                let is_or = op == BinaryOp::Or;
                match short_head(c1, is_or) {
                    None => Err(CompileError::TooLarge),
                    Some((t1, d, k, t2, c2)) => match lower_expr(c2, sc, fs, *r) {
                        Err(er) => Err(er),
                        Ok((sr, vr, c3)) => match short_tail(c3) {
                            None => Err(CompileError::TooLarge),
                            Some((t3, t4, c4)) => Ok(
                                (
                                    sl + short_head_code(is_or, vl, t1, d, k, t2) + sr
                                        + short_tail_code(is_or, vr, k, d, t3, t4),
                                    Operand::Temp(t4),
                                    c4,
                                ),
                            ),
                        },
                    },
                }
            } else {
                match lower_expr(c1, sc, fs, *r) {
                    Err(er) => Err(er),
                    Ok((sr, vr, c2)) => match next_temp(c2) {
                        None => Err(CompileError::TooLarge),
                        Some((t, c3)) => Ok(
                            ((sl + sr).push(binary_inst(t, op, vl, vr)), Operand::Temp(t), c3),
                        ),
                    },
                }
            },
        },
        Expr::Func(name, args) => match find_func(fs, name@) {
            None => Err(CompileError::UndeclaredFunction),
            Some(false) => Err(CompileError::VoidValue),
            Some(true) => match lower_args(c, sc, fs, e, args@.len()) {
                Err(er) => Err(er),
                Ok((s, ops, c1)) => match next_temp(c1) {
                    None => Err(CompileError::TooLarge),
                    Some((t, c2)) => Ok((s.push(InstV::Call(Some(t), name@, ops)), Operand::Temp(t), c2)),
                },
            },
        },
    }
}

/// How an expression statement lowers: a call of a `void` function is the
/// call alone; any other expression lowers as a value that is then unused.
pub open spec fn lower_expr_stmt(c: Context, sc: Seq<ScopeV>, fs: Sigs, e: Expr) -> Result<(Seq<InstV>, Context), CompileError> {
    let as_value = match lower_expr(c, sc, fs, e) {
        Err(er) => Err(er),
        Ok((s, _, c1)) => Ok((s, c1)),
    };
    match e {
        Expr::Func(name, args) => if find_func(fs, name@) == Some(false) {
            match lower_args(c, sc, fs, e, args@.len()) {
                Err(er) => Err(er),
                Ok((s, ops, c1)) => Ok((s.push(InstV::Call(None, name@, ops)), c1)),
            }
        } else {
            as_value
        },
        _ => as_value,
    }
}

/// How the first `n` arguments of the call `e` lower, left to right.
pub open spec fn lower_args(c: Context, sc: Seq<ScopeV>, fs: Sigs, e: Expr, n: nat) -> Result<
    (Seq<InstV>, Seq<Operand>, Context),
    CompileError,
>
    decreases e, 0nat, n,
{
    match e {
        Expr::Func(_, args) => if n == 0 || n > args@.len() {
            Ok((seq![], seq![], c))
        } else {
            match lower_args(c, sc, fs, e, (n - 1) as nat) {
                Err(er) => Err(er),
                Ok((s, ops, c1)) => {
                    match lower_expr(c1, sc, fs, args@[n - 1]) {
                        Err(er) => Err(er),
                        Ok((s2, v, c2)) => Ok((s + s2, ops.push(v), c2)),
                    }
                },
            }
        },
        _ => Ok((seq![], seq![], c)),
    }
}

/// `r` is the executable counterpart of the spec result `want`.
pub open spec fn lowered_as(r: Result<(Vec<Inst>, Operand), CompileError>, after: Context, want: LowerOut) -> bool {
    match want {
        Ok((s, v, c)) => r is Ok && insts_view(r->Ok_0.0@) == s && r->Ok_0.1 == v && after == c,
        Err(er) => r == Err::<(Vec<Inst>, Operand), CompileError>(er),
    }
}

fn push_inst(out: &mut Vec<Inst>, i: Inst)
    ensures
        insts_view(final(out)@) == insts_view(old(out)@).push(i@),
{
    let ghost before = out@;
    proof {
        lemma_view_push(before, i);
    }
    out.push(i);
}

fn append_insts(out: &mut Vec<Inst>, other: &mut Vec<Inst>)
    ensures
        insts_view(final(out)@) == insts_view(old(out)@) + insts_view(old(other)@),
{
    let ghost a = out@;
    let ghost b = other@;
    proof {
        lemma_view_concat(a, b);
    }
    out.append(other);
}

fn binary_inst_exec(t: u64, op: BinaryOp, a: Operand, b: Operand) -> (r: Inst)
    ensures
        r@ == binary_inst(t, op, a, b),
{
    match op {
        BinaryOp::Plus => Inst::Binary(t, IrBinOp::Add, a, b),
        BinaryOp::Minus => Inst::Binary(t, IrBinOp::Sub, a, b),
        BinaryOp::Multiply => Inst::Binary(t, IrBinOp::Mul, a, b),
        BinaryOp::Divide => Inst::Binary(t, IrBinOp::Div, a, b),
        BinaryOp::Modulo => Inst::Binary(t, IrBinOp::Mod, a, b),
        BinaryOp::Less => Inst::Binary(t, IrBinOp::Lt, a, b),
        BinaryOp::LessOrEqual => Inst::Binary(t, IrBinOp::Le, a, b),
        BinaryOp::Greater => Inst::Binary(t, IrBinOp::Lt, b, a),
        BinaryOp::GreaterOrEqual => Inst::Binary(t, IrBinOp::Le, b, a),
        BinaryOp::Eq => Inst::Binary(t, IrBinOp::Eq, a, b),
        BinaryOp::Neq => Inst::Binary(t, IrBinOp::Ne, a, b),
        BinaryOp::And => Inst::Binary(t, IrBinOp::Ne, a, b),
        BinaryOp::Or => Inst::Binary(t, IrBinOp::Ne, a, b),
    }
}

fn emit_short_head(ctx: &mut Context, out: &mut Vec<Inst>, is_or: bool, vl: Operand) -> (r: Result<(u64, u64), CompileError>)
    ensures
        match short_head(*old(ctx), is_or) {
            None => r == Err::<(u64, u64), CompileError>(CompileError::TooLarge),
            Some((t1, d, k, t2, c)) => r == Ok::<(u64, u64), CompileError>((d, k)) && *final(ctx) == c
                && insts_view(final(out)@) == insts_view(old(out)@) + short_head_code(is_or, vl, t1, d, k, t2),
        },
{
    let t1 = ctx.fresh_temp()?;
    let k = ctx.fresh_label()?;
    let d = k;
    let ghost v0 = insts_view(out@);
    push_inst(out, Inst::Binary(t1, IrBinOp::Ne, Operand::Imm(0), vl));
    push_inst(out, Inst::Alloc(Symbol::Tmp(d)));
    push_inst(out, Inst::Store(Operand::Temp(t1), Symbol::Tmp(d)));
    if is_or {
        let t2 = ctx.fresh_temp()?;
        push_inst(out, Inst::Binary(t2, IrBinOp::Eq, Operand::Imm(0), Operand::Temp(t1)));
        push_inst(out, Inst::Branch(Operand::Temp(t2), Label::OrIf(k), Label::OrEnd(k)));
        push_inst(out, Inst::Label(Label::OrIf(k)));
        assert(insts_view(out@) =~= v0 + short_head_code(is_or, vl, t1, d, k, t2));
    } else {
        push_inst(out, Inst::Branch(Operand::Temp(t1), Label::AndIf(k), Label::AndEnd(k)));
        push_inst(out, Inst::Label(Label::AndIf(k)));
        assert(insts_view(out@) =~= v0 + short_head_code(is_or, vl, t1, d, k, t1));
    }
    Ok((d, k))
}

fn emit_short_tail(ctx: &mut Context, out: &mut Vec<Inst>, is_or: bool, vr: Operand, k: u64, d: u64) -> (r: Result<u64, CompileError>)
    ensures
        match short_tail(*old(ctx)) {
            None => r == Err::<u64, CompileError>(CompileError::TooLarge),
            Some((t3, t4, c)) => r == Ok::<u64, CompileError>(t4) && *final(ctx) == c
                && insts_view(final(out)@) == insts_view(old(out)@) + short_tail_code(is_or, vr, k, d, t3, t4),
        },
{
    let t3 = ctx.fresh_temp()?;
    let t4 = ctx.fresh_temp()?;
    let ghost v0 = insts_view(out@);
    let end = if is_or {
        Label::OrEnd(k)
    } else {
        Label::AndEnd(k)
    };
    push_inst(out, Inst::Binary(t3, IrBinOp::Ne, Operand::Imm(0), vr));
    push_inst(out, Inst::Store(Operand::Temp(t3), Symbol::Tmp(d)));
    push_inst(out, Inst::Jump(end));
    push_inst(out, Inst::Label(end));
    push_inst(out, Inst::Load(t4, Symbol::Tmp(d)));
    assert(insts_view(out@) =~= v0 + short_tail_code(is_or, vr, k, d, t3, t4));
    Ok(t4)
}

proof fn lemma_args_err_stays(c: Context, sc: Seq<ScopeV>, fs: Sigs, e: Expr, n: nat, m: nat)
    requires
        e is Func,
        n <= m <= e->Func_1@.len(),
        lower_args(c, sc, fs, e, n) is Err,
    ensures
        lower_args(c, sc, fs, e, m) == lower_args(c, sc, fs, e, n),
    decreases m - n,
{
    if n < m {
        lemma_args_err_stays(c, sc, fs, e, n, (m - 1) as nat);
    }
}

/// Lowers an expression; the result is exactly `lower_expr`.
pub fn expr2ir(ctx: &mut Context, id_table: &IdTable, funcs: &Vec<FuncSig>, exp: &Expr) -> (r: Result<(Vec<Inst>, Operand), CompileError>)
    ensures
        lowered_as(r, *final(ctx), lower_expr(*old(ctx), id_table@, sigs_view(funcs@), *exp)),
    decreases exp, 1nat,
{
    match exp {
        Expr::Number(n) => {
            let out: Vec<Inst> = Vec::new();
            assert(insts_view(out@) =~= seq![]);
            Ok((out, Operand::Imm(*n)))
        },
        Expr::LVal(name) => match id_table.get(name) {
            None => Err(CompileError::Undeclared),
            Some((IdElement::Const(v), _)) => {
                let out: Vec<Inst> = Vec::new();
                assert(insts_view(out@) =~= seq![]);
                Ok((out, Operand::Imm(v)))
            },
            Some((IdElement::Var, k)) => {
                let t = ctx.fresh_temp()?;
                let mut out: Vec<Inst> = Vec::new();
                push_inst(&mut out, Inst::Load(t, Symbol::Var(name.clone(), k)));
                assert(insts_view(out@) =~= seq![InstV::Load(t, SymbolV::Var(name@, k))]);
                Ok((out, Operand::Temp(t)))
            },
        },
        Expr::UnaryExpr(op, x) => {
            let (mut out, v) = expr2ir(ctx, id_table, funcs, x)?;
            match op {
                UnaryOp::Plus => Ok((out, v)),
                UnaryOp::Minus => {
                    let t = ctx.fresh_temp()?;
                    push_inst(&mut out, Inst::Binary(t, IrBinOp::Sub, Operand::Imm(0), v));
                    Ok((out, Operand::Temp(t)))
                },
                UnaryOp::Not => {
                    let t = ctx.fresh_temp()?;
                    push_inst(&mut out, Inst::Binary(t, IrBinOp::Eq, Operand::Imm(0), v));
                    Ok((out, Operand::Temp(t)))
                },
            }
        },
        Expr::BinaryExpr(l, op, r) => {
            let (mut out, vl) = expr2ir(ctx, id_table, funcs, l)?;
            if *op == BinaryOp::And || *op == BinaryOp::Or {
                let is_or = *op == BinaryOp::Or;
                let (d, k) = emit_short_head(ctx, &mut out, is_or, vl)?;
                let (mut rout, vr) = expr2ir(ctx, id_table, funcs, r)?;
                append_insts(&mut out, &mut rout);
                let t4 = emit_short_tail(ctx, &mut out, is_or, vr, k, d)?;
                Ok((out, Operand::Temp(t4)))
            } else {
                let (mut rout, vr) = expr2ir(ctx, id_table, funcs, r)?;
                append_insts(&mut out, &mut rout);
                let t = ctx.fresh_temp()?;
                push_inst(&mut out, binary_inst_exec(t, *op, vl, vr));
                Ok((out, Operand::Temp(t)))
            }
        },
        Expr::Func(name, _) => {
            match lookup_func(funcs, name) {
                None => {
                    return Err(CompileError::UndeclaredFunction);
                },
                Some(false) => {
                    return Err(CompileError::VoidValue);
                },
                Some(true) => {},
            }
            let (mut out, ops) = args2ir(ctx, id_table, funcs, exp)?;
            let t = ctx.fresh_temp()?;
            push_inst(&mut out, Inst::Call(Some(t), name.clone(), ops));
            Ok((out, Operand::Temp(t)))
        },
    }
}

/// Lowers the arguments of the call `exp`, left to right: exactly `lower_args`.
fn args2ir(ctx: &mut Context, id_table: &IdTable, funcs: &Vec<FuncSig>, exp: &Expr) -> (r: Result<(Vec<Inst>, Vec<Operand>), CompileError>)
    requires
        *exp is Func,
    ensures
        match lower_args(*old(ctx), id_table@, sigs_view(funcs@), *exp, exp->Func_1@.len()) {
            Ok((s, ops, c)) => r is Ok && insts_view(r->Ok_0.0@) == s && r->Ok_0.1@ == ops && *final(ctx) == c,
            Err(er) => r == Err::<(Vec<Inst>, Vec<Operand>), CompileError>(er),
        },
    decreases exp, 0nat,
{
    let args = match exp {
        Expr::Func(_, args) => args,
        _ => {
            // excluded by the precondition
            return Err(CompileError::TooLarge);
        },
    };
    let ghost c0 = *ctx;
    assert(exp->Func_1 == *args);
    let mut out: Vec<Inst> = Vec::new();
    let mut ops: Vec<Operand> = Vec::new();
    let mut i: usize = 0;
    assert(insts_view(out@) =~= seq![]);
    assert(ops@ =~= seq![]);
    while i < args.len()
        invariant
            i <= args@.len(),
            *exp is Func,
            exp->Func_1 == *args,
            c0 == *old(ctx),
            lower_args(c0, id_table@, sigs_view(funcs@), *exp, i as nat) == Ok::<
                (Seq<InstV>, Seq<Operand>, Context),
                CompileError,
            >((insts_view(out@), ops@, *ctx)),
        decreases args@.len() - i,
    {
        let ghost prev_out = insts_view(out@);
        let ghost prev_ops = ops@;
        proof {
            assert(decreases_to!(*exp => *args));
            assert(decreases_to!(*args => args[i as int]));
        }
        let res = expr2ir(ctx, id_table, funcs, &args[i]);
        match res {
            Err(er) => {
                proof {
                    assert(lower_args(c0, id_table@, sigs_view(funcs@), *exp, (i + 1) as nat) == Err::<
                        (Seq<InstV>, Seq<Operand>, Context),
                        CompileError,
                    >(er));
                    lemma_args_err_stays(c0, id_table@, sigs_view(funcs@), *exp, (i + 1) as nat, args@.len());
                }
                return Err(er);
            },
            Ok((mut s2, v)) => {
                let ghost s2v = insts_view(s2@);
                append_insts(&mut out, &mut s2);
                ops.push(v);
                assert(lower_args(c0, id_table@, sigs_view(funcs@), *exp, (i + 1) as nat) == Ok::<
                    (Seq<InstV>, Seq<Operand>, Context),
                    CompileError,
                >((prev_out + s2v, prev_ops.push(v), *ctx)));
            },
        }
        i = i + 1;
    }
    Ok((out, ops))
}

/// Code that leaves its block open, defines fresh temporaries taken from
/// the counters between `c` and `c1`, and leaves the loop and scope counters alone.
pub open spec fn code_step(s: Seq<InstV>, c: Context, c1: Context) -> bool {
    &&& open_code(s)
    &&& fresh_temps(s, c.temp, c1.temp)
    &&& c.label <= c1.label
    &&& c1.looping == c.looping
    &&& c1.scope == c.scope
}

proof fn lemma_step_concat(a: Seq<InstV>, b: Seq<InstV>, c0: Context, c1: Context, c2: Context)
    requires
        code_step(a, c0, c1),
        code_step(b, c1, c2),
    ensures
        code_step(a + b, c0, c2),
{
    lemma_open_concat(a, b);
    lemma_fresh_concat(a, b, c0.temp, c1.temp, c2.temp);
}

proof fn lemma_step_push(s: Seq<InstV>, i: InstV, c0: Context, c1: Context)
    requires
        code_step(s, c0, c1),
        next_temp(c1) is Some,
        def_of(i) == Some(c1.temp),
        !is_label(i),
        !is_terminator(i),
    ensures
        code_step(s.push(i), c0, next_temp(c1)->Some_0.1),
{
    lemma_fresh_push(s, i, c0.temp, c1.temp);
    lemma_open_concat(s, seq![i]);
    assert(s + seq![i] =~= s.push(i));
}

proof fn lemma_step_push_none(s: Seq<InstV>, i: InstV, c0: Context, c1: Context)
    requires
        code_step(s, c0, c1),
        def_of(i) is None,
        !is_label(i),
        !is_terminator(i),
    ensures
        code_step(s.push(i), c0, c1),
{
    lemma_fresh_push_none(s, i, c0.temp, c1.temp);
    lemma_open_concat(s, seq![i]);
    assert(s + seq![i] =~= s.push(i));
}

proof fn lemma_short_head_step(c: Context, is_or: bool, vl: Operand)
    requires
        short_head(c, is_or) is Some,
    ensures
        ({
            let (t1, d, k, t2, c2) = short_head(c, is_or)->Some_0;
            code_step(short_head_code(is_or, vl, t1, d, k, t2), c, c2)
        }),
{
    let (t1, d, k, t2, c2) = short_head(c, is_or)->Some_0;
    let h = short_head_code(is_or, vl, t1, d, k, t2);
    let e: Seq<InstV> = seq![];
    let i0 = InstV::Binary(t1, IrBinOp::Ne, Operand::Imm(0), vl);
    let i1 = InstV::Alloc(SymbolV::Tmp(d));
    let i2 = InstV::Store(Operand::Temp(t1), SymbolV::Tmp(d));
    let c1 = Context { temp: (c.temp + 1) as u64, ..c };
    lemma_step_push(e, i0, c, c);
    lemma_step_push_none(e.push(i0), i1, c, c1);
    lemma_step_push_none(e.push(i0).push(i1), i2, c, c1);
    let common = e.push(i0).push(i1).push(i2);
    if is_or {
        let i3 = InstV::Binary(t2, IrBinOp::Eq, Operand::Imm(0), Operand::Temp(t1));
        let c3 = Context { temp: t2, ..c2 };
        assert(code_step(common, c, c3));
        lemma_step_push(common, i3, c, c3);
        let tail = seq![
            InstV::Branch(Operand::Temp(t2), Label::OrIf(k), Label::OrEnd(k)),
            InstV::Label(Label::OrIf(k)),
        ];
        let all = common.push(i3) + tail;
        assert(h =~= all);
        assert(blocks_split(all)) by {
            assert(all.len() == 6);
            assert forall|j: int| 0 <= j < all.len() - 1 implies (is_terminator(#[trigger] all[j]) <==> is_label(all[j + 1])) by {
                assert(all[0] == i0 && all[1] == i1 && all[2] == i2 && all[3] == i3 && all[4] == tail[0] && all[5] == tail[1]);
            }
        }
        assert forall|j: int| 0 <= j < all.len() && (#[trigger] def_of(all[j])) is Some
            implies c.temp <= def_of(all[j])->0 < c2.temp by {
            assert(all[0] == i0 && all[1] == i1 && all[2] == i2 && all[3] == i3 && all[4] == tail[0] && all[5] == tail[1]);
        }
        assert forall|j: int, m: int| 0 <= j < m < all.len() && (#[trigger] def_of(all[j])) is Some
            && (#[trigger] def_of(all[m])) is Some implies def_of(all[j])->0 < def_of(all[m])->0 by {
            assert(all[0] == i0 && all[1] == i1 && all[2] == i2 && all[3] == i3 && all[4] == tail[0] && all[5] == tail[1]);
        }
    } else {
        let tail = seq![
            InstV::Branch(Operand::Temp(t1), Label::AndIf(k), Label::AndEnd(k)),
            InstV::Label(Label::AndIf(k)),
        ];
        let all = common + tail;
        assert(h =~= all);
        assert(blocks_split(all)) by {
            assert(all.len() == 5);
            assert forall|j: int| 0 <= j < all.len() - 1 implies (is_terminator(#[trigger] all[j]) <==> is_label(all[j + 1])) by {
                assert(all[0] == i0 && all[1] == i1 && all[2] == i2 && all[3] == tail[0] && all[4] == tail[1]);
            }
        }
        assert forall|j: int| 0 <= j < all.len() && (#[trigger] def_of(all[j])) is Some
            implies c.temp <= def_of(all[j])->0 < c2.temp by {
            assert(all[0] == i0 && all[1] == i1 && all[2] == i2 && all[3] == tail[0] && all[4] == tail[1]);
        }
        assert forall|j: int, m: int| 0 <= j < m < all.len() && (#[trigger] def_of(all[j])) is Some
            && (#[trigger] def_of(all[m])) is Some implies def_of(all[j])->0 < def_of(all[m])->0 by {
            assert(all[0] == i0 && all[1] == i1 && all[2] == i2 && all[3] == tail[0] && all[4] == tail[1]);
        }
    }
}

proof fn lemma_short_tail_step(c: Context, is_or: bool, vr: Operand, k: u64, d: u64)
    requires
        short_tail(c) is Some,
    ensures
        ({
            let (t3, t4, c2) = short_tail(c)->Some_0;
            code_step(short_tail_code(is_or, vr, k, d, t3, t4), c, c2)
        }),
{
    let (t3, t4, c2) = short_tail(c)->Some_0;
    let all = short_tail_code(is_or, vr, k, d, t3, t4);
    assert(all.len() == 5);
    assert(blocks_split(all)) by {
        assert forall|j: int| 0 <= j < all.len() - 1 implies (is_terminator(#[trigger] all[j]) <==> is_label(all[j + 1])) by {
        }
    }
    assert forall|j: int| 0 <= j < all.len() && (#[trigger] def_of(all[j])) is Some
        implies c.temp <= def_of(all[j])->0 < c2.temp by {
    }
    assert forall|j: int, m: int| 0 <= j < m < all.len() && (#[trigger] def_of(all[j])) is Some
        && (#[trigger] def_of(all[m])) is Some implies def_of(all[j])->0 < def_of(all[m])->0 by {
    }
}

/// Lowered expressions leave their block open and define only fresh,
/// increasing temporaries.
pub proof fn lemma_expr_step(c: Context, sc: Seq<ScopeV>, fs: Sigs, e: Expr)
    ensures
        lower_expr(c, sc, fs, e) matches Ok((s, _, c1)) ==> code_step(s, c, c1),
    decreases e, 1nat, 0nat,
{
    let e0: Seq<InstV> = seq![];
    assert(code_step(e0, c, c));
    match e {
        Expr::Number(_) => {},
        Expr::LVal(name) => {
            if let Some((IdElement::Var, k)) = lookup_scopes(sc, name@) {
                if let Some((t, c1)) = next_temp(c) {
                    lemma_step_push(e0, InstV::Load(t, SymbolV::Var(name@, k)), c, c);
                    assert(e0.push(InstV::Load(t, SymbolV::Var(name@, k))) =~= seq![InstV::Load(t, SymbolV::Var(name@, k))]);
                }
            }
        },
        Expr::UnaryExpr(op, x) => {
            lemma_expr_step(c, sc, fs, *x);
            if let Ok((s, v, c1)) = lower_expr(c, sc, fs, *x) {
                if let Some((t, c2)) = next_temp(c1) {
                    lemma_step_push(s, InstV::Binary(t, IrBinOp::Sub, Operand::Imm(0), v), c, c1);
                    lemma_step_push(s, InstV::Binary(t, IrBinOp::Eq, Operand::Imm(0), v), c, c1);
                }
            }
        },
        Expr::BinaryExpr(l, op, r) => {
            lemma_expr_step(c, sc, fs, *l);
            if let Ok((sl, vl, c1)) = lower_expr(c, sc, fs, *l) {
                if op == BinaryOp::And || op == BinaryOp::Or {
                    let is_or = op == BinaryOp::Or;
                    if let Some((t1, d, k, t2, c2)) = short_head(c1, is_or) {
                        lemma_short_head_step(c1, is_or, vl);
                        lemma_expr_step(c2, sc, fs, *r);
                        if let Ok((sr, vr, c3)) = lower_expr(c2, sc, fs, *r) {
                            if let Some((t3, t4, c4)) = short_tail(c3) {
                                lemma_short_tail_step(c3, is_or, vr, k, d);
                                let h = short_head_code(is_or, vl, t1, d, k, t2);
                                let tl = short_tail_code(is_or, vr, k, d, t3, t4);
                                lemma_step_concat(sl, h, c, c1, c2);
                                lemma_step_concat(sl + h, sr, c, c2, c3);
                                lemma_step_concat(sl + h + sr, tl, c, c3, c4);
                            }
                        }
                    }
                } else {
                    lemma_expr_step(c1, sc, fs, *r);
                    if let Ok((sr, vr, c2)) = lower_expr(c1, sc, fs, *r) {
                        lemma_step_concat(sl, sr, c, c1, c2);
                        if let Some((t, c3)) = next_temp(c2) {
                            lemma_step_push(sl + sr, binary_inst(t, op, vl, vr), c, c2);
                        }
                    }
                }
            }
        },
        Expr::Func(name, args) => {
            lemma_args_step(c, sc, fs, e, args@.len());
            if let Ok((s, ops, c1)) = lower_args(c, sc, fs, e, args@.len()) {
                if let Some((t, c2)) = next_temp(c1) {
                    lemma_step_push(s, InstV::Call(Some(t), name@, ops), c, c1);
                }
            }
        },
    }
}

proof fn lemma_args_step(c: Context, sc: Seq<ScopeV>, fs: Sigs, e: Expr, n: nat)
    ensures
        lower_args(c, sc, fs, e, n) matches Ok((s, _, c1)) ==> code_step(s, c, c1),
    decreases e, 0nat, n,
{
    let e0: Seq<InstV> = seq![];
    assert(code_step(e0, c, c));
    if let Expr::Func(_, args) = e {
        if n > 0 && n <= args@.len() {
            lemma_args_step(c, sc, fs, e, (n - 1) as nat);
            if let Ok((s, ops, c1)) = lower_args(c, sc, fs, e, (n - 1) as nat) {
                assert(decreases_to!(e => args));
                assert(decreases_to!(args => args[n - 1]));
                assert(args@[n - 1] == args[n - 1]);
                lemma_expr_step(c1, sc, fs, args@[n - 1]);
                if let Ok((s2, v, c2)) = lower_expr(c1, sc, fs, args@[n - 1]) {
                    lemma_step_concat(s, s2, c, c1, c2);
                }
            }
        }
    }
}

/// No counter moved backwards from `c` to `c1`.
pub open spec fn grows(c: Context, c1: Context) -> bool {
    c.temp <= c1.temp && c.label <= c1.label && c.looping <= c1.looping && c.scope <= c1.scope
}

/// Statement code: it ends in a terminator exactly when `exits`, keeps the
/// block structure, and defines only fresh temporaries from `c` to `c1`.
pub open spec fn stmt_code(s: Seq<InstV>, c: Context, c1: Context, exits: bool) -> bool {
    &&& if exits {
        closed_code(s)
    } else {
        open_code(s)
    }
    &&& fresh_temps(s, c.temp, c1.temp)
    &&& grows(c, c1)
}

proof fn lemma_step_is_stmt(s: Seq<InstV>, c0: Context, c1: Context)
    requires
        code_step(s, c0, c1),
    ensures
        stmt_code(s, c0, c1, false),
{
}

proof fn lemma_stmt_concat(a: Seq<InstV>, b: Seq<InstV>, c0: Context, c1: Context, c2: Context, exits: bool)
    requires
        stmt_code(a, c0, c1, false),
        stmt_code(b, c1, c2, exits),
    ensures
        stmt_code(a + b, c0, c2, exits),
{
    crate::ir::lemma_split_concat(a, b);
    lemma_fresh_concat(a, b, c0.temp, c1.temp, c2.temp);
    if a.len() == 0 {
        assert(a + b =~= b);
    } else if b.len() == 0 {
        assert(a + b =~= a);
    } else {
        assert((a + b)[0] == a[0]);
        assert((a + b).last() == b.last());
    }
}

proof fn lemma_stmt_widen(s: Seq<InstV>, c0: Context, c1: Context, c2: Context, exits: bool)
    requires
        stmt_code(s, c0, c1, exits),
        grows(c1, c2),
    ensures
        stmt_code(s, c0, c2, exits),
{
}

/// A terminator that defines nothing closes open code.
proof fn lemma_stmt_push_term(a: Seq<InstV>, t: InstV, c0: Context, c1: Context)
    requires
        stmt_code(a, c0, c1, false),
        is_terminator(t),
        def_of(t) is None,
    ensures
        stmt_code(a.push(t), c0, c1, true),
{
    lemma_fresh_push_none(a, t, c0.temp, c1.temp);
    let b = a.push(t);
    assert forall|k: int| 0 <= k < b.len() - 1 implies (is_terminator(#[trigger] b[k]) <==> is_label(b[k + 1])) by {
        if k + 1 < a.len() {
            assert(b[k] == a[k] && b[k + 1] == a[k + 1]);
        } else {
            assert(b[k] == a.last() && b[k + 1] == t);
        }
    }
    if a.len() > 0 {
        assert(b[0] == a[0]);
    }
}

/// A label opens a new block after closed code.
proof fn lemma_stmt_closed_label(a: Seq<InstV>, l: InstV, c0: Context, c1: Context)
    requires
        stmt_code(a, c0, c1, true),
        is_label(l),
    ensures
        stmt_code(a.push(l), c0, c1, false),
{
    lemma_fresh_push_none(a, l, c0.temp, c1.temp);
    let b = a.push(l);
    assert forall|k: int| 0 <= k < b.len() - 1 implies (is_terminator(#[trigger] b[k]) <==> is_label(b[k + 1])) by {
        if k + 1 < a.len() {
            assert(b[k] == a[k] && b[k + 1] == a[k + 1]);
        } else {
            assert(b[k] == a.last() && b[k + 1] == l);
        }
    }
    assert(b[0] == a[0]);
}

fn push_term(out: &mut Vec<Inst>, t: Inst, Ghost(c0): Ghost<Context>, Ghost(c1): Ghost<Context>)
    requires
        stmt_code(insts_view(old(out)@), c0, c1, false),
        is_terminator(t@),
        def_of(t@) is None,
    ensures
        stmt_code(insts_view(final(out)@), c0, c1, true),
        insts_view(final(out)@) == insts_view(old(out)@).push(t@),
{
    proof {
        lemma_stmt_push_term(insts_view(out@), t@, c0, c1);
    }
    push_inst(out, t);
}

fn push_label(out: &mut Vec<Inst>, l: Label, Ghost(c0): Ghost<Context>, Ghost(c1): Ghost<Context>)
    requires
        stmt_code(insts_view(old(out)@), c0, c1, true),
    ensures
        stmt_code(insts_view(final(out)@), c0, c1, false),
        insts_view(final(out)@) == insts_view(old(out)@).push(InstV::Label(l)),
{
    proof {
        lemma_stmt_closed_label(insts_view(out@), InstV::Label(l), c0, c1);
    }
    push_inst(out, Inst::Label(l));
}

/// Appends `other`, lowered from `c1` to `c2`, to `out`, lowered from `c0` to `c1`.
fn append_stmt(
    out: &mut Vec<Inst>,
    other: &mut Vec<Inst>,
    Ghost(c0): Ghost<Context>,
    Ghost(c1): Ghost<Context>,
    Ghost(c2): Ghost<Context>,
    Ghost(exits): Ghost<bool>,
)
    requires
        stmt_code(insts_view(old(out)@), c0, c1, false),
        stmt_code(insts_view(old(other)@), c1, c2, exits),
    ensures
        stmt_code(insts_view(final(out)@), c0, c2, exits),
        insts_view(final(out)@) == insts_view(old(out)@) + insts_view(old(other)@),
{
    proof {
        lemma_stmt_concat(insts_view(out@), insts_view(other@), c0, c1, c2, exits);
    }
    append_insts(out, other);
}

/// Lowers an expression statement: exactly `lower_expr_stmt`. A call of a
/// `void` function is emitted without a result.
fn expr_stmt2ir(ctx: &mut Context, id_table: &IdTable, funcs: &Vec<FuncSig>, e: &Expr) -> (r: Result<Vec<Inst>, CompileError>)
    ensures
        r matches Ok(code) ==> code_step(insts_view(code@), *old(ctx), *final(ctx)),
        match lower_expr_stmt(*old(ctx), id_table@, sigs_view(funcs@), *e) {
            Ok((s, c)) => r is Ok && insts_view(r->Ok_0@) == s && *final(ctx) == c,
            Err(er) => r == Err::<Vec<Inst>, CompileError>(er),
        },
{
    let ghost c0 = *ctx;
    if let Expr::Func(name, args) = e {
        if let Some(false) = lookup_func(funcs, name) {
            let (mut out, ops) = args2ir(ctx, id_table, funcs, e)?;
            proof {
                lemma_args_step(c0, id_table@, sigs_view(funcs@), *e, args@.len());
                lemma_step_push_none(insts_view(out@), InstV::Call(None, name@, ops@), c0, *ctx);
            }
            push_inst(&mut out, Inst::Call(None, name.clone(), ops));
            return Ok(out);
        }
    }
    let (out, _) = expr_code(ctx, id_table, funcs, e)?;
    Ok(out)
}

/// Lowers an expression for a statement, keeping only what statements need
/// of it: open code and fresh temporaries.
fn expr_code(ctx: &mut Context, id_table: &IdTable, funcs: &Vec<FuncSig>, e: &Expr) -> (r: Result<(Vec<Inst>, Operand), CompileError>)
    ensures
        r matches Ok((code, _)) ==> code_step(insts_view(code@), *old(ctx), *final(ctx)),
        lowered_as(r, *final(ctx), lower_expr(*old(ctx), id_table@, sigs_view(funcs@), *e)),
{
    let ghost c0 = *ctx;
    let r = expr2ir(ctx, id_table, funcs, e);
    proof {
        lemma_expr_step(c0, id_table@, sigs_view(funcs@), *e);
    }
    r
}

/// How a statement without sub-statements lowers: its code, whether it
/// ends its block, and the counters afterwards. `None` for `if`, `while`
/// and nested blocks.
pub open spec fn lower_simple_stmt(c: Context, sc: Seq<ScopeV>, fs: Sigs, s: Stmt, cur_while: Option<u64>) -> Option<
    Result<(Seq<InstV>, bool, Context), CompileError>,
> {
    match s {
        Stmt::Ret(None) => Some(Ok((seq![InstV::Ret(None)], true, c))),
        Stmt::Ret(Some(e)) => Some(
            match lower_expr(c, sc, fs, e) {
                Err(er) => Err(er),
                Ok((code, v, c1)) => Ok((code.push(InstV::Ret(Some(v))), true, c1)),
            },
        ),
        Stmt::Assign(id, e) => Some(
            match lookup_scopes(sc, id@) {
                None => Err(CompileError::Undeclared),
                Some((IdElement::Const(_), _)) => Err(CompileError::AssignToConst),
                Some((IdElement::Var, k)) => match lower_expr(c, sc, fs, e) {
                    Err(er) => Err(er),
                    Ok((code, v, c1)) => Ok((code.push(InstV::Store(v, SymbolV::Var(id@, k))), false, c1)),
                },
            },
        ),
        Stmt::Expr(None) => Some(Ok((seq![], false, c))),
        Stmt::Expr(Some(e)) => Some(
            match lower_expr_stmt(c, sc, fs, e) {
                Err(er) => Err(er),
                Ok((code, c1)) => Ok((code, false, c1)),
            },
        ),
        Stmt::Break => Some(
            match cur_while {
                None => Err(CompileError::BreakOutsideLoop),
                Some(w) => Ok((seq![InstV::Jump(Label::WhileEnd(w))], true, c)),
            },
        ),
        Stmt::Continue => Some(
            match cur_while {
                None => Err(CompileError::ContinueOutsideLoop),
                Some(w) => Ok((seq![InstV::Jump(Label::WhileEntry(w))], true, c)),
            },
        ),
        _ => None,
    }
}

/// `r` is the executable counterpart of the spec result `want`.
pub open spec fn stmt_lowered_as(
    r: Result<(Vec<Inst>, bool), CompileError>,
    after: Context,
    want: Result<(Seq<InstV>, bool, Context), CompileError>,
) -> bool {
    match want {
        Ok((s, exits, c)) => r is Ok && insts_view(r->Ok_0.0@) == s && r->Ok_0.1 == exits && after == c,
        Err(er) => r == Err::<(Vec<Inst>, bool), CompileError>(er),
    }
}

pub type StmtOut = Result<(Seq<InstV>, bool, Context), CompileError>;

/// `if (c) S`: the condition's code `cs` and value `v`, a branch to
/// `%then_k` or `%end_k`, the lowered `S` (`then_r`), and the join block.
pub open spec fn if_then_result(cs: Seq<InstV>, v: Operand, k: u64, then_r: StmtOut) -> StmtOut {
    match then_r {
        Err(er) => Err(er),
        Ok((ts, tx, c3)) => {
            let head = cs.push(InstV::Branch(v, Label::Then(k), Label::End(k))).push(InstV::Label(Label::Then(k)));
            Ok((close_with(head + ts, tx, Label::End(k)).push(InstV::Label(Label::End(k))), false, c3))
        },
    }
}

/// `if (c) S else T`: as above with a branch to `%then_k` or `%else_k`,
/// `S` lowered to `ts` (ending its block where `tx`), and `T` lowered
/// to `else_r`.
pub open spec fn if_else_result(cs: Seq<InstV>, v: Operand, k: u64, ts: Seq<InstV>, tx: bool, else_r: StmtOut) -> StmtOut {
    match else_r {
        Err(er) => Err(er),
        Ok((ess, ex, c4)) => {
            let head = cs.push(InstV::Branch(v, Label::Then(k), Label::Else(k))).push(InstV::Label(Label::Then(k)));
            let after_then = close_with(head + ts, tx, Label::End(k));
            Ok(
                (
                    close_with(after_then.push(InstV::Label(Label::Else(k))) + ess, ex, Label::End(k)).push(
                        InstV::Label(Label::End(k)),
                    ),
                    false,
                    c4,
                ),
            )
        },
    }
}

/// `s` followed by `jump l`, unless `s` already ends its block.
pub open spec fn close_with(s: Seq<InstV>, exits: bool, l: Label) -> Seq<InstV> {
    if exits {
        s
    } else {
        s.push(InstV::Jump(l))
    }
}

/// How a statement lowers inside the loop `cur_while`: its code, whether it
/// always ends its block, and the counters afterwards.
pub open spec fn lower_stmt(c: Context, env: Seq<ScopeV>, fs: Sigs, s: Stmt, cur_while: Option<u64>) -> StmtOut
    decreases s, 0nat,
{
    match s {
        Stmt::Block(b) => match next_scope(c) {
            None => Err(CompileError::TooLarge),
            Some((off, c1)) => match lower_items(c1, env.push(empty_scope(off)), fs, *b, cur_while, b.items@.len()) {
                Err(er) => Err(er),
                Ok((code, exits, c2, _)) => Ok((code, exits, c2)),
            },
        },
        Stmt::IfElse(cond, t, e) => match lower_expr(c, env, fs, cond) {
            Err(er) => Err(er),
            Ok((cs, v, c1)) => match next_label(c1) {
                None => Err(CompileError::TooLarge),
                Some((k, c2)) => match e {
                    None => if_then_result(cs, v, k, lower_stmt(c2, env, fs, *t, cur_while)),
                    Some(es) => match lower_stmt(c2, env, fs, *t, cur_while) {
                        Err(er) => Err(er),
                        Ok((ts, tx, c3)) => if_else_result(cs, v, k, ts, tx, lower_stmt(c3, env, fs, *es, cur_while)),
                    },
                },
            },
        },
        Stmt::While(cond, body) => match next_loop(c) {
            None => Err(CompileError::TooLarge),
            Some((w, c1)) => match lower_expr(c1, env, fs, cond) {
                Err(er) => Err(er),
                Ok((cs, v, c2)) => match lower_stmt(c2, env, fs, *body, Some(w)) {
                    Err(er) => Err(er),
                    Ok((bs, bx, c3)) => {
                        let head = seq![InstV::Jump(Label::WhileEntry(w)), InstV::Label(Label::WhileEntry(w))] + cs;
                        let to_body = head.push(InstV::Branch(v, Label::WhileBody(w), Label::WhileEnd(w))).push(
                            InstV::Label(Label::WhileBody(w)),
                        );
                        Ok((close_with(to_body + bs, bx, Label::WhileEntry(w)).push(InstV::Label(Label::WhileEnd(w))), false, c3))
                    },
                },
            },
        },
        _ => lower_simple_stmt(c, env, fs, s, cur_while)->Some_0,
    }
}

pub type ItemsOut = Result<(Seq<InstV>, bool, Context, Seq<ScopeV>), CompileError>;

/// How the first `n` items of a block lower in the scopes `env`: the code,
/// whether it ends its block (items after such a statement are dropped),
/// the counters and the scopes afterwards.
pub open spec fn lower_items(c: Context, env: Seq<ScopeV>, fs: Sigs, b: Block, cur_while: Option<u64>, n: nat) -> ItemsOut
    decreases b, n,
{
    if n == 0 || n > b.items@.len() {
        Ok((seq![], false, c, env))
    } else {
        match lower_items(c, env, fs, b, cur_while, (n - 1) as nat) {
            Err(er) => Err(er),
            Ok((s, x, c1, env1)) => if x {
                Ok((s, x, c1, env1))
            } else {
                match b.items@[n - 1] {
                    BlockItem::ConstDecl(defs) => match lower_consts(env1, defs@, defs@.len()) {
                        Err(er) => Err(er),
                        Ok(env2) => Ok((s, false, c1, env2)),
                    },
                    BlockItem::VarDecl(defs) => match lower_vars(c1, env1, fs, defs@, defs@.len()) {
                        Err(er) => Err(er),
                        Ok((vs, c2, env2)) => Ok((s + vs, false, c2, env2)),
                    },
                    BlockItem::Stmt(st) => match lower_stmt(c1, env1, fs, st, cur_while) {
                        Err(er) => Err(er),
                        Ok((ss, sx, c2)) => Ok((s + ss, sx, c2, env1)),
                    },
                }
            },
        }
    }
}

/// The scopes after folding and binding the first `n` constants.
pub open spec fn lower_consts(env: Seq<ScopeV>, defs: Seq<ConstDef>, n: nat) -> Result<Seq<ScopeV>, CompileError>
    decreases n,
{
    if n == 0 || n > defs.len() {
        Ok(env)
    } else {
        match lower_consts(env, defs, (n - 1) as nat) {
            Err(er) => Err(er),
            Ok(env1) => match const_value(env1, defs[n - 1].value) {
                Err(er) => Err(er),
                Ok(v) => if bound_here(env1, defs[n - 1].id@) {
                    Err(CompileError::Redefinition)
                } else {
                    Ok(bind(env1, defs[n - 1].id@, IdElement::Const(v)))
                },
            },
        }
    }
}

/// One variable definition appended to the code `s`: its `alloc`, the
/// initializer's code and `store` if it has one, then its binding.
pub open spec fn lower_var_def(c: Context, env: Seq<ScopeV>, fs: Sigs, d: VarDef, s: Seq<InstV>) -> Result<
    (Seq<InstV>, Context, Seq<ScopeV>),
    CompileError,
> {
    let sym = SymbolV::Var(d.id@, env.last().offset);
    let s1 = s.push(InstV::Alloc(sym));
    match d.value {
        None => if bound_here(env, d.id@) {
            Err(CompileError::Redefinition)
        } else {
            Ok((s1, c, bind(env, d.id@, IdElement::Var)))
        },
        Some(e) => match lower_expr(c, env, fs, e) {
            Err(er) => Err(er),
            Ok((es, v, c2)) => if bound_here(env, d.id@) {
                Err(CompileError::Redefinition)
            } else {
                Ok(((s1 + es).push(InstV::Store(v, sym)), c2, bind(env, d.id@, IdElement::Var)))
            },
        },
    }
}

/// The code, counters and scopes after the first `n` variable definitions.
pub open spec fn lower_vars(c: Context, env: Seq<ScopeV>, fs: Sigs, defs: Seq<VarDef>, n: nat) -> Result<
    (Seq<InstV>, Context, Seq<ScopeV>),
    CompileError,
>
    decreases n,
{
    if n == 0 || n > defs.len() {
        Ok((seq![], c, env))
    } else {
        match lower_vars(c, env, fs, defs, (n - 1) as nat) {
            Err(er) => Err(er),
            Ok((s, c1, env1)) => lower_var_def(c1, env1, fs, defs[n - 1], s),
        }
    }
}

/// The entry code and scope of the first `n` parameters of a function
/// whose scope is numbered `off`.
pub open spec fn lower_params(off: u64, ps: Seq<FuncParam>, n: nat) -> Result<(Seq<InstV>, Seq<ScopeV>), CompileError>
    decreases n,
{
    if n == 0 || n > ps.len() {
        Ok((seq![], seq![empty_scope(off)]))
    } else {
        match lower_params(off, ps, (n - 1) as nat) {
            Err(er) => Err(er),
            Ok((s, env)) => if bound_here(env, ps[n - 1].ident@) {
                Err(CompileError::Redefinition)
            } else {
                let sym = SymbolV::Var(ps[n - 1].ident@, off);
                Ok(
                    (
                        s.push(InstV::Alloc(sym)).push(InstV::Store(Operand::Arg((n - 1) as u64), sym)),
                        bind(env, ps[n - 1].ident@, IdElement::Var),
                    ),
                )
            },
        }
    }
}

/// How a function body lowers: parameters, then the block, then a `ret`
/// where the block can fall off its end.
pub open spec fn lower_func(c: Context, fs: Sigs, f: FuncDef) -> Result<(Seq<InstV>, Context), CompileError> {
    match next_scope(c) {
        None => Err(CompileError::TooLarge),
        Some((off, c1)) => match lower_params(off, f.params@, f.params@.len()) {
            Err(er) => Err(er),
            Ok((ps, env)) => match lower_items(c1, env, fs, f.block, None, f.block.items@.len()) {
                Err(er) => Err(er),
                Ok((bs, x, c2, _)) => {
                    let ret = if f.func_type == FuncType::Int {
                        InstV::Ret(Some(Operand::Imm(0)))
                    } else {
                        InstV::Ret(None)
                    };
                    Ok((if x {
                        ps + bs
                    } else {
                        (ps + bs).push(ret)
                    }, c2))
                },
            },
        },
    }
}

/// The signatures of the first `n` functions; a repeated name is a redefinition.
pub open spec fn unit_sigs(defs: Seq<FuncDef>, n: nat) -> Result<Sigs, CompileError>
    decreases n,
{
    if n == 0 || n > defs.len() {
        Ok(seq![])
    } else {
        match unit_sigs(defs, (n - 1) as nat) {
            Err(er) => Err(er),
            Ok(fs) => if find_func(fs, defs[n - 1].ident@) is Some {
                Err(CompileError::Redefinition)
            } else {
                Ok(fs.push((defs[n - 1].ident@, defs[n - 1].func_type == FuncType::Int)))
            },
        }
    }
}

/// The bodies of the first `n` functions, counters running on across them.
pub open spec fn lower_funcs(c: Context, fs: Sigs, defs: Seq<FuncDef>, n: nat) -> Result<(Seq<Seq<InstV>>, Context), CompileError>
    decreases n,
{
    if n == 0 || n > defs.len() {
        Ok((seq![], c))
    } else {
        match lower_funcs(c, fs, defs, (n - 1) as nat) {
            Err(er) => Err(er),
            Ok((bodies, c1)) => match lower_func(c1, fs, defs[n - 1]) {
                Err(er) => Err(er),
                Ok((body, c2)) => Ok((bodies.push(body), c2)),
            },
        }
    }
}

/// How a translation unit lowers: one body per function, all counters
/// starting at zero.
pub open spec fn lower_unit(defs: Seq<FuncDef>) -> Result<Seq<Seq<InstV>>, CompileError> {
    match unit_sigs(defs, defs.len()) {
        Err(er) => Err(er),
        Ok(fs) => match lower_funcs(Context { temp: 0, label: 0, looping: 0, scope: 0 }, fs, defs, defs.len()) {
            Err(er) => Err(er),
            Ok((bodies, _)) => Ok(bodies),
        },
    }
}

/// `r` is the executable counterpart of the spec result `want`, with the
/// scopes `env` afterwards.
pub open spec fn items_lowered_as(
    r: Result<(Vec<Inst>, bool), CompileError>,
    after: Context,
    env_after: Seq<ScopeV>,
    want: ItemsOut,
) -> bool {
    match want {
        Ok((s, exits, c, env)) => r is Ok && insts_view(r->Ok_0.0@) == s && r->Ok_0.1 == exits && after == c
            && env_after == env,
        Err(er) => r == Err::<(Vec<Inst>, bool), CompileError>(er),
    }
}

proof fn lemma_items_settled(c: Context, env: Seq<ScopeV>, fs: Sigs, b: Block, cur: Option<u64>, n: nat, m: nat)
    requires
        n <= m <= b.items@.len(),
        lower_items(c, env, fs, b, cur, n) matches Ok((_, x, _, _)) ==> x,
    ensures
        lower_items(c, env, fs, b, cur, m) == lower_items(c, env, fs, b, cur, n),
    decreases m - n,
{
    if n < m {
        lemma_items_settled(c, env, fs, b, cur, n, (m - 1) as nat);
    }
}

proof fn lemma_consts_err(env: Seq<ScopeV>, defs: Seq<ConstDef>, n: nat, m: nat)
    requires
        n <= m <= defs.len(),
        lower_consts(env, defs, n) is Err,
    ensures
        lower_consts(env, defs, m) == lower_consts(env, defs, n),
    decreases m - n,
{
    if n < m {
        lemma_consts_err(env, defs, n, (m - 1) as nat);
    }
}

proof fn lemma_vars_err(c: Context, env: Seq<ScopeV>, fs: Sigs, defs: Seq<VarDef>, n: nat, m: nat)
    requires
        n <= m <= defs.len(),
        lower_vars(c, env, fs, defs, n) is Err,
    ensures
        lower_vars(c, env, fs, defs, m) == lower_vars(c, env, fs, defs, n),
    decreases m - n,
{
    if n < m {
        lemma_vars_err(c, env, fs, defs, n, (m - 1) as nat);
    }
}

proof fn lemma_params_err(off: u64, ps: Seq<FuncParam>, n: nat, m: nat)
    requires
        n <= m <= ps.len(),
        lower_params(off, ps, n) is Err,
    ensures
        lower_params(off, ps, m) == lower_params(off, ps, n),
    decreases m - n,
{
    if n < m {
        lemma_params_err(off, ps, n, (m - 1) as nat);
    }
}

proof fn lemma_sigs_err(defs: Seq<FuncDef>, n: nat, m: nat)
    requires
        n <= m <= defs.len(),
        unit_sigs(defs, n) is Err,
    ensures
        unit_sigs(defs, m) == unit_sigs(defs, n),
    decreases m - n,
{
    if n < m {
        lemma_sigs_err(defs, n, (m - 1) as nat);
    }
}

proof fn lemma_funcs_err(c: Context, fs: Sigs, defs: Seq<FuncDef>, n: nat, m: nat)
    requires
        n <= m <= defs.len(),
        lower_funcs(c, fs, defs, n) is Err,
    ensures
        lower_funcs(c, fs, defs, m) == lower_funcs(c, fs, defs, n),
    decreases m - n,
{
    if n < m {
        lemma_funcs_err(c, fs, defs, n, (m - 1) as nat);
    }
}

/// Lowers one statement inside the loop numbered `cur_while` (if any).
/// Returns the code and whether it always ends its block.
pub fn stmt2ir(
    ctx: &mut Context,
    id_table: &mut IdTable,
    funcs: &Vec<FuncSig>,
    stmt: &Stmt,
    cur_while: Option<u64>,
) -> (r: Result<(Vec<Inst>, bool), CompileError>)
    requires
        old(id_table).wf(),
    ensures
        r matches Ok((code, exits)) ==> stmt_code(insts_view(code@), *old(ctx), *final(ctx), exits),
        final(id_table)@ == old(id_table)@,
        stmt_lowered_as(r, *final(ctx), lower_stmt(*old(ctx), old(id_table)@, sigs_view(funcs@), *stmt, cur_while)),
    decreases stmt, 2nat,
{
    let ghost c0 = *ctx;
    proof {
        assert(stmt_code(insts_view(Seq::<Inst>::empty()), c0, c0, false)) by {
            assert(insts_view(Seq::<Inst>::empty()) =~= seq![]);
        }
    }
    match stmt {
        Stmt::Ret(e) => {
            let mut out: Vec<Inst> = Vec::new();
            assert(out@ =~= Seq::<Inst>::empty());
            assert(insts_view(out@) =~= seq![]);
            let v = match e {
                Some(e) => {
                    let (s, v) = expr2ir(ctx, id_table, funcs, e)?;
                    proof {
                        lemma_expr_step(c0, id_table@, sigs_view(funcs@), *e);
                    }
                    out = s;
                    Some(v)
                },
                None => None,
            };
            push_term(&mut out, Inst::Ret(v), Ghost(c0), Ghost(*ctx));
            Ok((out, true))
        },
        Stmt::Assign(id, e) => {
            let k = match id_table.get(id) {
                None => {
                    return Err(CompileError::Undeclared);
                },
                Some((IdElement::Const(_), _)) => {
                    return Err(CompileError::AssignToConst);
                },
                Some((IdElement::Var, k)) => k,
            };
            let (mut out, v) = expr2ir(ctx, id_table, funcs, e)?;
            proof {
                lemma_expr_step(c0, id_table@, sigs_view(funcs@), *e);
                lemma_step_push_none(insts_view(out@), InstV::Store(v, SymbolV::Var(id@, k)), c0, *ctx);
            }
            push_inst(&mut out, Inst::Store(v, Symbol::Var(id.clone(), k)));
            Ok((out, false))
        },
        Stmt::Expr(e) => match e {
            Some(e) => {
                let out = expr_stmt2ir(ctx, id_table, funcs, e)?;
                Ok((out, false))
            },
            None => {
                let out: Vec<Inst> = Vec::new();
                assert(out@ =~= Seq::<Inst>::empty());
                assert(insts_view(out@) =~= seq![]);
                Ok((out, false))
            },
        },
        Stmt::Block(b) => {
            let offset = ctx.fresh_scope()?;
            let ghost c1 = *ctx;
            let ghost outer = id_table@;
            id_table.push_scope(offset);
            let res = block2ir(ctx, id_table, funcs, b, cur_while);
            id_table.pop_scope();
            assert(id_table@ =~= outer);
            match res {
                Ok((code, exits)) => {
                    proof {
                        lemma_stmt_widen(insts_view(code@), c1, *ctx, *ctx, exits);
                        assert(fresh_temps(insts_view(code@), c0.temp, ctx.temp));
                    }
                    Ok((code, exits))
                },
                Err(er) => Err(er),
            }
        },
        Stmt::IfElse(_, _, None) => if2ir(ctx, id_table, funcs, stmt, cur_while),
        Stmt::IfElse(_, _, Some(_)) => if_else2ir(ctx, id_table, funcs, stmt, cur_while),
        Stmt::While(_, _) => while2ir(ctx, id_table, funcs, stmt),
        Stmt::Break => match cur_while {
            None => Err(CompileError::BreakOutsideLoop),
            Some(w) => {
                let mut out: Vec<Inst> = Vec::new();
                assert(insts_view(out@) =~= seq![]);
                push_term(&mut out, Inst::Jump(Label::WhileEnd(w)), Ghost(c0), Ghost(c0));
                assert(insts_view(out@) =~= seq![InstV::Jump(Label::WhileEnd(w))]);
                Ok((out, true))
            },
        },
        Stmt::Continue => match cur_while {
            None => Err(CompileError::ContinueOutsideLoop),
            Some(w) => {
                let mut out: Vec<Inst> = Vec::new();
                assert(insts_view(out@) =~= seq![]);
                push_term(&mut out, Inst::Jump(Label::WhileEntry(w)), Ghost(c0), Ghost(c0));
                assert(insts_view(out@) =~= seq![InstV::Jump(Label::WhileEntry(w))]);
                Ok((out, true))
            },
        },
    }
}

/// Lowers `if (c) S`: a branch on the condition to `%then_k` or the join
/// block `%end_k`.
#[verifier::rlimit(100)]
#[verifier::spinoff_prover]
fn if2ir(
    ctx: &mut Context,
    id_table: &mut IdTable,
    funcs: &Vec<FuncSig>,
    stmt: &Stmt,
    cur_while: Option<u64>,
) -> (r: Result<(Vec<Inst>, bool), CompileError>)
    requires
        old(id_table).wf(),
        *stmt is IfElse,
        stmt->IfElse_2 is None,
    ensures
        r matches Ok((code, exits)) ==> stmt_code(insts_view(code@), *old(ctx), *final(ctx), exits),
        final(id_table)@ == old(id_table)@,
        stmt_lowered_as(r, *final(ctx), lower_stmt(*old(ctx), old(id_table)@, sigs_view(funcs@), *stmt, cur_while)),
    decreases stmt, 1nat,
{
    let ghost c0 = *ctx;
    match stmt {
        Stmt::IfElse(cond, if_then, None) => {
            let ghost env = id_table@;
            let ghost fs = sigs_view(funcs@);
            let res = expr_code(ctx, id_table, funcs, cond);
            let (mut out, v) = match res {
                Err(er) => {
                    assert(lower_stmt(c0, env, fs, *stmt, cur_while) == Err::<(Seq<InstV>, bool, Context), CompileError>(er));
                    return Err(er);
                },
                Ok(x) => x,
            };
            let ghost c1 = *ctx;
            let ghost cs = insts_view(out@);
            assert(lower_expr(c0, env, fs, *cond) == Ok::<(Seq<InstV>, Operand, Context), CompileError>((cs, v, c1)));
            let k = match ctx.fresh_label() {
                Err(er) => {
                    assert(lower_stmt(c0, env, fs, *stmt, cur_while) == Err::<(Seq<InstV>, bool, Context), CompileError>(er));
                    return Err(er);
                },
                Ok(k) => k,
            };
            let ghost c2 = *ctx;
            proof {
                lemma_stmt_widen(insts_view(out@), c0, c1, c2, false);
            }
            push_term(&mut out, Inst::Branch(v, Label::Then(k), Label::End(k)), Ghost(c0), Ghost(c2));
            push_label(&mut out, Label::Then(k), Ghost(c0), Ghost(c2));
            let ghost head = insts_view(out@);
            let res = stmt2ir(ctx, id_table, funcs, if_then, cur_while);
            let (mut then_code, then_exits) = match res {
                Err(er) => {
                    assert(lower_stmt(c0, env, fs, *stmt, cur_while) == Err::<(Seq<InstV>, bool, Context), CompileError>(er));
                    return Err(er);
                },
                Ok(x) => x,
            };
            let ghost c3 = *ctx;
            let ghost ts = insts_view(then_code@);
            assert(lower_stmt(c2, env, fs, **if_then, cur_while) == Ok::<(Seq<InstV>, bool, Context), CompileError>((ts, then_exits, c3)));
            append_stmt(&mut out, &mut then_code, Ghost(c0), Ghost(c2), Ghost(c3), Ghost(then_exits));
            if !then_exits {
                push_term(&mut out, Inst::Jump(Label::End(k)), Ghost(c0), Ghost(c3));
            }
            let ghost after_then = insts_view(out@);
            assert(after_then == close_with(head + ts, then_exits, Label::End(k)));
            push_label(&mut out, Label::End(k), Ghost(c0), Ghost(c3));
            assert(lower_stmt(c0, env, fs, *stmt, cur_while) == Ok::<(Seq<InstV>, bool, Context), CompileError>((insts_view(out@), false, c3)));
            Ok((out, false))
        },
        // excluded by the precondition
        _ => Err(CompileError::TooLarge),
    }
}

/// Lowers `if (c) S else T`: a branch on the condition to `%then_k` or
/// `%else_k`, one block per arm, and the join block `%end_k`.
#[verifier::rlimit(100)]
#[verifier::spinoff_prover]
fn if_else2ir(
    ctx: &mut Context,
    id_table: &mut IdTable,
    funcs: &Vec<FuncSig>,
    stmt: &Stmt,
    cur_while: Option<u64>,
) -> (r: Result<(Vec<Inst>, bool), CompileError>)
    requires
        old(id_table).wf(),
        *stmt is IfElse,
        stmt->IfElse_2 is Some,
    ensures
        r matches Ok((code, exits)) ==> stmt_code(insts_view(code@), *old(ctx), *final(ctx), exits),
        final(id_table)@ == old(id_table)@,
        stmt_lowered_as(r, *final(ctx), lower_stmt(*old(ctx), old(id_table)@, sigs_view(funcs@), *stmt, cur_while)),
    decreases stmt, 1nat,
{
    let ghost c0 = *ctx;
    match stmt {
        Stmt::IfElse(cond, if_then, Some(else_stmt)) => {
            let ghost env = id_table@;
            let ghost fs = sigs_view(funcs@);
            let res = expr_code(ctx, id_table, funcs, cond);
            let (mut out, v) = match res {
                Err(er) => {
                    assert(lower_stmt(c0, env, fs, *stmt, cur_while) == Err::<(Seq<InstV>, bool, Context), CompileError>(er));
                    return Err(er);
                },
                Ok(x) => x,
            };
            let ghost c1 = *ctx;
            let ghost cs = insts_view(out@);
            assert(lower_expr(c0, env, fs, *cond) == Ok::<(Seq<InstV>, Operand, Context), CompileError>((cs, v, c1)));
            let k = match ctx.fresh_label() {
                Err(er) => {
                    assert(lower_stmt(c0, env, fs, *stmt, cur_while) == Err::<(Seq<InstV>, bool, Context), CompileError>(er));
                    return Err(er);
                },
                Ok(k) => k,
            };
            let ghost c2 = *ctx;
            proof {
                lemma_stmt_widen(insts_view(out@), c0, c1, c2, false);
            }
            push_term(&mut out, Inst::Branch(v, Label::Then(k), Label::Else(k)), Ghost(c0), Ghost(c2));
            push_label(&mut out, Label::Then(k), Ghost(c0), Ghost(c2));
            let ghost head = insts_view(out@);
            let res = stmt2ir(ctx, id_table, funcs, if_then, cur_while);
            let (mut then_code, then_exits) = match res {
                Err(er) => {
                    assert(lower_stmt(c0, env, fs, *stmt, cur_while) == Err::<(Seq<InstV>, bool, Context), CompileError>(er));
                    return Err(er);
                },
                Ok(x) => x,
            };
            let ghost c3 = *ctx;
            let ghost ts = insts_view(then_code@);
            assert(lower_stmt(c2, env, fs, **if_then, cur_while) == Ok::<(Seq<InstV>, bool, Context), CompileError>((ts, then_exits, c3)));
            append_stmt(&mut out, &mut then_code, Ghost(c0), Ghost(c2), Ghost(c3), Ghost(then_exits));
            if !then_exits {
                push_term(&mut out, Inst::Jump(Label::End(k)), Ghost(c0), Ghost(c3));
            }
            let ghost after_then = insts_view(out@);
            assert(after_then == close_with(head + ts, then_exits, Label::End(k)));
            push_label(&mut out, Label::Else(k), Ghost(c0), Ghost(c3));
            let ghost pre_else = insts_view(out@);
            let res = stmt2ir(ctx, id_table, funcs, else_stmt, cur_while);
            let (mut else_code, else_exits) = match res {
                Err(er) => {
                    assert(lower_stmt(c0, env, fs, *stmt, cur_while) == Err::<(Seq<InstV>, bool, Context), CompileError>(er));
                    return Err(er);
                },
                Ok(x) => x,
            };
            let ghost c4 = *ctx;
            let ghost ess = insts_view(else_code@);
            assert(lower_stmt(c3, env, fs, **else_stmt, cur_while) == Ok::<(Seq<InstV>, bool, Context), CompileError>((ess, else_exits, c4)));
            append_stmt(&mut out, &mut else_code, Ghost(c0), Ghost(c3), Ghost(c4), Ghost(else_exits));
            if !else_exits {
                push_term(&mut out, Inst::Jump(Label::End(k)), Ghost(c0), Ghost(c4));
            }
            assert(insts_view(out@) == close_with(pre_else + ess, else_exits, Label::End(k)));
            push_label(&mut out, Label::End(k), Ghost(c0), Ghost(c4));
            assert(lower_stmt(c0, env, fs, *stmt, cur_while) == Ok::<(Seq<InstV>, bool, Context), CompileError>((insts_view(out@), false, c4)));
            Ok((out, false))
        },
        // excluded by the precondition
        _ => Err(CompileError::TooLarge),
    }
}

/// Lowers `while (c) S`: a condition block `%while_entryK`, a body block
/// `%while_bodyK` that loops back, and an exit block `%while_endK`.
#[verifier::rlimit(100)]
#[verifier::spinoff_prover]
fn while2ir(
    ctx: &mut Context,
    id_table: &mut IdTable,
    funcs: &Vec<FuncSig>,
    stmt: &Stmt,
) -> (r: Result<(Vec<Inst>, bool), CompileError>)
    requires
        old(id_table).wf(),
        *stmt is While,
    ensures
        r matches Ok((code, exits)) ==> stmt_code(insts_view(code@), *old(ctx), *final(ctx), exits),
        final(id_table)@ == old(id_table)@,
        stmt_lowered_as(r, *final(ctx), lower_stmt(*old(ctx), old(id_table)@, sigs_view(funcs@), *stmt, None)),
    decreases stmt, 1nat,
{
    let ghost c0 = *ctx;
    match stmt {
        Stmt::While(cond, body) => {
            let ghost env = id_table@;
            let ghost fs = sigs_view(funcs@);
            let w = ctx.fresh_loop()?;
            let ghost c1 = *ctx;
            let mut out: Vec<Inst> = Vec::new();
            proof {
                assert(insts_view(out@) =~= seq![]);
            }
            push_term(&mut out, Inst::Jump(Label::WhileEntry(w)), Ghost(c0), Ghost(c1));
            push_label(&mut out, Label::WhileEntry(w), Ghost(c0), Ghost(c1));
            assert(insts_view(out@) =~= seq![InstV::Jump(Label::WhileEntry(w)), InstV::Label(Label::WhileEntry(w))]);
            let res = expr_code(ctx, id_table, funcs, cond);
            let (mut cond_code, v) = match res {
                Err(er) => {
                    assert(lower_stmt(c0, env, fs, *stmt, None) == Err::<(Seq<InstV>, bool, Context), CompileError>(er));
                    return Err(er);
                },
                Ok(x) => x,
            };
            let ghost c2 = *ctx;
            let ghost cs = insts_view(cond_code@);
            assert(lower_expr(c1, env, fs, *cond) == Ok::<(Seq<InstV>, Operand, Context), CompileError>((cs, v, c2)));
            append_stmt(&mut out, &mut cond_code, Ghost(c0), Ghost(c1), Ghost(c2), Ghost(false));
            push_term(&mut out, Inst::Branch(v, Label::WhileBody(w), Label::WhileEnd(w)), Ghost(c0), Ghost(c2));
            push_label(&mut out, Label::WhileBody(w), Ghost(c0), Ghost(c2));
            let ghost to_body = insts_view(out@);
            let res = stmt2ir(ctx, id_table, funcs, body, Some(w));
            let (mut body_code, body_exits) = match res {
                Err(er) => {
                    assert(lower_stmt(c0, env, fs, *stmt, None) == Err::<(Seq<InstV>, bool, Context), CompileError>(er));
                    return Err(er);
                },
                Ok(x) => x,
            };
            let ghost c3 = *ctx;
            let ghost bs = insts_view(body_code@);
            assert(lower_stmt(c2, env, fs, **body, Some(w)) == Ok::<(Seq<InstV>, bool, Context), CompileError>((bs, body_exits, c3)));
            append_stmt(&mut out, &mut body_code, Ghost(c0), Ghost(c2), Ghost(c3), Ghost(body_exits));
            if !body_exits {
                push_term(&mut out, Inst::Jump(Label::WhileEntry(w)), Ghost(c0), Ghost(c3));
            }
            assert(insts_view(out@) == close_with(to_body + bs, body_exits, Label::WhileEntry(w)));
            push_label(&mut out, Label::WhileEnd(w), Ghost(c0), Ghost(c3));
            assert(lower_stmt(c0, env, fs, *stmt, None) == Ok::<(Seq<InstV>, bool, Context), CompileError>((insts_view(out@), false, c3)));
            Ok((out, false))
        },
        // excluded by the precondition
        _ => Err(CompileError::TooLarge),
    }
}

/// Lowers the items of a block in the innermost scope of `id_table`,
/// stopping after the first statement that always ends its block.
pub fn block2ir(
    ctx: &mut Context,
    id_table: &mut IdTable,
    funcs: &Vec<FuncSig>,
    block: &Block,
    cur_while: Option<u64>,
) -> (r: Result<(Vec<Inst>, bool), CompileError>)
    requires
        old(id_table).wf(),
    ensures
        final(id_table)@.len() == old(id_table)@.len(),
        final(id_table)@.drop_last() == old(id_table)@.drop_last(),
        final(id_table)@.last().offset == old(id_table)@.last().offset,
        r matches Ok((code, exits)) ==> stmt_code(insts_view(code@), *old(ctx), *final(ctx), exits),
        items_lowered_as(
            r,
            *final(ctx),
            final(id_table)@,
            lower_items(*old(ctx), old(id_table)@, sigs_view(funcs@), *block, cur_while, block.items@.len()),
        ),
    decreases block, 0nat,
{
    let ghost c0 = *ctx;
    let ghost t0 = id_table@;
    let ghost fs = sigs_view(funcs@);
    let mut out: Vec<Inst> = Vec::new();
    assert(insts_view(out@) =~= seq![]);
    let mut i: usize = 0;
    while i < block.items.len()
        invariant
            i <= block.items@.len(),
            id_table.wf(),
            id_table@.len() == t0.len(),
            id_table@.drop_last() == t0.drop_last(),
            id_table@.last().offset == t0.last().offset,
            t0 == old(id_table)@,
            fs == sigs_view(funcs@),
            stmt_code(insts_view(out@), c0, *ctx, false),
            c0 == *old(ctx),
            lower_items(c0, t0, fs, *block, cur_while, i as nat) == Ok::<
                (Seq<InstV>, bool, Context, Seq<ScopeV>),
                CompileError,
            >((insts_view(out@), false, *ctx, id_table@)),
        decreases block.items@.len() - i,
    {
        let ghost c1 = *ctx;
        let ghost env1 = id_table@;
        let ghost prev = insts_view(out@);
        proof {
            assert(decreases_to!(*block => block.items));
            assert(decreases_to!(block.items => block.items[i as int]));
            assert(block.items@[i as int] == block.items[i as int]);
        }
        match &block.items[i] {
            BlockItem::ConstDecl(defs) => {
                let res = const_decl2ir(id_table, defs);
                if let Err(er) = res {
                    proof {
                        lemma_items_settled(c0, t0, fs, *block, cur_while, (i + 1) as nat, block.items@.len());
                    }
                    return Err(er);
                }
            },
            BlockItem::VarDecl(defs) => {
                let res = var_decl2ir(ctx, id_table, funcs, defs);
                match res {
                    Err(er) => {
                        proof {
                            lemma_items_settled(c0, t0, fs, *block, cur_while, (i + 1) as nat, block.items@.len());
                        }
                        return Err(er);
                    },
                    Ok(mut code) => {
                        let ghost c2 = *ctx;
                        proof {
                            lemma_step_is_stmt(insts_view(code@), c1, c2);
                        }
                        append_stmt(&mut out, &mut code, Ghost(c0), Ghost(c1), Ghost(c2), Ghost(false));
                    },
                }
            },
            BlockItem::Stmt(st) => {
                let res = stmt2ir(ctx, id_table, funcs, st, cur_while);
                match res {
                    Err(er) => {
                        proof {
                            lemma_items_settled(c0, t0, fs, *block, cur_while, (i + 1) as nat, block.items@.len());
                        }
                        return Err(er);
                    },
                    Ok((mut code, exits)) => {
                        let ghost c2 = *ctx;
                        append_stmt(&mut out, &mut code, Ghost(c0), Ghost(c1), Ghost(c2), Ghost(exits));
                        if exits {
                            proof {
                                lemma_items_settled(c0, t0, fs, *block, cur_while, (i + 1) as nat, block.items@.len());
                            }
                            return Ok((out, true));
                        }
                    },
                }
            },
        }
        i = i + 1;
    }
    Ok((out, false))
}

/// Folds each constant and binds it in the innermost scope.
pub fn const_decl2ir(id_table: &mut IdTable, defs: &Vec<ConstDef>) -> (r: Result<(), CompileError>)
    requires
        old(id_table).wf(),
    ensures
        final(id_table)@.len() == old(id_table)@.len(),
        final(id_table)@.drop_last() == old(id_table)@.drop_last(),
        final(id_table)@.last().offset == old(id_table)@.last().offset,
        match lower_consts(old(id_table)@, defs@, defs@.len()) {
            Ok(env) => r is Ok && final(id_table)@ == env,
            Err(er) => r == Err::<(), CompileError>(er),
        },
{
    let ghost t0 = id_table@;
    let mut i: usize = 0;
    while i < defs.len()
        invariant
            i <= defs@.len(),
            id_table.wf(),
            id_table@.len() == t0.len(),
            id_table@.drop_last() == t0.drop_last(),
            id_table@.last().offset == t0.last().offset,
            t0 == old(id_table)@,
            lower_consts(t0, defs@, i as nat) == Ok::<Seq<ScopeV>, CompileError>(id_table@),
        decreases defs@.len() - i,
    {
        let res = compute_expr(&defs[i].value, id_table);
        let v = match res {
            Err(er) => {
                proof {
                    lemma_consts_err(t0, defs@, (i + 1) as nat, defs@.len());
                }
                return Err(er);
            },
            Ok(v) => v,
        };
        if !id_table.insert(defs[i].id.clone(), IdElement::Const(v)) {
            proof {
                lemma_consts_err(t0, defs@, (i + 1) as nat, defs@.len());
            }
            return Err(CompileError::Redefinition);
        }
        i = i + 1;
    }
    Ok(())
}

/// Appends one variable definition to `out`: exactly `lower_var_def`.
#[verifier::rlimit(60)]
fn var_def2ir(
    ctx: &mut Context,
    id_table: &mut IdTable,
    funcs: &Vec<FuncSig>,
    d: &VarDef,
    out: &mut Vec<Inst>,
    Ghost(c0): Ghost<Context>,
) -> (r: Result<(), CompileError>)
    requires
        old(id_table).wf(),
        code_step(insts_view(old(out)@), c0, *old(ctx)),
    ensures
        final(id_table)@.len() == old(id_table)@.len(),
        final(id_table)@.drop_last() == old(id_table)@.drop_last(),
        final(id_table)@.last().offset == old(id_table)@.last().offset,
        r is Ok ==> code_step(insts_view(final(out)@), c0, *final(ctx)),
        match lower_var_def(*old(ctx), old(id_table)@, sigs_view(funcs@), *d, insts_view(old(out)@)) {
            Ok((s, c, env)) => r is Ok && insts_view(final(out)@) == s && *final(ctx) == c && final(id_table)@ == env,
            Err(er) => r == Err::<(), CompileError>(er),
        },
{
    let ghost c1 = *ctx;
    let offset = id_table.offset();
    let id = d.id.clone();
    proof {
        lemma_step_push_none(insts_view(out@), InstV::Alloc(SymbolV::Var(id@, offset)), c0, c1);
    }
    push_inst(out, Inst::Alloc(Symbol::Var(id.clone(), offset)));
    match &d.value {
        Some(e) => {
            let (mut code, v) = expr2ir(ctx, id_table, funcs, e)?;
            let ghost c2 = *ctx;
            proof {
                lemma_expr_step(c1, id_table@, sigs_view(funcs@), *e);
                lemma_step_concat(insts_view(out@), insts_view(code@), c0, c1, c2);
            }
            append_insts(out, &mut code);
            proof {
                lemma_step_push_none(insts_view(out@), InstV::Store(v, SymbolV::Var(id@, offset)), c0, c2);
            }
            push_inst(out, Inst::Store(v, Symbol::Var(id.clone(), offset)));
        },
        None => {},
    }
    if !id_table.insert(id, IdElement::Var) {
        return Err(CompileError::Redefinition);
    }
    Ok(())
}

/// Allocates each variable, stores its initializer if it has one, and binds
/// it in the innermost scope once the initializer is lowered.
pub fn var_decl2ir(ctx: &mut Context, id_table: &mut IdTable, funcs: &Vec<FuncSig>, defs: &Vec<VarDef>) -> (r: Result<Vec<Inst>, CompileError>)
    requires
        old(id_table).wf(),
    ensures
        final(id_table)@.len() == old(id_table)@.len(),
        final(id_table)@.drop_last() == old(id_table)@.drop_last(),
        final(id_table)@.last().offset == old(id_table)@.last().offset,
        r matches Ok(code) ==> code_step(insts_view(code@), *old(ctx), *final(ctx)),
        match lower_vars(*old(ctx), old(id_table)@, sigs_view(funcs@), defs@, defs@.len()) {
            Ok((s, c, env)) => r is Ok && insts_view(r->Ok_0@) == s && *final(ctx) == c && final(id_table)@ == env,
            Err(er) => r == Err::<Vec<Inst>, CompileError>(er),
        },
{
    let ghost c0 = *ctx;
    let ghost t0 = id_table@;
    let ghost fs = sigs_view(funcs@);
    let mut out: Vec<Inst> = Vec::new();
    assert(insts_view(out@) =~= seq![]);
    let mut i: usize = 0;
    while i < defs.len()
        invariant
            i <= defs@.len(),
            id_table.wf(),
            id_table@.len() == t0.len(),
            id_table@.drop_last() == t0.drop_last(),
            id_table@.last().offset == t0.last().offset,
            t0 == old(id_table)@,
            fs == sigs_view(funcs@),
            code_step(insts_view(out@), c0, *ctx),
            c0 == *old(ctx),
            lower_vars(c0, t0, fs, defs@, i as nat) == Ok::<(Seq<InstV>, Context, Seq<ScopeV>), CompileError>(
                (insts_view(out@), *ctx, id_table@),
            ),
        decreases defs@.len() - i,
    {
        let res = var_def2ir(ctx, id_table, funcs, &defs[i], &mut out, Ghost(c0));
        if let Err(er) = res {
            proof {
                lemma_vars_err(c0, t0, fs, defs@, (i + 1) as nat, defs@.len());
            }
            return Err(er);
        }
        i = i + 1;
    }
    Ok(out)
}

/// Lowers one function: each parameter gets a slot in the function's scope
/// and is stored there on entry; a body that can fall off its end returns
/// `0` (or nothing, for `void`).
pub fn func2ir(ctx: &mut Context, funcs: &Vec<FuncSig>, f: &FuncDef) -> (r: Result<IrFunction, CompileError>)
    ensures
        r matches Ok(irf) ==> {
            &&& irf.wf()
            &&& fresh_temps(insts_view(irf.body@), old(ctx).temp, final(ctx).temp)
            &&& grows(*old(ctx), *final(ctx))
            &&& irf.name@ == f.ident@
            &&& irf.returns_int == (f.func_type == FuncType::Int)
            &&& irf.n_params == f.params@.len()
        },
        match lower_func(*old(ctx), sigs_view(funcs@), *f) {
            Ok((body, c)) => r is Ok && insts_view(r->Ok_0.body@) == body && *final(ctx) == c,
            Err(er) => r == Err::<IrFunction, CompileError>(er),
        },
{
    let ghost c0 = *ctx;
    let scope = ctx.fresh_scope()?;
    let ghost c1 = *ctx;
    let mut table = IdTable::new(scope);
    let mut out: Vec<Inst> = Vec::new();
    assert(insts_view(out@) =~= seq![]);
    let mut i: usize = 0;
    while i < f.params.len()
        invariant
            table.wf(),
            i <= f.params@.len(),
            code_step(insts_view(out@), c1, *ctx),
            c1 == *ctx,
            c0 == *old(ctx),
            next_scope(c0) == Some((scope, c1)),
            lower_params(scope, f.params@, i as nat) == Ok::<(Seq<InstV>, Seq<ScopeV>), CompileError>(
                (insts_view(out@), table@),
            ),
        decreases f.params@.len() - i,
    {
        let id = f.params[i].ident.clone();
        if !table.insert(id.clone(), IdElement::Var) {
            proof {
                lemma_params_err(scope, f.params@, (i + 1) as nat, f.params@.len());
            }
            return Err(CompileError::Redefinition);
        }
        proof {
            lemma_step_push_none(insts_view(out@), InstV::Alloc(SymbolV::Var(id@, scope)), c1, *ctx);
        }
        push_inst(&mut out, Inst::Alloc(Symbol::Var(id.clone(), scope)));
        proof {
            lemma_step_push_none(insts_view(out@), InstV::Store(Operand::Arg(i as u64), SymbolV::Var(id@, scope)), c1, *ctx);
        }
        push_inst(&mut out, Inst::Store(Operand::Arg(i as u64), Symbol::Var(id, scope)));
        i = i + 1;
    }
    let ghost c2 = *ctx;
    let (mut body, exits) = block2ir(ctx, &mut table, funcs, &f.block, None)?;
    let ghost c3 = *ctx;
    append_stmt(&mut out, &mut body, Ghost(c1), Ghost(c2), Ghost(c3), Ghost(exits));
    let returns_int = f.func_type == FuncType::Int;
    if !exits {
        let v = if returns_int {
            Some(Operand::Imm(0))
        } else {
            None
        };
        push_term(&mut out, Inst::Ret(v), Ghost(c1), Ghost(c3));
    }
    proof {
        crate::ir::lemma_fresh_widen(insts_view(out@), c1.temp, c3.temp, c0.temp, c3.temp);
    }
    Ok(IrFunction { name: f.ident.clone(), n_params: f.params.len() as u64, returns_int, body: out })
}

/// The bodies of lowered functions, in order.
pub open spec fn bodies_of(fs: Seq<IrFunction>) -> Seq<Seq<InstV>> {
    fs.map_values(|f: IrFunction| insts_view(f.body@))
}

/// `p` is the lowering of `ast`: its bodies are `lower_unit`'s, and each
/// function keeps its definition's name, return kind and parameter count.
/// All programs with this property print alike.
pub open spec fn lowered_from(p: IrProgram, ast: CompUnit) -> bool {
    &&& lower_unit(ast.func_defs@) == Ok::<Seq<Seq<InstV>>, CompileError>(bodies_of(p.funcs@))
    &&& p.funcs@.len() == ast.func_defs@.len()
    &&& forall|i: int| 0 <= i < p.funcs@.len() ==> {
        let f = #[trigger] p.funcs@[i];
        let d = ast.func_defs@[i];
        &&& f.name@ == d.ident@
        &&& f.returns_int == (d.func_type == FuncType::Int)
        &&& f.n_params == d.params@.len()
    }
}

/// Lowers a translation unit: exactly `lower_unit`. Every function may call
/// every function of the unit; two functions of one name are a redefinition.
pub fn ast2ir(ast: &CompUnit) -> (r: Result<IrProgram, CompileError>)
    ensures
        match lower_unit(ast.func_defs@) {
            Ok(bodies) => r is Ok && bodies_of(r->Ok_0.funcs@) == bodies,
            Err(er) => r == Err::<IrProgram, CompileError>(er),
        },
        r matches Ok(p) ==> lowered_from(p, *ast),
        r matches Ok(p) ==> {
            &&& p.funcs@.len() == ast.func_defs@.len()
            &&& forall|i: int| 0 <= i < p.funcs@.len() ==> {
                let f = #[trigger] p.funcs@[i];
                let d = ast.func_defs@[i];
                &&& f.wf()
                &&& f.name@ == d.ident@
                &&& f.returns_int == (d.func_type == FuncType::Int)
                &&& f.n_params == d.params@.len()
            }
        },
{
    let mut ctx = Context::new();
    let mut funcs: Vec<FuncSig> = Vec::new();
    let ghost defs = ast.func_defs@;
    let mut i: usize = 0;
    assert(sigs_view(funcs@) =~= seq![]);
    while i < ast.func_defs.len()
        invariant
            i <= ast.func_defs@.len(),
            defs == ast.func_defs@,
            unit_sigs(defs, i as nat) == Ok::<Sigs, CompileError>(sigs_view(funcs@)),
        decreases ast.func_defs@.len() - i,
    {
        let f = &ast.func_defs[i];
        if lookup_func(&funcs, &f.ident).is_some() {
            proof {
                lemma_sigs_err(defs, (i + 1) as nat, defs.len());
            }
            return Err(CompileError::Redefinition);
        }
        let ghost before = sigs_view(funcs@);
        funcs.push(FuncSig { name: f.ident.clone(), returns_int: f.func_type == FuncType::Int });
        assert(sigs_view(funcs@) =~= before.push((f.ident@, f.func_type == FuncType::Int)));
        i = i + 1;
    }
    let ghost fs = sigs_view(funcs@);
    let ghost c0 = ctx;
    let mut out: Vec<IrFunction> = Vec::new();
    assert(bodies_of(out@) =~= seq![]);
    let mut j: usize = 0;
    while j < ast.func_defs.len()
        invariant
            j <= ast.func_defs@.len(),
            defs == ast.func_defs@,
            fs == sigs_view(funcs@),
            c0 == (Context { temp: 0, label: 0, looping: 0, scope: 0 }),
            unit_sigs(defs, defs.len()) == Ok::<Sigs, CompileError>(fs),
            out@.len() == j,
            lower_funcs(c0, fs, defs, j as nat) == Ok::<(Seq<Seq<InstV>>, Context), CompileError>((bodies_of(out@), ctx)),
            forall|i: int| 0 <= i < j ==> {
                let f = #[trigger] out@[i];
                let d = ast.func_defs@[i];
                &&& f.wf()
                &&& f.name@ == d.ident@
                &&& f.returns_int == (d.func_type == FuncType::Int)
                &&& f.n_params == d.params@.len()
            },
        decreases ast.func_defs@.len() - j,
    {
        let res = func2ir(&mut ctx, &funcs, &ast.func_defs[j]);
        match res {
            Err(er) => {
                proof {
                    lemma_funcs_err(c0, fs, defs, (j + 1) as nat, defs.len());
                }
                return Err(er);
            },
            Ok(irf) => {
                let ghost before = out@;
                out.push(irf);
                assert(bodies_of(out@) =~= bodies_of(before).push(insts_view(irf.body@)));
            },
        }
        j = j + 1;
    }
    Ok(IrProgram { funcs: out })
}

} // verus!
