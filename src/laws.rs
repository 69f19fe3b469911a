//! Properties of the compiler, proved over the contracts of the passes.
use vstd::prelude::*;
use crate::ast::{BinaryOp, Expr, UnaryOp};
use crate::ast2ir::{
    binary_inst, lower_args, lemma_expr_step, lower_expr, next_temp, short_head, short_head_code, short_tail,
    short_tail_code, Context, Sigs,
};
use crate::env::{bind, find_entry, lookup_scopes, IdElement, ScopeV};
use crate::fold::{binary_value, const_value, ir_value, unary_value};
use crate::ir::{body_ok, def_of, fresh_temps, insts_view, is_label, is_terminator, InstV, IrBinOp, IrFunction, Label, Operand};
use crate::riscv::{fits, frame_ok, layout, max_call_args, slot_keys};

verus! {

/// Positions `i..=j` of `s` lie in one basic block: no label opens a block
/// after `i` up to `j`.
pub open spec fn same_block(s: Seq<InstV>, i: int, j: int) -> bool {
    0 <= i <= j < s.len() && forall|m: int| i < m <= j ==> !is_label(#[trigger] s[m])
}

/// Position `i` is the last of its basic block.
pub open spec fn ends_block(s: Seq<InstV>, i: int) -> bool {
    0 <= i < s.len() && (i == s.len() - 1 || is_label(s[i + 1]))
}

/// Every basic block of a lowered body has exactly one terminator, and it
/// is the block's last instruction: each block ends in a terminator, and
/// nothing before the end of a block is one.
pub proof fn law_one_terminator_per_block(s: Seq<InstV>)
    requires
        body_ok(s),
    ensures
        forall|i: int| #[trigger] ends_block(s, i) ==> is_terminator(s[i]),
        forall|i: int, j: int| #[trigger] same_block(s, i, j) && i < j ==> !is_terminator(s[i]),
        s.len() > 0 && !is_label(s[0]),
{
    assert forall|i: int| #[trigger] ends_block(s, i) implies is_terminator(s[i]) by {
        if i < s.len() - 1 {
            assert(is_terminator(s[i]) <==> is_label(s[i + 1]));
        }
    }
    assert forall|i: int, j: int| #[trigger] same_block(s, i, j) && i < j implies !is_terminator(s[i]) by {
        assert(is_terminator(s[i]) <==> is_label(s[i + 1]));
        assert(!is_label(s[i + 1]));
    }
}

/// Within a lowered body, no SSA temporary is defined twice.
pub proof fn law_ssa_unique(s: Seq<InstV>)
    requires
        body_ok(s),
    ensures
        forall|j: int, k: int| 0 <= j < s.len() && 0 <= k < s.len() && j != k
            && (#[trigger] def_of(s[j])) is Some && (#[trigger] def_of(s[k])) is Some
            ==> def_of(s[j]) != def_of(s[k]),
{
    assert forall|j: int, k: int| 0 <= j < s.len() && 0 <= k < s.len() && j != k
        && (#[trigger] def_of(s[j])) is Some && (#[trigger] def_of(s[k])) is Some
        implies def_of(s[j]) != def_of(s[k]) by {
        if j < k {
            assert(def_of(s[j])->0 < def_of(s[k])->0);
        } else {
            assert(def_of(s[k])->0 < def_of(s[j])->0);
        }
    }
}

/// A name resolves to the innermost scope that binds it: scopes opened
/// inside that do not bind it change nothing, and where an inner scope
/// binds it, the outer ones do not matter.
pub proof fn law_lexical_scope(outer: Seq<ScopeV>, inner: Seq<ScopeV>, name: Seq<char>)
    ensures
        (forall|i: int| 0 <= i < inner.len() ==> find_entry((#[trigger] inner[i]).entries, name) is None)
            ==> lookup_scopes(outer + inner, name) == lookup_scopes(outer, name),
        lookup_scopes(inner, name) is Some ==> lookup_scopes(outer + inner, name) == lookup_scopes(inner, name),
    decreases inner.len(),
{
    if inner.len() == 0 {
        assert(outer + inner =~= outer);
    } else {
        let all = outer + inner;
        assert(all.drop_last() =~= outer + inner.drop_last());
        assert(all.last() == inner.last());
        law_lexical_scope(outer, inner.drop_last(), name);
        if forall|i: int| 0 <= i < inner.len() ==> find_entry((#[trigger] inner[i]).entries, name) is None {
            assert(find_entry(inner.last().entries, name) is None) by {
                assert(inner.last() == inner[inner.len() - 1]);
            }
            assert forall|i: int| 0 <= i < inner.drop_last().len() implies find_entry(
                (#[trigger] inner.drop_last()[i]).entries,
                name,
            ) is None by {
                assert(inner.drop_last()[i] == inner[i]);
            }
        }
    }
}

/// Binding a name in the innermost scope makes lookups of that name find
/// the new binding, and leaves every other name's lookup as it was.
pub proof fn law_binding_is_local(sc: Seq<ScopeV>, name: Seq<char>, v: IdElement, other: Seq<char>)
    requires
        sc.len() > 0,
    ensures
        lookup_scopes(bind(sc, name, v), name) == Some((v, sc.last().offset)),
        other != name ==> lookup_scopes(bind(sc, name, v), other) == lookup_scopes(sc, other),
{
    let b = bind(sc, name, v);
    assert(b.drop_last() =~= sc.drop_last());
    assert(b.last().entries.drop_last() =~= sc.last().entries);
}

/// Constant folding computes what the emitted IR computes: each
/// non-short-circuit binary operator equals its IR opcode on the operands
/// in the order lowering gives them, and the unary operators equal
/// `sub 0, x` and `eq 0, x`.
pub proof fn law_fold_agrees_with_ir(op: BinaryOp, a: i32, b: i32)
    ensures
        op != BinaryOp::And && op != BinaryOp::Or ==> (binary_inst(0, op, Operand::Imm(a), Operand::Imm(b)) matches InstV::Binary(
            _,
            iop,
            Operand::Imm(x),
            Operand::Imm(y),
        ) && ir_value(iop, x, y) == binary_value(op, a, b)),
        unary_value(UnaryOp::Minus, a) == ir_value(IrBinOp::Sub, 0, a),
        unary_value(UnaryOp::Not, a) == ir_value(IrBinOp::Eq, 0, a),
{
}

/// The value the short-circuit code leaves in its slot: the left operand's
/// truth value, overwritten by the right operand's where the branch enters
/// the right operand's block.
pub open spec fn short_circuit_value(is_or: bool, a: i32, b: i32) -> i32 {
    let na = ir_value(IrBinOp::Ne, 0, a);
    let enter = if is_or {
        ir_value(IrBinOp::Eq, 0, na) != 0
    } else {
        na != 0
    };
    if enter {
        ir_value(IrBinOp::Ne, 0, b)
    } else {
        na
    }
}

/// The short-circuit code computes `&&` and `||` as constant folding does.
pub proof fn law_short_circuit_value(a: i32, b: i32)
    ensures
        short_circuit_value(false, a, b) == binary_value(BinaryOp::And, a, b),
        short_circuit_value(true, a, b) == binary_value(BinaryOp::Or, a, b),
{
}

/// In `a && b` and `a || b`, the code of `b` stands exactly in the block
/// that the branch on `a`'s truth value enters only when `a` does not
/// decide the result: after the lowered `a`, the head ends with that branch
/// and the label of `b`'s block, then comes the lowered `b`, then the join.
pub proof fn law_short_circuit_layout(c: Context, sc: Seq<ScopeV>, fs: Sigs, l: Box<Expr>, op: BinaryOp, r: Box<Expr>)
    requires
        op == BinaryOp::And || op == BinaryOp::Or,
        lower_expr(c, sc, fs, Expr::BinaryExpr(l, op, r)) is Ok,
    ensures
        ({
            let is_or = op == BinaryOp::Or;
            let (sl, vl, c1) = lower_expr(c, sc, fs, *l)->Ok_0;
            let (t1, d, k, t2, c2) = short_head(c1, is_or)->Some_0;
            let (sr, vr, c3) = lower_expr(c2, sc, fs, *r)->Ok_0;
            let (t3, t4, c4) = short_tail(c3)->Some_0;
            let head = short_head_code(is_or, vl, t1, d, k, t2);
            let (if_l, end_l) = if is_or {
                (Label::OrIf(k), Label::OrEnd(k))
            } else {
                (Label::AndIf(k), Label::AndEnd(k))
            };
            &&& lower_expr(c, sc, fs, Expr::BinaryExpr(l, op, r))->Ok_0.0 == sl + head + sr
                + short_tail_code(is_or, vr, k, d, t3, t4)
            &&& head.last() == InstV::Label(if_l)
            &&& head[head.len() - 2] == InstV::Branch(Operand::Temp(t2), if_l, end_l)
            &&& (!is_or ==> t2 == t1)
        }),
{
}

/// The frame size is a multiple of 16 and holds a word per value, a word
/// per outgoing argument, and the return address; every slot is a word of
/// its own between the outgoing arguments and the return address.
pub proof fn law_frame_alignment(f: IrFunction)
    requires
        fits(f),
    ensures
        layout(f).size % 16 == 0,
        layout(f).size >= 4 * (f.body@.len() + layout(f).max_args) + 4,
        layout(f).slots.len() <= f.body@.len(),
        frame_ok(layout(f), insts_view(f.body@)),
{
    let body = insts_view(f.body@);
    let m = max_call_args(body);
    let raw = 4 * (body.len() + m) + 4;
    if raw % 16 != 0 {
        assert((raw + (16 - raw % 16)) % 16 == 0) by (nonlinear_arith)
            requires
                raw >= 0,
        ;
    }
    lemma_slot_keys_len(body);
    let fr = layout(f);
    assert forall|i: int| 0 <= i < fr.slots.len() implies {
        let off = (#[trigger] fr.slots[i]).1;
        &&& off % 4 == 0
        &&& 4 * fr.max_args <= off
        &&& off + 4 <= fr.size - 4
    } by {
        assert(fr.slots[i].1 == (4 * m + 4 * i) as u64);
    }
    assert forall|i: int, j: int| 0 <= i < j < fr.slots.len() implies (#[trigger] fr.slots[i]).1 != (#[trigger] fr.slots[j]).1 by {
        assert(fr.slots[i].1 == (4 * m + 4 * i) as u64);
        assert(fr.slots[j].1 == (4 * m + 4 * j) as u64);
    }
}

proof fn lemma_slot_keys_len(s: Seq<InstV>)
    ensures
        slot_keys(s).len() <= s.len(),
    decreases s.len(),
{
    if s.len() > 0 {
        lemma_slot_keys_len(s.drop_last());
    }
}

/// The temporaries after running straight-line code from `m`: each
/// `Binary` sets its result; nothing else touches temporaries.
pub open spec fn run_straight(s: Seq<InstV>, m: Map<u64, i32>) -> Map<u64, i32>
    decreases s.len(),
{
    if s.len() == 0 {
        m
    } else {
        let m1 = run_straight(s.drop_last(), m);
        match s.last() {
            InstV::Binary(d, op, a, b) => m1.insert(d, ir_value(op, operand_value(m1, a), operand_value(m1, b))),
            _ => m1,
        }
    }
}

/// An operand's value given the temporaries `m`.
pub open spec fn operand_value(m: Map<u64, i32>, o: Operand) -> i32 {
    match o {
        Operand::Imm(v) => v,
        Operand::Temp(t) => m[t],
        Operand::Arg(_) => 0,
    }
}

/// A constant expression built from numbers, names bound to constants,
/// and every operator but `&&` and `||`.
pub open spec fn arith_const(sc: Seq<ScopeV>, e: Expr) -> bool
    decreases e,
{
    match e {
        Expr::Number(_) => true,
        Expr::LVal(name) => lookup_scopes(sc, name@) matches Some((IdElement::Const(_), _)),
        Expr::UnaryExpr(_, x) => arith_const(sc, *x),
        Expr::BinaryExpr(l, op, r) => op != BinaryOp::And && op != BinaryOp::Or && arith_const(sc, *l)
            && arith_const(sc, *r),
        Expr::Func(_, _) => false,
    }
}

proof fn lemma_run_concat(a: Seq<InstV>, b: Seq<InstV>, m: Map<u64, i32>)
    ensures
        run_straight(a + b, m) == run_straight(b, run_straight(a, m)),
    decreases b.len(),
{
    if b.len() == 0 {
        assert(a + b =~= a);
    } else {
        assert((a + b).drop_last() =~= a + b.drop_last());
        assert((a + b).last() == b.last());
        lemma_run_concat(a, b.drop_last(), m);
    }
}

/// Running code that defines only temporaries from `lo` up leaves the ones
/// below `lo` alone.
proof fn lemma_run_keeps(s: Seq<InstV>, m: Map<u64, i32>, lo: u64, hi: u64, t: u64)
    requires
        fresh_temps(s, lo, hi),
        t < lo,
    ensures
        run_straight(s, m)[t] == m[t],
    decreases s.len(),
{
    if s.len() > 0 {
        let p = s.drop_last();
        assert(fresh_temps(p, lo, hi)) by {
            assert forall|k: int| 0 <= k < p.len() && (#[trigger] def_of(p[k])) is Some
                implies lo <= def_of(p[k])->0 < hi by {
                assert(p[k] == s[k]);
            }
            assert forall|j: int, k: int| 0 <= j < k < p.len() && (#[trigger] def_of(p[j])) is Some
                && (#[trigger] def_of(p[k])) is Some implies def_of(p[j])->0 < def_of(p[k])->0 by {
                assert(p[k] == s[k] && p[j] == s[j]);
            }
        }
        lemma_run_keeps(p, m, lo, hi, t);
        assert(s.last() == s[s.len() - 1]);
        if let InstV::Binary(d, _, _, _) = s.last() {
            assert(def_of(s[s.len() - 1]) == Some(d));
        }
    }
}

/// The operand lowering returns is an immediate or a temporary it defined.
proof fn lemma_result_operand(c: Context, sc: Seq<ScopeV>, fs: Sigs, e: Expr)
    requires
        arith_const(sc, e),
        lower_expr(c, sc, fs, e) is Ok,
    ensures
        ({
            let (s, v, c1) = lower_expr(c, sc, fs, e)->Ok_0;
            &&& v is Arg ==> false
            &&& v matches Operand::Temp(t) ==> c.temp <= t < c1.temp
        }),
    decreases e,
{
    lemma_expr_step(c, sc, fs, e);
    match e {
        Expr::UnaryExpr(op, x) => {
            lemma_result_operand(c, sc, fs, *x);
            lemma_expr_step(c, sc, fs, *x);
        },
        Expr::BinaryExpr(l, op, r) => {
            lemma_expr_step(c, sc, fs, *l);
            let (sl, vl, c1) = lower_expr(c, sc, fs, *l)->Ok_0;
            lemma_expr_step(c1, sc, fs, *r);
        },
        _ => {},
    }
}

/// Constant folding agrees with the code lowering emits: for a constant
/// expression without `&&` / `||`, running its lowered code from any
/// temporaries leaves the folded value in the result operand. (The two
/// short-circuit operators are covered by `law_short_circuit_value`.)
pub proof fn law_fold_agrees_with_code(c: Context, sc: Seq<ScopeV>, fs: Sigs, e: Expr, m: Map<u64, i32>)
    requires
        arith_const(sc, e),
        lower_expr(c, sc, fs, e) is Ok,
    ensures
        const_value(sc, e) is Ok,
        ({
            let (s, v, c1) = lower_expr(c, sc, fs, e)->Ok_0;
            operand_value(run_straight(s, m), v) == const_value(sc, e)->Ok_0
        }),
    decreases e,
{
    match e {
        Expr::Number(_) => {},
        Expr::LVal(_) => {},
        Expr::UnaryExpr(op, x) => {
            law_fold_agrees_with_code(c, sc, fs, *x, m);
            lemma_result_operand(c, sc, fs, *x);
            let (sx, vx, c1) = lower_expr(c, sc, fs, *x)->Ok_0;
            if let Some((t, c2)) = next_temp(c1) {
                let i1 = InstV::Binary(t, IrBinOp::Sub, Operand::Imm(0), vx);
                let i2 = InstV::Binary(t, IrBinOp::Eq, Operand::Imm(0), vx);
                assert(sx.push(i1).drop_last() =~= sx);
                assert(sx.push(i2).drop_last() =~= sx);
            }
        },
        Expr::BinaryExpr(l, op, r) => {
            law_fold_agrees_with_code(c, sc, fs, *l, m);
            lemma_result_operand(c, sc, fs, *l);
            lemma_expr_step(c, sc, fs, *l);
            let (sl, vl, c1) = lower_expr(c, sc, fs, *l)->Ok_0;
            let ml = run_straight(sl, m);
            law_fold_agrees_with_code(c1, sc, fs, *r, ml);
            lemma_result_operand(c1, sc, fs, *r);
            lemma_expr_step(c1, sc, fs, *r);
            let (sr, vr, c2) = lower_expr(c1, sc, fs, *r)->Ok_0;
            lemma_run_concat(sl, sr, m);
            if let Operand::Temp(tl) = vl {
                lemma_run_keeps(sr, ml, c1.temp, c2.temp, tl);
            }
            law_fold_agrees_with_ir(op, operand_value(ml, vl), operand_value(run_straight(sr, ml), vr));
            if let Some((t, c3)) = next_temp(c2) {
                let bi = binary_inst(t, op, vl, vr);
                assert((sl + sr).push(bi).drop_last() =~= sl + sr);
                assert((sl + sr).push(bi).last() == bi);
            }
        },
        Expr::Func(_, _) => {},
    }
}

/// Expressions whose lowering is an immediate: literals, names bound to
/// constants, and unary `+` of those.
pub open spec fn immediate_expr(sc: Seq<ScopeV>, e: Expr) -> bool
    decreases e,
{
    match e {
        Expr::Number(_) => true,
        Expr::LVal(name) => lookup_scopes(sc, name@) matches Some((IdElement::Const(_), _)),
        Expr::UnaryExpr(UnaryOp::Plus, x) => immediate_expr(sc, *x),
        _ => false,
    }
}

/// An expression lowers to an immediate operand and no code exactly when it
/// is a literal or a constant (possibly under unary `+`); otherwise its code
/// is non-empty and its last instruction defines the operand temporary.
pub proof fn law_result_operand(c: Context, sc: Seq<ScopeV>, fs: Sigs, e: Expr)
    requires
        lower_expr(c, sc, fs, e) is Ok,
    ensures
        ({
            let (s, v, c1) = lower_expr(c, sc, fs, e)->Ok_0;
            &&& (v is Imm) <==> immediate_expr(sc, e)
            &&& (v is Imm) <==> s.len() == 0
            &&& s.len() > 0 ==> (v matches Operand::Temp(t) && def_of(s.last()) == Some(t))
        }),
    decreases e,
{
    match e {
        Expr::UnaryExpr(op, x) => {
            law_result_operand(c, sc, fs, *x);
        },
        Expr::BinaryExpr(l, op, r) => {
            let (sl, vl, c1) = lower_expr(c, sc, fs, *l)->Ok_0;
            if op == BinaryOp::And || op == BinaryOp::Or {
                let is_or = op == BinaryOp::Or;
                let (t1, d, k, t2, c2) = short_head(c1, is_or)->Some_0;
                let (sr, vr, c3) = lower_expr(c2, sc, fs, *r)->Ok_0;
                let (t3, t4, c4) = short_tail(c3)->Some_0;
                let tl = short_tail_code(is_or, vr, k, d, t3, t4);
                let all = sl + short_head_code(is_or, vl, t1, d, k, t2) + sr + tl;
                assert(all.last() == tl.last());
            }
        },
        _ => {},
    }
}

/// The number a label carries.
pub open spec fn label_id(l: Label) -> u64 {
    match l {
        Label::Then(k) => k,
        Label::Else(k) => k,
        Label::End(k) => k,
        Label::WhileEntry(k) => k,
        Label::WhileBody(k) => k,
        Label::WhileEnd(k) => k,
        Label::AndIf(k) => k,
        Label::AndEnd(k) => k,
        Label::OrIf(k) => k,
        Label::OrEnd(k) => k,
    }
}

/// `i` opens block `l` or may transfer control to it.
pub open spec fn mentions(i: InstV, l: Label) -> bool {
    match i {
        InstV::Label(m) => m == l,
        InstV::Jump(m) => m == l,
        InstV::Branch(_, t, f) => t == l || f == l,
        _ => false,
    }
}

/// Every label that `s` mentions is numbered in `[lo, hi)`.
pub open spec fn labels_in(s: Seq<InstV>, lo: u64, hi: u64) -> bool {
    forall|j: int, l: Label| 0 <= j < s.len() && #[trigger] mentions(s[j], l) ==> lo <= label_id(l) < hi
}

proof fn lemma_labels_concat(a: Seq<InstV>, b: Seq<InstV>, lo: u64, hi: u64)
    requires
        labels_in(a, lo, hi),
        labels_in(b, lo, hi),
    ensures
        labels_in(a + b, lo, hi),
{
    assert forall|j: int, l: Label| 0 <= j < (a + b).len() && #[trigger] mentions((a + b)[j], l) implies lo <= label_id(l) < hi by {
        if j < a.len() {
            assert((a + b)[j] == a[j]);
        } else {
            assert((a + b)[j] == b[j - a.len()]);
        }
    }
}

proof fn lemma_labels_push(a: Seq<InstV>, i: InstV, lo: u64, hi: u64)
    requires
        labels_in(a, lo, hi),
        forall|l: Label| #[trigger] mentions(i, l) ==> lo <= label_id(l) < hi,
    ensures
        labels_in(a.push(i), lo, hi),
{
    assert forall|j: int, l: Label| 0 <= j < a.push(i).len() && #[trigger] mentions(a.push(i)[j], l) implies lo <= label_id(l) < hi by {
        if j < a.len() {
            assert(a.push(i)[j] == a[j]);
        }
    }
}

proof fn lemma_labels_widen(s: Seq<InstV>, lo: u64, hi: u64, lo2: u64, hi2: u64)
    requires
        labels_in(s, lo, hi),
        lo2 <= lo,
        hi <= hi2,
    ensures
        labels_in(s, lo2, hi2),
{
}

proof fn lemma_short_code_labels(is_or: bool, vl: Operand, vr: Operand, t1: u64, d: u64, k: u64, t2: u64, t3: u64, t4: u64)
    requires
        k < u64::MAX,
    ensures
        labels_in(short_head_code(is_or, vl, t1, d, k, t2), k, (k + 1) as u64),
        labels_in(short_tail_code(is_or, vr, k, d, t3, t4), k, (k + 1) as u64),
{
    let h = short_head_code(is_or, vl, t1, d, k, t2);
    let tl = short_tail_code(is_or, vr, k, d, t3, t4);
    assert forall|j: int, m: Label| 0 <= j < h.len() && #[trigger] mentions(h[j], m) implies k <= label_id(m) < k + 1 by {
        if is_or {
            assert(h.len() == 6);
        } else {
            assert(h.len() == 5);
        }
    }
    assert forall|j: int, m: Label| 0 <= j < tl.len() && #[trigger] mentions(tl[j], m) implies k <= label_id(m) < k + 1 by {
        assert(tl.len() == 5);
    }
}

/// Lowered expression code mentions only labels numbered by the counter
/// values it took.
#[verifier::rlimit(60)]
pub proof fn lemma_expr_labels(c: Context, sc: Seq<ScopeV>, fs: Sigs, e: Expr)
    ensures
        lower_expr(c, sc, fs, e) matches Ok((s, _, c1)) ==> c.label <= c1.label && labels_in(s, c.label, c1.label),
    decreases e, 1nat, 0nat,
{
    lemma_expr_step(c, sc, fs, e);
    match e {
        Expr::UnaryExpr(op, x) => {
            lemma_expr_labels(c, sc, fs, *x);
            if let Ok((s, v, c1)) = lower_expr(c, sc, fs, *x) {
                if let Some((t, c2)) = next_temp(c1) {
                    lemma_labels_push(s, InstV::Binary(t, IrBinOp::Sub, Operand::Imm(0), v), c.label, c1.label);
                    lemma_labels_push(s, InstV::Binary(t, IrBinOp::Eq, Operand::Imm(0), v), c.label, c1.label);
                }
            }
        },
        Expr::BinaryExpr(l, op, r) => {
            lemma_expr_labels(c, sc, fs, *l);
            if let Ok((sl, vl, c1)) = lower_expr(c, sc, fs, *l) {
                if op == BinaryOp::And || op == BinaryOp::Or {
                    let is_or = op == BinaryOp::Or;
                    if let Some((t1, d, k, t2, c2)) = short_head(c1, is_or) {
                        lemma_expr_labels(c2, sc, fs, *r);
                        lemma_expr_step(c2, sc, fs, *r);
                        if let Ok((sr, vr, c3)) = lower_expr(c2, sc, fs, *r) {
                            if let Some((t3, t4, c4)) = short_tail(c3) {
                                let h = short_head_code(is_or, vl, t1, d, k, t2);
                                let tl = short_tail_code(is_or, vr, k, d, t3, t4);
                                let lo = c.label;
                                let hi = c4.label;
                                lemma_short_code_labels(is_or, vl, vr, t1, d, k, t2, t3, t4);
                                lemma_labels_widen(h, k, (k + 1) as u64, lo, hi);
                                lemma_labels_widen(tl, k, (k + 1) as u64, lo, hi);
                                lemma_labels_widen(sl, c.label, c1.label, lo, hi);
                                lemma_labels_widen(sr, c2.label, c3.label, lo, hi);
                                lemma_labels_concat(sl, h, lo, hi);
                                lemma_labels_concat(sl + h, sr, lo, hi);
                                lemma_labels_concat(sl + h + sr, tl, lo, hi);
                            }
                        }
                    }
                } else {
                    lemma_expr_labels(c1, sc, fs, *r);
                    lemma_expr_step(c1, sc, fs, *r);
                    if let Ok((sr, vr, c2)) = lower_expr(c1, sc, fs, *r) {
                        lemma_labels_concat(sl, sr, c.label, c2.label);
                        if let Some((t, c3)) = next_temp(c2) {
                            lemma_labels_push(sl + sr, binary_inst(t, op, vl, vr), c.label, c2.label);
                        }
                    }
                }
            }
        },
        Expr::Func(name, args) => {
            lemma_args_labels(c, sc, fs, e, args@.len());
            if let Ok((s, ops, c1)) = lower_args(c, sc, fs, e, args@.len()) {
                if let Some((t, c2)) = next_temp(c1) {
                    lemma_labels_push(s, InstV::Call(Some(t), name@, ops), c.label, c1.label);
                }
            }
        },
        _ => {},
    }
}

proof fn lemma_args_labels(c: Context, sc: Seq<ScopeV>, fs: Sigs, e: Expr, n: nat)
    ensures
        lower_args(c, sc, fs, e, n) matches Ok((s, _, c1)) ==> c.label <= c1.label && labels_in(s, c.label, c1.label),
    decreases e, 0nat, n,
{
    if let Expr::Func(_, args) = e {
        if n > 0 && n <= args@.len() {
            lemma_args_labels(c, sc, fs, e, (n - 1) as nat);
            if let Ok((s, ops, c1)) = lower_args(c, sc, fs, e, (n - 1) as nat) {
                assert(decreases_to!(e => args));
                assert(decreases_to!(args => args[n - 1]));
                assert(args@[n - 1] == args[n - 1]);
                lemma_expr_labels(c1, sc, fs, args@[n - 1]);
                if let Ok((s2, v, c2)) = lower_expr(c1, sc, fs, args@[n - 1]) {
                    lemma_labels_concat(s, s2, c.label, c2.label);
                }
            }
        }
    }
}

/// In `a && b` and `a || b`, the block of `b`'s code is entered only by the
/// branch on `a`'s truth value: of the whole lowered code, that branch and
/// the block's own label are the only instructions that mention it.
pub proof fn law_short_circuit_entry(c: Context, sc: Seq<ScopeV>, fs: Sigs, l: Box<Expr>, op: BinaryOp, r: Box<Expr>)
    requires
        op == BinaryOp::And || op == BinaryOp::Or,
        lower_expr(c, sc, fs, Expr::BinaryExpr(l, op, r)) is Ok,
    ensures
        ({
            let is_or = op == BinaryOp::Or;
            let (sl, vl, c1) = lower_expr(c, sc, fs, *l)->Ok_0;
            let (t1, d, k, t2, c2) = short_head(c1, is_or)->Some_0;
            let head = short_head_code(is_or, vl, t1, d, k, t2);
            let all = lower_expr(c, sc, fs, Expr::BinaryExpr(l, op, r))->Ok_0.0;
            let if_l = if is_or {
                Label::OrIf(k)
            } else {
                Label::AndIf(k)
            };
            forall|j: int| 0 <= j < all.len() && #[trigger] mentions(all[j], if_l) ==> j == sl.len() + head.len() - 2
                || j == sl.len() + head.len() - 1
        }),
{
    let is_or = op == BinaryOp::Or;
    let (sl, vl, c1) = lower_expr(c, sc, fs, *l)->Ok_0;
    let (t1, d, k, t2, c2) = short_head(c1, is_or)->Some_0;
    let (sr, vr, c3) = lower_expr(c2, sc, fs, *r)->Ok_0;
    let (t3, t4, c4) = short_tail(c3)->Some_0;
    let head = short_head_code(is_or, vl, t1, d, k, t2);
    let tl = short_tail_code(is_or, vr, k, d, t3, t4);
    let all = sl + head + sr + tl;
    let if_l = if is_or {
        Label::OrIf(k)
    } else {
        Label::AndIf(k)
    };
    lemma_expr_labels(c, sc, fs, *l);
    lemma_expr_labels(c2, sc, fs, *r);
    assert(c2.label == k + 1);
    assert forall|j: int| 0 <= j < all.len() && #[trigger] mentions(all[j], if_l) implies j == sl.len() + head.len() - 2
        || j == sl.len() + head.len() - 1 by {
        if j < sl.len() {
            assert(all[j] == sl[j]);
            assert(mentions(sl[j], if_l));
        } else if j < sl.len() + head.len() {
            assert(all[j] == head[j - sl.len()]);
        } else if j < sl.len() + head.len() + sr.len() {
            assert(all[j] == sr[j - sl.len() - head.len()]);
            assert(mentions(sr[j - sl.len() - head.len()], if_l));
        } else {
            assert(all[j] == tl[j - sl.len() - head.len() - sr.len()]);
        }
    }
}

} // verus!
