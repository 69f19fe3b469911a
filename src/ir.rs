//! The intermediate representation: functions whose bodies are a flat stream
//! of instructions and block labels, with `%entry` opening the stream.
use vstd::prelude::*;

verus! {

/// The IR opcodes that lowering uses.
#[derive(Debug, Clone, Copy, PartialEq, Eq, Structural)]
pub enum IrBinOp {
    Add,
    Sub,
    Mul,
    Div,
    Mod,
    Eq,
    Ne,
    Lt,
    Le,
}

/// Basic-block labels, each numbered by the construct that opened it.
#[derive(Debug, Clone, Copy, PartialEq, Eq, Structural)]
pub enum Label {
    Then(u64),
    Else(u64),
    End(u64),
    WhileEntry(u64),
    WhileBody(u64),
    WhileEnd(u64),
    AndIf(u64),
    AndEnd(u64),
    OrIf(u64),
    OrEnd(u64),
}

/// An instruction operand: an immediate, an SSA temporary `%N`, or the
/// function's `i`-th incoming parameter `%argI`.
#[derive(Debug, Clone, Copy, PartialEq, Eq, Structural)]
pub enum Operand {
    Imm(i32),
    Temp(u64),
    Arg(u64),
}

/// A named storage slot: a source variable mangled with its scope number
/// (`@x_3`), or a scratch slot of a short-circuit operator (`@tmp7`).
#[derive(Debug)]
pub enum Symbol {
    Var(String, u64),
    Tmp(u64),
}

#[derive(Debug)]
pub enum Inst {
    Binary(u64, IrBinOp, Operand, Operand),
    Alloc(Symbol),
    Load(u64, Symbol),
    Store(Operand, Symbol),
    Call(Option<u64>, String, Vec<Operand>),
    Branch(Operand, Label, Label),
    Jump(Label),
    Ret(Option<Operand>),
    Label(Label),
}

/// A function: name without `@`, parameter count, return kind, and body.
#[derive(Debug)]
pub struct IrFunction {
    pub name: String,
    pub n_params: u64,
    pub returns_int: bool,
    pub body: Vec<Inst>,
}

#[derive(Debug)]
pub struct IrProgram {
    pub funcs: Vec<IrFunction>,
}

pub enum SymbolV {
    Var(Seq<char>, u64),
    Tmp(u64),
}

pub enum InstV {
    Binary(u64, IrBinOp, Operand, Operand),
    Alloc(SymbolV),
    Load(u64, SymbolV),
    Store(Operand, SymbolV),
    Call(Option<u64>, Seq<char>, Seq<Operand>),
    Branch(Operand, Label, Label),
    Jump(Label),
    Ret(Option<Operand>),
    Label(Label),
}

impl View for Symbol {
    type V = SymbolV;

    open spec fn view(&self) -> SymbolV {
        match self {
            Symbol::Var(s, k) => SymbolV::Var(s@, *k),
            Symbol::Tmp(n) => SymbolV::Tmp(*n),
        }
    }
}

impl View for Inst {
    type V = InstV;

    open spec fn view(&self) -> InstV {
        match self {
            Inst::Binary(d, op, a, b) => InstV::Binary(*d, *op, *a, *b),
            Inst::Alloc(s) => InstV::Alloc(s@),
            Inst::Load(d, s) => InstV::Load(*d, s@),
            Inst::Store(v, s) => InstV::Store(*v, s@),
            Inst::Call(d, f, args) => InstV::Call(*d, f@, args@),
            Inst::Branch(c, t, f) => InstV::Branch(*c, *t, *f),
            Inst::Jump(l) => InstV::Jump(*l),
            Inst::Ret(v) => InstV::Ret(*v),
            Inst::Label(l) => InstV::Label(*l),
        }
    }
}

/// The abstract content of an instruction stream.
pub open spec fn insts_view(v: Seq<Inst>) -> Seq<InstV> {
    v.map_values(|i: Inst| i@)
}

pub proof fn lemma_view_push(v: Seq<Inst>, i: Inst)
    ensures
        insts_view(v.push(i)) == insts_view(v).push(i@),
{
    assert(insts_view(v.push(i)) =~= insts_view(v).push(i@));
}

pub proof fn lemma_view_concat(a: Seq<Inst>, b: Seq<Inst>)
    ensures
        insts_view(a + b) == insts_view(a) + insts_view(b),
{
    assert(insts_view(a + b) =~= insts_view(a) + insts_view(b));
}

pub open spec fn is_terminator(i: InstV) -> bool {
    i is Branch || i is Jump || i is Ret
}

pub open spec fn is_label(i: InstV) -> bool {
    i is Label
}

/// Inside the stream, a terminator is always followed by a label, and a
/// label always follows a terminator.
pub open spec fn blocks_split(s: Seq<InstV>) -> bool {
    forall|k: int| 0 <= k < s.len() - 1 ==> (is_terminator(#[trigger] s[k]) <==> is_label(s[k + 1]))
}

/// Code that continues the current block and leaves it open.
pub open spec fn open_code(s: Seq<InstV>) -> bool {
    &&& blocks_split(s)
    &&& s.len() > 0 ==> !is_label(s[0]) && !is_terminator(s.last())
}

/// Code that continues the current block and ends in a terminator.
pub open spec fn closed_code(s: Seq<InstV>) -> bool {
    &&& blocks_split(s)
    &&& s.len() > 0
    &&& !is_label(s[0])
    &&& is_terminator(s.last())
}

/// The SSA temporary an instruction defines, if any.
pub open spec fn def_of(i: InstV) -> Option<u64> {
    match i {
        InstV::Binary(d, _, _, _) => Some(d),
        InstV::Load(d, _) => Some(d),
        InstV::Call(d, _, _) => d,
        _ => None,
    }
}

/// The temporaries defined in `s` lie in `[lo, hi)` and grow strictly along `s`.
pub open spec fn fresh_temps(s: Seq<InstV>, lo: u64, hi: u64) -> bool {
    &&& lo <= hi
    &&& forall|k: int| 0 <= k < s.len() && (#[trigger] def_of(s[k])) is Some
            ==> lo <= def_of(s[k])->0 < hi
    &&& forall|j: int, k: int| 0 <= j < k < s.len() && (#[trigger] def_of(s[j])) is Some
            && (#[trigger] def_of(s[k])) is Some ==> def_of(s[j])->0 < def_of(s[k])->0
}

pub proof fn lemma_fresh_concat(a: Seq<InstV>, b: Seq<InstV>, lo: u64, mid: u64, hi: u64)
    requires
        fresh_temps(a, lo, mid),
        fresh_temps(b, mid, hi),
    ensures
        fresh_temps(a + b, lo, hi),
{
    let s = a + b;
    assert forall|k: int| 0 <= k < s.len() && (#[trigger] def_of(s[k])) is Some
        implies lo <= def_of(s[k])->0 < hi by {
        if k < a.len() {
            assert(s[k] == a[k]);
        } else {
            assert(s[k] == b[k - a.len()]);
        }
    }
    assert forall|j: int, k: int| 0 <= j < k < s.len() && (#[trigger] def_of(s[j])) is Some
        && (#[trigger] def_of(s[k])) is Some implies def_of(s[j])->0 < def_of(s[k])->0 by {
        if k < a.len() {
            assert(s[k] == a[k] && s[j] == a[j]);
        } else if j < a.len() {
            assert(s[k] == b[k - a.len()] && s[j] == a[j]);
        } else {
            assert(s[k] == b[k - a.len()] && s[j] == b[j - a.len()]);
        }
    }
}

pub proof fn lemma_fresh_widen(s: Seq<InstV>, lo: u64, hi: u64, lo2: u64, hi2: u64)
    requires
        fresh_temps(s, lo, hi),
        lo2 <= lo,
        hi <= hi2,
    ensures
        fresh_temps(s, lo2, hi2),
{
}

/// Two pieces of code join without breaking the block structure when the
/// first does not end in a terminator and the second does not start with a label.
pub proof fn lemma_split_concat(a: Seq<InstV>, b: Seq<InstV>)
    requires
        blocks_split(a),
        blocks_split(b),
        a.len() > 0 ==> !is_terminator(a.last()),
        b.len() > 0 ==> !is_label(b[0]),
    ensures
        blocks_split(a + b),
{
    let s = a + b;
    assert forall|k: int| 0 <= k < s.len() - 1 implies (is_terminator(#[trigger] s[k]) <==> is_label(
        s[k + 1],
    )) by {
        if k + 1 < a.len() {
            assert(s[k] == a[k] && s[k + 1] == a[k + 1]);
        } else if k + 1 == a.len() {
            assert(s[k] == a.last() && s[k + 1] == b[0]);
        } else {
            assert(s[k] == b[k - a.len()] && s[k + 1] == b[k + 1 - a.len()]);
        }
    }
}

pub proof fn lemma_open_concat(a: Seq<InstV>, b: Seq<InstV>)
    requires
        open_code(a),
        open_code(b),
    ensures
        open_code(a + b),
{
    lemma_split_concat(a, b);
    if a.len() == 0 {
        assert(a + b =~= b);
    } else if b.len() == 0 {
        assert(a + b =~= a);
    } else {
        assert((a + b)[0] == a[0]);
        assert((a + b).last() == b.last());
    }
}

/// Appending one instruction that defines the next temporary keeps temps fresh.
pub proof fn lemma_fresh_push(s: Seq<InstV>, i: InstV, lo: u64, mid: u64)
    requires
        fresh_temps(s, lo, mid),
        def_of(i) == Some(mid),
        mid < u64::MAX,
    ensures
        fresh_temps(s.push(i), lo, (mid + 1) as u64),
{
    let one = seq![i];
    assert(fresh_temps(one, mid, (mid + 1) as u64)) by {
        assert forall|k: int| 0 <= k < one.len() && (#[trigger] def_of(one[k])) is Some
            implies mid <= def_of(one[k])->0 < mid + 1 by {
            assert(k == 0);
        }
    }
    lemma_fresh_concat(s, one, lo, mid, (mid + 1) as u64);
    assert(s + one =~= s.push(i));
}

/// Appending one instruction that defines nothing keeps temps fresh.
pub proof fn lemma_fresh_push_none(s: Seq<InstV>, i: InstV, lo: u64, hi: u64)
    requires
        fresh_temps(s, lo, hi),
        def_of(i) is None,
    ensures
        fresh_temps(s.push(i), lo, hi),
{
    let t = s.push(i);
    assert forall|k: int| 0 <= k < t.len() && (#[trigger] def_of(t[k])) is Some
        implies lo <= def_of(t[k])->0 < hi by {
        assert(k < s.len());
        assert(t[k] == s[k]);
    }
    assert forall|j: int, k: int| 0 <= j < k < t.len() && (#[trigger] def_of(t[j])) is Some
        && (#[trigger] def_of(t[k])) is Some implies def_of(t[j])->0 < def_of(t[k])->0 by {
        assert(t[k] == s[k] && t[j] == s[j]);
    }
}

/// The temporaries defined along `s` grow strictly.
pub open spec fn temps_increase(s: Seq<InstV>) -> bool {
    forall|j: int, k: int| 0 <= j < k < s.len() && (#[trigger] def_of(s[j])) is Some
        && (#[trigger] def_of(s[k])) is Some ==> def_of(s[j])->0 < def_of(s[k])->0
}

/// A lowered function body: well-formed blocks that all end in a
/// terminator, and temporaries defined in increasing order.
pub open spec fn body_ok(s: Seq<InstV>) -> bool {
    closed_code(s) && temps_increase(s)
}

impl IrFunction {
    pub open spec fn wf(&self) -> bool {
        body_ok(insts_view(self.body@))
    }
}

} // verus!
