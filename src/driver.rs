//! The two pipelines: syntax tree to checked IR text, and syntax tree to
//! RV32 assembly. The IR text is read back by the Koopa IR library, which
//! refuses malformed IR.
use vstd::prelude::*;
use vstd::string::StrSliceExecFns;
use crate::ast::CompUnit;
use crate::ast2ir::{ast2ir, lower_unit, lowered_from};
use crate::error::CompileError;
use crate::ir::{Inst, InstV, IrFunction, IrProgram, Label, Symbol, SymbolV};
use crate::ir_text::{ir_to_string, program_text};
use crate::riscv::{asm_text, fits, ir2riscv, resolves};

verus! {

/// Whether the Koopa IR reader accepts `text` as a program.
pub uninterp spec fn koopa_accepts(text: Seq<char>) -> bool;

/// Every call in `p` passes as many arguments as each function of that
/// name takes.
pub open spec fn call_arity_ok(p: IrProgram) -> bool {
    forall|i: int, k: int| 0 <= i < p.funcs@.len() && 0 <= k < p.funcs@[i].body@.len()
        ==> call_fits(p, #[trigger] p.funcs@[i].body@[k]@)
}

pub open spec fn call_fits(p: IrProgram, inst: InstV) -> bool {
    inst matches InstV::Call(_, f, args) ==> forall|g: int| 0 <= g < p.funcs@.len() && #[trigger] p.funcs@[g].name@ == f
        ==> p.funcs@[g].n_params == args.len()
}

/// `f`'s body defines the label `l`.
pub open spec fn has_label(f: IrFunction, l: Label) -> bool {
    exists|j: int| 0 <= j < f.body@.len() && #[trigger] f.body@[j]@ == InstV::Label(l)
}

/// The targets of `i`, a branch or jump of `f`, are labels of `f`.
pub open spec fn target_ok(f: IrFunction, i: InstV) -> bool {
    match i {
        InstV::Branch(_, t, e) => has_label(f, t) && has_label(f, e),
        InstV::Jump(l) => has_label(f, l),
        _ => true,
    }
}

/// Every branch and jump of `p` goes to a label of its own function.
pub open spec fn targets_ok(p: IrProgram) -> bool {
    forall|i: int, k: int| 0 <= i < p.funcs@.len() && 0 <= k < p.funcs@[i].body@.len()
        ==> target_ok(p.funcs@[i], #[trigger] p.funcs@[i].body@[k]@)
}

pub open spec fn ident_char(c: char) -> bool {
    ('a' <= c <= 'z') || ('A' <= c <= 'Z') || ('0' <= c <= '9') || c == '_'
}

/// An identifier: non-empty, ASCII letters, digits and `_`, not starting
/// with a digit.
pub open spec fn is_ident(s: Seq<char>) -> bool {
    &&& s.len() > 0
    &&& !('0' <= s[0] <= '9')
    &&& forall|i: int| 0 <= i < s.len() ==> ident_char(#[trigger] s[i])
}

/// The names `i` prints are identifiers.
pub open spec fn inst_names_ok(i: InstV) -> bool {
    match i {
        InstV::Alloc(SymbolV::Var(n, _)) => is_ident(n),
        InstV::Load(_, SymbolV::Var(n, _)) => is_ident(n),
        InstV::Store(_, SymbolV::Var(n, _)) => is_ident(n),
        InstV::Call(_, f, _) => is_ident(f),
        _ => true,
    }
}

/// Every function, variable and callee name of `p` is an identifier.
pub open spec fn names_ok(p: IrProgram) -> bool {
    &&& forall|i: int| 0 <= i < p.funcs@.len() ==> is_ident(#[trigger] p.funcs@[i].name@)
    &&& forall|i: int, k: int| 0 <= i < p.funcs@.len() && 0 <= k < p.funcs@[i].body@.len()
        ==> inst_names_ok(#[trigger] p.funcs@[i].body@[k]@)
}

/// Text printed from a program whose names are identifiers, whose calls
/// match their callees' arity, and whose branches and jumps go to labels
/// that exist.
pub open spec fn koopa_safe(text: Seq<char>) -> bool {
    exists|p: IrProgram| #[trigger] program_text(p) == text && names_ok(p) && call_arity_ok(p) && targets_ok(p)
}

/// The IR of `p` is well-formed and the IR reader accepts its text.
pub open spec fn ir_ok(p: IrProgram) -> bool {
    names_ok(p) && call_arity_ok(p) && targets_ok(p) && koopa_accepts(program_text(p))
}

/// Relies on `koopa::front::Driver::generate_program` (koopa 0.0.10), fed by
/// `Driver::from(&str)`: it parses the text and builds the program, and
/// returns `Err` for text that is not valid Koopa IR. The verdict depends
/// on the text alone. Its reader does not compare a call's argument count
/// with the callee's (the comparison in `generate_args` is of a length with
/// itself), and the IR builder then panics; it also panics on a branch or
/// jump to a block that does not exist (`init_local_bbs` unwraps the
/// lookup). `requires` leaves such text out, and asks that every name be an
/// identifier, so that no name can carry IR text of its own.
#[verifier::external_body]
fn koopa_reads(text: &str) -> (r: bool)
    requires
        koopa_safe(text@),
    ensures
        r == koopa_accepts(text@),
{
    koopa::front::Driver::from(text).generate_program().is_ok()
}

/// Passes IR text on where the IR reader accepted it (`accepted`), and
/// reports malformed IR otherwise.
pub fn check_ir_text(text: String, accepted: bool) -> (r: Result<String, CompileError>)
    ensures
        accepted ==> r == Ok::<String, CompileError>(text),
        !accepted ==> r == Err::<String, CompileError>(CompileError::MalformedIr),
{
    if accepted {
        Ok(text)
    } else {
        Err(CompileError::MalformedIr)
    }
}

/// Whether every call in `p` passes as many arguments as its callee takes.
pub fn check_call_arity(p: &IrProgram) -> (r: bool)
    ensures
        r == call_arity_ok(*p),
{
    let mut i: usize = 0;
    while i < p.funcs.len()
        invariant
            i <= p.funcs@.len(),
            forall|i2: int, k: int| 0 <= i2 < i && 0 <= k < p.funcs@[i2].body@.len()
                ==> call_fits(*p, #[trigger] p.funcs@[i2].body@[k]@),
        decreases p.funcs@.len() - i,
    {
        let body = &p.funcs[i].body;
        let mut k: usize = 0;
        while k < body.len()
            invariant
                i < p.funcs@.len(),
                body == &p.funcs@[i as int].body,
                k <= body@.len(),
                forall|i2: int, k2: int| 0 <= i2 < i && 0 <= k2 < p.funcs@[i2].body@.len()
                    ==> call_fits(*p, #[trigger] p.funcs@[i2].body@[k2]@),
                forall|k2: int| 0 <= k2 < k ==> call_fits(*p, #[trigger] body@[k2]@),
            decreases body@.len() - k,
        {
            if let Inst::Call(_, f, args) = &body[k] {
                let mut g: usize = 0;
                while g < p.funcs.len()
                    invariant
                        g <= p.funcs@.len(),
                        i < p.funcs@.len(),
                        k < body@.len(),
                        body == &p.funcs@[i as int].body,
                        body@[k as int]@ is Call,
                        body@[k as int]@->Call_1 == f@,
                        body@[k as int]@->Call_2 == args@,
                        forall|g2: int| 0 <= g2 < g && #[trigger] p.funcs@[g2].name@ == f@
                            ==> p.funcs@[g2].n_params == args@.len(),
                    decreases p.funcs@.len() - g,
                {
                    if p.funcs[g].name == *f && p.funcs[g].n_params != args.len() as u64 {
                        assert(p.funcs@[g as int].name@ == f@);
                        assert(!call_fits(*p, p.funcs@[i as int].body@[k as int]@));
                        return false;
                    }
                    g = g + 1;
                }
            }
            k = k + 1;
        }
        i = i + 1;
    }
    true
}

fn label_defined(body: &Vec<Inst>, l: Label) -> (r: bool)
    ensures
        r == exists|j: int| 0 <= j < body@.len() && #[trigger] body@[j]@ == InstV::Label(l),
{
    let mut j: usize = 0;
    while j < body.len()
        invariant
            j <= body@.len(),
            forall|j2: int| 0 <= j2 < j ==> #[trigger] body@[j2]@ != InstV::Label(l),
        decreases body@.len() - j,
    {
        if let Inst::Label(m) = &body[j] {
            if *m == l {
                assert(body@[j as int]@ == InstV::Label(l));
                return true;
            }
        }
        j = j + 1;
    }
    false
}

/// Whether every branch and jump of `p` goes to a label of its function.
pub fn check_targets(p: &IrProgram) -> (r: bool)
    ensures
        r == targets_ok(*p),
{
    let mut i: usize = 0;
    while i < p.funcs.len()
        invariant
            i <= p.funcs@.len(),
            forall|i2: int, k: int| 0 <= i2 < i && 0 <= k < p.funcs@[i2].body@.len()
                ==> target_ok(p.funcs@[i2], #[trigger] p.funcs@[i2].body@[k]@),
        decreases p.funcs@.len() - i,
    {
        let f = &p.funcs[i];
        let mut k: usize = 0;
        while k < f.body.len()
            invariant
                i < p.funcs@.len(),
                *f == p.funcs@[i as int],
                k <= f.body@.len(),
                forall|i2: int, k2: int| 0 <= i2 < i && 0 <= k2 < p.funcs@[i2].body@.len()
                    ==> target_ok(p.funcs@[i2], #[trigger] p.funcs@[i2].body@[k2]@),
                forall|k2: int| 0 <= k2 < k ==> target_ok(*f, #[trigger] f.body@[k2]@),
            decreases f.body@.len() - k,
        {
            let ok = match &f.body[k] {
                Inst::Branch(_, t, e) => label_defined(&f.body, *t) && label_defined(&f.body, *e),
                Inst::Jump(l) => label_defined(&f.body, *l),
                _ => true,
            };
            if !ok {
                assert(!target_ok(p.funcs@[i as int], p.funcs@[i as int].body@[k as int]@));
                return false;
            }
            k = k + 1;
        }
        i = i + 1;
    }
    true
}

/// Whether `s` is an identifier.
pub fn check_ident(s: &String) -> (r: bool)
    ensures
        r == is_ident(s@),
{
    let t = s.as_str();
    let n = t.unicode_len();
    if n == 0 {
        return false;
    }
    let c0 = t.get_char(0);
    if '0' <= c0 && c0 <= '9' {
        return false;
    }
    let mut i: usize = 0;
    while i < n
        invariant
            i <= n,
            n == s@.len(),
            t@ == s@,
            forall|j: int| 0 <= j < i ==> ident_char(#[trigger] s@[j]),
        decreases n - i,
    {
        let c = t.get_char(i);
        if !(('a' <= c && c <= 'z') || ('A' <= c && c <= 'Z') || ('0' <= c && c <= '9') || c == '_') {
            assert(!ident_char(s@[i as int]));
            return false;
        }
        i = i + 1;
    }
    true
}

fn check_inst_names(i: &Inst) -> (r: bool)
    ensures
        r == inst_names_ok(i@),
{
    match i {
        Inst::Alloc(Symbol::Var(n, _)) => check_ident(n),
        Inst::Load(_, Symbol::Var(n, _)) => check_ident(n),
        Inst::Store(_, Symbol::Var(n, _)) => check_ident(n),
        Inst::Call(_, f, _) => check_ident(f),
        _ => true,
    }
}

/// Whether every function, variable and callee name of `p` is an identifier.
pub fn check_names(p: &IrProgram) -> (r: bool)
    ensures
        r == names_ok(*p),
{
    let mut i: usize = 0;
    while i < p.funcs.len()
        invariant
            i <= p.funcs@.len(),
            forall|i2: int| 0 <= i2 < i ==> is_ident(#[trigger] p.funcs@[i2].name@),
            forall|i2: int, k: int| 0 <= i2 < i && 0 <= k < p.funcs@[i2].body@.len()
                ==> inst_names_ok(#[trigger] p.funcs@[i2].body@[k]@),
        decreases p.funcs@.len() - i,
    {
        let f = &p.funcs[i];
        if !check_ident(&f.name) {
            return false;
        }
        let mut k: usize = 0;
        while k < f.body.len()
            invariant
                i < p.funcs@.len(),
                *f == p.funcs@[i as int],
                k <= f.body@.len(),
                forall|i2: int, k2: int| 0 <= i2 < i && 0 <= k2 < p.funcs@[i2].body@.len()
                    ==> inst_names_ok(#[trigger] p.funcs@[i2].body@[k2]@),
                forall|k2: int| 0 <= k2 < k ==> inst_names_ok(#[trigger] f.body@[k2]@),
            decreases f.body@.len() - k,
        {
            if !check_inst_names(&f.body[k]) {
                assert(!inst_names_ok(p.funcs@[i as int].body@[k as int]@));
                return false;
            }
            k = k + 1;
        }
        i = i + 1;
    }
    true
}

/// The IR text of `p`, checked by the IR reader. A name that is not an
/// identifier is refused first; a call whose argument count differs from
/// its callee's, or a branch or jump to a missing label, makes the IR
/// malformed.
pub fn ir_text_checked(p: &IrProgram) -> (r: Result<String, CompileError>)
    ensures
        ir_ok(*p) ==> (r matches Ok(t) && t@ == program_text(*p)),
        !names_ok(*p) ==> r == Err::<String, CompileError>(CompileError::BadName),
        names_ok(*p) && !ir_ok(*p) ==> r == Err::<String, CompileError>(CompileError::MalformedIr),
{
    if !check_names(p) {
        return Err(CompileError::BadName);
    }
    if !check_call_arity(p) || !check_targets(p) {
        return Err(CompileError::MalformedIr);
    }
    let text = ir_to_string(p);
    assert(koopa_safe(text@));
    let accepted = koopa_reads(text.as_str());
    check_ir_text(text, accepted)
}

/// What compiling `p` to IR text gives: `BadName` where a name is not an
/// identifier, `MalformedIr` where the IR is otherwise refused, else its text.
pub open spec fn koopa_outcome(p: IrProgram, r: Result<String, CompileError>) -> bool {
    &&& ir_ok(p) ==> (r matches Ok(t) && t@ == program_text(p))
    &&& !names_ok(p) ==> r == Err::<String, CompileError>(CompileError::BadName)
    &&& names_ok(p) && !ir_ok(p) ==> r == Err::<String, CompileError>(CompileError::MalformedIr)
}

/// What compiling `p` to assembly gives: the IR checks as above, then
/// success exactly when every function fits and resolves in its frame, with
/// the assembly text `asm_text(p)`; every branch and jump of `p` then goes
/// to a label of its function.
pub open spec fn riscv_outcome(p: IrProgram, r: Result<String, CompileError>) -> bool {
    &&& !names_ok(p) ==> r == Err::<String, CompileError>(CompileError::BadName)
    &&& names_ok(p) && !ir_ok(p) ==> r == Err::<String, CompileError>(CompileError::MalformedIr)
    &&& ir_ok(p) ==> ((r is Ok) <==> forall|i: int| 0 <= i < p.funcs@.len() ==> fits(#[trigger] p.funcs@[i]) && resolves(p.funcs@[i]))
    &&& ir_ok(p) && r is Err ==> (r == Err::<String, CompileError>(CompileError::TooLarge) || r == Err::<String, CompileError>(CompileError::MalformedIr))
    &&& r matches Ok(t) ==> t@ == asm_text(p) && targets_ok(p) && ir_ok(p)
}

/// Compiles a unit to IR text: lowering, printing, and reading back.
pub fn emit_koopa(ast: &CompUnit) -> (r: Result<String, CompileError>)
    ensures
        lower_unit(ast.func_defs@) matches Err(er) ==> r == Err::<String, CompileError>(er),
        lower_unit(ast.func_defs@) is Ok ==> exists|p: IrProgram| #[trigger] lowered_from(p, *ast) && koopa_outcome(p, r),
{
    let p = ast2ir(ast)?;
    let r = ir_text_checked(&p);
    assert(lowered_from(p, *ast) && koopa_outcome(p, r));
    r
}

/// Compiles a unit to RV32 assembly: lowering, a check of the IR text by
/// the IR reader, and code generation.
pub fn emit_riscv(ast: &CompUnit) -> (r: Result<String, CompileError>)
    ensures
        lower_unit(ast.func_defs@) matches Err(er) ==> r == Err::<String, CompileError>(er),
        lower_unit(ast.func_defs@) is Ok ==> exists|p: IrProgram| #[trigger] lowered_from(p, *ast) && riscv_outcome(p, r),
{
    let p = ast2ir(ast)?;
    let checked = ir_text_checked(&p);
    let r = match checked {
        Err(er) => Err(er),
        Ok(_) => ir2riscv(&p),
    };
    assert(lowered_from(p, *ast) && riscv_outcome(p, r));
    r
}

} // verus!
