//! RV32 code generation with a spill-everywhere discipline: every value
//! lives in a stack slot, operands go through `t0` / `t1`, results are
//! stored back at once.
use vstd::prelude::*;
use crate::error::CompileError;
use crate::ir::{insts_view, Inst, InstV, IrBinOp, IrFunction, IrProgram, Operand, Symbol, SymbolV};
use crate::ir_text::{put_label_name, write_label_name};
use crate::text::{put_int, put_nat, write_i64, write_u64};

verus! {

/// What a stack slot holds: an SSA temporary or a named variable.
#[derive(Debug)]
pub enum SlotKey {
    Temp(u64),
    Sym(Symbol),
}

pub enum SlotKeyV {
    Temp(u64),
    Sym(SymbolV),
}

impl View for SlotKey {
    type V = SlotKeyV;

    open spec fn view(&self) -> SlotKeyV {
        match self {
            SlotKey::Temp(t) => SlotKeyV::Temp(*t),
            SlotKey::Sym(s) => SlotKeyV::Sym(s@),
        }
    }
}

/// A function's stack frame: its size in bytes and the `sp` offset of each
/// slot, first entry for a key winning.
#[derive(Debug)]
pub struct Frame {
    pub size: u64,
    pub max_args: u64,
    pub slots: Vec<(SlotKey, u64)>,
}

pub struct FrameV {
    pub size: nat,
    pub max_args: nat,
    pub slots: Seq<(SlotKeyV, u64)>,
}

impl View for Frame {
    type V = FrameV;

    open spec fn view(&self) -> FrameV {
        FrameV {
            size: self.size as nat,
            max_args: self.max_args as nat,
            slots: self.slots@.map_values(|e: (SlotKey, u64)| (e.0@, e.1)),
        }
    }
}

pub open spec fn find_slot(s: Seq<(SlotKeyV, u64)>, k: SlotKeyV) -> Option<u64>
    decreases s.len(),
{
    if s.len() == 0 {
        None
    } else if s[0].0 == k {
        Some(s[0].1)
    } else {
        find_slot(s.drop_first(), k)
    }
}

/// The most arguments any call in `s` passes.
pub open spec fn max_call_args(s: Seq<InstV>) -> nat
    decreases s.len(),
{
    if s.len() == 0 {
        0
    } else {
        let m = max_call_args(s.drop_last());
        match s.last() {
            InstV::Call(_, _, args) => if args.len() > m {
                args.len()
            } else {
                m
            },
            _ => m,
        }
    }
}

/// Frame size for `n_values` spilled values and `max_args` outgoing
/// arguments, plus the return-address slot, rounded up to 16 bytes.
pub open spec fn frame_size(n_values: nat, max_args: nat) -> nat {
    let raw = 4 * (n_values + max_args) + 4;
    if raw % 16 == 0 {
        raw
    } else {
        (raw + (16 - raw % 16)) as nat
    }
}

/// The slots a body takes, in order: one per `alloc`, one per instruction
/// with a result.
pub open spec fn slot_keys(s: Seq<InstV>) -> Seq<SlotKeyV>
    decreases s.len(),
{
    if s.len() == 0 {
        seq![]
    } else {
        let ks = slot_keys(s.drop_last());
        match s.last() {
            InstV::Alloc(sym) => ks.push(SlotKeyV::Sym(sym)),
            InstV::Binary(t, _, _, _) => ks.push(SlotKeyV::Temp(t)),
            InstV::Load(t, _) => ks.push(SlotKeyV::Temp(t)),
            InstV::Call(Some(t), _, _) => ks.push(SlotKeyV::Temp(t)),
            _ => ks,
        }
    }
}

/// The frame of `f`: the `j`-th slot at `4 * (max_args + j)`.
pub open spec fn layout(f: IrFunction) -> FrameV {
    let body = insts_view(f.body@);
    let m = max_call_args(body);
    let keys = slot_keys(body);
    FrameV {
        size: frame_size(body.len(), m),
        max_args: m,
        slots: Seq::new(keys.len(), |j: int| (keys[j], (4 * m + 4 * j) as u64)),
    }
}

/// Whether `f` can be laid out: its body and its calls have at most
/// `u32::MAX` entries, and so do its parameters.
pub open spec fn fits(f: IrFunction) -> bool {
    f.body@.len() <= u32::MAX && max_call_args(insts_view(f.body@)) <= u32::MAX && f.n_params <= u32::MAX
}

/// Whether every instruction of `f` finds its places in `f`'s frame.
pub open spec fn resolves(f: IrFunction) -> bool {
    forall|k: int| 0 <= k < f.body@.len() ==> inst_ready(layout(f), (#[trigger] f.body@[k])@, f.n_params as nat)
}

/// The layout of a frame for `body`: the size above, and slots that are
/// word-aligned, pairwise distinct, above the outgoing-argument area and
/// below the return-address slot.
pub open spec fn frame_ok(fr: FrameV, body: Seq<InstV>) -> bool {
    &&& fr.max_args == max_call_args(body)
    &&& fr.size == frame_size(body.len(), fr.max_args)
    &&& forall|i: int| 0 <= i < fr.slots.len() ==> {
        let off = (#[trigger] fr.slots[i]).1;
        &&& off % 4 == 0
        &&& 4 * fr.max_args <= off
        &&& off + 4 <= fr.size - 4
    }
    &&& forall|i: int, j: int| 0 <= i < j < fr.slots.len() ==> (#[trigger] fr.slots[i]).1 != (#[trigger] fr.slots[j]).1
}

/// Where an operand is read from: `None` for an immediate.
pub open spec fn operand_slot(fr: FrameV, o: Operand) -> Option<int> {
    match o {
        Operand::Imm(_) => None,
        Operand::Temp(t) => match find_slot(fr.slots, SlotKeyV::Temp(t)) {
            Some(off) => Some(off as int),
            None => None,
        },
        Operand::Arg(i) => Some(fr.size + 4 * i),
    }
}

pub open spec fn operand_resolved(fr: FrameV, o: Operand, n_params: nat) -> bool {
    match o {
        Operand::Imm(_) => true,
        Operand::Temp(t) => find_slot(fr.slots, SlotKeyV::Temp(t)) is Some,
        Operand::Arg(k) => k < n_params,
    }
}

pub open spec fn has_slot(fr: FrameV, k: SlotKeyV) -> bool {
    find_slot(fr.slots, k) is Some
}

/// Every operand, variable and result of `i` has its place in `fr`.
pub open spec fn inst_resolved(fr: FrameV, i: InstV, n_params: nat) -> bool {
    match i {
        InstV::Binary(t, _, a, b) => operand_resolved(fr, a, n_params) && operand_resolved(fr, b, n_params)
            && has_slot(fr, SlotKeyV::Temp(t)),
        InstV::Alloc(_) => true,
        InstV::Load(t, s) => has_slot(fr, SlotKeyV::Sym(s)) && has_slot(fr, SlotKeyV::Temp(t)),
        InstV::Store(v, s) => operand_resolved(fr, v, n_params) && has_slot(fr, SlotKeyV::Sym(s)),
        InstV::Call(d, _, args) => (forall|k: int| 0 <= k < args.len() ==> operand_resolved(fr, #[trigger] args[k], n_params))
            && match d {
            Some(t) => has_slot(fr, SlotKeyV::Temp(t)),
            None => true,
        },
        InstV::Branch(c, _, _) => operand_resolved(fr, c, n_params),
        InstV::Jump(_) => true,
        InstV::Ret(v) => match v {
            Some(v) => operand_resolved(fr, v, n_params),
            None => true,
        },
        InstV::Label(_) => true,
    }
}

/// Loads an operand into register `reg`.
pub open spec fn put_fetch(pre: Seq<char>, reg: Seq<char>, o: Operand, fr: FrameV) -> Seq<char> {
    match o {
        Operand::Imm(c) => put_int(pre + "  li "@ + reg + ", "@, c as int) + "\n"@,
        _ => put_nat(pre + "  lw "@ + reg + ", "@, operand_slot(fr, o)->Some_0 as nat) + "(sp)\n"@,
    }
}

/// `t0 = t0 OP t1`.
pub open spec fn put_binop(pre: Seq<char>, op: IrBinOp) -> Seq<char> {
    match op {
        IrBinOp::Add => pre + "  add t0, t0, t1\n"@,
        IrBinOp::Sub => pre + "  sub t0, t0, t1\n"@,
        IrBinOp::Mul => pre + "  mul t0, t0, t1\n"@,
        IrBinOp::Div => pre + "  div t0, t0, t1\n"@,
        IrBinOp::Mod => pre + "  rem t0, t0, t1\n"@,
        IrBinOp::Eq => pre + "  xor t0, t0, t1\n  seqz t0, t0\n"@,
        IrBinOp::Ne => pre + "  xor t0, t0, t1\n  snez t0, t0\n"@,
        IrBinOp::Lt => pre + "  slt t0, t0, t1\n"@,
        IrBinOp::Le => pre + "  slt t0, t1, t0\n  xori t0, t0, 1\n"@,
    }
}

pub open spec fn slot_of(fr: FrameV, k: SlotKeyV) -> nat {
    find_slot(fr.slots, k)->Some_0 as nat
}

/// Stores register `reg` into the slot of `k`.
pub open spec fn put_spill(pre: Seq<char>, reg: Seq<char>, k: SlotKeyV, fr: FrameV) -> Seq<char> {
    put_nat(pre + "  sw "@ + reg + ", "@, slot_of(fr, k)) + "(sp)\n"@
}

/// Places the first `n` call arguments at `0(sp)`, `4(sp)`, ...
pub open spec fn put_call_args(pre: Seq<char>, args: Seq<Operand>, n: nat, fr: FrameV) -> Seq<char>
    decreases n,
{
    if n == 0 {
        pre
    } else {
        let p = put_fetch(put_call_args(pre, args, (n - 1) as nat, fr), "t0"@, args[n - 1], fr);
        put_nat(p + "  sw t0, "@, 4 * (n - 1) as nat) + "(sp)\n"@
    }
}

pub open spec fn put_epilogue(pre: Seq<char>, fr: FrameV) -> Seq<char> {
    put_nat(put_nat(pre + "  lw ra, "@, (fr.size - 4) as nat) + "(sp)\n  addi sp, sp, "@, fr.size) + "\n  ret\n"@
}

/// The assembly for one instruction.
pub open spec fn put_asm_inst(pre: Seq<char>, i: InstV, fr: FrameV) -> Seq<char> {
    match i {
        InstV::Binary(t, op, a, b) => put_spill(
            put_binop(put_fetch(put_fetch(pre, "t0"@, a, fr), "t1"@, b, fr), op),
            "t0"@,
            SlotKeyV::Temp(t),
            fr,
        ),
        InstV::Alloc(_) => pre,
        InstV::Load(t, s) => put_spill(
            put_nat(pre + "  lw t0, "@, slot_of(fr, SlotKeyV::Sym(s))) + "(sp)\n"@,
            "t0"@,
            SlotKeyV::Temp(t),
            fr,
        ),
        InstV::Store(v, s) => put_spill(put_fetch(pre, "t0"@, v, fr), "t0"@, SlotKeyV::Sym(s), fr),
        InstV::Call(d, f, args) => {
            let p = put_call_args(pre, args, args.len(), fr) + "  call "@ + f + "\n"@;
            match d {
                Some(t) => put_spill(p, "a0"@, SlotKeyV::Temp(t), fr),
                None => p,
            }
        },
        InstV::Branch(c, t, f) => put_label_name(
            put_label_name(put_fetch(pre, "t0"@, c, fr) + "  bnez t0, "@, t) + "\n  j "@,
            f,
        ) + "\n"@,
        InstV::Jump(l) => put_label_name(pre + "  j "@, l) + "\n"@,
        InstV::Ret(v) => match v {
            None => put_epilogue(pre, fr),
            Some(v) => put_epilogue(put_fetch(pre, "a0"@, v, fr), fr),
        },
        InstV::Label(l) => put_label_name(pre, l) + ":\n"@,
    }
}

pub open spec fn put_asm_insts(pre: Seq<char>, s: Seq<InstV>, fr: FrameV) -> Seq<char>
    decreases s.len(),
{
    if s.len() == 0 {
        pre
    } else {
        put_asm_inst(put_asm_insts(pre, s.drop_last(), fr), s.last(), fr)
    }
}

/// A function: its global label, the prologue, then its body.
pub open spec fn put_asm_function(pre: Seq<char>, f: IrFunction, fr: FrameV) -> Seq<char> {
    let head = pre + ".globl "@ + f.name@ + "\n"@ + f.name@ + ":\n  addi sp, sp, -"@;
    let pro = put_nat(put_nat(head, fr.size) + "\n  sw ra, "@, (fr.size - 4) as nat) + "(sp)\n"@;
    put_asm_insts(pro, insts_view(f.body@), fr) + "\n"@
}

pub open spec fn put_asm_functions(pre: Seq<char>, fs: Seq<IrFunction>, frs: Seq<FrameV>) -> Seq<char>
    decreases fs.len(),
{
    if fs.len() == 0 {
        pre
    } else {
        put_asm_function(
            put_asm_functions(pre, fs.drop_last(), frs),
            fs.last(),
            frs[fs.len() - 1],
        )
    }
}

pub open spec fn put_asm_program(fs: Seq<IrFunction>, frs: Seq<FrameV>) -> Seq<char> {
    put_asm_functions(".text\n"@, fs, frs)
}

fn max_args_of(body: &Vec<Inst>) -> (r: u64)
    ensures
        r == max_call_args(insts_view(body@)),
{
    let mut m: u64 = 0;
    let mut i: usize = 0;
    assert(insts_view(body@.subrange(0, 0)) =~= Seq::<InstV>::empty());
    while i < body.len()
        invariant
            i <= body@.len(),
            m == max_call_args(insts_view(body@.subrange(0, i as int))),
        decreases body@.len() - i,
    {
        let ghost next = insts_view(body@.subrange(0, i + 1));
        assert(next.drop_last() =~= insts_view(body@.subrange(0, i as int)));
        assert(next.last() == body@[i as int]@);
        match &body[i] {
            Inst::Call(_, _, args) => {
                if args.len() as u64 > m {
                    m = args.len() as u64;
                }
            },
            _ => {},
        }
        i = i + 1;
    }
    assert(body@.subrange(0, body@.len() as int) =~= body@);
    m
}

/// Lays out the frame of `f`: each `alloc` and each instruction with a
/// result takes the next word above the outgoing-argument area. Fails with
/// `TooLarge` where the body or a call has more than `u32::MAX` entries.
pub fn frame_of(f: &IrFunction) -> (r: Result<Frame, CompileError>)
    ensures
        r matches Ok(fr) ==> frame_ok(fr@, insts_view(f.body@)) && frame_small(fr@) && fr@ == layout(*f),
        r is Err ==> r == Err::<Frame, CompileError>(CompileError::TooLarge),
        (r is Err) <==> (f.body@.len() > u32::MAX || max_call_args(insts_view(f.body@)) > u32::MAX),
{
    let m = max_args_of(&f.body);
    if f.body.len() > u32::MAX as usize || m > u32::MAX as u64 {
        return Err(CompileError::TooLarge);
    }
    let n = f.body.len() as u64;
    let raw = 4 * (n + m) + 4;
    let size = if raw % 16 == 0 {
        raw
    } else {
        raw + (16 - raw % 16)
    };
    let base = 4 * m;
    let mut slots: Vec<(SlotKey, u64)> = Vec::new();
    let mut i: usize = 0;
    while i < f.body.len()
        invariant
            i <= f.body@.len(),
            n == f.body@.len(),
            n <= u32::MAX,
            m <= u32::MAX,
            base == 4 * m,
            size == frame_size(n as nat, m as nat),
            m == max_call_args(insts_view(f.body@)),
            slots@.len() <= i,
            forall|j: int| 0 <= j < slots@.len() ==> (#[trigger] slots@[j]).1 == base + 4 * j,
            slots@.len() == slot_keys(insts_view(f.body@.subrange(0, i as int))).len(),
            forall|j: int| 0 <= j < slots@.len() ==> (#[trigger] slots@[j]).0@ == slot_keys(insts_view(f.body@.subrange(0, i as int)))[j],
        decreases f.body@.len() - i,
    {
        let off = base + 4 * slots.len() as u64;
        let ghost next = insts_view(f.body@.subrange(0, i + 1));
        proof {
            assert(next.drop_last() =~= insts_view(f.body@.subrange(0, i as int)));
            assert(next.last() == f.body@[i as int]@);
        }
        match &f.body[i] {
            Inst::Alloc(Symbol::Var(name, k)) => {
                slots.push((SlotKey::Sym(Symbol::Var(name.clone(), *k)), off));
            },
            Inst::Alloc(Symbol::Tmp(d)) => {
                slots.push((SlotKey::Sym(Symbol::Tmp(*d)), off));
            },
            Inst::Binary(t, _, _, _) => {
                slots.push((SlotKey::Temp(*t), off));
            },
            Inst::Load(t, _) => {
                slots.push((SlotKey::Temp(*t), off));
            },
            Inst::Call(Some(t), _, _) => {
                slots.push((SlotKey::Temp(*t), off));
            },
            _ => {},
        }
        i = i + 1;
    }
    let fr = Frame { size, max_args: m, slots };
    assert(frame_small(fr@));
    assert(f.body@.subrange(0, f.body@.len() as int) =~= f.body@);
    assert(fr@.slots =~= layout(*f).slots);
    assert(frame_ok(fr@, insts_view(f.body@))) by {
        assert forall|i: int| 0 <= i < fr@.slots.len() implies {
            let off = (#[trigger] fr@.slots[i]).1;
            &&& off % 4 == 0
            &&& 4 * fr@.max_args <= off
            &&& off + 4 <= fr@.size - 4
        } by {
            assert(fr@.slots[i].1 == fr.slots@[i].1);
        }
        assert forall|i: int, j: int| 0 <= i < j < fr@.slots.len() implies (#[trigger] fr@.slots[i]).1 != (#[trigger] fr@.slots[j]).1 by {
            assert(fr@.slots[i].1 == fr.slots@[i].1);
            assert(fr@.slots[j].1 == fr.slots@[j].1);
        }
    }
    Ok(fr)
}

/// The slot of temporary `t`.
fn temp_slot(fr: &Frame, t: u64) -> (r: Option<u64>)
    ensures
        r == find_slot(fr@.slots, SlotKeyV::Temp(t)),
{
    let ghost all = fr@.slots;
    let mut i: usize = 0;
    assert(all.subrange(0, all.len() as int) =~= all);
    while i < fr.slots.len()
        invariant
            i <= fr.slots@.len(),
            all == fr@.slots,
            find_slot(all, SlotKeyV::Temp(t)) == find_slot(all.subrange(i as int, all.len() as int), SlotKeyV::Temp(t)),
        decreases fr.slots@.len() - i,
    {
        let ghost rest = all.subrange(i as int, all.len() as int);
        assert(rest.drop_first() =~= all.subrange(i + 1, all.len() as int));
        assert(rest[0] == (fr.slots@[i as int].0@, fr.slots@[i as int].1));
        match &fr.slots[i].0 {
            SlotKey::Temp(x) => {
                if *x == t {
                    return Some(fr.slots[i].1);
                }
            },
            SlotKey::Sym(_) => {},
        }
        i = i + 1;
    }
    None
}

/// The slot of variable `s`.
fn sym_slot(fr: &Frame, s: &Symbol) -> (r: Option<u64>)
    ensures
        r == find_slot(fr@.slots, SlotKeyV::Sym(s@)),
{
    let ghost all = fr@.slots;
    let mut i: usize = 0;
    assert(all.subrange(0, all.len() as int) =~= all);
    while i < fr.slots.len()
        invariant
            i <= fr.slots@.len(),
            all == fr@.slots,
            find_slot(all, SlotKeyV::Sym(s@)) == find_slot(all.subrange(i as int, all.len() as int), SlotKeyV::Sym(s@)),
        decreases fr.slots@.len() - i,
    {
        let ghost rest = all.subrange(i as int, all.len() as int);
        assert(rest.drop_first() =~= all.subrange(i + 1, all.len() as int));
        assert(rest[0] == (fr.slots@[i as int].0@, fr.slots@[i as int].1));
        let same = match (&fr.slots[i].0, s) {
            (SlotKey::Sym(Symbol::Var(a, k)), Symbol::Var(b, l)) => *k == *l && *a == *b,
            (SlotKey::Sym(Symbol::Tmp(a)), Symbol::Tmp(b)) => *a == *b,
            _ => false,
        };
        if same {
            return Some(fr.slots[i].1);
        }
        i = i + 1;
    }
    None
}

/// Offsets stay far from overflow.
pub open spec fn frame_small(fr: FrameV) -> bool {
    4 <= fr.size <= 0x100_0000_0000
}

fn write_fetch(out: &mut String, reg: &str, o: Operand, fr: &Frame, Ghost(n_params): Ghost<nat>)
    requires
        operand_resolved(fr@, o, n_params),
        frame_small(fr@),
        n_params <= u32::MAX,
    ensures
        final(out)@ == put_fetch(old(out)@, reg@, o, fr@),
{
    match o {
        Operand::Imm(c) => {
            out.append("  li ");
            out.append(reg);
            out.append(", ");
            write_i64(out, c as i64);
            out.append("\n");
        },
        Operand::Temp(t) => {
            let off = temp_slot(fr, t).unwrap();
            out.append("  lw ");
            out.append(reg);
            out.append(", ");
            write_u64(out, off);
            out.append("(sp)\n");
        },
        Operand::Arg(k) => {
            out.append("  lw ");
            out.append(reg);
            out.append(", ");
            write_u64(out, fr.size + 4 * k);
            out.append("(sp)\n");
        },
    }
}

fn write_spill_temp(out: &mut String, reg: &str, t: u64, fr: &Frame)
    requires
        has_slot(fr@, SlotKeyV::Temp(t)),
    ensures
        final(out)@ == put_spill(old(out)@, reg@, SlotKeyV::Temp(t), fr@),
{
    let off = temp_slot(fr, t).unwrap();
    out.append("  sw ");
    out.append(reg);
    out.append(", ");
    write_u64(out, off);
    out.append("(sp)\n");
}

fn write_binop(out: &mut String, op: IrBinOp)
    ensures
        final(out)@ == put_binop(old(out)@, op),
{
    match op {
        IrBinOp::Add => out.append("  add t0, t0, t1\n"),
        IrBinOp::Sub => out.append("  sub t0, t0, t1\n"),
        IrBinOp::Mul => out.append("  mul t0, t0, t1\n"),
        IrBinOp::Div => out.append("  div t0, t0, t1\n"),
        IrBinOp::Mod => out.append("  rem t0, t0, t1\n"),
        IrBinOp::Eq => out.append("  xor t0, t0, t1\n  seqz t0, t0\n"),
        IrBinOp::Ne => out.append("  xor t0, t0, t1\n  snez t0, t0\n"),
        IrBinOp::Lt => out.append("  slt t0, t0, t1\n"),
        IrBinOp::Le => out.append("  slt t0, t1, t0\n  xori t0, t0, 1\n"),
    }
}

fn write_epilogue(out: &mut String, fr: &Frame)
    requires
        frame_small(fr@),
    ensures
        final(out)@ == put_epilogue(old(out)@, fr@),
{
    out.append("  lw ra, ");
    write_u64(out, fr.size - 4);
    out.append("(sp)\n  addi sp, sp, ");
    write_u64(out, fr.size);
    out.append("\n  ret\n");
}

fn write_call_args(out: &mut String, args: &Vec<Operand>, fr: &Frame, Ghost(n_params): Ghost<nat>)
    requires
        forall|k: int| 0 <= k < args@.len() ==> operand_resolved(fr@, #[trigger] args@[k], n_params),
        frame_small(fr@),
        n_params <= u32::MAX,
        args@.len() <= u32::MAX,
    ensures
        final(out)@ == put_call_args(old(out)@, args@, args@.len(), fr@),
{
    let ghost pre = out@;
    let mut i: usize = 0;
    while i < args.len()
        invariant
            i <= args@.len(),
            args@.len() <= u32::MAX,
            forall|k: int| 0 <= k < args@.len() ==> operand_resolved(fr@, #[trigger] args@[k], n_params),
            frame_small(fr@),
            n_params <= u32::MAX,
            out@ == put_call_args(pre, args@, i as nat, fr@),
        decreases args@.len() - i,
    {
        write_fetch(out, "t0", args[i], fr, Ghost(n_params));
        out.append("  sw t0, ");
        write_u64(out, 4 * i as u64);
        out.append("(sp)\n");
        i = i + 1;
    }
}

/// Appends the assembly for one instruction.
pub fn write_asm_inst(out: &mut String, i: &Inst, fr: &Frame, Ghost(n_params): Ghost<nat>)
    requires
        inst_resolved(fr@, i@, n_params),
        frame_small(fr@),
        n_params <= u32::MAX,
        i@ matches InstV::Call(_, _, args) ==> args.len() <= u32::MAX,
    ensures
        final(out)@ == put_asm_inst(old(out)@, i@, fr@),
{
    match i {
        Inst::Binary(t, op, a, b) => {
            write_fetch(out, "t0", *a, fr, Ghost(n_params));
            write_fetch(out, "t1", *b, fr, Ghost(n_params));
            write_binop(out, *op);
            write_spill_temp(out, "t0", *t, fr);
        },
        Inst::Alloc(_) => {},
        Inst::Load(t, s) => {
            let off = sym_slot(fr, s).unwrap();
            out.append("  lw t0, ");
            write_u64(out, off);
            out.append("(sp)\n");
            write_spill_temp(out, "t0", *t, fr);
        },
        Inst::Store(v, s) => {
            write_fetch(out, "t0", *v, fr, Ghost(n_params));
            let off = sym_slot(fr, s).unwrap();
            out.append("  sw ");
            out.append("t0");
            out.append(", ");
            write_u64(out, off);
            out.append("(sp)\n");
        },
        Inst::Call(d, f, args) => {
            write_call_args(out, args, fr, Ghost(n_params));
            out.append("  call ");
            out.append(f.as_str());
            out.append("\n");
            match d {
                Some(t) => write_spill_temp(out, "a0", *t, fr),
                None => {},
            }
        },
        Inst::Branch(c, t, f) => {
            write_fetch(out, "t0", *c, fr, Ghost(n_params));
            out.append("  bnez t0, ");
            write_label_name(out, *t);
            out.append("\n  j ");
            write_label_name(out, *f);
            out.append("\n");
        },
        Inst::Jump(l) => {
            out.append("  j ");
            write_label_name(out, *l);
            out.append("\n");
        },
        Inst::Ret(v) => {
            match v {
                Some(v) => write_fetch(out, "a0", *v, fr, Ghost(n_params)),
                None => {},
            }
            write_epilogue(out, fr);
        },
        Inst::Label(l) => {
            write_label_name(out, *l);
            out.append(":\n");
        },
    }
}

/// The frames of `p`'s functions, in order.
pub open spec fn layouts(p: IrProgram) -> Seq<FrameV> {
    p.funcs@.map_values(|f: IrFunction| layout(f))
}

/// The assembly text of `p`.
pub open spec fn asm_text(p: IrProgram) -> Seq<char> {
    put_asm_program(p.funcs@, layouts(p))
}

/// `i` can be emitted in `fr`: all its places resolve, and a call passes
/// at most `u32::MAX` arguments.
pub open spec fn inst_ready(fr: FrameV, i: InstV, n_params: nat) -> bool {
    &&& inst_resolved(fr, i, n_params)
    &&& i matches InstV::Call(_, _, args) ==> args.len() <= u32::MAX
}

fn operand_ready(o: Operand, fr: &Frame, n_params: u64) -> (r: bool)
    ensures
        r == operand_resolved(fr@, o, n_params as nat),
{
    match o {
        Operand::Imm(_) => true,
        Operand::Temp(t) => temp_slot(fr, t).is_some(),
        Operand::Arg(k) => k < n_params,
    }
}

fn check_inst(i: &Inst, fr: &Frame, n_params: u64) -> (r: bool)
    ensures
        r == inst_ready(fr@, i@, n_params as nat),
{
    match i {
        Inst::Binary(t, _, a, b) => operand_ready(*a, fr, n_params) && operand_ready(*b, fr, n_params)
            && temp_slot(fr, *t).is_some(),
        Inst::Alloc(_) => true,
        Inst::Load(t, s) => sym_slot(fr, s).is_some() && temp_slot(fr, *t).is_some(),
        Inst::Store(v, s) => operand_ready(*v, fr, n_params) && sym_slot(fr, s).is_some(),
        Inst::Call(d, _, args) => {
            if args.len() > u32::MAX as usize {
                return false;
            }
            let mut k: usize = 0;
            while k < args.len()
                invariant
                    k <= args@.len(),
                    args@.len() <= u32::MAX,
                    i@ is Call,
                    i@->Call_2 == args@,
                    i@->Call_0 == *d,
                    forall|j: int| 0 <= j < k ==> operand_resolved(fr@, #[trigger] args@[j], n_params as nat),
                decreases args@.len() - k,
            {
                if !operand_ready(args[k], fr, n_params) {
                    assert(!operand_resolved(fr@, args@[k as int], n_params as nat));
                    return false;
                }
                k = k + 1;
            }
            match d {
                Some(t) => temp_slot(fr, *t).is_some(),
                None => true,
            }
        },
        Inst::Branch(c, _, _) => operand_ready(*c, fr, n_params),
        Inst::Jump(_) => true,
        Inst::Ret(v) => match v {
            Some(v) => operand_ready(*v, fr, n_params),
            None => true,
        },
        Inst::Label(_) => true,
    }
}

/// Appends a function: `.globl`, its label, the prologue, and its body.
/// Fails with `MalformedIr` where an instruction names a place that the
/// frame does not have, and then appends nothing.
pub fn write_asm_function(out: &mut String, f: &IrFunction, fr: &Frame) -> (r: Result<(), CompileError>)
    requires
        frame_small(fr@),
        f.n_params <= u32::MAX,
    ensures
        r is Ok <==> forall|k: int| 0 <= k < f.body@.len() ==> inst_ready(fr@, (#[trigger] f.body@[k])@, f.n_params as nat),
        r is Ok ==> final(out)@ == put_asm_function(old(out)@, *f, fr@),
        r is Err ==> r == Err::<(), CompileError>(CompileError::MalformedIr) && final(out)@ == old(out)@,
{
    let mut k: usize = 0;
    while k < f.body.len()
        invariant
            k <= f.body@.len(),
            forall|j: int| 0 <= j < k ==> inst_ready(fr@, (#[trigger] f.body@[j])@, f.n_params as nat),
        decreases f.body@.len() - k,
    {
        if !check_inst(&f.body[k], fr, f.n_params) {
            return Err(CompileError::MalformedIr);
        }
        k = k + 1;
    }
    out.append(".globl ");
    out.append(f.name.as_str());
    out.append("\n");
    out.append(f.name.as_str());
    out.append(":\n  addi sp, sp, -");
    write_u64(out, fr.size);
    out.append("\n  sw ra, ");
    write_u64(out, fr.size - 4);
    out.append("(sp)\n");
    let ghost pre = out@;
    let mut i: usize = 0;
    assert(insts_view(f.body@.subrange(0, 0)) =~= Seq::<InstV>::empty());
    while i < f.body.len()
        invariant
            i <= f.body@.len(),
            frame_small(fr@),
            f.n_params <= u32::MAX,
            forall|j: int| 0 <= j < f.body@.len() ==> inst_ready(fr@, (#[trigger] f.body@[j])@, f.n_params as nat),
            out@ == put_asm_insts(pre, insts_view(f.body@.subrange(0, i as int)), fr@),
        decreases f.body@.len() - i,
    {
        let ghost next = insts_view(f.body@.subrange(0, i + 1));
        assert(next.drop_last() =~= insts_view(f.body@.subrange(0, i as int)));
        assert(next.last() == f.body@[i as int]@);
        assert(inst_ready(fr@, f.body@[i as int]@, f.n_params as nat));
        write_asm_inst(out, &f.body[i], fr, Ghost(f.n_params as nat));
        i = i + 1;
    }
    assert(f.body@.subrange(0, f.body@.len() as int) =~= f.body@);
    out.append("\n");
    Ok(())
}

/// Emits RV32 assembly for a program: `.text`, then each function with its
/// own frame. Fails with `TooLarge` where a frame cannot be laid out, and
/// with `MalformedIr` where an instruction names a value or variable that
/// has no slot.
pub fn ir2riscv(p: &IrProgram) -> (r: Result<String, CompileError>)
    ensures
        r is Ok <==> forall|i: int| 0 <= i < p.funcs@.len() ==> fits(#[trigger] p.funcs@[i]) && resolves(p.funcs@[i]),
        r matches Ok(text) ==> text@ == asm_text(*p),
        r is Err ==> r == Err::<String, CompileError>(CompileError::TooLarge) || r == Err::<String, CompileError>(CompileError::MalformedIr),
{
    let mut out = String::new();
    out.append(".text\n");
    let ghost mut frs: Seq<FrameV> = Seq::empty();
    let mut i: usize = 0;
    assert(p.funcs@.subrange(0, 0) =~= Seq::<IrFunction>::empty());
    while i < p.funcs.len()
        invariant
            i <= p.funcs@.len(),
            frs.len() == i,
            frs == layouts(*p).subrange(0, i as int),
            forall|j: int| 0 <= j < i ==> fits(#[trigger] p.funcs@[j]) && resolves(p.funcs@[j]),
            out@ == put_asm_functions(".text\n"@, p.funcs@.subrange(0, i as int), frs),
        decreases p.funcs@.len() - i,
    {
        let f = &p.funcs[i];
        if f.n_params > u32::MAX as u64 {
            return Err(CompileError::TooLarge);
        }
        let fr = frame_of(f)?;
        let ghost before = frs;
        write_asm_function(&mut out, f, &fr)?;
        proof {
            frs = frs.push(fr@);
            assert(frs =~= layouts(*p).subrange(0, i + 1));
            let next = p.funcs@.subrange(0, i + 1);
            assert(next.drop_last() =~= p.funcs@.subrange(0, i as int));
            assert(put_asm_functions(".text\n"@, p.funcs@.subrange(0, i as int), before)
                == put_asm_functions(".text\n"@, p.funcs@.subrange(0, i as int), frs)) by {
                lemma_functions_frames_prefix(".text\n"@, p.funcs@.subrange(0, i as int), before, frs);
            }
        }
        i = i + 1;
    }
    assert(p.funcs@.subrange(0, p.funcs@.len() as int) =~= p.funcs@);
    assert(frs =~= layouts(*p));
    Ok(out)
}

/// Only the frames of the functions printed matter.
proof fn lemma_functions_frames_prefix(pre: Seq<char>, fs: Seq<IrFunction>, a: Seq<FrameV>, b: Seq<FrameV>)
    requires
        fs.len() <= a.len(),
        fs.len() <= b.len(),
        forall|j: int| 0 <= j < fs.len() ==> a[j] == b[j],
    ensures
        put_asm_functions(pre, fs, a) == put_asm_functions(pre, fs, b),
    decreases fs.len(),
{
    if fs.len() > 0 {
        lemma_functions_frames_prefix(pre, fs.drop_last(), a, b);
    }
}

} // verus!
