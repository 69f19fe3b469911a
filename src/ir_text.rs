//! The textual form of the IR, one instruction per line.
use vstd::prelude::*;
use crate::ir::{insts_view, Inst, InstV, IrBinOp, IrFunction, IrProgram, Label, Operand, Symbol, SymbolV};
use crate::text::{put_int, put_nat, write_i64, write_u64};

verus! {

/// A label's name without the `%` sigil.
pub open spec fn put_label_name(pre: Seq<char>, l: Label) -> Seq<char> {
    match l {
        Label::Then(k) => put_nat(pre + "then_"@, k as nat),
        Label::Else(k) => put_nat(pre + "else_"@, k as nat),
        Label::End(k) => put_nat(pre + "end_"@, k as nat),
        Label::WhileEntry(k) => put_nat(pre + "while_entry"@, k as nat),
        Label::WhileBody(k) => put_nat(pre + "while_body"@, k as nat),
        Label::WhileEnd(k) => put_nat(pre + "while_end"@, k as nat),
        Label::AndIf(k) => put_nat(pre + "and_if"@, k as nat),
        Label::AndEnd(k) => put_nat(pre + "and_end"@, k as nat),
        Label::OrIf(k) => put_nat(pre + "or_if"@, k as nat),
        Label::OrEnd(k) => put_nat(pre + "or_end"@, k as nat),
    }
}

pub open spec fn put_label(pre: Seq<char>, l: Label) -> Seq<char> {
    put_label_name(pre + "%"@, l)
}

pub open spec fn put_operand(pre: Seq<char>, o: Operand) -> Seq<char> {
    match o {
        Operand::Imm(v) => put_int(pre, v as int),
        Operand::Temp(t) => put_nat(pre + "%"@, t as nat),
        Operand::Arg(i) => put_nat(pre + "%arg"@, i as nat),
    }
}

pub open spec fn put_symbol(pre: Seq<char>, s: SymbolV) -> Seq<char> {
    match s {
        SymbolV::Var(name, k) => put_nat(pre + "@"@ + name + "_"@, k as nat),
        SymbolV::Tmp(n) => put_nat(pre + "@tmp"@, n as nat),
    }
}

pub open spec fn op_name(op: IrBinOp) -> Seq<char> {
    match op {
        IrBinOp::Add => "add"@,
        IrBinOp::Sub => "sub"@,
        IrBinOp::Mul => "mul"@,
        IrBinOp::Div => "div"@,
        IrBinOp::Mod => "mod"@,
        IrBinOp::Eq => "eq"@,
        IrBinOp::Ne => "ne"@,
        IrBinOp::Lt => "lt"@,
        IrBinOp::Le => "le"@,
    }
}

/// Operands separated by `, `.
pub open spec fn put_args(pre: Seq<char>, args: Seq<Operand>) -> Seq<char>
    decreases args.len(),
{
    if args.len() == 0 {
        pre
    } else if args.len() == 1 {
        put_operand(pre, args[0])
    } else {
        put_operand(put_args(pre, args.drop_last()) + ", "@, args.last())
    }
}

pub open spec fn put_inst(pre: Seq<char>, i: InstV) -> Seq<char> {
    match i {
        InstV::Binary(t, op, a, b) => put_operand(
            put_operand(put_nat(pre + "  %"@, t as nat) + " = "@ + op_name(op) + " "@, a) + ", "@,
            b,
        ) + "\n"@,
        InstV::Alloc(s) => put_symbol(pre + "  "@, s) + " = alloc i32\n"@,
        InstV::Load(t, s) => put_symbol(put_nat(pre + "  %"@, t as nat) + " = load "@, s) + "\n"@,
        InstV::Store(v, s) => put_symbol(put_operand(pre + "  store "@, v) + ", "@, s) + "\n"@,
        InstV::Call(d, f, args) => {
            let head = match d {
                Some(t) => put_nat(pre + "  %"@, t as nat) + " = call @"@,
                None => pre + "  call @"@,
            };
            put_args(head + f + "("@, args) + ")\n"@
        },
        InstV::Branch(c, t, f) => put_label(put_label(put_operand(pre + "  br "@, c) + ", "@, t) + ", "@, f)
            + "\n"@,
        InstV::Jump(l) => put_label(pre + "  jump "@, l) + "\n"@,
        InstV::Ret(v) => match v {
            None => pre + "  ret\n"@,
            Some(v) => put_operand(pre + "  ret "@, v) + "\n"@,
        },
        InstV::Label(l) => put_label(pre, l) + ":\n"@,
    }
}

pub open spec fn put_insts(pre: Seq<char>, s: Seq<InstV>) -> Seq<char>
    decreases s.len(),
{
    if s.len() == 0 {
        pre
    } else {
        put_inst(put_insts(pre, s.drop_last()), s.last())
    }
}

/// `%arg0: i32, %arg1: i32, ...` for `n` parameters.
pub open spec fn put_params(pre: Seq<char>, n: nat) -> Seq<char>
    decreases n,
{
    if n == 0 {
        pre
    } else if n == 1 {
        put_nat(pre + "%arg"@, 0) + ": i32"@
    } else {
        put_nat(put_params(pre, (n - 1) as nat) + ", %arg"@, (n - 1) as nat) + ": i32"@
    }
}

pub open spec fn put_function(pre: Seq<char>, f: IrFunction) -> Seq<char> {
    let head = put_params(pre + "fun @"@ + f.name@ + "("@, f.n_params as nat);
    let sig = if f.returns_int {
        head + "): i32 {\n"@
    } else {
        head + ") {\n"@
    };
    put_insts(sig + "%entry:\n"@, insts_view(f.body@)) + "}\n"@
}

pub open spec fn put_functions(pre: Seq<char>, fs: Seq<IrFunction>) -> Seq<char>
    decreases fs.len(),
{
    if fs.len() == 0 {
        pre
    } else {
        put_function(put_functions(pre, fs.drop_last()), fs.last()) + "\n"@
    }
}

/// The text of a whole program.
pub open spec fn program_text(p: IrProgram) -> Seq<char> {
    put_functions(Seq::empty(), p.funcs@)
}

pub fn write_label_name(out: &mut String, l: Label)
    ensures
        final(out)@ == put_label_name(old(out)@, l),
{
    match l {
        Label::Then(k) => {
            out.append("then_");
            write_u64(out, k);
        },
        Label::Else(k) => {
            out.append("else_");
            write_u64(out, k);
        },
        Label::End(k) => {
            out.append("end_");
            write_u64(out, k);
        },
        Label::WhileEntry(k) => {
            out.append("while_entry");
            write_u64(out, k);
        },
        Label::WhileBody(k) => {
            out.append("while_body");
            write_u64(out, k);
        },
        Label::WhileEnd(k) => {
            out.append("while_end");
            write_u64(out, k);
        },
        Label::AndIf(k) => {
            out.append("and_if");
            write_u64(out, k);
        },
        Label::AndEnd(k) => {
            out.append("and_end");
            write_u64(out, k);
        },
        Label::OrIf(k) => {
            out.append("or_if");
            write_u64(out, k);
        },
        Label::OrEnd(k) => {
            out.append("or_end");
            write_u64(out, k);
        },
    }
}

fn write_label(out: &mut String, l: Label)
    ensures
        final(out)@ == put_label(old(out)@, l),
{
    out.append("%");
    write_label_name(out, l);
}

fn write_operand(out: &mut String, o: Operand)
    ensures
        final(out)@ == put_operand(old(out)@, o),
{
    match o {
        Operand::Imm(v) => write_i64(out, v as i64),
        Operand::Temp(t) => {
            out.append("%");
            write_u64(out, t);
        },
        Operand::Arg(i) => {
            out.append("%arg");
            write_u64(out, i);
        },
    }
}

fn write_symbol(out: &mut String, s: &Symbol)
    ensures
        final(out)@ == put_symbol(old(out)@, s@),
{
    match s {
        Symbol::Var(name, k) => {
            out.append("@");
            out.append(name.as_str());
            out.append("_");
            write_u64(out, *k);
        },
        Symbol::Tmp(n) => {
            out.append("@tmp");
            write_u64(out, *n);
        },
    }
}

fn write_op(out: &mut String, op: IrBinOp)
    ensures
        final(out)@ == old(out)@ + op_name(op),
{
    match op {
        IrBinOp::Add => out.append("add"),
        IrBinOp::Sub => out.append("sub"),
        IrBinOp::Mul => out.append("mul"),
        IrBinOp::Div => out.append("div"),
        IrBinOp::Mod => out.append("mod"),
        IrBinOp::Eq => out.append("eq"),
        IrBinOp::Ne => out.append("ne"),
        IrBinOp::Lt => out.append("lt"),
        IrBinOp::Le => out.append("le"),
    }
}

fn write_args(out: &mut String, args: &Vec<Operand>)
    ensures
        final(out)@ == put_args(old(out)@, args@),
{
    let ghost pre = out@;
    let mut i: usize = 0;
    assert(args@.subrange(0, 0) =~= Seq::<Operand>::empty());
    while i < args.len()
        invariant
            i <= args@.len(),
            out@ == put_args(pre, args@.subrange(0, i as int)),
        decreases args@.len() - i,
    {
        let ghost sub = args@.subrange(0, i + 1);
        assert(sub.drop_last() =~= args@.subrange(0, i as int));
        if i > 0 {
            out.append(", ");
        }
        write_operand(out, args[i]);
        i = i + 1;
    }
    assert(args@.subrange(0, args@.len() as int) =~= args@);
}

/// Appends one instruction line (or label line).
pub fn write_inst(out: &mut String, i: &Inst)
    ensures
        final(out)@ == put_inst(old(out)@, i@),
{
    match i {
        Inst::Binary(t, op, a, b) => {
            out.append("  %");
            write_u64(out, *t);
            out.append(" = ");
            write_op(out, *op);
            out.append(" ");
            write_operand(out, *a);
            out.append(", ");
            write_operand(out, *b);
            out.append("\n");
        },
        Inst::Alloc(s) => {
            out.append("  ");
            write_symbol(out, s);
            out.append(" = alloc i32\n");
        },
        Inst::Load(t, s) => {
            out.append("  %");
            write_u64(out, *t);
            out.append(" = load ");
            write_symbol(out, s);
            out.append("\n");
        },
        Inst::Store(v, s) => {
            out.append("  store ");
            write_operand(out, *v);
            out.append(", ");
            write_symbol(out, s);
            out.append("\n");
        },
        Inst::Call(d, f, args) => {
            match d {
                Some(t) => {
                    out.append("  %");
                    write_u64(out, *t);
                    out.append(" = call @");
                },
                None => {
                    out.append("  call @");
                },
            }
            out.append(f.as_str());
            out.append("(");
            write_args(out, args);
            out.append(")\n");
        },
        Inst::Branch(c, t, f) => {
            out.append("  br ");
            write_operand(out, *c);
            out.append(", ");
            write_label(out, *t);
            out.append(", ");
            write_label(out, *f);
            out.append("\n");
        },
        Inst::Jump(l) => {
            out.append("  jump ");
            write_label(out, *l);
            out.append("\n");
        },
        Inst::Ret(v) => match v {
            None => out.append("  ret\n"),
            Some(v) => {
                out.append("  ret ");
                write_operand(out, *v);
                out.append("\n");
            },
        },
        Inst::Label(l) => {
            write_label(out, *l);
            out.append(":\n");
        },
    }
}

fn write_insts(out: &mut String, body: &Vec<Inst>)
    ensures
        final(out)@ == put_insts(old(out)@, insts_view(body@)),
{
    let ghost pre = out@;
    let mut i: usize = 0;
    assert(insts_view(body@.subrange(0, 0)) =~= Seq::<InstV>::empty());
    while i < body.len()
        invariant
            i <= body@.len(),
            out@ == put_insts(pre, insts_view(body@.subrange(0, i as int))),
        decreases body@.len() - i,
    {
        let ghost next = insts_view(body@.subrange(0, i + 1));
        assert(next.drop_last() =~= insts_view(body@.subrange(0, i as int)));
        assert(next.last() == body@[i as int]@);
        write_inst(out, &body[i]);
        i = i + 1;
    }
    assert(body@.subrange(0, body@.len() as int) =~= body@);
}

fn write_params(out: &mut String, n: u64)
    ensures
        final(out)@ == put_params(old(out)@, n as nat),
{
    let ghost pre = out@;
    let mut i: u64 = 0;
    while i < n
        invariant
            i <= n,
            out@ == put_params(pre, i as nat),
        decreases n - i,
    {
        if i > 0 {
            out.append(", %arg");
        } else {
            out.append("%arg");
        }
        write_u64(out, i);
        out.append(": i32");
        i = i + 1;
    }
}

/// Appends one function definition.
pub fn write_function(out: &mut String, f: &IrFunction)
    ensures
        final(out)@ == put_function(old(out)@, *f),
{
    out.append("fun @");
    out.append(f.name.as_str());
    out.append("(");
    write_params(out, f.n_params);
    if f.returns_int {
        out.append("): i32 {\n");
    } else {
        out.append(") {\n");
    }
    out.append("%entry:\n");
    write_insts(out, &f.body);
    out.append("}\n");
}

/// The IR text of a program: each function followed by a blank line.
pub fn ir_to_string(p: &IrProgram) -> (r: String)
    ensures
        r@ == program_text(*p),
{
    let mut out = String::new();
    let mut i: usize = 0;
    assert(p.funcs@.subrange(0, 0) =~= Seq::<IrFunction>::empty());
    while i < p.funcs.len()
        invariant
            i <= p.funcs@.len(),
            out@ == put_functions(Seq::empty(), p.funcs@.subrange(0, i as int)),
        decreases p.funcs@.len() - i,
    {
        let ghost next = p.funcs@.subrange(0, i + 1);
        assert(next.drop_last() =~= p.funcs@.subrange(0, i as int));
        write_function(&mut out, &p.funcs[i]);
        out.append("\n");
        i = i + 1;
    }
    assert(p.funcs@.subrange(0, p.funcs@.len() as int) =~= p.funcs@);
    out
}

} // verus!
