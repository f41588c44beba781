//! Every instruction that lowering produces can be written out as text: its
//! memory operands are stack slots `[rbp - off]` with `off` a declared,
//! positive offset.

use vstd::prelude::*;
use crate::ast::{Expression, FunctionBlock, ModuleBlock, Parameter, Statement, SinkCall};
use crate::codegen::{
    GenCtx, GenState, OutputFormat, SymView, sym_wf, slot_lookup, lemma_sym_lookup_bounds, gen_args_fwd,
    gen_args_rev, gen_expr, gen_function, gen_functions, gen_module, gen_stmt, gen_stmts, home_moves,
    module_symbols, function_symbols, print_code, sink_code, with_counter, with_extern, extern_sink_code,
    binop_code, unop_code, pop_args, pops, pop_last, call_cleanup, prologue, epilogue, exit_code, frame_size,
    function_fits, functions_fit, module_fits, lemma_function_symbols, lemma_module_symbols,
};
use crate::ir::{InstrV, OperandV, instr_printable};

verus! {

/// `instr_printable` of the views.
pub open spec fn instrv_printable(i: InstrV) -> bool {
    instr_printable(i)
}

/// Every instruction of `s` is printable.
pub open spec fn all_printable(s: Seq<InstrV>) -> bool {
    forall|k: int| 0 <= k < s.len() ==> instrv_printable(#[trigger] s[k])
}

proof fn lemma_cat(a: Seq<InstrV>, b: Seq<InstrV>)
    requires
        all_printable(a),
        all_printable(b),
    ensures
        all_printable(a + b),
{
    assert forall|k: int| 0 <= k < (a + b).len() implies instrv_printable(#[trigger] (a + b)[k]) by {
        if k < a.len() {
            assert((a + b)[k] == a[k]);
        } else {
            assert((a + b)[k] == b[k - a.len()]);
        }
    }
}

proof fn lemma_small_pops(r: crate::ir::Register, k: int)
    ensures
        all_printable(pops(r, k)),
        all_printable(pop_args(k)),
        pops(r, k).len() == if k <= 0 { 0 } else { k },
    decreases k,
{
    if k > 0 {
        lemma_small_pops(r, k - 1);
        lemma_cat(pops(r, k - 1), seq![pops(r, k).last()]);
        assert(pops(r, k) =~= pops(r, k - 1) + seq![pops(r, k).last()]);
        lemma_cat(pop_args(k - 1), seq![pop_args(k).last()]);
        assert(pop_args(k) =~= pop_args(k - 1) + seq![pop_args(k).last()]);
    }
}

proof fn lemma_pop_last_small(keep: crate::ir::Register, drop: crate::ir::Register, k: int)
    requires
        k >= 1,
    ensures
        all_printable(pop_last(keep, drop, k)),
        pop_last(keep, drop, k).len() == k,
{
    lemma_small_pops(drop, k - 1);
    let p = seq![crate::codegen::pop_q(keep)];
    assert(all_printable(p));
    lemma_cat(p, pops(drop, k - 1));
}

/// Law: the code of an expression is printable when the symbol table is
/// well formed.
pub proof fn lemma_expr_printable(sy: SymView, m: Seq<char>, st: GenState, e: Expression)
    requires
        sym_wf(sy),
        gen_expr(sy.0, m, st, e) is Ok,
    ensures
        all_printable(gen_expr(sy.0, m, st, e)->Ok_0.0),
    decreases e, 2int,
{
    let is = gen_expr(sy.0, m, st, e)->Ok_0.0;
    match e {
        Expression::Variable(v) => {
            lemma_sym_lookup_bounds(sy, v.name@);
        },
        Expression::Binary { op, left, right } => {
            lemma_expr_printable(sy, m, st, *left);
            let (c1, st1) = gen_expr(sy.0, m, st, *left)->Ok_0;
            lemma_expr_printable(sy, m, st1, *right);
            let (c2, st2) = gen_expr(sy.0, m, st1, *right)->Ok_0;
            let rest = is.subrange((c1.len() + c2.len()) as int, is.len() as int);
            assert(is =~= c1 + c2 + rest);
            assert(all_printable(rest));
            lemma_cat(c1, c2);
            lemma_cat(c1 + c2, rest);
        },
        Expression::Unary { op, operand } => {
            lemma_expr_printable(sy, m, st, *operand);
            let (c1, st1) = gen_expr(sy.0, m, st, *operand)->Ok_0;
            let rest = is.subrange(c1.len() as int, is.len() as int);
            assert(is =~= c1 + rest);
            assert(all_printable(rest));
            lemma_cat(c1, rest);
        },
        Expression::Call { .. } => {
            lemma_call_printable(sy, m, st, e);
        },
        _ => {},
    }
}

proof fn lemma_call_printable(sy: SymView, m: Seq<char>, st: GenState, e: Expression)
    requires
        sym_wf(sy),
        gen_expr(sy.0, m, st, e) is Ok,
        e is Call,
    ensures
        all_printable(gen_expr(sy.0, m, st, e)->Ok_0.0),
    decreases e, 0int,
{
    let is = gen_expr(sy.0, m, st, e)->Ok_0.0;
    if let Expression::Call { name, args } = e {
        lemma_args_rev_printable(sy, m, st, args@, 0);
        let (c1, st1) = gen_args_rev(sy.0, m, st, args@, 0)->Ok_0;
        let n = args@.len();
        let k = if n < 4 { n as int } else { 4 };
        lemma_small_pops(crate::ir::Register::RAX, k);
        lemma_pop_args_len(k);
        let head = is.subrange(0, 1);
        let tail = is.subrange((1 + c1.len() + pop_args(k).len()) as int, is.len() as int);
        assert(is =~= head + c1 + pop_args(k) + tail);
        assert(all_printable(tail));
        assert(all_printable(head));
        lemma_cat(head, c1);
        lemma_cat(head + c1, pop_args(k));
        lemma_cat(head + c1 + pop_args(k), tail);
    }
}

proof fn lemma_pop_args_len(k: int)
    ensures
        pop_args(k).len() == if k <= 0 { 0 } else { k },
    decreases k,
{
    if k > 0 {
        lemma_pop_args_len(k - 1);
    }
}

/// The code of the arguments `args[i..]` is printable.
pub proof fn lemma_args_rev_printable(sy: SymView, m: Seq<char>, st: GenState, args: Seq<Expression>, i: int)
    requires
        sym_wf(sy),
        gen_args_rev(sy.0, m, st, args, i) is Ok,
    ensures
        all_printable(gen_args_rev(sy.0, m, st, args, i)->Ok_0.0),
    decreases args, args.len() - i,
{
    if 0 <= i < args.len() {
        lemma_args_rev_printable(sy, m, st, args, i + 1);
        let (c1, st1) = gen_args_rev(sy.0, m, st, args, i + 1)->Ok_0;
        lemma_expr_printable(sy, m, st1, args[i]);
        let (c2, st2) = gen_expr(sy.0, m, st1, args[i])->Ok_0;
        lemma_cat(c1, c2);
    }
}

proof fn lemma_args_fwd_printable(sy: SymView, m: Seq<char>, st: GenState, args: Seq<Expression>, k: int)
    requires
        sym_wf(sy),
        gen_args_fwd(sy.0, m, st, args, k) is Ok,
    ensures
        all_printable(gen_args_fwd(sy.0, m, st, args, k)->Ok_0.0),
    decreases k,
{
    if 0 < k <= args.len() {
        lemma_args_fwd_printable(sy, m, st, args, k - 1);
        let (c1, st1) = gen_args_fwd(sy.0, m, st, args, k - 1)->Ok_0;
        lemma_expr_printable(sy, m, st1, args[k - 1]);
        let (c2, st2) = gen_expr(sy.0, m, st1, args[k - 1])->Ok_0;
        lemma_cat(c1, c2);
    }
}

/// The code of a sink is printable.
proof fn lemma_sink_printable(ctx: GenCtx, t: SymView, st: GenState, k: SinkCall)
    requires
        sym_wf(t),
        ctx.sy == t.0,
        sink_code(ctx, st, k) is Ok,
    ensures
        all_printable(sink_code(ctx, st, k)->Ok_0.0),
{
    let args = k.args@;
    let n = args.len();
    let is = sink_code(ctx, st, k)->Ok_0.0;
    if n > 0 {
        if k.name@ == "print"@ {
            lemma_args_fwd_printable(t, ctx.module, st, args, n as int);
            let c1 = gen_args_fwd(ctx.sy, ctx.module, st, args, n as int)->Ok_0.0;
            lemma_pop_last_small(crate::ir::Register::RAX, crate::ir::Register::RCX, n as int);
            let tail = is.subrange((c1.len() + n) as int, is.len() as int);
            assert(is =~= c1 + pop_last(crate::ir::Register::RAX, crate::ir::Register::RCX, n as int) + tail);
            assert(all_printable(tail));
            lemma_cat(c1, pop_last(crate::ir::Register::RAX, crate::ir::Register::RCX, n as int));
            lemma_cat(c1 + pop_last(crate::ir::Register::RAX, crate::ir::Register::RCX, n as int), tail);
        } else {
            let target = if k.name@ == "puts"@ {
                if ctx.format == OutputFormat::RustSource { "bxen_print_str"@ } else { "puts"@ }
            } else {
                if ctx.format == OutputFormat::RustSource { "bxen_putchar"@ } else { "putchar"@ }
            };
            let st0 = with_extern(st, target);
            lemma_args_fwd_printable(t, ctx.module, st0, args, n as int);
            let c1 = gen_args_fwd(ctx.sy, ctx.module, st0, args, n as int)->Ok_0.0;
            lemma_pop_last_small(crate::ir::Register::RCX, crate::ir::Register::RAX, n as int);
            let tail = is.subrange((c1.len() + n) as int, is.len() as int);
            assert(is =~= c1 + pop_last(crate::ir::Register::RCX, crate::ir::Register::RAX, n as int) + tail);
            assert(all_printable(tail));
            lemma_cat(c1, pop_last(crate::ir::Register::RCX, crate::ir::Register::RAX, n as int));
            lemma_cat(c1 + pop_last(crate::ir::Register::RCX, crate::ir::Register::RAX, n as int), tail);
        }
    }
}

/// Law: the code of a statement is printable when the symbol table is
/// well formed.
pub proof fn lemma_stmt_printable(ctx: GenCtx, t: SymView, st: GenState, s: Statement)
    requires
        sym_wf(t),
        ctx.sy == t.0,
        gen_stmt(ctx, st, s) is Ok,
    ensures
        all_printable(gen_stmt(ctx, st, s)->Ok_0.0),
    decreases s, 2int,
{
    let is = gen_stmt(ctx, st, s)->Ok_0.0;
    match s {
        Statement::Expression(e) => {
            lemma_expr_printable(t, ctx.module, st, e);
            let c1 = gen_expr(ctx.sy, ctx.module, st, e)->Ok_0.0;
            let tail = is.subrange(c1.len() as int, is.len() as int);
            assert(is =~= c1 + tail);
            lemma_cat(c1, tail);
        },
        Statement::Assignment(a) => {
            lemma_expr_printable(t, ctx.module, st, a.value);
            let c1 = gen_expr(ctx.sy, ctx.module, st, a.value)->Ok_0.0;
            if slot_lookup(t.0, a.name@) is Some {
                lemma_sym_lookup_bounds(t, a.name@);
            }
            let tail = is.subrange(c1.len() as int, is.len() as int);
            assert(is =~= c1 + tail);
            assert(all_printable(tail));
            lemma_cat(c1, tail);
        },
        Statement::Sink(k) => {
            lemma_sink_printable(ctx, t, st, k);
        },
        Statement::Return(r) => {
            match r.value {
                Some(v) => {
                    lemma_expr_printable(t, ctx.module, st, v);
                    let c1 = gen_expr(ctx.sy, ctx.module, st, v)->Ok_0.0;
                    let tail = is.subrange(c1.len() as int, is.len() as int);
                    assert(is =~= c1 + tail);
                    lemma_cat(c1, tail);
                },
                None => {},
            }
        },
        Statement::If { .. } => {
            lemma_if_printable(ctx, t, st, s);
        },
        Statement::While { .. } => {
            lemma_while_printable(ctx, t, st, s);
        },
    }
}

proof fn lemma_if_printable(ctx: GenCtx, t: SymView, st: GenState, s: Statement)
    requires
        sym_wf(t),
        ctx.sy == t.0,
        gen_stmt(ctx, st, s) is Ok,
        s is If,
    ensures
        all_printable(gen_stmt(ctx, st, s)->Ok_0.0),
    decreases s, 1int,
{
    let is = gen_stmt(ctx, st, s)->Ok_0.0;
    if let Statement::If { condition, then_branch, else_branch } = s {
        lemma_expr_printable(t, ctx.module, st, condition);
        let (c1, st1) = gen_expr(ctx.sy, ctx.module, st, condition)->Ok_0;
        let st2 = with_counter(st1, crate::codegen::next_count(crate::codegen::next_count(st1.counter)));
        lemma_stmts_printable(ctx, t, st2, then_branch@, then_branch@.len() as int);
        let (c2, st3) = gen_stmts(ctx, st2, then_branch@, then_branch@.len() as int)->Ok_0;
        let c3 = match else_branch {
            Some(b) => {
                lemma_stmts_printable(ctx, t, st3, b@, b@.len() as int);
                gen_stmts(ctx, st3, b@, b@.len() as int)->Ok_0.0
            },
            None => Seq::empty(),
        };
        let a = is.subrange(c1.len() as int, (c1.len() + 3) as int);
        let b2 = is.subrange((c1.len() + 3 + c2.len()) as int, (c1.len() + 5 + c2.len()) as int);
        let e = is.subrange((is.len() - 1) as int, is.len() as int);
        assert(is =~= c1 + a + c2 + b2 + c3 + e);
        assert(all_printable(a));
        assert(all_printable(b2));
        assert(all_printable(e));
        lemma_cat(c1, a);
        lemma_cat(c1 + a, c2);
        lemma_cat(c1 + a + c2, b2);
        lemma_cat(c1 + a + c2 + b2, c3);
        lemma_cat(c1 + a + c2 + b2 + c3, e);
    }
}

proof fn lemma_while_printable(ctx: GenCtx, t: SymView, st: GenState, s: Statement)
    requires
        sym_wf(t),
        ctx.sy == t.0,
        gen_stmt(ctx, st, s) is Ok,
        s is While,
    ensures
        all_printable(gen_stmt(ctx, st, s)->Ok_0.0),
    decreases s, 1int,
{
    let is = gen_stmt(ctx, st, s)->Ok_0.0;
    if let Statement::While { condition, body } = s {
        let st1 = with_counter(st, crate::codegen::next_count(crate::codegen::next_count(st.counter)));
        lemma_expr_printable(t, ctx.module, st1, condition);
        let (c1, st2) = gen_expr(ctx.sy, ctx.module, st1, condition)->Ok_0;
        lemma_stmts_printable(ctx, t, st2, body@, body@.len() as int);
        let (c2, st3) = gen_stmts(ctx, st2, body@, body@.len() as int)->Ok_0;
        let l = is.subrange(0, 1);
        let a = is.subrange((1 + c1.len()) as int, (4 + c1.len()) as int);
        let e = is.subrange((is.len() - 2) as int, is.len() as int);
        assert(is =~= l + c1 + a + c2 + e);
        assert(all_printable(l));
        assert(all_printable(a));
        assert(all_printable(e));
        lemma_cat(l, c1);
        lemma_cat(l + c1, a);
        lemma_cat(l + c1 + a, c2);
        lemma_cat(l + c1 + a + c2, e);
    }
}

/// Law: the code of a block is printable when the symbol table is well
/// formed.
pub proof fn lemma_stmts_printable(ctx: GenCtx, t: SymView, st: GenState, list: Seq<Statement>, k: int)
    requires
        sym_wf(t),
        ctx.sy == t.0,
        gen_stmts(ctx, st, list, k) is Ok,
    ensures
        all_printable(gen_stmts(ctx, st, list, k)->Ok_0.0),
    decreases list, k,
{
    if 0 < k <= list.len() {
        lemma_stmts_printable(ctx, t, st, list, k - 1);
        let (c1, st1) = gen_stmts(ctx, st, list, k - 1)->Ok_0;
        lemma_stmt_printable(ctx, t, st1, list[k - 1]);
        let (c2, st2) = gen_stmt(ctx, st1, list[k - 1])->Ok_0;
        lemma_cat(c1, c2);
    }
}

proof fn lemma_home_printable(t: SymView, ps: Seq<Parameter>, k: int)
    requires
        sym_wf(t),
        forall|i: int| 0 <= i < ps.len() ==> slot_lookup(t.0, #[trigger] ps[i].name@) is Some,
    ensures
        all_printable(home_moves(t, ps, k)),
    decreases k,
{
    if 0 < k <= ps.len() {
        lemma_home_printable(t, ps, k - 1);
        if k <= 4 {
            lemma_sym_lookup_bounds(t, ps[k - 1].name@);
            let h = home_moves(t, ps, k);
            assert(h =~= home_moves(t, ps, k - 1) + seq![h.last()]);
            lemma_cat(home_moves(t, ps, k - 1), seq![h.last()]);
        }
    }
}

/// Law: the code of a function is printable.
pub proof fn lemma_function_printable(module: Seq<char>, format: OutputFormat, st: GenState, f: FunctionBlock)
    requires
        function_fits(f),
        gen_function(module, format, st, f) is Ok,
    ensures
        all_printable(gen_function(module, format, st, f)->Ok_0.0),
{
    let t = function_symbols(f);
    lemma_function_symbols(f);
    let frame = frame_size(t) as i64;
    let ep = crate::codegen::label_text(f.name@ + "_epilogue"@, st.counter);
    let st1 = with_counter(st, crate::codegen::next_count(st.counter));
    let ctx = GenCtx { sy: t.0, module, format, epilogue: Some(ep) };
    lemma_stmts_printable(ctx, t, st1, f.body@, f.body@.len() as int);
    let cb = gen_stmts(ctx, st1, f.body@, f.body@.len() as int)->Ok_0.0;
    let hm = home_moves(t, f.params@, f.params@.len() as int);
    lemma_home_printable(t, f.params@, f.params@.len() as int);
    let l1 = seq![InstrV::Label(f.name@)];
    let l2 = seq![InstrV::Label(ep)];
    assert(all_printable(prologue(frame)));
    assert(all_printable(epilogue(frame)));
    lemma_cat(l1, prologue(frame));
    lemma_cat(l1 + prologue(frame), hm);
    lemma_cat(l1 + prologue(frame) + hm, cb);
    lemma_cat(l1 + prologue(frame) + hm + cb, l2);
    lemma_cat(l1 + prologue(frame) + hm + cb + l2, epilogue(frame));
}

proof fn lemma_functions_printable(module: Seq<char>, format: OutputFormat, st: GenState, fs: Seq<FunctionBlock>, k: int)
    requires
        functions_fit(fs, k),
        gen_functions(module, format, st, fs, k) is Ok,
    ensures
        all_printable(gen_functions(module, format, st, fs, k)->Ok_0.0),
    decreases k,
{
    if 0 < k <= fs.len() {
        lemma_functions_printable(module, format, st, fs, k - 1);
        let (c1, st1) = gen_functions(module, format, st, fs, k - 1)->Ok_0;
        lemma_function_printable(module, format, st1, fs[k - 1]);
        let c2 = gen_function(module, format, st1, fs[k - 1])->Ok_0.0;
        lemma_cat(c1, c2);
    }
}

/// Law: the code of a module is printable.
pub proof fn lemma_module_printable(format: OutputFormat, epi: Option<Seq<char>>, st: GenState, m: ModuleBlock,
    globals: Seq<Parameter>)
    requires
        module_fits(m, globals.len() as int),
        gen_module(format, epi, st, m, globals) is Ok,
    ensures
        all_printable(gen_module(format, epi, st, m, globals)->Ok_0.0),
{
    let mt = m.name@;
    let st0 = with_extern(st, "ExitProcess"@);
    lemma_functions_printable(mt, format, st0, m.functions@, m.functions@.len() as int);
    let (cf, st1) = gen_functions(mt, format, st0, m.functions@, m.functions@.len() as int)->Ok_0;
    let entry = crate::codegen::label_text("entry"@, st1.counter);
    let st2 = with_counter(st1, crate::codegen::next_count(st1.counter));
    let inputs = globals + m.inputs@;
    let t = module_symbols(m, inputs);
    lemma_module_symbols(m, globals);
    let frame = frame_size(t) as i64;
    let epi1 = if m.functions@.len() > 0 { None } else { epi };
    let ctx = GenCtx { sy: t.0, module: mt, format, epilogue: epi1 };
    lemma_stmts_printable(ctx, t, st2, m.statements@, m.statements@.len() as int);
    let cs = gen_stmts(ctx, st2, m.statements@, m.statements@.len() as int)->Ok_0.0;
    let hm = home_moves(t, inputs, inputs.len() as int);
    lemma_home_printable(t, inputs, inputs.len() as int);
    let l = seq![InstrV::Label(entry)];
    assert(all_printable(prologue(frame)));
    assert(all_printable(epilogue(frame)));
    assert(all_printable(exit_code()));
    lemma_cat(cf, l);
    lemma_cat(cf + l, prologue(frame));
    lemma_cat(cf + l + prologue(frame), hm);
    lemma_cat(cf + l + prologue(frame) + hm, cs);
    lemma_cat(cf + l + prologue(frame) + hm + cs, exit_code());
    lemma_cat(cf + l + prologue(frame) + hm + cs + exit_code(), epilogue(frame));
}

} // verus!
