//! Stack discipline of the generated code: what each lowering does to RSP
//! when its instructions are read in order (calls return to where they were
//! made, so a call counts for nothing).

use vstd::prelude::*;
use crate::ast::{Expression, FunctionBlock, ModuleBlock, Parameter, Statement, SinkCall};
use crate::codegen::{
    GenCtx, GenState, OutputFormat, SHADOW_SPACE, call_cleanup, compare_code, binop_code, unop_code, exit_code, expr_fits, args_fit, stmt_fits, stmts_fit, function_fits, functions_fit, module_fits, fmt_str_bytes,
    epilogue, extern_sink_code, frame_size, function_symbols, gen_args_fwd, pop_last, gen_args_rev, gen_expr,
    gen_function, gen_functions, gen_module, gen_stmt, gen_stmts, home_moves, module_symbols, pop_args, pops,
    print_code, prologue, sink_code, with_counter,
};
use crate::ir::{InstrV, OperandSize, OperandV, Register};

verus! {

/// Bytes an instruction moves RSP down (negative when it moves up).
pub open spec fn stack_delta(i: InstrV) -> int {
    match i {
        InstrV::Push(_) => 8,
        InstrV::Pop(_) => -8,
        InstrV::Sub { dest: OperandV::Register(Register::RSP, _), src: OperandV::Immediate(v) } => v as int,
        InstrV::Add { dest: OperandV::Register(Register::RSP, _), src: OperandV::Immediate(v) } => -v,
        _ => 0,
    }
}

/// Net bytes a straight-line reading of `s` moves RSP down.
pub open spec fn code_delta(s: Seq<InstrV>) -> int
    decreases s.len(),
{
    if s.len() == 0 { 0 } else { code_delta(s.drop_last()) + stack_delta(s.last()) }
}

/// The stack effect of a concatenation is the sum of the effects.
pub proof fn lemma_delta_concat(a: Seq<InstrV>, b: Seq<InstrV>)
    ensures
        code_delta(a + b) == code_delta(a) + code_delta(b),
    decreases b.len(),
{
    if b.len() > 0 {
        lemma_delta_concat(a, b.drop_last());
        assert((a + b).drop_last() =~= a + b.drop_last());
        assert((a + b).last() == b.last());
        assert(code_delta(a + b) == code_delta((a + b).drop_last()) + stack_delta((a + b).last()));
        assert(code_delta(b) == code_delta(b.drop_last()) + stack_delta(b.last()));
    } else {
        assert(a + b =~= a);
    }
}

proof fn lemma_delta1(x: InstrV)
    ensures
        code_delta(seq![x]) == stack_delta(x),
{
    assert(seq![x].drop_last() =~= Seq::<InstrV>::empty());
    assert(seq![x].last() == x);
    assert(code_delta(Seq::<InstrV>::empty()) == 0);
}

proof fn lemma_delta2(x: InstrV, y: InstrV)
    ensures
        code_delta(seq![x, y]) == stack_delta(x) + stack_delta(y),
{
    assert(seq![x, y] =~= seq![x] + seq![y]);
    lemma_delta_concat(seq![x], seq![y]);
    lemma_delta1(x);
    lemma_delta1(y);
}

proof fn lemma_delta3(x: InstrV, y: InstrV, z: InstrV)
    ensures
        code_delta(seq![x, y, z]) == stack_delta(x) + stack_delta(y) + stack_delta(z),
{
    assert(seq![x, y, z] =~= seq![x, y] + seq![z]);
    lemma_delta_concat(seq![x, y], seq![z]);
    lemma_delta2(x, y);
    lemma_delta1(z);
}

proof fn lemma_delta4(w: InstrV, x: InstrV, y: InstrV, z: InstrV)
    ensures
        code_delta(seq![w, x, y, z]) == stack_delta(w) + stack_delta(x) + stack_delta(y) + stack_delta(z),
{
    assert(seq![w, x, y, z] =~= seq![w, x, y] + seq![z]);
    lemma_delta_concat(seq![w, x, y], seq![z]);
    lemma_delta3(w, x, y);
    lemma_delta1(z);
}

proof fn lemma_delta5(v: InstrV, w: InstrV, x: InstrV, y: InstrV, z: InstrV)
    ensures
        code_delta(seq![v, w, x, y, z]) == stack_delta(v) + stack_delta(w) + stack_delta(x) + stack_delta(y)
            + stack_delta(z),
{
    assert(seq![v, w, x, y, z] =~= seq![v, w, x, y] + seq![z]);
    lemma_delta_concat(seq![v, w, x, y], seq![z]);
    lemma_delta4(v, w, x, y);
    lemma_delta1(z);
}

proof fn lemma_binop_delta(op: crate::ast::BinaryOp)
    ensures
        code_delta(binop_code(op)) == 0,
{
    let b = binop_code(op);
    if b.len() == 1 {
        lemma_delta1(b[0]);
        assert(b =~= seq![b[0]]);
    } else if b.len() == 2 {
        lemma_delta2(b[0], b[1]);
        assert(b =~= seq![b[0], b[1]]);
    } else {
        lemma_delta3(b[0], b[1], b[2]);
        assert(b =~= seq![b[0], b[1], b[2]]);
    }
}

proof fn lemma_unop_delta(op: crate::ast::UnaryOp, c: usize)
    ensures
        code_delta(unop_code(op, c)) == 0,
{
    let u = unop_code(op, c);
    if u.len() == 0 {
    } else if u.len() == 1 {
        lemma_delta1(u[0]);
        assert(u =~= seq![u[0]]);
    } else {
        lemma_delta5(u[0], u[1], u[2], u[3], u[4]);
        assert(u =~= seq![u[0], u[1], u[2], u[3], u[4]]);
    }
}

proof fn lemma_pop_args_delta(k: int)
    ensures
        code_delta(pop_args(k)) == if k <= 0 { 0 } else { -8 * k },
    decreases k,
{
    if k > 0 {
        lemma_pop_args_delta(k - 1);
        assert(pop_args(k).drop_last() =~= pop_args(k - 1));
    }
}

proof fn lemma_pops_delta(r: Register, k: int)
    ensures
        code_delta(pops(r, k)) == if k <= 0 { 0 } else { -8 * k },
    decreases k,
{
    if k > 0 {
        lemma_pops_delta(r, k - 1);
        assert(pops(r, k).drop_last() =~= pops(r, k - 1));
    }
}

proof fn lemma_pop_last_delta(keep: Register, drop: Register, k: int)
    requires
        k >= 1,
    ensures
        code_delta(pop_last(keep, drop, k)) == -8 * k,
{
    let p = seq![crate::codegen::pop_q(keep)];
    lemma_delta1(p[0]);
    lemma_pops_delta(drop, k - 1);
    lemma_delta_concat(p, pops(drop, k - 1));
}

proof fn lemma_call_cleanup_delta(t: Seq<char>, n: usize)
    ensures
        code_delta(call_cleanup(t, n)) == -SHADOW_SPACE,
{
    let c = call_cleanup(t, n);
    lemma_delta2(c[0], c[1]);
    assert(c =~= seq![c[0], c[1]]);
}

/// Law: the code of an expression pushes exactly one value (8 bytes).
pub proof fn lemma_expr_pushes_one(sy: Seq<(Seq<char>, i64)>, m: Seq<char>, st: GenState, e: Expression)
    requires
        gen_expr(sy, m, st, e) is Ok,
        expr_fits(e),
    ensures
        code_delta(gen_expr(sy, m, st, e)->Ok_0.0) == 8,
    decreases e, 1int,
{
    let is = gen_expr(sy, m, st, e)->Ok_0.0;
    match e {
        Expression::Literal(_) | Expression::Variable(_) => {
            lemma_delta2(is[0], is[1]);
            assert(is =~= seq![is[0], is[1]]);
        },
        Expression::Binary { op, left, right } => {
            lemma_expr_pushes_one(sy, m, st, *left);
            let (c1, st1) = gen_expr(sy, m, st, *left)->Ok_0;
            lemma_expr_pushes_one(sy, m, st1, *right);
            let (c2, st2) = gen_expr(sy, m, st1, *right)->Ok_0;
            let pp = seq![InstrV::Pop(OperandV::Register(Register::RCX, OperandSize::Qword)),
                InstrV::Pop(OperandV::Register(Register::RAX, OperandSize::Qword))];
            let pu = seq![InstrV::Push(OperandV::Register(Register::RAX, OperandSize::Qword))];
            lemma_delta2(pp[0], pp[1]);
            lemma_delta1(pu[0]);
            lemma_binop_delta(op);
            lemma_delta_concat(c1, c2);
            lemma_delta_concat(c1 + c2, pp);
            lemma_delta_concat(c1 + c2 + pp, binop_code(op));
            lemma_delta_concat(c1 + c2 + pp + binop_code(op), pu);
        },
        Expression::Unary { op, operand } => {
            lemma_expr_pushes_one(sy, m, st, *operand);
            let (c1, st1) = gen_expr(sy, m, st, *operand)->Ok_0;
            let po = seq![InstrV::Pop(OperandV::Register(Register::RAX, OperandSize::Qword))];
            let pu = seq![InstrV::Push(OperandV::Register(Register::RAX, OperandSize::Qword))];
            lemma_delta1(po[0]);
            lemma_delta1(pu[0]);
            lemma_unop_delta(op, st1.counter);
            lemma_delta_concat(c1, po);
            lemma_delta_concat(c1 + po, unop_code(op, st1.counter));
            lemma_delta_concat(c1 + po + unop_code(op, st1.counter), pu);
        },
        Expression::Call { name, args } => {
            lemma_args_rev_push(sy, m, st, args@, 0);
            let (c1, st1) = gen_args_rev(sy, m, st, args@, 0)->Ok_0;
            let n = args@.len();
            let sub = seq![InstrV::Sub { dest: OperandV::Register(Register::RSP, OperandSize::Qword),
                src: OperandV::Immediate(SHADOW_SPACE) }];
            let k = if n < 4 { n as int } else { 4 };
            let extra = if n > 4 {
                seq![InstrV::Add { dest: OperandV::Register(Register::RSP, OperandSize::Qword),
                    src: OperandV::Immediate(((n - 4) * 8) as i64) }]
            } else {
                Seq::empty()
            };
            let pu = seq![InstrV::Push(OperandV::Register(Register::RAX, OperandSize::Qword))];
            lemma_delta1(sub[0]);
            lemma_delta1(pu[0]);
            if n > 4 {
                lemma_delta1(extra[0]);
                assert(extra =~= seq![extra[0]]);
            }
            lemma_pop_args_delta(k);
            lemma_call_cleanup_delta(name@, n as usize);
            lemma_delta_concat(sub, c1);
            lemma_delta_concat(sub + c1, pop_args(k));
            lemma_delta_concat(sub + c1 + pop_args(k), extra);
            lemma_delta_concat(sub + c1 + pop_args(k) + extra, call_cleanup(name@, n as usize));
            lemma_delta_concat(sub + c1 + pop_args(k) + extra + call_cleanup(name@, n as usize), pu);
        },
    }
}

/// The arguments `args[i..]` push one value each.
pub proof fn lemma_args_rev_push(sy: Seq<(Seq<char>, i64)>, m: Seq<char>, st: GenState, args: Seq<Expression>, i: int)
    requires
        gen_args_rev(sy, m, st, args, i) is Ok,
        args_fit(args, i),
    ensures
        code_delta(gen_args_rev(sy, m, st, args, i)->Ok_0.0) == if 0 <= i < args.len() { 8 * (args.len() - i) } else { 0 },
    decreases args, args.len() - i,
{
    if 0 <= i < args.len() {
        lemma_args_rev_push(sy, m, st, args, i + 1);
        let (c1, st1) = gen_args_rev(sy, m, st, args, i + 1)->Ok_0;
        lemma_expr_pushes_one(sy, m, st1, args[i]);
        let (c2, st2) = gen_expr(sy, m, st1, args[i])->Ok_0;
        lemma_delta_concat(c1, c2);
    }
}

/// The first `k` arguments, left to right, push one value each.
pub proof fn lemma_args_fwd_push(sy: Seq<(Seq<char>, i64)>, m: Seq<char>, st: GenState, args: Seq<Expression>, k: int)
    requires
        gen_args_fwd(sy, m, st, args, k) is Ok,
        args_fit(args, 0),
    ensures
        code_delta(gen_args_fwd(sy, m, st, args, k)->Ok_0.0) == if 0 < k <= args.len() { 8 * k } else { 0 },
    decreases k,
{
    if 0 < k <= args.len() {
        lemma_args_fwd_push(sy, m, st, args, k - 1);
        let (c1, st1) = gen_args_fwd(sy, m, st, args, k - 1)->Ok_0;
        lemma_args_fit_index(args, 0, k - 1);
        lemma_expr_pushes_one(sy, m, st1, args[k - 1]);
        let (c2, st2) = gen_expr(sy, m, st1, args[k - 1])->Ok_0;
        lemma_delta_concat(c1, c2);
    }
}

proof fn lemma_args_fit_index(args: Seq<Expression>, i: int, j: int)
    requires
        0 <= i <= j < args.len(),
        args_fit(args, i),
    ensures
        expr_fits(args[j]),
    decreases j - i,
{
    if i < j {
        lemma_args_fit_index(args, i + 1, j);
    }
}

proof fn lemma_stmts_fit_index(list: Seq<Statement>, i: int, j: int)
    requires
        0 <= i <= j < list.len(),
        stmts_fit(list, i),
    ensures
        stmt_fits(list[j]),
    decreases j - i,
{
    if i < j {
        lemma_stmts_fit_index(list, i + 1, j);
    }
}

/// Law: a sink statement leaves the stack as it found it.
pub proof fn lemma_sink_balanced(ctx: GenCtx, st: GenState, k: SinkCall)
    requires
        sink_code(ctx, st, k) is Ok,
        args_fit(k.args@, 0),
    ensures
        code_delta(sink_code(ctx, st, k)->Ok_0.0) == 0,
{
    let args = k.args@;
    let n = args.len();
    if n > 0 {
        let reserve = seq![InstrV::Sub { dest: OperandV::Register(Register::RSP, OperandSize::Qword),
            src: OperandV::Immediate(SHADOW_SPACE) }];
        lemma_delta1(reserve[0]);
        if k.name@ == "print"@ {
            lemma_args_fwd_push(ctx.sy, ctx.module, st, args, n as int);
            let (c1, st1) = gen_args_fwd(ctx.sy, ctx.module, st, args, n as int)->Ok_0;
            lemma_pop_last_delta(Register::RAX, Register::RCX, n as int);
            let head = c1 + pop_last(Register::RAX, Register::RCX, n as int) + reserve;
            lemma_delta_concat(c1, pop_last(Register::RAX, Register::RCX, n as int));
            lemma_delta_concat(c1 + pop_last(Register::RAX, Register::RCX, n as int), reserve);
            let is = print_code(ctx, st, args)->Ok_0.0;
            let tail = is.subrange(head.len() as int, is.len() as int);
            assert(is =~= head + tail);
            lemma_delta_concat(head, tail);
            if ctx.format == OutputFormat::RustSource {
                let t = if crate::codegen::is_string_literal(args.last()) { "bxen_print_str"@ } else { "bxen_print_int"@ };
                let mv = seq![tail[0]];
                lemma_delta1(tail[0]);
                lemma_call_cleanup_delta(t, 1);
                assert(tail =~= mv + call_cleanup(t, 1));
                lemma_delta_concat(mv, call_cleanup(t, 1));
            } else {
                let two = seq![tail[0], tail[1]];
                lemma_delta2(tail[0], tail[1]);
                lemma_call_cleanup_delta("printf"@, 2);
                assert(tail =~= two + call_cleanup("printf"@, 2));
                lemma_delta_concat(two, call_cleanup("printf"@, 2));
            }
        } else {
            let target = sink_target(ctx, k);
            let st0 = crate::codegen::with_extern(st, target);
            lemma_args_fwd_push(ctx.sy, ctx.module, st0, args, n as int);
            let (c1, st1) = gen_args_fwd(ctx.sy, ctx.module, st0, args, n as int)->Ok_0;
            lemma_pop_last_delta(Register::RCX, Register::RAX, n as int);
            lemma_call_cleanup_delta(target, 1);
            lemma_delta_concat(c1, pop_last(Register::RCX, Register::RAX, n as int));
            lemma_delta_concat(c1 + pop_last(Register::RCX, Register::RAX, n as int), reserve);
            lemma_delta_concat(c1 + pop_last(Register::RCX, Register::RAX, n as int) + reserve, call_cleanup(target, 1));
        }
    }
}

/// The extern a non-`print` sink calls.
spec fn sink_target(ctx: GenCtx, k: SinkCall) -> Seq<char> {
    let rust = ctx.format == OutputFormat::RustSource;
    if k.name@ == "puts"@ {
        if rust { "bxen_print_str"@ } else { "puts"@ }
    } else {
        if rust { "bxen_putchar"@ } else { "putchar"@ }
    }
}

/// Law: every statement leaves the stack as it found it.
pub proof fn lemma_stmt_balanced(ctx: GenCtx, st: GenState, s: Statement)
    requires
        gen_stmt(ctx, st, s) is Ok,
        stmt_fits(s),
    ensures
        code_delta(gen_stmt(ctx, st, s)->Ok_0.0) == 0,
    decreases s, 2int,
{
    let is = gen_stmt(ctx, st, s)->Ok_0.0;
    let pop_rax = InstrV::Pop(OperandV::Register(Register::RAX, OperandSize::Qword));
    lemma_delta1(pop_rax);
    match s {
        Statement::Expression(e) => {
            lemma_expr_pushes_one(ctx.sy, ctx.module, st, e);
            let (c1, st1) = gen_expr(ctx.sy, ctx.module, st, e)->Ok_0;
            lemma_delta_concat(c1, seq![pop_rax]);
        },
        Statement::Assignment(a) => {
            lemma_expr_pushes_one(ctx.sy, ctx.module, st, a.value);
            let (c1, st1) = gen_expr(ctx.sy, ctx.module, st, a.value)->Ok_0;
            let tail = is.subrange((c1.len() + 1) as int, is.len() as int);
            assert(is =~= c1 + seq![pop_rax] + tail);
            if tail.len() > 0 {
                lemma_delta1(tail[0]);
                assert(tail =~= seq![tail[0]]);
            }
            lemma_delta_concat(c1, seq![pop_rax]);
            lemma_delta_concat(c1 + seq![pop_rax], tail);
        },
        Statement::Sink(k) => {
            lemma_sink_balanced(ctx, st, k);
        },
        Statement::Return(r) => {
            let jmp = is.last();
            lemma_delta1(jmp);
            let head = is.drop_last();
            assert(is =~= head + seq![jmp]);
            lemma_delta_concat(head, seq![jmp]);
            match r.value {
                Some(v) => {
                    lemma_expr_pushes_one(ctx.sy, ctx.module, st, v);
                    let (c1, st1) = gen_expr(ctx.sy, ctx.module, st, v)->Ok_0;
                    assert(head =~= c1 + seq![pop_rax]);
                    lemma_delta_concat(c1, seq![pop_rax]);
                },
                None => {
                    assert(head =~= Seq::<InstrV>::empty());
                },
            }
        },
        Statement::If { .. } => {
            lemma_if_balanced(ctx, st, s);
        },
        Statement::While { .. } => {
            lemma_while_balanced(ctx, st, s);
        },
    }
}

proof fn lemma_if_balanced(ctx: GenCtx, st: GenState, s: Statement)
    requires
        gen_stmt(ctx, st, s) is Ok,
        stmt_fits(s),
        s is If,
    ensures
        code_delta(gen_stmt(ctx, st, s)->Ok_0.0) == 0,
    decreases s, 1int,
{
    let is = gen_stmt(ctx, st, s)->Ok_0.0;
    if let Statement::If { condition, then_branch, else_branch } = s {
        lemma_expr_pushes_one(ctx.sy, ctx.module, st, condition);
        let (c1, st1) = gen_expr(ctx.sy, ctx.module, st, condition)->Ok_0;
        let st2 = with_counter(st1, crate::codegen::next_count(crate::codegen::next_count(st1.counter)));
        lemma_stmts_balanced(ctx, st2, then_branch@, then_branch@.len() as int);
        let (c2, st3) = gen_stmts(ctx, st2, then_branch@, then_branch@.len() as int)->Ok_0;
        let c3 = match else_branch {
            Some(b) => {
                lemma_stmts_balanced(ctx, st3, b@, b@.len() as int);
                gen_stmts(ctx, st3, b@, b@.len() as int)->Ok_0.0
            },
            None => Seq::empty(),
        };
        let a = is.subrange(c1.len() as int, (c1.len() + 3) as int);
        let b2 = is.subrange((c1.len() + 3 + c2.len()) as int, (c1.len() + 5 + c2.len()) as int);
        let e = is.subrange((is.len() - 1) as int, is.len() as int);
        assert(is =~= c1 + a + c2 + b2 + c3 + e);
        lemma_delta3(a[0], a[1], a[2]);
        assert(a =~= seq![a[0], a[1], a[2]]);
        lemma_delta2(b2[0], b2[1]);
        assert(b2 =~= seq![b2[0], b2[1]]);
        lemma_delta1(e[0]);
        assert(e =~= seq![e[0]]);
        lemma_delta_concat(c1, a);
        lemma_delta_concat(c1 + a, c2);
        lemma_delta_concat(c1 + a + c2, b2);
        lemma_delta_concat(c1 + a + c2 + b2, c3);
        lemma_delta_concat(c1 + a + c2 + b2 + c3, e);
    }
}

proof fn lemma_while_balanced(ctx: GenCtx, st: GenState, s: Statement)
    requires
        gen_stmt(ctx, st, s) is Ok,
        stmt_fits(s),
        s is While,
    ensures
        code_delta(gen_stmt(ctx, st, s)->Ok_0.0) == 0,
    decreases s, 1int,
{
    let is = gen_stmt(ctx, st, s)->Ok_0.0;
    if let Statement::While { condition, body } = s {
        let st1 = with_counter(st, crate::codegen::next_count(crate::codegen::next_count(st.counter)));
        lemma_expr_pushes_one(ctx.sy, ctx.module, st1, condition);
        let (c1, st2) = gen_expr(ctx.sy, ctx.module, st1, condition)->Ok_0;
        lemma_stmts_balanced(ctx, st2, body@, body@.len() as int);
        let (c2, st3) = gen_stmts(ctx, st2, body@, body@.len() as int)->Ok_0;
        let l = is.subrange(0, 1);
        let a = is.subrange((1 + c1.len()) as int, (4 + c1.len()) as int);
        let e = is.subrange((is.len() - 2) as int, is.len() as int);
        assert(is =~= l + c1 + a + c2 + e);
        lemma_delta1(l[0]);
        assert(l =~= seq![l[0]]);
        lemma_delta3(a[0], a[1], a[2]);
        assert(a =~= seq![a[0], a[1], a[2]]);
        lemma_delta2(e[0], e[1]);
        assert(e =~= seq![e[0], e[1]]);
        lemma_delta_concat(l, c1);
        lemma_delta_concat(l + c1, a);
        lemma_delta_concat(l + c1 + a, c2);
        lemma_delta_concat(l + c1 + a + c2, e);
    }
}

/// Law: a block leaves the stack as it found it.
pub proof fn lemma_stmts_balanced(ctx: GenCtx, st: GenState, list: Seq<Statement>, k: int)
    requires
        gen_stmts(ctx, st, list, k) is Ok,
        stmts_fit(list, 0),
    ensures
        code_delta(gen_stmts(ctx, st, list, k)->Ok_0.0) == 0,
    decreases list, k,
{
    if 0 < k <= list.len() {
        lemma_stmts_balanced(ctx, st, list, k - 1);
        let (c1, st1) = gen_stmts(ctx, st, list, k - 1)->Ok_0;
        lemma_stmts_fit_index(list, 0, k - 1);
        lemma_stmt_balanced(ctx, st1, list[k - 1]);
        let (c2, st2) = gen_stmt(ctx, st1, list[k - 1])->Ok_0;
        lemma_delta_concat(c1, c2);
    }
}

proof fn lemma_home_moves_delta(t: crate::codegen::SymView, ps: Seq<Parameter>, k: int)
    ensures
        code_delta(home_moves(t, ps, k)) == 0,
    decreases k,
{
    if k > 0 && k <= ps.len() {
        lemma_home_moves_delta(t, ps, k - 1);
        if k <= 4 {
            assert(home_moves(t, ps, k).drop_last() =~= home_moves(t, ps, k - 1));
        }
    }
}

proof fn lemma_frame_delta(frame: i64)
    ensures
        code_delta(prologue(frame)) == 16 + frame,
        code_delta(epilogue(frame)) == -16 - frame,
{
    let p = prologue(frame);
    lemma_delta4(p[0], p[1], p[2], p[3]);
    assert(p =~= seq![p[0], p[1], p[2], p[3]]);
    let e = epilogue(frame);
    lemma_delta4(e[0], e[1], e[2], e[3]);
    assert(e =~= seq![e[0], e[1], e[2], e[3]]);
}

/// Law: a function's code, prologue to `ret`, leaves the stack as it found
/// it.
pub proof fn lemma_function_balanced(module: Seq<char>, format: OutputFormat, st: GenState, f: FunctionBlock)
    requires
        gen_function(module, format, st, f) is Ok,
        function_fits(f),
    ensures
        code_delta(gen_function(module, format, st, f)->Ok_0.0) == 0,
{
    let t = function_symbols(f);
    let frame = frame_size(t) as i64;
    let ep = crate::codegen::label_text(f.name@ + "_epilogue"@, st.counter);
    let st1 = with_counter(st, crate::codegen::next_count(st.counter));
    let ctx = GenCtx { sy: t.0, module, format, epilogue: Some(ep) };
    lemma_stmts_balanced(ctx, st1, f.body@, f.body@.len() as int);
    let (cb, st2) = gen_stmts(ctx, st1, f.body@, f.body@.len() as int)->Ok_0;
    let l1 = seq![InstrV::Label(f.name@)];
    let l2 = seq![InstrV::Label(ep)];
    let hm = home_moves(t, f.params@, f.params@.len() as int);
    lemma_delta1(l1[0]);
    lemma_delta1(l2[0]);
    lemma_frame_delta(frame);
    lemma_home_moves_delta(t, f.params@, f.params@.len() as int);
    lemma_delta_concat(l1, prologue(frame));
    lemma_delta_concat(l1 + prologue(frame), hm);
    lemma_delta_concat(l1 + prologue(frame) + hm, cb);
    lemma_delta_concat(l1 + prologue(frame) + hm + cb, l2);
    lemma_delta_concat(l1 + prologue(frame) + hm + cb + l2, epilogue(frame));
}

/// The first `k` functions of a module leave the stack as they found it.
pub proof fn lemma_functions_balanced(module: Seq<char>, format: OutputFormat, st: GenState, fs: Seq<FunctionBlock>, k: int)
    requires
        gen_functions(module, format, st, fs, k) is Ok,
        functions_fit(fs, k),
    ensures
        code_delta(gen_functions(module, format, st, fs, k)->Ok_0.0) == 0,
    decreases k,
{
    if 0 < k <= fs.len() {
        lemma_functions_balanced(module, format, st, fs, k - 1);
        let (c1, st1) = gen_functions(module, format, st, fs, k - 1)->Ok_0;
        lemma_function_balanced(module, format, st1, fs[k - 1]);
        let (c2, st2) = gen_function(module, format, st1, fs[k - 1])->Ok_0;
        lemma_delta_concat(c1, c2);
    }
}

/// Law: the code of a module, read straight through, leaves the stack
/// where it found it: functions, prologue, statements, exit sequence and
/// epilogue are balanced together.
pub proof fn lemma_module_stack(format: OutputFormat, epi: Option<Seq<char>>, st: GenState, m: ModuleBlock,
    globals: Seq<Parameter>)
    requires
        gen_module(format, epi, st, m, globals) is Ok,
        module_fits(m, globals.len() as int),
    ensures
        code_delta(gen_module(format, epi, st, m, globals)->Ok_0.0) == 0,
{
    let mt = m.name@;
    let st0 = crate::codegen::with_extern(st, "ExitProcess"@);
    lemma_functions_balanced(mt, format, st0, m.functions@, m.functions@.len() as int);
    let (cf, st1) = gen_functions(mt, format, st0, m.functions@, m.functions@.len() as int)->Ok_0;
    let entry = crate::codegen::label_text("entry"@, st1.counter);
    let st2 = with_counter(st1, crate::codegen::next_count(st1.counter));
    let inputs = globals + m.inputs@;
    let t = module_symbols(m, inputs);
    let frame = frame_size(t) as i64;
    let epi1 = if m.functions@.len() > 0 { None } else { epi };
    let ctx = GenCtx { sy: t.0, module: mt, format, epilogue: epi1 };
    lemma_stmts_balanced(ctx, st2, m.statements@, m.statements@.len() as int);
    let (cs, st3) = gen_stmts(ctx, st2, m.statements@, m.statements@.len() as int)->Ok_0;
    let l = seq![InstrV::Label(entry)];
    let hm = home_moves(t, inputs, inputs.len() as int);
    lemma_delta1(l[0]);
    lemma_frame_delta(frame);
    lemma_home_moves_delta(t, inputs, inputs.len() as int);
    let x = exit_code();
    let x2 = seq![x[0], x[1]];
    lemma_delta2(x[0], x[1]);
    lemma_call_cleanup_delta("ExitProcess"@, 1);
    assert(x =~= x2 + call_cleanup("ExitProcess"@, 1));
    lemma_delta_concat(x2, call_cleanup("ExitProcess"@, 1));
    lemma_delta_concat(cf, l);
    lemma_delta_concat(cf + l, prologue(frame));
    lemma_delta_concat(cf + l + prologue(frame), hm);
    lemma_delta_concat(cf + l + prologue(frame) + hm, cs);
    lemma_delta_concat(cf + l + prologue(frame) + hm + cs, x);
    lemma_delta_concat(cf + l + prologue(frame) + hm + cs + x, epilogue(frame));
}

/// Law: every module that lowering a whole program yields (what
/// `generate_modules` returns, module by module) leaves the stack where it
/// found it, read straight through.
pub proof fn lemma_program_stack(format: OutputFormat, epi: Option<Seq<char>>, p: crate::ast::Program,
    g: Seq<Parameter>, k: int)
    requires
        crate::codegen::program_fits(p),
        crate::codegen::globals_of(p, g),
        0 <= k <= p.modules@.len(),
        crate::codegen::gen_program(format, epi, p.modules@, g, k) is Ok,
    ensures
        crate::codegen::gen_program(format, epi, p.modules@, g, k)->Ok_0.0.len() == k,
        forall|i: int| 0 <= i < k ==> code_delta(
            (#[trigger] crate::codegen::gen_program(format, epi, p.modules@, g, k)->Ok_0.0[i]).0) == 0,
    decreases k,
{
    if k > 0 {
        let ms = p.modules@;
        lemma_program_stack(format, epi, p, g, k - 1);
        let (done, e) = crate::codegen::gen_program(format, epi, ms, g, k - 1)->Ok_0;
        let (is, st, e2) = crate::codegen::fresh_module_result(format, e, ms[k - 1], g)->Ok_0;
        assert(crate::codegen::gen_program(format, epi, ms, g, k)->Ok_0.0 == done.push((is, st)));
        reveal(crate::codegen::fresh_module_result);
        assert(module_fits(ms[k - 1], crate::codegen::n_globals(p)));
        lemma_module_stack(format, e, crate::codegen::fresh_state(), ms[k - 1], g);
        let all = crate::codegen::gen_program(format, epi, ms, g, k)->Ok_0.0;
        assert forall|i: int| 0 <= i < k implies code_delta((#[trigger] all[i]).0) == 0 by {
            if i < k - 1 {
                assert(all[i] == done[i]);
            }
        }
    }
}

} // verus!
