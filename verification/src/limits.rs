//! Checking that a program is within the machine limits of lowering: few
//! enough call arguments and declarations for every stack offset to fit.

use vstd::prelude::*;
use crate::ast::{Expression, FunctionBlock, ModuleBlock, Program, Statement};
use crate::codegen::{
    args_fit, assign_count, assign_counts, decl_count_ok, expr_fits, fn_assign_counts, function_fits, functions_fit,
    module_fits, n_globals, program_fits, stmt_fits, stmts_fit,
};

verus! {

/// One more than the most declarations lowering takes.
pub const COUNT_CAP: u64 = 0x0800_0000_0000_0001;

/// A count, saturated at `COUNT_CAP`.
pub open spec fn sat(n: int) -> int {
    if n < COUNT_CAP { n } else { COUNT_CAP as int }
}

/// The saturated sum of two saturated counts.
fn sat_add(a: u64, b: u64) -> (r: u64)
    requires
        a <= COUNT_CAP,
        b <= COUNT_CAP,
    ensures
        r == sat(a + b),
{
    if a + b >= COUNT_CAP { COUNT_CAP } else { a + b }
}

/// A saturated length.
fn sat_len(n: usize) -> (r: u64)
    ensures
        r == sat(n as int),
{
    if n as u64 >= COUNT_CAP { COUNT_CAP } else { n as u64 }
}

/// Whether every call in an expression has few enough arguments.
fn check_expr(e: &Expression) -> (r: bool)
    ensures
        r == expr_fits(*e),
    decreases e, 1int,
{
    match e {
        Expression::Binary { left, right, .. } => check_expr(left) && check_expr(right),
        Expression::Unary { operand, .. } => check_expr(operand),
        Expression::Call { args, .. } => args.len() as u64 <= 0x0FFF_FFFF_FFFF_FFFFu64 && check_args(args),
        _ => true,
    }
}

/// `check_expr` for every argument.
fn check_args(args: &Vec<Expression>) -> (r: bool)
    ensures
        r == args_fit(args@, 0),
    decreases args, 0int,
{
    let mut i: usize = args.len();
    let mut ok = true;
    while i > 0
        invariant
            i <= args@.len(),
            ok == args_fit(args@, i as int),
        decreases i,
    {
        i = i - 1;
        let a = check_expr(&args[i]);
        ok = a && ok;
    }
    ok
}

/// `check_expr` for every expression of a statement.
fn check_stmt(s: &Statement) -> (r: bool)
    ensures
        r == stmt_fits(*s),
    decreases s, 1int,
{
    match s {
        Statement::Expression(e) => check_expr(e),
        Statement::Assignment(a) => check_expr(&a.value),
        Statement::Sink(k) => check_args(&k.args),
        Statement::Return(r) => match &r.value {
            Some(v) => check_expr(v),
            None => true,
        },
        Statement::If { condition, then_branch, else_branch } => {
            let c = check_expr(condition);
            let t = check_stmts(then_branch);
            let e = match else_branch {
                Some(b) => check_stmts(b),
                None => true,
            };
            c && t && e
        },
        Statement::While { condition, body } => {
            let c = check_expr(condition);
            let b = check_stmts(body);
            c && b
        },
    }
}

/// `check_stmt` for every statement of a block.
fn check_stmts(list: &Vec<Statement>) -> (r: bool)
    ensures
        r == stmts_fit(list@, 0),
    decreases list, 0int,
{
    let mut i: usize = list.len();
    let mut ok = true;
    while i > 0
        invariant
            i <= list@.len(),
            ok == stmts_fit(list@, i as int),
        decreases i,
    {
        i = i - 1;
        let a = check_stmt(&list[i]);
        ok = a && ok;
    }
    ok
}

/// The assignments a statement makes, nested blocks included, saturated.
fn count_stmt(s: &Statement) -> (r: u64)
    ensures
        r == sat(assign_count(*s) as int),
    decreases s, 1int,
{
    match s {
        Statement::Assignment(_) => 1,
        Statement::If { then_branch, else_branch, .. } => {
            let t = count_stmts(then_branch);
            let e = match else_branch {
                Some(b) => count_stmts(b),
                None => 0,
            };
            sat_add(t, e)
        },
        Statement::While { body, .. } => count_stmts(body),
        _ => 0,
    }
}

/// The assignments of a block, saturated.
fn count_stmts(list: &Vec<Statement>) -> (r: u64)
    ensures
        r == sat(assign_counts(list@, list@.len() as int) as int),
    decreases list, 0int,
{
    let mut i: usize = 0;
    let mut n: u64 = 0;
    while i < list.len()
        invariant
            i <= list@.len(),
            n == sat(assign_counts(list@, i as int) as int),
        decreases list@.len() - i,
    {
        let c = count_stmt(&list[i]);
        n = sat_add(n, c);
        i = i + 1;
    }
    n
}

/// Whether a function can be lowered without overflow.
fn check_function(f: &FunctionBlock) -> (r: bool)
    ensures
        r == function_fits(*f),
{
    let body_ok = check_stmts(&f.body);
    let n = sat_add(sat_len(f.params.len()), count_stmts(&f.body));
    body_ok && n <= 0x0800_0000_0000_0000u64
}

/// Whether a module can be lowered, with `globals` global inputs, without
/// overflow.
fn check_module(m: &ModuleBlock, globals: usize) -> (r: bool)
    ensures
        r == module_fits(*m, globals as int),
{
    let mut fns_ok = true;
    let mut fn_counts: u64 = 0;
    let mut i: usize = 0;
    while i < m.functions.len()
        invariant
            i <= m.functions@.len(),
            fns_ok == functions_fit(m.functions@, i as int),
            fn_counts == sat(fn_assign_counts(m.functions@, i as int) as int),
        decreases m.functions@.len() - i,
    {
        let ok = check_function(&m.functions[i]);
        fns_ok = fns_ok && ok;
        fn_counts = sat_add(fn_counts, count_stmts(&m.functions[i].body));
        i = i + 1;
    }
    let stmts_ok = check_stmts(&m.statements);
    let n = sat_add(sat_add(sat_add(sat_len(globals), sat_len(m.inputs.len())), count_stmts(&m.statements)), fn_counts);
    fns_ok && stmts_ok && n <= 0x0800_0000_0000_0000u64
}

/// Whether every module of a program can be lowered without overflow: the
/// test that `generate` and `generate_modules` need passed.
pub fn check_program_fits(p: &Program) -> (r: bool)
    ensures
        r == program_fits(*p),
{
    let globals = match &p.inputs {
        Some(ib) => ib.items.len(),
        None => 0,
    };
    assert(globals == n_globals(*p));
    let mut i: usize = 0;
    while i < p.modules.len()
        invariant
            i <= p.modules@.len(),
            globals == n_globals(*p),
            forall|j: int| 0 <= j < i ==> module_fits(#[trigger] p.modules@[j], n_globals(*p)),
        decreases p.modules@.len() - i,
    {
        if !check_module(&p.modules[i], globals) {
            return false;
        }
        i = i + 1;
    }
    true
}

} // verus!
