//! A model of what the x86-64 instructions that expression lowering uses do
//! to RAX, RCX, RDX and the flags, and the law that the instructions chosen
//! for each binary operator compute that operator.

use vstd::prelude::*;
use vstd::arithmetic::power2::pow2;
use crate::ast::{BinaryOp, UnaryOp};
use crate::codegen::{binop_code, unop_code};
use crate::ir::{Conditional, InstrV, OperandSize, OperandV, Register};

verus! {

/// 2^63.
pub open spec fn two63() -> int {
    0x8000_0000_0000_0000
}

/// 2^64.
pub open spec fn two64() -> int {
    0x1_0000_0000_0000_0000
}

/// The registers the model follows, as signed 64-bit values, and the
/// operands of the last `cmp` if no instruction has changed the flags since.
pub struct Regs {
    pub rax: int,
    pub rcx: int,
    pub rdx: int,
    pub compared: Option<(int, int)>,
}

/// `x` reduced to a signed 64-bit value (two's complement wrap-around).
pub open spec fn wrap64(x: int) -> int {
    (x + two63()) % two64() - two63()
}

/// The unsigned reading of the bits of a signed 64-bit value.
pub open spec fn unsigned64(x: int) -> int {
    if x < 0 { x + two64() } else { x }
}

/// |x|.
pub open spec fn abs(x: int) -> int {
    if x < 0 { -x } else { x }
}

/// Division rounding towards zero.
pub open spec fn tdiv(n: int, d: int) -> int {
    if (n < 0) == (d < 0) { abs(n) / abs(d) } else { -(abs(n) / abs(d)) }
}

/// The remainder of division rounding towards zero (it has the sign of `n`).
pub open spec fn trem(n: int, d: int) -> int {
    n - d * tdiv(n, d)
}

/// Bitwise and of two signed 64-bit values.
pub open spec fn and64(a: int, b: int) -> int {
    ((a as i64) & (b as i64)) as int
}

/// Bitwise or of two signed 64-bit values.
pub open spec fn or64(a: int, b: int) -> int {
    ((a as i64) | (b as i64)) as int
}

/// Bitwise exclusive or of two signed 64-bit values.
pub open spec fn xor64(a: int, b: int) -> int {
    ((a as i64) ^ (b as i64)) as int
}

/// Whether a signed condition holds of the operands of `cmp l, r`.
pub open spec fn cond_holds(c: Conditional, l: int, r: int) -> bool {
    match c {
        Conditional::E => l == r,
        Conditional::NE => l != r,
        Conditional::L => l < r,
        Conditional::LE => l <= r,
        Conditional::G => l > r,
        Conditional::GE => l >= r,
    }
}

/// The value of a followed register.
pub open spec fn reg_of(s: Regs, r: Register) -> Option<int> {
    match r {
        Register::RAX => Some(s.rax),
        Register::RCX => Some(s.rcx),
        Register::RDX => Some(s.rdx),
        _ => None,
    }
}

/// `s` with a followed register set to `v`.
pub open spec fn with_reg(s: Regs, r: Register, v: int) -> Regs {
    match r {
        Register::RAX => Regs { rax: v, ..s },
        Register::RCX => Regs { rcx: v, ..s },
        _ => Regs { rdx: v, ..s },
    }
}

/// The value of a 64-bit register operand or of an immediate.
pub open spec fn read_q(s: Regs, o: OperandV) -> Option<int> {
    match o {
        OperandV::Register(r, OperandSize::Qword) => reg_of(s, r),
        OperandV::Immediate(v) => Some(v as int),
        _ => None,
    }
}

/// The low byte of a register operand, unsigned.
pub open spec fn read_b(s: Regs, o: OperandV) -> Option<int> {
    match o {
        OperandV::Register(r, OperandSize::Byte) => match reg_of(s, r) {
            Some(v) => Some(v % 256),
            None => None,
        },
        _ => None,
    }
}

/// `s` with the 64-bit register operand `dest` set to `v`; the flags are
/// kept or become unknown.
pub open spec fn write_q(s: Regs, dest: OperandV, v: int, keep_flags: bool) -> Option<Regs> {
    match dest {
        OperandV::Register(r, OperandSize::Qword) => match reg_of(s, r) {
            Some(_) => {
                let t = with_reg(s, r, v);
                Some(if keep_flags { t } else { Regs { compared: None, ..t } })
            },
            None => None,
        },
        _ => None,
    }
}

/// An instruction that reads `dest` and `src` and writes `f(dest, src)`
/// into `dest`, leaving the flags unknown.
pub open spec fn alu(s: Regs, dest: OperandV, src: OperandV, f: spec_fn(int, int) -> int) -> Option<Regs> {
    match (read_q(s, dest), read_q(s, src)) {
        (Some(a), Some(b)) => write_q(s, dest, f(a, b), false),
        _ => None,
    }
}

/// A shift of `dest` by the low byte of `count`, taken modulo 64.
pub open spec fn shift(s: Regs, dest: OperandV, count: OperandV, left: bool) -> Option<Regs> {
    match (read_q(s, dest), read_b(s, count)) {
        (Some(a), Some(c)) => {
            let k = (c % 64) as nat;
            write_q(s, dest, if left { wrap64(a * pow2(k)) } else { wrap64(unsigned64(a) / (pow2(k) as int)) }, false)
        },
        _ => None,
    }
}

/// The effect of one instruction, or `None` where the model does not
/// follow it (an operand it does not track, a division fault).
pub open spec fn step(s: Regs, i: InstrV) -> Option<Regs> {
    match i {
        InstrV::Mov { dest, src } => match read_q(s, src) {
            Some(v) => write_q(s, dest, v, true),
            None => None,
        },
        InstrV::Add { dest, src } => alu(s, dest, src, |a: int, b: int| wrap64(a + b)),
        InstrV::Sub { dest, src } => alu(s, dest, src, |a: int, b: int| wrap64(a - b)),
        InstrV::Imul { dest, src } => alu(s, dest, src, |a: int, b: int| wrap64(a * b)),
        InstrV::And { dest, src } => alu(s, dest, src, |a: int, b: int| and64(a, b)),
        InstrV::Or { dest, src } => alu(s, dest, src, |a: int, b: int| or64(a, b)),
        InstrV::Xor { dest, src } => alu(s, dest, src, |a: int, b: int| xor64(a, b)),
        InstrV::Neg { dest } => match read_q(s, dest) {
            Some(a) => write_q(s, dest, wrap64(-a), false),
            None => None,
        },
        InstrV::Cqo => Some(Regs { rdx: if s.rax < 0 { -1 } else { 0 }, ..s }),
        InstrV::Idiv { src } => match read_q(s, src) {
            Some(d) => {
                let n = s.rdx * two64() + unsigned64(s.rax);
                let q = tdiv(n, d);
                if d == 0 || q < -two63() || q >= two63() {
                    None
                } else {
                    Some(Regs { rax: q, rdx: trem(n, d), compared: None, ..s })
                }
            },
            None => None,
        },
        InstrV::Shl { dest, count } => shift(s, dest, count, true),
        InstrV::Shr { dest, count } => shift(s, dest, count, false),
        InstrV::Cmp { left, right } => match (read_q(s, left), read_q(s, right)) {
            (Some(l), Some(r)) => Some(Regs { compared: Some((l, r)), ..s }),
            _ => None,
        },
        InstrV::Setcc { cond, dest } => match (dest, s.compared) {
            (OperandV::Register(r, OperandSize::Byte), Some((l, rr))) => match reg_of(s, r) {
                Some(v) => Some(with_reg(s, r, v - v % 256 + if cond_holds(cond, l, rr) { 1int } else { 0 })),
                None => None,
            },
            _ => None,
        },
        InstrV::Movzx { dest, src } => match read_b(s, src) {
            Some(v) => write_q(s, dest, v, true),
            None => None,
        },
        _ => None,
    }
}

/// The state after the first `n` instructions of `is`.
pub open spec fn run_n(s: Regs, is: Seq<InstrV>, n: int) -> Option<Regs>
    decreases n,
{
    if n <= 0 {
        Some(s)
    } else {
        match run_n(s, is, n - 1) {
            Some(t) => step(t, is[n - 1]),
            None => None,
        }
    }
}

/// The state after all of `is`.
pub open spec fn run(s: Regs, is: Seq<InstrV>) -> Option<Regs> {
    run_n(s, is, is.len() as int)
}

/// What a binary operator of the language means on two 64-bit values:
/// wrap-around `+ - *`, division and remainder rounding towards zero,
/// bitwise `& | ^`, shifts by the count modulo 64 (`>>` shifting in
/// zeros), and comparisons giving 1 or 0.
pub open spec fn op_value(op: BinaryOp, a: i64, b: i64) -> int {
    let k = (b % 64) as nat;
    match op {
        BinaryOp::Add => wrap64(a + b),
        BinaryOp::Sub => wrap64(a - b),
        BinaryOp::Mul => wrap64(a * b),
        BinaryOp::Div => tdiv(a as int, b as int),
        BinaryOp::Mod => trem(a as int, b as int),
        BinaryOp::BitAnd => (a & b) as int,
        BinaryOp::BitOr => (a | b) as int,
        BinaryOp::BitXor => (a ^ b) as int,
        BinaryOp::Shl => wrap64(a * pow2(k)),
        BinaryOp::Shr => wrap64(unsigned64(a as int) / (pow2(k) as int)),
        BinaryOp::Eq => if a == b { 1 } else { 0 },
        BinaryOp::Ne => if a != b { 1 } else { 0 },
        BinaryOp::Lt => if a < b { 1 } else { 0 },
        BinaryOp::Le => if a <= b { 1 } else { 0 },
        BinaryOp::Gt => if a > b { 1 } else { 0 },
        BinaryOp::Ge => if a >= b { 1 } else { 0 },
    }
}

/// Where a binary operator is defined on `a` and `b`: division and
/// remainder by zero, and of the least value by -1, fault.
pub open spec fn op_defined(op: BinaryOp, a: i64, b: i64) -> bool {
    (op == BinaryOp::Div || op == BinaryOp::Mod) ==> b != 0 && !(a == i64::MIN && b == -1)
}

/// The quotient of two 64-bit values rounding towards zero fits 64 bits,
/// but for the least value divided by -1.
proof fn lemma_tdiv_fits(a: i64, b: i64)
    requires
        b != 0,
        !(a == i64::MIN && b == -1),
    ensures
        -two63() <= tdiv(a as int, b as int) < two63(),
{
    let x = abs(a as int);
    let y = abs(b as int);
    assert(0 <= x <= two63());
    assert(y >= 1);
    if y == 1 {
        assert(x / 1 == x);
        if b == -1 {
            assert(a != i64::MIN);
        }
    } else {
        vstd::arithmetic::div_mod::lemma_div_is_ordered_by_denominator(x, 2, y);
        assert(x / 2 <= two63() / 2);
    }
}

/// `(v - v % 256 + bit) % 256 == bit` for a bit.
proof fn lemma_low_byte(v: int, bit: int)
    requires
        0 <= bit < 256,
    ensures
        (v - v % 256 + bit) % 256 == bit,
{
    vstd::arithmetic::div_mod::lemma_fundamental_div_mod(v, 256);
    assert(v - v % 256 == 256 * (v / 256));
    vstd::arithmetic::div_mod::lemma_mod_multiples_vanish(v / 256, bit, 256);
}

proof fn lemma_run1(s: Regs, x: InstrV)
    ensures
        run(s, seq![x]) == step(s, x),
{
    reveal_with_fuel(run_n, 2);
}

proof fn lemma_run2(s: Regs, x: InstrV, y: InstrV)
    ensures
        run(s, seq![x, y]) == (match step(s, x) {
            Some(t) => step(t, y),
            None => None,
        }),
{
    reveal_with_fuel(run_n, 3);
}

proof fn lemma_run3(s: Regs, x: InstrV, y: InstrV, z: InstrV)
    ensures
        run(s, seq![x, y, z]) == (match step(s, x) {
            Some(t) => match step(t, y) {
                Some(u) => step(u, z),
                None => None,
            },
            None => None,
        }),
{
    reveal_with_fuel(run_n, 4);
}

proof fn lemma_division(op: BinaryOp, a: i64, b: i64, s: Regs)
    requires
        s.rax == a,
        s.rcx == b,
        op == BinaryOp::Div || op == BinaryOp::Mod,
        op_defined(op, a, b),
    ensures
        run(s, binop_code(op)) matches Some(t) && t.rax == op_value(op, a, b),
{
    lemma_tdiv_fits(a, b);
    let rax = OperandV::Register(Register::RAX, OperandSize::Qword);
    let rcx = OperandV::Register(Register::RCX, OperandSize::Qword);
    let rdx = OperandV::Register(Register::RDX, OperandSize::Qword);
    let s1 = Regs { rdx: if a < 0 { -1 } else { 0 }, ..s };
    assert(step(s, InstrV::Cqo) == Some(s1));
    assert(s1.rdx * two64() + unsigned64(s1.rax) == a);
    let s2 = Regs { rax: tdiv(a as int, b as int), rdx: trem(a as int, b as int), compared: None, ..s1 };
    assert(step(s1, InstrV::Idiv { src: rcx }) == Some(s2));
    if op == BinaryOp::Div {
        lemma_run2(s, InstrV::Cqo, InstrV::Idiv { src: rcx });
    } else {
        lemma_run3(s, InstrV::Cqo, InstrV::Idiv { src: rcx }, InstrV::Mov { dest: rax, src: rdx });
    }
}

proof fn lemma_shift(op: BinaryOp, a: i64, b: i64, s: Regs)
    requires
        s.rax == a,
        s.rcx == b,
        op == BinaryOp::Shl || op == BinaryOp::Shr,
    ensures
        run(s, binop_code(op)) matches Some(t) && t.rax == op_value(op, a, b),
{
    vstd::arithmetic::div_mod::lemma_mod_mod(b as int, 64, 4);
    assert((b as int % 256) % 64 == b as int % 64);
    let rax = OperandV::Register(Register::RAX, OperandSize::Qword);
    let cl = OperandV::Register(Register::RCX, OperandSize::Byte);
    if op == BinaryOp::Shl {
        lemma_run1(s, InstrV::Shl { dest: rax, count: cl });
    } else {
        lemma_run1(s, InstrV::Shr { dest: rax, count: cl });
    }
}

proof fn lemma_compare(op: BinaryOp, a: i64, b: i64, s: Regs, c: Conditional)
    requires
        s.rax == a,
        s.rcx == b,
        binop_code(op) == seq![
            InstrV::Cmp { left: OperandV::Register(Register::RAX, OperandSize::Qword), right: OperandV::Register(Register::RCX, OperandSize::Qword) },
            InstrV::Setcc { cond: c, dest: OperandV::Register(Register::RAX, OperandSize::Byte) },
            InstrV::Movzx { dest: OperandV::Register(Register::RAX, OperandSize::Qword), src: OperandV::Register(Register::RAX, OperandSize::Byte) },
        ],
    ensures
        run(s, binop_code(op)) matches Some(t) && t.rax == (if cond_holds(c, a as int, b as int) { 1int } else { 0 }),
{
    let bit: int = if cond_holds(c, a as int, b as int) { 1 } else { 0 };
    lemma_low_byte(a as int, bit);
    lemma_run3(s,
        InstrV::Cmp { left: OperandV::Register(Register::RAX, OperandSize::Qword), right: OperandV::Register(Register::RCX, OperandSize::Qword) },
        InstrV::Setcc { cond: c, dest: OperandV::Register(Register::RAX, OperandSize::Byte) },
        InstrV::Movzx { dest: OperandV::Register(Register::RAX, OperandSize::Qword), src: OperandV::Register(Register::RAX, OperandSize::Byte) });
}

/// Law: the instructions that lowering emits for a binary operator, run
/// with the left operand in RAX and the right one in RCX, leave in RAX the
/// value of that operator, wherever it is defined.
pub proof fn lemma_binop_computes(op: BinaryOp, a: i64, b: i64, s: Regs)
    requires
        s.rax == a,
        s.rcx == b,
        op_defined(op, a, b),
    ensures
        run(s, binop_code(op)) matches Some(t) && t.rax == op_value(op, a, b),
{
    let rax = OperandV::Register(Register::RAX, OperandSize::Qword);
    let rcx = OperandV::Register(Register::RCX, OperandSize::Qword);
    match op {
        BinaryOp::Div | BinaryOp::Mod => lemma_division(op, a, b, s),
        BinaryOp::Shl | BinaryOp::Shr => lemma_shift(op, a, b, s),
        BinaryOp::Eq => lemma_compare(op, a, b, s, Conditional::E),
        BinaryOp::Ne => lemma_compare(op, a, b, s, Conditional::NE),
        BinaryOp::Lt => lemma_compare(op, a, b, s, Conditional::L),
        BinaryOp::Le => lemma_compare(op, a, b, s, Conditional::LE),
        BinaryOp::Gt => lemma_compare(op, a, b, s, Conditional::G),
        BinaryOp::Ge => lemma_compare(op, a, b, s, Conditional::GE),
        BinaryOp::Add => lemma_run1(s, InstrV::Add { dest: rax, src: rcx }),
        BinaryOp::Sub => lemma_run1(s, InstrV::Sub { dest: rax, src: rcx }),
        BinaryOp::Mul => lemma_run1(s, InstrV::Imul { dest: rax, src: rcx }),
        BinaryOp::BitAnd => lemma_run1(s, InstrV::And { dest: rax, src: rcx }),
        BinaryOp::BitOr => lemma_run1(s, InstrV::Or { dest: rax, src: rcx }),
        BinaryOp::BitXor => lemma_run1(s, InstrV::Xor { dest: rax, src: rcx }),
    }
}

/// Law: the instructions that lowering emits for the prefix operators
/// other than `!` leave in RAX, for any value in RAX, that value itself
/// (`+`), its wrap-around negation (`-`) or its bitwise complement (`~`).
pub proof fn lemma_unop_computes(op: UnaryOp, c: usize, a: i64, s: Regs)
    requires
        s.rax == a,
        op != UnaryOp::Not,
    ensures
        run(s, unop_code(op, c)) matches Some(t) && t.rax == (match op {
            UnaryOp::Negate => wrap64(-a),
            UnaryOp::BitNot => (!a) as int,
            _ => a as int,
        }),
{
    let rax = OperandV::Register(Register::RAX, OperandSize::Qword);
    match op {
        UnaryOp::Negate => lemma_run1(s, InstrV::Neg { dest: rax }),
        UnaryOp::BitNot => {
            lemma_run1(s, InstrV::Xor { dest: rax, src: OperandV::Immediate(-1i64) });
            assert(a ^ -1i64 == !a) by (bit_vector);
        },
        _ => {
            assert(unop_code(op, c) =~= Seq::<InstrV>::empty());
            reveal_with_fuel(run_n, 1);
        },
    }
}

} // verus!
