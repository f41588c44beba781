//! The x86-64 instruction model that code generation produces, and its
//! NASM (Intel syntax) text rendering.

use vstd::prelude::*;
use crate::text::{int_text, nat_digits, push_int, push_nat, push_str, push_string};

verus! {

/// Width of an operand.
#[derive(Debug, Clone, Copy, PartialEq, Eq, Structural)]
pub enum OperandSize {
    Byte,
    Word,
    Dword,
    Qword,
    Xmm,
    Ymm,
    Zmm,
}

/// General-purpose and SSE registers.
#[derive(Debug, Clone, Copy, PartialEq, Eq, Structural)]
pub enum Register {
    RAX, RBX, RCX, RDX, RSI, RDI, RBP, RSP,
    R8, R9, R10, R11, R12, R13, R14, R15,
    XMM0, XMM1, XMM2, XMM3, XMM4, XMM5, XMM6, XMM7,
    XMM8, XMM9, XMM10, XMM11, XMM12, XMM13, XMM14, XMM15,
}

/// An instruction operand.
#[derive(Debug, Clone, PartialEq)]
pub enum Operand {
    Register(Register, OperandSize),
    Immediate(i64),
    /// `[base + index * scale + displacement]`.
    Memory {
        base: Option<Register>,
        index: Option<(Register, u8)>,
        displacement: i64,
        size: OperandSize,
    },
    Label(String),
}

/// Condition codes of `setcc` and the conditional jumps (signed compares).
#[derive(Debug, Clone, Copy, PartialEq, Eq, Structural)]
pub enum Conditional {
    E,
    NE,
    L,
    LE,
    G,
    GE,
}

/// One instruction of the intermediate representation.
#[derive(Debug, Clone, PartialEq)]
pub enum Instruction {
    Mov { dest: Operand, src: Operand },
    Add { dest: Operand, src: Operand },
    Sub { dest: Operand, src: Operand },
    Imul { dest: Operand, src: Operand },
    Idiv { src: Operand },
    Cqo,
    Neg { dest: Operand },
    And { dest: Operand, src: Operand },
    Or { dest: Operand, src: Operand },
    Xor { dest: Operand, src: Operand },
    Push(Operand),
    Pop(Operand),
    Call { target: String, arg_count: usize },
    Ret,
    Syscall,
    Nop,
    Label(String),
    Cmp { left: Operand, right: Operand },
    Test { left: Operand, right: Operand },
    Jmp(String),
    Je(String),
    Jne(String),
    Jl(String),
    Jle(String),
    Jg(String),
    Jge(String),
    Shl { dest: Operand, count: Operand },
    Shr { dest: Operand, count: Operand },
    Setcc { cond: Conditional, dest: Operand },
    Movzx { dest: Operand, src: Operand },
    Lea { dest: Operand, src: Operand },
    Vaddpd { dest: Operand, src: Operand },
    Vmulpd { dest: Operand, src: Operand },
    Vmovapd { dest: Operand, src: Operand },
}

// ---------------------------------------------------------------------------
// Abstract views (names as character sequences)
// ---------------------------------------------------------------------------

/// An operand with its label as a character sequence.
pub enum OperandV {
    Register(Register, OperandSize),
    Immediate(i64),
    Memory { base: Option<Register>, index: Option<(Register, u8)>, displacement: i64, size: OperandSize },
    Label(Seq<char>),
}

/// An instruction with its names as character sequences.
pub enum InstrV {
    Mov { dest: OperandV, src: OperandV },
    Add { dest: OperandV, src: OperandV },
    Sub { dest: OperandV, src: OperandV },
    Imul { dest: OperandV, src: OperandV },
    Idiv { src: OperandV },
    Cqo,
    Neg { dest: OperandV },
    And { dest: OperandV, src: OperandV },
    Or { dest: OperandV, src: OperandV },
    Xor { dest: OperandV, src: OperandV },
    Push(OperandV),
    Pop(OperandV),
    Call { target: Seq<char>, arg_count: usize },
    Ret,
    Syscall,
    Nop,
    Label(Seq<char>),
    Cmp { left: OperandV, right: OperandV },
    Test { left: OperandV, right: OperandV },
    Jmp(Seq<char>),
    Je(Seq<char>),
    Jne(Seq<char>),
    Jl(Seq<char>),
    Jle(Seq<char>),
    Jg(Seq<char>),
    Jge(Seq<char>),
    Shl { dest: OperandV, count: OperandV },
    Shr { dest: OperandV, count: OperandV },
    Setcc { cond: Conditional, dest: OperandV },
    Movzx { dest: OperandV, src: OperandV },
    Lea { dest: OperandV, src: OperandV },
    Vaddpd { dest: OperandV, src: OperandV },
    Vmulpd { dest: OperandV, src: OperandV },
    Vmovapd { dest: OperandV, src: OperandV },
}

impl View for Operand {
    type V = OperandV;

    open spec fn view(&self) -> OperandV {
        match *self {
            Operand::Register(r, s) => OperandV::Register(r, s),
            Operand::Immediate(v) => OperandV::Immediate(v),
            Operand::Memory { base, index, displacement, size } =>
                OperandV::Memory { base, index, displacement, size },
            Operand::Label(l) => OperandV::Label(l@),
        }
    }
}

impl View for Instruction {
    type V = InstrV;

    open spec fn view(&self) -> InstrV {
        match *self {
            Instruction::Mov { dest, src } => InstrV::Mov { dest: dest@, src: src@ },
            Instruction::Add { dest, src } => InstrV::Add { dest: dest@, src: src@ },
            Instruction::Sub { dest, src } => InstrV::Sub { dest: dest@, src: src@ },
            Instruction::Imul { dest, src } => InstrV::Imul { dest: dest@, src: src@ },
            Instruction::Idiv { src } => InstrV::Idiv { src: src@ },
            Instruction::Cqo => InstrV::Cqo,
            Instruction::Neg { dest } => InstrV::Neg { dest: dest@ },
            Instruction::And { dest, src } => InstrV::And { dest: dest@, src: src@ },
            Instruction::Or { dest, src } => InstrV::Or { dest: dest@, src: src@ },
            Instruction::Xor { dest, src } => InstrV::Xor { dest: dest@, src: src@ },
            Instruction::Push(op) => InstrV::Push(op@),
            Instruction::Pop(op) => InstrV::Pop(op@),
            Instruction::Call { target, arg_count } => InstrV::Call { target: target@, arg_count },
            Instruction::Ret => InstrV::Ret,
            Instruction::Syscall => InstrV::Syscall,
            Instruction::Nop => InstrV::Nop,
            Instruction::Label(l) => InstrV::Label(l@),
            Instruction::Cmp { left, right } => InstrV::Cmp { left: left@, right: right@ },
            Instruction::Test { left, right } => InstrV::Test { left: left@, right: right@ },
            Instruction::Jmp(t) => InstrV::Jmp(t@),
            Instruction::Je(t) => InstrV::Je(t@),
            Instruction::Jne(t) => InstrV::Jne(t@),
            Instruction::Jl(t) => InstrV::Jl(t@),
            Instruction::Jle(t) => InstrV::Jle(t@),
            Instruction::Jg(t) => InstrV::Jg(t@),
            Instruction::Jge(t) => InstrV::Jge(t@),
            Instruction::Shl { dest, count } => InstrV::Shl { dest: dest@, count: count@ },
            Instruction::Shr { dest, count } => InstrV::Shr { dest: dest@, count: count@ },
            Instruction::Setcc { cond, dest } => InstrV::Setcc { cond, dest: dest@ },
            Instruction::Movzx { dest, src } => InstrV::Movzx { dest: dest@, src: src@ },
            Instruction::Lea { dest, src } => InstrV::Lea { dest: dest@, src: src@ },
            Instruction::Vaddpd { dest, src } => InstrV::Vaddpd { dest: dest@, src: src@ },
            Instruction::Vmulpd { dest, src } => InstrV::Vmulpd { dest: dest@, src: src@ },
            Instruction::Vmovapd { dest, src } => InstrV::Vmovapd { dest: dest@, src: src@ },
        }
    }
}

/// The views of a sequence of instructions.
pub open spec fn instrs_view(s: Seq<Instruction>) -> Seq<InstrV> {
    s.map_values(|i: Instruction| i@)
}

/// Viewing commutes with appending one instruction.
pub proof fn lemma_instrs_view_push(s: Seq<Instruction>, i: Instruction)
    ensures
        instrs_view(s.push(i)) == instrs_view(s).push(i@),
{
    assert(instrs_view(s.push(i)) =~= instrs_view(s).push(i@));
}

// ---------------------------------------------------------------------------
// Names
// ---------------------------------------------------------------------------

/// The 64-bit (or SSE) name of a register.
pub open spec fn reg_name(r: Register) -> Seq<char> {
    match r {
        Register::RAX => "rax"@, Register::RBX => "rbx"@,
        Register::RCX => "rcx"@, Register::RDX => "rdx"@,
        Register::RSI => "rsi"@, Register::RDI => "rdi"@,
        Register::RBP => "rbp"@, Register::RSP => "rsp"@,
        Register::R8 => "r8"@, Register::R9 => "r9"@,
        Register::R10 => "r10"@, Register::R11 => "r11"@,
        Register::R12 => "r12"@, Register::R13 => "r13"@,
        Register::R14 => "r14"@, Register::R15 => "r15"@,
        Register::XMM0 => "xmm0"@, Register::XMM1 => "xmm1"@,
        Register::XMM2 => "xmm2"@, Register::XMM3 => "xmm3"@,
        Register::XMM4 => "xmm4"@, Register::XMM5 => "xmm5"@,
        Register::XMM6 => "xmm6"@, Register::XMM7 => "xmm7"@,
        Register::XMM8 => "xmm8"@, Register::XMM9 => "xmm9"@,
        Register::XMM10 => "xmm10"@, Register::XMM11 => "xmm11"@,
        Register::XMM12 => "xmm12"@, Register::XMM13 => "xmm13"@,
        Register::XMM14 => "xmm14"@, Register::XMM15 => "xmm15"@,
    }
}

/// The 8-bit name of a general-purpose register; an SSE register, which
/// has no byte form, keeps its full name.
pub open spec fn byte_reg_name(r: Register) -> Seq<char> {
    match r {
        Register::RAX => "al"@, Register::RBX => "bl"@,
        Register::RCX => "cl"@, Register::RDX => "dl"@,
        Register::RSI => "sil"@, Register::RDI => "dil"@,
        Register::RBP => "bpl"@, Register::RSP => "spl"@,
        Register::R8 => "r8b"@, Register::R9 => "r9b"@,
        Register::R10 => "r10b"@, Register::R11 => "r11b"@,
        Register::R12 => "r12b"@, Register::R13 => "r13b"@,
        Register::R14 => "r14b"@, Register::R15 => "r15b"@,
        _ => reg_name(r),
    }
}

/// The NASM size keyword of an operand size.
pub open spec fn size_name(s: OperandSize) -> Seq<char> {
    match s {
        OperandSize::Byte => "byte"@,
        OperandSize::Word => "word"@,
        OperandSize::Dword => "dword"@,
        OperandSize::Qword => "qword"@,
        OperandSize::Xmm => "xmm"@,
        OperandSize::Ymm => "ymm"@,
        OperandSize::Zmm => "zmm"@,
    }
}

/// The mnemonic suffix of a condition code.
pub open spec fn cond_name(c: Conditional) -> Seq<char> {
    match c {
        Conditional::E => "e"@,
        Conditional::NE => "ne"@,
        Conditional::L => "l"@,
        Conditional::LE => "le"@,
        Conditional::G => "g"@,
        Conditional::GE => "ge"@,
    }
}

impl Register {
    /// The 64-bit (or SSE) name of the register.
    pub fn name(&self) -> (r: &'static str)
        ensures
            r@ == reg_name(*self),
    {
        match self {
            Register::RAX => "rax", Register::RBX => "rbx",
            Register::RCX => "rcx", Register::RDX => "rdx",
            Register::RSI => "rsi", Register::RDI => "rdi",
            Register::RBP => "rbp", Register::RSP => "rsp",
            Register::R8 => "r8", Register::R9 => "r9",
            Register::R10 => "r10", Register::R11 => "r11",
            Register::R12 => "r12", Register::R13 => "r13",
            Register::R14 => "r14", Register::R15 => "r15",
            Register::XMM0 => "xmm0", Register::XMM1 => "xmm1",
            Register::XMM2 => "xmm2", Register::XMM3 => "xmm3",
            Register::XMM4 => "xmm4", Register::XMM5 => "xmm5",
            Register::XMM6 => "xmm6", Register::XMM7 => "xmm7",
            Register::XMM8 => "xmm8", Register::XMM9 => "xmm9",
            Register::XMM10 => "xmm10", Register::XMM11 => "xmm11",
            Register::XMM12 => "xmm12", Register::XMM13 => "xmm13",
            Register::XMM14 => "xmm14", Register::XMM15 => "xmm15",
        }
    }
}

impl OperandSize {
    /// The NASM size keyword.
    pub fn name(&self) -> (r: &'static str)
        ensures
            r@ == size_name(*self),
    {
        match self {
            OperandSize::Byte => "byte",
            OperandSize::Word => "word",
            OperandSize::Dword => "dword",
            OperandSize::Qword => "qword",
            OperandSize::Xmm => "xmm",
            OperandSize::Ymm => "ymm",
            OperandSize::Zmm => "zmm",
        }
    }
}

impl Conditional {
    /// The mnemonic suffix (`e`, `ne`, `l`, ...).
    pub fn name(&self) -> (r: &'static str)
        ensures
            r@ == cond_name(*self),
    {
        match self {
            Conditional::E => "e",
            Conditional::NE => "ne",
            Conditional::L => "l",
            Conditional::LE => "le",
            Conditional::G => "g",
            Conditional::GE => "ge",
        }
    }
}

/// The 8-bit register name (`al`, `cl`, ...); an SSE register keeps its
/// full name.
pub fn byte_register_name(reg: Register) -> (r: &'static str)
    ensures
        r@ == byte_reg_name(reg),
{
    match reg {
        Register::RAX => "al", Register::RBX => "bl",
        Register::RCX => "cl", Register::RDX => "dl",
        Register::RSI => "sil", Register::RDI => "dil",
        Register::RBP => "bpl", Register::RSP => "spl",
        Register::R8 => "r8b", Register::R9 => "r9b",
        Register::R10 => "r10b", Register::R11 => "r11b",
        Register::R12 => "r12b", Register::R13 => "r13b",
        Register::R14 => "r14b", Register::R15 => "r15b",
        _ => reg.name(),
    }
}

// ---------------------------------------------------------------------------
// Operand and instruction text
// ---------------------------------------------------------------------------

/// Whether an operand can be written out: the text of a memory operand
/// with a base or index negates a negative displacement, which has no `i64`
/// value for `i64::MIN`.
pub open spec fn operand_printable(op: OperandV) -> bool {
    match op {
        OperandV::Memory { base, index, displacement, .. } =>
            !((base is Some || index is Some) && displacement == i64::MIN),
        _ => true,
    }
}

/// The displacement part of a memory operand's text.
pub open spec fn disp_text(has_reg: bool, d: i64) -> Seq<char> {
    if d == 0 {
        Seq::empty()
    } else if has_reg {
        if d > 0 { " + "@ + int_text(d as int) } else { " - "@ + int_text(-d) }
    } else {
        int_text(d as int)
    }
}

/// The index part of a memory operand's text.
pub open spec fn index_text(has_base: bool, index: Option<(Register, u8)>) -> Seq<char> {
    match index {
        Some((idx, scale)) =>
            (if has_base { " + "@ } else { Seq::empty() }) + reg_name(idx) + " * "@
                + nat_digits(scale as nat),
        None => Seq::empty(),
    }
}

/// The NASM text of an operand.
pub open spec fn operand_text(op: OperandV) -> Seq<char> {
    match op {
        OperandV::Register(reg, size) =>
            if size == OperandSize::Byte { byte_reg_name(reg) } else { reg_name(reg) },
        OperandV::Immediate(v) => int_text(v as int),
        OperandV::Memory { base, index, displacement, .. } =>
            "["@
                + (match base { Some(b) => reg_name(b), None => Seq::empty() })
                + index_text(base is Some, index)
                + disp_text(base is Some || index is Some, displacement)
                + "]"@,
        OperandV::Label(name) => name,
    }
}

/// Text of an instruction with two operands: `mnemonic a, b`.
pub open spec fn two_text(m: Seq<char>, a: OperandV, b: OperandV) -> Seq<char> {
    m + " "@ + operand_text(a) + ", "@ + operand_text(b)
}

/// Text of an instruction with one operand: `mnemonic a`.
pub open spec fn one_text(m: Seq<char>, a: OperandV) -> Seq<char> {
    m + " "@ + operand_text(a)
}

/// Text of a jump to a label: `mnemonic target`.
pub open spec fn jump_text(m: Seq<char>, target: Seq<char>) -> Seq<char> {
    m + " "@ + target
}

/// The NASM text of an instruction.
pub open spec fn instr_text(i: InstrV) -> Seq<char> {
    match i {
        InstrV::Mov { dest, src } => two_text("mov"@, dest, src),
        InstrV::Add { dest, src } => two_text("add"@, dest, src),
        InstrV::Sub { dest, src } => two_text("sub"@, dest, src),
        InstrV::Imul { dest, src } => two_text("imul"@, dest, src),
        InstrV::Idiv { src } => one_text("idiv"@, src),
        InstrV::Cqo => "cqo"@,
        InstrV::Neg { dest } => one_text("neg"@, dest),
        InstrV::And { dest, src } => two_text("and"@, dest, src),
        InstrV::Or { dest, src } => two_text("or"@, dest, src),
        InstrV::Xor { dest, src } => two_text("xor"@, dest, src),
        InstrV::Push(op) => one_text("push"@, op),
        InstrV::Pop(op) => one_text("pop"@, op),
        InstrV::Call { target, .. } => jump_text("call"@, target),
        InstrV::Ret => "ret"@,
        InstrV::Syscall => "syscall"@,
        InstrV::Nop => "nop"@,
        InstrV::Label(name) => name + ":"@,
        InstrV::Cmp { left, right } => two_text("cmp"@, left, right),
        InstrV::Test { left, right } => two_text("test"@, left, right),
        InstrV::Jmp(t) => jump_text("jmp"@, t),
        InstrV::Je(t) => jump_text("je"@, t),
        InstrV::Jne(t) => jump_text("jne"@, t),
        InstrV::Jl(t) => jump_text("jl"@, t),
        InstrV::Jle(t) => jump_text("jle"@, t),
        InstrV::Jg(t) => jump_text("jg"@, t),
        InstrV::Jge(t) => jump_text("jge"@, t),
        InstrV::Vaddpd { dest, src } => two_text("vaddpd"@, dest, src),
        InstrV::Vmulpd { dest, src } => two_text("vmulpd"@, dest, src),
        InstrV::Vmovapd { dest, src } => two_text("vmovapd"@, dest, src),
        InstrV::Shl { dest, count } => two_text("shl"@, dest, count),
        InstrV::Shr { dest, count } => two_text("shr"@, dest, count),
        InstrV::Setcc { cond, dest } => "set"@ + cond_name(cond) + " "@ + operand_text(dest),
        InstrV::Movzx { dest, src } => two_text("movzx"@, dest, src),
        InstrV::Lea { dest, src } => match src {
            OperandV::Label(name) => "lea "@ + operand_text(dest) + ", ["@ + name + "]"@,
            _ => two_text("lea"@, dest, src),
        },
    }
}

/// Whether every operand of an instruction can be written out.
pub open spec fn instr_printable(i: InstrV) -> bool {
    match i {
        InstrV::Mov { dest, src } | InstrV::Add { dest, src }
        | InstrV::Sub { dest, src } | InstrV::Imul { dest, src }
        | InstrV::And { dest, src } | InstrV::Or { dest, src }
        | InstrV::Xor { dest, src } | InstrV::Vaddpd { dest, src }
        | InstrV::Vmulpd { dest, src } | InstrV::Vmovapd { dest, src }
        | InstrV::Movzx { dest, src } | InstrV::Lea { dest, src } =>
            operand_printable(dest) && operand_printable(src),
        InstrV::Shl { dest, count } | InstrV::Shr { dest, count } =>
            operand_printable(dest) && operand_printable(count),
        InstrV::Cmp { left, right } | InstrV::Test { left, right } =>
            operand_printable(left) && operand_printable(right),
        InstrV::Idiv { src } => operand_printable(src),
        InstrV::Neg { dest } => operand_printable(dest),
        InstrV::Push(op) | InstrV::Pop(op) => operand_printable(op),
        InstrV::Setcc { dest, .. } => operand_printable(dest),
        _ => true,
    }
}

/// Appends the index part of a memory operand.
fn push_index(s: &mut String, has_base: bool, index: Option<(Register, u8)>)
    ensures
        final(s)@ == old(s)@ + index_text(has_base, index),
{
    if let Some((idx, scale)) = index {
        if has_base {
            push_str(s, " + ");
        }
        push_str(s, idx.name());
        push_str(s, " * ");
        push_nat(s, scale as u64);
    }
    assert(s@ =~= old(s)@ + index_text(has_base, index));
}

/// Appends the displacement part of a memory operand.
fn push_disp(s: &mut String, has_reg: bool, d: i64)
    requires
        !(has_reg && d == i64::MIN),
    ensures
        final(s)@ == old(s)@ + disp_text(has_reg, d),
{
    if d != 0 {
        if has_reg {
            if d > 0 {
                push_str(s, " + ");
                push_int(s, d);
            } else {
                push_str(s, " - ");
                push_int(s, -d);
            }
        } else {
            push_int(s, d);
        }
    }
    assert(s@ =~= old(s)@ + disp_text(has_reg, d));
}

/// Appends the text of a memory operand.
fn push_memory(s: &mut String, base: Option<Register>, index: Option<(Register, u8)>, d: i64)
    requires
        !((base is Some || index is Some) && d == i64::MIN),
    ensures
        final(s)@ == old(s)@ + "["@
            + (match base { Some(b) => reg_name(b), None => Seq::empty() })
            + index_text(base is Some, index)
            + disp_text(base is Some || index is Some, d)
            + "]"@,
{
    push_str(s, "[");
    let ghost s1 = s@;
    if let Some(b) = base {
        push_str(s, b.name());
    }
    assert(s@ =~= s1 + (match base { Some(b) => reg_name(b), None => Seq::empty() }));
    push_index(s, base.is_some(), index);
    push_disp(s, base.is_some() || index.is_some(), d);
    push_str(s, "]");
    assert(s@ =~= old(s)@ + "["@
            + (match base { Some(b) => reg_name(b), None => Seq::empty() })
            + index_text(base is Some, index)
            + disp_text(base is Some || index is Some, d)
            + "]"@);
}

/// Appends the text of an operand.
pub fn push_operand(s: &mut String, op: &Operand)
    requires
        operand_printable(op@),
    ensures
        final(s)@ == old(s)@ + operand_text(op@),
{
    match op {
        Operand::Register(reg, size) => {
            if *size == OperandSize::Byte {
                push_str(s, byte_register_name(*reg));
            } else {
                push_str(s, reg.name());
            }
        },
        Operand::Immediate(v) => {
            push_int(s, *v);
        },
        Operand::Memory { base, index, displacement, .. } => {
            push_memory(s, *base, *index, *displacement);
        },
        Operand::Label(name) => {
            push_string(s, name);
        },
    }
}

/// Appends `mnemonic a, b`.
fn push_two(s: &mut String, m: &str, a: &Operand, b: &Operand)
    requires
        operand_printable(a@),
        operand_printable(b@),
    ensures
        final(s)@ == old(s)@ + two_text(m@, a@, b@),
{
    push_str(s, m);
    push_str(s, " ");
    push_operand(s, a);
    push_str(s, ", ");
    push_operand(s, b);
    assert(s@ =~= old(s)@ + two_text(m@, a@, b@));
}

/// Appends `mnemonic a`.
fn push_one(s: &mut String, m: &str, a: &Operand)
    requires
        operand_printable(a@),
    ensures
        final(s)@ == old(s)@ + one_text(m@, a@),
{
    push_str(s, m);
    push_str(s, " ");
    push_operand(s, a);
    assert(s@ =~= old(s)@ + one_text(m@, a@));
}

/// Appends `mnemonic target`.
fn push_jump(s: &mut String, m: &str, t: &String)
    ensures
        final(s)@ == old(s)@ + jump_text(m@, t@),
{
    push_str(s, m);
    push_str(s, " ");
    push_string(s, t);
    assert(s@ =~= old(s)@ + jump_text(m@, t@));
}

/// Appends the NASM text of an instruction.
pub fn push_instruction(s: &mut String, i: &Instruction)
    requires
        instr_printable(i@),
    ensures
        final(s)@ == old(s)@ + instr_text(i@),
{
    match i {
        Instruction::Mov { dest, src } => push_two(s, "mov", dest, src),
        Instruction::Add { dest, src } => push_two(s, "add", dest, src),
        Instruction::Sub { dest, src } => push_two(s, "sub", dest, src),
        Instruction::Imul { dest, src } => push_two(s, "imul", dest, src),
        Instruction::Idiv { src } => push_one(s, "idiv", src),
        Instruction::Cqo => push_str(s, "cqo"),
        Instruction::Neg { dest } => push_one(s, "neg", dest),
        Instruction::And { dest, src } => push_two(s, "and", dest, src),
        Instruction::Or { dest, src } => push_two(s, "or", dest, src),
        Instruction::Xor { dest, src } => push_two(s, "xor", dest, src),
        Instruction::Push(op) => push_one(s, "push", op),
        Instruction::Pop(op) => push_one(s, "pop", op),
        Instruction::Call { target, .. } => push_jump(s, "call", target),
        Instruction::Ret => push_str(s, "ret"),
        Instruction::Syscall => push_str(s, "syscall"),
        Instruction::Nop => push_str(s, "nop"),
        Instruction::Label(name) => {
            push_string(s, name);
            push_str(s, ":");
            assert(s@ =~= old(s)@ + instr_text(i@));
        },
        Instruction::Cmp { left, right } => push_two(s, "cmp", left, right),
        Instruction::Test { left, right } => push_two(s, "test", left, right),
        Instruction::Jmp(t) => push_jump(s, "jmp", t),
        Instruction::Je(t) => push_jump(s, "je", t),
        Instruction::Jne(t) => push_jump(s, "jne", t),
        Instruction::Jl(t) => push_jump(s, "jl", t),
        Instruction::Jle(t) => push_jump(s, "jle", t),
        Instruction::Jg(t) => push_jump(s, "jg", t),
        Instruction::Jge(t) => push_jump(s, "jge", t),
        Instruction::Vaddpd { dest, src } => push_two(s, "vaddpd", dest, src),
        Instruction::Vmulpd { dest, src } => push_two(s, "vmulpd", dest, src),
        Instruction::Vmovapd { dest, src } => push_two(s, "vmovapd", dest, src),
        Instruction::Shl { dest, count } => push_two(s, "shl", dest, count),
        Instruction::Shr { dest, count } => push_two(s, "shr", dest, count),
        Instruction::Setcc { cond, dest } => {
            push_str(s, "set");
            push_str(s, cond.name());
            push_str(s, " ");
            push_operand(s, dest);
            assert(s@ =~= old(s)@ + instr_text(i@));
        },
        Instruction::Movzx { dest, src } => push_two(s, "movzx", dest, src),
        Instruction::Lea { dest, src } => {
            match src {
                Operand::Label(name) => {
                    push_str(s, "lea ");
                    push_operand(s, dest);
                    push_str(s, ", [");
                    push_string(s, name);
                    push_str(s, "]");
                    assert(s@ =~= old(s)@ + instr_text(i@));
                },
                _ => push_two(s, "lea", dest, src),
            }
        },
    }
}

impl Operand {
    /// The NASM text of the operand.
    pub fn to_text(&self) -> (r: String)
        requires
            operand_printable(self@),
        ensures
            r@ == operand_text(self@),
    {
        let mut s = String::new();
        push_operand(&mut s, self);
        assert(s@ =~= operand_text(self@));
        s
    }
}

impl Instruction {
    /// The NASM text of the instruction.
    pub fn to_text(&self) -> (r: String)
        requires
            instr_printable(self@),
        ensures
            r@ == instr_text(self@),
    {
        let mut s = String::new();
        push_instruction(&mut s, self);
        assert(s@ =~= instr_text(self@));
        s
    }
}

} // verus!
