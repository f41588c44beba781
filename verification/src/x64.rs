//! Encoding of the instruction model into x86-64 machine code, with label
//! resolution for jumps and calls within the code.

use vstd::prelude::*;
use crate::ir::{Conditional, InstrV, Instruction, Operand, OperandSize, OperandV, Register, instr_text, instrs_view};
use crate::text::{chars_of, has_prefix, push_char, push_string, string_of};

verus! {

// ---------------------------------------------------------------------------
// The encoding table
// ---------------------------------------------------------------------------

/// The architectural number of a general-purpose register (the order of
/// the opcode and ModRM fields: RAX, RCX, RDX, RBX, RSP, RBP, RSI, RDI,
/// then R8 to R15); SSE registers have none and get 16.
pub open spec fn reg_num(r: Register) -> int {
    match r {
        Register::RAX => 0,
        Register::RCX => 1,
        Register::RDX => 2,
        Register::RBX => 3,
        Register::RSP => 4,
        Register::RBP => 5,
        Register::RSI => 6,
        Register::RDI => 7,
        Register::R8 => 8,
        Register::R9 => 9,
        Register::R10 => 10,
        Register::R11 => 11,
        Register::R12 => 12,
        Register::R13 => 13,
        Register::R14 => 14,
        Register::R15 => 15,
        _ => 16,
    }
}

/// Whether a register is a general-purpose one.
pub open spec fn is_gpr(r: Register) -> bool {
    reg_num(r) < 16
}

/// `REX.W`, with `REX.B` when the register is one of R8 to R15.
pub open spec fn rex_for(r: Register) -> u8 {
    if reg_num(r) >= 8 { 0x49 } else { 0x48 }
}

/// `REX.W` with `REX.R` for an extended ModRM.reg register and `REX.B` for
/// an extended ModRM.rm register.
pub open spec fn rex_pair(d: Register, s: Register) -> u8 {
    if reg_num(d) >= 8 {
        if reg_num(s) >= 8 { 0x4D } else { 0x4C }
    } else {
        if reg_num(s) >= 8 { 0x49 } else { 0x48 }
    }
}

/// A ModRM byte.
pub open spec fn modrm_byte(mode: int, reg: int, rm: int) -> u8 {
    (mode * 64 + (reg % 8) * 8 + rm % 8) as u8
}

/// The little-endian bytes of a 32-bit value.
pub open spec fn le32(v: u32) -> Seq<u8> {
    seq![(v & 0xff) as u8, ((v >> 8) & 0xff) as u8, ((v >> 16) & 0xff) as u8, ((v >> 24) & 0xff) as u8]
}

/// The little-endian bytes of a 64-bit value.
pub open spec fn le64(v: u64) -> Seq<u8> {
    seq![
        (v & 0xff) as u8, ((v >> 8) & 0xff) as u8, ((v >> 16) & 0xff) as u8, ((v >> 24) & 0xff) as u8,
        ((v >> 32) & 0xff) as u8, ((v >> 40) & 0xff) as u8, ((v >> 48) & 0xff) as u8, ((v >> 56) & 0xff) as u8,
    ]
}

/// A 32-bit displacement as stored: the low 32 bits of the value.
pub open spec fn disp32_bytes(v: i64) -> Seq<u8> {
    le32((v as i32) as u32)
}

/// Four zero bytes, the placeholder of a 32-bit relocation.
pub open spec fn zero4() -> Seq<u8> {
    seq![0u8, 0u8, 0u8, 0u8]
}

/// An opcode whose ModRM.reg names the first register and ModRM.rm the
/// second (as `mov r64, r/m64`): REX (REX.R for the first, REX.B for the
/// second), opcode, ModRM.
pub open spec fn reg_reg_bytes(op: u8, d: Register, s: Register) -> Seq<u8> {
    seq![rex_pair(d, s), op, modrm_byte(3, reg_num(d), reg_num(s))]
}

/// `op dest, src` for an opcode of the `r/m64, r64` form (`add`, `sub`,
/// `and`, `or`, `xor`, `cmp`, `test`): the destination goes in ModRM.rm and
/// the source in ModRM.reg.
pub open spec fn mr_bytes(op: u8, d: Register, s: Register) -> Seq<u8> {
    reg_reg_bytes(op, s, d)
}

/// `REX.W`, with `REX.R` when the register, named in ModRM.reg, is one of
/// R8 to R15.
pub open spec fn rex_reg(r: Register) -> u8 {
    if reg_num(r) >= 8 { 0x4C } else { 0x48 }
}

/// A move between a register and `[rbp + disp]`: 8-bit displacement when
/// it fits, 32-bit otherwise.
pub open spec fn rbp_mem_bytes(op: u8, r: Register, disp: i64) -> Seq<u8> {
    seq![rex_reg(r), op] + if -128 <= disp <= 127 {
        seq![modrm_byte(1, reg_num(r), 5), disp as u8]
    } else {
        seq![modrm_byte(2, reg_num(r), 5)] + disp32_bytes(disp)
    }
}

/// `add`/`sub rsp, imm` (ModRM extension `ext`): imm8 when it fits, imm32
/// otherwise.
pub open spec fn rsp_imm_bytes(ext: int, v: i64) -> Seq<u8> {
    if -128 <= v <= 127 {
        seq![0x48u8, 0x83u8, modrm_byte(3, ext, 4), v as u8]
    } else {
        seq![0x48u8, 0x81u8, modrm_byte(3, ext, 4)] + disp32_bytes(v)
    }
}

/// The second opcode byte of `setcc`.
pub open spec fn setcc_byte(c: Conditional) -> u8 {
    match c {
        Conditional::E => 0x94,
        Conditional::NE => 0x95,
        Conditional::L => 0x9C,
        Conditional::LE => 0x9E,
        Conditional::G => 0x9F,
        Conditional::GE => 0x9D,
    }
}

/// `lea reg, [rip + disp32]` without the displacement.
pub open spec fn lea_rip_bytes(r: Register) -> Seq<u8> {
    seq![rex_reg(r), 0x8Du8, modrm_byte(0, reg_num(r), 5)]
}

/// The mark that labels an indirect call through the import table.
pub open spec fn iat_prefix() -> Seq<char> {
    seq!['@', 'I', 'A', 'T', '@']
}

/// The label of an indirect call through the import table.
pub open spec fn iat_label(target: Seq<char>) -> Seq<char> {
    iat_prefix() + target
}

/// A single-register opcode form (`push`, `pop`): REX.B when extended.
pub open spec fn short_reg_bytes(base: u8, r: Register) -> Seq<u8> {
    (if reg_num(r) >= 8 { seq![0x41u8] } else { Seq::empty() }) + seq![(base + reg_num(r) % 8) as u8]
}

/// The bytes of an instruction (a relocation's displacement written as
/// zeros). Forms the encoder does not know produce no bytes.
pub open spec fn enc_bytes(externs: Seq<Seq<char>>, i: InstrV) -> Seq<u8> {
    match i {
        InstrV::Mov { dest, src } => match (dest, src) {
            (OperandV::Register(d, OperandSize::Qword), OperandV::Immediate(v)) =>
                seq![rex_for(d), (0xB8 + reg_num(d) % 8) as u8] + le64(v as u64),
            (OperandV::Register(d, OperandSize::Qword), OperandV::Register(s, OperandSize::Qword)) =>
                reg_reg_bytes(0x8B, d, s),
            (OperandV::Memory { base: Some(Register::RBP), displacement, .. },
                OperandV::Register(s, OperandSize::Qword)) => rbp_mem_bytes(0x89, s, displacement),
            (OperandV::Register(d, OperandSize::Qword),
                OperandV::Memory { base: Some(Register::RBP), displacement, .. }) => rbp_mem_bytes(0x8B, d, displacement),
            (OperandV::Register(d, OperandSize::Qword), OperandV::Label(_)) => lea_rip_bytes(d) + zero4(),
            _ => Seq::empty(),
        },
        InstrV::Add { dest, src } => match (dest, src) {
            (OperandV::Register(Register::RSP, OperandSize::Qword), OperandV::Immediate(v)) => rsp_imm_bytes(0, v),
            (OperandV::Register(d, OperandSize::Qword), OperandV::Register(s, OperandSize::Qword)) =>
                mr_bytes(0x01, d, s),
            _ => mr_bytes(0x01, Register::RAX, Register::RCX),
        },
        InstrV::Sub { dest, src } => match (dest, src) {
            (OperandV::Register(Register::RSP, OperandSize::Qword), OperandV::Immediate(v)) => rsp_imm_bytes(5, v),
            (OperandV::Register(d, OperandSize::Qword), OperandV::Register(s, OperandSize::Qword)) =>
                mr_bytes(0x29, d, s),
            _ => mr_bytes(0x29, Register::RAX, Register::RCX),
        },
        InstrV::Imul { dest, src } => match (dest, src) {
            (OperandV::Register(d, _), OperandV::Register(s, _)) =>
                seq![rex_pair(d, s), 0x0Fu8, 0xAFu8, modrm_byte(3, reg_num(d), reg_num(s))],
            _ => Seq::empty(),
        },
        InstrV::Idiv { src } => match src {
            OperandV::Register(r, _) => seq![rex_for(r), 0xF7u8, modrm_byte(3, 7, reg_num(r))],
            _ => Seq::empty(),
        },
        InstrV::Cqo => seq![0x48u8, 0x99u8],
        InstrV::Neg { dest } => match dest {
            OperandV::Register(r, _) => seq![rex_for(r), 0xF7u8, modrm_byte(3, 3, reg_num(r))],
            _ => Seq::empty(),
        },
        InstrV::And { dest, src } => match (dest, src) {
            (OperandV::Register(d, _), OperandV::Register(s, _)) => mr_bytes(0x21, d, s),
            _ => Seq::empty(),
        },
        InstrV::Or { dest, src } => match (dest, src) {
            (OperandV::Register(d, _), OperandV::Register(s, _)) => mr_bytes(0x09, d, s),
            _ => Seq::empty(),
        },
        InstrV::Xor { dest, src } => match (dest, src) {
            (OperandV::Register(Register::RAX, _), OperandV::Immediate(-1)) =>
                seq![0x48u8, 0xF7u8, modrm_byte(3, 2, 0)],
            (OperandV::Register(d, _), OperandV::Register(s, _)) => mr_bytes(0x31, d, s),
            _ => Seq::empty(),
        },
        InstrV::Push(op) => match op {
            OperandV::Register(r, _) => short_reg_bytes(0x50, r),
            _ => Seq::empty(),
        },
        InstrV::Pop(op) => match op {
            OperandV::Register(r, _) => short_reg_bytes(0x58, r),
            _ => Seq::empty(),
        },
        InstrV::Call { target, .. } => if externs.contains(target) {
            seq![0xFFu8, modrm_byte(0, 2, 5)] + zero4()
        } else {
            seq![0xE8u8] + zero4()
        },
        InstrV::Ret => seq![0xC3u8],
        InstrV::Nop => seq![0x90u8],
        InstrV::Cmp { left, right } => match (left, right) {
            (OperandV::Register(l, _), OperandV::Register(r, _)) => mr_bytes(0x39, l, r),
            (OperandV::Register(l, _), OperandV::Immediate(0)) =>
                seq![rex_for(l), 0x83u8, modrm_byte(3, 7, reg_num(l)), 0u8],
            _ => Seq::empty(),
        },
        InstrV::Test { left, right } => match (left, right) {
            (OperandV::Register(l, _), OperandV::Register(r, _)) => mr_bytes(0x85, l, r),
            _ => Seq::empty(),
        },
        InstrV::Jmp(_) => seq![0xE9u8] + zero4(),
        InstrV::Je(_) => seq![0x0Fu8, 0x84u8] + zero4(),
        InstrV::Jne(_) => seq![0x0Fu8, 0x85u8] + zero4(),
        InstrV::Setcc { cond, .. } => seq![0x0Fu8, setcc_byte(cond), modrm_byte(3, 0, 0)],
        InstrV::Movzx { .. } => seq![0x48u8, 0x0Fu8, 0xB6u8, modrm_byte(3, 0, 0)],
        InstrV::Lea { dest, .. } => match dest {
            OperandV::Register(d, _) => lea_rip_bytes(d) + zero4(),
            _ => Seq::empty(),
        },
        InstrV::Shl { dest, count } => match (dest, count) {
            (OperandV::Register(d, _), OperandV::Register(Register::RCX, OperandSize::Byte)) =>
                seq![rex_for(d), 0xD3u8, modrm_byte(3, 4, reg_num(d))],
            _ => Seq::empty(),
        },
        InstrV::Shr { dest, count } => match (dest, count) {
            (OperandV::Register(d, _), OperandV::Register(Register::RCX, OperandSize::Byte)) =>
                seq![rex_for(d), 0xD3u8, modrm_byte(3, 5, reg_num(d))],
            _ => Seq::empty(),
        },
        _ => Seq::empty(),
    }
}

/// The relocation an instruction carries: where its 32-bit displacement
/// starts within its bytes, and the label it refers to.
pub open spec fn enc_fixup(externs: Seq<Seq<char>>, i: InstrV) -> Option<(int, Seq<char>)> {
    match i {
        InstrV::Mov { dest: OperandV::Register(_, OperandSize::Qword), src: OperandV::Label(l) } => Some((3, l)),
        InstrV::Call { target, .. } => if externs.contains(target) {
            Some((2, iat_label(target)))
        } else {
            Some((1, target))
        },
        InstrV::Jmp(t) => Some((1, t)),
        InstrV::Je(t) => Some((2, t)),
        InstrV::Jne(t) => Some((2, t)),
        InstrV::Lea { dest: OperandV::Register(_, _), src: OperandV::Label(l) } => Some((3, l)),
        _ => None,
    }
}

/// Whether the encoder accepts an instruction: no SSE packed arithmetic,
/// and every register it takes an architectural number of is a
/// general-purpose one.
pub open spec fn encodable(i: InstrV) -> bool {
    match i {
        InstrV::Mov { dest, src } => match (dest, src) {
            (OperandV::Register(d, OperandSize::Qword), OperandV::Immediate(_)) => is_gpr(d),
            (OperandV::Register(d, OperandSize::Qword), OperandV::Register(s, OperandSize::Qword)) =>
                is_gpr(d) && is_gpr(s),
            (OperandV::Memory { base: Some(Register::RBP), .. }, OperandV::Register(s, OperandSize::Qword)) => is_gpr(s),
            (OperandV::Register(d, OperandSize::Qword), OperandV::Memory { base: Some(Register::RBP), .. }) => is_gpr(d),
            (OperandV::Register(d, OperandSize::Qword), OperandV::Label(_)) => is_gpr(d),
            _ => true,
        },
        InstrV::Add { dest, src } | InstrV::Sub { dest, src } => match (dest, src) {
            (OperandV::Register(Register::RSP, OperandSize::Qword), OperandV::Immediate(_)) => true,
            (OperandV::Register(d, OperandSize::Qword), OperandV::Register(s, OperandSize::Qword)) =>
                is_gpr(d) && is_gpr(s),
            _ => true,
        },
        InstrV::Imul { dest, src } | InstrV::And { dest, src } | InstrV::Or { dest, src } => match (dest, src) {
            (OperandV::Register(d, _), OperandV::Register(s, _)) => is_gpr(d) && is_gpr(s),
            _ => true,
        },
        InstrV::Xor { dest, src } => match (dest, src) {
            (OperandV::Register(Register::RAX, _), OperandV::Immediate(-1)) => true,
            (OperandV::Register(d, _), OperandV::Register(s, _)) => is_gpr(d) && is_gpr(s),
            _ => true,
        },
        InstrV::Cmp { left, right } => match (left, right) {
            (OperandV::Register(l, _), OperandV::Register(r, _)) => is_gpr(l) && is_gpr(r),
            (OperandV::Register(l, _), OperandV::Immediate(0)) => is_gpr(l),
            _ => true,
        },
        InstrV::Test { left, right } => match (left, right) {
            (OperandV::Register(l, _), OperandV::Register(r, _)) => is_gpr(l) && is_gpr(r),
            _ => true,
        },
        InstrV::Idiv { src: OperandV::Register(r, _) } => is_gpr(r),
        InstrV::Neg { dest: OperandV::Register(r, _) } => is_gpr(r),
        InstrV::Push(OperandV::Register(r, _)) => is_gpr(r),
        InstrV::Pop(OperandV::Register(r, _)) => is_gpr(r),
        InstrV::Lea { dest: OperandV::Register(d, _), .. } => is_gpr(d),
        InstrV::Shl { dest: OperandV::Register(d, _), count: OperandV::Register(Register::RCX, OperandSize::Byte) } =>
            is_gpr(d),
        InstrV::Shr { dest: OperandV::Register(d, _), count: OperandV::Register(Register::RCX, OperandSize::Byte) } =>
            is_gpr(d),
        InstrV::Vaddpd { .. } | InstrV::Vmulpd { .. } | InstrV::Vmovapd { .. } => false,
        _ => true,
    }
}

/// The encoder's state: the code so far, the labels defined (in order of
/// definition) and the relocations recorded (code offset, label).
pub struct EncV {
    pub code: Seq<u8>,
    pub labels: Seq<(Seq<char>, u64)>,
    pub fixups: Seq<(u64, Seq<char>)>,
}

/// The encoder's state after one more instruction: a label records the
/// current offset; anything else appends its bytes and its relocation.
pub open spec fn enc_step(externs: Seq<Seq<char>>, st: EncV, i: InstrV) -> EncV {
    match i {
        InstrV::Label(name) => EncV { labels: st.labels.push((name, st.code.len() as u64)), ..st },
        _ => EncV {
            code: st.code + enc_bytes(externs, i),
            labels: st.labels,
            fixups: match enc_fixup(externs, i) {
                Some((k, l)) => st.fixups.push(((st.code.len() + k) as u64, l)),
                None => st.fixups,
            },
        },
    }
}

/// The encoder's state after the first `k` instructions.
pub open spec fn enc_prefix(externs: Seq<Seq<char>>, is: Seq<InstrV>, k: int) -> EncV
    decreases k,
{
    if k <= 0 || k > is.len() {
        EncV { code: Seq::empty(), labels: Seq::empty(), fixups: Seq::empty() }
    } else {
        enc_step(externs, enc_prefix(externs, is, k - 1), is[k - 1])
    }
}

/// The offset of a label: its latest definition.
pub open spec fn label_offset(labels: Seq<(Seq<char>, u64)>, name: Seq<char>) -> Option<u64>
    decreases labels.len(),
{
    if labels.len() == 0 {
        None
    } else if labels.last().0 == name {
        Some(labels.last().1)
    } else {
        label_offset(labels.drop_last(), name)
    }
}

/// `code` with the four bytes at `off` replaced by `v`, little-endian.
pub open spec fn patch32(code: Seq<u8>, off: int, v: u32) -> Seq<u8> {
    code.subrange(0, off) + le32(v) + code.subrange(off + 4, code.len() as int)
}

/// The displacement from the end of a 4-byte field at `off` to `target`,
/// truncated to 32 bits.
pub open spec fn rel32(target: u64, off: u64) -> u32 {
    ((target as i64 - off as i64 - 4) as i32) as u32
}

/// `code` with the first `k` relocations whose label is defined patched
/// to the label's offset; the others are left for the image writer.
pub open spec fn resolved(code: Seq<u8>, labels: Seq<(Seq<char>, u64)>, fixups: Seq<(u64, Seq<char>)>, k: int)
    -> Seq<u8>
    decreases k,
{
    if k <= 0 || k > fixups.len() {
        code
    } else {
        let prev = resolved(code, labels, fixups, k - 1);
        match label_offset(labels, fixups[k - 1].1) {
            Some(t) => patch32(prev, fixups[k - 1].0 as int, rel32(t, fixups[k - 1].0)),
            None => prev,
        }
    }
}

proof fn lemma_le32_zero()
    ensures
        le32(0) == zero4(),
{
    assert((0u32 & 0xff) == 0 && ((0u32 >> 8) & 0xff) == 0 && ((0u32 >> 16) & 0xff) == 0
        && ((0u32 >> 24) & 0xff) == 0) by (bit_vector);
    assert(le32(0) =~= zero4());
}

proof fn lemma_and7(r: u8)
    by (bit_vector)
    ensures
        r & 7 == r % 8,
{
}

proof fn lemma_modrm_bits(mode: u8, reg: u8, rm: u8)
    by (bit_vector)
    requires
        mode < 4,
    ensures
        (mode << 6) | ((reg & 7) << 3) | (rm & 7) == (mode * 64 + (reg % 8) * 8 + rm % 8) as u8,
{
}

proof fn lemma_rex_bits()
    by (bit_vector)
    ensures
        0x48u8 | 0x04u8 == 0x4Cu8,
        0x48u8 | 0x01u8 == 0x49u8,
        0x4Cu8 | 0x01u8 == 0x4Du8,
{
}

// ---------------------------------------------------------------------------
// The encoder
// ---------------------------------------------------------------------------

/// A 32-bit displacement waiting for the offset of `label`.
struct Fixup {
    offset: u64,
    label: String,
}

/// The views of recorded relocations.
spec fn fixups_view(fs: Seq<Fixup>) -> Seq<(u64, Seq<char>)> {
    fs.map_values(|f: Fixup| (f.offset, f.label@))
}

/// The views of defined labels.
pub open spec fn labels_view(ls: Seq<(String, u64)>) -> Seq<(Seq<char>, u64)> {
    ls.map_values(|l: (String, u64)| (l.0@, l.1))
}

/// Machine code under construction.
struct Encoder {
    code: Vec<u8>,
    /// Labels in order of definition; a later definition of a name wins.
    labels: Vec<(String, u64)>,
    fixups: Vec<Fixup>,
    externs: Vec<String>,
}

impl Encoder {
    /// The encoder's state.
    pub closed spec fn state(&self) -> EncV {
        EncV { code: self.code@, labels: labels_view(self.labels@), fixups: fixups_view(self.fixups@) }
    }

    /// The extern functions, called through the import table.
    pub closed spec fn externs_view(&self) -> Seq<Seq<char>> {
        crate::codegen::strs_view(self.externs@)
    }

    /// Only the code grew, by `b`.
    pub closed spec fn appended(&self, old_enc: Encoder, b: Seq<u8>) -> bool {
        &&& self.code@ == old_enc.code@ + b
        &&& self.labels@ == old_enc.labels@
        &&& self.fixups@ == old_enc.fixups@
        &&& self.externs@ == old_enc.externs@
    }

    /// An encoder with no code, calling `externs` through the import table.
    fn new(externs: &[String]) -> (r: Self)
        ensures
            r.state() == (EncV { code: Seq::empty(), labels: Seq::empty(), fixups: Seq::empty() }),
            r.externs_view() == crate::codegen::strs_view(externs@),
    {
        let mut ex: Vec<String> = Vec::new();
        let mut i: usize = 0;
        while i < externs.len()
            invariant
                i <= externs@.len(),
                ex@ == externs@.take(i as int),
            decreases externs@.len() - i,
        {
            ex.push(externs[i].clone());
            i = i + 1;
            assert(ex@ =~= externs@.take(i as int));
        }
        assert(ex@ =~= externs@);
        let r = Encoder { code: Vec::new(), labels: Vec::new(), fixups: Vec::new(), externs: ex };
        assert(r.state().labels =~= Seq::<(Seq<char>, u64)>::empty());
        assert(r.state().fixups =~= Seq::<(u64, Seq<char>)>::empty());
        r
    }

    fn u8(&mut self, b: u8)
        ensures
            final(self).appended(*old(self), seq![b]),
    {
        self.code.push(b);
        assert(self.code@ =~= old(self).code@ + seq![b]);
    }

    fn u32(&mut self, v: u32)
        ensures
            final(self).appended(*old(self), le32(v)),
    {
        self.code.push((v & 0xff) as u8);
        self.code.push(((v >> 8) & 0xff) as u8);
        self.code.push(((v >> 16) & 0xff) as u8);
        self.code.push(((v >> 24) & 0xff) as u8);
        assert(self.code@ =~= old(self).code@ + le32(v));
    }

    fn u64(&mut self, v: u64)
        ensures
            final(self).appended(*old(self), le64(v)),
    {
        self.code.push((v & 0xff) as u8);
        self.code.push(((v >> 8) & 0xff) as u8);
        self.code.push(((v >> 16) & 0xff) as u8);
        self.code.push(((v >> 24) & 0xff) as u8);
        self.code.push(((v >> 32) & 0xff) as u8);
        self.code.push(((v >> 40) & 0xff) as u8);
        self.code.push(((v >> 48) & 0xff) as u8);
        self.code.push(((v >> 56) & 0xff) as u8);
        assert(self.code@ =~= old(self).code@ + le64(v));
    }

    fn rex_w(&mut self)
        ensures
            final(self).appended(*old(self), seq![0x48u8]),
    {
        self.u8(0x48);
    }

    /// REX.W + B (extended r/m).
    fn rex_wb(&mut self)
        ensures
            final(self).appended(*old(self), seq![0x49u8]),
    {
        self.u8(0x49);
    }

    fn modrm(&mut self, mode: u8, reg: u8, rm: u8)
        requires
            mode < 4,
        ensures
            final(self).appended(*old(self), seq![modrm_byte(mode as int, reg as int, rm as int)]),
    {
        proof {
            lemma_modrm_bits(mode, reg, rm);
        }
        self.u8((mode << 6) | ((reg & 7) << 3) | (rm & 7));
    }

    fn disp32(&mut self, v: i32)
        ensures
            final(self).appended(*old(self), le32(v as u32)),
    {
        self.u32(v as u32);
    }

    /// The architectural number of a general-purpose register.
    fn x86_reg_num(reg: Register) -> (r: u8)
        requires
            is_gpr(reg),
        ensures
            r as int == reg_num(reg),
    {
        match reg {
            Register::RAX => 0,
            Register::RBX => 3,
            Register::RCX => 1,
            Register::RDX => 2,
            Register::RSI => 6,
            Register::RDI => 7,
            Register::RBP => 5,
            Register::RSP => 4,
            Register::R8 => 8,
            Register::R9 => 9,
            Register::R10 => 10,
            Register::R11 => 11,
            Register::R12 => 12,
            Register::R13 => 13,
            Register::R14 => 14,
            _ => 15,
        }
    }

    /// The REX prefix that selects `reg` in the r/m field.
    fn rex_for_reg(&mut self, reg: Register)
        requires
            is_gpr(reg),
        ensures
            final(self).appended(*old(self), seq![rex_for(reg)]),
    {
        if Self::x86_reg_num(reg) >= 8 {
            self.rex_wb();
        } else {
            self.rex_w();
        }
    }

    /// `REX.W`, with `REX.R` for a register named in ModRM.reg.
    fn rex_for_reg_field(&mut self, reg: Register)
        requires
            is_gpr(reg),
        ensures
            final(self).appended(*old(self), seq![rex_reg(reg)]),
    {
        if Self::x86_reg_num(reg) >= 8 {
            self.u8(0x4C);
        } else {
            self.rex_w();
        }
    }

    /// REX prefix and `op + reg` (the register in the opcode's low bits).
    fn reg_opcode(&mut self, reg: Register, op: u8)
        requires
            is_gpr(reg),
            op <= 248,
        ensures
            final(self).appended(*old(self), seq![rex_for(reg), (op + reg_num(reg) % 8) as u8]),
    {
        let r = Self::x86_reg_num(reg);
        self.rex_for_reg(reg);
        proof {
            lemma_and7(r);
        }
        self.u8(op + (r & 7));
        assert(self.code@ =~= old(self).code@ + seq![rex_for(reg), (op + reg_num(reg) % 8) as u8]);
    }

    /// The REX prefix of a 64-bit operation on two registers: REX.R when the
    /// ModRM.reg register is extended, REX.B when the r/m one is.
    fn rex_w_for_regs(&mut self, dest: Register, src: Register)
        requires
            is_gpr(dest),
            is_gpr(src),
        ensures
            final(self).appended(*old(self), seq![rex_pair(dest, src)]),
    {
        let d = Self::x86_reg_num(dest);
        let s = Self::x86_reg_num(src);
        proof {
            lemma_rex_bits();
        }
        let mut rex = 0x48u8;
        if d >= 8 {
            rex |= 0x04;
        }
        if s >= 8 {
            rex |= 0x01;
        }
        self.u8(rex);
    }

    fn reg_to_reg(&mut self, opcode: u8, dest: Register, src: Register)
        requires
            is_gpr(dest),
            is_gpr(src),
        ensures
            final(self).appended(*old(self), reg_reg_bytes(opcode, dest, src)),
    {
        self.rex_w_for_regs(dest, src);
        self.u8(opcode);
        self.modrm(3, Self::x86_reg_num(dest), Self::x86_reg_num(src));
        assert(self.code@ =~= old(self).code@ + reg_reg_bytes(opcode, dest, src));
    }

    fn imm_to_reg(&mut self, dest: Register, val: i64)
        requires
            is_gpr(dest),
        ensures
            final(self).appended(*old(self), seq![rex_for(dest), (0xB8 + reg_num(dest) % 8) as u8] + le64(val as u64)),
    {
        self.reg_opcode(dest, 0xB8);
        self.u64(val as u64);
        assert(self.code@ =~= old(self).code@ + (seq![rex_for(dest), (0xB8 + reg_num(dest) % 8) as u8]
            + le64(val as u64)));
    }

    /// The addressing part of `[rbp + disp]` with `reg` in ModRM.reg.
    fn rbp_disp(&mut self, r: u8, disp: i64)
        ensures
            final(self).appended(*old(self), if -128 <= disp <= 127 {
                seq![modrm_byte(1, r as int, 5), disp as u8]
            } else {
                seq![modrm_byte(2, r as int, 5)] + disp32_bytes(disp)
            }),
    {
        if disp >= -128 && disp <= 127 {
            self.modrm(1, r, 5);
            self.u8(disp as u8);
            assert(self.code@ =~= old(self).code@ + seq![modrm_byte(1, r as int, 5), disp as u8]);
        } else {
            self.modrm(2, r, 5);
            self.disp32(disp as i32);
            assert(self.code@ =~= old(self).code@ + (seq![modrm_byte(2, r as int, 5)] + disp32_bytes(disp)));
        }
    }

    fn reg_to_mem_rbp(&mut self, reg: Register, disp: i64)
        requires
            is_gpr(reg),
        ensures
            final(self).appended(*old(self), rbp_mem_bytes(0x89, reg, disp)),
    {
        let r = Self::x86_reg_num(reg);
        self.rex_for_reg_field(reg);
        self.u8(0x89);
        self.rbp_disp(r, disp);
        assert(self.code@ =~= old(self).code@ + rbp_mem_bytes(0x89, reg, disp));
    }

    fn mem_rbp_to_reg(&mut self, reg: Register, disp: i64)
        requires
            is_gpr(reg),
        ensures
            final(self).appended(*old(self), rbp_mem_bytes(0x8B, reg, disp)),
    {
        let r = Self::x86_reg_num(reg);
        self.rex_for_reg_field(reg);
        self.u8(0x8B);
        self.rbp_disp(r, disp);
        assert(self.code@ =~= old(self).code@ + rbp_mem_bytes(0x8B, reg, disp));
    }

    /// `push`/`pop` of a register: `base + reg`, with REX.B when extended.
    fn short_reg(&mut self, base: u8, reg: Register)
        requires
            is_gpr(reg),
            base <= 248,
        ensures
            final(self).appended(*old(self), short_reg_bytes(base, reg)),
    {
        let r = Self::x86_reg_num(reg);
        if r >= 8 {
            self.u8(0x41);
        }
        proof {
            lemma_and7(r);
        }
        self.u8(base + (r & 7));
        assert(self.code@ =~= old(self).code@ + short_reg_bytes(base, reg));
    }

    fn push_reg(&mut self, reg: Register)
        requires
            is_gpr(reg),
        ensures
            final(self).appended(*old(self), short_reg_bytes(0x50, reg)),
    {
        self.short_reg(0x50, reg);
    }

    fn pop_reg(&mut self, reg: Register)
        requires
            is_gpr(reg),
        ensures
            final(self).appended(*old(self), short_reg_bytes(0x58, reg)),
    {
        self.short_reg(0x58, reg);
    }

    /// `set<cond> al`.
    fn setcc(&mut self, cond: &Conditional)
        ensures
            final(self).appended(*old(self), seq![0x0Fu8, setcc_byte(*cond), modrm_byte(3, 0, 0)]),
    {
        self.u8(0x0F);
        let b: u8 = match cond {
            Conditional::E => 0x94,
            Conditional::NE => 0x95,
            Conditional::L => 0x9C,
            Conditional::LE => 0x9E,
            Conditional::G => 0x9F,
            Conditional::GE => 0x9D,
        };
        self.u8(b);
        self.modrm(3, 0, 0);
        assert(self.code@ =~= old(self).code@ + seq![0x0Fu8, setcc_byte(*cond), modrm_byte(3, 0, 0)]);
    }

    /// `movzx rax, al`.
    fn movzx_al_to_rax(&mut self)
        ensures
            final(self).appended(*old(self), seq![0x48u8, 0x0Fu8, 0xB6u8, modrm_byte(3, 0, 0)]),
    {
        self.rex_w();
        self.u8(0x0F);
        self.u8(0xB6);
        self.modrm(3, 0, 0);
        assert(self.code@ =~= old(self).code@ + seq![0x48u8, 0x0Fu8, 0xB6u8, modrm_byte(3, 0, 0)]);
    }

    /// `add`/`sub rsp, imm` with ModRM extension `ext`.
    fn rsp_imm(&mut self, ext: u8, val: i64)
        requires
            ext < 8,
        ensures
            final(self).appended(*old(self), rsp_imm_bytes(ext as int, val)),
    {
        if val >= -128 && val <= 127 {
            self.rex_w();
            self.u8(0x83);
            self.modrm(3, ext, 4);
            self.u8(val as u8);
        } else {
            self.rex_w();
            self.u8(0x81);
            self.modrm(3, ext, 4);
            self.disp32(val as i32);
        }
        assert(self.code@ =~= old(self).code@ + rsp_imm_bytes(ext as int, val));
    }

    fn sub_rsp(&mut self, val: i64)
        ensures
            final(self).appended(*old(self), rsp_imm_bytes(5, val)),
    {
        self.rsp_imm(5, val);
    }

    fn add_rsp(&mut self, val: i64)
        ensures
            final(self).appended(*old(self), rsp_imm_bytes(0, val)),
    {
        self.rsp_imm(0, val);
    }

    /// `lea reg, [rip + ...]` up to the displacement.
    fn lea_rip_rel(&mut self, reg: Register)
        requires
            is_gpr(reg),
        ensures
            final(self).appended(*old(self), lea_rip_bytes(reg)),
    {
        let r = Self::x86_reg_num(reg);
        self.rex_for_reg_field(reg);
        self.u8(0x8D);
        self.modrm(0, r, 5);
        assert(self.code@ =~= old(self).code@ + lea_rip_bytes(reg));
    }

    /// Appends a zero displacement and records it as a relocation to
    /// `label`; returns its offset.
    fn add_fixup(&mut self, label: &str) -> (offset: u64)
        ensures
            offset == old(self).code@.len() as u64,
            final(self).code@ == old(self).code@ + zero4(),
            final(self).labels@ == old(self).labels@,
            fixups_view(final(self).fixups@) == fixups_view(old(self).fixups@).push((offset, label@)),
            final(self).externs@ == old(self).externs@,
    {
        let offset = self.code.len() as u64;
        self.disp32(0);
        proof {
            lemma_le32_zero();
        }
        self.fixups.push(Fixup { offset, label: string_of(label) });
        assert(fixups_view(self.fixups@) =~= fixups_view(old(self).fixups@).push((offset, label@)));
        offset
    }
}

/// The opcode bytes of a relocated branch.
pub open spec fn branch_ops(first: u8, second: Option<u8>) -> Seq<u8> {
    match second {
        Some(b) => seq![first, b],
        None => seq![first],
    }
}

impl Encoder {
    /// Whether `target` is one of the externs.
    fn is_extern(&self, target: &String) -> (r: bool)
        ensures
            r == self.externs_view().contains(target@),
    {
        let mut i: usize = 0;
        while i < self.externs.len()
            invariant
                i <= self.externs@.len(),
                forall|k: int| 0 <= k < i ==> self.externs@[k]@ != target@,
            decreases self.externs@.len() - i,
        {
            if self.externs[i] == *target {
                assert(self.externs_view()[i as int] == target@);
                return true;
            }
            i = i + 1;
        }
        assert forall|k: int| 0 <= k < self.externs_view().len() implies self.externs_view()[k] != target@ by {
            assert(self.externs_view()[k] == self.externs@[k]@);
        }
        false
    }

    /// Appends the bytes of a `mov`.
    fn emit_mov(&mut self, dest: &Operand, src: &Operand)
        requires
            encodable(InstrV::Mov { dest: dest@, src: src@ }),
        ensures
            final(self).code@ == old(self).code@ + enc_bytes(old(self).externs_view(), InstrV::Mov { dest: dest@, src: src@ }),
            final(self).labels@ == old(self).labels@,
            fixups_view(final(self).fixups@) == match enc_fixup(old(self).externs_view(), InstrV::Mov { dest: dest@, src: src@ }) {
                Some((k, l)) => fixups_view(old(self).fixups@).push(((old(self).code@.len() + k) as u64, l)),
                None => fixups_view(old(self).fixups@),
            },
            final(self).externs@ == old(self).externs@,
    {
        match (dest, src) {
            (Operand::Register(d, OperandSize::Qword), Operand::Immediate(v)) => self.imm_to_reg(*d, *v),
            (Operand::Register(d, OperandSize::Qword), Operand::Register(s, OperandSize::Qword)) => {
                self.rex_w_for_regs(*d, *s);
                self.u8(0x8B);
                self.modrm(3, Self::x86_reg_num(*d), Self::x86_reg_num(*s));
                assert(self.code@ =~= old(self).code@ + reg_reg_bytes(0x8B, *d, *s));
            },
            (Operand::Memory { base: Some(Register::RBP), displacement, .. }, Operand::Register(s, OperandSize::Qword)) =>
                self.reg_to_mem_rbp(*s, *displacement),
            (Operand::Register(d, OperandSize::Qword), Operand::Memory { base: Some(Register::RBP), displacement, .. }) =>
                self.mem_rbp_to_reg(*d, *displacement),
            (Operand::Register(d, OperandSize::Qword), Operand::Label(l)) => {
                self.lea_rip_rel(*d);
                self.add_fixup(l.as_str());
                assert(self.code@ =~= old(self).code@ + (lea_rip_bytes(*d) + zero4()));
            },
            _ => {
                assert(self.code@ =~= old(self).code@ + Seq::<u8>::empty());
            },
        }
    }

    /// Appends the bytes of an `add` (`sub` with `is_sub`).
    fn emit_add_sub(&mut self, is_sub: bool, dest: &Operand, src: &Operand)
        requires
            encodable(InstrV::Add { dest: dest@, src: src@ }),
        ensures
            final(self).appended(*old(self), if is_sub {
                enc_bytes(old(self).externs_view(), InstrV::Sub { dest: dest@, src: src@ })
            } else {
                enc_bytes(old(self).externs_view(), InstrV::Add { dest: dest@, src: src@ })
            }),
    {
        let op: u8 = if is_sub { 0x29 } else { 0x01 };
        match (dest, src) {
            (Operand::Register(Register::RSP, OperandSize::Qword), Operand::Immediate(v)) => {
                if is_sub {
                    self.sub_rsp(*v);
                } else {
                    self.add_rsp(*v);
                }
            },
            (Operand::Register(d, OperandSize::Qword), Operand::Register(s, OperandSize::Qword)) =>
                self.reg_to_reg(op, *s, *d),
            _ => self.reg_to_reg(op, Register::RCX, Register::RAX),
        }
    }

    /// Appends a relocated branch: the opcode bytes `ops`, then a zero
    /// displacement recorded against `target`.
    fn emit_branch(&mut self, first: u8, second: Option<u8>, target: &String)
        ensures
            final(self).code@ == old(self).code@ + branch_ops(first, second) + zero4(),
            final(self).labels@ == old(self).labels@,
            fixups_view(final(self).fixups@) == fixups_view(old(self).fixups@).push(
                ((old(self).code@.len() + branch_ops(first, second).len()) as u64, target@)),
            final(self).externs@ == old(self).externs@,
    {
        self.u8(first);
        if let Some(b) = second {
            self.u8(b);
        }
        self.add_fixup(target.as_str());
        assert(self.code@ =~= old(self).code@ + branch_ops(first, second) + zero4());
    }
}

proof fn lemma_plain_step(ex: Seq<Seq<char>>, before: EncV, after: EncV, i: InstrV)
    requires
        !(i is Label),
        after.code == before.code + enc_bytes(ex, i),
        after.labels == before.labels,
        after.fixups == match enc_fixup(ex, i) {
            Some((k, l)) => before.fixups.push(((before.code.len() + k) as u64, l)),
            None => before.fixups,
        },
    ensures
        after == enc_step(ex, before, i),
{
}

impl Encoder {
    /// Appends the bytes of a two-register or one-register arithmetic instruction.
    #[verifier::rlimit(60)]
    fn emit_alu(&mut self, instr: &Instruction)
        requires
            encodable(instr@),
            instr is Imul || instr is Idiv || instr is Neg || instr is And || instr is Or || instr is Xor || instr is Cmp || instr is Test,
        ensures
            final(self).appended(*old(self), enc_bytes(old(self).externs_view(), instr@)),
    {
        match instr {
            Instruction::Imul { dest, src } => {
                if let (Operand::Register(d, _), Operand::Register(s, _)) = (dest, src) {
                    self.rex_w_for_regs(*d, *s);
                    self.u8(0x0F);
                    self.u8(0xAF);
                    self.modrm(3, Self::x86_reg_num(*d), Self::x86_reg_num(*s));
                }
                assert(self.code@ =~= old(self).code@ + enc_bytes(old(self).externs_view(), instr@));
            },
            Instruction::Idiv { src } => {
                if let Operand::Register(r, _) = src {
                    self.rex_for_reg(*r);
                    self.u8(0xF7);
                    self.modrm(3, 7, Self::x86_reg_num(*r));
                }
                assert(self.code@ =~= old(self).code@ + enc_bytes(old(self).externs_view(), instr@));
            },
            Instruction::Neg { dest } => {
                if let Operand::Register(r, _) = dest {
                    self.rex_for_reg(*r);
                    self.u8(0xF7);
                    self.modrm(3, 3, Self::x86_reg_num(*r));
                }
                assert(self.code@ =~= old(self).code@ + enc_bytes(old(self).externs_view(), instr@));
            },
            Instruction::And { dest, src } => {
                if let (Operand::Register(d, _), Operand::Register(s, _)) = (dest, src) {
                    self.reg_to_reg(0x21, *s, *d);
                }
                assert(self.code@ =~= old(self).code@ + enc_bytes(old(self).externs_view(), instr@));
            },
            Instruction::Or { dest, src } => {
                if let (Operand::Register(d, _), Operand::Register(s, _)) = (dest, src) {
                    self.reg_to_reg(0x09, *s, *d);
                }
                assert(self.code@ =~= old(self).code@ + enc_bytes(old(self).externs_view(), instr@));
            },
            Instruction::Xor { dest, src } => {
                match (dest, src) {
                    (Operand::Register(Register::RAX, _), Operand::Immediate(-1)) => {
                        // not rax
                        self.rex_w();
                        self.u8(0xF7);
                        self.modrm(3, 2, 0);
                    },
                    (Operand::Register(d, _), Operand::Register(s, _)) => self.reg_to_reg(0x31, *s, *d),
                    _ => {},
                }
                assert(self.code@ =~= old(self).code@ + enc_bytes(old(self).externs_view(), instr@));
            },
            Instruction::Cmp { left, right } => {
                match (left, right) {
                    (Operand::Register(l, _), Operand::Register(r, _)) => self.reg_to_reg(0x39, *r, *l),
                    (Operand::Register(l, _), Operand::Immediate(0)) => {
                        self.rex_for_reg(*l);
                        self.u8(0x83);
                        self.modrm(3, 7, Self::x86_reg_num(*l));
                        self.u8(0);
                    },
                    _ => {},
                }
                assert(self.code@ =~= old(self).code@ + enc_bytes(old(self).externs_view(), instr@));
            },
            Instruction::Test { left, right } => {
                if let (Operand::Register(l, _), Operand::Register(r, _)) = (left, right) {
                    self.reg_to_reg(0x85, *r, *l);
                }
                assert(self.code@ =~= old(self).code@ + enc_bytes(old(self).externs_view(), instr@));
            },
            _ => {},
        }
    }

    /// Appends the bytes of a stack, flag or fixed-form instruction.
    #[verifier::rlimit(60)]
    fn emit_misc(&mut self, instr: &Instruction)
        requires
            encodable(instr@),
            instr is Cqo || instr is Push || instr is Pop || instr is Ret || instr is Nop || instr is Setcc || instr is Movzx || instr is Shl || instr is Shr,
        ensures
            final(self).appended(*old(self), enc_bytes(old(self).externs_view(), instr@)),
    {
        match instr {
            Instruction::Cqo => {
                self.rex_w();
                self.u8(0x99);
                assert(self.code@ =~= old(self).code@ + enc_bytes(old(self).externs_view(), instr@));
            },
            Instruction::Push(op) => {
                if let Operand::Register(r, _) = op {
                    self.push_reg(*r);
                }
                assert(self.code@ =~= old(self).code@ + enc_bytes(old(self).externs_view(), instr@));
            },
            Instruction::Pop(op) => {
                if let Operand::Register(r, _) = op {
                    self.pop_reg(*r);
                }
                assert(self.code@ =~= old(self).code@ + enc_bytes(old(self).externs_view(), instr@));
            },
            Instruction::Ret => {
                self.u8(0xC3);
            },
            Instruction::Nop => {
                self.u8(0x90);
            },
            Instruction::Setcc { cond, .. } => self.setcc(cond),
            Instruction::Movzx { .. } => self.movzx_al_to_rax(),
            Instruction::Shl { dest, count } => {
                if let (Operand::Register(d, _), Operand::Register(Register::RCX, OperandSize::Byte)) = (dest, count) {
                    self.rex_for_reg(*d);
                    self.u8(0xD3);
                    self.modrm(3, 4, Self::x86_reg_num(*d));
                }
                assert(self.code@ =~= old(self).code@ + enc_bytes(old(self).externs_view(), instr@));
            },
            Instruction::Shr { dest, count } => {
                if let (Operand::Register(d, _), Operand::Register(Register::RCX, OperandSize::Byte)) = (dest, count) {
                    self.rex_for_reg(*d);
                    self.u8(0xD3);
                    self.modrm(3, 5, Self::x86_reg_num(*d));
                }
                assert(self.code@ =~= old(self).code@ + enc_bytes(old(self).externs_view(), instr@));
            },
            _ => {},
        }
    }

    /// Appends a call: through the import table for an extern, relative
    /// otherwise.
    fn emit_call(&mut self, target: &String)
        ensures
            final(self).code@ == old(self).code@ + enc_bytes(old(self).externs_view(),
                InstrV::Call { target: target@, arg_count: 0 }),
            final(self).labels@ == old(self).labels@,
            fixups_view(final(self).fixups@) == match enc_fixup(old(self).externs_view(),
                InstrV::Call { target: target@, arg_count: 0 }) {
                Some((k, l)) => fixups_view(old(self).fixups@).push(((old(self).code@.len() + k) as u64, l)),
                None => fixups_view(old(self).fixups@),
            },
            final(self).externs@ == old(self).externs@,
    {
        if self.is_extern(target) {
            // Call through the import table: FF 15 [rip + disp32].
            self.u8(0xFF);
            self.modrm(0, 2, 5);
            let mut label = string_of("@IAT@");
            proof {
                reveal_strlit("@IAT@");
                assert(label@ =~= iat_prefix());
            }
            push_string(&mut label, target);
            self.add_fixup(label.as_str());
            assert(self.code@ =~= old(self).code@ + (seq![0xFFu8, modrm_byte(0, 2, 5)] + zero4()));
        } else {
            // Direct relative call: E8 rel32.
            self.emit_branch(0xE8, None, target);
            assert(self.code@ =~= old(self).code@ + (seq![0xE8u8] + zero4()));
        }
    }

    /// Appends a `lea` of a register: RIP-relative to a label, or with a
    /// zero displacement.
    fn emit_lea(&mut self, dest: &Operand, src: &Operand)
        requires
            encodable(InstrV::Lea { dest: dest@, src: src@ }),
        ensures
            final(self).code@ == old(self).code@ + enc_bytes(old(self).externs_view(), InstrV::Lea { dest: dest@, src: src@ }),
            final(self).labels@ == old(self).labels@,
            fixups_view(final(self).fixups@) == match enc_fixup(old(self).externs_view(), InstrV::Lea { dest: dest@, src: src@ }) {
                Some((k, l)) => fixups_view(old(self).fixups@).push(((old(self).code@.len() + k) as u64, l)),
                None => fixups_view(old(self).fixups@),
            },
            final(self).externs@ == old(self).externs@,
    {
        if let Operand::Register(d, _) = dest {
            self.lea_rip_rel(*d);
            if let Operand::Label(l) = src {
                self.add_fixup(l.as_str());
            } else {
                self.disp32(0);
                proof {
                    lemma_le32_zero();
                }
            }
            assert(self.code@ =~= old(self).code@ + (lea_rip_bytes(*d) + zero4()));
        } else {
            assert(self.code@ =~= old(self).code@ + Seq::<u8>::empty());
        }
    }

    /// Appends the encoding of one instruction (or records a label).
    fn emit(&mut self, instr: &Instruction)
        requires
            encodable(instr@),
        ensures
            final(self).state() == enc_step(old(self).externs_view(), old(self).state(), instr@),
            final(self).externs@ == old(self).externs@,
    {
        let ghost ex = self.externs_view();
        match instr {
            Instruction::Label(name) => {
                let off = self.code.len() as u64;
                self.labels.push((name.clone(), off));
                assert(labels_view(self.labels@) =~= labels_view(old(self).labels@).push((name@, off)));
            },
            Instruction::Mov { dest, src } => self.emit_mov(dest, src),
            Instruction::Add { dest, src } => self.emit_add_sub(false, dest, src),
            Instruction::Sub { dest, src } => self.emit_add_sub(true, dest, src),
            Instruction::Call { target, .. } => self.emit_call(target),
            Instruction::Jmp(target) => {
                self.emit_branch(0xE9, None, target);
                assert(self.code@ =~= old(self).code@ + enc_bytes(ex, instr@));
            },
            Instruction::Je(target) => {
                self.emit_branch(0x0F, Some(0x84), target);
                assert(self.code@ =~= old(self).code@ + enc_bytes(ex, instr@));
            },
            Instruction::Jne(target) => {
                self.emit_branch(0x0F, Some(0x85), target);
                assert(self.code@ =~= old(self).code@ + enc_bytes(ex, instr@));
            },
            Instruction::Lea { dest, src } => self.emit_lea(dest, src),
            Instruction::Imul { .. } | Instruction::Idiv { .. } | Instruction::Neg { .. } | Instruction::And { .. }
            | Instruction::Or { .. } | Instruction::Xor { .. } | Instruction::Cmp { .. }
            | Instruction::Test { .. } => self.emit_alu(instr),
            Instruction::Cqo | Instruction::Push(_) | Instruction::Pop(_) | Instruction::Ret | Instruction::Nop
            | Instruction::Setcc { .. } | Instruction::Movzx { .. } | Instruction::Shl { .. }
            | Instruction::Shr { .. } => self.emit_misc(instr),
            _ => {
                assert(self.code@ =~= old(self).code@ + enc_bytes(ex, instr@));
            },
        }
        proof {
            if !(instr is Label) {
                lemma_plain_step(ex, old(self).state(), self.state(), instr@);
            }
        }
    }
}

// ---------------------------------------------------------------------------
// Sizes and offsets
// ---------------------------------------------------------------------------

/// An instruction takes at most ten bytes, and its relocation lies within
/// them.
pub proof fn lemma_enc_bytes_len(ex: Seq<Seq<char>>, i: InstrV)
    ensures
        enc_bytes(ex, i).len() <= 10,
        enc_fixup(ex, i) matches Some((k, _)) ==> 0 <= k && k + 4 <= enc_bytes(ex, i).len(),
{
}

/// The encoder's state after `k` instructions: the code takes at most ten
/// bytes per instruction, every label offset lies within it, and every
/// relocation's four bytes do.
pub proof fn lemma_enc_prefix_bounds(ex: Seq<Seq<char>>, is: Seq<InstrV>, k: int)
    requires
        0 <= k <= is.len(),
        is.len() <= 0x0100_0000_0000_0000,
    ensures
        enc_prefix(ex, is, k).code.len() <= 10 * k,
        forall|j: int| 0 <= j < enc_prefix(ex, is, k).labels.len()
            ==> #[trigger] enc_prefix(ex, is, k).labels[j].1 <= enc_prefix(ex, is, k).code.len(),
        forall|j: int| 0 <= j < enc_prefix(ex, is, k).fixups.len()
            ==> #[trigger] enc_prefix(ex, is, k).fixups[j].0 + 4 <= enc_prefix(ex, is, k).code.len(),
    decreases k,
{
    if k > 0 {
        lemma_enc_prefix_bounds(ex, is, k - 1);
        lemma_enc_bytes_len(ex, is[k - 1]);
        let p = enc_prefix(ex, is, k - 1);
        let q = enc_prefix(ex, is, k);
        assert forall|j: int| 0 <= j < q.labels.len() implies #[trigger] q.labels[j].1 <= q.code.len() by {
            if j < p.labels.len() {
                assert(q.labels[j] == p.labels[j]);
            }
        }
        assert forall|j: int| 0 <= j < q.fixups.len() implies #[trigger] q.fixups[j].0 + 4 <= q.code.len() by {
            if j < p.fixups.len() {
                assert(q.fixups[j] == p.fixups[j]);
            }
        }
    }
}

// ---------------------------------------------------------------------------
// Resolution
// ---------------------------------------------------------------------------

/// The value of the latest entry named `name`.
pub fn find_latest(entries: &Vec<(String, u64)>, name: &String) -> (r: Option<u64>)
    ensures
        r == label_offset(labels_view(entries@), name@),
{
    let ghost lv = labels_view(entries@);
    let mut i: usize = entries.len();
    assert(lv.take(i as int) =~= lv);
    while i > 0
        invariant
            i <= entries@.len(),
            lv == labels_view(entries@),
            label_offset(lv, name@) == label_offset(lv.take(i as int), name@),
        decreases i,
    {
        let ghost t = lv.take(i as int);
        assert(t.drop_last() =~= lv.take(i - 1));
        if entries[i - 1].0 == *name {
            return Some(entries[i - 1].1);
        }
        i = i - 1;
    }
    None
}

impl Encoder {
    /// The latest offset recorded for `name`.
    fn find_label(&self, name: &String) -> (r: Option<u64>)
        ensures
            r == label_offset(labels_view(self.labels@), name@),
    {
        find_latest(&self.labels, name)
    }

    /// Patches every relocation whose label is defined with the 32-bit
    /// displacement from the end of its field to the label.
    fn resolve_fixups(&mut self)
        requires
            old(self).code@.len() <= 0x1000_0000_0000_0000,
            forall|j: int| 0 <= j < old(self).labels@.len() ==> #[trigger] old(self).labels@[j].1 <= old(self).code@.len(),
            forall|j: int| 0 <= j < old(self).fixups@.len()
                ==> #[trigger] old(self).fixups@[j].offset + 4 <= old(self).code@.len(),
        ensures
            final(self).code@ == resolved(old(self).code@, labels_view(old(self).labels@),
                fixups_view(old(self).fixups@), old(self).fixups@.len() as int),
            final(self).labels@ == old(self).labels@,
            final(self).fixups@ == old(self).fixups@,
            final(self).externs@ == old(self).externs@,
    {
        let ghost lv = labels_view(self.labels@);
        let ghost fv = fixups_view(self.fixups@);
        let mut i: usize = 0;
        while i < self.fixups.len()
            invariant
                i <= self.fixups@.len(),
                self.labels@ == old(self).labels@,
                self.fixups@ == old(self).fixups@,
                self.externs@ == old(self).externs@,
                lv == labels_view(self.labels@),
                fv == fixups_view(self.fixups@),
                self.code@.len() == old(self).code@.len(),
                old(self).code@.len() <= 0x1000_0000_0000_0000,
                forall|j: int| 0 <= j < self.labels@.len() ==> #[trigger] self.labels@[j].1 <= old(self).code@.len(),
                forall|j: int| 0 <= j < self.fixups@.len()
                    ==> #[trigger] self.fixups@[j].offset + 4 <= old(self).code@.len(),
                self.code@ == resolved(old(self).code@, lv, fv, i as int),
            decreases self.fixups@.len() - i,
        {
            let found = self.find_label(&self.fixups[i].label);
            if let Some(target_offset) = found {
                proof {
                    lemma_label_offset_in(lv, fv[i as int].1);
                    let j = choose|j: int| 0 <= j < lv.len() && #[trigger] lv[j].1 == label_offset(lv, fv[i as int].1)->0;
                    assert(lv[j].1 == self.labels@[j].1);
                    assert(self.fixups@[i as int].offset + 4 <= old(self).code@.len());
                }
                let current = self.fixups[i].offset;
                let rel: i64 = (target_offset as i64) - (current as i64) - 4;
                let v: u32 = (rel as i32) as u32;
                let n = self.code.len();
                let start = current as usize;
                assert(start + 4 <= n);
                let ghost prev = self.code@;
                self.code.set(start, (v & 0xff) as u8);
                self.code.set(start + 1, ((v >> 8) & 0xff) as u8);
                self.code.set(start + 2, ((v >> 16) & 0xff) as u8);
                self.code.set(start + 3, ((v >> 24) & 0xff) as u8);
                assert(v == rel32(target_offset, current));
                assert(self.code@ =~= patch32(prev, start as int, v));
            }
            i = i + 1;
        }
    }
}

/// A found label offset is one of the recorded ones.
pub proof fn lemma_label_offset_in(labels: Seq<(Seq<char>, u64)>, name: Seq<char>)
    requires
        label_offset(labels, name) is Some,
    ensures
        exists|j: int| 0 <= j < labels.len() && #[trigger] labels[j].1 == label_offset(labels, name)->0,
    decreases labels.len(),
{
    if labels.last().0 != name {
        lemma_label_offset_in(labels.drop_last(), name);
        let j = choose|j: int| 0 <= j < labels.drop_last().len() && #[trigger] labels.drop_last()[j].1
            == label_offset(labels.drop_last(), name)->0;
        assert(labels[j] == labels.drop_last()[j]);
    } else {
        assert(labels[labels.len() - 1].1 == label_offset(labels, name)->0);
    }
}

// ---------------------------------------------------------------------------
// Encoding a module
// ---------------------------------------------------------------------------

/// The encoder's state after all of `is`.
pub open spec fn encoded(externs: Seq<Seq<char>>, is: Seq<InstrV>) -> EncV {
    enc_prefix(externs, is, is.len() as int)
}

/// A label with every leading import-table mark removed
/// (`str::trim_start_matches`).
pub open spec fn trim_iat(s: Seq<char>) -> Seq<char>
    decreases s.len(),
{
    if iat_prefix().is_prefix_of(s) { trim_iat(s.skip(5)) } else { s }
}

/// The relocations of the first `k` that go through the import table, with
/// the extern's name.
pub open spec fn iat_fixups(fs: Seq<(u64, Seq<char>)>, k: int) -> Seq<(u64, Seq<char>)>
    decreases k,
{
    if k <= 0 || k > fs.len() {
        Seq::empty()
    } else if iat_prefix().is_prefix_of(fs[k - 1].1) {
        iat_fixups(fs, k - 1).push((fs[k - 1].0, trim_iat(fs[k - 1].1)))
    } else {
        iat_fixups(fs, k - 1)
    }
}

/// The relocations of the first `k` that are left for the image: not calls
/// through the import table, and to a label that the code does not define
/// (the others are resolved already).
pub open spec fn rip_fixups(fs: Seq<(u64, Seq<char>)>, labels: Seq<(Seq<char>, u64)>, k: int)
    -> Seq<(u64, Seq<char>)>
    decreases k,
{
    if k <= 0 || k > fs.len() {
        Seq::empty()
    } else if iat_prefix().is_prefix_of(fs[k - 1].1) || label_offset(labels, fs[k - 1].1) is Some {
        rip_fixups(fs, labels, k - 1)
    } else {
        rip_fixups(fs, labels, k - 1).push((fs[k - 1].0, fs[k - 1].1))
    }
}

/// An indirect call through the import table that the image writer patches.
#[derive(Debug, Clone)]
pub struct ExternFixup {
    /// Byte offset within the encoded code where the 4-byte displacement sits.
    pub offset: u64,
    /// Name of the extern function (e.g. "ExitProcess", "printf").
    pub name: String,
}

/// A RIP-relative reference to a label the encoder did not define, which
/// the image writer patches.
#[derive(Debug, Clone)]
pub struct RipRelFixup {
    /// Byte offset within the encoded code where the 4-byte displacement sits.
    pub offset: u64,
    /// Name of the label (data item or extern function).
    pub label: String,
}

/// The views of extern relocations.
pub open spec fn extern_fixups_view(v: Seq<ExternFixup>) -> Seq<(u64, Seq<char>)> {
    v.map_values(|f: ExternFixup| (f.offset, f.name@))
}

/// The views of RIP-relative relocations.
pub open spec fn riprel_fixups_view(v: Seq<RipRelFixup>) -> Seq<(u64, Seq<char>)> {
    v.map_values(|f: RipRelFixup| (f.offset, f.label@))
}

/// Whether `p` occurs in `cs` at `i`.
fn prefix_at(cs: &Vec<char>, i: usize, p: &Vec<char>) -> (r: bool)
    requires
        i <= cs@.len(),
    ensures
        r == p@.is_prefix_of(cs@.skip(i as int)),
{
    let n = cs.len();
    if p.len() > n - i {
        return false;
    }
    let mut k: usize = 0;
    while k < p.len()
        invariant
            n == cs@.len(),
            i + p@.len() <= cs@.len(),
            k <= p@.len(),
            forall|j: int| 0 <= j < k ==> p@[j] == cs@[i + j],
        decreases p@.len() - k,
    {
        if p[k] != cs[i + k] {
            assert(cs@.skip(i as int).subrange(0, p@.len() as int)[k as int] == cs@[i + k]);
            return false;
        }
        k = k + 1;
    }
    assert(p@ =~= cs@.skip(i as int).subrange(0, p@.len() as int));
    true
}

/// A label with every leading import-table mark removed.
fn trim_iat_prefixes(s: &String) -> (r: String)
    ensures
        r@ == trim_iat(s@),
{
    let cs = chars_of(s.as_str());
    let mark = chars_of("@IAT@");
    proof {
        reveal_strlit("@IAT@");
        assert(mark@ =~= iat_prefix());
    }
    let mut i: usize = 0;
    assert(cs@.skip(0) =~= cs@);
    while cs.len() - i >= 5 && prefix_at(&cs, i, &mark)
        invariant
            i <= cs@.len(),
            mark@ == iat_prefix(),
            cs@ == s@,
            trim_iat(s@) == trim_iat(cs@.skip(i as int)),
        decreases cs@.len() - i,
    {
        assert(cs@.skip(i as int).skip(5) =~= cs@.skip(i + 5));
        i = i + 5;
    }
    assert(!iat_prefix().is_prefix_of(cs@.skip(i as int)));
    let mut r = String::new();
    let mut k: usize = i;
    while k < cs.len()
        invariant
            i <= k <= cs@.len(),
            r@ == cs@.subrange(i as int, k as int),
        decreases cs@.len() - k,
    {
        push_char(&mut r, cs[k]);
        k = k + 1;
        assert(r@ =~= cs@.subrange(i as int, k as int));
    }
    assert(r@ =~= cs@.skip(i as int));
    r
}

/// Encodes compiled instructions into x86-64 machine code. Jumps and calls
/// to labels defined in the code are resolved; relocations through the
/// import table (extern calls) and to other labels (data) are returned for
/// the image writer.
pub fn encode(instructions: &[Instruction], externs: &[String]) -> (r: (Vec<u8>, Vec<ExternFixup>, Vec<RipRelFixup>))
    requires
        forall|i: int| 0 <= i < instructions@.len() ==> encodable(#[trigger] instructions@[i]@),
        instructions@.len() <= 0x0100_0000_0000_0000,
    ensures
        r.0@ == resolved(encoded(crate::codegen::strs_view(externs@), instrs_view(instructions@)).code,
            encoded(crate::codegen::strs_view(externs@), instrs_view(instructions@)).labels,
            encoded(crate::codegen::strs_view(externs@), instrs_view(instructions@)).fixups,
            encoded(crate::codegen::strs_view(externs@), instrs_view(instructions@)).fixups.len() as int),
        extern_fixups_view(r.1@) == iat_fixups(encoded(crate::codegen::strs_view(externs@),
            instrs_view(instructions@)).fixups, encoded(crate::codegen::strs_view(externs@),
            instrs_view(instructions@)).fixups.len() as int),
        riprel_fixups_view(r.2@) == rip_fixups(encoded(crate::codegen::strs_view(externs@),
            instrs_view(instructions@)).fixups, encoded(crate::codegen::strs_view(externs@),
            instrs_view(instructions@)).labels, encoded(crate::codegen::strs_view(externs@),
            instrs_view(instructions@)).fixups.len() as int),
{
    let ghost ex = crate::codegen::strs_view(externs@);
    let ghost iv = instrs_view(instructions@);
    let mut enc = Encoder::new(externs);
    let mut i: usize = 0;
    while i < instructions.len()
        invariant
            i <= instructions@.len(),
            iv == instrs_view(instructions@),
            forall|k: int| 0 <= k < instructions@.len() ==> encodable(#[trigger] instructions@[k]@),
            enc.externs_view() == ex,
            enc.state() == enc_prefix(ex, iv, i as int),
        decreases instructions@.len() - i,
    {
        assert(iv[i as int] == instructions@[i as int]@);
        enc.emit(&instructions[i]);
        i = i + 1;
    }
    let ghost st = enc_prefix(ex, iv, iv.len() as int);
    proof {
        lemma_enc_prefix_bounds(ex, iv, iv.len() as int);
        assert forall|j: int| 0 <= j < enc.labels@.len() implies #[trigger] enc.labels@[j].1 <= enc.code@.len() by {
            assert(st.labels[j].1 == enc.labels@[j].1);
        }
        assert forall|j: int| 0 <= j < enc.fixups@.len() implies #[trigger] enc.fixups@[j].offset + 4 <= enc.code@.len() by {
            assert(st.fixups[j].0 == enc.fixups@[j].offset);
        }
    }
    enc.resolve_fixups();
    let ghost fv = st.fixups;
    let mark = string_of("@IAT@");
    proof {
        reveal_strlit("@IAT@");
        assert(mark@ =~= iat_prefix());
    }
    let mut iat: Vec<ExternFixup> = Vec::new();
    let mut rip: Vec<RipRelFixup> = Vec::new();
    let mut k: usize = 0;
    while k < enc.fixups.len()
        invariant
            k <= enc.fixups@.len(),
            fv == fixups_view(enc.fixups@),
            mark@ == iat_prefix(),
            extern_fixups_view(iat@) == iat_fixups(fv, k as int),
            riprel_fixups_view(rip@) == rip_fixups(fv, st.labels, k as int),
            labels_view(enc.labels@) == st.labels,
        decreases enc.fixups@.len() - k,
    {
        let f = &enc.fixups[k];
        assert(fv[k as int] == (f.offset, f.label@));
        if has_prefix(&f.label, mark.as_str()) {
            let name = trim_iat_prefixes(&f.label);
            let ghost before = iat@;
            iat.push(ExternFixup { offset: f.offset, name });
            assert(extern_fixups_view(iat@) =~= extern_fixups_view(before).push((f.offset, trim_iat(f.label@))));
        } else if find_latest(&enc.labels, &f.label).is_none() {
            let ghost before = rip@;
            rip.push(RipRelFixup { offset: f.offset, label: f.label.clone() });
            assert(riprel_fixups_view(rip@) =~= riprel_fixups_view(before).push((f.offset, f.label@)));
        }
        k = k + 1;
    }
    (enc.code, iat, rip)
}

// ---------------------------------------------------------------------------
// Laws
// ---------------------------------------------------------------------------

/// The relocations of the encoder's state lie in increasing, disjoint
/// four-byte fields.
pub proof fn lemma_fixups_disjoint(ex: Seq<Seq<char>>, is: Seq<InstrV>, k: int)
    requires
        0 <= k <= is.len(),
        is.len() <= 0x0100_0000_0000_0000,
    ensures
        forall|a: int, b: int| 0 <= a < b < enc_prefix(ex, is, k).fixups.len()
            ==> #[trigger] enc_prefix(ex, is, k).fixups[a].0 + 4 <= #[trigger] enc_prefix(ex, is, k).fixups[b].0,
    decreases k,
{
    if k > 0 {
        lemma_fixups_disjoint(ex, is, k - 1);
        lemma_enc_prefix_bounds(ex, is, k - 1);
        lemma_enc_bytes_len(ex, is[k - 1]);
        let p = enc_prefix(ex, is, k - 1);
        let q = enc_prefix(ex, is, k);
        assert forall|a: int, b: int| 0 <= a < b < q.fixups.len()
            implies #[trigger] q.fixups[a].0 + 4 <= #[trigger] q.fixups[b].0 by {
            assert(q.fixups[a] == p.fixups[a]);
            if b < p.fixups.len() {
                assert(q.fixups[b] == p.fixups[b]);
            }
        }
    }
}

/// Patching keeps the length of the code.
proof fn lemma_resolved_len(code: Seq<u8>, labels: Seq<(Seq<char>, u64)>, fs: Seq<(u64, Seq<char>)>, k: int)
    requires
        0 <= k <= fs.len(),
        forall|j: int| 0 <= j < fs.len() ==> #[trigger] fs[j].0 + 4 <= code.len(),
    ensures
        resolved(code, labels, fs, k).len() == code.len(),
    decreases k,
{
    if k > 0 {
        lemma_resolved_len(code, labels, fs, k - 1);
        assert(fs[k - 1].0 + 4 <= code.len());
    }
}

/// Later patches leave the field of an earlier relocation alone.
proof fn lemma_resolved_keeps(code: Seq<u8>, labels: Seq<(Seq<char>, u64)>, fs: Seq<(u64, Seq<char>)>, j: int,
    k: int)
    requires
        0 <= j < k <= fs.len(),
        forall|i: int| 0 <= i < fs.len() ==> #[trigger] fs[i].0 + 4 <= code.len(),
        forall|a: int, b: int| 0 <= a < b < fs.len() ==> #[trigger] fs[a].0 + 4 <= #[trigger] fs[b].0,
    ensures
        resolved(code, labels, fs, k).subrange(fs[j].0 as int, fs[j].0 + 4)
            == resolved(code, labels, fs, j + 1).subrange(fs[j].0 as int, fs[j].0 + 4),
    decreases k,
{
    if k > j + 1 {
        lemma_resolved_keeps(code, labels, fs, j, k - 1);
        lemma_resolved_len(code, labels, fs, k - 1);
        let prev = resolved(code, labels, fs, k - 1);
        assert(fs[j].0 + 4 <= fs[k - 1].0);
        assert(fs[k - 1].0 + 4 <= code.len());
        match label_offset(labels, fs[k - 1].1) {
            Some(t) => {
                assert(resolved(code, labels, fs, k).subrange(fs[j].0 as int, fs[j].0 + 4)
                    =~= prev.subrange(fs[j].0 as int, fs[j].0 + 4));
            },
            None => {},
        }
    }
}

/// Law: in encoded code, the field of every relocation whose label the code
/// defines holds the 32-bit distance from the end of the field to the
/// label's (latest) offset, little-endian.
pub proof fn lemma_encoded_fields(ex: Seq<Seq<char>>, is: Seq<InstrV>, j: int)
    requires
        is.len() <= 0x0100_0000_0000_0000,
        0 <= j < encoded(ex, is).fixups.len(),
        label_offset(encoded(ex, is).labels, encoded(ex, is).fixups[j].1) is Some,
    ensures
        ({
            let st = encoded(ex, is);
            let off = st.fixups[j].0;
            let t = label_offset(st.labels, st.fixups[j].1)->0;
            resolved(st.code, st.labels, st.fixups, st.fixups.len() as int).subrange(off as int, off + 4)
                == le32(rel32(t, off))
        }),
{
    let st = encoded(ex, is);
    let n = is.len() as int;
    lemma_enc_prefix_bounds(ex, is, n);
    lemma_fixups_disjoint(ex, is, n);
    let fs = st.fixups;
    let off = fs[j].0;
    assert(fs[j].0 + 4 <= st.code.len());
    lemma_resolved_len(st.code, st.labels, fs, j);
    lemma_resolved_keeps(st.code, st.labels, fs, j, fs.len() as int);
    let t = label_offset(st.labels, fs[j].1)->0;
    assert(resolved(st.code, st.labels, fs, j + 1).subrange(off as int, off + 4) =~= le32(rel32(t, off)));
}

/// Relocations split off from `fs` keep their fields within `n` bytes.
proof fn lemma_split_fixups_within(fs: Seq<(u64, Seq<char>)>, labels: Seq<(Seq<char>, u64)>, k: int, n: int)
    requires
        0 <= k <= fs.len(),
        forall|j: int| 0 <= j < fs.len() ==> #[trigger] fs[j].0 + 4 <= n,
    ensures
        forall|j: int| 0 <= j < iat_fixups(fs, k).len() ==> #[trigger] iat_fixups(fs, k)[j].0 + 4 <= n,
        forall|j: int| 0 <= j < rip_fixups(fs, labels, k).len() ==> #[trigger] rip_fixups(fs, labels, k)[j].0 + 4 <= n,
    decreases k,
{
    if k > 0 {
        lemma_split_fixups_within(fs, labels, k - 1, n);
        assert(fs[k - 1].0 + 4 <= n);
        let pi = iat_fixups(fs, k - 1);
        let pr = rip_fixups(fs, labels, k - 1);
        assert forall|j: int| 0 <= j < iat_fixups(fs, k).len() implies #[trigger] iat_fixups(fs, k)[j].0 + 4 <= n by {
            if j < pi.len() {
                assert(pi[j].0 + 4 <= n);
            }
        }
        assert forall|j: int| 0 <= j < rip_fixups(fs, labels, k).len() implies #[trigger] rip_fixups(fs, labels, k)[j].0 + 4 <= n by {
            if j < pr.len() {
                assert(pr[j].0 + 4 <= n);
            }
        }
    }
}

/// Resolving keeps the length of the encoded code, and every relocation
/// that the encoder hands on has its four bytes within that code.
pub proof fn lemma_encoded_within(ex: Seq<Seq<char>>, is: Seq<InstrV>)
    requires
        is.len() <= 0x0100_0000_0000_0000,
    ensures
        resolved(encoded(ex, is).code, encoded(ex, is).labels, encoded(ex, is).fixups,
            encoded(ex, is).fixups.len() as int).len() == encoded(ex, is).code.len(),
        forall|j: int| 0 <= j < iat_fixups(encoded(ex, is).fixups, encoded(ex, is).fixups.len() as int).len()
            ==> #[trigger] iat_fixups(encoded(ex, is).fixups, encoded(ex, is).fixups.len() as int)[j].0 + 4
            <= encoded(ex, is).code.len(),
        forall|j: int| 0 <= j < rip_fixups(encoded(ex, is).fixups, encoded(ex, is).labels,
            encoded(ex, is).fixups.len() as int).len()
            ==> #[trigger] rip_fixups(encoded(ex, is).fixups, encoded(ex, is).labels,
            encoded(ex, is).fixups.len() as int)[j].0 + 4
            <= encoded(ex, is).code.len(),
{
    let e = encoded(ex, is);
    lemma_enc_prefix_bounds(ex, is, is.len() as int);
    lemma_resolved_len(e.code, e.labels, e.fixups, e.fixups.len() as int);
    lemma_split_fixups_within(e.fixups, e.labels, e.fixups.len() as int, e.code.len() as int);
}

/// Whether a register is a general-purpose one.
fn gpr(r: Register) -> (b: bool)
    ensures
        b == is_gpr(r),
{
    match r {
        Register::RAX | Register::RCX | Register::RDX | Register::RBX | Register::RSP | Register::RBP
        | Register::RSI | Register::RDI | Register::R8 | Register::R9 | Register::R10 | Register::R11
        | Register::R12 | Register::R13 | Register::R14 | Register::R15 => true,
        _ => false,
    }
}

/// Whether the encoder accepts an instruction (see `encodable`).
#[verifier::spinoff_prover]
#[verifier::rlimit(60)]
pub fn instruction_encodable(i: &Instruction) -> (r: bool)
    ensures
        r == encodable(i@),
{
    match i {
        Instruction::Mov { dest, src } => match (dest, src) {
            (Operand::Register(d, OperandSize::Qword), Operand::Immediate(_)) => gpr(*d),
            (Operand::Register(d, OperandSize::Qword), Operand::Register(s, OperandSize::Qword)) => gpr(*d) && gpr(*s),
            (Operand::Memory { base: Some(Register::RBP), .. }, Operand::Register(s, OperandSize::Qword)) => gpr(*s),
            (Operand::Register(d, OperandSize::Qword), Operand::Memory { base: Some(Register::RBP), .. }) => gpr(*d),
            (Operand::Register(d, OperandSize::Qword), Operand::Label(_)) => gpr(*d),
            _ => true,
        },
        Instruction::Add { dest, src } | Instruction::Sub { dest, src } => match (dest, src) {
            (Operand::Register(Register::RSP, OperandSize::Qword), Operand::Immediate(_)) => true,
            (Operand::Register(d, OperandSize::Qword), Operand::Register(s, OperandSize::Qword)) => gpr(*d) && gpr(*s),
            _ => true,
        },
        Instruction::Imul { dest, src } | Instruction::And { dest, src } | Instruction::Or { dest, src } => match (dest, src) {
            (Operand::Register(d, _), Operand::Register(s, _)) => gpr(*d) && gpr(*s),
            _ => true,
        },
        Instruction::Xor { dest, src } => match (dest, src) {
            (Operand::Register(Register::RAX, _), Operand::Immediate(-1)) => true,
            (Operand::Register(d, _), Operand::Register(s, _)) => gpr(*d) && gpr(*s),
            _ => true,
        },
        Instruction::Cmp { left, right } => match (left, right) {
            (Operand::Register(l, _), Operand::Register(r, _)) => gpr(*l) && gpr(*r),
            (Operand::Register(l, _), Operand::Immediate(0)) => gpr(*l),
            _ => true,
        },
        Instruction::Test { left, right } => match (left, right) {
            (Operand::Register(l, _), Operand::Register(r, _)) => gpr(*l) && gpr(*r),
            _ => true,
        },
        Instruction::Idiv { src: Operand::Register(r, _) } => gpr(*r),
        Instruction::Neg { dest: Operand::Register(r, _) } => gpr(*r),
        Instruction::Push(Operand::Register(r, _)) => gpr(*r),
        Instruction::Pop(Operand::Register(r, _)) => gpr(*r),
        Instruction::Lea { dest: Operand::Register(d, _), .. } => gpr(*d),
        Instruction::Shl { dest: Operand::Register(d, _), count: Operand::Register(Register::RCX, OperandSize::Byte) } =>
            gpr(*d),
        Instruction::Shr { dest: Operand::Register(d, _), count: Operand::Register(Register::RCX, OperandSize::Byte) } =>
            gpr(*d),
        Instruction::Vaddpd { .. } | Instruction::Vmulpd { .. } | Instruction::Vmovapd { .. } => false,
        _ => true,
    }
}

// ---------------------------------------------------------------------------
// Operand roles
// ---------------------------------------------------------------------------

/// The mode field (bits 7-6) of a ModRM byte.
pub open spec fn modrm_mode(b: u8) -> int {
    b as int / 64
}

/// The reg field (bits 5-3) of a ModRM byte.
pub open spec fn modrm_reg(b: u8) -> int {
    (b as int / 8) % 8
}

/// The r/m field (bits 2-0) of a ModRM byte.
pub open spec fn modrm_rm(b: u8) -> int {
    b as int % 8
}

/// A REX prefix with W set (0100 1RXB).
pub open spec fn rex_w_set(b: u8) -> bool {
    b as int / 8 == 9
}

/// REX.R: extends ModRM.reg.
pub open spec fn rex_r(b: u8) -> bool {
    (b as int / 4) % 2 == 1
}

/// REX.B: extends ModRM.rm.
pub open spec fn rex_b(b: u8) -> bool {
    b as int % 2 == 1
}

proof fn lemma_modrm_fields(mode: int, reg: int, rm: int)
    requires
        0 <= mode < 4,
        0 <= reg,
        0 <= rm,
    ensures
        modrm_mode(modrm_byte(mode, reg, rm)) == mode,
        modrm_reg(modrm_byte(mode, reg, rm)) == reg % 8,
        modrm_rm(modrm_byte(mode, reg, rm)) == rm % 8,
{
    let x = reg % 8;
    let y = rm % 8;
    let v = mode * 64 + x * 8 + y;
    assert(0 <= v < 256) by (nonlinear_arith)
        requires 0 <= mode < 4, 0 <= x < 8, 0 <= y < 8, v == mode * 64 + x * 8 + y;
    assert(modrm_byte(mode, reg, rm) as int == v);
    assert(v / 64 == mode && (v / 8) % 8 == x && v % 8 == y) by (nonlinear_arith)
        requires 0 <= mode < 4, 0 <= x < 8, 0 <= y < 8, v == mode * 64 + x * 8 + y;
}

/// Law: the operands of a two-register instruction sit in the fields the
/// instruction set gives them. For `add`, `sub`, `and`, `or`, `xor`, `cmp`
/// and `test` (the `r/m64, r64` forms) the destination is in ModRM.rm,
/// extended by REX.B, and the source in ModRM.reg, extended by REX.R; for
/// `mov` (`r64, r/m64`) it is the other way round. Every form sets REX.W.
pub proof fn lemma_register_roles(ex: Seq<Seq<char>>, d: Register, s: Register)
    requires
        is_gpr(d),
        is_gpr(s),
    ensures
        forall|op: u8| #![trigger mr_bytes(op, d, s)] {
            &&& mr_bytes(op, d, s).len() == 3
            &&& mr_bytes(op, d, s)[1] == op
            &&& rex_w_set(mr_bytes(op, d, s)[0])
            &&& modrm_mode(mr_bytes(op, d, s)[2]) == 3
            &&& modrm_rm(mr_bytes(op, d, s)[2]) + (if rex_b(mr_bytes(op, d, s)[0]) { 8int } else { 0 }) == reg_num(d)
            &&& modrm_reg(mr_bytes(op, d, s)[2]) + (if rex_r(mr_bytes(op, d, s)[0]) { 8int } else { 0 }) == reg_num(s)
        },
        forall|op: u8| #![trigger reg_reg_bytes(op, d, s)] {
            &&& reg_reg_bytes(op, d, s).len() == 3
            &&& reg_reg_bytes(op, d, s)[1] == op
            &&& rex_w_set(reg_reg_bytes(op, d, s)[0])
            &&& modrm_mode(reg_reg_bytes(op, d, s)[2]) == 3
            &&& modrm_reg(reg_reg_bytes(op, d, s)[2]) + (if rex_r(reg_reg_bytes(op, d, s)[0]) { 8int } else { 0 })
                == reg_num(d)
            &&& modrm_rm(reg_reg_bytes(op, d, s)[2]) + (if rex_b(reg_reg_bytes(op, d, s)[0]) { 8int } else { 0 })
                == reg_num(s)
        },
        enc_bytes(ex, InstrV::Add { dest: OperandV::Register(d, OperandSize::Qword), src: OperandV::Register(s, OperandSize::Qword) })
            == mr_bytes(0x01, d, s),
        enc_bytes(ex, InstrV::Sub { dest: OperandV::Register(d, OperandSize::Qword), src: OperandV::Register(s, OperandSize::Qword) })
            == mr_bytes(0x29, d, s),
        enc_bytes(ex, InstrV::Cmp { left: OperandV::Register(d, OperandSize::Qword), right: OperandV::Register(s, OperandSize::Qword) })
            == mr_bytes(0x39, d, s),
        enc_bytes(ex, InstrV::Test { left: OperandV::Register(d, OperandSize::Qword), right: OperandV::Register(s, OperandSize::Qword) })
            == mr_bytes(0x85, d, s),
        enc_bytes(ex, InstrV::And { dest: OperandV::Register(d, OperandSize::Qword), src: OperandV::Register(s, OperandSize::Qword) })
            == mr_bytes(0x21, d, s),
        enc_bytes(ex, InstrV::Or { dest: OperandV::Register(d, OperandSize::Qword), src: OperandV::Register(s, OperandSize::Qword) })
            == mr_bytes(0x09, d, s),
        enc_bytes(ex, InstrV::Mov { dest: OperandV::Register(d, OperandSize::Qword), src: OperandV::Register(s, OperandSize::Qword) })
            == reg_reg_bytes(0x8B, d, s),
{
    lemma_modrm_fields(3, reg_num(d), reg_num(s));
    lemma_modrm_fields(3, reg_num(s), reg_num(d));
    lemma_rex_bits();
}

/// Law: a move between a register and `[rbp + disp]`, and `lea` of a
/// RIP-relative address, name the register in ModRM.reg, extended by
/// REX.R (never REX.B), with RBP (or RIP, in mode 0) in ModRM.rm.
pub proof fn lemma_memory_roles(op: u8, r: Register, disp: i64)
    requires
        is_gpr(r),
    ensures
        rex_w_set(rbp_mem_bytes(op, r, disp)[0]),
        !rex_b(rbp_mem_bytes(op, r, disp)[0]),
        rbp_mem_bytes(op, r, disp)[1] == op,
        modrm_reg(rbp_mem_bytes(op, r, disp)[2]) + (if rex_r(rbp_mem_bytes(op, r, disp)[0]) { 8int } else { 0 }) == reg_num(r),
        modrm_rm(rbp_mem_bytes(op, r, disp)[2]) == 5,
        modrm_mode(rbp_mem_bytes(op, r, disp)[2]) == (if -128 <= disp <= 127 { 1int } else { 2 }),
        rex_w_set(lea_rip_bytes(r)[0]),
        !rex_b(lea_rip_bytes(r)[0]),
        modrm_reg(lea_rip_bytes(r)[2]) + (if rex_r(lea_rip_bytes(r)[0]) { 8int } else { 0 }) == reg_num(r),
        modrm_rm(lea_rip_bytes(r)[2]) == 5,
        modrm_mode(lea_rip_bytes(r)[2]) == 0,
{
    lemma_modrm_fields(1, reg_num(r), 5);
    lemma_modrm_fields(2, reg_num(r), 5);
    lemma_modrm_fields(0, reg_num(r), 5);
}

/// The bytes of a one-operand instruction of the `F7` or `D3` group on
/// register `d`: REX.W set, the opcode `op`, a register-direct ModRM whose
/// reg field is the opcode extension `ext` and whose r/m field, extended by
/// REX.B, is `d`.
pub open spec fn group_form(b: Seq<u8>, op: u8, ext: int, d: Register) -> bool {
    &&& b.len() == 3
    &&& rex_w_set(b[0])
    &&& b[1] == op
    &&& modrm_mode(b[2]) == 3
    &&& modrm_reg(b[2]) == ext
    &&& modrm_rm(b[2]) + (if rex_b(b[0]) { 8int } else { 0 }) == reg_num(d)
}

/// Law: the group instructions carry the opcode extensions of the Intel
/// manual, which tell them apart: `neg r64` is `F7 /3`, `idiv r64` is
/// `F7 /7`, `shl r64, cl` is `D3 /4` and `shr r64, cl` is `D3 /5`; in each
/// the operand register is in ModRM.rm, extended by REX.B.
pub proof fn lemma_group_extensions(ex: Seq<Seq<char>>, d: Register)
    requires
        is_gpr(d),
    ensures
        group_form(enc_bytes(ex, InstrV::Shl { dest: OperandV::Register(d, OperandSize::Qword),
            count: OperandV::Register(Register::RCX, OperandSize::Byte) }), 0xD3, 4, d),
        group_form(enc_bytes(ex, InstrV::Shr { dest: OperandV::Register(d, OperandSize::Qword),
            count: OperandV::Register(Register::RCX, OperandSize::Byte) }), 0xD3, 5, d),
        group_form(enc_bytes(ex, InstrV::Neg { dest: OperandV::Register(d, OperandSize::Qword) }), 0xF7, 3, d),
        group_form(enc_bytes(ex, InstrV::Idiv { src: OperandV::Register(d, OperandSize::Qword) }), 0xF7, 7, d),
{
    lemma_modrm_fields(3, 3, reg_num(d));
    lemma_modrm_fields(3, 4, reg_num(d));
    lemma_modrm_fields(3, 5, reg_num(d));
    lemma_modrm_fields(3, 7, reg_num(d));
}

/// The first word of a line of assembly text: the characters before the
/// first space.
pub open spec fn first_word(t: Seq<char>) -> Seq<char>
    decreases t.len(),
{
    if t.len() == 0 || t[0] == ' ' { Seq::empty() } else { seq![t[0]] + first_word(t.drop_first()) }
}

/// The opcode of the `r/m64, r64` form of an arithmetic or logic mnemonic,
/// as the Intel manual lists it (0 for a mnemonic without such a form).
pub open spec fn rm_r_opcode(mnemonic: Seq<char>) -> u8 {
    if mnemonic == "add"@ {
        0x01
    } else if mnemonic == "or"@ {
        0x09
    } else if mnemonic == "and"@ {
        0x21
    } else if mnemonic == "sub"@ {
        0x29
    } else if mnemonic == "xor"@ {
        0x31
    } else if mnemonic == "cmp"@ {
        0x39
    } else if mnemonic == "test"@ {
        0x85
    } else {
        0
    }
}

/// A word followed by a space and anything: the word is the first word.
proof fn lemma_first_word(m: Seq<char>, r: Seq<char>)
    requires
        forall|k: int| 0 <= k < m.len() ==> m[k] != ' ',
    ensures
        first_word(m + seq![' '] + r) == m,
    decreases m.len(),
{
    let t = m + seq![' '] + r;
    if m.len() == 0 {
        assert(t[0] == ' ');
    } else {
        assert(t.drop_first() =~= m.drop_first() + seq![' '] + r);
        lemma_first_word(m.drop_first(), r);
        assert(m =~= seq![m[0]] + m.drop_first());
    }
}

/// The first word of the text of a two-operand instruction is its mnemonic.
proof fn lemma_two_text_word(m: Seq<char>, a: OperandV, b: OperandV)
    requires
        forall|k: int| 0 <= k < m.len() ==> m[k] != ' ',
    ensures
        first_word(crate::ir::two_text(m, a, b)) == m,
{
    reveal_strlit(" ");
    let rest = crate::ir::operand_text(a) + ", "@ + crate::ir::operand_text(b);
    assert(crate::ir::two_text(m, a, b) =~= m + seq![' '] + rest);
    lemma_first_word(m, rest);
}

/// Law: the assembly text and the machine code of a two-register
/// arithmetic or logic instruction name the same operation: the mnemonic
/// that the text begins with is the one whose `r/m64, r64` opcode the
/// encoding carries (`add` 01, `or` 09, `and` 21, `sub` 29, `xor` 31,
/// `cmp` 39, `test` 85).
pub proof fn lemma_text_names_opcode(ex: Seq<Seq<char>>, i: InstrV)
    requires
        match i {
            InstrV::Add { dest: OperandV::Register(d, OperandSize::Qword), src: OperandV::Register(s, OperandSize::Qword) }
            | InstrV::Sub { dest: OperandV::Register(d, OperandSize::Qword), src: OperandV::Register(s, OperandSize::Qword) }
            | InstrV::And { dest: OperandV::Register(d, OperandSize::Qword), src: OperandV::Register(s, OperandSize::Qword) }
            | InstrV::Or { dest: OperandV::Register(d, OperandSize::Qword), src: OperandV::Register(s, OperandSize::Qword) }
            | InstrV::Xor { dest: OperandV::Register(d, OperandSize::Qword), src: OperandV::Register(s, OperandSize::Qword) }
            | InstrV::Cmp { left: OperandV::Register(d, OperandSize::Qword), right: OperandV::Register(s, OperandSize::Qword) }
            | InstrV::Test { left: OperandV::Register(d, OperandSize::Qword), right: OperandV::Register(s, OperandSize::Qword) }
                => is_gpr(d) && is_gpr(s),
            _ => false,
        },
    ensures
        enc_bytes(ex, i).len() == 3,
        enc_bytes(ex, i)[1] == rm_r_opcode(first_word(instr_text(i))),
{
    reveal_strlit("add");
    reveal_strlit("or");
    reveal_strlit("and");
    reveal_strlit("sub");
    reveal_strlit("xor");
    reveal_strlit("cmp");
    reveal_strlit("test");
    assert("add"@[1] != "and"@[1]);
    assert("add"@[0] != "sub"@[0]);
    assert("add"@[0] != "xor"@[0]);
    assert("add"@[0] != "cmp"@[0]);
    assert("and"@[0] != "sub"@[0]);
    assert("and"@[0] != "xor"@[0]);
    assert("and"@[0] != "cmp"@[0]);
    assert("sub"@[0] != "xor"@[0]);
    assert("sub"@[0] != "cmp"@[0]);
    assert("xor"@[0] != "cmp"@[0]);
    match i {
        InstrV::Add { dest, src } => {
            lemma_two_text_word("add"@, dest, src);
            assert(first_word(instr_text(i)) == "add"@);
            assert(rm_r_opcode("add"@) == 0x01);
            assert(enc_bytes(ex, i)[1] == 0x01);
        },
        InstrV::Sub { dest, src } => {
            lemma_two_text_word("sub"@, dest, src);
            assert(first_word(instr_text(i)) == "sub"@);
            assert(rm_r_opcode("sub"@) == 0x29);
            assert(enc_bytes(ex, i)[1] == 0x29);
        },
        InstrV::And { dest, src } => {
            lemma_two_text_word("and"@, dest, src);
            assert(first_word(instr_text(i)) == "and"@);
            assert(rm_r_opcode("and"@) == 0x21);
            assert(enc_bytes(ex, i)[1] == 0x21);
        },
        InstrV::Or { dest, src } => {
            lemma_two_text_word("or"@, dest, src);
            assert(first_word(instr_text(i)) == "or"@);
            assert(rm_r_opcode("or"@) == 0x09);
            assert(enc_bytes(ex, i)[1] == 0x09);
        },
        InstrV::Xor { dest, src } => {
            lemma_two_text_word("xor"@, dest, src);
            assert(first_word(instr_text(i)) == "xor"@);
            assert(rm_r_opcode("xor"@) == 0x31);
            assert(enc_bytes(ex, i)[1] == 0x31);
        },
        InstrV::Cmp { left, right } => {
            lemma_two_text_word("cmp"@, left, right);
            assert(first_word(instr_text(i)) == "cmp"@);
            assert(rm_r_opcode("cmp"@) == 0x39);
            assert(enc_bytes(ex, i)[1] == 0x39);
        },
        InstrV::Test { left, right } => {
            lemma_two_text_word("test"@, left, right);
            assert(first_word(instr_text(i)) == "test"@);
            assert(rm_r_opcode("test"@) == 0x85);
            assert(enc_bytes(ex, i)[1] == 0x85);
        },
        _ => {},
    }
}

/// The second opcode byte of a `setcc` mnemonic, as the Intel manual lists
/// it (0 for any other word).
pub open spec fn setcc_opcode(mnemonic: Seq<char>) -> u8 {
    if mnemonic == "sete"@ {
        0x94
    } else if mnemonic == "setne"@ {
        0x95
    } else if mnemonic == "setl"@ {
        0x9C
    } else if mnemonic == "setle"@ {
        0x9E
    } else if mnemonic == "setg"@ {
        0x9F
    } else if mnemonic == "setge"@ {
        0x9D
    } else {
        0
    }
}

/// Law: for every condition, the assembly text and the machine code of
/// `setcc` name the same condition: the encoding is `0F xx` with the
/// opcode that the Intel manual gives the mnemonic the text begins with
/// (`sete` 94, `setne` 95, `setl` 9C, `setle` 9E, `setg` 9F, `setge` 9D).
pub proof fn lemma_setcc_text_names_opcode(ex: Seq<Seq<char>>, c: Conditional, d: OperandV)
    ensures
        enc_bytes(ex, InstrV::Setcc { cond: c, dest: d })[0] == 0x0F,
        enc_bytes(ex, InstrV::Setcc { cond: c, dest: d })[1]
            == setcc_opcode(first_word(instr_text(InstrV::Setcc { cond: c, dest: d }))),
{
    reveal_strlit("set");
    reveal_strlit(" ");
    reveal_strlit("e");
    reveal_strlit("ne");
    reveal_strlit("l");
    reveal_strlit("le");
    reveal_strlit("g");
    reveal_strlit("ge");
    reveal_strlit("sete");
    reveal_strlit("setne");
    reveal_strlit("setl");
    reveal_strlit("setle");
    reveal_strlit("setg");
    reveal_strlit("setge");
    let m = "set"@ + crate::ir::cond_name(c);
    let rest = crate::ir::operand_text(d);
    assert(instr_text(InstrV::Setcc { cond: c, dest: d }) =~= m + seq![' '] + rest);
    lemma_first_word(m, rest);
    let w = match c {
        Conditional::E => "sete"@,
        Conditional::NE => "setne"@,
        Conditional::L => "setl"@,
        Conditional::LE => "setle"@,
        Conditional::G => "setg"@,
        Conditional::GE => "setge"@,
    };
    assert(m =~= w);
    assert("sete"@[3] != "setl"@[3] && "sete"@[3] != "setg"@[3] && "setl"@[3] != "setg"@[3]);
    assert("setne"@[3] != "setle"@[3] && "setne"@[3] != "setge"@[3] && "setle"@[3] != "setge"@[3]);
}

/// Law: the stack, jump and sign-extension instructions have the text and
/// the machine code of the same operation, for every register and label:
/// `push r` is `50+r` and `pop r` is `58+r` (with REX.B for R8 to R15),
/// `jmp` is `E9 rel32`, `je` is `0F 84 rel32`, `jne` is `0F 85 rel32`, and
/// `cqo` is `48 99`.
pub proof fn lemma_short_forms(ex: Seq<Seq<char>>, r: Register, sz: OperandSize, t: Seq<char>)
    requires
        is_gpr(r),
    ensures
        first_word(instr_text(InstrV::Push(OperandV::Register(r, sz)))) == "push"@,
        enc_bytes(ex, InstrV::Push(OperandV::Register(r, sz))).last() == 0x50 + reg_num(r) % 8,
        first_word(instr_text(InstrV::Pop(OperandV::Register(r, sz)))) == "pop"@,
        enc_bytes(ex, InstrV::Pop(OperandV::Register(r, sz))).last() == 0x58 + reg_num(r) % 8,
        (enc_bytes(ex, InstrV::Push(OperandV::Register(r, sz))).len() == 2) == (reg_num(r) >= 8),
        (enc_bytes(ex, InstrV::Pop(OperandV::Register(r, sz))).len() == 2) == (reg_num(r) >= 8),
        first_word(instr_text(InstrV::Jmp(t))) == "jmp"@,
        enc_bytes(ex, InstrV::Jmp(t)) == seq![0xE9u8, 0, 0, 0, 0],
        first_word(instr_text(InstrV::Je(t))) == "je"@,
        enc_bytes(ex, InstrV::Je(t)) == seq![0x0Fu8, 0x84, 0, 0, 0, 0],
        first_word(instr_text(InstrV::Jne(t))) == "jne"@,
        enc_bytes(ex, InstrV::Jne(t)) == seq![0x0Fu8, 0x85, 0, 0, 0, 0],
        instr_text(InstrV::Cqo) == "cqo"@,
        enc_bytes(ex, InstrV::Cqo) == seq![0x48u8, 0x99],
{
    reveal_strlit(" ");
    reveal_strlit("push");
    reveal_strlit("pop");
    reveal_strlit("jmp");
    reveal_strlit("je");
    reveal_strlit("jne");
    let o = crate::ir::operand_text(OperandV::Register(r, sz));
    assert(instr_text(InstrV::Push(OperandV::Register(r, sz))) =~= "push"@ + seq![' '] + o);
    lemma_first_word("push"@, o);
    assert(instr_text(InstrV::Pop(OperandV::Register(r, sz))) =~= "pop"@ + seq![' '] + o);
    lemma_first_word("pop"@, o);
    assert(instr_text(InstrV::Jmp(t)) =~= "jmp"@ + seq![' '] + t);
    lemma_first_word("jmp"@, t);
    assert(instr_text(InstrV::Je(t)) =~= "je"@ + seq![' '] + t);
    lemma_first_word("je"@, t);
    assert(instr_text(InstrV::Jne(t)) =~= "jne"@ + seq![' '] + t);
    lemma_first_word("jne"@, t);
    assert(enc_bytes(ex, InstrV::Jmp(t)) =~= seq![0xE9u8, 0, 0, 0, 0]);
    assert(enc_bytes(ex, InstrV::Je(t)) =~= seq![0x0Fu8, 0x84, 0, 0, 0, 0]);
    assert(enc_bytes(ex, InstrV::Jne(t)) =~= seq![0x0Fu8, 0x85, 0, 0, 0, 0]);
}

} // verus!
