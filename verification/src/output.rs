//! Text output of compiled modules: NASM assembly, or a Rust source file
//! whose `global_asm!` block carries the code and data.

use vstd::prelude::*;
use crate::codegen::{GenState, ModuleCode, data_view, gen_state, strs_view};
use crate::ir::{InstrV, Instruction, Operand, OperandV, instr_printable, instr_text, instrs_view, operand_text, push_instruction,
    push_operand, reg_name};
use crate::text::{int_text, nat_digits, push_int, push_nat, push_str, push_string, string_of};

verus! {

/// What the text output reads of a module: its instructions and its
/// externs and data.
pub type ModuleView = (Seq<InstrV>, GenState);

/// The view of a compiled module.
pub open spec fn module_view(code: ModuleCode) -> ModuleView {
    (instrs_view(code.instructions@), gen_state(code))
}

/// `parts` separated by `sep`.
pub open spec fn join(parts: Seq<Seq<char>>, sep: Seq<char>) -> Seq<char>
    decreases parts.len(),
{
    if parts.len() == 0 {
        Seq::empty()
    } else if parts.len() == 1 {
        parts[0]
    } else {
        join(parts.drop_last(), sep) + sep + parts.last()
    }
}

/// The decimal values of bytes.
pub open spec fn byte_texts(b: Seq<u8>) -> Seq<Seq<char>> {
    b.map_values(|x: u8| nat_digits(x as nat))
}

/// Lines `    <instruction>` of the first `k` instructions.
pub open spec fn asm_instr_lines(is: Seq<InstrV>, k: int) -> Seq<char>
    decreases k,
{
    if k <= 0 || k > is.len() {
        Seq::empty()
    } else {
        asm_instr_lines(is, k - 1) + "    "@ + instr_text(is[k - 1]) + "\n"@
    }
}

/// Lines `<label>:    db <bytes>` of the first `k` data items.
pub open spec fn asm_data_lines(d: Seq<(Seq<char>, Seq<u8>)>, k: int) -> Seq<char>
    decreases k,
{
    if k <= 0 || k > d.len() {
        Seq::empty()
    } else {
        asm_data_lines(d, k - 1) + d[k - 1].0 + ":"@ + "    db "@ + join(byte_texts(d[k - 1].1), ", "@) + "\n"@
    }
}

/// The assembly of one module: extern declarations, `.text`, `.rdata`.
pub open spec fn asm_module_text(m: ModuleView) -> Seq<char> {
    let (is, st) = m;
    (if st.externs.len() > 0 { "extern "@ + join(st.externs, ", "@) + "\n\n"@ } else { Seq::empty() })
        + "section .text\n"@ + asm_instr_lines(is, is.len() as int) + "\n"@
        + (if st.data.len() > 0 {
            "section .rdata\n"@ + asm_data_lines(st.data, st.data.len() as int) + "\n"@
        } else {
            Seq::empty()
        })
}

/// The header of the assembly file.
pub open spec fn asm_header() -> Seq<char> {
    "; Generated by Bxen Stage 0 compiler\n"@ + "; Target: Windows x64 (Microsoft calling convention)\n"@
        + "default rel\n\n"@
}

/// The assembly of the first `k` modules.
pub open spec fn asm_modules(ms: Seq<ModuleView>, k: int) -> Seq<char>
    decreases k,
{
    if k <= 0 || k > ms.len() { Seq::empty() } else { asm_modules(ms, k - 1) + asm_module_text(ms[k - 1]) }
}

/// The NASM file for a list of modules.
pub open spec fn asm_text(ms: Seq<ModuleView>) -> Seq<char> {
    asm_header() + asm_modules(ms, ms.len() as int)
}

/// Every instruction of every module is printable.
pub open spec fn modules_printable(ms: Seq<ModuleCode>) -> bool {
    forall|m: int, i: int| 0 <= m < ms.len() && 0 <= i < ms[m].instructions@.len()
        ==> instr_printable(#[trigger] ms[m].instructions@[i]@)
}

/// Appends `parts` separated by `, `.
pub fn push_joined_strings(s: &mut String, parts: &Vec<String>)
    ensures
        final(s)@ == old(s)@ + join(strs_view(parts@), ", "@),
{
    let ghost v = strs_view(parts@);
    let mut i: usize = 0;
    while i < parts.len()
        invariant
            i <= parts@.len(),
            v == strs_view(parts@),
            s@ == old(s)@ + join(v.take(i as int), ", "@),
        decreases parts@.len() - i,
    {
        if i > 0 {
            push_str(s, ", ");
        }
        push_string(s, &parts[i]);
        proof {
            let t = v.take(i + 1);
            assert(t.drop_last() =~= v.take(i as int));
            assert(t.last() == parts@[i as int]@);
        }
        i = i + 1;
        assert(s@ =~= old(s)@ + join(v.take(i as int), ", "@));
    }
    assert(v.take(i as int) =~= v);
}

/// Appends the decimal bytes separated by `, `.
pub fn push_joined_bytes(s: &mut String, bytes: &Vec<u8>)
    ensures
        final(s)@ == old(s)@ + join(byte_texts(bytes@), ", "@),
{
    let ghost v = byte_texts(bytes@);
    let mut i: usize = 0;
    while i < bytes.len()
        invariant
            i <= bytes@.len(),
            v == byte_texts(bytes@),
            s@ == old(s)@ + join(v.take(i as int), ", "@),
        decreases bytes@.len() - i,
    {
        if i > 0 {
            push_str(s, ", ");
        }
        push_nat(s, bytes[i] as u64);
        proof {
            let t = v.take(i + 1);
            assert(t.drop_last() =~= v.take(i as int));
            assert(t.last() == nat_digits(bytes@[i as int] as nat));
        }
        i = i + 1;
        assert(s@ =~= old(s)@ + join(v.take(i as int), ", "@));
    }
    assert(v.take(i as int) =~= v);
}

/// Appends the assembly of one module.
fn push_asm_module(out: &mut String, code: &ModuleCode)
    requires
        forall|i: int| 0 <= i < code.instructions@.len() ==> instr_printable(#[trigger] code.instructions@[i]@),
    ensures
        final(out)@ == old(out)@ + asm_module_text(module_view(*code)),
{
    let ghost o0 = out@;
    if code.externs.len() > 0 {
        push_str(out, "extern ");
        push_joined_strings(out, &code.externs);
        push_str(out, "\n\n");
    }
    let ghost o1 = out@;
    assert(o1 =~= o0 + (if strs_view(code.externs@).len() > 0 {
        "extern "@ + join(strs_view(code.externs@), ", "@) + "\n\n"@
    } else {
        Seq::empty()
    }));
    push_str(out, "section .text\n");
    let ghost o2 = out@;
    let ghost is = instrs_view(code.instructions@);
    let mut i: usize = 0;
    while i < code.instructions.len()
        invariant
            i <= code.instructions@.len(),
            is == instrs_view(code.instructions@),
            forall|k: int| 0 <= k < code.instructions@.len() ==> instr_printable(#[trigger] code.instructions@[k]@),
            out@ == o2 + asm_instr_lines(is, i as int),
        decreases code.instructions@.len() - i,
    {
        push_str(out, "    ");
        push_instruction(out, &code.instructions[i]);
        push_str(out, "\n");
        i = i + 1;
        assert(out@ =~= o2 + asm_instr_lines(is, i as int));
    }
    push_str(out, "\n");
    let ghost o3 = out@;
    let ghost d = data_view(code.data_items@);
    if code.data_items.len() > 0 {
        push_str(out, "section .rdata\n");
        let ghost o4 = out@;
        let mut j: usize = 0;
        while j < code.data_items.len()
            invariant
                j <= code.data_items@.len(),
                d == data_view(code.data_items@),
                out@ == o4 + asm_data_lines(d, j as int),
            decreases code.data_items@.len() - j,
        {
            push_string(out, &code.data_items[j].0);
            push_str(out, ":");
            push_str(out, "    db ");
            push_joined_bytes(out, &code.data_items[j].1);
            push_str(out, "\n");
            j = j + 1;
            assert(out@ =~= o4 + asm_data_lines(d, j as int));
        }
        push_str(out, "\n");
    }
    assert(out@ =~= o0 + asm_module_text(module_view(*code)));
}

/// Formats compiled modules as NASM assembly.
pub fn format_as_asm(modules: &[ModuleCode]) -> (r: String)
    requires
        modules_printable(modules@),
    ensures
        r@ == asm_text(modules@.map_values(|m: ModuleCode| module_view(m))),
{
    let ghost ms = modules@.map_values(|m: ModuleCode| module_view(m));
    let mut out = string_of("; Generated by Bxen Stage 0 compiler\n");
    push_str(&mut out, "; Target: Windows x64 (Microsoft calling convention)\n");
    push_str(&mut out, "default rel\n\n");
    let ghost o0 = out@;
    assert(o0 =~= asm_header());
    let mut i: usize = 0;
    while i < modules.len()
        invariant
            i <= modules@.len(),
            ms == modules@.map_values(|m: ModuleCode| module_view(m)),
            modules_printable(modules@),
            o0 == asm_header(),
            out@ == o0 + asm_modules(ms, i as int),
        decreases modules@.len() - i,
    {
        assert forall|k: int| 0 <= k < modules@[i as int].instructions@.len()
            implies instr_printable(#[trigger] modules@[i as int].instructions@[k]@) by {
            assert(instr_printable(modules@[i as int].instructions@[k]@));
        }
        push_asm_module(&mut out, &modules[i]);
        i = i + 1;
        assert(out@ =~= o0 + asm_modules(ms, i as int));
    }
    out
}

} // verus!
