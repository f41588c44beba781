//! Output as a Rust source file: Windows I/O helpers written in Rust and a
//! `global_asm!` block that carries the generated code and data.

use vstd::prelude::*;
use crate::codegen::{ModuleCode, data_view, strs_view};
use crate::ir::{InstrV, OperandV, Instruction, Operand, instr_printable, instr_text, instrs_view, operand_text, push_instruction,
    push_operand, reg_name};
use crate::output::{ModuleView, byte_texts, join, module_view, modules_printable, push_joined_bytes};
use crate::text::{chars_of, has_prefix, int_text, push_char, push_int, push_str, push_string, string_of};

verus! {

/// The file up to the body of the `extern "C"` block.
pub const RUST_HEAD: &'static str = r#"// Generated by Bxen Stage 0 compiler

extern "system" {
    fn GetStdHandle(nStdHandle: u32) -> isize;
    fn WriteFile(
        hFile: isize,
        lpBuffer: *const u8,
        nNumberOfBytesToWrite: u32,
        lpNumberOfBytesWritten: *mut u32,
        lpOverlapped: *const u8,
    ) -> i32;
}

#[allow(dead_code)]
extern "C" {
"#;

/// The declaration emitted when some module calls `ExitProcess`.
pub const EXIT_PROCESS_DECL: &'static str = "    fn ExitProcess(code: u32) -> !;\n";

/// The rest of the `extern "C"` block, the I/O helpers and the opening of
/// the `global_asm!` block.
pub const RUST_HELPERS: &'static str = r#"}

const STD_OUTPUT_HANDLE: u32 = 0xFFFFFFF5u32;
static mut STDOUT: isize = 0;

fn ensure_stdout() -> isize {
    unsafe {
        if STDOUT == 0 {
            STDOUT = GetStdHandle(STD_OUTPUT_HANDLE);
        }
        STDOUT
    }
}

#[no_mangle]
pub unsafe extern "C" fn bxen_print_int(val: i64) {
    let mut buf = [0u8; 20];
    let mut pos = 19usize;
    let mut n = if val < 0 { val.unsigned_abs() } else { val as u64 };
    loop {
        buf[pos] = b'0' + (n % 10) as u8;
        if n < 10 { break; }
        n /= 10;
        pos -= 1;
    }
    if val < 0 { pos -= 1; buf[pos] = b'-'; }
    let slice = core::slice::from_raw_parts(buf.as_ptr().add(pos), 20 - pos);
    let mut nl = b'\n';
    let h = ensure_stdout();
    let mut written = 0u32;
    WriteFile(h, slice.as_ptr(), slice.len() as u32, &mut written, core::ptr::null());
    WriteFile(h, &mut nl, 1, &mut written, core::ptr::null());
}

#[no_mangle]
pub unsafe extern "C" fn bxen_print_str(s: *const u8) {
    let mut len = 0u32;
    while *s.add(len as usize) != 0 { len += 1; }
    let mut nl = b'\n';
    let h = ensure_stdout();
    let mut written = 0u32;
    WriteFile(h, s, len, &mut written, core::ptr::null());
    WriteFile(h, &mut nl, 1, &mut written, core::ptr::null());
}

#[no_mangle]
pub unsafe extern "C" fn bxen_putchar(c: i64) {
    let mut ch = c as u8;
    let h = ensure_stdout();
    let mut written = 0u32;
    WriteFile(h, &mut ch, 1, &mut written, core::ptr::null());
}

core::arch::global_asm!(
"#;

/// The end of the `global_asm!` block and the `main` that calls into it.
pub const RUST_TAIL: &'static str = r#");

fn main() {
    unsafe { core::arch::asm!("call bxen_main"); }
}
"#;

/// The two lines that make the first entry label the global `bxen_main`.
pub const ENTRY_LINES: &'static str = "    \".globl bxen_main\",\n    \"bxen_main:\",\n";

// ---------------------------------------------------------------------------
// Lines of a text, as `str::lines` splits them
// ---------------------------------------------------------------------------

/// A line without its trailing carriage return, if it has one.
pub open spec fn strip_cr(l: Seq<char>) -> Seq<char> {
    if l.len() > 0 && l.last() == '\r' { l.drop_last() } else { l }
}

/// The lines ended by `\n` so far, and the text after the last `\n`.
pub open spec fn split_lines_acc(s: Seq<char>) -> (Seq<Seq<char>>, Seq<char>)
    decreases s.len(),
{
    if s.len() == 0 {
        (Seq::empty(), Seq::empty())
    } else {
        let (done, cur) = split_lines_acc(s.drop_last());
        if s.last() == '\n' {
            (done.push(strip_cr(cur)), Seq::empty())
        } else {
            (done, cur.push(s.last()))
        }
    }
}

/// The lines of a text: split at `\n` or `\r\n`, with no empty line after a
/// final line ending.
pub open spec fn text_lines(s: Seq<char>) -> Seq<Seq<char>> {
    let (done, cur) = split_lines_acc(s);
    if cur.len() > 0 { done.push(cur) } else { done }
}

/// One line of assembly as a string argument of `global_asm!`.
pub open spec fn quoted_line(l: Seq<char>) -> Seq<char> {
    "    \"    "@ + l + "\",\n"@
}

/// All lines, each as a string argument.
pub open spec fn quoted_lines(ls: Seq<Seq<char>>) -> Seq<char>
    decreases ls.len(),
{
    if ls.len() == 0 { Seq::empty() } else { quoted_lines(ls.drop_last()) + quoted_line(ls.last()) }
}

// ---------------------------------------------------------------------------
// The text of one instruction for LLVM's Intel syntax
// ---------------------------------------------------------------------------

/// An instruction as `global_asm!` needs it: a `lea` of a label addresses it
/// relative to `rip`, and a `cmp` of a register with an immediate names the
/// full register.
pub open spec fn rust_instr_text(i: InstrV) -> Seq<char> {
    match i {
        InstrV::Lea { dest, src: OperandV::Label(l) } => "lea "@ + operand_text(dest) + ", [rip + "@ + l + "]"@,
        InstrV::Cmp { left: OperandV::Register(r, _), right: OperandV::Immediate(v) } =>
            "cmp "@ + reg_name(r) + ", "@ + int_text(v as int),
        _ => instr_text(i),
    }
}

/// Whether an instruction is a label that starts with `.Lentry_`.
pub open spec fn is_entry_label(i: InstrV) -> bool {
    match i {
        InstrV::Label(name) => ".Lentry_"@.is_prefix_of(name),
        _ => false,
    }
}

/// The `global_asm!` lines of the first `k` instructions, given whether the
/// entry label was already marked; and whether it is marked afterwards.
pub open spec fn rust_instr_lines(is: Seq<InstrV>, k: int, entered: bool) -> (Seq<char>, bool)
    decreases k,
{
    if k <= 0 || k > is.len() {
        (Seq::empty(), entered)
    } else {
        let (t, e) = rust_instr_lines(is, k - 1, entered);
        let mark = !e && is_entry_label(is[k - 1]);
        (t + (if mark { ENTRY_LINES@ } else { Seq::empty() }) + quoted_lines(text_lines(rust_instr_text(is[k - 1]))),
            e || mark)
    }
}

/// The `global_asm!` lines of the first `k` data items.
pub open spec fn rust_data_lines(d: Seq<(Seq<char>, Seq<u8>)>, k: int) -> Seq<char>
    decreases k,
{
    if k <= 0 || k > d.len() {
        Seq::empty()
    } else {
        rust_data_lines(d, k - 1) + "    \""@ + d[k - 1].0 + ":\",\n"@ + "    \"    .byte "@
            + join(byte_texts(d[k - 1].1), ", "@) + "\",\n"@
    }
}

/// The `global_asm!` lines of one module, and whether the entry label is
/// marked after it.
pub open spec fn rust_module_text(m: ModuleView, entered: bool) -> (Seq<char>, bool) {
    let (is, st) = m;
    let (t, e) = rust_instr_lines(is, is.len() as int, entered);
    ("    \".section .text\",\n"@ + t + "    \"\",\n"@
        + (if st.data.len() > 0 {
            "    \".section .rdata\",\n"@ + rust_data_lines(st.data, st.data.len() as int) + "    \"\",\n"@
        } else {
            Seq::empty()
        }), e)
}

/// The `global_asm!` lines of the first `k` modules.
pub open spec fn rust_modules(ms: Seq<ModuleView>, k: int) -> (Seq<char>, bool)
    decreases k,
{
    if k <= 0 || k > ms.len() {
        (Seq::empty(), false)
    } else {
        let (t, e) = rust_modules(ms, k - 1);
        let (u, e2) = rust_module_text(ms[k - 1], e);
        (t + u, e2)
    }
}

/// Whether some module declares the extern `ExitProcess`.
pub open spec fn uses_exit_process(ms: Seq<ModuleView>) -> bool {
    exists|m: int, k: int| 0 <= m < ms.len() && 0 <= k < ms[m].1.externs.len()
        && #[trigger] ms[m].1.externs[k] == "ExitProcess"@
}

/// The Rust source file for a list of modules.
pub open spec fn rust_source_text(ms: Seq<ModuleView>) -> Seq<char> {
    RUST_HEAD@ + (if uses_exit_process(ms) { EXIT_PROCESS_DECL@ } else { Seq::empty() }) + RUST_HELPERS@
        + rust_modules(ms, ms.len() as int).0 + RUST_TAIL@
}

// ---------------------------------------------------------------------------
// Writing it out
// ---------------------------------------------------------------------------

/// Appends the characters of `v`.
fn push_chars(out: &mut String, v: &Vec<char>)
    ensures
        final(out)@ == old(out)@ + v@,
{
    let mut i: usize = 0;
    while i < v.len()
        invariant
            i <= v@.len(),
            out@ == old(out)@ + v@.take(i as int),
        decreases v@.len() - i,
    {
        push_char(out, v[i]);
        i = i + 1;
        assert(out@ =~= old(out)@ + v@.take(i as int));
    }
    assert(v@.take(i as int) =~= v@);
}

/// Appends `    "    <line>",` and a line break.
fn push_quoted_line(out: &mut String, line: &Vec<char>)
    ensures
        final(out)@ == old(out)@ + quoted_line(line@),
{
    push_str(out, "    \"    ");
    push_chars(out, line);
    push_str(out, "\",\n");
    assert(out@ =~= old(out)@ + quoted_line(line@));
}

/// Appends every line of `text` as a string argument of `global_asm!`.
fn push_quoted_lines(out: &mut String, text: &String)
    ensures
        final(out)@ == old(out)@ + quoted_lines(text_lines(text@)),
{
    let cs = chars_of(text.as_str());
    let mut cur: Vec<char> = Vec::new();
    let mut i: usize = 0;
    while i < cs.len()
        invariant
            i <= cs@.len(),
            cs@ == text@,
            out@ == old(out)@ + quoted_lines(split_lines_acc(cs@.take(i as int)).0),
            cur@ == split_lines_acc(cs@.take(i as int)).1,
        decreases cs@.len() - i,
    {
        let c = cs[i];
        let ghost prev = split_lines_acc(cs@.take(i as int));
        assert(cs@.take(i + 1).drop_last() =~= cs@.take(i as int));
        assert(cs@.take(i + 1).last() == c);
        if c == '\n' {
            if cur.len() > 0 && cur[cur.len() - 1] == '\r' {
                cur.pop();
                assert(cur@ =~= strip_cr(prev.1));
            }
            push_quoted_line(out, &cur);
            assert(prev.0.push(strip_cr(prev.1)).drop_last() =~= prev.0);
            cur = Vec::new();
        } else {
            cur.push(c);
        }
        i = i + 1;
    }
    assert(cs@.take(i as int) =~= text@);
    if cur.len() > 0 {
        let ghost acc = split_lines_acc(text@);
        push_quoted_line(out, &cur);
        assert(acc.0.push(acc.1).drop_last() =~= acc.0);
    }
}

/// The text of an instruction as LLVM's Intel syntax in `global_asm!`
/// takes it.
pub fn format_instruction_rust(instr: &Instruction) -> (r: String)
    requires
        instr_printable(instr@),
    ensures
        r@ == rust_instr_text(instr@),
{
    match instr {
        Instruction::Lea { dest, src: Operand::Label(l) } => {
            let mut s = string_of("lea ");
            push_operand(&mut s, dest);
            push_str(&mut s, ", [rip + ");
            push_string(&mut s, l);
            push_str(&mut s, "]");
            assert(s@ =~= rust_instr_text(instr@));
            s
        },
        Instruction::Cmp { left: Operand::Register(reg, _), right: Operand::Immediate(v) } => {
            let mut s = string_of("cmp ");
            push_str(&mut s, reg.name());
            push_str(&mut s, ", ");
            push_int(&mut s, *v);
            assert(s@ =~= rust_instr_text(instr@));
            s
        },
        _ => instr.to_text(),
    }
}

/// Appends the `global_asm!` lines of a module's instructions; returns
/// whether the entry label is marked afterwards.
fn push_rust_instrs(out: &mut String, code: &ModuleCode, entered: bool) -> (e: bool)
    requires
        forall|i: int| 0 <= i < code.instructions@.len() ==> instr_printable(#[trigger] code.instructions@[i]@),
    ensures
        final(out)@ == old(out)@ + rust_instr_lines(instrs_view(code.instructions@), code.instructions@.len() as int,
            entered).0,
        e == rust_instr_lines(instrs_view(code.instructions@), code.instructions@.len() as int, entered).1,
{
    let ghost is = instrs_view(code.instructions@);
    let mut e = entered;
    let mut i: usize = 0;
    while i < code.instructions.len()
        invariant
            i <= code.instructions@.len(),
            is == instrs_view(code.instructions@),
            forall|k: int| 0 <= k < code.instructions@.len() ==> instr_printable(#[trigger] code.instructions@[k]@),
            out@ == old(out)@ + rust_instr_lines(is, i as int, entered).0,
            e == rust_instr_lines(is, i as int, entered).1,
        decreases code.instructions@.len() - i,
    {
        let ins = &code.instructions[i];
        let ghost before = out@;
        if !e {
            if let Instruction::Label(name) = ins {
                if has_prefix(name, ".Lentry_") {
                    push_str(out, ENTRY_LINES);
                    e = true;
                }
            }
        }
        assert(instr_printable(code.instructions@[i as int]@));
        let line = format_instruction_rust(ins);
        push_quoted_lines(out, &line);
        i = i + 1;
        assert(out@ =~= old(out)@ + rust_instr_lines(is, i as int, entered).0);
    }
    e
}

/// Appends the `global_asm!` lines of a module's data items.
fn push_rust_data(out: &mut String, code: &ModuleCode)
    ensures
        final(out)@ == old(out)@ + rust_data_lines(data_view(code.data_items@), code.data_items@.len() as int),
{
    let ghost d = data_view(code.data_items@);
    let mut j: usize = 0;
    while j < code.data_items.len()
        invariant
            j <= code.data_items@.len(),
            d == data_view(code.data_items@),
            out@ == old(out)@ + rust_data_lines(d, j as int),
        decreases code.data_items@.len() - j,
    {
        push_str(out, "    \"");
        push_string(out, &code.data_items[j].0);
        push_str(out, ":\",\n");
        push_str(out, "    \"    .byte ");
        push_joined_bytes(out, &code.data_items[j].1);
        push_str(out, "\",\n");
        j = j + 1;
        assert(out@ =~= old(out)@ + rust_data_lines(d, j as int));
    }
}

/// Appends the `global_asm!` lines of one module; returns whether the entry
/// label is marked afterwards.
fn push_rust_module(out: &mut String, code: &ModuleCode, entered: bool) -> (e: bool)
    requires
        forall|i: int| 0 <= i < code.instructions@.len() ==> instr_printable(#[trigger] code.instructions@[i]@),
    ensures
        final(out)@ == old(out)@ + rust_module_text(module_view(*code), entered).0,
        e == rust_module_text(module_view(*code), entered).1,
{
    let ghost m = module_view(*code);
    let ghost is = m.0;
    let ghost st = m.1;
    let ghost lines = rust_instr_lines(is, is.len() as int, entered);
    push_str(out, "    \".section .text\",\n");
    let e = push_rust_instrs(out, code, entered);
    push_str(out, "    \"\",\n");
    let ghost o1 = out@;
    assert(o1 == old(out)@ + "    \".section .text\",\n"@ + lines.0 + "    \"\",\n"@);
    let ghost data_part = if st.data.len() > 0 {
        "    \".section .rdata\",\n"@ + rust_data_lines(st.data, st.data.len() as int) + "    \"\",\n"@
    } else {
        Seq::<char>::empty()
    };
    if code.data_items.len() > 0 {
        push_str(out, "    \".section .rdata\",\n");
        push_rust_data(out, code);
        push_str(out, "    \"\",\n");
        assert(out@ =~= o1 + data_part);
    } else {
        assert(out@ =~= o1 + data_part);
    }
    assert(rust_module_text(m, entered) == ("    \".section .text\",\n"@ + lines.0 + "    \"\",\n"@ + data_part,
        lines.1));
    assert(out@ =~= old(out)@ + rust_module_text(m, entered).0);
    e
}

/// Whether some module declares the extern `ExitProcess`.
fn any_exit_process(modules: &[ModuleCode]) -> (r: bool)
    ensures
        r == uses_exit_process(modules@.map_values(|m: ModuleCode| module_view(m))),
{
    let ghost ms = modules@.map_values(|m: ModuleCode| module_view(m));
    let exit = string_of("ExitProcess");
    let mut m: usize = 0;
    while m < modules.len()
        invariant
            m <= modules@.len(),
            ms == modules@.map_values(|m: ModuleCode| module_view(m)),
            exit@ == "ExitProcess"@,
            forall|a: int, k: int| 0 <= a < m && 0 <= k < ms[a].1.externs.len() ==> ms[a].1.externs[k] != "ExitProcess"@,
        decreases modules@.len() - m,
    {
        let mut k: usize = 0;
        while k < modules[m].externs.len()
            invariant
                m < modules@.len(),
                k <= modules@[m as int].externs@.len(),
                ms == modules@.map_values(|m: ModuleCode| module_view(m)),
                exit@ == "ExitProcess"@,
                forall|a: int, k: int| 0 <= a < m && 0 <= k < ms[a].1.externs.len() ==> ms[a].1.externs[k] != "ExitProcess"@,
                forall|j: int| 0 <= j < k ==> modules@[m as int].externs@[j]@ != "ExitProcess"@,
            decreases modules@[m as int].externs@.len() - k,
        {
            if modules[m].externs[k] == exit {
                assert(ms[m as int].1.externs[k as int] == "ExitProcess"@);
                return true;
            }
            k = k + 1;
        }
        m = m + 1;
    }
    false
}

/// Formats compiled modules as a Rust source file: the Windows I/O helpers
/// and a `global_asm!` block holding every module's code and data, with the
/// first entry label exported as `bxen_main`.
pub fn format_rust_source(modules: &[ModuleCode]) -> (r: Result<String, String>)
    requires
        modules_printable(modules@),
    ensures
        r matches Ok(s) && s@ == rust_source_text(modules@.map_values(|m: ModuleCode| module_view(m))),
{
    let ghost ms = modules@.map_values(|m: ModuleCode| module_view(m));
    let mut out = string_of(RUST_HEAD);
    if any_exit_process(modules) {
        push_str(&mut out, EXIT_PROCESS_DECL);
    }
    push_str(&mut out, RUST_HELPERS);
    let ghost o0 = out@;
    let mut entered = false;
    let mut i: usize = 0;
    while i < modules.len()
        invariant
            i <= modules@.len(),
            ms == modules@.map_values(|m: ModuleCode| module_view(m)),
            modules_printable(modules@),
            out@ == o0 + rust_modules(ms, i as int).0,
            entered == rust_modules(ms, i as int).1,
        decreases modules@.len() - i,
    {
        assert forall|k: int| 0 <= k < modules@[i as int].instructions@.len()
            implies instr_printable(#[trigger] modules@[i as int].instructions@[k]@) by {
            assert(instr_printable(modules@[i as int].instructions@[k]@));
        }
        entered = push_rust_module(&mut out, &modules[i], entered);
        i = i + 1;
        assert(out@ =~= o0 + rust_modules(ms, i as int).0);
    }
    push_str(&mut out, RUST_TAIL);
    assert(out@ =~= rust_source_text(ms));
    Ok(out)
}

} // verus!
