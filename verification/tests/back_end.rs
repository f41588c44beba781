use bxen::ast::{BinaryOp, UnaryOp, ValueType};
use bxen::codegen::{align_to_16, CodeGenerator, ModuleCode, OutputFormat, SymbolTable};
use bxen::ir::{byte_register_name, Conditional, Instruction, Operand, OperandSize, Register};
use bxen::lexer::Lexer;
use bxen::limits::check_program_fits;
use bxen::link::{build_image, link_modules};
use bxen::output::format_as_asm;
use bxen::parser::Parser;
use bxen::pe::{align_u64, pad_len};
use bxen::rust_source::{format_instruction_rust, format_rust_source};
use bxen::x64::{encode, instruction_encodable};

fn reg(r: Register) -> Operand {
    Operand::Register(r, OperandSize::Qword)
}

fn program(src: &str) -> bxen::ast::Program {
    Parser::parse(Lexer::tokenize(src).unwrap()).unwrap()
}

// ---------------------------------------------------------------------------
// Names and texts
// ---------------------------------------------------------------------------

#[test]
fn operator_and_type_texts() {
    assert_eq!(BinaryOp::Shl.to_text(), "<<");
    assert_eq!(BinaryOp::Ge.to_text(), ">=");
    assert_eq!(UnaryOp::BitNot.to_text(), "~");
    assert_eq!(ValueType::F64.to_text(), "f64");
}

#[test]
fn register_names() {
    assert_eq!(Register::R9.name(), "r9");
    assert_eq!(byte_register_name(Register::RAX), "al");
    assert_eq!(byte_register_name(Register::RDI), "dil");
    assert_eq!(byte_register_name(Register::R12), "r12b");
    // An SSE register has no byte form and keeps its full name.
    assert_eq!(byte_register_name(Register::XMM3), "xmm3");
    assert_eq!(OperandSize::Qword.name(), "qword");
    assert_eq!(Conditional::GE.name(), "ge");
}

#[test]
fn instruction_texts() {
    let store = Instruction::Mov {
        dest: Operand::Memory { base: Some(Register::RBP), index: None, displacement: -8, size: OperandSize::Qword },
        src: reg(Register::RAX),
    };
    assert_eq!(store.to_text(), "mov [rbp - 8], rax");
    assert_eq!(Instruction::Push(Operand::Immediate(-3)).to_text(), "push -3");
    assert_eq!(Instruction::Label(".Lentry_0".to_string()).to_text(), ".Lentry_0:");
    assert_eq!(
        Instruction::Setcc { cond: Conditional::L, dest: Operand::Register(Register::RAX, OperandSize::Byte) }
            .to_text(),
        "setl al"
    );
}

#[test]
fn rust_instruction_texts() {
    let lea = Instruction::Lea { dest: reg(Register::RCX), src: Operand::Label("msg".to_string()) };
    assert_eq!(format_instruction_rust(&lea), "lea rcx, [rip + msg]");
    let cmp = Instruction::Cmp { left: reg(Register::RAX), right: Operand::Immediate(0) };
    assert_eq!(format_instruction_rust(&cmp), "cmp rax, 0");
    assert_eq!(format_instruction_rust(&Instruction::Cqo), "cqo");
}

// ---------------------------------------------------------------------------
// Arithmetic helpers
// ---------------------------------------------------------------------------

#[test]
fn alignments() {
    assert_eq!(align_to_16(0), 0);
    assert_eq!(align_to_16(1), 16);
    assert_eq!(align_to_16(16), 16);
    assert_eq!(align_to_16(17), 32);
    assert_eq!(align_u64(0, 0x200), 0);
    assert_eq!(align_u64(5, 0x200), 0x200);
    assert_eq!(align_u64(0x1000, 0x1000), 0x1000);
    assert_eq!(align_u64(0x1001, 0x1000), 0x2000);
    assert_eq!(pad_len(0, 0x200), 0);
    assert_eq!(pad_len(5, 0x200), 0x1FB);
    assert_eq!(pad_len(0x200, 0x200), 0);
}

#[test]
fn alignment_is_least_multiple_not_below() {
    for n in [0u64, 1, 0x1FF, 0x200, 0x201, 0xFFFF] {
        for a in [0x200u64, 0x1000] {
            let r = align_u64(n, a);
            assert!(r >= n && r % a == 0 && r - n < a);
            assert_eq!(pad_len(n as usize, a as usize) as u64, r - n);
        }
    }
}

// ---------------------------------------------------------------------------
// Symbols and module code
// ---------------------------------------------------------------------------

#[test]
fn symbol_table_slots() {
    let mut t = SymbolTable::default();
    assert_eq!(t.declare("a"), 8);
    assert_eq!(t.declare("b"), 16);
    assert_eq!(t.get("a"), Some(8));
    assert_eq!(t.get("c"), None);
    // A repeated name gets a fresh slot, which later lookups find.
    assert_eq!(t.declare("a"), 24);
    assert_eq!(t.get("a"), Some(24));
    assert_eq!(t.next_offset(), 24);
}

#[test]
fn module_code_labels_externs_data() {
    let mut m = ModuleCode::new("main");
    assert_eq!(m.new_label("if"), ".Lif_0");
    assert_eq!(m.new_label("if"), ".Lif_1");
    m.add_extern("ExitProcess");
    m.add_extern("printf");
    m.add_extern("ExitProcess");
    assert_eq!(m.externs, vec!["ExitProcess".to_string(), "printf".to_string()]);
    assert_eq!(m.intern_data("str", b"hi"), "str");
    assert_eq!(m.intern_data("other", b"hi"), "str");
    assert_eq!(m.intern_data("str", b"yo"), "str_2");
    assert_eq!(m.label_counter, 3);
    // A suffixed label that is taken already is skipped.
    assert_eq!(m.intern_data("str_3", b"zz"), "str_3");
    assert_eq!(m.intern_data("str", b"qq"), "str_4");
    assert_eq!(m.label_counter, 5);
    let names: Vec<&String> = m.data_items.iter().map(|(n, _)| n).collect();
    for (i, a) in names.iter().enumerate() {
        for b in names.iter().skip(i + 1) {
            assert_ne!(a, b);
        }
    }
    assert_eq!(m.data_items.len(), 4);
    m.emit(Instruction::Ret);
    assert_eq!(m.instructions.len(), 1);
}

// ---------------------------------------------------------------------------
// Code generation
// ---------------------------------------------------------------------------

#[test]
fn ordinary_programs_fit() {
    let p = program("module main: {\n a: f(1, 2)\n if (a) { b: 1 } else { c: 2 }\n func g(x: i64) -> i64 { return x }\n}\n");
    assert!(check_program_fits(&p));
}

#[test]
fn generate_asm_for_empty_module() {
    let p = program("module main: {\n}\n");
    let mut g = CodeGenerator::new();
    let text = g.generate(&p, OutputFormat::Asm).unwrap();
    assert!(text.starts_with(
        "; Generated by Bxen Stage 0 compiler\n; Target: Windows x64 (Microsoft calling convention)\ndefault rel\n\n"
    ));
    assert!(text.contains(
        "extern ExitProcess\n\nsection .text\n    .Lentry_0:\n    push rbx\n    push rbp\n    mov rbp, rsp\n    sub rsp, 40\n"
    ));
    assert!(text.contains("    call ExitProcess\n"));
}

#[test]
fn generate_frame_grows_with_locals() {
    let p = program("module main: {\n a: 1\n b: a + 2\n}\n");
    let mut g = CodeGenerator::new();
    let text = g.generate(&p, OutputFormat::Asm).unwrap();
    // Two locals take 16 bytes; with the shadow space and the alignment
    // word the frame is 56 bytes.
    assert!(text.contains("    sub rsp, 56\n"));
    assert!(text.contains("    mov [rbp - 8], rax\n") || text.contains("[rbp - 8]"));
}

#[test]
fn generate_refuses_pe_as_text() {
    let p = program("module main: {\n}\n");
    let mut g = CodeGenerator::new();
    assert_eq!(
        g.generate(&p, OutputFormat::Pe).unwrap_err(),
        "Pe format cannot be returned as String; use generate_modules + encode directly"
    );
}

#[test]
fn generate_rust_source() {
    let p = program("module main: {\n}\n");
    let mut g = CodeGenerator::new();
    let src = g.generate(&p, OutputFormat::RustSource).unwrap();
    assert!(src.starts_with("// Generated by Bxen Stage 0 compiler"));
    assert!(src.contains("    fn ExitProcess(code: u32) -> !;\n"));
    assert!(src.contains("    \".globl bxen_main\",\n    \"bxen_main:\",\n"));
    let mut g2 = CodeGenerator::new();
    let modules = g2.generate_modules(&p, OutputFormat::RustSource).unwrap();
    assert_eq!(format_rust_source(&modules).unwrap(), src);
}

#[test]
fn generate_modules_then_format_matches_generate() {
    let p = program("module main: {\n x: 3 * 4\n}\n");
    let mut g = CodeGenerator::new();
    let text = g.generate(&p, OutputFormat::Asm).unwrap();
    let mut g2 = CodeGenerator::new();
    let modules = g2.generate_modules(&p, OutputFormat::Asm).unwrap();
    assert_eq!(format_as_asm(&modules), text);
}

#[test]
fn generate_reports_undeclared_variable() {
    let p = program("module main: {\n x: y\n}\n");
    let mut g = CodeGenerator::new();
    assert!(g.generate(&p, OutputFormat::Asm).is_err());
}

// ---------------------------------------------------------------------------
// Machine code
// ---------------------------------------------------------------------------

#[test]
fn encode_move_and_return() {
    let code = vec![Instruction::Mov { dest: reg(Register::RAX), src: Operand::Immediate(42) }, Instruction::Ret];
    let (bytes, iat, rip) = encode(&code, &[]);
    assert_eq!(bytes, vec![0x48, 0xB8, 42, 0, 0, 0, 0, 0, 0, 0, 0xC3]);
    assert!(iat.is_empty());
    assert!(rip.is_empty());
}

#[test]
fn encode_registers_and_stack() {
    let code = vec![
        Instruction::Push(reg(Register::RBP)),
        Instruction::Push(reg(Register::R12)),
        Instruction::Mov { dest: reg(Register::RBP), src: reg(Register::RSP) },
        Instruction::Pop(reg(Register::RBX)),
        Instruction::Cqo,
        Instruction::Nop,
    ];
    let (bytes, _, _) = encode(&code, &[]);
    assert_eq!(bytes, vec![0x55, 0x41, 0x54, 0x48, 0x8B, 0xEC, 0x5B, 0x48, 0x99, 0x90]);
}

#[test]
fn encode_resolves_backward_jump() {
    let code = vec![Instruction::Label(".Ltop".to_string()), Instruction::Nop, Instruction::Jmp(".Ltop".to_string())];
    let (bytes, iat, rip) = encode(&code, &[]);
    // The displacement counts from the end of the jump: 0 - (2 + 4).
    assert_eq!(bytes, vec![0x90, 0xE9, 0xFA, 0xFF, 0xFF, 0xFF]);
    // A resolved jump is not handed on.
    assert!(iat.is_empty());
    assert!(rip.is_empty());
}

#[test]
fn encode_leaves_imports_and_data_for_the_image() {
    let code = vec![
        Instruction::Lea { dest: reg(Register::RCX), src: Operand::Label("msg".to_string()) },
        Instruction::Call { target: "ExitProcess".to_string(), arg_count: 1 },
    ];
    let (bytes, iat, rip) = encode(&code, &["ExitProcess".to_string()]);
    assert_eq!(bytes, vec![0x48, 0x8D, 0x0D, 0, 0, 0, 0, 0xFF, 0x15, 0, 0, 0, 0]);
    assert_eq!(iat.len(), 1);
    assert_eq!((iat[0].offset, iat[0].name.as_str()), (9, "ExitProcess"));
    assert_eq!(rip.len(), 1);
    assert_eq!((rip[0].offset, rip[0].label.as_str()), (3, "msg"));
}

#[test]
fn encodable_instructions() {
    assert!(instruction_encodable(&Instruction::Ret));
    assert!(instruction_encodable(&Instruction::Mov { dest: reg(Register::R15), src: Operand::Immediate(1) }));
    assert!(!instruction_encodable(&Instruction::Vaddpd {
        dest: Operand::Register(Register::XMM0, OperandSize::Ymm),
        src: Operand::Register(Register::XMM1, OperandSize::Ymm),
    }));
    assert!(!instruction_encodable(&Instruction::Push(reg(Register::XMM2))));
}

// ---------------------------------------------------------------------------
// Linking and the image
// ---------------------------------------------------------------------------

fn module_with(code: Vec<Instruction>, externs: &[&str], data: &[(&str, &[u8])]) -> ModuleCode {
    let mut m = ModuleCode::new("m");
    for i in code {
        m.emit(i);
    }
    for e in externs {
        m.add_extern(e);
    }
    for (n, b) in data {
        m.intern_data(n, b);
    }
    m
}

#[test]
fn link_moves_later_relocations() {
    let a = module_with(
        vec![Instruction::Call { target: "ExitProcess".to_string(), arg_count: 1 }],
        &["ExitProcess"],
        &[("one", b"1")],
    );
    let b = module_with(
        vec![
            Instruction::Lea { dest: reg(Register::RDX), src: Operand::Label("two".to_string()) },
            Instruction::Call { target: "ExitProcess".to_string(), arg_count: 1 },
            Instruction::Call { target: "puts".to_string(), arg_count: 1 },
        ],
        &["ExitProcess", "puts"],
        &[("two", b"2")],
    );
    let (code, data, externs, iat, rip) = link_modules(&[a, b]);
    assert_eq!(code.len(), 6 + 7 + 6 + 6);
    assert_eq!(data, vec![("one".to_string(), b"1".to_vec()), ("two".to_string(), b"2".to_vec())]);
    assert_eq!(externs, vec!["ExitProcess".to_string(), "puts".to_string()]);
    let iat: Vec<(u64, String)> = iat.into_iter().map(|f| (f.offset, f.name)).collect();
    assert_eq!(
        iat,
        vec![(2, "ExitProcess".to_string()), (6 + 7 + 2, "ExitProcess".to_string()), (6 + 13 + 2, "puts".to_string())]
    );
    let rip: Vec<(u64, String)> = rip.into_iter().map(|f| (f.offset, f.label)).collect();
    assert_eq!(rip, vec![(6 + 3, "two".to_string())]);
}

#[test]
fn image_layout() {
    let m = module_with(vec![Instruction::Ret], &[], &[]);
    let img = build_image(&[m]).unwrap();
    assert_eq!(&img[0..2], b"MZ");
    assert_eq!(&img[0x3C..0x40], &[0x80, 0, 0, 0]);
    assert_eq!(&img[0x80..0x84], b"PE\0\0");
    // AMD64, two sections.
    assert_eq!(&img[0x84..0x88], &[0x64, 0x86, 2, 0]);
    assert_eq!(img[0x200], 0xC3);
    assert_eq!(img.len() % 0x200, 0);
}

#[test]
fn image_of_compiled_program() {
    let p = program("module main: {\n x: 7\n}\n");
    let mut g = CodeGenerator::new();
    let modules = g.generate_modules(&p, OutputFormat::Pe).unwrap();
    for m in &modules {
        assert!(m.instructions.iter().all(instruction_encodable));
    }
    let img = build_image(&modules).unwrap();
    assert_eq!(&img[0..2], b"MZ");
    assert!(img.len() > 0x400);
    // The import table names the process exit function.
    assert!(img.windows(11).any(|w| w == b"ExitProcess"));
    assert!(img.windows(12).any(|w| w == b"kernel32.dll"));
}

fn stack_effect(code: &[Instruction]) -> i64 {
    let mut d = 0i64;
    for i in code {
        d += match i {
            Instruction::Push(_) => 8,
            Instruction::Pop(_) => -8,
            Instruction::Sub { dest: Operand::Register(Register::RSP, _), src: Operand::Immediate(v) } => *v,
            Instruction::Add { dest: Operand::Register(Register::RSP, _), src: Operand::Immediate(v) } => -*v,
            _ => 0,
        };
    }
    d
}

#[test]
fn module_stack_effect() {
    // Read straight through, a module's code leaves the stack where it
    // found it.
    let src = "module main: {\n x: 1 + 2\n if (x < 3) { y: 3 } else { y: 4 }\n while (y) { y: y - 1 }\n z: f(x, y)\n func f(a: i64, b: i64) -> i64 { return a * b }\n}\n";
    let p = program(src);
    let mut g = CodeGenerator::new();
    let modules = g.generate_modules(&p, OutputFormat::Asm).unwrap();
    assert_eq!(modules.len(), 1);
    assert_eq!(stack_effect(&modules[0].instructions), 0);
}

#[test]
fn intern_skips_taken_suffixes() {
    let mut m = ModuleCode::new("m");
    assert_eq!(m.intern_data("s_0", &[9]), "s_0");
    assert_eq!(m.intern_data("s", &[1]), "s");
    assert_eq!(m.intern_data("s", &[2]), "s_1");
    assert_eq!(m.label_counter, 2);
}

#[test]
fn encode_register_operand_roles() {
    let code = vec![
        Instruction::Add { dest: reg(Register::RAX), src: reg(Register::RCX) },
        Instruction::Sub { dest: reg(Register::RAX), src: reg(Register::RCX) },
        Instruction::Cmp { left: reg(Register::RAX), right: reg(Register::RCX) },
        Instruction::Xor { dest: reg(Register::R9), src: reg(Register::RDX) },
    ];
    let (bytes, _, _) = encode(&code, &[]);
    assert_eq!(bytes, vec![0x48, 0x01, 0xC8, 0x48, 0x29, 0xC8, 0x48, 0x39, 0xC8, 0x49, 0x31, 0xD1]);
}

#[test]
fn encode_extended_register_in_reg_field() {
    let store = Instruction::Mov {
        dest: Operand::Memory { base: Some(Register::RBP), index: None, displacement: -16, size: OperandSize::Qword },
        src: reg(Register::R8),
    };
    let load = Instruction::Mov {
        dest: reg(Register::R9),
        src: Operand::Memory { base: Some(Register::RBP), index: None, displacement: -24, size: OperandSize::Qword },
    };
    let (bytes, _, _) = encode(&[store, load], &[]);
    assert_eq!(bytes, vec![0x4C, 0x89, 0x45, 0xF0, 0x4C, 0x8B, 0x4D, 0xE8]);
    let lea = Instruction::Lea { dest: reg(Register::R8), src: Operand::Label("d".to_string()) };
    let (bytes, _, rip) = encode(&[lea], &[]);
    assert_eq!(bytes, vec![0x4C, 0x8D, 0x05, 0, 0, 0, 0]);
    assert_eq!((rip[0].offset, rip[0].label.as_str()), (3, "d"));
}

#[test]
fn encode_local_call_and_import_call() {
    let code = vec![
        Instruction::Label("f".to_string()),
        Instruction::Ret,
        Instruction::Call { target: "ExitProcess".to_string(), arg_count: 1 },
        Instruction::Call { target: "f".to_string(), arg_count: 0 },
    ];
    let (bytes, iat, rip) = encode(&code, &["ExitProcess".to_string()]);
    assert_eq!(bytes, vec![0xC3, 0xFF, 0x15, 0, 0, 0, 0, 0xE8, 0xF4, 0xFF, 0xFF, 0xFF]);
    assert_eq!(iat.len(), 1);
    assert_eq!((iat[0].offset, iat[0].name.as_str()), (3, "ExitProcess"));
    assert!(rip.is_empty());
}

#[test]
fn print_prints_the_last_argument() {
    let p = program("module main: {\n print(1, 2).out\n}\n");
    let mut g = CodeGenerator::new();
    let text = g.generate(&p, OutputFormat::Asm).unwrap();
    // The last value pushed is popped into RAX and printed; the other is
    // thrown away.
    assert!(text.contains(
        "    pop rax\n    pop rcx\n    sub rsp, 32\n    lea rcx, [fmt_i64_newline]\n    mov rdx, rax\n    call printf\n"
    ));
}

#[test]
fn exit_passes_rax_without_popping() {
    let p = program("module main: {\n}\n");
    let mut g = CodeGenerator::new();
    let text = g.generate(&p, OutputFormat::Asm).unwrap();
    assert!(text.contains("    sub rsp, 40\n    mov rcx, rax\n    sub rsp, 32\n    call ExitProcess\n"));
}
