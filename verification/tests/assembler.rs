use lib::assembler::{AssemblerAMD64, Outcome};
use lib::ast::{Instruction, InstructionKind, Value};
use lib::checker::{stack_fits, Checker};
use lib::parser::parse_source;
use lib::strmap::StrMap;
use lib::symbol::Symbol;
use lib::types::Type;

fn local(id: &str, ty: Type, stack_offset: i32) -> Symbol {
    Symbol {
        id: id.to_string(),
        ty,
        is_fn: false,
        is_visible: true,
        is_reassignable: true,
        is_global: false,
        mangled_params: Vec::new(),
        stack_offset,
    }
}

fn decl(id: &str, value: Value, line: usize) -> Instruction {
    Instruction { kind: InstructionKind::Decl { ty: Type::UInt64, id: id.to_string(), value }, line }
}

fn resolutions(names: &[&[(&str, &str)]]) -> Vec<StrMap<String>> {
    names
        .iter()
        .map(|pairs| {
            let mut m = StrMap::new();
            for (a, b) in pairs.iter() {
                m.insert(a.to_string(), b.to_string());
            }
            m
        })
        .collect()
}

fn run(prog: &Vec<Instruction>, syms: &StrMap<Symbol>, res: &Vec<StrMap<String>>) -> Outcome<String> {
    AssemblerAMD64::new(prog, syms, res).try_assemble()
}

fn assemble_source(src: &str) -> Outcome<String> {
    let prog = parse_source(src).unwrap();
    assert!(stack_fits(&prog));
    let (syms, res) = match Checker::new(&prog).check() {
        Ok(r) => r,
        Err(e) => panic!("check error: {}", e.message()),
    };
    run(&prog, &syms, &res)
}

fn text(o: Outcome<String>) -> String {
    match o {
        Outcome::Done(s) => s,
        Outcome::Failed(e) => panic!("unexpected error: {}", e.message()),
        Outcome::Stuck => panic!("unexpectedly stuck"),
    }
}

fn failure(o: Outcome<String>) -> String {
    match o {
        Outcome::Failed(e) => e.message(),
        other => panic!("expected an error, got {:?}", other),
    }
}

#[test]
fn global_declarations_go_to_the_data_section() {
    let out = text(assemble_source(
        "decl uint8 x 5\ndecl string s \"hi\"\ndecl int64 n -7\ndecl bool b true\ndecl uint128 big 18446744073709551616\n",
    ));
    assert_eq!(
        out,
        "section .text\nsection .data\n\tx: dq 5\n\ts: do \"hi\"\n\tn: dq -7\n\tb: dq 1\n\tbig: do 18446744073709551616\nsection .rodata\n"
    );
}

#[test]
fn a_global_declared_twice_keeps_its_place_and_last_value() {
    let out = text(assemble_source("decl uint8 x 5\ndecl uint16 y 300\ndecl uint8 x 6\n"));
    assert_eq!(out, "section .text\nsection .data\n\tx: dq 6\n\ty: dw 300\nsection .rodata\n");
}

#[test]
fn assemble_gives_the_text() {
    let prog = parse_source("decl int32 z -100000").unwrap();
    let (syms, res) = Checker::new(&prog).check().unwrap();
    let out = AssemblerAMD64::new(&prog, &syms, &res).assemble().unwrap();
    assert_eq!(out, "section .text\nsection .data\n\tz: dd -100000\nsection .rodata\n");
}

#[test]
fn an_empty_program_assembles_to_empty_sections() {
    let prog: Vec<Instruction> = Vec::new();
    let syms: StrMap<Symbol> = StrMap::new();
    let res: Vec<StrMap<String>> = Vec::new();
    assert_eq!(text(run(&prog, &syms, &res)), "section .text\nsection .data\nsection .rodata\n");
}

#[test]
fn local_declarations_are_stored_in_their_slots() {
    let mut syms: StrMap<Symbol> = StrMap::new();
    syms.insert("f#a".to_string(), local("f#a", Type::UInt8, -4));
    syms.insert("f#b".to_string(), local("f#b", Type::Int16, -2));
    syms.insert("f#c".to_string(), local("f#c", Type::Bool, -1));
    syms.insert("f#s".to_string(), local("f#s", Type::String, -8));
    syms.insert("f#w".to_string(), local("f#w", Type::UInt128, -12));
    syms.insert("f#p".to_string(), local("f#p", Type::Float32, -16));
    syms.insert("f#d".to_string(), local("f#d", Type::Float64, -20));
    syms.insert("f#i".to_string(), local("f#i", Type::Int32, -24));
    let prog = vec![
        decl("a", Value::UInt8(7), 2),
        decl("b", Value::Int8(-3), 3),
        decl("c", Value::Bool(true), 4),
        decl("s", Value::String("\"hi\"".to_string()), 5),
        decl("w", Value::UInt128(5), 6),
        decl("p", Value::Float32(0x3FC00000, "1.5".to_string()), 7),
        decl("d", Value::Float64(0x4004000000000000, "2.5".to_string()), 8),
        decl("i", Value::Symbol("b".to_string()), 9),
        decl("w", Value::Int128(-9), 10),
        decl("s", Value::String("\"yo\"".to_string()), 11),
        decl("i", Value::UInt16(513), 12),
        decl("i", Value::UInt32(70000), 13),
        decl("i", Value::UInt64(5000000000), 14),
        decl("i", Value::Int16(-300), 15),
        decl("i", Value::Int32(-70000), 16),
        decl("i", Value::Int64(-5000000000), 17),
    ];
    let res = resolutions(&[
        &[("a", "f#a")],
        &[("b", "f#b")],
        &[("c", "f#c")],
        &[("s", "f#s")],
        &[("w", "f#w")],
        &[("p", "f#p")],
        &[("d", "f#d")],
        &[("i", "f#i"), ("b", "f#b")],
        &[("w", "f#w")],
        &[("s", "f#s")],
        &[("i", "f#i")],
        &[("i", "f#i")],
        &[("i", "f#i")],
        &[("i", "f#i")],
        &[("i", "f#i")],
        &[("i", "f#i")],
    ]);
    let expected = String::new()
        + "section .text\n"
        + "\tmov byte [rbp - -4], 7\n"
        + "\tmov byte [rbp - -2], -3\n"
        + "\tmov byte [rbp - -1], 1\n"
        + "\tlea rax, [rel str_0]\n\tmov qword [rbp - -8], rax\n"
        + "\tlea rax [rel u128_0]\n\tmov qword [rbp - -12], rax\n"
        + "\tmovss xmm0, [rel f32_1]\n\tmovss dword [rbp - -16], xmm0\n"
        + "\tmovsd xmm0, [rel f64_2]\n\tmovsd qword [rbp - -20], xmm0\n"
        + "\tmov ax, [rbp - -2]\n\tmov word [rbp - -24], ax\n"
        + "\tlea rax [rel i128_3]\n\tmov qword [rbp - -12], rax\n"
        + "\tlea rax, [rel str_1]\n\tmov qword [rbp - -8], rax\n"
        + "\tmov word [rbp - -24], 513\n"
        + "\tmov dword [rbp - -24], 70000\n"
        + "\tmov qword [rbp - -24], 5000000000\n"
        + "\tmov word [rbp - -24], -300\n"
        + "\tmov dword [rbp - -24], -70000\n"
        + "\tmov qword [rbp - -24], -5000000000\n"
        + "section .data\n"
        + "section .rodata\n"
        + "\tstr_0: do \"hi\"\n"
        + "\tu128_0: do 5\n"
        + "\tf32_1: dd 1.5\n"
        + "\tf64_2: dq 2.5\n"
        + "\ti128_3: do -9\n"
        + "\tstr_1: do \"yo\"\n";
    assert_eq!(text(run(&prog, &syms, &res)), expected);
}

#[test]
fn copies_use_the_register_of_the_source_size() {
    let mut syms: StrMap<Symbol> = StrMap::new();
    syms.insert("g#t".to_string(), local("g#t", Type::UInt64, -3));
    syms.insert("g#u".to_string(), local("g#u", Type::Bool, 0));
    syms.insert("g#v".to_string(), local("g#v", Type::Float32, -5));
    syms.insert("g#x".to_string(), local("g#x", Type::UInt64, -6));
    let prog = vec![
        decl("x", Value::Symbol("t".to_string()), 1),
        decl("x", Value::Symbol("u".to_string()), 2),
        decl("x", Value::Symbol("v".to_string()), 3),
    ];
    let res = resolutions(&[
        &[("x", "g#x"), ("t", "g#t")],
        &[("x", "g#x"), ("u", "g#u")],
        &[("x", "g#x"), ("v", "g#v")],
    ]);
    assert_eq!(
        text(run(&prog, &syms, &res)),
        "section .text\n\tmov rax, [rbp - -3]\n\tmov qword [rbp - -6], rax\n\tmov al, [rbp - 0]\n\tmov byte [rbp - -6], al\n\tmov eax, [rbp - -5]\n\tmov dword [rbp - -6], eax\nsection .data\nsection .rodata\n"
    );
}

#[test]
fn assembler_errors() {
    let syms: StrMap<Symbol> = StrMap::new();
    let res = resolutions(&[&[]]);
    let imp = vec![Instruction { kind: InstructionKind::Import { alias: "m".to_string(), path: "\"x\"".to_string() }, line: 1 }];
    assert_eq!(failure(run(&imp, &syms, &res)), "[1] Imports should not be passed to the assembler");
    let lit = vec![decl("x", Value::FloatLiteral("1.5".to_string()), 4)];
    assert_eq!(failure(run(&lit, &syms, &res)), "[4] Floating-point literal without a precision");

    let mut syms: StrMap<Symbol> = StrMap::new();
    syms.insert("f#l".to_string(), local("f#l", Type::Label, 0));
    syms.insert("f#x".to_string(), local("f#x", Type::UInt8, -1));
    let prog = vec![decl("x", Value::Symbol("l".to_string()), 6)];
    let res = resolutions(&[&[("x", "f#x"), ("l", "f#l")]]);
    assert_eq!(failure(run(&prog, &syms, &res)), "[6] Cannot get size of type 'label'");
}

#[test]
fn inputs_that_leave_the_assembler_stuck() {
    // A global whose value names a symbol: the data section cannot name it.
    assert!(matches!(assemble_source("decl uint8 x 5\ndecl uint8 y x\n"), Outcome::Stuck));
    // Only declarations are translated.
    assert!(matches!(assemble_source("fn int32 f\nret 0\n"), Outcome::Stuck));
    // A name without a resolution.
    let syms: StrMap<Symbol> = StrMap::new();
    let prog = vec![decl("x", Value::UInt8(1), 1)];
    assert!(matches!(run(&prog, &syms, &resolutions(&[&[]])), Outcome::Stuck));
    // Fewer resolution records than instructions.
    assert!(matches!(run(&prog, &syms, &Vec::new()), Outcome::Stuck));
}
