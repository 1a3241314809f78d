use lib::ast::{Instruction, InstructionKind, Value};
use lib::floats::{float_literal_texts, resolve_float_literals};
use lib::importer::{canonical_path, ImportAction, Importer};
use lib::parser::parse_source;
use lib::strmap::StrMap;
use lib::types::Type;

fn kind(inst: &Instruction) -> String {
    format!("{:?}", inst.kind)
}

fn expect_load(imp: &mut Importer, path: &str) {
    match imp.resolve_imports() {
        ImportAction::Load(p) => assert_eq!(p, path),
        ImportAction::Done => panic!("expected a request for {}", path),
    }
    assert!(imp.is_waiting());
}

fn expect_done(imp: &mut Importer) {
    assert!(matches!(imp.resolve_imports(), ImportAction::Done));
    assert!(!imp.is_waiting());
}

#[test]
fn an_imported_module_comes_first_with_its_prefix() {
    let mut imp = Importer::new("main.eil");
    assert!(imp.is_waiting());
    imp.loaded("import m \"lib.eil\"\ndecl uint8 x 1\n").unwrap();
    assert!(!imp.is_waiting());
    expect_load(&mut imp, "\"lib.eil\"");
    imp.loaded("decl uint8 y 2\nassign y z\n").unwrap();
    expect_done(&mut imp);
    let prog = imp.resolve();
    assert_eq!(prog.len(), 3);
    assert_eq!(kind(&prog[0]), "Decl { ty: UInt8, id: \"m.y\", value: UInt8(2) }");
    assert_eq!(kind(&prog[1]), "Assign { id: \"m.y\", value: Symbol(\"m.z\") }");
    assert_eq!(kind(&prog[2]), "Decl { ty: UInt8, id: \"x\", value: UInt8(1) }");
    assert_eq!(prog.iter().map(|i| i.line).collect::<Vec<_>>(), vec![1, 2, 2]);
}

#[test]
fn a_module_is_read_once() {
    let mut imp = Importer::new("main.eil");
    imp.loaded("import a \"l\"\nimport b \"l\"\ndecl bool t true").unwrap();
    expect_load(&mut imp, "\"l\"");
    imp.loaded("decl uint8 q 1").unwrap();
    expect_done(&mut imp);
    let prog = imp.resolve();
    assert_eq!(prog.len(), 2);
    assert!(prog.iter().all(|i| !matches!(i.kind, InstructionKind::Import { .. })));
    assert_eq!(kind(&prog[0]), "Decl { ty: UInt8, id: \"a.q\", value: UInt8(1) }");
    assert_eq!(kind(&prog[1]), "Decl { ty: Bool, id: \"t\", value: Bool(true) }");
}

#[test]
fn the_main_module_is_not_read_again() {
    let mut imp = Importer::new("\"self\"");
    imp.loaded("import me \"self\"\nlabel l").unwrap();
    expect_done(&mut imp);
    let prog = imp.resolve();
    assert_eq!(prog.len(), 1);
    assert_eq!(kind(&prog[0]), "Label { id: \"l\" }");
}

#[test]
fn nested_imports_use_the_nearest_alias() {
    let mut imp = Importer::new("main");
    imp.loaded("import a \"A\"\nlabel top\n").unwrap();
    expect_load(&mut imp, "\"A\"");
    imp.loaded("import b \"B\"\nlabel x\n").unwrap();
    expect_load(&mut imp, "\"B\"");
    imp.loaded("label y\n").unwrap();
    expect_done(&mut imp);
    let prog = imp.resolve();
    let kinds: Vec<String> = prog.iter().map(kind).collect();
    assert_eq!(kinds, vec!["Label { id: \"b.y\" }", "Label { id: \"a.x\" }", "Label { id: \"top\" }"]);
}

#[test]
fn a_module_that_does_not_parse() {
    let mut imp = Importer::new("main");
    match imp.loaded("decl") {
        Ok(_) => panic!("expected a parse error"),
        Err(e) => assert_eq!(e.message(), "[1] Invalid type"),
    }
}

#[test]
fn module_prefixes_on_every_instruction() {
    let mut prog = parse_source(
        "fn int32 f int8 a\nf r x 1\nret a\njump c l\nlabel l\nneg n x\nsub d x y\nimport q \"p\"\ndecl bool t u\n",
    )
    .unwrap();
    for inst in prog.iter_mut() {
        inst.add_module_prefix("m");
    }
    let kinds: Vec<String> = prog.iter().map(kind).collect();
    assert_eq!(kinds[0], "Fn { ty: Int32, id: \"m.f\", params: [(Int8, \"m.a\")] }");
    assert_eq!(kinds[1], "Call { op: \"m.f\", id: \"m.r\", args: [Symbol(\"m.x\"), UInt8(1)] }");
    assert_eq!(kinds[2], "Ret { ret: Symbol(\"m.a\") }");
    assert_eq!(kinds[3], "Jump { cond: Symbol(\"m.c\"), label: \"m.l\" }");
    assert_eq!(kinds[4], "Label { id: \"m.l\" }");
    assert_eq!(kinds[5], "UnaryOp { op: Neg, id: \"m.n\", val: Symbol(\"m.x\") }");
    assert_eq!(kinds[6], "BinaryOp { op: Sub, id: \"m.d\", a: Symbol(\"m.x\"), b: Symbol(\"m.y\") }");
    assert!(matches!(&prog[7].kind, InstructionKind::Import { alias, .. } if alias == "q"));
    assert_eq!(kinds[8], "Decl { ty: Bool, id: \"m.t\", value: Symbol(\"m.u\") }");
}

#[test]
fn symbols_with_a_path_keep_it() {
    let mut v = Value::Symbol("a::b".to_string());
    v.add_symbol_prefix("m");
    assert!(matches!(&v, Value::Symbol(s) if s == "a::b"));
    let mut w = Value::Symbol("a:b".to_string());
    w.add_symbol_prefix("m");
    assert!(matches!(&w, Value::Symbol(s) if s == "m.a:b"));
    let mut n = Value::UInt8(3);
    n.add_symbol_prefix("m");
    assert!(matches!(n, Value::UInt8(3)));
}

#[test]
fn floating_point_literals_are_listed_and_resolved() {
    let mut prog = parse_source("decl float64 x 1.5\nadd r x 2.25\nf q 1.5 3\ndecl uint8 k 4\n").unwrap();
    let texts = float_literal_texts(&prog);
    assert_eq!(texts, vec!["1.5".to_string(), "2.25".to_string(), "1.5".to_string()]);
    let mut table: StrMap<Value> = StrMap::new();
    table.insert("1.5".to_string(), Value::Float64(0x3FF8000000000000, "1.5".to_string()));
    resolve_float_literals(&mut prog, &table);
    assert!(matches!(&prog[0].kind, InstructionKind::Decl { value: Value::Float64(0x3FF8000000000000, t), .. } if t == "1.5"));
    assert!(matches!(&prog[1].kind, InstructionKind::BinaryOp { b: Value::FloatLiteral(t), .. } if t == "2.25"));
    match &prog[2].kind {
        InstructionKind::Call { args, .. } => {
            assert!(matches!(&args[0], Value::Float64(0x3FF8000000000000, _)));
            assert!(matches!(args[1], Value::UInt8(3)));
        }
        k => panic!("not a call: {:?}", k),
    }
    assert!(matches!(&prog[3].kind, InstructionKind::Decl { ty: Type::UInt8, value: Value::UInt8(4), .. }));
    assert_eq!(float_literal_texts(&prog), vec!["2.25".to_string()]);
}

#[test]
fn a_single_literal_resolves() {
    let mut table: StrMap<Value> = StrMap::new();
    table.insert("0.5".to_string(), Value::Float32(0x3F000000, "0.5".to_string()));
    let mut v = Value::FloatLiteral("0.5".to_string());
    v.resolve_float(&table);
    assert!(matches!(&v, Value::Float32(0x3F000000, t) if t == "0.5"));
    let mut u = Value::FloatLiteral("0.75".to_string());
    u.resolve_float(&table);
    assert!(matches!(&u, Value::FloatLiteral(t) if t == "0.75"));
}

#[test]
fn resolving_every_listed_literal_leaves_none() {
    let mut prog = parse_source("decl float64 x 1.5\nadd r x 2.25\nf q 1.5 3.75\nret 0.5\n").unwrap();
    let mut table: StrMap<Value> = StrMap::new();
    for (i, t) in float_literal_texts(&prog).into_iter().enumerate() {
        table.insert(t.clone(), Value::Float64(i as u64, t));
    }
    resolve_float_literals(&mut prog, &table);
    assert!(float_literal_texts(&prog).is_empty());
}

#[test]
fn paths_compare_by_their_components() {
    assert_eq!(canonical_path("lib//x"), "lib/x");
    assert_eq!(canonical_path("lib/./x"), "lib/x");
    assert_eq!(canonical_path("lib/x/"), "lib/x");
    assert_eq!(canonical_path("./a"), "./a");
    assert_eq!(canonical_path("/./a"), "/a");
    assert_eq!(canonical_path("//a"), "/a");
    assert_eq!(canonical_path("/"), "/");
    assert_eq!(canonical_path(""), "");
    assert_eq!(canonical_path("."), ".");
    assert_eq!(canonical_path("./"), ".");
    assert_eq!(canonical_path("a/../b"), "a/../b");
    assert_eq!(canonical_path("a/b/."), "a/b");
}

#[test]
fn the_same_module_under_another_spelling_is_read_once() {
    let mut imp = Importer::new("main.eil");
    imp.loaded("import m \"lib//x\"\nimport n \"lib/./x\"\nimport o \"lib/x\"\nlabel end\n").unwrap();
    expect_load(&mut imp, "\"lib//x\"");
    imp.loaded("label inner\n").unwrap();
    expect_done(&mut imp);
    let prog = imp.resolve();
    let kinds: Vec<String> = prog.iter().map(kind).collect();
    assert_eq!(kinds, vec!["Label { id: \"m.inner\" }", "Label { id: \"end\" }"]);
}
