use lib::ast::{Instruction, InstructionKind};
use lib::checker::{stack_fits, Checker};
use lib::parser::parse_source;
use lib::strmap::StrMap;
use lib::symbol::Symbol;
use lib::types::Type;

type Checked = (StrMap<Symbol>, Vec<StrMap<String>>);

fn program(src: &str) -> Vec<Instruction> {
    match parse_source(src) {
        Ok(p) => p,
        Err(e) => panic!("parse error: {}", e.message()),
    }
}

fn check(prog: &Vec<Instruction>) -> Result<Checked, String> {
    assert!(stack_fits(prog));
    Checker::new(prog).check().map_err(|e| e.message())
}

fn check_ok(src: &str) -> (Vec<Instruction>, Checked) {
    let prog = program(src);
    let res = match check(&prog) {
        Ok(r) => r,
        Err(m) => panic!("check error: {}", m),
    };
    (prog, res)
}

fn check_err(src: &str) -> String {
    let prog = program(src);
    match check(&prog) {
        Ok(_) => panic!("expected a check error"),
        Err(m) => m,
    }
}

fn sym<'a>(syms: &'a StrMap<Symbol>, id: &str) -> &'a Symbol {
    match syms.get(&id.to_string()) {
        Some(s) => s,
        None => panic!("no symbol {}", id),
    }
}

fn res_of(res: &StrMap<String>, id: &str) -> String {
    match res.get(&id.to_string()) {
        Some(s) => s.clone(),
        None => panic!("no resolution for {}", id),
    }
}

fn entries(m: &StrMap<String>) -> Vec<(String, String)> {
    (0..m.len()).map(|i| (m.key_at(i).clone(), m.value_at(i).clone())).collect()
}

fn pairs(v: &[(&str, &str)]) -> Vec<(String, String)> {
    v.iter().map(|(a, b)| (a.to_string(), b.to_string())).collect()
}

/// Every name that an instruction other than a label records has a symbol.
fn assert_resolutions_have_symbols(prog: &Vec<Instruction>, c: &Checked) {
    let (syms, res) = c;
    assert_eq!(res.len(), prog.len());
    for (i, inst) in prog.iter().enumerate() {
        if matches!(inst.kind, InstructionKind::Label { .. }) {
            continue;
        }
        for (_, target) in entries(&res[i]) {
            assert!(syms.contains_key(&target), "instruction {} records {} without a symbol", i, target);
        }
    }
    for i in 0..syms.len() {
        assert!(syms.value_at(i).stack_offset <= 0);
    }
}

#[test]
fn a_function_and_a_call() {
    let src = "fn int32 f int8 a int16 b\nadd r a b\nret r\ndecl int32 g 1\nf res -1 2\n";
    let (prog, c) = check_ok(src);
    let (syms, res) = &c;
    assert_eq!(syms.len(), 6);
    let a = sym(syms, "a");
    assert!(a.ty.same(&Type::Int8) && a.stack_offset == 0 && !a.is_global && a.is_reassignable && !a.is_fn);
    let b = sym(syms, "b");
    assert!(b.ty.same(&Type::Int16) && b.stack_offset == -1);
    let f = sym(syms, "f");
    assert!(f.ty.same(&Type::Int32) && f.stack_offset == -3 && f.is_fn && !f.is_reassignable && !f.is_global);
    assert_eq!(f.mangled_params, vec!["a".to_string(), "b".to_string()]);
    let r = sym(syms, "f#r");
    assert!(r.ty.same(&Type::Int16) && r.stack_offset == -4 && !r.is_global && r.is_visible);
    let g = sym(syms, "g");
    assert!(g.ty.same(&Type::Int32) && g.stack_offset == -6 && g.is_global);
    let rs = sym(syms, "res");
    assert!(rs.ty.same(&Type::Int32) && rs.stack_offset == -8 && rs.is_global);
    assert_eq!(entries(&res[0]), pairs(&[("f", "f"), ("a", "a"), ("b", "b")]));
    assert_eq!(entries(&res[1]), pairs(&[("r", "f#r"), ("a", "a"), ("b", "b")]));
    assert_eq!(entries(&res[2]), pairs(&[("r", "f#r")]));
    assert_eq!(entries(&res[3]), pairs(&[("g", "g")]));
    assert_eq!(entries(&res[4]), pairs(&[("f", "f"), ("res", "res")]));
    assert_resolutions_have_symbols(&prog, &c);
}

#[test]
fn inner_declarations_shadow_outer_ones() {
    let src = "decl uint8 x 1\nfn uint16 f\ndecl uint16 x 2\nadd y x x\nret y\ndecl uint8 z x\n";
    let (prog, c) = check_ok(src);
    let (syms, res) = &c;
    assert!(sym(syms, "x").ty.same(&Type::UInt8) && sym(syms, "x").stack_offset == 0 && sym(syms, "x").is_global);
    assert!(sym(syms, "f").ty.same(&Type::UInt16) && sym(syms, "f").stack_offset == -1);
    assert!(sym(syms, "f#x").ty.same(&Type::UInt16) && sym(syms, "f#x").stack_offset == -2 && !sym(syms, "f#x").is_global);
    assert!(sym(syms, "f#y").ty.same(&Type::UInt16) && sym(syms, "f#y").stack_offset == -3);
    assert!(sym(syms, "z").ty.same(&Type::UInt8) && sym(syms, "z").stack_offset == -3 && sym(syms, "z").is_global);
    assert_eq!(res_of(&res[2], "x"), "f#x");
    assert_eq!(res_of(&res[3], "x"), "f#x");
    assert_eq!(res_of(&res[3], "y"), "f#y");
    assert_eq!(res_of(&res[5], "x"), "x");
    assert_eq!(res_of(&res[5], "z"), "z");
    assert_resolutions_have_symbols(&prog, &c);
}

#[test]
fn references_and_dereferences() {
    let (prog, c) = check_ok("decl uint8 x 1\nref p x\nderef y p\nnot n x\nlsh s x\n");
    let (syms, _) = &c;
    assert!(sym(syms, "p").ty.same(&Type::Ptr(Box::new(Type::UInt8))));
    assert_eq!(sym(syms, "p").stack_offset, -3);
    assert!(sym(syms, "y").ty.same(&Type::UInt8));
    assert_eq!(sym(syms, "y").stack_offset, -3);
    assert!(sym(syms, "n").ty.same(&Type::UInt8));
    assert!(sym(syms, "s").ty.same(&Type::UInt8));
    assert_resolutions_have_symbols(&prog, &c);
}

#[test]
fn a_backward_jump_hides_nothing() {
    let (prog, c) = check_ok("decl bool c true\nlabel top\ndecl uint8 x 1\njump c top\ndecl uint8 y x\n");
    assert!(sym(&c.0, "x").is_visible);
    assert!(sym(&c.0, "top").ty.same(&Type::Label));
    assert_resolutions_have_symbols(&prog, &c);
}

#[test]
fn a_forward_jump_hides_what_it_skips() {
    assert_eq!(
        check_err("decl bool c true\njump c end\ndecl uint8 x 1\nlabel end\ndecl uint8 y x"),
        "[5] Symbol 'x' is not visible"
    );
    assert_eq!(
        check_err("decl bool c true\njump c end\ndecl uint8 x 1\nlabel end\njump c end"),
        "[5] Symbol 'end' is not visible"
    );
    assert_eq!(
        check_err("decl bool c true\njump c end\nfn int32 f\nret 0\nlabel end\nf r"),
        "[6] Symbol 'f' is not visible"
    );
}

#[test]
fn first_pass_errors() {
    assert_eq!(check_err("import m \"x\""), "[1] Imports should not be passed to the checker");
    assert_eq!(check_err("fn int32 f\nret 0\nfn int32 f\nret 0"), "[3] Symbol 'f' has already been declared");
    assert_eq!(check_err("fn int32 f int8 a int8 a"), "[1] Symbol 'a' has already been declared");
    assert_eq!(check_err("ret 0"), "[1] Unmatched return");
    assert_eq!(check_err("g r"), "[1] Symbol 'g' never declared");
    assert_eq!(check_err("decl uint8 x 1\nx r"), "[2] Symbol 'x' is not callable");
    assert_eq!(check_err("fn int32 f int8 a\nret a\nf r"), "[3] Symbol 'f' expected 1 arguments but 0 were provided");
    assert_eq!(check_err("label l\nlabel l"), "[2] Symbol 'l' has already been declared");
}

#[test]
fn second_pass_errors() {
    assert_eq!(check_err("decl uint8 x y"), "[1] Symbol 'y' never declared");
    assert_eq!(check_err("decl uint8 x y\ndecl uint8 y 1"), "[1] Symbol 'y' used before it's declared");
    assert_eq!(check_err("fn int32 f\nret 0\ndecl int32 x f"), "[3] Symbol 'f' is a function and cannot be used as a value");
    assert_eq!(check_err("decl uint8 x 300"), "[1] Type 'uint16' is not assignable to 'uint8'");
    assert_eq!(check_err("decl uint8 x 1\nassign x 2"), "[2] Symbol 'x' is global and cannot be assigned");
    assert_eq!(check_err("assign z 1"), "[1] Symbol 'z' never declared");
    assert_eq!(check_err("fn int32 f\nassign f 1\nret 0"), "[2] Symbol 'f' is callable and cannot be assigned");
    assert_eq!(check_err("fn int32 f\nlabel l\nassign l 1\nret 0"), "[3] Symbol 'l' is not assignable");
    assert_eq!(check_err("fn int32 f\ndecl uint8 x 1\nassign x 300\nret 0"), "[3] Type 'uint16' is not assignable to 'uint8'");
    assert_eq!(check_err("label l\njump 1 l"), "[2] Condition must have bool type");
    assert_eq!(check_err("decl bool c true\njump c c"), "[2] Jump target must be a label");
    assert_eq!(check_err("decl bool c true\njump c nowhere"), "[2] Symbol 'nowhere' never declared");
    assert_eq!(check_err("decl uint8 x 1\nneg y x"), "[2] Negation requires a float or integer type");
    assert_eq!(check_err("decl string s \"a\"\nnot y s"), "[2] Logical not requires bool or integer type");
    assert_eq!(check_err("decl uint8 x 1\nderef y x"), "[2] Cannot dereference a non-pointer type");
    assert_eq!(check_err("decl bool b true\nlsh y b"), "[2] Bitwise shift requires an integer type");
    assert_eq!(check_err("decl bool b true\ndecl string s \"a\"\nadd r b s"), "[3] No common type for types 'bool' and 'string'");
    assert_eq!(check_err("decl bool b true\nadd r b b"), "[2] Arithmetic operations require integer or float types");
    assert_eq!(check_err("decl string s \"a\"\nand r s s"), "[2] Binary logical operations require bool or integer types");
    assert_eq!(check_err("decl float64 x 1.5"), "[1] Floating-point literal without a precision");
    assert_eq!(check_err("fn uint8 f\nret 300"), "[2] Type 'uint16' is not assignable to 'uint8'");
    assert_eq!(check_err("fn int32 f int8 a\nret a\nf r 200"), "[3] Type 'uint8' is not assignable to 'int8'");
}

#[test]
fn an_assignment_in_a_function() {
    let (prog, c) = check_ok("fn int32 f\ndecl uint16 x 1\nassign x 2\nret x\n");
    assert_eq!(res_of(&c.1[2], "x"), "f#x");
    assert_resolutions_have_symbols(&prog, &c);
}

#[test]
fn an_empty_program() {
    let prog: Vec<Instruction> = Vec::new();
    let (syms, res) = check(&prog).unwrap();
    assert_eq!(syms.len(), 0);
    assert_eq!(res.len(), 0);
}

#[test]
fn names_outside_functions_are_not_mangled() {
    let prog = program("decl uint8 x 1");
    let c = Checker::new(&prog);
    assert_eq!(c.mangle_id(&"x".to_string()), "x");
    assert_eq!(c.resolve_id(&"x".to_string()), "x");
}

#[test]
fn small_programs_fit_the_stack() {
    assert!(stack_fits(&program("fn int32 f int8 a int8 b\nret a\n")));
    assert!(stack_fits(&Vec::new()));
}

#[test]
fn checked_declarations_hold_assignable_constants() {
    let (prog, _) = check_ok("decl uint16 a 5\ndecl int64 b -3\ndecl bool c true\ndecl uint128 d 70000\ndecl string s \"t\"\n");
    for inst in &prog {
        match &inst.kind {
            InstructionKind::Decl { ty, value, .. } => {
                let vt = match value {
                    lib::ast::Value::UInt8(_) => Type::UInt8,
                    lib::ast::Value::UInt32(_) => Type::UInt32,
                    lib::ast::Value::Int8(_) => Type::Int8,
                    lib::ast::Value::Bool(_) => Type::Bool,
                    lib::ast::Value::String(_) => Type::String,
                    v => panic!("unexpected value {:?}", v),
                };
                assert!(vt.is_assignable_to(ty), "{:?} to {:?}", vt, ty);
            }
            k => panic!("not a declaration: {:?}", k),
        }
    }
}

#[test]
fn a_label_resolution_may_name_no_symbol() {
    // Functions left open at the end of the first pass enclose the whole
    // second pass, so a label can resolve to a name the table lacks.
    let (prog, c) = check_ok("fn int32 a\nlabel l\nret 0\nfn int32 b\nfn int32 a\n");
    let (syms, res) = &c;
    assert!(syms.contains_key(&"a#l".to_string()));
    assert_eq!(res_of(&res[1], "l"), "l");
    assert!(!syms.contains_key(&"l".to_string()));
    assert_eq!(res_of(&res[0], "a"), "b#a");
    assert_resolutions_have_symbols(&prog, &c);
}

#[test]
fn a_failed_function_declaration_keeps_its_earlier_parameters_only() {
    let prog = program("fn uint8 f uint8 a uint8 a\nlabel f\nlabel a\n");
    let mut c = Checker::new(&prog);
    match c.check_inst_initial(&prog[0]) {
        Ok(_) => panic!("expected an error"),
        Err(e) => assert_eq!(e.message(), "[1] Symbol 'a' has already been declared"),
    }
    // The function was not entered and no function encloses what follows.
    assert!(c.check_inst_initial(&prog[1]).is_ok());
    assert_eq!(c.mangle_id(&"x".to_string()), "x");
    // The first parameter was entered before the failure.
    match c.check_inst_initial(&prog[2]) {
        Ok(_) => panic!("expected an error"),
        Err(e) => assert_eq!(e.message(), "[3] Symbol 'a' has already been declared"),
    }
}
