use lib::ast::{BinaryOp, Instruction, InstructionKind, UnaryOp, Value};
use lib::error::Error;
use lib::number::parse_number;
use lib::parser::{parse_source, Parser};
use lib::token::Token;
use lib::types::Type;

fn parse_ok(src: &str) -> Vec<Instruction> {
    match parse_source(src) {
        Ok(p) => p,
        Err(e) => panic!("unexpected error: {}", e.message()),
    }
}

fn parse_err(src: &str) -> String {
    match parse_source(src) {
        Ok(p) => panic!("expected an error, got {:?}", p),
        Err(e) => e.message(),
    }
}

fn err_msg<T>(r: Result<T, Error>) -> String {
    match r {
        Ok(_) => panic!("expected an error"),
        Err(e) => e.message(),
    }
}

fn kind(inst: &Instruction) -> String {
    format!("{:?}", inst.kind)
}

#[test]
fn one_declaration() {
    let p = parse_ok("decl uint8 x 5");
    assert_eq!(p.len(), 1);
    assert_eq!(p[0].line, 1);
    assert_eq!(kind(&p[0]), "Decl { ty: UInt8, id: \"x\", value: UInt8(5) }");
}

#[test]
fn a_program_of_every_instruction() {
    let src = "fn int32 f int8 a *uint16 b\nadd r a b\nret r\nf res 1 -2 \"s\" true x.y\nlabel l\njump c l\nassign v 7\nimport m \"lib.eil\"\nneg n a\nxor z a 3\n";
    let p = parse_ok(src);
    assert_eq!(p.len(), 10);
    let lines: Vec<usize> = p.iter().map(|i| i.line).collect();
    assert_eq!(lines, vec![1, 2, 3, 4, 5, 6, 7, 8, 9, 10]);
    assert_eq!(kind(&p[0]), "Fn { ty: Int32, id: \"f\", params: [(Int8, \"a\"), (Ptr(UInt16), \"b\")] }");
    assert_eq!(kind(&p[1]), "BinaryOp { op: Add, id: \"r\", a: Symbol(\"a\"), b: Symbol(\"b\") }");
    assert_eq!(kind(&p[2]), "Ret { ret: Symbol(\"r\") }");
    match &p[3].kind {
        InstructionKind::Call { op, id, args } => {
            assert_eq!(op, "f");
            assert_eq!(id, "res");
            assert_eq!(args.len(), 5);
            assert!(matches!(args[0], Value::UInt8(1)));
            assert!(matches!(args[1], Value::Int8(-2)));
            assert!(matches!(&args[2], Value::String(s) if s == "\"s\""));
            assert!(matches!(args[3], Value::Bool(true)));
            assert!(matches!(&args[4], Value::Symbol(s) if s == "x.y"));
        }
        k => panic!("not a call: {:?}", k),
    }
    assert_eq!(kind(&p[4]), "Label { id: \"l\" }");
    assert_eq!(kind(&p[5]), "Jump { cond: Symbol(\"c\"), label: \"l\" }");
    assert_eq!(kind(&p[6]), "Assign { id: \"v\", value: UInt8(7) }");
    match &p[7].kind {
        InstructionKind::Import { alias, path } => {
            assert_eq!(alias, "m");
            assert_eq!(path, "\"lib.eil\"");
        }
        k => panic!("not an import: {:?}", k),
    }
    assert!(matches!(&p[8].kind, InstructionKind::UnaryOp { op: UnaryOp::Neg, id, val: Value::Symbol(v) } if id == "n" && v == "a"));
    assert!(matches!(&p[9].kind, InstructionKind::BinaryOp { op: BinaryOp::Xor, id, a: Value::Symbol(_), b: Value::UInt8(3) } if id == "z"));
}

#[test]
fn every_operation_keyword() {
    let p = parse_ok("neg a x\nnot b x\nref c x\nderef d x\nlsh e x\nrsh f x\nadd g x y\nsub h x y\nmult i x y\ndiv j x y\nand k x y\nor l x y\nxor m x y");
    let ops: Vec<String> = p
        .iter()
        .map(|i| match &i.kind {
            InstructionKind::UnaryOp { op, .. } => format!("{:?}", op),
            InstructionKind::BinaryOp { op, .. } => format!("{:?}", op),
            k => panic!("unexpected {:?}", k),
        })
        .collect();
    assert_eq!(ops, vec!["Neg", "Not", "Ref", "Deref", "Lsh", "Rsh", "Add", "Sub", "Mult", "Div", "And", "Or", "Xor"]);
}

#[test]
fn parse_errors() {
    assert_eq!(parse_err("decl uint8 a.b 5"), "[1] Declaration identifier cannot have '.'");
    assert_eq!(parse_err("fn int32 m.f"), "[1] Declaration identifier cannot have '.'");
    assert_eq!(parse_err("import m.n \"x\""), "[1] Declaration identifier cannot have '.'");
    assert_eq!(parse_err("decl foo x 5"), "[1] Invalid type");
    assert_eq!(parse_err("decl uint8 x\n"), "[1] Invalid value");
    assert_eq!(parse_err("bogus"), "[1] Expected 'Identifier'");
    assert_eq!(parse_err("uint8"), "[1] Unknown instruction");
    assert_eq!(parse_err("decl uint8 x 5\ndecl * y 1"), "[2] Invalid type");
    assert_eq!(parse_err("decl uint8 x 5\ndecl *"), "[2] Invalid type");
    assert_eq!(parse_err("import m lib"), "[1] Expected 'StringLiteral'");
    assert_eq!(parse_err("fn int32 f int8\n"), "[1] Expected 'Identifier'");
    assert_eq!(parse_err("jump true 5"), "[1] Expected 'Identifier'");
    assert_eq!(parse_err("f r 1 uint8"), "[1] Invalid value");
    assert_eq!(parse_err("decl uint8 x 340282366920938463463374607431768211456"), "[1] Invalid unsigned integer");
    assert_eq!(parse_err("decl int128 x -170141183460469231731687303715884105729"), "[1] Invalid signed integer");
}

#[test]
fn error_tokens() {
    // An error token where an instruction starts ends the program.
    let p = parse_ok("decl uint8 x 5\n@ decl uint8 y 6");
    assert_eq!(p.len(), 1);
    // Inside an instruction it reads as the end of input.
    assert_eq!(parse_err("decl uint8 x @"), "[1] Invalid value");
    let p = parse_ok("f r 1 @");
    assert_eq!(p.len(), 1);
    match &p[0].kind {
        InstructionKind::Call { args, .. } => assert_eq!(args.len(), 1),
        k => panic!("not a call: {:?}", k),
    }
    // The error token ends the arguments; what follows starts an instruction.
    assert_eq!(parse_err("f r 1 @ 2"), "[1] Unknown instruction");
}

#[test]
fn the_token_after_an_instruction_is_consumed() {
    // `ret 1` consumes the next `ret`, and `2` starts no instruction.
    assert_eq!(parse_err("ret 1 ret 2"), "[1] Unknown instruction");
    // Without a newline the line does not advance.
    let p = parse_ok("label a x label b");
    assert_eq!(p.len(), 2);
    assert_eq!(p[1].line, 1);
}

#[test]
fn an_empty_line_is_no_instruction() {
    assert_eq!(parse_err("decl uint8 x 1\n\n"), "[2] Unknown instruction");
}

#[test]
fn functions_and_calls_to_the_end_of_input() {
    let p = parse_ok("fn int32 f");
    assert_eq!(kind(&p[0]), "Fn { ty: Int32, id: \"f\", params: [] }");
    let p = parse_ok("fn uint8 g bool b\nf r\ndecl bool t false");
    assert_eq!(p.len(), 3);
    assert_eq!(p[1].line, 2);
    assert_eq!(p[2].line, 3);
    assert_eq!(kind(&p[1]), "Call { op: \"f\", id: \"r\", args: [] }");
}

#[test]
fn floating_point_literals_wait_for_their_precision() {
    let p = parse_ok("decl float64 x 1.5\ndecl float32 y -0.25");
    assert!(matches!(&p[0].kind, InstructionKind::Decl { value: Value::FloatLiteral(t), .. } if t == "1.5"));
    assert!(matches!(&p[1].kind, InstructionKind::Decl { value: Value::FloatLiteral(t), .. } if t == "-0.25"));
}

#[test]
fn declared_names_are_plain() {
    let p = parse_ok("fn int32 f int8 a.b\nm.g r x.y\nlabel l\nadd s x.z 1\nimport q \"p\"\n");
    for inst in &p {
        let declared = match &inst.kind {
            InstructionKind::Import { alias, .. } => Some(alias),
            InstructionKind::Decl { id, .. }
            | InstructionKind::Fn { id, .. }
            | InstructionKind::Call { id, .. }
            | InstructionKind::Label { id }
            | InstructionKind::UnaryOp { id, .. }
            | InstructionKind::BinaryOp { id, .. } => Some(id),
            _ => None,
        };
        if let Some(n) = declared {
            assert!(!n.contains('.'), "{}", n);
        }
    }
    // A parameter name is not a declared name of the function.
    assert!(matches!(&p[0].kind, InstructionKind::Fn { params, .. } if params[0].1 == "a.b"));
}

#[test]
fn parser_steps() {
    let mut p = Parser::new("* *int8 x");
    let tk = p.advance();
    assert_eq!(tk, Token::Ptr);
    let t = p.parse_type(tk).unwrap();
    assert!(t.same(&Type::Ptr(Box::new(Type::Ptr(Box::new(Type::Int8))))));
    assert_eq!(p.next_and_consume(Token::Identifier).unwrap(), "x");
    assert_eq!(p.advance(), Token::Eof);
    assert_eq!(p.advance(), Token::Eof);

    let mut p = Parser::new("42 abc");
    let tk = p.advance();
    assert!(matches!(p.parse_value(tk), Ok(Value::UInt8(42))));
    assert_eq!(err_msg(p.next_and_consume(Token::Number)), "[1] Expected 'Number'");

    let mut p = Parser::new("bool");
    let tk = p.advance();
    assert_eq!(err_msg(p.parse_value(tk)), "[1] Invalid value");
    assert_eq!(err_msg(p.parse_type(Token::Identifier)), "[1] Invalid type");

    let p = Parser::new("");
    assert_eq!(p.parse().unwrap().len(), 0);
}

#[test]
fn number_literals_take_the_narrowest_type() {
    assert!(matches!(parse_number("0", 1), Ok(Value::UInt8(0))));
    assert!(matches!(parse_number("255", 1), Ok(Value::UInt8(255))));
    assert!(matches!(parse_number("256", 1), Ok(Value::UInt16(256))));
    assert!(matches!(parse_number("65536", 1), Ok(Value::UInt32(65536))));
    assert!(matches!(parse_number("4294967296", 1), Ok(Value::UInt64(4294967296))));
    assert!(matches!(parse_number("18446744073709551616", 1), Ok(Value::UInt128(18446744073709551616))));
    assert!(matches!(parse_number("340282366920938463463374607431768211455", 1), Ok(Value::UInt128(u128::MAX))));
    assert!(matches!(parse_number("-0", 1), Ok(Value::Int8(0))));
    assert!(matches!(parse_number("-128", 1), Ok(Value::Int8(-128))));
    assert!(matches!(parse_number("-129", 1), Ok(Value::Int16(-129))));
    assert!(matches!(parse_number("-32769", 1), Ok(Value::Int32(-32769))));
    assert!(matches!(parse_number("-2147483649", 1), Ok(Value::Int64(-2147483649))));
    assert!(matches!(parse_number("-9223372036854775809", 1), Ok(Value::Int128(-9223372036854775809))));
    assert!(matches!(parse_number("-170141183460469231731687303715884105728", 1), Ok(Value::Int128(i128::MIN))));
    assert!(matches!(parse_number("007", 1), Ok(Value::UInt8(7))));
    assert!(matches!(parse_number("2.5", 1), Ok(Value::FloatLiteral(t)) if t == "2.5"));
}

#[test]
fn number_literal_errors() {
    assert_eq!(err_msg(parse_number("340282366920938463463374607431768211456", 4)), "[4] Invalid unsigned integer");
    assert_eq!(err_msg(parse_number("-170141183460469231731687303715884105729", 2)), "[2] Invalid signed integer");
    assert_eq!(err_msg(parse_number("", 1)), "[1] Invalid unsigned integer");
    assert_eq!(err_msg(parse_number("-", 1)), "[1] Invalid signed integer");
    assert_eq!(err_msg(parse_number("1-2", 1)), "[1] Invalid signed integer");
    assert_eq!(err_msg(parse_number("12a", 1)), "[1] Invalid unsigned integer");
}

#[test]
fn a_type_name_reads_back_as_the_type() {
    let bases = vec![
        Type::Bool, Type::String, Type::UInt8, Type::UInt16, Type::UInt32, Type::UInt64, Type::UInt128,
        Type::Int8, Type::Int16, Type::Int32, Type::Int64, Type::Int128, Type::Float32, Type::Float64,
    ];
    let mut names: Vec<String> = Vec::new();
    for b in bases {
        let t = Type::Ptr(Box::new(Type::Ptr(Box::new(b.clone()))));
        for ty in vec![b, t] {
            let name = ty.as_str();
            let mut p = Parser::new(&name);
            let tk = p.advance();
            let back = p.parse_type(tk).unwrap();
            assert!(back.same(&ty), "{}", name);
            assert_eq!(p.advance(), Token::Eof);
            assert!(!names.contains(&name));
            names.push(name);
        }
    }
}
