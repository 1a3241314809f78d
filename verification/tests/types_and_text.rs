use lib::error::{loc_error, Error};
use lib::text::{concat2, concat3, contains_char, push_dec_i128, push_dec_u128, string_of_range};
use lib::types::{Size, Type};

fn msg<T>(r: Result<T, Error>) -> String {
    match r {
        Ok(_) => panic!("expected an error"),
        Err(e) => e.message(),
    }
}

fn ptr(t: Type) -> Type {
    Type::Ptr(Box::new(t))
}

fn all_types() -> Vec<Type> {
    vec![
        Type::Bool,
        Type::String,
        Type::UInt8,
        Type::UInt16,
        Type::UInt32,
        Type::UInt64,
        Type::UInt128,
        Type::Int8,
        Type::Int16,
        Type::Int32,
        Type::Int64,
        Type::Int128,
        Type::Float32,
        Type::Float64,
        ptr(Type::UInt8),
        ptr(ptr(Type::Int32)),
        Type::Label,
        Type::Undeclared,
    ]
}

#[test]
fn loc_error_prefixes_the_line() {
    assert_eq!(msg(loc_error::<()>(3, "Unknown instruction")), "[3] Unknown instruction");
    assert_eq!(msg(loc_error::<u8>(0, "")), "[0] ");
    assert_eq!(msg(loc_error::<()>(120, "x")), "[120] x");
}

#[test]
fn decimal_text_of_integers() {
    let dec = |n: i128| {
        let mut s = String::new();
        push_dec_i128(&mut s, n);
        s
    };
    assert_eq!(dec(0), "0");
    assert_eq!(dec(7), "7");
    assert_eq!(dec(-42), "-42");
    assert_eq!(dec(i128::MIN), "-170141183460469231731687303715884105728");
    assert_eq!(dec(i128::MAX), "170141183460469231731687303715884105727");
    let mut s = String::from("n=");
    push_dec_u128(&mut s, u128::MAX);
    assert_eq!(s, "n=340282366920938463463374607431768211455");
    let mut t = String::from("[");
    push_dec_i128(&mut t, -5);
    assert_eq!(t, "[-5");
}

#[test]
fn string_helpers() {
    let chars: Vec<char> = "hello".chars().collect();
    assert_eq!(string_of_range(&chars, 1, 4), "ell");
    assert_eq!(string_of_range(&chars, 2, 2), "");
    assert_eq!(string_of_range(&chars, 0, 5), "hello");
    assert_eq!(concat2("ab", "cd"), "abcd");
    assert_eq!(concat3("a", ".", "b"), "a.b");
    assert!(contains_char("a.b", '.'));
    assert!(!contains_char("ab", '.'));
    assert!(!contains_char("", '.'));
}

#[test]
fn size_names() {
    assert_eq!(Size::B1.size_str(), "byte");
    assert_eq!(Size::B2.size_str(), "word");
    assert_eq!(Size::B4.size_str(), "dword");
    assert_eq!(Size::B8.size_str(), "qword");
    assert_eq!(Size::B16.size_str(), "oword");
    assert_eq!(Size::B1.get_directive(), "db");
    assert_eq!(Size::B2.get_directive(), "dw");
    assert_eq!(Size::B4.get_directive(), "dd");
    assert_eq!(Size::B8.get_directive(), "dq");
    assert_eq!(Size::B16.get_directive(), "do");
    assert_eq!(Size::B1.ordinal(), 0);
    assert_eq!(Size::B2.ordinal(), 1);
    assert_eq!(Size::B4.ordinal(), 2);
    assert_eq!(Size::B8.ordinal(), 3);
    assert_eq!(Size::B16.ordinal(), 4);
}

#[test]
fn type_names() {
    let names: Vec<String> = all_types().iter().map(|t| t.as_str()).collect();
    assert_eq!(
        names,
        vec![
            "bool", "string", "uint8", "uint16", "uint32", "uint64", "uint128", "int8", "int16", "int32", "int64",
            "int128", "float32", "float64", "*uint8", "**int32", "label", "undeclared"
        ]
    );
}

#[test]
fn type_predicates_and_equality() {
    assert!(Type::UInt32.is_unsigned());
    assert!(!Type::Int32.is_unsigned());
    assert!(Type::Int128.is_signed());
    assert!(!Type::Bool.is_signed());
    assert!(ptr(Type::UInt8).same(&ptr(Type::UInt8)));
    assert!(!ptr(Type::UInt8).same(&ptr(Type::Int8)));
    assert!(!Type::Label.same(&Type::Undeclared));
}

#[test]
fn assignability() {
    assert!(Type::Bool.is_assignable_to(&Type::UInt8));
    assert!(Type::Bool.is_assignable_to(&Type::UInt128));
    assert!(!Type::Bool.is_assignable_to(&Type::Int8));
    assert!(Type::UInt8.is_assignable_to(&Type::Int16));
    assert!(!Type::UInt8.is_assignable_to(&Type::Int8));
    assert!(Type::UInt32.is_assignable_to(&Type::Int64));
    assert!(!Type::UInt64.is_assignable_to(&Type::Int64));
    assert!(Type::UInt64.is_assignable_to(&ptr(Type::Bool)));
    assert!(!Type::UInt32.is_assignable_to(&ptr(Type::Bool)));
    assert!(ptr(Type::Bool).is_assignable_to(&Type::UInt64));
    assert!(ptr(Type::Bool).is_assignable_to(&Type::UInt128));
    assert!(!ptr(Type::Bool).is_assignable_to(&Type::UInt32));
    assert!(!ptr(Type::Bool).is_assignable_to(&ptr(Type::UInt8)));
    assert!(Type::Int8.is_assignable_to(&Type::Int128));
    assert!(!Type::Int16.is_assignable_to(&Type::Int8));
    assert!(!Type::Int8.is_assignable_to(&Type::UInt16));
    assert!(Type::Float32.is_assignable_to(&Type::Float64));
    assert!(!Type::Float64.is_assignable_to(&Type::Float32));
    assert!(!Type::UInt8.is_assignable_to(&Type::Float32));
    assert!(!Type::String.is_assignable_to(&Type::UInt8));
}

#[test]
fn common_types() {
    assert!(Type::UInt8.join(&Type::UInt16, 1).unwrap().same(&Type::UInt16));
    assert!(Type::UInt16.join(&Type::UInt8, 1).unwrap().same(&Type::UInt16));
    assert!(Type::UInt8.join(&Type::Int8, 1).unwrap().same(&Type::Int16));
    assert!(Type::Int16.join(&Type::UInt16, 1).unwrap().same(&Type::Int32));
    assert!(Type::UInt32.join(&Type::Int32, 1).unwrap().same(&Type::Int64));
    assert!(Type::Int64.join(&Type::UInt64, 1).unwrap().same(&Type::Int128));
    assert!(Type::Bool.join(&Type::UInt8, 1).unwrap().same(&Type::UInt8));
    assert!(Type::UInt64.join(&ptr(Type::Bool), 1).unwrap().same(&ptr(Type::Bool)));
    assert!(ptr(Type::Bool).join(&Type::UInt64, 1).unwrap().same(&Type::UInt64));
    assert_eq!(msg(Type::Bool.join(&Type::String, 5)), "[5] No common type for types 'bool' and 'string'");
    assert_eq!(msg(Type::UInt128.join(&Type::Int128, 2)), "[2] No common type for types 'uint128' and 'int128'");
    assert_eq!(msg(Type::Float32.join(&Type::Int8, 9)), "[9] No common type for types 'float32' and 'int8'");
}

#[test]
fn sizes() {
    assert_eq!(Type::Bool.size(1).unwrap(), Size::B1);
    assert_eq!(Type::Int8.size(1).unwrap(), Size::B1);
    assert_eq!(Type::UInt16.size(1).unwrap(), Size::B2);
    assert_eq!(Type::Float32.size(1).unwrap(), Size::B4);
    assert_eq!(Type::Int64.size(1).unwrap(), Size::B8);
    assert_eq!(ptr(Type::String).size(1).unwrap(), Size::B8);
    assert_eq!(Type::String.size(1).unwrap(), Size::B16);
    assert_eq!(Type::UInt128.size(1).unwrap(), Size::B16);
    assert_eq!(msg(Type::Label.size(4)), "[4] Cannot get size of type 'label'");
    assert_eq!(msg(Type::Undeclared.size(7)), "[7] Cannot get size of type 'undeclared'");
}

#[test]
fn type_laws_on_every_pair() {
    let ts = all_types();
    for t in &ts {
        assert!(t.is_assignable_to(t), "reflexive on {:?}", t);
        assert!(t.join(t, 1).unwrap().same(t), "idempotent on {:?}", t);
        let has_size = t.size(1).is_ok();
        assert_eq!(has_size, !matches!(t, Type::Label | Type::Undeclared));
    }
    for a in &ts {
        for b in &ts {
            let ab = a.join(b, 1);
            let ba = b.join(a, 1);
            assert_eq!(ab.is_ok(), ba.is_ok(), "{:?} {:?}", a, b);
            if let Ok(j) = &ab {
                assert!(a.is_assignable_to(j) && b.is_assignable_to(j), "upper bound {:?} {:?}", a, b);
                let ptr_and_u64 = (matches!(a, Type::Ptr(_)) && matches!(b, Type::UInt64))
                    || (matches!(a, Type::UInt64) && matches!(b, Type::Ptr(_)));
                if !ptr_and_u64 {
                    assert!(j.same(ba.as_ref().unwrap()), "commutes {:?} {:?}", a, b);
                }
            }
        }
    }
}

#[test]
fn type_clone_is_equal() {
    for t in all_types() {
        assert!(t.clone().same(&t));
    }
}
