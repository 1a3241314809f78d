//! The type language: primitive types, pointers, labels, and their sizes.

use vstd::prelude::*;
use crate::error::{Error, loc_error, loc_msg};
use crate::text::concat2;

verus! {

/// An operand size.
#[derive(Debug, Clone, Copy, PartialEq, Eq, Structural)]
pub enum Size {
    B1,
    B2,
    B4,
    B8,
    B16,
}

impl Size {
    /// The assembler's size keyword for operands of this size.
    pub open spec fn spec_size_str(self) -> Seq<char> {
        match self {
            Size::B1 => "byte"@,
            Size::B2 => "word"@,
            Size::B4 => "dword"@,
            Size::B8 => "qword"@,
            Size::B16 => "oword"@,
        }
    }

    /// The assembler's data directive for values of this size.
    pub open spec fn spec_directive(self) -> Seq<char> {
        match self {
            Size::B1 => "db"@,
            Size::B2 => "dw"@,
            Size::B4 => "dd"@,
            Size::B8 => "dq"@,
            Size::B16 => "do"@,
        }
    }

    /// The position of the size in the list `B1, B2, B4, B8, B16`.
    pub open spec fn spec_ordinal(self) -> int {
        match self {
            Size::B1 => 0,
            Size::B2 => 1,
            Size::B4 => 2,
            Size::B8 => 3,
            Size::B16 => 4,
        }
    }

    pub fn size_str(self) -> (s: &'static str)
        ensures
            s@ == self.spec_size_str(),
    {
        match self {
            Size::B1 => "byte",
            Size::B2 => "word",
            Size::B4 => "dword",
            Size::B8 => "qword",
            Size::B16 => "oword",
        }
    }

    pub fn get_directive(self) -> (s: &'static str)
        ensures
            s@ == self.spec_directive(),
    {
        match self {
            Size::B1 => "db",
            Size::B2 => "dw",
            Size::B4 => "dd",
            Size::B8 => "dq",
            Size::B16 => "do",
        }
    }

    /// The position of the size in the list `B1, B2, B4, B8, B16`
    /// (what a cast of the size to an integer gives).
    pub fn ordinal(self) -> (n: i32)
        ensures
            n == self.spec_ordinal(),
    {
        match self {
            Size::B1 => 0,
            Size::B2 => 1,
            Size::B4 => 2,
            Size::B8 => 3,
            Size::B16 => 4,
        }
    }
}

/// A type of the language.
#[derive(Debug)]
pub enum Type {
    Bool,
    String,
    UInt8,
    UInt16,
    UInt32,
    UInt64,
    UInt128,
    Int8,
    Int16,
    Int32,
    Int64,
    Int128,
    Float32,
    Float64,
    Ptr(Box<Type>),
    Label,
    Undeclared,
}

/// Whether `t` is one of the unsigned integer types.
pub open spec fn is_unsigned(t: Type) -> bool {
    t is UInt8 || t is UInt16 || t is UInt32 || t is UInt64 || t is UInt128
}

/// Whether `t` is one of the signed integer types.
pub open spec fn is_signed(t: Type) -> bool {
    t is Int8 || t is Int16 || t is Int32 || t is Int64 || t is Int128
}

/// Whether `t` is an integer type.
pub open spec fn is_integer(t: Type) -> bool {
    is_unsigned(t) || is_signed(t)
}

/// Whether `t` is a floating-point type.
pub open spec fn is_float(t: Type) -> bool {
    t is Float32 || t is Float64
}

/// The width in bits of an integer type.
pub open spec fn int_width(t: Type) -> nat {
    match t {
        Type::UInt8 | Type::Int8 => 8,
        Type::UInt16 | Type::Int16 => 16,
        Type::UInt32 | Type::Int32 => 32,
        Type::UInt64 | Type::Int64 => 64,
        _ => 128,
    }
}

/// Whether a value of type `s` may be stored where type `t` is expected:
/// equal types; `bool` into any unsigned type; an integer into a wider
/// integer that holds all its values (an unsigned one into a strictly wider
/// signed one); `float32` into `float64`; `uint64` into any pointer; a
/// pointer into `uint64` or `uint128`.
pub open spec fn assignable(s: Type, t: Type) -> bool {
    ||| s == t
    ||| s is Bool && is_unsigned(t)
    ||| is_unsigned(s) && is_unsigned(t) && int_width(s) < int_width(t)
    ||| is_unsigned(s) && is_signed(t) && int_width(s) < int_width(t)
    ||| is_signed(s) && is_signed(t) && int_width(s) < int_width(t)
    ||| s is Float32 && t is Float64
    ||| s is UInt64 && t is Ptr
    ||| s is Ptr && (t is UInt64 || t is UInt128)
}

/// The signed type that holds every value of two integer types of the same
/// width but opposite signedness (below 128 bits).
pub open spec fn mixed_join(a: Type, b: Type) -> Option<Type> {
    match (a, b) {
        (Type::UInt8, Type::Int8) | (Type::Int8, Type::UInt8) => Some(Type::Int16),
        (Type::UInt16, Type::Int16) | (Type::Int16, Type::UInt16) => Some(Type::Int32),
        (Type::UInt32, Type::Int32) | (Type::Int32, Type::UInt32) => Some(Type::Int64),
        (Type::UInt64, Type::Int64) | (Type::Int64, Type::UInt64) => Some(Type::Int128),
        _ => None,
    }
}

/// The common type of `a` and `b`: `b` when `a` fits in it, else `a` when
/// `b` fits in it, else the signed type of twice the width for mixed
/// integers of one width, else none.
pub open spec fn spec_join(a: Type, b: Type) -> Option<Type> {
    if assignable(a, b) {
        Some(b)
    } else if assignable(b, a) {
        Some(a)
    } else {
        mixed_join(a, b)
    }
}

/// The size of a value of type `t`, where it has one.
pub open spec fn spec_size(t: Type) -> Option<Size> {
    match t {
        Type::Bool | Type::UInt8 | Type::Int8 => Some(Size::B1),
        Type::UInt16 | Type::Int16 => Some(Size::B2),
        Type::UInt32 | Type::Int32 | Type::Float32 => Some(Size::B4),
        Type::UInt64 | Type::Int64 | Type::Float64 | Type::Ptr(_) => Some(Size::B8),
        Type::UInt128 | Type::Int128 | Type::String => Some(Size::B16),
        Type::Label | Type::Undeclared => None,
    }
}

/// The name of `t` as written in source, a pointer as `*` before its target.
pub open spec fn ty_text(t: Type) -> Seq<char>
    decreases t,
{
    match t {
        Type::Bool => "bool"@,
        Type::String => "string"@,
        Type::UInt8 => "uint8"@,
        Type::UInt16 => "uint16"@,
        Type::UInt32 => "uint32"@,
        Type::UInt64 => "uint64"@,
        Type::UInt128 => "uint128"@,
        Type::Int8 => "int8"@,
        Type::Int16 => "int16"@,
        Type::Int32 => "int32"@,
        Type::Int64 => "int64"@,
        Type::Int128 => "int128"@,
        Type::Float32 => "float32"@,
        Type::Float64 => "float64"@,
        Type::Ptr(inner) => "*"@ + ty_text(*inner),
        Type::Label => "label"@,
        Type::Undeclared => "undeclared"@,
    }
}

/// The message for two types without a common type.
pub open spec fn no_common_msg(a: Type, b: Type) -> Seq<char> {
    "No common type for types '"@ + ty_text(a) + "' and '"@ + ty_text(b) + "'"@
}

/// The message for a type without a size.
pub open spec fn no_size_msg(t: Type) -> Seq<char> {
    "Cannot get size of type '"@ + ty_text(t) + "'"@
}

impl Clone for Type {
    fn clone(&self) -> (res: Self)
        ensures
            res == *self,
        decreases self,
    {
        match self {
            Type::Bool => Type::Bool,
            Type::String => Type::String,
            Type::UInt8 => Type::UInt8,
            Type::UInt16 => Type::UInt16,
            Type::UInt32 => Type::UInt32,
            Type::UInt64 => Type::UInt64,
            Type::UInt128 => Type::UInt128,
            Type::Int8 => Type::Int8,
            Type::Int16 => Type::Int16,
            Type::Int32 => Type::Int32,
            Type::Int64 => Type::Int64,
            Type::Int128 => Type::Int128,
            Type::Float32 => Type::Float32,
            Type::Float64 => Type::Float64,
            Type::Ptr(inner) => {
                let i: Type = (**inner).clone();
                Type::Ptr(Box::new(i))
            },
            Type::Label => Type::Label,
            Type::Undeclared => Type::Undeclared,
        }
    }
}

impl Type {
    /// Whether the two types are the same.
    pub fn same(&self, other: &Type) -> (res: bool)
        ensures
            res == (*self == *other),
        decreases self,
    {
        match (self, other) {
            (Type::Bool, Type::Bool) => true,
            (Type::String, Type::String) => true,
            (Type::UInt8, Type::UInt8) => true,
            (Type::UInt16, Type::UInt16) => true,
            (Type::UInt32, Type::UInt32) => true,
            (Type::UInt64, Type::UInt64) => true,
            (Type::UInt128, Type::UInt128) => true,
            (Type::Int8, Type::Int8) => true,
            (Type::Int16, Type::Int16) => true,
            (Type::Int32, Type::Int32) => true,
            (Type::Int64, Type::Int64) => true,
            (Type::Int128, Type::Int128) => true,
            (Type::Float32, Type::Float32) => true,
            (Type::Float64, Type::Float64) => true,
            (Type::Ptr(a), Type::Ptr(b)) => (**a).same(&**b),
            (Type::Label, Type::Label) => true,
            (Type::Undeclared, Type::Undeclared) => true,
            _ => false,
        }
    }

    pub fn is_unsigned(&self) -> (res: bool)
        ensures
            res == is_unsigned(*self),
    {
        matches!(self, Type::UInt8 | Type::UInt16 | Type::UInt32 | Type::UInt64 | Type::UInt128)
    }

    pub fn is_signed(&self) -> (res: bool)
        ensures
            res == is_signed(*self),
    {
        matches!(self, Type::Int8 | Type::Int16 | Type::Int32 | Type::Int64 | Type::Int128)
    }

    fn int_width(&self) -> (w: u8)
        ensures
            w == int_width(*self),
    {
        match self {
            Type::UInt8 | Type::Int8 => 8,
            Type::UInt16 | Type::Int16 => 16,
            Type::UInt32 | Type::Int32 => 32,
            Type::UInt64 | Type::Int64 => 64,
            _ => 128,
        }
    }

    /// The name of the type as written in source.
    pub fn as_str(&self) -> (s: String)
        ensures
            s@ == ty_text(*self),
        decreases self,
    {
        match self {
            Type::Bool => String::from_str("bool"),
            Type::String => String::from_str("string"),
            Type::UInt8 => String::from_str("uint8"),
            Type::UInt16 => String::from_str("uint16"),
            Type::UInt32 => String::from_str("uint32"),
            Type::UInt64 => String::from_str("uint64"),
            Type::UInt128 => String::from_str("uint128"),
            Type::Int8 => String::from_str("int8"),
            Type::Int16 => String::from_str("int16"),
            Type::Int32 => String::from_str("int32"),
            Type::Int64 => String::from_str("int64"),
            Type::Int128 => String::from_str("int128"),
            Type::Float32 => String::from_str("float32"),
            Type::Float64 => String::from_str("float64"),
            Type::Ptr(inner) => {
                let i = (**inner).as_str();
                concat2("*", i.as_str())
            },
            Type::Label => String::from_str("label"),
            Type::Undeclared => String::from_str("undeclared"),
        }
    }

    /// Whether a value of this type may be stored where `target` is expected.
    pub fn is_assignable_to(&self, target: &Type) -> (res: bool)
        ensures
            res == assignable(*self, *target),
    {
        if self.same(target) {
            return true;
        }
        match (self, target) {
            (Type::Bool, _) => target.is_unsigned(),
            (Type::Float32, Type::Float64) => true,
            (Type::UInt64, Type::Ptr(_)) => true,
            (Type::Ptr(_), Type::UInt64 | Type::UInt128) => true,
            _ => {
                if self.is_unsigned() && (target.is_unsigned() || target.is_signed()) {
                    self.int_width() < target.int_width()
                } else if self.is_signed() && target.is_signed() {
                    self.int_width() < target.int_width()
                } else {
                    false
                }
            },
        }
    }

    /// The common type of this type and `other`; fails, located at `line`,
    /// when there is none.
    pub fn join(&self, other: &Type, line: usize) -> (res: Result<Type, Error>)
        ensures
            match spec_join(*self, *other) {
                Some(t) => res matches Ok(r) && r == t,
                None => res matches Err(e) && e@ == loc_msg(line as nat, no_common_msg(*self, *other)),
            },
    {
        if self.is_assignable_to(other) {
            return Ok(other.clone());
        }
        if other.is_assignable_to(self) {
            return Ok(self.clone());
        }
        match (self, other) {
            (Type::UInt8, Type::Int8) | (Type::Int8, Type::UInt8) => Ok(Type::Int16),
            (Type::UInt16, Type::Int16) | (Type::Int16, Type::UInt16) => Ok(Type::Int32),
            (Type::UInt32, Type::Int32) | (Type::Int32, Type::UInt32) => Ok(Type::Int64),
            (Type::UInt64, Type::Int64) | (Type::Int64, Type::UInt64) => Ok(Type::Int128),
            _ => {
                let a = self.as_str();
                let b = other.as_str();
                let mut msg = String::from_str("No common type for types '");
                msg.append(a.as_str());
                msg.append("' and '");
                msg.append(b.as_str());
                msg.append("'");
                loc_error(line, msg.as_str())
            },
        }
    }

    /// The size of a value of this type; fails, located at `line`, for
    /// labels and undeclared types.
    pub fn size(&self, line: usize) -> (res: Result<Size, Error>)
        ensures
            match spec_size(*self) {
                Some(s) => res == Ok::<Size, Error>(s),
                None => res matches Err(e) && e@ == loc_msg(line as nat, no_size_msg(*self)),
            },
    {
        match self {
            Type::Bool | Type::UInt8 | Type::Int8 => Ok(Size::B1),
            Type::UInt16 | Type::Int16 => Ok(Size::B2),
            Type::UInt32 | Type::Int32 | Type::Float32 => Ok(Size::B4),
            Type::UInt64 | Type::Int64 | Type::Float64 | Type::Ptr(_) => Ok(Size::B8),
            Type::UInt128 | Type::Int128 | Type::String => Ok(Size::B16),
            _ => {
                let n = self.as_str();
                let mut msg = String::from_str("Cannot get size of type '");
                msg.append(n.as_str());
                msg.append("'");
                loc_error(line, msg.as_str())
            },
        }
    }
}

/// Every type may be stored where the same type is expected.
pub proof fn lemma_assignable_reflexive(t: Type)
    ensures
        assignable(t, t),
{
}

/// The common type, where there is one, holds values of both types.
pub proof fn lemma_join_upper_bound(a: Type, b: Type)
    requires
        spec_join(a, b) is Some,
    ensures
        assignable(a, spec_join(a, b).unwrap()),
        assignable(b, spec_join(a, b).unwrap()),
{
}

/// A type joined with itself is itself.
pub proof fn lemma_join_idempotent(t: Type)
    ensures
        spec_join(t, t) == Some(t),
{
}

/// Whether two types have a common type does not depend on their order,
/// and the common type does not either, except for a pointer and `uint64`,
/// where the second type wins.
pub proof fn lemma_join_commutes(a: Type, b: Type)
    ensures
        spec_join(a, b) is Some <==> spec_join(b, a) is Some,
        !((a is Ptr && b is UInt64) || (a is UInt64 && b is Ptr)) ==> spec_join(a, b) == spec_join(b, a),
{
}

/// A type has a size exactly when it is neither a label nor undeclared.
pub proof fn lemma_size_defined(t: Type)
    ensures
        spec_size(t) is Some <==> !(t is Label || t is Undeclared),
{
}

/// A type's name starts with `*` exactly for a pointer type.
proof fn lemma_type_name_shape(t: Type)
    ensures
        ty_text(t).len() >= 1,
        (ty_text(t)[0] == '*') <==> t is Ptr,
{
    reveal_strlit("bool");
    reveal_strlit("string");
    reveal_strlit("uint8");
    reveal_strlit("uint16");
    reveal_strlit("uint32");
    reveal_strlit("uint64");
    reveal_strlit("uint128");
    reveal_strlit("int8");
    reveal_strlit("int16");
    reveal_strlit("int32");
    reveal_strlit("int64");
    reveal_strlit("int128");
    reveal_strlit("float32");
    reveal_strlit("float64");
    reveal_strlit("label");
    reveal_strlit("undeclared");
    reveal_strlit("*");
    if let Type::Ptr(inner) = t {
        assert(("*"@ + ty_text(*inner))[0] == '*');
    }
}

/// Distinct types have distinct names: a name gives back its type.
pub proof fn lemma_type_names_distinct(a: Type, b: Type)
    ensures
        ty_text(a) == ty_text(b) <==> a == b,
    decreases a,
{
    if ty_text(a) == ty_text(b) {
        lemma_type_name_shape(a);
        lemma_type_name_shape(b);
        match (a, b) {
            (Type::Ptr(x), Type::Ptr(y)) => {
                reveal_strlit("*");
                assert(ty_text(*x) =~= ty_text(a).drop_first());
                assert(ty_text(*y) =~= ty_text(b).drop_first());
                lemma_type_names_distinct(*x, *y);
            },
            _ => {
                reveal_strlit("bool");
                reveal_strlit("string");
                reveal_strlit("uint8");
                reveal_strlit("uint16");
                reveal_strlit("uint32");
                reveal_strlit("uint64");
                reveal_strlit("uint128");
                reveal_strlit("int8");
                reveal_strlit("int16");
                reveal_strlit("int32");
                reveal_strlit("int64");
                reveal_strlit("int128");
                reveal_strlit("float32");
                reveal_strlit("float64");
                reveal_strlit("label");
                reveal_strlit("undeclared");
                let n = ty_text(a).len();
                assert(ty_text(b).len() == n);
                assert(ty_text(a)[0] == ty_text(b)[0]);
                assert(ty_text(a)[n - 1] == ty_text(b)[n - 1]);
            },
        }
    }
}

} // verus!
