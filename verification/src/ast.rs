//! Values and instructions of the language, with their mathematical views.

use vstd::prelude::*;
use crate::types::Type;
use crate::text::{concat3, chars_of};

verus! {

/// An operand: a symbol, a literal, or a floating-point constant.
///
/// A floating-point constant carries its bit pattern and its decimal text;
/// a floating-point literal that has not been given its precision yet
/// carries its source text.
#[derive(Debug)]
pub enum Value {
    Symbol(String),
    Bool(bool),
    String(String),
    UInt8(u8),
    UInt16(u16),
    UInt32(u32),
    UInt64(u64),
    UInt128(u128),
    Int8(i8),
    Int16(i16),
    Int32(i32),
    Int64(i64),
    Int128(i128),
    Float32(u32, String),
    Float64(u64, String),
    FloatLiteral(String),
}

/// The view of a [`Value`], with texts as character sequences.
pub enum ValueV {
    Symbol(Seq<char>),
    Bool(bool),
    Str(Seq<char>),
    UInt8(u8),
    UInt16(u16),
    UInt32(u32),
    UInt64(u64),
    UInt128(u128),
    Int8(i8),
    Int16(i16),
    Int32(i32),
    Int64(i64),
    Int128(i128),
    Float32(u32, Seq<char>),
    Float64(u64, Seq<char>),
    FloatLiteral(Seq<char>),
}

impl View for Value {
    type V = ValueV;

    open spec fn view(&self) -> ValueV {
        match self {
            Value::Symbol(s) => ValueV::Symbol(s@),
            Value::Bool(b) => ValueV::Bool(*b),
            Value::String(s) => ValueV::Str(s@),
            Value::UInt8(v) => ValueV::UInt8(*v),
            Value::UInt16(v) => ValueV::UInt16(*v),
            Value::UInt32(v) => ValueV::UInt32(*v),
            Value::UInt64(v) => ValueV::UInt64(*v),
            Value::UInt128(v) => ValueV::UInt128(*v),
            Value::Int8(v) => ValueV::Int8(*v),
            Value::Int16(v) => ValueV::Int16(*v),
            Value::Int32(v) => ValueV::Int32(*v),
            Value::Int64(v) => ValueV::Int64(*v),
            Value::Int128(v) => ValueV::Int128(*v),
            Value::Float32(b, t) => ValueV::Float32(*b, t@),
            Value::Float64(b, t) => ValueV::Float64(*b, t@),
            Value::FloatLiteral(t) => ValueV::FloatLiteral(t@),
        }
    }
}

impl Clone for Value {
    fn clone(&self) -> (res: Self)
        ensures
            res@ == self@,
    {
        match self {
            Value::Symbol(s) => Value::Symbol(s.clone()),
            Value::Bool(b) => Value::Bool(*b),
            Value::String(s) => Value::String(s.clone()),
            Value::UInt8(v) => Value::UInt8(*v),
            Value::UInt16(v) => Value::UInt16(*v),
            Value::UInt32(v) => Value::UInt32(*v),
            Value::UInt64(v) => Value::UInt64(*v),
            Value::UInt128(v) => Value::UInt128(*v),
            Value::Int8(v) => Value::Int8(*v),
            Value::Int16(v) => Value::Int16(*v),
            Value::Int32(v) => Value::Int32(*v),
            Value::Int64(v) => Value::Int64(*v),
            Value::Int128(v) => Value::Int128(*v),
            Value::Float32(b, t) => Value::Float32(*b, t.clone()),
            Value::Float64(b, t) => Value::Float64(*b, t.clone()),
            Value::FloatLiteral(t) => Value::FloatLiteral(t.clone()),
        }
    }
}

/// A unary operation.
#[derive(Debug, Clone, Copy, PartialEq, Eq, Structural)]
pub enum UnaryOp {
    Neg,
    Not,
    Ref,
    Deref,
    Lsh,
    Rsh,
}

/// A binary operation.
#[derive(Debug, Clone, Copy, PartialEq, Eq, Structural)]
pub enum BinaryOp {
    Add,
    Sub,
    Mult,
    Div,
    And,
    Or,
    Xor,
}

/// The kind of an instruction, with its operands.
#[derive(Debug)]
pub enum InstructionKind {
    /// Makes the module at `path` available under `alias`.
    Import { alias: String, path: String },
    /// Declares a new symbol of type `ty`.
    Decl { ty: Type, id: String, value: Value },
    /// Changes the value of a symbol.
    Assign { id: String, value: Value },
    /// Starts a function; the instructions after it up to the matching
    /// return make its body.
    Fn { ty: Type, id: String, params: Vec<(Type, String)> },
    /// Ends a function, returning a value.
    Ret { ret: Value },
    /// Calls the function `op`, storing its result in the new symbol `id`.
    Call { op: String, id: String, args: Vec<Value> },
    Label { id: String },
    Jump { cond: Value, label: String },
    UnaryOp { op: UnaryOp, id: String, val: Value },
    BinaryOp { op: BinaryOp, id: String, a: Value, b: Value },
}

/// An instruction and the source line it was read from.
#[derive(Debug)]
pub struct Instruction {
    pub kind: InstructionKind,
    pub line: usize,
}

/// The view of an [`InstructionKind`].
pub enum KindV {
    Import { alias: Seq<char>, path: Seq<char> },
    Decl { ty: Type, id: Seq<char>, value: ValueV },
    Assign { id: Seq<char>, value: ValueV },
    Fn { ty: Type, id: Seq<char>, params: Seq<(Type, Seq<char>)> },
    Ret { ret: ValueV },
    Call { op: Seq<char>, id: Seq<char>, args: Seq<ValueV> },
    Label { id: Seq<char> },
    Jump { cond: ValueV, label: Seq<char> },
    UnaryOp { op: UnaryOp, id: Seq<char>, val: ValueV },
    BinaryOp { op: BinaryOp, id: Seq<char>, a: ValueV, b: ValueV },
}

/// The view of an [`Instruction`].
pub struct InstV {
    pub kind: KindV,
    pub line: nat,
}

pub open spec fn params_view(params: Seq<(Type, String)>) -> Seq<(Type, Seq<char>)> {
    params.map_values(|p: (Type, String)| (p.0, p.1@))
}

pub open spec fn values_view(vals: Seq<Value>) -> Seq<ValueV> {
    vals.map_values(|v: Value| v@)
}

impl View for InstructionKind {
    type V = KindV;

    open spec fn view(&self) -> KindV {
        match self {
            InstructionKind::Import { alias, path } => KindV::Import { alias: alias@, path: path@ },
            InstructionKind::Decl { ty, id, value } => KindV::Decl { ty: *ty, id: id@, value: value@ },
            InstructionKind::Assign { id, value } => KindV::Assign { id: id@, value: value@ },
            InstructionKind::Fn { ty, id, params } => KindV::Fn { ty: *ty, id: id@, params: params_view(params@) },
            InstructionKind::Ret { ret } => KindV::Ret { ret: ret@ },
            InstructionKind::Call { op, id, args } => KindV::Call { op: op@, id: id@, args: values_view(args@) },
            InstructionKind::Label { id } => KindV::Label { id: id@ },
            InstructionKind::Jump { cond, label } => KindV::Jump { cond: cond@, label: label@ },
            InstructionKind::UnaryOp { op, id, val } => KindV::UnaryOp { op: *op, id: id@, val: val@ },
            InstructionKind::BinaryOp { op, id, a, b } => KindV::BinaryOp { op: *op, id: id@, a: a@, b: b@ },
        }
    }
}

impl View for Instruction {
    type V = InstV;

    open spec fn view(&self) -> InstV {
        InstV { kind: self.kind@, line: self.line as nat }
    }
}

/// The views of a sequence of instructions.
pub open spec fn insts_view(insts: Seq<Instruction>) -> Seq<InstV> {
    insts.map_values(|i: Instruction| i@)
}

/// `id` placed in the module `prefix`: `prefix.id`.
pub open spec fn prefixed(prefix: Seq<char>, id: Seq<char>) -> Seq<char> {
    prefix + "."@ + id
}

/// Whether `s` holds the text `::`.
pub open spec fn has_path_sep(s: Seq<char>) -> bool {
    exists|i: int| 0 <= i && i + 1 < s.len() && #[trigger] s[i] == ':' && s[i + 1] == ':'
}

/// A value placed in the module `prefix`: a symbol without `::` gets the
/// prefix; every other value stays as it is.
pub open spec fn value_with_prefix(v: ValueV, prefix: Seq<char>) -> ValueV {
    match v {
        ValueV::Symbol(id) => if has_path_sep(id) { v } else { ValueV::Symbol(prefixed(prefix, id)) },
        _ => v,
    }
}

/// An instruction kind placed in the module `prefix`: every name it
/// declares or uses gets the prefix; imports stay as they are.
pub open spec fn kind_with_prefix(k: KindV, prefix: Seq<char>) -> KindV {
    match k {
        KindV::Import { .. } => k,
        KindV::Decl { ty, id, value } => KindV::Decl { ty, id: prefixed(prefix, id), value: value_with_prefix(value, prefix) },
        KindV::Assign { id, value } => KindV::Assign { id: prefixed(prefix, id), value: value_with_prefix(value, prefix) },
        KindV::Fn { ty, id, params } => KindV::Fn {
            ty,
            id: prefixed(prefix, id),
            params: params.map_values(|p: (Type, Seq<char>)| (p.0, prefixed(prefix, p.1))),
        },
        KindV::Ret { ret } => KindV::Ret { ret: value_with_prefix(ret, prefix) },
        KindV::Call { op, id, args } => KindV::Call {
            op: prefixed(prefix, op),
            id: prefixed(prefix, id),
            args: args.map_values(|a: ValueV| value_with_prefix(a, prefix)),
        },
        KindV::Label { id } => KindV::Label { id: prefixed(prefix, id) },
        KindV::Jump { cond, label } => KindV::Jump { cond: value_with_prefix(cond, prefix), label: prefixed(prefix, label) },
        KindV::UnaryOp { op, id, val } => KindV::UnaryOp { op, id: prefixed(prefix, id), val: value_with_prefix(val, prefix) },
        KindV::BinaryOp { op, id, a, b } => KindV::BinaryOp {
            op,
            id: prefixed(prefix, id),
            a: value_with_prefix(a, prefix),
            b: value_with_prefix(b, prefix),
        },
    }
}

/// Whether `s` holds the text `::`.
pub fn contains_path_sep(s: &str) -> (res: bool)
    ensures
        res == has_path_sep(s@),
{
    let c = chars_of(s);
    let mut i: usize = 0;
    while c.len() > 0 && i < c.len() - 1
        invariant
            c@ == s@,
            forall|j: int| 0 <= j < i && j + 1 < c.len() ==> !(#[trigger] c@[j] == ':' && c@[j + 1] == ':'),
        decreases c.len() - i,
    {
        if c[i] == ':' && c[i + 1] == ':' {
            return true;
        }
        i = i + 1;
    }
    false
}

fn prefix_id(prefix: &str, id: &String) -> (res: String)
    ensures
        res@ == prefixed(prefix@, id@),
{
    concat3(prefix, ".", id.as_str())
}

impl Value {
    /// Places the value in the module `prefix`.
    pub fn add_symbol_prefix(&mut self, prefix: &str)
        ensures
            final(self)@ == value_with_prefix(old(self)@, prefix@),
    {
        match self {
            Value::Symbol(id) => {
                if !contains_path_sep(id.as_str()) {
                    *id = prefix_id(prefix, id);
                }
            },
            _ => {},
        }
    }
}

fn prefix_params(params: &mut Vec<(Type, String)>, prefix: &str)
    ensures
        params_view(final(params)@) == params_view(old(params)@).map_values(
            |p: (Type, Seq<char>)| (p.0, prefixed(prefix@, p.1)),
        ),
{
    let ghost orig = params_view(params@);
    let mut i: usize = 0;
    while i < params.len()
        invariant
            i <= params.len(),
            params.len() == orig.len(),
            forall|j: int| 0 <= j < i ==> #[trigger] params@[j].0 == orig[j].0 && params@[j].1@ == prefixed(prefix@, orig[j].1),
            forall|j: int| i <= j < params.len() ==> #[trigger] params@[j].0 == orig[j].0 && params@[j].1@ == orig[j].1,
        decreases params.len() - i,
    {
        let t = params[i].0.clone();
        let n = prefix_id(prefix, &params[i].1);
        params.set(i, (t, n));
        i = i + 1;
    }
    assert(params_view(params@) =~= orig.map_values(|p: (Type, Seq<char>)| (p.0, prefixed(prefix@, p.1))));
}

fn prefix_values(vals: &mut Vec<Value>, prefix: &str)
    ensures
        values_view(final(vals)@) == values_view(old(vals)@).map_values(|a: ValueV| value_with_prefix(a, prefix@)),
{
    let ghost orig = values_view(vals@);
    let mut i: usize = 0;
    while i < vals.len()
        invariant
            i <= vals.len(),
            vals.len() == orig.len(),
            forall|j: int| 0 <= j < i ==> (#[trigger] vals@[j])@ == value_with_prefix(orig[j], prefix@),
            forall|j: int| i <= j < vals.len() ==> (#[trigger] vals@[j])@ == orig[j],
        decreases vals.len() - i,
    {
        let mut v = vals[i].clone();
        v.add_symbol_prefix(prefix);
        vals.set(i, v);
        i = i + 1;
    }
    assert(values_view(vals@) =~= orig.map_values(|a: ValueV| value_with_prefix(a, prefix@)));
}

impl Instruction {
    /// Places the instruction in the module `prefix`.
    pub fn add_module_prefix(&mut self, prefix: &str)
        ensures
            final(self)@ == (InstV { kind: kind_with_prefix(old(self)@.kind, prefix@), line: old(self)@.line }),
    {
        match &mut self.kind {
            InstructionKind::Import { .. } => {},
            InstructionKind::Decl { id, value, .. } => {
                *id = prefix_id(prefix, id);
                value.add_symbol_prefix(prefix);
            },
            InstructionKind::Assign { id, value } => {
                *id = prefix_id(prefix, id);
                value.add_symbol_prefix(prefix);
            },
            InstructionKind::Fn { id, params, .. } => {
                *id = prefix_id(prefix, id);
                prefix_params(params, prefix);
            },
            InstructionKind::Ret { ret } => {
                ret.add_symbol_prefix(prefix);
            },
            InstructionKind::Call { op, id, args } => {
                *op = prefix_id(prefix, op);
                *id = prefix_id(prefix, id);
                prefix_values(args, prefix);
            },
            InstructionKind::Label { id } => {
                *id = prefix_id(prefix, id);
            },
            InstructionKind::Jump { cond, label } => {
                cond.add_symbol_prefix(prefix);
                *label = prefix_id(prefix, label);
            },
            InstructionKind::UnaryOp { id, val, .. } => {
                *id = prefix_id(prefix, id);
                val.add_symbol_prefix(prefix);
            },
            InstructionKind::BinaryOp { id, a, b, .. } => {
                *id = prefix_id(prefix, id);
                a.add_symbol_prefix(prefix);
                b.add_symbol_prefix(prefix);
            },
        }
    }
}


/// Placing an instruction in the module `p` puts `p.` before every name it
/// declares or jumps to: a function's name and each of its parameters'
/// names (their types and order kept), a declared or assigned name, both
/// names of a call, a label, a jump's target and an operation's result; an
/// import stays as it is. Every operand is placed too: a symbol without
/// `::` gets `p.` before it; any other operand stays as it is.
pub proof fn lemma_prefix_reaches_every_name(k: KindV, p: Seq<char>, v: ValueV)
    ensures
        match k {
            KindV::Import { .. } => kind_with_prefix(k, p) == k,
            KindV::Fn { ty, id, params } => match kind_with_prefix(k, p) {
                KindV::Fn { ty: t2, id: i2, params: q } => {
                    &&& t2 == ty
                    &&& i2 == p + seq!['.'] + id
                    &&& q.len() == params.len()
                    &&& forall|i: int| 0 <= i < params.len() ==> #[trigger] q[i] == (params[i].0, p + seq!['.'] + params[i].1)
                },
                _ => false,
            },
            KindV::Decl { ty, id, value } => kind_with_prefix(k, p) == KindV::Decl {
                ty,
                id: p + seq!['.'] + id,
                value: value_with_prefix(value, p),
            },
            KindV::Assign { id, value } => kind_with_prefix(k, p) == KindV::Assign {
                id: p + seq!['.'] + id,
                value: value_with_prefix(value, p),
            },
            KindV::Call { op, id, args } => kind_with_prefix(k, p) matches KindV::Call { op: o2, id: i2, args: a2 }
                && o2 == p + seq!['.'] + op && i2 == p + seq!['.'] + id && a2.len() == args.len()
                && forall|i: int| 0 <= i < args.len() ==> #[trigger] a2[i] == value_with_prefix(args[i], p),
            KindV::Label { id } => kind_with_prefix(k, p) == KindV::Label { id: p + seq!['.'] + id },
            KindV::Jump { cond, label } => kind_with_prefix(k, p) == KindV::Jump {
                cond: value_with_prefix(cond, p),
                label: p + seq!['.'] + label,
            },
            KindV::UnaryOp { op, id, val } => kind_with_prefix(k, p) == KindV::UnaryOp {
                op,
                id: p + seq!['.'] + id,
                val: value_with_prefix(val, p),
            },
            KindV::BinaryOp { op, id, a, b } => kind_with_prefix(k, p) == KindV::BinaryOp {
                op,
                id: p + seq!['.'] + id,
                a: value_with_prefix(a, p),
                b: value_with_prefix(b, p),
            },
            KindV::Ret { ret } => kind_with_prefix(k, p) == KindV::Ret { ret: value_with_prefix(ret, p) },
        },
        match v {
            ValueV::Symbol(s) => value_with_prefix(v, p) == if has_path_sep(s) { v } else { ValueV::Symbol(p + seq!['.'] + s) },
            _ => value_with_prefix(v, p) == v,
        },
{
    reveal_strlit(".");
    assert("."@ == seq!['.']);
    match k {
        KindV::Fn { ty, id, params } => {
            let q = params.map_values(|x: (Type, Seq<char>)| (x.0, prefixed(p, x.1)));
            assert forall|i: int| 0 <= i < params.len() implies #[trigger] q[i] == (params[i].0, p + seq!['.'] + params[i].1) by {}
        },
        _ => {},
    }
}

} // verus!
