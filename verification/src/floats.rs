//! Floating-point literals: the parser keeps their text; their precision
//! and bit pattern are given afterwards, from a table keyed by the text.

use vstd::prelude::*;
use crate::ast::{Value, ValueV, InstructionKind, Instruction, KindV, InstV, insts_view, values_view};
use crate::strmap::StrMap;
use crate::symbol::strs_view;

verus! {

/// The floating-point literal texts in a value.
pub open spec fn value_floats(v: ValueV) -> Seq<Seq<char>> {
    match v {
        ValueV::FloatLiteral(t) => seq![t],
        _ => Seq::empty(),
    }
}

/// The floating-point literal texts in a list of values, in order.
pub open spec fn values_floats(vs: Seq<ValueV>) -> Seq<Seq<char>>
    decreases vs.len(),
{
    if vs.len() == 0 {
        Seq::empty()
    } else {
        values_floats(vs.drop_last()) + value_floats(vs.last())
    }
}

/// The floating-point literal texts in an instruction, in operand order.
pub open spec fn kind_floats(k: KindV) -> Seq<Seq<char>> {
    match k {
        KindV::Decl { value, .. } => value_floats(value),
        KindV::Assign { value, .. } => value_floats(value),
        KindV::Ret { ret } => value_floats(ret),
        KindV::Call { args, .. } => values_floats(args),
        KindV::Jump { cond, .. } => value_floats(cond),
        KindV::UnaryOp { val, .. } => value_floats(val),
        KindV::BinaryOp { a, b, .. } => value_floats(a) + value_floats(b),
        _ => Seq::empty(),
    }
}

/// The floating-point literal texts in a program, in order.
pub open spec fn program_floats(p: Seq<InstV>) -> Seq<Seq<char>>
    decreases p.len(),
{
    if p.len() == 0 {
        Seq::empty()
    } else {
        program_floats(p.drop_last()) + kind_floats(p.last().kind)
    }
}

/// A value with a floating-point literal replaced by the table's entry for
/// its text, where there is one.
pub open spec fn value_resolved(v: ValueV, t: Map<Seq<char>, ValueV>) -> ValueV {
    match v {
        ValueV::FloatLiteral(s) => if t.dom().contains(s) { t[s] } else { v },
        _ => v,
    }
}

/// An instruction with each of its operands resolved.
pub open spec fn kind_resolved(k: KindV, t: Map<Seq<char>, ValueV>) -> KindV {
    match k {
        KindV::Decl { ty, id, value } => KindV::Decl { ty, id, value: value_resolved(value, t) },
        KindV::Assign { id, value } => KindV::Assign { id, value: value_resolved(value, t) },
        KindV::Ret { ret } => KindV::Ret { ret: value_resolved(ret, t) },
        KindV::Call { op, id, args } => KindV::Call { op, id, args: args.map_values(|a: ValueV| value_resolved(a, t)) },
        KindV::Jump { cond, label } => KindV::Jump { cond: value_resolved(cond, t), label },
        KindV::UnaryOp { op, id, val } => KindV::UnaryOp { op, id, val: value_resolved(val, t) },
        KindV::BinaryOp { op, id, a, b } => KindV::BinaryOp { op, id, a: value_resolved(a, t), b: value_resolved(b, t) },
        _ => k,
    }
}

fn push_value_floats(out: &mut Vec<String>, v: &Value)
    ensures
        strs_view(final(out)@) == strs_view(old(out)@) + value_floats(v@),
{
    let ghost o = strs_view(out@);
    match v {
        Value::FloatLiteral(t) => {
            out.push(t.clone());
            assert(strs_view(out@) =~= o + value_floats(v@));
        },
        _ => {
            assert(strs_view(out@) =~= o + value_floats(v@));
        },
    }
}

/// The texts of the floating-point literals in `program`, in order.
pub fn float_literal_texts(program: &Vec<Instruction>) -> (texts: Vec<String>)
    ensures
        strs_view(texts@) == program_floats(insts_view(program@)),
{
    let ghost p = insts_view(program@);
    let mut out: Vec<String> = Vec::new();
    let mut i: usize = 0;
    assert(strs_view(out@) =~= program_floats(p.subrange(0, 0)));
    while i < program.len()
        invariant
            i <= program.len(),
            p == insts_view(program@),
            strs_view(out@) == program_floats(p.subrange(0, i as int)),
        decreases program.len() - i,
    {
        let ghost before = strs_view(out@);
        let inst = &program[i];
        match &inst.kind {
            InstructionKind::Decl { value, .. } => push_value_floats(&mut out, value),
            InstructionKind::Assign { value, .. } => push_value_floats(&mut out, value),
            InstructionKind::Ret { ret } => push_value_floats(&mut out, ret),
            InstructionKind::Call { args, .. } => {
                let ghost av = values_view(args@);
                let mut j: usize = 0;
                assert(av.subrange(0, 0) =~= Seq::<ValueV>::empty());
                assert(strs_view(out@) =~= before + values_floats(av.subrange(0, 0)));
                while j < args.len()
                    invariant
                        j <= args.len(),
                        av == values_view(args@),
                        strs_view(out@) == before + values_floats(av.subrange(0, j as int)),
                    decreases args.len() - j,
                {
                    push_value_floats(&mut out, &args[j]);
                    assert(av.subrange(0, j + 1).drop_last() =~= av.subrange(0, j as int));
                    assert(av.subrange(0, j + 1).last() == args@[j as int]@);
                    assert(strs_view(out@) =~= before + values_floats(av.subrange(0, j + 1)));
                    j = j + 1;
                }
                assert(av.subrange(0, args.len() as int) =~= av);
            },
            InstructionKind::Jump { cond, .. } => push_value_floats(&mut out, cond),
            InstructionKind::UnaryOp { val, .. } => push_value_floats(&mut out, val),
            InstructionKind::BinaryOp { a, b, .. } => {
                push_value_floats(&mut out, a);
                push_value_floats(&mut out, b);
                assert(strs_view(out@) =~= before + (value_floats(a@) + value_floats(b@)));
            },
            _ => {
                assert(strs_view(out@) =~= before + kind_floats(inst@.kind));
            },
        }
        assert(p.subrange(0, i + 1).drop_last() =~= p.subrange(0, i as int));
        assert(p.subrange(0, i + 1).last() == inst@);
        assert(strs_view(out@) =~= program_floats(p.subrange(0, i + 1)));
        i = i + 1;
    }
    assert(p.subrange(0, program.len() as int) =~= p);
    out
}

impl Value {
    /// Replaces a floating-point literal by the table's entry for its text.
    pub fn resolve_float(&mut self, table: &StrMap<Value>)
        requires
            table.wf(),
        ensures
            final(self)@ == value_resolved(old(self)@, table@),
    {
        let found = match self {
            Value::FloatLiteral(t) => match table.get(t) {
                Some(v) => Some(v.clone()),
                None => None,
            },
            _ => None,
        };
        match found {
            Some(v) => {
                *self = v;
            },
            None => {},
        }
    }
}

impl Instruction {
    /// Resolves the floating-point literals among the operands.
    pub fn resolve_floats(&mut self, table: &StrMap<Value>)
        requires
            table.wf(),
        ensures
            final(self)@ == (InstV { kind: kind_resolved(old(self)@.kind, table@), line: old(self)@.line }),
    {
        match &mut self.kind {
            InstructionKind::Decl { value, .. } => value.resolve_float(table),
            InstructionKind::Assign { value, .. } => value.resolve_float(table),
            InstructionKind::Ret { ret } => ret.resolve_float(table),
            InstructionKind::Call { args, .. } => {
                let ghost orig = values_view(args@);
                let mut j: usize = 0;
                while j < args.len()
                    invariant
                        table.wf(),
                        j <= args.len(),
                        args.len() == orig.len(),
                        forall|k: int| 0 <= k < j ==> (#[trigger] args@[k])@ == value_resolved(orig[k], table@),
                        forall|k: int| j <= k < args.len() ==> (#[trigger] args@[k])@ == orig[k],
                    decreases args.len() - j,
                {
                    let mut v = args[j].clone();
                    v.resolve_float(table);
                    args.set(j, v);
                    j = j + 1;
                }
                assert(values_view(args@) =~= orig.map_values(|a: ValueV| value_resolved(a, table@)));
            },
            InstructionKind::Jump { cond, .. } => cond.resolve_float(table),
            InstructionKind::UnaryOp { val, .. } => val.resolve_float(table),
            InstructionKind::BinaryOp { a, b, .. } => {
                a.resolve_float(table);
                b.resolve_float(table);
            },
            _ => {},
        }
    }
}

/// Resolves the floating-point literals of every instruction of `program`.
pub fn resolve_float_literals(program: &mut Vec<Instruction>, table: &StrMap<Value>)
    requires
        table.wf(),
    ensures
        insts_view(final(program)@) == insts_view(old(program)@).map_values(
            |i: InstV| InstV { kind: kind_resolved(i.kind, table@), line: i.line },
        ),
{
    let ghost orig = insts_view(program@);
    let mut i: usize = 0;
    while i < program.len()
        invariant
            table.wf(),
            i <= program.len(),
            program.len() == orig.len(),
            forall|k: int| 0 <= k < i ==> (#[trigger] program@[k])@ == (InstV { kind: kind_resolved(orig[k].kind, table@), line: orig[k].line }),
            forall|k: int| i <= k < program.len() ==> (#[trigger] program@[k])@ == orig[k],
        decreases program.len() - i,
    {
        let mut inst = Instruction { kind: InstructionKind::Label { id: String::new() }, line: 0 };
        program.set_and_swap(i, &mut inst);
        inst.resolve_floats(table);
        program.set(i, inst);
        i = i + 1;
    }
    assert(insts_view(program@) =~= orig.map_values(|i: InstV| InstV { kind: kind_resolved(i.kind, table@), line: i.line }));
}

/// Whether the table covers every text of `texts` with a value that is no
/// floating-point literal.
pub open spec fn table_covers(t: Map<Seq<char>, ValueV>, texts: Seq<Seq<char>>) -> bool {
    forall|i: int| 0 <= i < texts.len() ==> t.dom().contains(#[trigger] texts[i]) && !(t[texts[i]] is FloatLiteral)
}

proof fn lemma_covers_split(t: Map<Seq<char>, ValueV>, a: Seq<Seq<char>>, b: Seq<Seq<char>>)
    requires
        table_covers(t, a + b),
    ensures
        table_covers(t, a),
        table_covers(t, b),
{
    assert forall|i: int| 0 <= i < a.len() implies t.dom().contains(#[trigger] a[i]) && !(t[a[i]] is FloatLiteral) by {
        assert((a + b)[i] == a[i]);
    }
    assert forall|i: int| 0 <= i < b.len() implies t.dom().contains(#[trigger] b[i]) && !(t[b[i]] is FloatLiteral) by {
        assert((a + b)[a.len() + i] == b[i]);
    }
}

proof fn lemma_value_resolved_clean(v: ValueV, t: Map<Seq<char>, ValueV>)
    requires
        table_covers(t, value_floats(v)),
    ensures
        value_floats(value_resolved(v, t)) == Seq::<Seq<char>>::empty(),
{
    if let ValueV::FloatLiteral(s) = v {
        assert(value_floats(v)[0] == s);
    }
}

proof fn lemma_values_resolved_clean(vs: Seq<ValueV>, t: Map<Seq<char>, ValueV>)
    requires
        table_covers(t, values_floats(vs)),
    ensures
        values_floats(vs.map_values(|a: ValueV| value_resolved(a, t))) == Seq::<Seq<char>>::empty(),
    decreases vs.len(),
{
    if vs.len() > 0 {
        lemma_covers_split(t, values_floats(vs.drop_last()), value_floats(vs.last()));
        lemma_values_resolved_clean(vs.drop_last(), t);
        lemma_value_resolved_clean(vs.last(), t);
        let m = vs.map_values(|a: ValueV| value_resolved(a, t));
        assert(m.drop_last() =~= vs.drop_last().map_values(|a: ValueV| value_resolved(a, t)));
        assert(m.last() == value_resolved(vs.last(), t));
    }
}

proof fn lemma_kind_resolved_clean(k: KindV, t: Map<Seq<char>, ValueV>)
    requires
        table_covers(t, kind_floats(k)),
    ensures
        kind_floats(kind_resolved(k, t)) == Seq::<Seq<char>>::empty(),
{
    match k {
        KindV::Decl { value, .. } => lemma_value_resolved_clean(value, t),
        KindV::Assign { value, .. } => lemma_value_resolved_clean(value, t),
        KindV::Ret { ret } => lemma_value_resolved_clean(ret, t),
        KindV::Call { args, .. } => lemma_values_resolved_clean(args, t),
        KindV::Jump { cond, .. } => lemma_value_resolved_clean(cond, t),
        KindV::UnaryOp { val, .. } => lemma_value_resolved_clean(val, t),
        KindV::BinaryOp { a, b, .. } => {
            lemma_covers_split(t, value_floats(a), value_floats(b));
            lemma_value_resolved_clean(a, t);
            lemma_value_resolved_clean(b, t);
        },
        _ => {},
    }
}

/// Once every floating-point literal of a program is resolved, by a table
/// that gives each listed text a value that is no literal, no literal is
/// left: the program holds no value that the checker refuses for lack of
/// a precision.
pub proof fn lemma_resolving_listed_literals_leaves_none(p: Seq<InstV>, t: Map<Seq<char>, ValueV>)
    requires
        table_covers(t, program_floats(p)),
    ensures
        program_floats(p.map_values(|i: InstV| InstV { kind: kind_resolved(i.kind, t), line: i.line }))
            == Seq::<Seq<char>>::empty(),
    decreases p.len(),
{
    if p.len() > 0 {
        lemma_covers_split(t, program_floats(p.drop_last()), kind_floats(p.last().kind));
        lemma_resolving_listed_literals_leaves_none(p.drop_last(), t);
        lemma_kind_resolved_clean(p.last().kind, t);
        let m = p.map_values(|i: InstV| InstV { kind: kind_resolved(i.kind, t), line: i.line });
        assert(m.drop_last() =~= p.drop_last().map_values(|i: InstV| InstV { kind: kind_resolved(i.kind, t), line: i.line }));
        assert(m.last().kind == kind_resolved(p.last().kind, t));
    }
}

} // verus!
