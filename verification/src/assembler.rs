//! The AMD64 assembler: writes NASM text for declarations, after the
//! checker has given every symbol its type and stack slot.
//!
//! Declarations are the instructions it translates: a global one goes to
//! the data section, a local one becomes moves into its stack slot; strings
//! and wide or floating-point constants go to the read-only data section.

use vstd::prelude::*;
use crate::types::{Type, Size, spec_size, no_size_msg};
use crate::ast::{Value, ValueV, InstructionKind, Instruction, KindV, InstV, insts_view};
use crate::error::{Error, loc_error, loc_msg};
use crate::text::{dec_int, push_dec_i128, push_dec_u128};
use crate::strmap::StrMap;
use crate::symbol::Symbol;
use crate::checker_spec::{SymbolV, float_literal_msg};
use crate::checker::res_view;

verus! {

/// An entry of a data section: a name, its value and the line it came from.
pub type DataV = (Seq<char>, ValueV, nat);

/// The assembler's state.
pub struct AState {
    pub text: Seq<char>,
    pub data: Seq<DataV>,
    pub rodata: Seq<DataV>,
    pub string_count: nat,
    pub const_count: nat,
}

/// What assembling gives: the state, an error, or a stop on inputs the
/// assembler has no translation for (a name without a resolution or a
/// symbol, a symbol in a data section, or an instruction other than a
/// declaration or an import).
pub enum AsmOut {
    Done(AState),
    Fail(Seq<char>),
    Stuck,
}

/// `entries` with the entry for `key` set to `(value, line)`: in place if
/// the key is there, else at the end.
pub open spec fn data_insert(entries: Seq<DataV>, key: Seq<char>, value: ValueV, line: nat) -> Seq<DataV> {
    if exists|i: int| 0 <= i < entries.len() && entries[i].0 == key {
        let i = choose|i: int| 0 <= i < entries.len() && entries[i].0 == key;
        entries.update(i, (key, value, line))
    } else {
        entries.push((key, value, line))
    }
}

/// Whether no two entries share a name.
pub open spec fn names_distinct(entries: Seq<DataV>) -> bool {
    forall|i: int, j: int| 0 <= i < j < entries.len() ==> (#[trigger] entries[i]).0 != (#[trigger] entries[j]).0
}

/// The symbol that `id` resolves to for the instruction with resolutions `res`.
pub open spec fn sym_of(syms: Map<Seq<char>, SymbolV>, res: Map<Seq<char>, Seq<char>>, id: Seq<char>) -> Option<SymbolV> {
    if res.dom().contains(id) && syms.dom().contains(res[id]) {
        Some(syms[res[id]])
    } else {
        None
    }
}

/// The accumulator register of a given size.
pub open spec fn reg_of(s: Size) -> Seq<char> {
    match s {
        Size::B1 => "al"@,
        Size::B2 => "ax"@,
        Size::B4 => "eax"@,
        _ => "rax"@,
    }
}

/// `mov <size> [rbp - <off>], <v>`.
pub open spec fn store_imm(size: Seq<char>, off: int, v: int) -> Seq<char> {
    "\tmov "@ + size + " [rbp - "@ + dec_int(off) + "], "@ + dec_int(v) + "\n"@
}

/// Loads the address of `label` and stores it in the slot at `off`.
pub open spec fn store_addr(lea: Seq<char>, label: Seq<char>, off: int) -> Seq<char> {
    lea + label + "]\n\tmov qword [rbp - "@ + dec_int(off) + "], rax\n"@
}

pub open spec fn label_of(prefix: Seq<char>, n: nat) -> Seq<char> {
    prefix + dec_int(n as int)
}

/// The text that stores the local value `value` in the slot at `off`, and
/// the state after it.
pub open spec fn asm_local(st: AState, syms: Map<Seq<char>, SymbolV>, res: Map<Seq<char>, Seq<char>>,
    value: ValueV, off: int, line: nat) -> AsmOut
{
    match value {
        ValueV::Symbol(val_id) => match sym_of(syms, res, val_id) {
            None => AsmOut::Stuck,
            Some(vs) => match spec_size(vs.ty) {
                None => AsmOut::Fail(loc_msg(line, no_size_msg(vs.ty))),
                Some(sz) => AsmOut::Done(AState {
                    text: st.text + "\tmov "@ + reg_of(sz) + ", [rbp - "@ + dec_int(vs.stack_offset) + "]\n\tmov "@
                        + sz.spec_size_str() + " [rbp - "@ + dec_int(off) + "], "@ + reg_of(sz) + "\n"@,
                    ..st
                }),
            },
        },
        ValueV::Bool(b) => AsmOut::Done(AState { text: st.text + store_imm("byte"@, off, if b { 1 } else { 0 }), ..st }),
        ValueV::Str(_) => {
            let l = label_of("str_"@, st.string_count);
            AsmOut::Done(AState {
                text: st.text + store_addr("\tlea rax, [rel "@, l, off),
                rodata: data_insert(st.rodata, l, value, line),
                string_count: st.string_count + 1,
                ..st
            })
        },
        ValueV::UInt8(v) => AsmOut::Done(AState { text: st.text + store_imm("byte"@, off, v as int), ..st }),
        ValueV::UInt16(v) => AsmOut::Done(AState { text: st.text + store_imm("word"@, off, v as int), ..st }),
        ValueV::UInt32(v) => AsmOut::Done(AState { text: st.text + store_imm("dword"@, off, v as int), ..st }),
        ValueV::UInt64(v) => AsmOut::Done(AState { text: st.text + store_imm("qword"@, off, v as int), ..st }),
        ValueV::Int8(v) => AsmOut::Done(AState { text: st.text + store_imm("byte"@, off, v as int), ..st }),
        ValueV::Int16(v) => AsmOut::Done(AState { text: st.text + store_imm("word"@, off, v as int), ..st }),
        ValueV::Int32(v) => AsmOut::Done(AState { text: st.text + store_imm("dword"@, off, v as int), ..st }),
        ValueV::Int64(v) => AsmOut::Done(AState { text: st.text + store_imm("qword"@, off, v as int), ..st }),
        ValueV::UInt128(_) => {
            let l = label_of("u128_"@, st.const_count);
            AsmOut::Done(AState {
                text: st.text + store_addr("\tlea rax [rel "@, l, off),
                rodata: data_insert(st.rodata, l, value, line),
                const_count: st.const_count + 1,
                ..st
            })
        },
        ValueV::Int128(_) => {
            let l = label_of("i128_"@, st.const_count);
            AsmOut::Done(AState {
                text: st.text + store_addr("\tlea rax [rel "@, l, off),
                rodata: data_insert(st.rodata, l, value, line),
                const_count: st.const_count + 1,
                ..st
            })
        },
        ValueV::Float32(..) => {
            let l = label_of("f32_"@, st.const_count);
            AsmOut::Done(AState {
                text: st.text + "\tmovss xmm0, [rel "@ + l + "]\n\tmovss dword [rbp - "@ + dec_int(off) + "], xmm0\n"@,
                rodata: data_insert(st.rodata, l, value, line),
                const_count: st.const_count + 1,
                ..st
            })
        },
        ValueV::Float64(..) => {
            let l = label_of("f64_"@, st.const_count);
            AsmOut::Done(AState {
                text: st.text + "\tmovsd xmm0, [rel "@ + l + "]\n\tmovsd qword [rbp - "@ + dec_int(off) + "], xmm0\n"@,
                rodata: data_insert(st.rodata, l, value, line),
                const_count: st.const_count + 1,
                ..st
            })
        },
        ValueV::FloatLiteral(_) => AsmOut::Fail(loc_msg(line, float_literal_msg())),
    }
}

/// A declaration: a global symbol's value goes to the data section, a
/// local one is stored in the symbol's slot.
pub open spec fn asm_decl(st: AState, syms: Map<Seq<char>, SymbolV>, res: Map<Seq<char>, Seq<char>>,
    id: Seq<char>, value: ValueV, line: nat) -> AsmOut
{
    if value is FloatLiteral {
        AsmOut::Fail(loc_msg(line, float_literal_msg()))
    } else {
        match sym_of(syms, res, id) {
            None => AsmOut::Stuck,
            Some(sym) => if sym.is_global {
                AsmOut::Done(AState { data: data_insert(st.data, sym.id, value, line), ..st })
            } else {
                asm_local(st, syms, res, value, sym.stack_offset, line)
            },
        }
    }
}

pub open spec fn asm_inst(st: AState, syms: Map<Seq<char>, SymbolV>, res: Map<Seq<char>, Seq<char>>, inst: InstV) -> AsmOut {
    match inst.kind {
        KindV::Import { .. } => AsmOut::Fail(loc_msg(inst.line, "Imports should not be passed to the assembler"@)),
        KindV::Decl { id, value, .. } => asm_decl(st, syms, res, id, value, inst.line),
        _ => AsmOut::Stuck,
    }
}

/// The instructions from index `i` on.
pub open spec fn asm_from(st: AState, syms: Map<Seq<char>, SymbolV>, res: Seq<Map<Seq<char>, Seq<char>>>,
    prog: Seq<InstV>, i: int) -> AsmOut
    decreases prog.len() - i,
{
    if i >= prog.len() || i < 0 {
        AsmOut::Done(st)
    } else if i >= res.len() {
        AsmOut::Stuck
    } else {
        match asm_inst(st, syms, res[i], prog[i]) {
            AsmOut::Done(st2) => asm_from(st2, syms, res, prog, i + 1),
            other => other,
        }
    }
}

/// The size of a data-section value (for a symbol, none: a data section
/// is written after the last instruction, where no name has a resolution).
/// Booleans and 8-bit integers take eight bytes there.
pub open spec fn val_size(v: ValueV) -> Option<Size> {
    match v {
        ValueV::Symbol(_) => None,
        ValueV::Bool(_) | ValueV::UInt8(_) | ValueV::Int8(_) => Some(Size::B8),
        ValueV::UInt16(_) | ValueV::Int16(_) => Some(Size::B2),
        ValueV::UInt32(_) | ValueV::Int32(_) | ValueV::Float32(..) => Some(Size::B4),
        ValueV::UInt64(_) | ValueV::Int64(_) | ValueV::Float64(..) | ValueV::FloatLiteral(_) => Some(Size::B8),
        ValueV::UInt128(_) | ValueV::Int128(_) | ValueV::Str(_) => Some(Size::B16),
    }
}

/// The directive for a data-section value.
pub open spec fn val_directive(v: ValueV) -> Option<Seq<char>> {
    match val_size(v) {
        Some(sz) => Some(sz.spec_directive()),
        None => None,
    }
}

/// The text of a data-section value.
pub open spec fn val_text(v: ValueV) -> Seq<char> {
    match v {
        ValueV::Symbol(s) => s,
        ValueV::Bool(b) => dec_int(if b { 1 } else { 0 }),
        ValueV::Str(s) => s,
        ValueV::UInt8(x) => dec_int(x as int),
        ValueV::UInt16(x) => dec_int(x as int),
        ValueV::UInt32(x) => dec_int(x as int),
        ValueV::UInt64(x) => dec_int(x as int),
        ValueV::UInt128(x) => dec_int(x as int),
        ValueV::Int8(x) => dec_int(x as int),
        ValueV::Int16(x) => dec_int(x as int),
        ValueV::Int32(x) => dec_int(x as int),
        ValueV::Int64(x) => dec_int(x as int),
        ValueV::Int128(x) => dec_int(x as int),
        ValueV::Float32(_, t) => t,
        ValueV::Float64(_, t) => t,
        ValueV::FloatLiteral(t) => t,
    }
}

/// The lines `\t<name>: <directive> <value>` of the entries from index `i`
/// on, or none if an entry holds a symbol.
pub open spec fn section_lines(entries: Seq<DataV>, i: int) -> Option<Seq<char>>
    decreases entries.len() - i,
{
    if i >= entries.len() || i < 0 {
        Some(Seq::empty())
    } else {
        match (val_directive(entries[i].1), section_lines(entries, i + 1)) {
            (Some(d), Some(rest)) => Some("\t"@ + entries[i].0 + ": "@ + d + " "@ + val_text(entries[i].1) + "\n"@ + rest),
            _ => None,
        }
    }
}

/// The assembly text for a checked program: the text section, then the
/// data section, then the read-only data section.
pub open spec fn spec_assemble(syms: Map<Seq<char>, SymbolV>, res: Seq<Map<Seq<char>, Seq<char>>>, prog: Seq<InstV>) -> AsmOut {
    let st0 = AState { text: "section .text\n"@, data: Seq::empty(), rodata: Seq::empty(), string_count: 0, const_count: 0 };
    match asm_from(st0, syms, res, prog, 0) {
        AsmOut::Done(st) => match (section_lines(st.data, 0), section_lines(st.rodata, 0)) {
            (Some(d), Some(r)) => AsmOut::Done(AState {
                text: st.text + "section .data\n"@ + d + "section .rodata\n"@ + r,
                ..st
            }),
            _ => AsmOut::Stuck,
        },
        other => other,
    }
}

} // verus!

verus! {

/// What running the assembler gives: text, an error, or a stop where the
/// inputs leave it nothing to do (see [`AsmOut::Stuck`]).
#[derive(Debug)]
pub enum Outcome<T> {
    Done(T),
    Failed(Error),
    Stuck,
}

pub open spec fn data_view(v: Seq<(String, Value, usize)>) -> Seq<DataV> {
    v.map_values(|e: (String, Value, usize)| (e.0@, e.1@, e.2 as nat))
}

/// Writes NASM text for a checked program.
pub struct AssemblerAMD64<'a> {
    program: &'a Vec<Instruction>,
    symbols: &'a StrMap<Symbol>,
    resolutions: &'a Vec<StrMap<String>>,
    inst_index: usize,
    data: Vec<(String, Value, usize)>,
    rodata: Vec<(String, Value, usize)>,
    string_count: usize,
    const_count: usize,
    assembly_output: String,
}

fn data_insert_exec(entries: &mut Vec<(String, Value, usize)>, key: String, value: Value, line: usize)
    requires
        names_distinct(data_view(old(entries)@)),
    ensures
        names_distinct(data_view(final(entries)@)),
        data_view(final(entries)@) == data_insert(data_view(old(entries)@), key@, value@, line as nat),
{
    let ghost dv = data_view(entries@);
    let mut i: usize = 0;
    while i < entries.len()
        invariant
            i <= entries.len(),
            dv == data_view(entries@),
            entries@ == old(entries)@,
            names_distinct(dv),
            forall|j: int| 0 <= j < i ==> dv[j].0 != key@,
        decreases entries.len() - i,
    {
        if entries[i].0 == key {
            assert(dv[i as int].0 == key@);
            let ghost k = key@;
            entries.set(i, (key, value, line));
            proof {
                assert(0 <= i < dv.len() && dv[i as int].0 == k);
                assert(exists|j: int| 0 <= j < dv.len() && dv[j].0 == k);
                let c = choose|c: int| 0 <= c < dv.len() && dv[c].0 == k;
                assert(c == i) by {
                    if c != i {
                        if c < i {
                            assert(dv[c].0 != dv[i as int].0);
                        } else {
                            assert(dv[i as int].0 != dv[c].0);
                        }
                    }
                }
                assert(data_view(entries@) =~= dv.update(i as int, (k, value@, line as nat)));
                let u = data_view(entries@);
                assert forall|a: int, b: int| 0 <= a < b < u.len() implies (#[trigger] u[a]).0 != (#[trigger] u[b]).0 by {
                    assert(u[a].0 == dv[a].0 && u[b].0 == dv[b].0);
                }
            }
            return;
        }
        i = i + 1;
    }
    let ghost k = key@;
    entries.push((key, value, line));
    assert(data_view(entries@) =~= dv.push((k, value@, line as nat)));
    proof {
        let u = data_view(entries@);
        assert forall|a: int, b: int| 0 <= a < b < u.len() implies (#[trigger] u[a]).0 != (#[trigger] u[b]).0 by {
            if b < dv.len() {
                assert(u[a] == dv[a] && u[b] == dv[b]);
            } else {
                assert(u[a] == dv[a]);
            }
        }
    }
}

fn append_dec(s: &mut String, n: i128)
    ensures
        final(s)@ == old(s)@ + dec_int(n as int),
{
    push_dec_i128(s, n);
}

fn append_store_imm(s: &mut String, size: &str, off: i32, v: i128)
    ensures
        final(s)@ == old(s)@ + store_imm(size@, off as int, v as int),
{
    let ghost s0 = s@;
    s.append("\tmov ");
    s.append(size);
    s.append(" [rbp - ");
    append_dec(s, off as i128);
    s.append("], ");
    append_dec(s, v);
    s.append("\n");
    assert(s@ =~= s0 + store_imm(size@, off as int, v as int));
}

fn append_store_addr(s: &mut String, lea: &str, label: &String, off: i32)
    ensures
        final(s)@ == old(s)@ + store_addr(lea@, label@, off as int),
{
    let ghost s0 = s@;
    s.append(lea);
    s.append(label.as_str());
    s.append("]\n\tmov qword [rbp - ");
    append_dec(s, off as i128);
    s.append("], rax\n");
    assert(s@ =~= s0 + store_addr(lea@, label@, off as int));
}

fn label_with(prefix: &str, n: usize) -> (l: String)
    ensures
        l@ == label_of(prefix@, n as nat),
{
    let mut l = String::from_str(prefix);
    append_dec(&mut l, n as i128);
    l
}

fn reg_str(s: Size) -> (r: &'static str)
    ensures
        r@ == reg_of(s),
{
    match s {
        Size::B1 => "al",
        Size::B2 => "ax",
        Size::B4 => "eax",
        _ => "rax",
    }
}

impl<'a> View for AssemblerAMD64<'a> {
    type V = AState;

    closed spec fn view(&self) -> AState {
        AState {
            text: self.assembly_output@,
            data: data_view(self.data@),
            rodata: data_view(self.rodata@),
            string_count: self.string_count as nat,
            const_count: self.const_count as nat,
        }
    }
}

impl<'a> AssemblerAMD64<'a> {
    pub closed spec fn syms(&self) -> Map<Seq<char>, SymbolV> {
        self.symbols@
    }

    pub closed spec fn res(&self) -> Seq<Map<Seq<char>, Seq<char>>> {
        res_view(self.resolutions@)
    }

    pub closed spec fn prog(&self) -> Seq<InstV> {
        insts_view(self.program@)
    }

    pub closed spec fn wf(&self) -> bool {
        &&& self.symbols.wf()
        &&& forall|i: int| 0 <= i < self.resolutions@.len() ==> (#[trigger] self.resolutions@[i]).wf()
        &&& names_distinct(data_view(self.data@))
        &&& names_distinct(data_view(self.rodata@))
    }

    /// An assembler for `program`, checked with the result `symbols` and
    /// `resolutions`.
    pub fn new(program: &'a Vec<Instruction>, symbols: &'a StrMap<Symbol>, resolutions: &'a Vec<StrMap<String>>) -> (a: Self)
        requires
            symbols.wf(),
            forall|i: int| 0 <= i < resolutions@.len() ==> (#[trigger] resolutions@[i]).wf(),
        ensures
            a.wf(),
            a.syms() == symbols@,
            a.res() == res_view(resolutions@),
            a.prog() == insts_view(program@),
            a@ == (AState { text: Seq::empty(), data: Seq::empty(), rodata: Seq::empty(), string_count: 0, const_count: 0 }),
    {
        let a = AssemblerAMD64 {
            program,
            symbols,
            resolutions,
            inst_index: 0,
            data: Vec::new(),
            rodata: Vec::new(),
            string_count: 0,
            const_count: 0,
            assembly_output: String::new(),
        };
        assert(data_view(a.data@) =~= Seq::empty());
        assert(data_view(a.rodata@) =~= Seq::empty());
        a
    }

    /// The symbol that `id` resolves to for the current instruction.
    fn resolve_sym(&self, id: &String) -> (s: Option<&Symbol>)
        requires
            self.wf(),
            self.inst_index < self.resolutions@.len(),
        ensures
            match s {
                Some(sym) => sym_of(self.syms(), self.res()[self.inst_index as int], id@) == Some(sym@),
                None => sym_of(self.syms(), self.res()[self.inst_index as int], id@) is None,
            },
    {
        let res = &self.resolutions[self.inst_index];
        assert(res@ == self.res()[self.inst_index as int]);
        match res.get(id) {
            None => None,
            Some(r) => self.symbols.get(r),
        }
    }
}

} // verus!

verus! {

fn append_val_text(s: &mut String, v: &Value)
    ensures
        final(s)@ == old(s)@ + val_text(v@),
{
    match v {
        Value::Symbol(x) => s.append(x.as_str()),
        Value::Bool(b) => append_dec(s, if *b { 1 } else { 0 }),
        Value::String(x) => s.append(x.as_str()),
        Value::UInt8(x) => append_dec(s, *x as i128),
        Value::UInt16(x) => append_dec(s, *x as i128),
        Value::UInt32(x) => append_dec(s, *x as i128),
        Value::UInt64(x) => append_dec(s, *x as i128),
        Value::UInt128(x) => {
            push_dec_u128(s, *x);
            assert(dec_int(*x as int) == crate::text::dec_nat(*x as nat));
        },
        Value::Int8(x) => append_dec(s, *x as i128),
        Value::Int16(x) => append_dec(s, *x as i128),
        Value::Int32(x) => append_dec(s, *x as i128),
        Value::Int64(x) => append_dec(s, *x as i128),
        Value::Int128(x) => append_dec(s, *x),
        Value::Float32(_, t) => s.append(t.as_str()),
        Value::Float64(_, t) => s.append(t.as_str()),
        Value::FloatLiteral(t) => s.append(t.as_str()),
    }
}

/// The size of a data-section value.
fn get_val_size(v: &Value) -> (sz: Option<Size>)
    ensures
        sz == val_size(v@),
{
    match v {
        Value::Symbol(_) => None,
        Value::Bool(_) | Value::UInt8(_) | Value::Int8(_) => Some(Size::B8),
        Value::UInt16(_) | Value::Int16(_) => Some(Size::B2),
        Value::UInt32(_) | Value::Int32(_) | Value::Float32(..) => Some(Size::B4),
        Value::UInt64(_) | Value::Int64(_) | Value::Float64(..) | Value::FloatLiteral(_) => Some(Size::B8),
        Value::UInt128(_) | Value::Int128(_) | Value::String(_) => Some(Size::B16),
    }
}

/// Whether every entry can be written (none holds a symbol).
fn section_ok(entries: &Vec<(String, Value, usize)>) -> (b: bool)
    ensures
        b == section_lines(data_view(entries@), 0) is Some,
{
    let ghost dv = data_view(entries@);
    let mut i: usize = 0;
    while i < entries.len()
        invariant
            i <= entries.len(),
            dv == data_view(entries@),
            forall|j: int| 0 <= j < i ==> !(#[trigger] dv[j].1 is Symbol),
        decreases entries.len() - i,
    {
        assert(dv[i as int].1 == entries@[i as int].1@);
        if matches!(entries[i].1, Value::Symbol(_)) {
            proof {
                lemma_section_some_iff(dv, 0);
            }
            return false;
        }
        i = i + 1;
    }
    proof {
        lemma_section_some_iff(dv, 0);
    }
    true
}

/// The entries from `k` on can be written exactly when none of them holds
/// a symbol.
pub proof fn lemma_section_some_iff(dv: Seq<DataV>, k: int)
    requires
        0 <= k <= dv.len(),
    ensures
        section_lines(dv, k) is Some <==> forall|j: int| k <= j < dv.len() ==> !(#[trigger] dv[j].1 is Symbol),
    decreases dv.len() - k,
{
    if k < dv.len() {
        lemma_section_some_iff(dv, k + 1);
        assert(val_directive(dv[k].1) is None <==> dv[k].1 is Symbol);
        if section_lines(dv, k) is Some {
            assert forall|j: int| k <= j < dv.len() implies !(#[trigger] dv[j].1 is Symbol) by {
                if j > k {
                    assert(k + 1 <= j);
                }
            }
        }
    }
}

/// Appends the lines of a data section.
fn write_section(s: &mut String, entries: &Vec<(String, Value, usize)>)
    requires
        section_lines(data_view(entries@), 0) is Some,
    ensures
        final(s)@ == old(s)@ + section_lines(data_view(entries@), 0).unwrap(),
{
    let ghost dv = data_view(entries@);
    let ghost s0 = s@;
    let mut i: usize = 0;
    while i < entries.len()
        invariant
            i <= entries.len(),
            dv == data_view(entries@),
            section_lines(dv, 0) is Some,
            section_lines(dv, i as int) is Some,
            s@ + section_lines(dv, i as int).unwrap() == s0 + section_lines(dv, 0).unwrap(),
        decreases entries.len() - i,
    {
        let ghost before = s@;
        let e = &entries[i];
        assert(dv[i as int] == (e.0@, e.1@, e.2 as nat));
        let d = match get_val_size(&e.1) {
            Some(sz) => sz.get_directive(),
            None => unreached(),
        };
        s.append("\t");
        s.append(e.0.as_str());
        s.append(": ");
        s.append(d);
        s.append(" ");
        append_val_text(s, &e.1);
        s.append("\n");
        let ghost line = "\t"@ + e.0@ + ": "@ + d@ + " "@ + val_text(e.1@) + "\n"@;
        assert(s@ =~= before + line);
        assert(section_lines(dv, i as int).unwrap() == line + section_lines(dv, i + 1).unwrap());
        assert(s@ + section_lines(dv, i + 1).unwrap() =~= before + section_lines(dv, i as int).unwrap());
        i = i + 1;
    }
    assert(section_lines(dv, i as int).unwrap() =~= Seq::<char>::empty());
    assert(s@ =~= s@ + section_lines(dv, i as int).unwrap());
}

impl<'a> AssemblerAMD64<'a> {
    fn assemble_decl(&mut self, line: usize, id: &String, value: &Value) -> (res: Outcome<()>)
        requires
            old(self).wf(),
            old(self).inst_index < old(self).resolutions@.len(),
            old(self).string_count < usize::MAX,
            old(self).const_count < usize::MAX,
        ensures
            final(self).wf(),
            match asm_decl(old(self)@, old(self).syms(), old(self).res()[old(self).inst_index as int], id@, value@, line as nat) {
                AsmOut::Done(st) => res is Done && final(self)@ == st,
                AsmOut::Fail(m) => res matches Outcome::Failed(e) && e@ == m,
                AsmOut::Stuck => res is Stuck,
            },
            final(self).string_count <= old(self).string_count + 1,
            final(self).const_count <= old(self).const_count + 1,
            final(self).inst_index == old(self).inst_index,
            final(self).program == old(self).program,
            final(self).symbols == old(self).symbols,
            final(self).resolutions == old(self).resolutions,
    {
        if matches!(value, Value::FloatLiteral(_)) {
            return Outcome::Failed(Error::Custom(Self::float_literal_message(line)));
        }
        let sc = self.string_count;
        let cc = self.const_count;
        let (sym_id, off, global) = match self.resolve_sym(id) {
            Some(sym) => (sym.id.clone(), sym.stack_offset, sym.is_global),
            None => return Outcome::Stuck,
        };
        if global {
            data_insert_exec(&mut self.data, sym_id, value.clone(), line);
            return Outcome::Done(());
        }
        let ghost t0 = self.assembly_output@;
        match value {
            Value::Symbol(val_id) => {
                let (vty, voff) = match self.resolve_sym(val_id) {
                    Some(vs) => (vs.ty.clone(), vs.stack_offset),
                    None => return Outcome::Stuck,
                };
                let size = match vty.size(line) {
                    Ok(sz) => sz,
                    Err(e) => return Outcome::Failed(e),
                };
                let reg = reg_str(size);
                let out = &mut self.assembly_output;
                out.append("\tmov ");
                out.append(reg);
                out.append(", [rbp - ");
                append_dec(out, voff as i128);
                out.append("]\n\tmov ");
                out.append(size.size_str());
                out.append(" [rbp - ");
                append_dec(out, off as i128);
                out.append("], ");
                out.append(reg);
                out.append("\n");
                assert(self.assembly_output@ =~= t0 + "\tmov "@ + reg_of(size) + ", [rbp - "@ + dec_int(voff as int) + "]\n\tmov "@
                    + size.spec_size_str() + " [rbp - "@ + dec_int(off as int) + "], "@ + reg_of(size) + "\n"@);
            },
            Value::Bool(b) => append_store_imm(&mut self.assembly_output, "byte", off, if *b { 1 } else { 0 }),
            Value::String(_) => {
                let l = label_with("str_", self.string_count);
                data_insert_exec(&mut self.rodata, l.clone(), value.clone(), line);
                append_store_addr(&mut self.assembly_output, "\tlea rax, [rel ", &l, off);
                self.string_count = sc + 1;
            },
            Value::UInt8(v) => append_store_imm(&mut self.assembly_output, "byte", off, *v as i128),
            Value::UInt16(v) => append_store_imm(&mut self.assembly_output, "word", off, *v as i128),
            Value::UInt32(v) => append_store_imm(&mut self.assembly_output, "dword", off, *v as i128),
            Value::UInt64(v) => append_store_imm(&mut self.assembly_output, "qword", off, *v as i128),
            Value::Int8(v) => append_store_imm(&mut self.assembly_output, "byte", off, *v as i128),
            Value::Int16(v) => append_store_imm(&mut self.assembly_output, "word", off, *v as i128),
            Value::Int32(v) => append_store_imm(&mut self.assembly_output, "dword", off, *v as i128),
            Value::Int64(v) => append_store_imm(&mut self.assembly_output, "qword", off, *v as i128),
            Value::UInt128(_) => {
                let l = label_with("u128_", self.const_count);
                data_insert_exec(&mut self.rodata, l.clone(), value.clone(), line);
                append_store_addr(&mut self.assembly_output, "\tlea rax [rel ", &l, off);
                self.const_count = cc + 1;
            },
            Value::Int128(_) => {
                let l = label_with("i128_", self.const_count);
                data_insert_exec(&mut self.rodata, l.clone(), value.clone(), line);
                append_store_addr(&mut self.assembly_output, "\tlea rax [rel ", &l, off);
                self.const_count = cc + 1;
            },
            Value::Float32(..) => {
                let l = label_with("f32_", self.const_count);
                data_insert_exec(&mut self.rodata, l.clone(), value.clone(), line);
                let out = &mut self.assembly_output;
                out.append("\tmovss xmm0, [rel ");
                out.append(l.as_str());
                out.append("]\n\tmovss dword [rbp - ");
                append_dec(out, off as i128);
                out.append("], xmm0\n");
                assert(self.assembly_output@ =~= t0 + "\tmovss xmm0, [rel "@ + l@ + "]\n\tmovss dword [rbp - "@ + dec_int(off as int) + "], xmm0\n"@);
                self.const_count = cc + 1;
            },
            Value::Float64(..) => {
                let l = label_with("f64_", self.const_count);
                data_insert_exec(&mut self.rodata, l.clone(), value.clone(), line);
                let out = &mut self.assembly_output;
                out.append("\tmovsd xmm0, [rel ");
                out.append(l.as_str());
                out.append("]\n\tmovsd qword [rbp - ");
                append_dec(out, off as i128);
                out.append("], xmm0\n");
                assert(self.assembly_output@ =~= t0 + "\tmovsd xmm0, [rel "@ + l@ + "]\n\tmovsd qword [rbp - "@ + dec_int(off as int) + "], xmm0\n"@);
                self.const_count = cc + 1;
            },
            Value::FloatLiteral(_) => {},
        }
        Outcome::Done(())
    }

    /// Assembles one instruction: an import is refused, a declaration is
    /// translated, and the assembler stops on any other instruction.
    fn assemble_inst(&mut self, inst: &Instruction) -> (res: Outcome<()>)
        requires
            old(self).wf(),
            old(self).inst_index < old(self).resolutions@.len(),
            old(self).string_count < usize::MAX,
            old(self).const_count < usize::MAX,
        ensures
            final(self).wf(),
            match asm_inst(old(self)@, old(self).syms(), old(self).res()[old(self).inst_index as int], inst@) {
                AsmOut::Done(st) => res is Done && final(self)@ == st,
                AsmOut::Fail(m) => res matches Outcome::Failed(e) && e@ == m,
                AsmOut::Stuck => res is Stuck,
            },
            final(self).string_count <= old(self).string_count + 1,
            final(self).const_count <= old(self).const_count + 1,
            final(self).inst_index == old(self).inst_index,
            final(self).program == old(self).program,
            final(self).symbols == old(self).symbols,
            final(self).resolutions == old(self).resolutions,
    {
        match &inst.kind {
            InstructionKind::Import { .. } => {
                match loc_error::<()>(inst.line, "Imports should not be passed to the assembler") {
                    Err(e) => Outcome::Failed(e),
                    Ok(_) => Outcome::Stuck,
                }
            },
            InstructionKind::Decl { id, value, .. } => self.assemble_decl(inst.line, id, value),
            _ => Outcome::Stuck,
        }
    }

    fn float_literal_message(line: usize) -> (m: String)
        ensures
            m@ == loc_msg(line as nat, float_literal_msg()),
    {
        match loc_error::<()>(line, "Floating-point literal without a precision") {
            Err(Error::Custom(m)) => m,
            Ok(_) => String::new(),
        }
    }

    /// Runs the assembler: the assembly text, the first error, or a stop
    /// on inputs that leave the assembler nothing to do.
    #[verifier::loop_isolation(false)]
    pub fn try_assemble(self) -> (res: Outcome<String>)
        requires
            self.wf(),
            self@ == (AState { text: Seq::empty(), data: Seq::empty(), rodata: Seq::empty(), string_count: 0, const_count: 0 }),
        ensures
            match spec_assemble(self.syms(), self.res(), self.prog()) {
                AsmOut::Done(st) => res matches Outcome::Done(s) && s@ == st.text,
                AsmOut::Fail(m) => res matches Outcome::Failed(e) && e@ == m,
                AsmOut::Stuck => res is Stuck,
            },
    {
        let mut a = self;
        a.assembly_output.append("section .text\n");
        let ghost st0 = a@;
        let ghost syms = a.syms();
        let ghost res = a.res();
        let ghost prog = a.prog();
        assert(st0.text == "section .text\n"@);
        let program = a.program;
        let mut i: usize = 0;
        a.inst_index = 0;
        while i < program.len()
            invariant
                a.wf(),
                a.program == program,
                a.inst_index == i,
                a.string_count <= i,
                a.const_count <= i,
                a.syms() == syms,
                a.res() == res,
                prog == insts_view(program@),
                i <= program.len(),
                asm_from(st0, syms, res, prog, 0) == asm_from(a@, syms, res, prog, i as int),
            decreases program.len() - i,
        {
            if i >= a.resolutions.len() {
                return Outcome::Stuck;
            }
            let inst = &program[i];
            assert(prog[i as int] == inst@);
            match a.assemble_inst(inst) {
                Outcome::Done(_) => {},
                Outcome::Failed(e) => return Outcome::Failed(e),
                Outcome::Stuck => return Outcome::Stuck,
            }
            i = i + 1;
            a.inst_index = i;
        }
        if !section_ok(&a.data) || !section_ok(&a.rodata) {
            return Outcome::Stuck;
        }
        a.assembly_output.append("section .data\n");
        write_section(&mut a.assembly_output, &a.data);
        a.assembly_output.append("section .rodata\n");
        write_section(&mut a.assembly_output, &a.rodata);
        Outcome::Done(a.assembly_output)
    }

    /// The assembly text for the program, or the first error.
    pub fn assemble(self) -> (res: Result<String, Error>)
        requires
            self.wf(),
            self@ == (AState { text: Seq::empty(), data: Seq::empty(), rodata: Seq::empty(), string_count: 0, const_count: 0 }),
            !(spec_assemble(self.syms(), self.res(), self.prog()) is Stuck),
        ensures
            match spec_assemble(self.syms(), self.res(), self.prog()) {
                AsmOut::Done(st) => res matches Ok(s) && s@ == st.text,
                AsmOut::Fail(m) => res matches Err(e) && e@ == m,
                AsmOut::Stuck => false,
            },
    {
        match self.try_assemble() {
            Outcome::Done(s) => Ok(s),
            Outcome::Failed(e) => Err(e),
            Outcome::Stuck => unreached(),
        }
    }
}

} // verus!
