//! What checking and assembling give together: a checked program of
//! declarations with constant values always assembles; and what assembling
//! keeps: one read-only entry for each label it gives out.

use vstd::prelude::*;
use crate::ast::{ValueV, KindV, InstV};
use crate::checker_spec::{SymbolV, spec_check};
use crate::checker_laws::{decl_checked, lemma_resolutions_have_symbols, constant_ty};
use crate::types::{Type, Size, spec_size};
use crate::assembler::{
    AState, AsmOut, DataV, data_insert, sym_of, asm_local, asm_decl, asm_inst, asm_from, section_lines,
    spec_assemble, lemma_section_some_iff, label_of, val_size, val_directive,
};
use crate::text::{dec_nat, digit_char};

verus! {

/// Whether every instruction of `prog` declares a symbol with a value that
/// names no other symbol.
pub open spec fn constant_decls(prog: Seq<InstV>) -> bool {
    forall|j: int| 0 <= j < prog.len() ==> ((#[trigger] prog[j]).kind matches KindV::Decl { value, .. }
        && !(value is Symbol))
}

/// Whether no entry of a data section holds a symbol.
pub open spec fn entries_constant(e: Seq<DataV>) -> bool {
    forall|k: int| 0 <= k < e.len() ==> !(#[trigger] e[k].1 is Symbol)
}

proof fn lemma_data_insert_constant(e: Seq<DataV>, key: Seq<char>, value: ValueV, line: nat)
    requires
        entries_constant(e),
        !(value is Symbol),
    ensures
        entries_constant(data_insert(e, key, value, line)),
{
    let d = data_insert(e, key, value, line);
    assert forall|k: int| 0 <= k < d.len() implies !(#[trigger] d[k].1 is Symbol) by {
        if k < e.len() && d[k] != (key, value, line) {
            assert(d[k] == e[k]);
        }
    }
}

/// A declaration with a constant value, whose name has a symbol, is
/// assembled, and leaves the data sections free of symbols.
proof fn lemma_asm_decl_done(st: AState, syms: Map<Seq<char>, SymbolV>, r: Map<Seq<char>, Seq<char>>,
    id: Seq<char>, value: ValueV, line: nat)
    requires
        entries_constant(st.data),
        entries_constant(st.rodata),
        !(value is Symbol),
        !(value is FloatLiteral),
        sym_of(syms, r, id) is Some,
    ensures
        asm_decl(st, syms, r, id, value, line) matches AsmOut::Done(st2)
            && entries_constant(st2.data) && entries_constant(st2.rodata),
{
    let sym = sym_of(syms, r, id).unwrap();
    if sym.is_global {
        lemma_data_insert_constant(st.data, sym.id, value, line);
    } else {
        assert forall|key: Seq<char>| entries_constant(#[trigger] data_insert(st.rodata, key, value, line)) by {
            lemma_data_insert_constant(st.rodata, key, value, line);
        }
        assert(asm_local(st, syms, r, value, sym.stack_offset, line) is Done);
    }
}

proof fn lemma_asm_from_done(st: AState, syms: Map<Seq<char>, SymbolV>, res: Seq<Map<Seq<char>, Seq<char>>>,
    prog: Seq<InstV>, i: int)
    requires
        0 <= i <= prog.len(),
        res.len() == prog.len(),
        entries_constant(st.data),
        entries_constant(st.rodata),
        forall|j: int| i <= j < prog.len() ==> ((#[trigger] prog[j]).kind matches KindV::Decl { id, value, .. }
            && !(value is Symbol) && !(value is FloatLiteral) && sym_of(syms, res[j], id) is Some),
    ensures
        asm_from(st, syms, res, prog, i) matches AsmOut::Done(st2)
            && entries_constant(st2.data) && entries_constant(st2.rodata),
    decreases prog.len() - i,
{
    if i < prog.len() {
        let inst = prog[i];
        if let KindV::Decl { id, value, .. } = inst.kind {
            lemma_asm_decl_done(st, syms, res[i], id, value, inst.line);
            let st2 = asm_decl(st, syms, res[i], id, value, inst.line)->Done_0;
            assert(asm_inst(st, syms, res[i], inst) == AsmOut::Done(st2));
            lemma_asm_from_done(st2, syms, res, prog, i + 1);
        }
    }
}

/// A program that passes the checker and only declares symbols with
/// constant values always assembles: the assembler never stops on it.
pub proof fn lemma_constant_program_assembles(prog: Seq<InstV>)
    ensures
        spec_check(prog) matches Ok((syms, res)) ==> (constant_decls(prog) ==> spec_assemble(syms, res, prog) is Done),
{
    lemma_resolutions_have_symbols(prog);
    if let Ok((syms, res)) = spec_check(prog) {
        if constant_decls(prog) {
            assert forall|j: int| 0 <= j < prog.len() implies ((#[trigger] prog[j]).kind matches KindV::Decl { id, value, .. }
                && !(value is Symbol) && !(value is FloatLiteral) && sym_of(syms, res[j], id) is Some) by {
                assert(decl_checked(prog[j], res[j]));
                if let KindV::Decl { id, value, .. } = prog[j].kind {
                    assert(res[j].dom().contains(id));
                }
            }
            let st0 = AState { text: "section .text\n"@, data: Seq::empty(), rodata: Seq::empty(), string_count: 0, const_count: 0 };
            lemma_asm_from_done(st0, syms, res, prog, 0);
            let st = asm_from(st0, syms, res, prog, 0)->Done_0;
            lemma_section_some_iff(st.data, 0);
            lemma_section_some_iff(st.rodata, 0);
        }
    }
}

// ------------------------------------------- the read-only data section

proof fn lemma_dec_nat_len(n: nat)
    ensures
        dec_nat(n).len() >= 1,
        n >= 10 ==> dec_nat(n).len() >= 2,
    decreases n,
{
    if n >= 10 {
        lemma_dec_nat_len(n / 10);
    }
}

proof fn lemma_digit_injective(a: nat, b: nat)
    requires
        a < 10,
        b < 10,
        digit_char(a) == digit_char(b),
    ensures
        a == b,
{
    assert((a + 48) as char as int == a + 48);
    assert((b + 48) as char as int == b + 48);
}

/// Distinct numbers have distinct decimal texts.
pub proof fn lemma_dec_nat_injective(n: nat, m: nat)
    requires
        dec_nat(n) == dec_nat(m),
    ensures
        n == m,
    decreases n,
{
    lemma_dec_nat_len(n);
    lemma_dec_nat_len(m);
    if n < 10 && m < 10 {
        assert(dec_nat(n) == seq![digit_char(n)]);
        assert(dec_nat(m) == seq![digit_char(m)]);
        assert(seq![digit_char(n)][0] == seq![digit_char(m)][0]);
        lemma_digit_injective(n, m);
    } else if n >= 10 && m >= 10 {
        let dn = dec_nat(n);
        let dm = dec_nat(m);
        assert(dn.last() == digit_char(n % 10));
        assert(dm.last() == digit_char(m % 10));
        lemma_digit_injective(n % 10, m % 10);
        assert(dec_nat(n / 10) =~= dn.drop_last());
        assert(dec_nat(m / 10) =~= dm.drop_last());
        lemma_dec_nat_injective(n / 10, m / 10);
    }
}

/// The prefixes of the labels for constants.
pub open spec fn const_prefix(p: Seq<char>) -> bool {
    p == "u128_"@ || p == "i128_"@ || p == "f32_"@ || p == "f64_"@
}

proof fn lemma_str_prefix_not_const()
    ensures
        !const_prefix("str_"@),
{
    reveal_strlit("str_");
    reveal_strlit("u128_");
    reveal_strlit("i128_");
    reveal_strlit("f32_");
    reveal_strlit("f64_");
    assert("str_"@[0] != "u128_"@[0]);
    assert("str_"@[0] != "i128_"@[0]);
    assert("str_"@[0] != "f32_"@[0]);
    assert("str_"@[0] != "f64_"@[0]);
}

/// Whether `k` is a label the assembler gave out for a string (below
/// `strings`) or a constant (below `consts`).
pub open spec fn given_label(k: Seq<char>, strings: nat, consts: nat) -> bool {
    (exists|n: nat| n < strings && k == #[trigger] label_of("str_"@, n))
    || (exists|p: Seq<char>, n: nat| const_prefix(p) && n < consts && k == #[trigger] label_of(p, n))
}

/// The read-only section holds one entry per label given out, each under
/// such a label.
pub open spec fn rodata_counted(st: AState) -> bool {
    &&& st.rodata.len() == st.string_count + st.const_count
    &&& forall|k: int| 0 <= k < st.rodata.len() ==> given_label(#[trigger] st.rodata[k].0, st.string_count, st.const_count)
}

proof fn lemma_label_same_prefix(p: Seq<char>, n: nat, m: nat)
    requires
        label_of(p, n) == label_of(p, m),
    ensures
        n == m,
{
    assert(dec_nat(n) =~= label_of(p, n).subrange(p.len() as int, label_of(p, n).len() as int));
    assert(dec_nat(m) =~= label_of(p, m).subrange(p.len() as int, label_of(p, m).len() as int));
    lemma_dec_nat_injective(n, m);
}

proof fn lemma_label_prefixes_differ(p: Seq<char>, n: nat, q: Seq<char>, m: nat)
    requires
        p == "str_"@ || const_prefix(p),
        q == "str_"@ || const_prefix(q),
        p != q,
    ensures
        label_of(p, n) != label_of(q, m),
{
    reveal_strlit("str_");
    reveal_strlit("u128_");
    reveal_strlit("i128_");
    reveal_strlit("f32_");
    reveal_strlit("f64_");
    lemma_dec_nat_len(n);
    lemma_dec_nat_len(m);
    if label_of(p, n) == label_of(q, m) {
        assert(label_of(p, n)[0] == p[0]);
        assert(label_of(q, m)[0] == q[0]);
        assert(label_of(p, n)[1] == p[1]);
        assert(label_of(q, m)[1] == q[1]);
    }
}

/// A label about to be given out is under no entry yet.
proof fn lemma_fresh_label(st: AState, p: Seq<char>, n: nat)
    requires
        rodata_counted(st),
        (p == "str_"@ && n == st.string_count) || (const_prefix(p) && n == st.const_count),
    ensures
        !(exists|i: int| 0 <= i < st.rodata.len() && st.rodata[i].0 == label_of(p, n)),
{
    lemma_str_prefix_not_const();
    assert forall|i: int| 0 <= i < st.rodata.len() implies st.rodata[i].0 != label_of(p, n) by {
        assert(given_label(st.rodata[i].0, st.string_count, st.const_count));
        let k = st.rodata[i].0;
        if exists|m: nat| m < st.string_count && k == #[trigger] label_of("str_"@, m) {
            let m = choose|m: nat| m < st.string_count && k == #[trigger] label_of("str_"@, m);
            if p == "str_"@ {
                if k == label_of(p, n) {
                    lemma_label_same_prefix(p, n, m);
                }
            } else {
                lemma_label_prefixes_differ(p, n, "str_"@, m);
            }
        } else {
            let (q, m) = choose|q: Seq<char>, m: nat| const_prefix(q) && m < st.const_count && k == #[trigger] label_of(q, m);
            if p == q {
                if k == label_of(p, n) {
                    lemma_label_same_prefix(p, n, m);
                }
            } else {
                lemma_label_prefixes_differ(p, n, q, m);
            }
        }
    }
}

/// Giving out the label `label_of(p, n)` for a new entry keeps the count.
proof fn lemma_new_entry_counted(st: AState, p: Seq<char>, n: nat, value: ValueV, line: nat, st2: AState)
    requires
        rodata_counted(st),
        (p == "str_"@ && n == st.string_count && st2.string_count == st.string_count + 1 && st2.const_count == st.const_count)
            || (const_prefix(p) && n == st.const_count && st2.const_count == st.const_count + 1
                && st2.string_count == st.string_count),
        st2.rodata == data_insert(st.rodata, label_of(p, n), value, line),
    ensures
        rodata_counted(st2),
        !(exists|i: int| 0 <= i < st.rodata.len() && st.rodata[i].0 == label_of(p, n)),
        st2.rodata == st.rodata.push((label_of(p, n), value, line)),
{
    lemma_str_prefix_not_const();
    lemma_fresh_label(st, p, n);
    let l = label_of(p, n);
    assert(st2.rodata == st.rodata.push((l, value, line)));
    assert forall|k: int| 0 <= k < st2.rodata.len() implies given_label(#[trigger] st2.rodata[k].0, st2.string_count, st2.const_count) by {
        if k < st.rodata.len() {
            assert(st2.rodata[k] == st.rodata[k]);
            let x = st.rodata[k].0;
            assert(given_label(x, st.string_count, st.const_count));
            if exists|m: nat| m < st.string_count && x == #[trigger] label_of("str_"@, m) {
                let m = choose|m: nat| m < st.string_count && x == #[trigger] label_of("str_"@, m);
                assert(m < st2.string_count && x == label_of("str_"@, m));
            } else {
                let (q, m) = choose|q: Seq<char>, m: nat| const_prefix(q) && m < st.const_count && x == #[trigger] label_of(q, m);
                assert(const_prefix(q) && m < st2.const_count && x == label_of(q, m));
            }
        } else {
            assert(st2.rodata[k].0 == l);
            if p == "str_"@ {
                assert(n < st2.string_count && l == label_of("str_"@, n));
            } else {
                assert(const_prefix(p) && n < st2.const_count && l == label_of(p, n));
            }
        }
    }
}

/// The label a local declaration of `value` gives out for a read-only
/// entry, if it gives one out.
pub open spec fn decl_label(st: AState, value: ValueV) -> Option<Seq<char>> {
    match value {
        ValueV::Str(_) => Some(label_of("str_"@, st.string_count)),
        ValueV::UInt128(_) => Some(label_of("u128_"@, st.const_count)),
        ValueV::Int128(_) => Some(label_of("i128_"@, st.const_count)),
        ValueV::Float32(..) => Some(label_of("f32_"@, st.const_count)),
        ValueV::Float64(..) => Some(label_of("f64_"@, st.const_count)),
        _ => None,
    }
}

/// A declaration that is assembled keeps the count of the read-only
/// section: a local declaration of a string or wide or floating-point
/// constant adds one entry, under a label no entry had, holding the value
/// and the line; any other declaration leaves the section as it was.
pub proof fn lemma_decl_rodata_entry(st: AState, syms: Map<Seq<char>, SymbolV>, r: Map<Seq<char>, Seq<char>>,
    id: Seq<char>, value: ValueV, line: nat)
    requires
        rodata_counted(st),
    ensures
        asm_decl(st, syms, r, id, value, line) matches AsmOut::Done(st2) ==> {
            &&& rodata_counted(st2)
            &&& if sym_of(syms, r, id) matches Some(sym) && !sym.is_global && decl_label(st, value) is Some {
                &&& !(exists|i: int| 0 <= i < st.rodata.len() && st.rodata[i].0 == decl_label(st, value).unwrap())
                &&& st2.rodata == st.rodata.push((decl_label(st, value).unwrap(), value, line))
            } else {
                st2.rodata == st.rodata
            }
        },
{
    if let AsmOut::Done(st2) = asm_decl(st, syms, r, id, value, line) {
        let sym = sym_of(syms, r, id).unwrap();
        if !sym.is_global {
            match value {
                ValueV::Str(_) => lemma_new_entry_counted(st, "str_"@, st.string_count, value, line, st2),
                ValueV::UInt128(_) => lemma_new_entry_counted(st, "u128_"@, st.const_count, value, line, st2),
                ValueV::Int128(_) => lemma_new_entry_counted(st, "i128_"@, st.const_count, value, line, st2),
                ValueV::Float32(..) => lemma_new_entry_counted(st, "f32_"@, st.const_count, value, line, st2),
                ValueV::Float64(..) => lemma_new_entry_counted(st, "f64_"@, st.const_count, value, line, st2),
                _ => {},
            }
        }
    }
}

proof fn lemma_asm_from_counted(st: AState, syms: Map<Seq<char>, SymbolV>, res: Seq<Map<Seq<char>, Seq<char>>>,
    prog: Seq<InstV>, i: int)
    requires
        rodata_counted(st),
    ensures
        asm_from(st, syms, res, prog, i) matches AsmOut::Done(st2) ==> rodata_counted(st2),
    decreases prog.len() - i,
{
    if !(i >= prog.len() || i < 0) && i < res.len() {
        if let KindV::Decl { id, value, .. } = prog[i].kind {
            lemma_decl_rodata_entry(st, syms, res[i], id, value, prog[i].line);
            if let AsmOut::Done(st2) = asm_decl(st, syms, res[i], id, value, prog[i].line) {
                lemma_asm_from_counted(st2, syms, res, prog, i + 1);
            }
        }
    }
}

/// Assembled text has one read-only entry for each string and constant
/// label it gave out, each under its own label: the read-only section has
/// exactly as many entries as the string counter and the constant counter
/// together.
pub proof fn lemma_rodata_counts_labels(syms: Map<Seq<char>, SymbolV>, res: Seq<Map<Seq<char>, Seq<char>>>, prog: Seq<InstV>)
    ensures
        spec_assemble(syms, res, prog) matches AsmOut::Done(st) ==> rodata_counted(st),
{
    let st0 = AState { text: "section .text\n"@, data: Seq::empty(), rodata: Seq::empty(), string_count: 0, const_count: 0 };
    lemma_asm_from_counted(st0, syms, res, prog, 0);
}


/// A constant's data-section entry is as wide as its type: a value of a
/// type of one byte (`bool`, `uint8`, `int8`) takes eight bytes, every
/// other constant the size of its type (`dw` for 16 bits, `dd` for 32,
/// `dq` for 64, `do` for 128 bits and strings).
pub proof fn lemma_constant_entry_size(v: ValueV, t: Type)
    requires
        constant_ty(v) == Some(t),
    ensures
        spec_size(t) == Some(Size::B1) ==> val_size(v) == Some(Size::B8),
        spec_size(t) != Some(Size::B1) ==> val_size(v) == spec_size(t),
        val_directive(v) == Some(val_size(v).unwrap().spec_directive()),
{
}

} // verus!
