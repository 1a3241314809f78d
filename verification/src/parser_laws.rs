//! What every parsed program keeps: the names it declares are plain
//! identifiers, free of the `.` that module prefixes use.

use vstd::prelude::*;
use crate::text::has_char;
use crate::token::{Token, Lexeme};
use crate::ast::{KindV, InstV, ValueV};
use crate::grammar::{PState, sp_inst, sp_parse_from, spec_parse, lemma_sp_inst_pos, sp_binary, sp_value, slice, binary_of};

verus! {

/// The name that an instruction declares, if it declares one (an import
/// declares its alias).
pub open spec fn declared_name(inst: InstV) -> Option<Seq<char>> {
    match inst.kind {
        KindV::Import { alias, .. } => Some(alias),
        KindV::Decl { id, .. } => Some(id),
        KindV::Fn { id, .. } => Some(id),
        KindV::Call { id, .. } => Some(id),
        KindV::Label { id } => Some(id),
        KindV::UnaryOp { id, .. } => Some(id),
        KindV::BinaryOp { id, .. } => Some(id),
        _ => None,
    }
}

/// Whether no instruction of `insts` declares a name with a `.`.
pub open spec fn declares_plain(insts: Seq<InstV>) -> bool {
    forall|i: int| 0 <= i < insts.len() ==> match declared_name(#[trigger] insts[i]) {
        Some(n) => !has_char(n, '.'),
        None => true,
    }
}

proof fn lemma_push_plain(insts: Seq<InstV>, inst: InstV)
    requires
        declares_plain(insts),
        match declared_name(inst) {
            Some(n) => !has_char(n, '.'),
            None => true,
        },
    ensures
        declares_plain(insts.push(inst)),
{
    assert forall|i: int| 0 <= i < insts.push(inst).len() implies match declared_name(#[trigger] insts.push(inst)[i]) {
        Some(n) => !has_char(n, '.'),
        None => true,
    } by {
        if i < insts.len() {
            assert(insts.push(inst)[i] == insts[i]);
        }
    }
}

/// One instruction read by the parser adds only plain declared names.
proof fn lemma_sp_inst_plain(t: Seq<Lexeme>, c: Seq<char>, st: PState, tk: Token)
    requires
        declares_plain(st.insts),
    ensures
        sp_inst(t, c, st, tk) matches Ok(st2) ==> declares_plain(st2.insts),
{
    if let Ok(st2) = sp_inst(t, c, st, tk) {
        let inst = st2.insts.last();
        assert(st2.insts == st.insts.push(inst));
        lemma_push_plain(st.insts, inst);
    }
}

proof fn lemma_parse_from_plain(t: Seq<Lexeme>, c: Seq<char>, st: PState)
    requires
        declares_plain(st.insts),
        st.pos <= t.len(),
    ensures
        sp_parse_from(t, c, st) matches Ok(st2) ==> declares_plain(st2.insts),
    decreases t.len() - st.pos,
{
    if st.pos < t.len() && t[st.pos as int].token != Token::Error {
        let st1 = PState { pos: st.pos + 1, line: st.line, insts: st.insts };
        let tk = t[st.pos as int].token;
        lemma_sp_inst_plain(t, c, st1, tk);
        lemma_sp_inst_pos(t, c, st1, tk);
        if let Ok(st2) = sp_inst(t, c, st1, tk) {
            lemma_parse_from_plain(t, c, st2);
        }
    }
}

/// Every name that a parsed program declares (a symbol, a function, a
/// call's result, a label or an import alias) is free of `.`, so that the
/// names an import prefixes with its alias and a `.` never meet a name
/// the importing module declares.
pub proof fn lemma_parsed_names_plain(t: Seq<Lexeme>, c: Seq<char>)
    ensures
        spec_parse(t, c) matches Ok(insts) ==> declares_plain(insts),
{
    lemma_parse_from_plain(t, c, PState { pos: 0, line: 1, insts: Seq::empty() });
}


/// A binary operation read from the tokens after its opcode is one new
/// instruction: its result's name is the first token's text, its first
/// operand `a` the value the next token stands for and its second operand
/// `b` the value of the token after that, in source order.
pub proof fn lemma_binary_operands_in_order(t: Seq<Lexeme>, c: Seq<char>, st: PState, tk: Token)
    ensures
        sp_binary(t, c, st, tk) matches Ok(st2) ==> {
            &&& st.pos + 3 <= t.len()
            &&& st2.insts == st.insts.push(st2.insts.last())
            &&& st2.insts.last().line == st.line
            &&& st2.insts.last().kind matches KindV::BinaryOp { op, id, a, b }
            &&& binary_of(tk) == Some(op)
            &&& id == slice(t, c, st.pos as int)
            &&& sp_value(t, c, st.pos + 2, st.line, t[st.pos + 1int].token) == Ok::<ValueV, Seq<char>>(a)
            &&& sp_value(t, c, st.pos + 3, st.line, t[st.pos + 2int].token) == Ok::<ValueV, Seq<char>>(b)
        },
{
}

/// The opcode of a binary operation decides its operator alone: read with
/// another binary opcode from the same tokens, the operation succeeds or
/// fails alike and gives the same result name and operands in the same
/// order, and the same next position and line.
pub proof fn lemma_binary_operands_ignore_opcode(t: Seq<Lexeme>, c: Seq<char>, st: PState, tk1: Token, tk2: Token)
    requires
        binary_of(tk1) is Some,
        binary_of(tk2) is Some,
    ensures
        (sp_binary(t, c, st, tk1) is Ok) <==> (sp_binary(t, c, st, tk2) is Ok),
        sp_binary(t, c, st, tk1) matches Ok(s1) ==> {
            &&& sp_binary(t, c, st, tk2) matches Ok(s2)
            &&& s2.pos == s1.pos
            &&& s2.line == s1.line
            &&& s1.insts.last().kind matches KindV::BinaryOp { id, a, b, .. }
            &&& s2.insts == st.insts.push(InstV {
                kind: KindV::BinaryOp { op: binary_of(tk2).unwrap(), id, a, b },
                line: st.line,
            })
        },
{
}

} // verus!
