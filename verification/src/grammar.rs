//! The grammar of the language, as the result of parsing a token sequence.
//!
//! Parsing goes through the tokens with a position and a current line.
//! Each instruction starts with its opcode token and ends by consuming one
//! more token, which advances the line when it is a newline. A token that
//! starts no token text (an `Error` token) reads as the end of input.

use vstd::prelude::*;
use crate::token::{Token, Lexeme};
use crate::types::Type;
use crate::ast::{ValueV, KindV, InstV, UnaryOp, BinaryOp};
use crate::error::loc_msg;
use crate::number::spec_number;
use crate::text::has_char;

verus! {

/// The parser's progress: the next token, the current line and the
/// instructions read so far.
pub struct PState {
    pub pos: nat,
    pub line: nat,
    pub insts: Seq<InstV>,
}

/// The token at `pos` and the position after it. An `Error` token reads as
/// `Eof`; past the end, the token is `Eof` and the position stays.
pub open spec fn adv(t: Seq<Lexeme>, pos: nat) -> (Token, nat) {
    if pos < t.len() {
        if t[pos as int].token == Token::Error {
            (Token::Eof, pos + 1)
        } else {
            (t[pos as int].token, pos + 1)
        }
    } else {
        (Token::Eof, pos)
    }
}

/// The text of the token at index `i`.
pub open spec fn slice(t: Seq<Lexeme>, c: Seq<char>, i: int) -> Seq<char> {
    c.subrange(t[i].start as int, t[i].end as int)
}

/// The name of a token kind as it is printed in messages.
pub open spec fn token_name(k: Token) -> Seq<char> {
    match k {
        Token::Asm => "Asm"@,
        Token::Import => "Import"@,
        Token::Decl => "Decl"@,
        Token::Assign => "Assign"@,
        Token::Fn => "Fn"@,
        Token::Ret => "Ret"@,
        Token::Label => "Label"@,
        Token::Jump => "Jump"@,
        Token::Neg => "Neg"@,
        Token::Not => "Not"@,
        Token::Ref => "Ref"@,
        Token::Deref => "Deref"@,
        Token::Lsh => "Lsh"@,
        Token::Rsh => "Rsh"@,
        Token::Add => "Add"@,
        Token::Sub => "Sub"@,
        Token::Mult => "Mult"@,
        Token::Div => "Div"@,
        Token::And => "And"@,
        Token::Or => "Or"@,
        Token::Xor => "Xor"@,
        Token::Bool => "Bool"@,
        Token::String => "String"@,
        Token::UInt8 => "UInt8"@,
        Token::UInt16 => "UInt16"@,
        Token::UInt32 => "UInt32"@,
        Token::UInt64 => "UInt64"@,
        Token::UInt128 => "UInt128"@,
        Token::Int8 => "Int8"@,
        Token::Int16 => "Int16"@,
        Token::Int32 => "Int32"@,
        Token::Int64 => "Int64"@,
        Token::Int128 => "Int128"@,
        Token::Float32 => "Float32"@,
        Token::Float64 => "Float64"@,
        Token::Ptr => "Ptr"@,
        Token::Identifier => "Identifier"@,
        Token::True => "True"@,
        Token::False => "False"@,
        Token::StringLiteral => "StringLiteral"@,
        Token::Number => "Number"@,
        Token::Newline => "Newline"@,
        Token::Eof => "Eof"@,
        Token::Error => "Error"@,
    }
}

pub open spec fn expected_msg(k: Token) -> Seq<char> {
    "Expected '"@ + token_name(k) + "'"@
}

pub open spec fn dot_msg() -> Seq<char> {
    "Declaration identifier cannot have '.'"@
}

/// Reads a token of kind `k` at `pos`: its text and the next position.
pub open spec fn sp_consume(t: Seq<Lexeme>, c: Seq<char>, pos: nat, line: nat, k: Token) -> Result<(Seq<char>, nat), Seq<char>> {
    let (tk, p) = adv(t, pos);
    if tk == k {
        Ok((slice(t, c, p - 1), p))
    } else {
        Err(loc_msg(line, expected_msg(k)))
    }
}

/// Reads the name of a new symbol: an identifier without `.`.
pub open spec fn sp_decl_id(t: Seq<Lexeme>, c: Seq<char>, pos: nat, line: nat) -> Result<(Seq<char>, nat), Seq<char>> {
    match sp_consume(t, c, pos, line, Token::Identifier) {
        Err(e) => Err(e),
        Ok((id, p)) => if has_char(id, '.') { Err(loc_msg(line, dot_msg())) } else { Ok((id, p)) },
    }
}

/// The type that the token `tk` starts (a pointer type reads its target
/// from the tokens at `pos`), and the position after it.
pub open spec fn sp_type(t: Seq<Lexeme>, pos: nat, line: nat, tk: Token) -> Result<(Type, nat), Seq<char>>
    decreases t.len() - pos,
{
    match tk {
        Token::Bool => Ok((Type::Bool, pos)),
        Token::String => Ok((Type::String, pos)),
        Token::UInt8 => Ok((Type::UInt8, pos)),
        Token::UInt16 => Ok((Type::UInt16, pos)),
        Token::UInt32 => Ok((Type::UInt32, pos)),
        Token::UInt64 => Ok((Type::UInt64, pos)),
        Token::UInt128 => Ok((Type::UInt128, pos)),
        Token::Int8 => Ok((Type::Int8, pos)),
        Token::Int16 => Ok((Type::Int16, pos)),
        Token::Int32 => Ok((Type::Int32, pos)),
        Token::Int64 => Ok((Type::Int64, pos)),
        Token::Int128 => Ok((Type::Int128, pos)),
        Token::Float32 => Ok((Type::Float32, pos)),
        Token::Float64 => Ok((Type::Float64, pos)),
        Token::Ptr => {
            if pos < t.len() {
                let (inner, p) = adv(t, pos);
                match sp_type(t, p, line, inner) {
                    Ok((ty, q)) => Ok((Type::Ptr(Box::new(ty)), q)),
                    Err(e) => Err(e),
                }
            } else {
                Err(loc_msg(line, "Invalid type"@))
            }
        },
        _ => Err(loc_msg(line, "Invalid type"@)),
    }
}

/// The value that the token `tk`, just read from index `pos - 1`, stands for.
pub open spec fn sp_value(t: Seq<Lexeme>, c: Seq<char>, pos: nat, line: nat, tk: Token) -> Result<ValueV, Seq<char>> {
    match tk {
        Token::Identifier => Ok(ValueV::Symbol(slice(t, c, pos - 1))),
        Token::True => Ok(ValueV::Bool(true)),
        Token::False => Ok(ValueV::Bool(false)),
        Token::StringLiteral => Ok(ValueV::Str(slice(t, c, pos - 1))),
        Token::Number => spec_number(slice(t, c, pos - 1), line),
        _ => Err(loc_msg(line, "Invalid value"@)),
    }
}

/// Reads the value at `pos`: the value and the next position.
pub open spec fn sp_read_value(t: Seq<Lexeme>, c: Seq<char>, pos: nat, line: nat) -> Result<(ValueV, nat), Seq<char>> {
    let (tk, p) = adv(t, pos);
    match sp_value(t, c, p, line, tk) {
        Ok(v) => Ok((v, p)),
        Err(e) => Err(e),
    }
}

/// Reads the type at `pos`: the type and the next position.
pub open spec fn sp_read_type(t: Seq<Lexeme>, pos: nat, line: nat) -> Result<(Type, nat), Seq<char>> {
    let (tk, p) = adv(t, pos);
    sp_type(t, p, line, tk)
}

/// The state after an instruction: one more token is read, and a newline
/// there moves to the next line.
pub open spec fn finish(t: Seq<Lexeme>, pos: nat, line: nat, insts: Seq<InstV>, kind: KindV) -> PState {
    let (tk, p) = adv(t, pos);
    PState {
        pos: p,
        line: if tk == Token::Newline { line + 1 } else { line },
        insts: insts.push(InstV { kind, line }),
    }
}

pub proof fn lemma_adv(t: Seq<Lexeme>, pos: nat)
    ensures
        pos <= adv(t, pos).1,
        pos <= t.len() ==> adv(t, pos).1 <= t.len(),
        adv(t, pos).0 != Token::Eof ==> adv(t, pos).1 == pos + 1 && pos < t.len(),
        adv(t, pos).0 != Token::Error,
{
}

pub proof fn lemma_sp_type_pos(t: Seq<Lexeme>, pos: nat, line: nat, tk: Token)
    ensures
        sp_type(t, pos, line, tk) matches Ok((_, q)) ==> pos <= q && (pos <= t.len() ==> q <= t.len()),
    decreases t.len() - pos,
{
    if tk == Token::Ptr && pos < t.len() {
        let (inner, p) = adv(t, pos);
        lemma_sp_type_pos(t, p, line, inner);
    }
}

/// The parameters of a function from `pos` on, after those in `acc`, up to
/// the end of the line: the parameters, the next position and the line.
pub open spec fn sp_params(t: Seq<Lexeme>, c: Seq<char>, pos: nat, line: nat, acc: Seq<(Type, Seq<char>)>)
    -> Result<(Seq<(Type, Seq<char>)>, nat, nat), Seq<char>>
    decreases t.len() - pos,
{
    let (tk, p) = adv(t, pos);
    if tk == Token::Newline {
        Ok((acc, p, line + 1))
    } else if tk == Token::Eof {
        Ok((acc, p, line))
    } else {
        match sp_type(t, p, line, tk) {
            Err(e) => Err(e),
            Ok((ty, p2)) => match sp_consume(t, c, p2, line, Token::Identifier) {
                Err(e) => Err(e),
                Ok((pid, p3)) => {
                    proof {
                        lemma_adv(t, pos);
                        lemma_sp_type_pos(t, p, line, tk);
                        lemma_adv(t, p2);
                    }
                    sp_params(t, c, p3, line, acc.push((ty, pid)))
                },
            },
        }
    }
}

/// The arguments of a call from `pos` on, after those in `acc`, up to the
/// end of the line: the arguments, the next position and the line.
pub open spec fn sp_args(t: Seq<Lexeme>, c: Seq<char>, pos: nat, line: nat, acc: Seq<ValueV>)
    -> Result<(Seq<ValueV>, nat, nat), Seq<char>>
    decreases t.len() - pos,
{
    let (tk, p) = adv(t, pos);
    if tk == Token::Newline {
        Ok((acc, p, line + 1))
    } else if tk == Token::Eof {
        Ok((acc, p, line))
    } else {
        match sp_value(t, c, p, line, tk) {
            Err(e) => Err(e),
            Ok(v) => {
                proof {
                    lemma_adv(t, pos);
                }
                sp_args(t, c, p, line, acc.push(v))
            },
        }
    }
}

pub open spec fn sp_import(t: Seq<Lexeme>, c: Seq<char>, st: PState) -> Result<PState, Seq<char>> {
    match sp_decl_id(t, c, st.pos, st.line) {
        Err(e) => Err(e),
        Ok((alias, p1)) => match sp_consume(t, c, p1, st.line, Token::StringLiteral) {
            Err(e) => Err(e),
            Ok((path, p2)) => Ok(finish(t, p2, st.line, st.insts, KindV::Import { alias, path })),
        },
    }
}

pub open spec fn sp_decl(t: Seq<Lexeme>, c: Seq<char>, st: PState) -> Result<PState, Seq<char>> {
    match sp_read_type(t, st.pos, st.line) {
        Err(e) => Err(e),
        Ok((ty, p1)) => match sp_decl_id(t, c, p1, st.line) {
            Err(e) => Err(e),
            Ok((id, p2)) => match sp_read_value(t, c, p2, st.line) {
                Err(e) => Err(e),
                Ok((value, p3)) => Ok(finish(t, p3, st.line, st.insts, KindV::Decl { ty, id, value })),
            },
        },
    }
}

pub open spec fn sp_assign(t: Seq<Lexeme>, c: Seq<char>, st: PState) -> Result<PState, Seq<char>> {
    match sp_consume(t, c, st.pos, st.line, Token::Identifier) {
        Err(e) => Err(e),
        Ok((id, p1)) => match sp_read_value(t, c, p1, st.line) {
            Err(e) => Err(e),
            Ok((value, p2)) => Ok(finish(t, p2, st.line, st.insts, KindV::Assign { id, value })),
        },
    }
}

pub open spec fn sp_fn(t: Seq<Lexeme>, c: Seq<char>, st: PState) -> Result<PState, Seq<char>> {
    match sp_read_type(t, st.pos, st.line) {
        Err(e) => Err(e),
        Ok((ty, p1)) => match sp_decl_id(t, c, p1, st.line) {
            Err(e) => Err(e),
            Ok((id, p2)) => match sp_params(t, c, p2, st.line, Seq::empty()) {
                Err(e) => Err(e),
                Ok((params, p3, line)) => Ok(PState {
                    pos: p3,
                    line,
                    insts: st.insts.push(InstV { kind: KindV::Fn { ty, id, params }, line: st.line }),
                }),
            },
        },
    }
}

pub open spec fn sp_ret(t: Seq<Lexeme>, c: Seq<char>, st: PState) -> Result<PState, Seq<char>> {
    match sp_read_value(t, c, st.pos, st.line) {
        Err(e) => Err(e),
        Ok((ret, p1)) => Ok(finish(t, p1, st.line, st.insts, KindV::Ret { ret })),
    }
}

/// A call: the identifier just read, at `pos - 1`, names the function.
pub open spec fn sp_call(t: Seq<Lexeme>, c: Seq<char>, st: PState) -> Result<PState, Seq<char>> {
    let op = slice(t, c, st.pos - 1);
    match sp_decl_id(t, c, st.pos, st.line) {
        Err(e) => Err(e),
        Ok((id, p1)) => match sp_args(t, c, p1, st.line, Seq::empty()) {
            Err(e) => Err(e),
            Ok((args, p2, line)) => Ok(PState {
                pos: p2,
                line,
                insts: st.insts.push(InstV { kind: KindV::Call { op, id, args }, line: st.line }),
            }),
        },
    }
}

pub open spec fn sp_label(t: Seq<Lexeme>, c: Seq<char>, st: PState) -> Result<PState, Seq<char>> {
    match sp_decl_id(t, c, st.pos, st.line) {
        Err(e) => Err(e),
        Ok((id, p1)) => Ok(finish(t, p1, st.line, st.insts, KindV::Label { id })),
    }
}

pub open spec fn sp_jump(t: Seq<Lexeme>, c: Seq<char>, st: PState) -> Result<PState, Seq<char>> {
    match sp_read_value(t, c, st.pos, st.line) {
        Err(e) => Err(e),
        Ok((cond, p1)) => match sp_consume(t, c, p1, st.line, Token::Identifier) {
            Err(e) => Err(e),
            Ok((label, p2)) => Ok(finish(t, p2, st.line, st.insts, KindV::Jump { cond, label })),
        },
    }
}

pub open spec fn unary_of(tk: Token) -> Option<UnaryOp> {
    match tk {
        Token::Neg => Some(UnaryOp::Neg),
        Token::Not => Some(UnaryOp::Not),
        Token::Ref => Some(UnaryOp::Ref),
        Token::Deref => Some(UnaryOp::Deref),
        Token::Lsh => Some(UnaryOp::Lsh),
        Token::Rsh => Some(UnaryOp::Rsh),
        _ => None,
    }
}

pub open spec fn binary_of(tk: Token) -> Option<BinaryOp> {
    match tk {
        Token::Add => Some(BinaryOp::Add),
        Token::Sub => Some(BinaryOp::Sub),
        Token::Mult => Some(BinaryOp::Mult),
        Token::Div => Some(BinaryOp::Div),
        Token::And => Some(BinaryOp::And),
        Token::Or => Some(BinaryOp::Or),
        Token::Xor => Some(BinaryOp::Xor),
        _ => None,
    }
}

pub open spec fn sp_unary(t: Seq<Lexeme>, c: Seq<char>, st: PState, tk: Token) -> Result<PState, Seq<char>> {
    match unary_of(tk) {
        None => Err(loc_msg(st.line, "Invalid unary operator"@)),
        Some(op) => match sp_decl_id(t, c, st.pos, st.line) {
            Err(e) => Err(e),
            Ok((id, p1)) => match sp_read_value(t, c, p1, st.line) {
                Err(e) => Err(e),
                Ok((val, p2)) => Ok(finish(t, p2, st.line, st.insts, KindV::UnaryOp { op, id, val })),
            },
        },
    }
}

pub open spec fn sp_binary(t: Seq<Lexeme>, c: Seq<char>, st: PState, tk: Token) -> Result<PState, Seq<char>> {
    match binary_of(tk) {
        None => Err(loc_msg(st.line, "Invalid binary operator"@)),
        Some(op) => match sp_decl_id(t, c, st.pos, st.line) {
            Err(e) => Err(e),
            Ok((id, p1)) => match sp_read_value(t, c, p1, st.line) {
                Err(e) => Err(e),
                Ok((a, p2)) => match sp_read_value(t, c, p2, st.line) {
                    Err(e) => Err(e),
                    Ok((b, p3)) => Ok(finish(t, p3, st.line, st.insts, KindV::BinaryOp { op, id, a, b })),
                },
            },
        },
    }
}

/// The instruction that the opcode `tk` (just read) starts.
pub open spec fn sp_inst(t: Seq<Lexeme>, c: Seq<char>, st: PState, tk: Token) -> Result<PState, Seq<char>> {
    match tk {
        Token::Import => sp_import(t, c, st),
        Token::Decl => sp_decl(t, c, st),
        Token::Assign => sp_assign(t, c, st),
        Token::Fn => sp_fn(t, c, st),
        Token::Ret => sp_ret(t, c, st),
        Token::Identifier => sp_call(t, c, st),
        Token::Label => sp_label(t, c, st),
        Token::Jump => sp_jump(t, c, st),
        Token::Neg | Token::Not | Token::Ref | Token::Deref | Token::Lsh | Token::Rsh => sp_unary(t, c, st, tk),
        Token::Add | Token::Sub | Token::Mult | Token::Div | Token::And | Token::Or | Token::Xor => sp_binary(t, c, st, tk),
        _ => Err(loc_msg(st.line, "Unknown instruction"@)),
    }
}

pub proof fn lemma_sp_params_pos(t: Seq<Lexeme>, c: Seq<char>, pos: nat, line: nat, acc: Seq<(Type, Seq<char>)>)
    ensures
        sp_params(t, c, pos, line, acc) matches Ok((_, q, _)) ==> pos <= q && (pos <= t.len() ==> q <= t.len()),
    decreases t.len() - pos,
{
    let (tk, p) = adv(t, pos);
    lemma_adv(t, pos);
    if tk != Token::Newline && tk != Token::Eof {
        lemma_sp_type_pos(t, p, line, tk);
        if let Ok((ty, p2)) = sp_type(t, p, line, tk) {
            lemma_adv(t, p2);
            if let Ok((pid, p3)) = sp_consume(t, c, p2, line, Token::Identifier) {
                lemma_sp_params_pos(t, c, p3, line, acc.push((ty, pid)));
            }
        }
    }
}

pub proof fn lemma_sp_args_pos(t: Seq<Lexeme>, c: Seq<char>, pos: nat, line: nat, acc: Seq<ValueV>)
    ensures
        sp_args(t, c, pos, line, acc) matches Ok((_, q, _)) ==> pos <= q && (pos <= t.len() ==> q <= t.len()),
    decreases t.len() - pos,
{
    let (tk, p) = adv(t, pos);
    lemma_adv(t, pos);
    if tk != Token::Newline && tk != Token::Eof {
        if let Ok(v) = sp_value(t, c, p, line, tk) {
            lemma_sp_args_pos(t, c, p, line, acc.push(v));
        }
    }
}

/// Reading an instruction never moves back, nor past the end.
pub proof fn lemma_sp_inst_pos(t: Seq<Lexeme>, c: Seq<char>, st: PState, tk: Token)
    requires
        st.pos <= t.len(),
    ensures
        sp_inst(t, c, st, tk) matches Ok(st2) ==> st.pos <= st2.pos <= t.len(),
{
    let pos = st.pos;
    let line = st.line;
    lemma_adv(t, pos);
    let (k0, p0) = adv(t, pos);
    lemma_adv(t, p0);
    lemma_sp_type_pos(t, p0, line, k0);
    if let Ok((_, p1)) = sp_type(t, p0, line, k0) {
        lemma_adv(t, p1);
        let (k1, q1) = adv(t, p1);
        lemma_adv(t, q1);
        if let Ok((_, p2)) = sp_decl_id(t, c, p1, line) {
            lemma_adv(t, p2);
            let (k2, q2) = adv(t, p2);
            lemma_adv(t, q2);
            lemma_sp_params_pos(t, c, p2, line, Seq::empty());
        }
    }
    if let Ok((_, p1)) = sp_consume(t, c, pos, line, Token::Identifier) {
        lemma_adv(t, p1);
        let (k1, q1) = adv(t, p1);
        lemma_adv(t, q1);
        if let Ok((_, p2)) = sp_consume(t, c, p1, line, Token::StringLiteral) {
            lemma_adv(t, p2);
        }
        if let Ok((_, p2)) = sp_read_value(t, c, p1, line) {
            lemma_adv(t, p2);
            let (k2, q2) = adv(t, p2);
            lemma_adv(t, q2);
        }
        lemma_sp_args_pos(t, c, p1, line, Seq::empty());
    }
    if let Ok((_, p1)) = sp_read_value(t, c, pos, line) {
        lemma_adv(t, p1);
        let (k1, q1) = adv(t, p1);
        lemma_adv(t, q1);
    }
}

/// The instructions from state `st` on: opcode after opcode, until the end
/// of the tokens or an `Error` token.
pub open spec fn sp_parse_from(t: Seq<Lexeme>, c: Seq<char>, st: PState) -> Result<PState, Seq<char>>
    decreases t.len() - st.pos,
{
    if st.pos < t.len() && t[st.pos as int].token != Token::Error {
        let st1 = PState { pos: st.pos + 1, line: st.line, insts: st.insts };
        match sp_inst(t, c, st1, t[st.pos as int].token) {
            Err(e) => Err(e),
            Ok(st2) => {
                proof {
                    lemma_sp_inst_pos(t, c, st1, t[st.pos as int].token);
                }
                sp_parse_from(t, c, st2)
            },
        }
    } else {
        Ok(st)
    }
}

/// The instructions of the tokens `t` of the text `c`, or the first error.
pub open spec fn spec_parse(t: Seq<Lexeme>, c: Seq<char>) -> Result<Seq<InstV>, Seq<char>> {
    match sp_parse_from(t, c, PState { pos: 0, line: 1, insts: Seq::empty() }) {
        Ok(st) => Ok(st.insts),
        Err(e) => Err(e),
    }
}

} // verus!
