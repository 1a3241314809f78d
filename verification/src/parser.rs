//! The parser: reads instructions from the tokens of a source text.

use vstd::prelude::*;
use crate::token::{Token, Lexeme};
use crate::lexer::{lex, spec_lex, toks_fit, lemma_lex_fit};
use crate::types::Type;
use crate::ast::{Value, InstructionKind, Instruction, UnaryOp, BinaryOp, insts_view, params_view, values_view};
use crate::error::{Error, loc_error};
use crate::number::parse_number;
use crate::text::{chars_of, contains_char, string_of_range, concat3};
use crate::grammar::{
    PState, adv, slice, token_name, sp_consume, sp_decl_id, sp_type, sp_value, sp_read_value, sp_read_type,
    finish, sp_params, sp_args, sp_import, sp_decl, sp_assign, sp_fn, sp_ret, sp_call, sp_label, sp_jump,
    sp_unary, sp_binary, sp_inst, sp_parse_from, spec_parse, lemma_adv, lemma_sp_type_pos, lemma_sp_inst_pos,
};

verus! {

/// A parser over the tokens of one source text.
pub struct Parser {
    chars: Vec<char>,
    toks: Vec<Lexeme>,
    insts: Vec<Instruction>,
    line: usize,
    pos: usize,
}

impl View for Parser {
    type V = PState;

    closed spec fn view(&self) -> PState {
        PState { pos: self.pos as nat, line: self.line as nat, insts: insts_view(self.insts@) }
    }
}

fn token_name_str(k: Token) -> (s: &'static str)
    ensures
        s@ == token_name(k),
{
    match k {
        Token::Asm => "Asm",
        Token::Import => "Import",
        Token::Decl => "Decl",
        Token::Assign => "Assign",
        Token::Fn => "Fn",
        Token::Ret => "Ret",
        Token::Label => "Label",
        Token::Jump => "Jump",
        Token::Neg => "Neg",
        Token::Not => "Not",
        Token::Ref => "Ref",
        Token::Deref => "Deref",
        Token::Lsh => "Lsh",
        Token::Rsh => "Rsh",
        Token::Add => "Add",
        Token::Sub => "Sub",
        Token::Mult => "Mult",
        Token::Div => "Div",
        Token::And => "And",
        Token::Or => "Or",
        Token::Xor => "Xor",
        Token::Bool => "Bool",
        Token::String => "String",
        Token::UInt8 => "UInt8",
        Token::UInt16 => "UInt16",
        Token::UInt32 => "UInt32",
        Token::UInt64 => "UInt64",
        Token::UInt128 => "UInt128",
        Token::Int8 => "Int8",
        Token::Int16 => "Int16",
        Token::Int32 => "Int32",
        Token::Int64 => "Int64",
        Token::Int128 => "Int128",
        Token::Float32 => "Float32",
        Token::Float64 => "Float64",
        Token::Ptr => "Ptr",
        Token::Identifier => "Identifier",
        Token::True => "True",
        Token::False => "False",
        Token::StringLiteral => "StringLiteral",
        Token::Number => "Number",
        Token::Newline => "Newline",
        Token::Eof => "Eof",
        Token::Error => "Error",
    }
}

impl Parser {
    /// The tokens being parsed.
    pub closed spec fn tokens(&self) -> Seq<Lexeme> {
        self.toks@
    }

    /// The text the tokens were read from.
    pub closed spec fn text(&self) -> Seq<char> {
        self.chars@
    }

    /// The parser's internal consistency: tokens lie within the text, the
    /// position within the tokens, and the line at most one past the
    /// number of tokens read.
    pub closed spec fn wf(&self) -> bool {
        &&& toks_fit(self.toks@, self.chars@)
        &&& self.toks.len() < usize::MAX
        &&& self.pos <= self.toks.len()
        &&& 1 <= self.line <= self.pos + 1
    }

    /// A parser at the start of `source`.
    pub fn new(source: &str) -> (p: Parser)
        requires
            source@.len() < usize::MAX,
        ensures
            p.wf(),
            p.tokens() == spec_lex(source@),
            p.text() == source@,
            p@ == (PState { pos: 0, line: 1, insts: Seq::empty() }),
    {
        let chars = chars_of(source);
        let toks = lex(&chars);
        proof {
            lemma_lex_fit(source@);
        }
        let p = Parser { chars, toks, insts: Vec::new(), line: 1, pos: 0 };
        assert(insts_view(p.insts@) =~= Seq::empty());
        p
    }

    /// Reads the next token: an `Error` token reads as `Eof`, and so does
    /// the end of the tokens.
    pub fn advance(&mut self) -> (tk: Token)
        requires
            old(self).wf(),
        ensures
            final(self).wf(),
            (tk, final(self)@.pos) == adv(old(self).tokens(), old(self)@.pos),
            final(self)@.line == old(self)@.line,
            final(self)@.insts == old(self)@.insts,
            final(self).tokens() == old(self).tokens(),
            final(self).text() == old(self).text(),
    {
        if self.pos < self.toks.len() {
            let t = self.toks[self.pos].token;
            self.pos = self.pos + 1;
            if t == Token::Error {
                return Token::Eof;
            }
            return t;
        }
        Token::Eof
    }

    /// The text of the token just read.
    fn slice_text(&self) -> (s: String)
        requires
            self.wf(),
            self.pos >= 1,
        ensures
            s@ == slice(self.tokens(), self.text(), self.pos - 1),
    {
        let t = self.toks[self.pos - 1];
        assert(t == self.toks@[self.pos - 1]);
        string_of_range(&self.chars, t.start, t.end)
    }

    /// Reads a token of kind `expected` and gives its text.
    pub fn next_and_consume(&mut self, expected: Token) -> (res: Result<String, Error>)
        requires
            old(self).wf(),
            expected != Token::Eof,
        ensures
            final(self).wf(),
            match sp_consume(old(self).tokens(), old(self).text(), old(self)@.pos, old(self)@.line, expected) {
                Ok((s, p)) => res matches Ok(r) && r@ == s && final(self)@.pos == p,
                Err(m) => res matches Err(e) && e@ == m,
            },
            old(self)@.pos <= final(self)@.pos,
            final(self)@.line == old(self)@.line,
            final(self)@.insts == old(self)@.insts,
            final(self).tokens() == old(self).tokens(),
            final(self).text() == old(self).text(),
    {
        proof { lemma_adv(self.toks@, self.pos as nat); }
        let token = self.advance();
        if token != expected {
            let msg = concat3("Expected '", token_name_str(expected), "'");
            return loc_error(self.line, msg.as_str());
        }
        Ok(self.slice_text())
    }

    /// Reads the name of a new symbol, which may not hold a `.`.
    fn decl_id(&mut self) -> (res: Result<String, Error>)
        requires
            old(self).wf(),
        ensures
            final(self).wf(),
            match sp_decl_id(old(self).tokens(), old(self).text(), old(self)@.pos, old(self)@.line) {
                Ok((s, p)) => res matches Ok(r) && r@ == s && final(self)@.pos == p,
                Err(m) => res matches Err(e) && e@ == m,
            },
            old(self)@.pos <= final(self)@.pos,
            final(self)@.line == old(self)@.line,
            final(self)@.insts == old(self)@.insts,
            final(self).tokens() == old(self).tokens(),
            final(self).text() == old(self).text(),
    {
        let id = self.next_and_consume(Token::Identifier)?;
        if contains_char(id.as_str(), '.') {
            return loc_error(self.line, "Declaration identifier cannot have '.'");
        }
        Ok(id)
    }

    /// The type that `token` starts; a pointer type reads its target next.
    pub fn parse_type(&mut self, token: Token) -> (res: Result<Type, Error>)
        requires
            old(self).wf(),
        ensures
            final(self).wf(),
            match sp_type(old(self).tokens(), old(self)@.pos, old(self)@.line, token) {
                Ok((ty, p)) => res matches Ok(r) && r == ty && final(self)@.pos == p,
                Err(m) => res matches Err(e) && e@ == m,
            },
            old(self)@.pos <= final(self)@.pos,
            final(self)@.line == old(self)@.line,
            final(self)@.insts == old(self)@.insts,
            final(self).tokens() == old(self).tokens(),
            final(self).text() == old(self).text(),
        decreases old(self).tokens().len() - old(self)@.pos,
    {
        match token {
            Token::Bool => Ok(Type::Bool),
            Token::String => Ok(Type::String),
            Token::UInt8 => Ok(Type::UInt8),
            Token::UInt16 => Ok(Type::UInt16),
            Token::UInt32 => Ok(Type::UInt32),
            Token::UInt64 => Ok(Type::UInt64),
            Token::UInt128 => Ok(Type::UInt128),
            Token::Int8 => Ok(Type::Int8),
            Token::Int16 => Ok(Type::Int16),
            Token::Int32 => Ok(Type::Int32),
            Token::Int64 => Ok(Type::Int64),
            Token::Int128 => Ok(Type::Int128),
            Token::Float32 => Ok(Type::Float32),
            Token::Float64 => Ok(Type::Float64),
            Token::Ptr => {
                if self.pos < self.toks.len() {
                    let inner = self.advance();
                    let t = self.parse_type(inner)?;
                    Ok(Type::Ptr(Box::new(t)))
                } else {
                    loc_error(self.line, "Invalid type")
                }
            },
            _ => loc_error(self.line, "Invalid type"),
        }
    }

    /// The value that `token`, just read, stands for.
    pub fn parse_value(&self, token: Token) -> (res: Result<Value, Error>)
        requires
            self.wf(),
            token != Token::Eof ==> self@.pos >= 1,
        ensures
            match sp_value(self.tokens(), self.text(), self@.pos, self@.line, token) {
                Ok(v) => res matches Ok(r) && r@ == v,
                Err(m) => res matches Err(e) && e@ == m,
            },
    {
        match token {
            Token::Identifier => Ok(Value::Symbol(self.slice_text())),
            Token::True => Ok(Value::Bool(true)),
            Token::False => Ok(Value::Bool(false)),
            Token::StringLiteral => Ok(Value::String(self.slice_text())),
            Token::Number => {
                let s = self.slice_text();
                parse_number(s.as_str(), self.line)
            },
            _ => loc_error(self.line, "Invalid value"),
        }
    }

    fn read_value(&mut self) -> (res: Result<Value, Error>)
        requires
            old(self).wf(),
        ensures
            final(self).wf(),
            match sp_read_value(old(self).tokens(), old(self).text(), old(self)@.pos, old(self)@.line) {
                Ok((v, p)) => res matches Ok(r) && r@ == v && final(self)@.pos == p,
                Err(m) => res matches Err(e) && e@ == m,
            },
            old(self)@.pos <= final(self)@.pos,
            final(self)@.line == old(self)@.line,
            final(self)@.insts == old(self)@.insts,
            final(self).tokens() == old(self).tokens(),
            final(self).text() == old(self).text(),
    {
        proof { lemma_adv(self.toks@, self.pos as nat); }
        let token = self.advance();
        self.parse_value(token)
    }

    fn read_type(&mut self) -> (res: Result<Type, Error>)
        requires
            old(self).wf(),
        ensures
            final(self).wf(),
            match sp_read_type(old(self).tokens(), old(self)@.pos, old(self)@.line) {
                Ok((ty, p)) => res matches Ok(r) && r == ty && final(self)@.pos == p,
                Err(m) => res matches Err(e) && e@ == m,
            },
            old(self)@.pos <= final(self)@.pos,
            final(self)@.line == old(self)@.line,
            final(self)@.insts == old(self)@.insts,
            final(self).tokens() == old(self).tokens(),
            final(self).text() == old(self).text(),
    {
        proof { lemma_adv(self.toks@, self.pos as nat); }
        let token = self.advance();
        self.parse_type(token)
    }

    /// Records an instruction at the current line, then reads one more
    /// token and moves to the next line if it is a newline.
    fn finish(&mut self, kind: InstructionKind)
        requires
            old(self).wf(),
        ensures
            final(self).wf(),
            final(self)@ == finish(old(self).tokens(), old(self)@.pos, old(self)@.line, old(self)@.insts, kind@),
            final(self).tokens() == old(self).tokens(),
            final(self).text() == old(self).text(),
    {
        let line = self.line;
        let ghost old_insts = self.insts@;
        self.insts.push(Instruction { kind, line });
        assert(insts_view(self.insts@) =~= insts_view(old_insts).push(crate::ast::InstV { kind: kind@, line: line as nat }));
        proof { lemma_adv(self.toks@, self.pos as nat); }
        if self.advance() == Token::Newline {
            self.line = self.line + 1;
        }
    }

    fn parse_import(&mut self) -> (res: Result<(), Error>)
        requires
            old(self).wf(),
        ensures
            final(self).wf(),
            match sp_import(old(self).tokens(), old(self).text(), old(self)@) {
                Ok(st) => res is Ok && final(self)@ == st,
                Err(m) => res matches Err(e) && e@ == m,
            },
            final(self).tokens() == old(self).tokens(),
            final(self).text() == old(self).text(),
    {
        let alias = self.decl_id()?;
        let path = self.next_and_consume(Token::StringLiteral)?;
        self.finish(InstructionKind::Import { alias, path });
        Ok(())
    }

    fn parse_decl(&mut self) -> (res: Result<(), Error>)
        requires
            old(self).wf(),
        ensures
            final(self).wf(),
            match sp_decl(old(self).tokens(), old(self).text(), old(self)@) {
                Ok(st) => res is Ok && final(self)@ == st,
                Err(m) => res matches Err(e) && e@ == m,
            },
            final(self).tokens() == old(self).tokens(),
            final(self).text() == old(self).text(),
    {
        let ty = self.read_type()?;
        let id = self.decl_id()?;
        let value = self.read_value()?;
        self.finish(InstructionKind::Decl { ty, id, value });
        Ok(())
    }

    fn parse_assign(&mut self) -> (res: Result<(), Error>)
        requires
            old(self).wf(),
        ensures
            final(self).wf(),
            match sp_assign(old(self).tokens(), old(self).text(), old(self)@) {
                Ok(st) => res is Ok && final(self)@ == st,
                Err(m) => res matches Err(e) && e@ == m,
            },
            final(self).tokens() == old(self).tokens(),
            final(self).text() == old(self).text(),
    {
        let id = self.next_and_consume(Token::Identifier)?;
        let value = self.read_value()?;
        self.finish(InstructionKind::Assign { id, value });
        Ok(())
    }

    #[verifier::loop_isolation(false)]
    fn parse_fn(&mut self) -> (res: Result<(), Error>)
        requires
            old(self).wf(),
        ensures
            final(self).wf(),
            match sp_fn(old(self).tokens(), old(self).text(), old(self)@) {
                Ok(st) => res is Ok && final(self)@ == st,
                Err(m) => res matches Err(e) && e@ == m,
            },
            final(self).tokens() == old(self).tokens(),
            final(self).text() == old(self).text(),
    {
        let line = self.line;
        let ty = self.read_type()?;
        let id = self.decl_id()?;
        let ghost start = self.pos as nat;
        let ghost t = self.toks@;
        let ghost c = self.chars@;
        let ghost insts0 = self.insts@;
        let mut params: Vec<(Type, String)> = Vec::new();
        assert(params_view(params@) =~= Seq::empty());
        loop
            invariant
                self.wf(),
                self.toks@ == t,
                self.chars@ == c,
                self@.insts == insts_view(insts0),
                sp_params(t, c, start, line as nat, Seq::empty())
                    == sp_params(t, c, self.pos as nat, self.line as nat, params_view(params@)),
            decreases t.len() - self.pos,
        {
            proof { lemma_adv(self.toks@, self.pos as nat); }
            let token = self.advance();
            if token == Token::Newline {
                self.line = self.line + 1;
                break;
            }
            if token == Token::Eof {
                break;
            }
            proof { lemma_sp_type_pos(t, self.pos as nat, self.line as nat, token); }
            let p_ty = self.parse_type(token)?;
            let p_id = self.next_and_consume(Token::Identifier)?;
            let ghost old_params = params@;
            params.push((p_ty, p_id));
            assert(params_view(params@) =~= params_view(old_params).push((p_ty, p_id@)));
        }
        let ghost ps = params_view(params@);
        let ghost ins = self.insts@;
        self.insts.push(Instruction { kind: InstructionKind::Fn { ty, id, params }, line });
        assert(insts_view(self.insts@) =~= insts_view(ins).push(self.insts@.last()@));
        Ok(())
    }

    fn parse_ret(&mut self) -> (res: Result<(), Error>)
        requires
            old(self).wf(),
        ensures
            final(self).wf(),
            match sp_ret(old(self).tokens(), old(self).text(), old(self)@) {
                Ok(st) => res is Ok && final(self)@ == st,
                Err(m) => res matches Err(e) && e@ == m,
            },
            final(self).tokens() == old(self).tokens(),
            final(self).text() == old(self).text(),
    {
        let ret = self.read_value()?;
        self.finish(InstructionKind::Ret { ret });
        Ok(())
    }

    #[verifier::loop_isolation(false)]
    fn parse_call(&mut self) -> (res: Result<(), Error>)
        requires
            old(self).wf(),
            old(self)@.pos >= 1,
        ensures
            final(self).wf(),
            match sp_call(old(self).tokens(), old(self).text(), old(self)@) {
                Ok(st) => res is Ok && final(self)@ == st,
                Err(m) => res matches Err(e) && e@ == m,
            },
            final(self).tokens() == old(self).tokens(),
            final(self).text() == old(self).text(),
    {
        let line = self.line;
        let op = self.slice_text();
        let id = self.decl_id()?;
        let ghost start = self.pos as nat;
        let ghost t = self.toks@;
        let ghost c = self.chars@;
        let ghost insts0 = self.insts@;
        let mut args: Vec<Value> = Vec::new();
        assert(values_view(args@) =~= Seq::empty());
        loop
            invariant
                self.wf(),
                self.toks@ == t,
                self.chars@ == c,
                self@.insts == insts_view(insts0),
                sp_args(t, c, start, line as nat, Seq::empty())
                    == sp_args(t, c, self.pos as nat, self.line as nat, values_view(args@)),
            decreases t.len() - self.pos,
        {
            proof { lemma_adv(self.toks@, self.pos as nat); }
            let token = self.advance();
            if token == Token::Newline {
                self.line = self.line + 1;
                break;
            }
            if token == Token::Eof {
                break;
            }
            let v = self.parse_value(token)?;
            let ghost old_args = args@;
            args.push(v);
            assert(values_view(args@) =~= values_view(old_args).push(v@));
        }
        let ghost ins = self.insts@;
        self.insts.push(Instruction { kind: InstructionKind::Call { op, id, args }, line });
        assert(insts_view(self.insts@) =~= insts_view(ins).push(self.insts@.last()@));
        Ok(())
    }

    fn parse_label(&mut self) -> (res: Result<(), Error>)
        requires
            old(self).wf(),
        ensures
            final(self).wf(),
            match sp_label(old(self).tokens(), old(self).text(), old(self)@) {
                Ok(st) => res is Ok && final(self)@ == st,
                Err(m) => res matches Err(e) && e@ == m,
            },
            final(self).tokens() == old(self).tokens(),
            final(self).text() == old(self).text(),
    {
        let id = self.decl_id()?;
        self.finish(InstructionKind::Label { id });
        Ok(())
    }

    fn parse_jump(&mut self) -> (res: Result<(), Error>)
        requires
            old(self).wf(),
        ensures
            final(self).wf(),
            match sp_jump(old(self).tokens(), old(self).text(), old(self)@) {
                Ok(st) => res is Ok && final(self)@ == st,
                Err(m) => res matches Err(e) && e@ == m,
            },
            final(self).tokens() == old(self).tokens(),
            final(self).text() == old(self).text(),
    {
        let cond = self.read_value()?;
        let label = self.next_and_consume(Token::Identifier)?;
        self.finish(InstructionKind::Jump { cond, label });
        Ok(())
    }

    fn parse_unary(&mut self, token: Token) -> (res: Result<(), Error>)
        requires
            old(self).wf(),
        ensures
            final(self).wf(),
            match sp_unary(old(self).tokens(), old(self).text(), old(self)@, token) {
                Ok(st) => res is Ok && final(self)@ == st,
                Err(m) => res matches Err(e) && e@ == m,
            },
            final(self).tokens() == old(self).tokens(),
            final(self).text() == old(self).text(),
    {
        let op = match token {
            Token::Neg => UnaryOp::Neg,
            Token::Not => UnaryOp::Not,
            Token::Ref => UnaryOp::Ref,
            Token::Deref => UnaryOp::Deref,
            Token::Lsh => UnaryOp::Lsh,
            Token::Rsh => UnaryOp::Rsh,
            _ => return loc_error(self.line, "Invalid unary operator"),
        };
        let id = self.decl_id()?;
        let val = self.read_value()?;
        self.finish(InstructionKind::UnaryOp { op, id, val });
        Ok(())
    }

    fn parse_binary(&mut self, token: Token) -> (res: Result<(), Error>)
        requires
            old(self).wf(),
        ensures
            final(self).wf(),
            match sp_binary(old(self).tokens(), old(self).text(), old(self)@, token) {
                Ok(st) => res is Ok && final(self)@ == st,
                Err(m) => res matches Err(e) && e@ == m,
            },
            final(self).tokens() == old(self).tokens(),
            final(self).text() == old(self).text(),
    {
        let op = match token {
            Token::Add => BinaryOp::Add,
            Token::Sub => BinaryOp::Sub,
            Token::Mult => BinaryOp::Mult,
            Token::Div => BinaryOp::Div,
            Token::And => BinaryOp::And,
            Token::Or => BinaryOp::Or,
            Token::Xor => BinaryOp::Xor,
            _ => return loc_error(self.line, "Invalid binary operator"),
        };
        let id = self.decl_id()?;
        let a = self.read_value()?;
        let b = self.read_value()?;
        self.finish(InstructionKind::BinaryOp { op, id, a, b });
        Ok(())
    }

    /// Reads the instruction that the opcode `token`, just read, starts.
    fn parse_inst(&mut self, token: Token) -> (res: Result<(), Error>)
        requires
            old(self).wf(),
            old(self)@.pos >= 1,
        ensures
            final(self).wf(),
            match sp_inst(old(self).tokens(), old(self).text(), old(self)@, token) {
                Ok(st) => res is Ok && final(self)@ == st,
                Err(m) => res matches Err(e) && e@ == m,
            },
            final(self).tokens() == old(self).tokens(),
            final(self).text() == old(self).text(),
    {
        match token {
            Token::Import => self.parse_import(),
            Token::Decl => self.parse_decl(),
            Token::Assign => self.parse_assign(),
            Token::Fn => self.parse_fn(),
            Token::Ret => self.parse_ret(),
            Token::Identifier => self.parse_call(),
            Token::Label => self.parse_label(),
            Token::Jump => self.parse_jump(),
            Token::Neg | Token::Not | Token::Ref | Token::Deref | Token::Lsh | Token::Rsh => self.parse_unary(token),
            Token::Add | Token::Sub | Token::Mult | Token::Div | Token::And | Token::Or | Token::Xor => self.parse_binary(token),
            _ => loc_error(self.line, "Unknown instruction"),
        }
    }

    /// Reads instructions up to the end of the tokens or the first `Error`
    /// token, and gives them, or the first error.
    #[verifier::loop_isolation(false)]
    pub fn parse(self) -> (res: Result<Vec<Instruction>, Error>)
        requires
            self.wf(),
        ensures
            match sp_parse_from(self.tokens(), self.text(), self@) {
                Ok(st) => res matches Ok(r) && insts_view(r@) == st.insts,
                Err(m) => res matches Err(e) && e@ == m,
            },
    {
        let mut p = self;
        let ghost t = p.toks@;
        let ghost c = p.chars@;
        let ghost st0 = p@;
        loop
            invariant
                p.wf(),
                p.toks@ == t,
                p.chars@ == c,
                sp_parse_from(t, c, st0) == sp_parse_from(t, c, p@),
            decreases t.len() - p.pos,
        {
            if p.pos < p.toks.len() && p.toks[p.pos].token != Token::Error {
                let tok = p.toks[p.pos].token;
                p.pos = p.pos + 1;
                let ghost st1 = p@;
                proof { lemma_sp_inst_pos(t, c, st1, tok); }
                p.parse_inst(tok)?;
            } else {
                break;
            }
        }
        Ok(p.insts)
    }
}

/// The instructions of `source`, or the first error.
pub fn parse_source(source: &str) -> (res: Result<Vec<Instruction>, Error>)
    requires
        source@.len() < usize::MAX,
    ensures
        match spec_parse(spec_lex(source@), source@) {
            Ok(insts) => res matches Ok(r) && insts_view(r@) == insts,
            Err(m) => res matches Err(e) && e@ == m,
        },
{
    let p = Parser::new(source);
    p.parse()
}

} // verus!
