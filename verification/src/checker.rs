//! The checker: two passes over a program that build the symbol table,
//! resolve every name and check every type.

use vstd::prelude::*;
use crate::types::Type;
use crate::ast::{Value, InstructionKind, Instruction, UnaryOp, BinaryOp, insts_view, params_view, values_view};
use crate::error::{Error, loc_error, loc_msg};
use crate::text::{concat3, push_dec_u128};
use crate::strmap::{StrMap, StrSet};
use crate::symbol::{Symbol, strs_view};
use crate::checker_spec::{
    CState, SymbolV, mangled, mangle, resolve, resolve_in, sym_msg, arg_count_msg, type_msg, init_value,
    init_params, init_fn, init_ret, init_call, init_label, step1, run1, log, jot, missing_msg,
    float_literal_msg, value_ty, place, check_decl, check_assign, check_params, check_fn, check_ret,
    arg_types, arg_mismatch, check_call, hide_all, jumped_missing_msg, check_label, check_jump,
    unary_result, check_unary, binary_ok, binary_msg, check_binary, step2, run2, initial_state,
    spec_check, slots, slots_from,
};

verus! {

/// The views of per-instruction resolution maps.
pub open spec fn res_view(v: Seq<StrMap<String>>) -> Seq<Map<Seq<char>, Seq<char>>> {
    v.map_values(|m: StrMap<String>| m@)
}

/// Whether the stack slots that `program` can give out stay within the
/// 32-bit offsets the checker uses (the condition under which `check` runs).
pub fn stack_fits(program: &Vec<Instruction>) -> (b: bool)
    ensures
        b == (4 * slots_from(insts_view(program@), 0) <= 0x8000_0000),
{
    let ghost prog = insts_view(program@);
    let mut acc: u64 = 0;
    let mut i: usize = 0;
    while i < program.len()
        invariant
            i <= program.len(),
            prog == insts_view(program@),
            acc <= 0x2000_0000,
            slots_from(prog, 0) == acc + slots_from(prog, i as int),
        decreases program.len() - i,
    {
        assert(prog[i as int] == program@[i as int]@);
        let n: usize = match &program[i].kind {
            InstructionKind::Fn { params, .. } => params.len(),
            _ => 0,
        };
        if n >= 0x2000_0000 {
            return false;
        }
        assert(slots(prog[i as int]) == n + 1);
        acc = acc + n as u64 + 1;
        i = i + 1;
        if acc > 0x2000_0000 {
            return false;
        }
    }
    true
}

/// The type checker for one program.
pub struct Checker<'a> {
    program: &'a Vec<Instruction>,
    symbols: StrMap<Symbol>,
    working_funcs: Vec<String>,
    passed_labels: StrSet,
    forward_jump: Option<String>,
    jumped_symbols: StrSet,
    current: StrMap<String>,
    resolutions: Vec<StrMap<String>>,
    inst_index: usize,
    current_stack_offset: i32,
}

impl<'a> View for Checker<'a> {
    type V = CState;

    closed spec fn view(&self) -> CState {
        CState {
            symbols: self.symbols@,
            working_funcs: strs_view(self.working_funcs@),
            passed_labels: self.passed_labels@,
            forward_jump: match self.forward_jump {
                Some(s) => Some(s@),
                None => None,
            },
            jumped: self.jumped_symbols@,
            cur: self.current@,
            stack_offset: self.current_stack_offset as int,
        }
    }
}

fn sym_error<T>(line: usize, id: &String, tail: &str) -> (res: Result<T, Error>)
    ensures
        res matches Err(e) && e@ == loc_msg(line as nat, sym_msg(id@, tail@)),
{
    let msg = concat3("Symbol '", id.as_str(), tail);
    loc_error(line, msg.as_str())
}

fn type_error<T>(line: usize, from: &Type, to: &Type) -> (res: Result<T, Error>)
    ensures
        res matches Err(e) && e@ == loc_msg(line as nat, type_msg(*from, *to)),
{
    let a = from.as_str();
    let b = to.as_str();
    let mut msg = String::from_str("Type '");
    msg.append(a.as_str());
    msg.append("' is not assignable to '");
    msg.append(b.as_str());
    msg.append("'");
    loc_error(line, msg.as_str())
}

fn fresh_symbol(id: String, ty: Type, is_fn: bool, reassignable: bool, global: bool, params: Vec<String>) -> (s: Symbol)
    ensures
        s@ == crate::checker_spec::fresh(id@, ty, is_fn, reassignable, global, strs_view(params@)),
{
    Symbol {
        id,
        ty,
        is_fn,
        is_visible: true,
        is_reassignable: reassignable,
        is_global: global,
        mangled_params: params,
        stack_offset: 0,
    }
}

impl<'a> Checker<'a> {
    /// The program being checked.
    pub closed spec fn prog(&self) -> Seq<Instruction> {
        self.program@
    }

    /// The checker's invariant: its maps and sets hold distinct keys.
    pub closed spec fn wf(&self) -> bool {
        &&& self.symbols.wf()
        &&& self.passed_labels.wf()
        &&& self.jumped_symbols.wf()
        &&& self.current.wf()
        &&& forall|j: int| 0 <= j < self.resolutions@.len() ==> (#[trigger] self.resolutions@[j]).wf()
    }

    /// The resolutions recorded for the instructions already checked.
    pub closed spec fn done(&self) -> Seq<Map<Seq<char>, Seq<char>>> {
        res_view(self.resolutions@)
    }

    /// A checker for `program`, with an empty symbol table.
    pub fn new(program: &'a Vec<Instruction>) -> (c: Checker<'a>)
        ensures
            c.wf(),
            c@ == initial_state(),
            c.prog() == program@,
            c.done() == Seq::<Map<Seq<char>, Seq<char>>>::empty(),
    {
        let c = Checker {
            program,
            symbols: StrMap::new(),
            working_funcs: Vec::new(),
            passed_labels: StrSet::new(),
            forward_jump: None,
            jumped_symbols: StrSet::new(),
            current: StrMap::new(),
            resolutions: Vec::new(),
            inst_index: 0,
            current_stack_offset: 0,
        };
        assert(strs_view(c.working_funcs@) =~= Seq::empty());
        assert(res_view(c.resolutions@) =~= Seq::empty());
        c
    }

    /// The name under which `id` is declared in the current scope.
    pub fn mangle_id(&self, id: &String) -> (m: String)
        ensures
            m@ == mangle(self@, id@),
    {
        if self.working_funcs.len() == 0 {
            id.clone()
        } else {
            let f = &self.working_funcs[self.working_funcs.len() - 1];
            concat3(f.as_str(), "#", id.as_str())
        }
    }

    /// The innermost declaration of `id` in the functions that enclose the
    /// current instruction, or `id` itself.
    pub fn resolve_id(&self, id: &String) -> (r: String)
        requires
            self.wf(),
        ensures
            r@ == resolve(self@, id@),
    {
        let ghost wf = strs_view(self.working_funcs@);
        let mut i = self.working_funcs.len();
        assert(wf.subrange(0, i as int) == wf);
        while i > 0
            invariant
                i <= self.working_funcs.len(),
                wf == strs_view(self.working_funcs@),
                self.symbols.wf(),
                resolve(self@, id@) == resolve_in(self@.symbols, wf.subrange(0, i as int), id@),
            decreases i,
        {
            i = i - 1;
            let m = concat3(self.working_funcs[i].as_str(), "#", id.as_str());
            assert(wf.subrange(0, i + 1).drop_last() == wf.subrange(0, i as int));
            assert(wf.subrange(0, i + 1).last() == self.working_funcs@[i as int]@);
            if self.symbols.contains_key(&m) {
                return m;
            }
        }
        id.clone()
    }

    /// Resolves `id` and records the resolution for the current instruction.
    pub fn resolve_id_logged(&mut self, id: &String) -> (r: String)
        requires
            old(self).wf(),
        ensures
            final(self).wf(),
            (r@, final(self)@) == log(old(self)@, id@),
            final(self).prog() == old(self).prog(),
            final(self).done() == old(self).done(),
    {
        let r = self.resolve_id(id);
        self.current.insert(id.clone(), r.clone());
        r
    }

    fn jot(&mut self, r: &String)
        requires
            old(self).wf(),
        ensures
            final(self).wf(),
            final(self)@ == jot(old(self)@, r@),
            final(self).prog() == old(self).prog(),
            final(self).done() == old(self).done(),
    {
        if self.forward_jump.is_some() {
            self.jumped_symbols.insert(r.clone());
        }
    }

    /// Gives the symbol `r` the type `ty` and the next stack slot.
    fn place(&mut self, r: &String, ty: Type, line: usize) -> (res: Result<(), Error>)
        requires
            old(self).wf(),
            old(self)@.symbols.dom().contains(r@),
            old(self)@.stack_offset >= i32::MIN + 4,
        ensures
            final(self).wf(),
            match place(old(self)@, r@, ty, line as nat) {
                Ok(st) => res is Ok && final(self)@ == st,
                Err((m, st)) => res matches Err(e) && e@ == m && final(self)@ == st,
            },
            old(self)@.stack_offset - 4 <= final(self)@.stack_offset <= old(self)@.stack_offset,
            final(self).prog() == old(self).prog(),
            final(self).done() == old(self).done(),
    {
        let size = ty.size(line)?;
        let off = self.current_stack_offset - size.ordinal();
        let mut sym = self.symbols.get(r).unwrap().copy();
        sym.stack_offset = off;
        sym.ty = ty;
        self.current_stack_offset = off;
        self.symbols.insert(r.clone(), sym);
        Ok(())
    }

    /// The type of the value `val`; a symbol is resolved and recorded.
    pub fn get_value_ty(&mut self, val: &Value, line: usize) -> (res: Result<Type, Error>)
        requires
            old(self).wf(),
        ensures
            final(self).wf(),
            match value_ty(old(self)@, val@, line as nat) {
                Ok((t, st)) => res matches Ok(r) && r == t && final(self)@ == st,
                Err((m, st)) => res matches Err(e) && e@ == m && final(self)@ == st,
            },
            final(self)@.stack_offset == old(self)@.stack_offset,
            final(self).prog() == old(self).prog(),
            final(self).done() == old(self).done(),
    {
        match val {
            Value::Symbol(id) => {
                let r = self.resolve_id_logged(id);
                match self.symbols.get(&r) {
                    None => sym_error(line, id, "' never declared"),
                    Some(sym) => {
                        if matches!(sym.ty, Type::Undeclared) {
                            sym_error(line, id, "' used before it's declared")
                        } else if !sym.is_visible {
                            sym_error(line, id, "' is not visible")
                        } else if sym.is_fn {
                            sym_error(line, id, "' is a function and cannot be used as a value")
                        } else {
                            Ok(sym.ty.clone())
                        }
                    },
                }
            },
            Value::Bool(_) => Ok(Type::Bool),
            Value::String(_) => Ok(Type::String),
            Value::UInt8(_) => Ok(Type::UInt8),
            Value::UInt16(_) => Ok(Type::UInt16),
            Value::UInt32(_) => Ok(Type::UInt32),
            Value::UInt64(_) => Ok(Type::UInt64),
            Value::UInt128(_) => Ok(Type::UInt128),
            Value::Int8(_) => Ok(Type::Int8),
            Value::Int16(_) => Ok(Type::Int16),
            Value::Int32(_) => Ok(Type::Int32),
            Value::Int64(_) => Ok(Type::Int64),
            Value::Int128(_) => Ok(Type::Int128),
            Value::Float32(..) => Ok(Type::Float32),
            Value::Float64(..) => Ok(Type::Float64),
            Value::FloatLiteral(_) => loc_error(line, "Floating-point literal without a precision"),
        }
    }
}

} // verus!

verus! {

// The first pass: entering declarations.
impl<'a> Checker<'a> {
    fn declare_value_initial(&mut self, id: &String)
        requires
            old(self).wf(),
        ensures
            final(self).wf(),
            final(self)@ == init_value(old(self)@, id@),
            final(self).prog() == old(self).prog(),
            final(self).done() == old(self).done(),
    {
        let m = self.mangle_id(id);
        let global = self.working_funcs.len() == 0;
        let sym = fresh_symbol(m.clone(), Type::Undeclared, false, true, global, Vec::new());
        assert(strs_view(Seq::<String>::empty()) =~= Seq::empty());
        self.symbols.insert(m, sym);
    }

    fn check_decl_initial(&mut self, id: &String)
        requires
            old(self).wf(),
        ensures
            final(self).wf(),
            final(self)@ == init_value(old(self)@, id@),
            final(self).prog() == old(self).prog(),
            final(self).done() == old(self).done(),
    {
        self.declare_value_initial(id);
    }

    fn check_unary_initial(&mut self, id: &String)
        requires
            old(self).wf(),
        ensures
            final(self).wf(),
            final(self)@ == init_value(old(self)@, id@),
            final(self).prog() == old(self).prog(),
            final(self).done() == old(self).done(),
    {
        self.declare_value_initial(id);
    }

    fn check_binary_initial(&mut self, id: &String)
        requires
            old(self).wf(),
        ensures
            final(self).wf(),
            final(self)@ == init_value(old(self)@, id@),
            final(self).prog() == old(self).prog(),
            final(self).done() == old(self).done(),
    {
        self.declare_value_initial(id);
    }

    #[verifier::loop_isolation(false)]
    fn check_fn_initial(&mut self, line: usize, id: &String, params: &Vec<(Type, String)>) -> (res: Result<(), Error>)
        requires
            old(self).wf(),
        ensures
            final(self).wf(),
            match init_fn(old(self)@, id@, params_view(params@), line as nat) {
                Ok(st) => res is Ok && final(self)@ == st,
                Err((m, st)) => res matches Err(e) && e@ == m && final(self)@ == st,
            },
            final(self).prog() == old(self).prog(),
            final(self).done() == old(self).done(),
    {
        let m = self.mangle_id(id);
        if self.symbols.contains_key(&m) {
            return sym_error(line, id, "' has already been declared");
        }
        let ghost pv = params_view(params@);
        let ghost st0 = self@;
        let mut mps: Vec<String> = Vec::new();
        let mut i: usize = 0;
        assert(strs_view(mps@) =~= Seq::empty());
        while i < params.len()
            invariant
                self.wf(),
                i <= params.len(),
                pv == params_view(params@),
                self@.working_funcs == st0.working_funcs,
                init_params(st0, pv, 0, Seq::empty(), line as nat) == init_params(self@, pv, i as int, strs_view(mps@), line as nat),
                self.prog() == old(self).prog(),
                self.done() == old(self).done(),
                m@ == mangle(st0, id@),
                st0 == old(self)@,
                !st0.symbols.dom().contains(m@),
            decreases params.len() - i,
        {
            let p_id = &params[i].1;
            assert(pv[i as int].1 == p_id@);
            let mp = self.mangle_id(p_id);
            if self.symbols.contains_key(&mp) {
                return sym_error(line, p_id, "' has already been declared");
            }
            let ghost old_mps = mps@;
            mps.push(mp.clone());
            assert(strs_view(mps@) =~= strs_view(old_mps).push(mp@));
            let sym = fresh_symbol(mp.clone(), Type::Undeclared, false, true, false, Vec::new());
            assert(strs_view(Seq::<String>::empty()) =~= Seq::empty());
            self.symbols.insert(mp, sym);
            i = i + 1;
        }
        let ghost mv = strs_view(mps@);
        let sym = fresh_symbol(m.clone(), Type::Undeclared, true, false, false, mps);
        self.symbols.insert(m.clone(), sym);
        let ghost old_wf = self.working_funcs@;
        self.working_funcs.push(m);
        assert(strs_view(self.working_funcs@) =~= strs_view(old_wf).push(mangle(st0, id@)));
        Ok(())
    }

    fn check_ret_initial(&mut self, line: usize) -> (res: Result<(), Error>)
        requires
            old(self).wf(),
        ensures
            final(self).wf(),
            match init_ret(old(self)@, line as nat) {
                Ok(st) => res is Ok && final(self)@ == st,
                Err((m, st)) => res matches Err(e) && e@ == m && final(self)@ == st,
            },
            final(self).prog() == old(self).prog(),
            final(self).done() == old(self).done(),
    {
        if self.working_funcs.len() == 0 {
            return loc_error(line, "Unmatched return");
        }
        let ghost old_wf = self.working_funcs@;
        self.working_funcs.pop();
        assert(strs_view(self.working_funcs@) =~= strs_view(old_wf).drop_last());
        Ok(())
    }

    fn check_call_initial(&mut self, line: usize, op: &String, id: &String, nargs: usize) -> (res: Result<(), Error>)
        requires
            old(self).wf(),
        ensures
            final(self).wf(),
            match init_call(old(self)@, op@, id@, nargs as nat, line as nat) {
                Ok(st) => res is Ok && final(self)@ == st,
                Err((m, st)) => res matches Err(e) && e@ == m && final(self)@ == st,
            },
            final(self).prog() == old(self).prog(),
            final(self).done() == old(self).done(),
    {
        let r = self.resolve_id(op);
        let n = match self.symbols.get(&r) {
            None => return sym_error(line, op, "' never declared"),
            Some(f) => {
                if !f.is_fn {
                    return sym_error(line, op, "' is not callable");
                }
                f.mangled_params.len()
            },
        };
        if nargs != n {
            let mut msg = concat3("Symbol '", op.as_str(), "' expected ");
            push_dec_u128(&mut msg, n as u128);
            msg.append(" arguments but ");
            push_dec_u128(&mut msg, nargs as u128);
            msg.append(" were provided");
            return loc_error(line, msg.as_str());
        }
        self.declare_value_initial(id);
        Ok(())
    }

    fn check_label_initial(&mut self, line: usize, id: &String) -> (res: Result<(), Error>)
        requires
            old(self).wf(),
        ensures
            final(self).wf(),
            match init_label(old(self)@, id@, line as nat) {
                Ok(st) => res is Ok && final(self)@ == st,
                Err((m, st)) => res matches Err(e) && e@ == m && final(self)@ == st,
            },
            final(self).prog() == old(self).prog(),
            final(self).done() == old(self).done(),
    {
        let m = self.mangle_id(id);
        if self.symbols.contains_key(&m) {
            return sym_error(line, id, "' has already been declared");
        }
        let sym = fresh_symbol(m.clone(), Type::Label, false, false, false, Vec::new());
        assert(strs_view(Seq::<String>::empty()) =~= Seq::empty());
        self.symbols.insert(m, sym);
        Ok(())
    }

    /// The first pass on one instruction.
    pub fn check_inst_initial(&mut self, inst: &Instruction) -> (res: Result<(), Error>)
        requires
            old(self).wf(),
        ensures
            final(self).wf(),
            match step1(old(self)@, inst@) {
                Ok(st) => res is Ok && final(self)@ == st,
                Err((m, st)) => res matches Err(e) && e@ == m && final(self)@ == st,
            },
            final(self).prog() == old(self).prog(),
            final(self).done() == old(self).done(),
    {
        match &inst.kind {
            InstructionKind::Import { .. } => loc_error(inst.line, "Imports should not be passed to the checker"),
            InstructionKind::Decl { id, .. } => {
                self.check_decl_initial(id);
                Ok(())
            },
            InstructionKind::Fn { id, params, .. } => self.check_fn_initial(inst.line, id, params),
            InstructionKind::Ret { .. } => self.check_ret_initial(inst.line),
            InstructionKind::Call { op, id, args } => self.check_call_initial(inst.line, op, id, args.len()),
            InstructionKind::Label { id } => self.check_label_initial(inst.line, id),
            InstructionKind::UnaryOp { id, .. } => {
                self.check_unary_initial(id);
                Ok(())
            },
            InstructionKind::BinaryOp { id, .. } => {
                self.check_binary_initial(id);
                Ok(())
            },
            _ => Ok(()),
        }
    }
}

} // verus!

verus! {

fn is_integer_ty(t: &Type) -> (b: bool)
    ensures
        b == crate::types::is_integer(*t),
{
    t.is_unsigned() || t.is_signed()
}

fn is_float_ty(t: &Type) -> (b: bool)
    ensures
        b == crate::types::is_float(*t),
{
    matches!(t, Type::Float32 | Type::Float64)
}

// The second pass: resolution and type checking.
impl<'a> Checker<'a> {
    fn check_decl(&mut self, line: usize, ty: &Type, id: &String, value: &Value) -> (res: Result<(), Error>)
        requires
            old(self).wf(),
            old(self)@.stack_offset >= i32::MIN + 4,
        ensures
            final(self).wf(),
            match check_decl(old(self)@, *ty, id@, value@, line as nat) {
                Ok(st) => res is Ok && final(self)@ == st,
                Err((m, st)) => res matches Err(e) && e@ == m && final(self)@ == st,
            },
            final(self)@.stack_offset >= old(self)@.stack_offset - 4,
            final(self).prog() == old(self).prog(),
            final(self).done() == old(self).done(),
    {
        let val_ty = self.get_value_ty(value, line)?;
        let resolved_id = self.resolve_id_logged(id);
        self.jot(&resolved_id);
        if !self.symbols.contains_key(&resolved_id) {
            return sym_error(line, &resolved_id, "' is missing from the symbol table");
        }
        if !val_ty.is_assignable_to(ty) {
            return type_error(line, &val_ty, ty);
        }
        self.place(&resolved_id, ty.clone(), line)
    }

    fn check_assign(&mut self, line: usize, id: &String, value: &Value) -> (res: Result<(), Error>)
        requires
            old(self).wf(),
        ensures
            final(self).wf(),
            match check_assign(old(self)@, id@, value@, line as nat) {
                Ok(st) => res is Ok && final(self)@ == st,
                Err((m, st)) => res matches Err(e) && e@ == m && final(self)@ == st,
            },
            final(self)@.stack_offset == old(self)@.stack_offset,
            final(self).prog() == old(self).prog(),
            final(self).done() == old(self).done(),
    {
        let val_ty = self.get_value_ty(value, line)?;
        let resolved_id = self.resolve_id_logged(id);
        match self.symbols.get(&resolved_id) {
            None => sym_error(line, id, "' never declared"),
            Some(sym) => {
                if !sym.is_visible {
                    sym_error(line, id, "' is not visible")
                } else if sym.is_global {
                    sym_error(line, id, "' is global and cannot be assigned")
                } else if sym.is_fn {
                    sym_error(line, id, "' is callable and cannot be assigned")
                } else if !sym.is_reassignable {
                    sym_error(line, id, "' is not assignable")
                } else if !val_ty.is_assignable_to(&sym.ty) {
                    type_error(line, &val_ty, &sym.ty)
                } else {
                    Ok(())
                }
            },
        }
    }

    #[verifier::loop_isolation(false)]
    fn check_fn(&mut self, line: usize, ty: &Type, id: &String, params: &Vec<(Type, String)>) -> (res: Result<(), Error>)
        requires
            old(self).wf(),
            old(self)@.stack_offset >= i32::MIN + 4 * (params.len() + 1),
        ensures
            final(self).wf(),
            match check_fn(old(self)@, *ty, id@, params_view(params@), line as nat) {
                Ok(st) => res is Ok && final(self)@ == st,
                Err((m, st)) => res matches Err(e) && e@ == m && final(self)@ == st,
            },
            final(self)@.stack_offset >= old(self)@.stack_offset - 4 * (params.len() + 1),
            final(self).prog() == old(self).prog(),
            final(self).done() == old(self).done(),
    {
        let resolved_id = self.resolve_id_logged(id);
        self.jot(&resolved_id);
        let ghost pv = params_view(params@);
        let ghost st2 = self@;
        let mut i: usize = 0;
        while i < params.len()
            invariant
                self.wf(),
                i <= params.len(),
                pv == params_view(params@),
                check_params(st2, pv, 0, line as nat) == check_params(self@, pv, i as int, line as nat),
                self@.stack_offset >= old(self)@.stack_offset - 4 * i,
                old(self)@.stack_offset >= i32::MIN + 4 * (params.len() + 1),
                self.prog() == old(self).prog(),
                self.done() == old(self).done(),
            decreases params.len() - i,
        {
            let (p_ty, p_id) = (&params[i].0, &params[i].1);
            assert(pv[i as int] == (*p_ty, p_id@));
            let resolved_p_id = self.resolve_id_logged(p_id);
            self.jot(&resolved_p_id);
            if !self.symbols.contains_key(&resolved_p_id) {
                return sym_error(line, &resolved_p_id, "' is missing from the symbol table");
            }
            self.place(&resolved_p_id, p_ty.clone(), line)?;
            i = i + 1;
        }
        if !self.symbols.contains_key(&resolved_id) {
            return sym_error(line, &resolved_id, "' is missing from the symbol table");
        }
        self.place(&resolved_id, ty.clone(), line)?;
        let ghost old_wf = self.working_funcs@;
        self.working_funcs.push(resolved_id);
        assert(strs_view(self.working_funcs@) =~= strs_view(old_wf).push(self.working_funcs@.last()@));
        Ok(())
    }

    fn check_ret(&mut self, line: usize, ret: &Value) -> (res: Result<(), Error>)
        requires
            old(self).wf(),
        ensures
            final(self).wf(),
            match check_ret(old(self)@, ret@, line as nat) {
                Ok(st) => res is Ok && final(self)@ == st,
                Err((m, st)) => res matches Err(e) && e@ == m && final(self)@ == st,
            },
            final(self)@.stack_offset == old(self)@.stack_offset,
            final(self).prog() == old(self).prog(),
            final(self).done() == old(self).done(),
    {
        let val_ty = self.get_value_ty(ret, line)?;
        if self.working_funcs.len() == 0 {
            return loc_error(line, "Unmatched return");
        }
        let fn_id = self.working_funcs[self.working_funcs.len() - 1].clone();
        match self.symbols.get(&fn_id) {
            None => {
                return sym_error(line, &fn_id, "' is missing from the symbol table");
            },
            Some(fn_sym) => {
                if !val_ty.is_assignable_to(&fn_sym.ty) {
                    return type_error(line, &val_ty, &fn_sym.ty);
                }
            },
        }
        let ghost old_wf = self.working_funcs@;
        self.working_funcs.pop();
        assert(strs_view(self.working_funcs@) =~= strs_view(old_wf).drop_last());
        Ok(())
    }

    #[verifier::loop_isolation(false)]
    fn check_call(&mut self, line: usize, op: &String, id: &String, args: &Vec<Value>) -> (res: Result<(), Error>)
        requires
            old(self).wf(),
            old(self)@.stack_offset >= i32::MIN + 4,
        ensures
            final(self).wf(),
            match check_call(old(self)@, op@, id@, values_view(args@), line as nat) {
                Ok(st) => res is Ok && final(self)@ == st,
                Err((m, st)) => res matches Err(e) && e@ == m && final(self)@ == st,
            },
            final(self)@.stack_offset >= old(self)@.stack_offset - 4,
            final(self).prog() == old(self).prog(),
            final(self).done() == old(self).done(),
    {
        let resolved_op = self.resolve_id_logged(op);
        let ghost av = values_view(args@);
        let ghost st1 = self@;
        let mut arg_tys: Vec<Type> = Vec::new();
        let mut i: usize = 0;
        while i < args.len()
            invariant
                self.wf(),
                i <= args.len(),
                av == values_view(args@),
                arg_types(st1, av, 0, line as nat, Seq::empty()) == arg_types(self@, av, i as int, line as nat, arg_tys@),
                self@.stack_offset == old(self)@.stack_offset,
                self.prog() == old(self).prog(),
                self.done() == old(self).done(),
            decreases args.len() - i,
        {
            assert(av[i as int] == args@[i as int]@);
            let t = self.get_value_ty(&args[i], line)?;
            arg_tys.push(t);
            i = i + 1;
        }
        let (fn_ty, params) = match self.symbols.get(&resolved_op) {
            None => return sym_error(line, &resolved_op, "' is missing from the symbol table"),
            Some(fn_sym) => {
                if !fn_sym.is_visible {
                    return sym_error(line, op, "' is not visible");
                }
                if !fn_sym.is_fn {
                    return sym_error(line, op, "' is not a function");
                }
                (fn_sym.ty.clone(), crate::symbol::clone_strs(&fn_sym.mangled_params))
            },
        };
        let ghost syms = self@.symbols;
        let ghost mps = strs_view(params@);
        let mut j: usize = 0;
        while j < arg_tys.len() && j < params.len()
            invariant
                self.wf(),
                self@.symbols == syms,
                mps == strs_view(params@),
                arg_mismatch(syms, arg_tys@, mps, 0, line as nat) == arg_mismatch(syms, arg_tys@, mps, j as int, line as nat),
            decreases arg_tys.len() - j,
        {
            let mp = &params[j];
            assert(mps[j as int] == mp@);
            match self.symbols.get(mp) {
                None => return sym_error(line, mp, "' is missing from the symbol table"),
                Some(p_sym) => {
                    if !arg_tys[j].is_assignable_to(&p_sym.ty) {
                        return type_error(line, &arg_tys[j], &p_sym.ty);
                    }
                },
            }
            j = j + 1;
        }
        let resolved_id = self.resolve_id_logged(id);
        self.jot(&resolved_id);
        if !self.symbols.contains_key(&resolved_id) {
            return sym_error(line, &resolved_id, "' is missing from the symbol table");
        }
        self.place(&resolved_id, fn_ty, line)
    }

    #[verifier::loop_isolation(false)]
    fn check_label(&mut self, line: usize, id: &String) -> (res: Result<(), Error>)
        requires
            old(self).wf(),
        ensures
            final(self).wf(),
            match check_label(old(self)@, id@, line as nat) {
                Ok(st) => res is Ok && final(self)@ == st,
                Err((m, st)) => res matches Err(e) && e@ == m && final(self)@ == st,
            },
            final(self)@.stack_offset == old(self)@.stack_offset,
            final(self).prog() == old(self).prog(),
            final(self).done() == old(self).done(),
    {
        let resolved_id = self.resolve_id_logged(id);
        self.jot(&resolved_id);
        self.passed_labels.insert(resolved_id.clone());
        let reached = match &self.forward_jump {
            Some(target) => *target == resolved_id,
            None => false,
        };
        if reached {
            let ghost orig = self@.symbols;
            let ghost hidden = self@.jumped;
            let ghost before = self@;
            proof { self.jumped_symbols.lemma_items(); }
            let mut q: usize = 0;
            while q < self.jumped_symbols.len()
                invariant
                    self.wf(),
                    hidden == self.jumped_symbols@,
                    q <= self.jumped_symbols.items().len(),
                    self@ == before,
                    orig == before.symbols,
                    forall|j: int| 0 <= j < q ==> orig.dom().contains(#[trigger] self.jumped_symbols.items()[j]@),
                    forall|i: int| 0 <= i < self.jumped_symbols.items().len() ==> #[trigger] hidden.contains(self.jumped_symbols.items()[i]@),
                    self.prog() == old(self).prog(),
                    self.done() == old(self).done(),
                decreases self.jumped_symbols.items().len() - q,
            {
                if !self.symbols.contains_key(self.jumped_symbols.item(q)) {
                    assert(hidden.contains(self.jumped_symbols.items()[q as int]@));
                    assert(!hidden.subset_of(orig.dom()));
                    return loc_error(line, "A symbol declared after a forward jump is missing from the symbol table");
                }
                q = q + 1;
            }
            let mut k: usize = 0;
            while k < self.jumped_symbols.len()
                invariant
                    self.wf(),
                    hidden == self.jumped_symbols@,
                    k <= self.jumped_symbols.items().len(),
                    self@.symbols.dom() == orig.dom(),
                    forall|j: int| 0 <= j < self.jumped_symbols.items().len() ==> orig.dom().contains(#[trigger] self.jumped_symbols.items()[j]@),
                    forall|key: Seq<char>| #[trigger] self@.symbols.dom().contains(key) ==> self@.symbols[key] == (
                        if exists|j: int| 0 <= j < k && self.jumped_symbols.items()[j]@ == key {
                            SymbolV { is_visible: false, ..orig[key] }
                        } else {
                            orig[key]
                        }),
                    forall|i: int| 0 <= i < self.jumped_symbols.items().len() ==> #[trigger] hidden.contains(self.jumped_symbols.items()[i]@),
                    forall|key: Seq<char>| #[trigger] hidden.contains(key) ==> exists|i: int| 0 <= i < self.jumped_symbols.items().len() && self.jumped_symbols.items()[i]@ == key,
                    self.prog() == old(self).prog(),
                    self.done() == old(self).done(),
                    self@.stack_offset == old(self)@.stack_offset,
                    self@ == (CState { symbols: self@.symbols, ..before }),
                decreases self.jumped_symbols.items().len() - k,
            {
                let jumped_id = self.jumped_symbols.item(k).clone();
                let mut sym = match self.symbols.get(&jumped_id) {
                    None => {
                        assert(orig.dom().contains(self.jumped_symbols.items()[k as int]@));
                        unreached()
                    },
                    Some(s) => s.copy(),
                };
                let ghost prev = self@.symbols;
                sym.is_visible = false;
                self.symbols.insert(jumped_id, sym);
                assert forall|key: Seq<char>| #[trigger] self@.symbols.dom().contains(key) implies self@.symbols[key] == (
                    if exists|j: int| 0 <= j < k + 1 && self.jumped_symbols.items()[j]@ == key {
                        SymbolV { is_visible: false, ..orig[key] }
                    } else {
                        orig[key]
                    }) by {
                    if key == self.jumped_symbols.items()[k as int]@ {
                        assert(self.jumped_symbols.items()[k as int]@ == key);
                    } else {
                        assert(prev.dom().contains(key));
                    }
                }
                k = k + 1;
            }
            assert(hidden.subset_of(orig.dom()));
            assert(self@.symbols =~= hide_all(orig, hidden));
            self.forward_jump = None;
            self.jumped_symbols.clear();
        }
        Ok(())
    }
}

} // verus!

verus! {

impl<'a> Checker<'a> {
    fn check_jump(&mut self, line: usize, cond: &Value, label: &String) -> (res: Result<(), Error>)
        requires
            old(self).wf(),
        ensures
            final(self).wf(),
            match check_jump(old(self)@, cond@, label@, line as nat) {
                Ok(st) => res is Ok && final(self)@ == st,
                Err((m, st)) => res matches Err(e) && e@ == m && final(self)@ == st,
            },
            final(self)@.stack_offset == old(self)@.stack_offset,
            final(self).prog() == old(self).prog(),
            final(self).done() == old(self).done(),
    {
        let cond_ty = self.get_value_ty(cond, line)?;
        if !matches!(cond_ty, Type::Bool) {
            return loc_error(line, "Condition must have bool type");
        }
        let resolved_label = self.resolve_id_logged(label);
        match self.symbols.get(&resolved_label) {
            None => {
                return sym_error(line, label, "' never declared");
            },
            Some(sym) => {
                if !sym.is_visible {
                    return sym_error(line, label, "' is not visible");
                }
                if !matches!(sym.ty, Type::Label) {
                    return loc_error(line, "Jump target must be a label");
                }
            },
        }
        if self.passed_labels.contains(&resolved_label) {
            self.forward_jump = None;
        } else {
            self.forward_jump = Some(resolved_label);
        }
        Ok(())
    }

    /// The type of the result of the unary operation `op` on a value of
    /// type `val_ty`, or the reason it is refused.
    fn unary_result(op: UnaryOp, val_ty: Type, line: usize) -> (res: Result<Type, Error>)
        ensures
            match unary_result(op, val_ty) {
                Ok(t) => res matches Ok(r) && r == t,
                Err(m) => res matches Err(e) && e@ == loc_msg(line as nat, m),
            },
    {
        match op {
            UnaryOp::Neg => {
                if val_ty.is_signed() || is_float_ty(&val_ty) {
                    Ok(val_ty)
                } else {
                    loc_error(line, "Negation requires a float or integer type")
                }
            },
            UnaryOp::Not => {
                if matches!(val_ty, Type::Bool) || is_integer_ty(&val_ty) {
                    Ok(val_ty)
                } else {
                    loc_error(line, "Logical not requires bool or integer type")
                }
            },
            UnaryOp::Ref => Ok(Type::Ptr(Box::new(val_ty))),
            UnaryOp::Deref => {
                match val_ty {
                    Type::Ptr(inner) => Ok(*inner),
                    _ => loc_error(line, "Cannot dereference a non-pointer type"),
                }
            },
            UnaryOp::Lsh | UnaryOp::Rsh => {
                if is_integer_ty(&val_ty) {
                    Ok(val_ty)
                } else {
                    loc_error(line, "Bitwise shift requires an integer type")
                }
            },
        }
    }

    fn check_unary(&mut self, line: usize, op: UnaryOp, id: &String, val: &Value) -> (res: Result<(), Error>)
        requires
            old(self).wf(),
            old(self)@.stack_offset >= i32::MIN + 4,
        ensures
            final(self).wf(),
            match check_unary(old(self)@, op, id@, val@, line as nat) {
                Ok(st) => res is Ok && final(self)@ == st,
                Err((m, st)) => res matches Err(e) && e@ == m && final(self)@ == st,
            },
            final(self)@.stack_offset >= old(self)@.stack_offset - 4,
            final(self).prog() == old(self).prog(),
            final(self).done() == old(self).done(),
    {
        let resolved_id = self.resolve_id_logged(id);
        self.jot(&resolved_id);
        let val_ty = self.get_value_ty(val, line)?;
        if !self.symbols.contains_key(&resolved_id) {
            return sym_error(line, &resolved_id, "' is missing from the symbol table");
        }
        let final_ty = Self::unary_result(op, val_ty, line)?;
        self.place(&resolved_id, final_ty, line)
    }

    fn check_binary(&mut self, line: usize, op: BinaryOp, id: &String, a: &Value, b: &Value) -> (res: Result<(), Error>)
        requires
            old(self).wf(),
            old(self)@.stack_offset >= i32::MIN + 4,
        ensures
            final(self).wf(),
            match check_binary(old(self)@, op, id@, a@, b@, line as nat) {
                Ok(st) => res is Ok && final(self)@ == st,
                Err((m, st)) => res matches Err(e) && e@ == m && final(self)@ == st,
            },
            final(self)@.stack_offset >= old(self)@.stack_offset - 4,
            final(self).prog() == old(self).prog(),
            final(self).done() == old(self).done(),
    {
        let resolved_id = self.resolve_id_logged(id);
        self.jot(&resolved_id);
        let a_ty = self.get_value_ty(a, line)?;
        let b_ty = self.get_value_ty(b, line)?;
        if !self.symbols.contains_key(&resolved_id) {
            return sym_error(line, &resolved_id, "' is missing from the symbol table");
        }
        let final_ty = a_ty.join(&b_ty, line)?;
        match op {
            BinaryOp::Add | BinaryOp::Sub | BinaryOp::Mult | BinaryOp::Div => {
                if !(is_integer_ty(&final_ty) || is_float_ty(&final_ty)) {
                    return loc_error(line, "Arithmetic operations require integer or float types");
                }
            },
            BinaryOp::And | BinaryOp::Or | BinaryOp::Xor => {
                if !(matches!(final_ty, Type::Bool) || is_integer_ty(&final_ty)) {
                    return loc_error(line, "Binary logical operations require bool or integer types");
                }
            },
        }
        self.place(&resolved_id, final_ty, line)
    }

    /// The second pass on one instruction.
    pub fn check_inst(&mut self, inst: &Instruction) -> (res: Result<(), Error>)
        requires
            old(self).wf(),
            old(self)@.stack_offset >= i32::MIN + 4 * slots(inst@),
        ensures
            final(self).wf(),
            match step2(old(self)@, inst@) {
                Ok(st) => res is Ok && final(self)@ == st,
                Err((m, st)) => res matches Err(e) && e@ == m && final(self)@ == st,
            },
            final(self)@.stack_offset >= old(self)@.stack_offset - 4 * slots(inst@),
            final(self).prog() == old(self).prog(),
            final(self).done() == old(self).done(),
    {
        let line = inst.line;
        match &inst.kind {
            InstructionKind::Import { .. } => loc_error(line, "Imports should not be passed to the checker"),
            InstructionKind::Decl { ty, id, value } => self.check_decl(line, ty, id, value),
            InstructionKind::Assign { id, value } => self.check_assign(line, id, value),
            InstructionKind::Fn { ty, id, params } => self.check_fn(line, ty, id, params),
            InstructionKind::Ret { ret } => self.check_ret(line, ret),
            InstructionKind::Call { op, id, args } => self.check_call(line, op, id, args),
            InstructionKind::Label { id } => self.check_label(line, id),
            InstructionKind::Jump { cond, label } => self.check_jump(line, cond, label),
            InstructionKind::UnaryOp { op, id, val } => self.check_unary(line, *op, id, val),
            InstructionKind::BinaryOp { op, id, a, b } => self.check_binary(line, *op, id, a, b),
        }
    }

    /// Runs both passes over the program: gives the symbol table and the
    /// resolutions of each instruction, or the first error.
    #[verifier::loop_isolation(false)]
    pub fn check(self) -> (res: Result<(StrMap<Symbol>, Vec<StrMap<String>>), Error>)
        requires
            self.wf(),
            self@ == initial_state(),
            self.done() == Seq::<Map<Seq<char>, Seq<char>>>::empty(),
            4 * slots_from(insts_view(self.prog()), 0) <= 0x8000_0000,
        ensures
            match spec_check(insts_view(self.prog())) {
                Ok((syms, res_maps)) => res matches Ok((s, r)) && s.wf() && s@ == syms && res_view(r@) == res_maps
                    && forall|j: int| 0 <= j < r@.len() ==> (#[trigger] r@[j]).wf(),
                Err(m) => res matches Err(e) && e@ == m,
            },
    {
        let mut c = self;
        let program = c.program;
        let ghost prog = insts_view(program@);
        let mut i: usize = 0;
        while i < program.len()
            invariant
                c.wf(),
                prog == insts_view(program@),
                i <= program.len(),
                run1(prog, 0, initial_state()) == run1(prog, i as int, c@),
                c.done() == Seq::<Map<Seq<char>, Seq<char>>>::empty(),
            decreases program.len() - i,
        {
            assert(prog[i as int] == program@[i as int]@);
            c.check_inst_initial(&program[i])?;
            i = i + 1;
        }
        c.passed_labels = StrSet::new();
        c.forward_jump = None;
        c.jumped_symbols = StrSet::new();
        c.current_stack_offset = 0;
        c.current = StrMap::new();
        let ghost st2 = c@;
        let mut i: usize = 0;
        while i < program.len()
            invariant
                c.wf(),
                prog == insts_view(program@),
                i <= program.len(),
                run2(prog, 0, st2, Seq::empty()) == run2(prog, i as int, c@, c.done()),
                c.resolutions@.len() == i,
                c@.cur == Map::<Seq<char>, Seq<char>>::empty(),
                c@.stack_offset >= -4 * (slots_from(prog, 0) - slots_from(prog, i as int)),
                slots_from(prog, i as int) <= slots_from(prog, 0),
            decreases program.len() - i,
        {
            assert(prog[i as int] == program@[i as int]@);
            c.inst_index = i;
            c.check_inst(&program[i])?;
            let mut done = StrMap::new();
            std::mem::swap(&mut done, &mut c.current);
            let ghost old_res = c.resolutions@;
            assert(done.wf());
            c.resolutions.push(done);
            assert(c.resolutions@[c.resolutions@.len() - 1].wf());
            assert(forall|j: int| 0 <= j < old_res.len() ==> c.resolutions@[j] == old_res[j]);
            assert(res_view(c.resolutions@) =~= res_view(old_res).push(done@));
            i = i + 1;
        }
        Ok((c.symbols, c.resolutions))
    }
}

} // verus!
