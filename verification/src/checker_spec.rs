//! What the two checker passes do, instruction by instruction.
//!
//! The first pass enters every declared name in the symbol table, under its
//! mangled name (`f#x` for `x` declared in function `f`), and checks that
//! calls name a function with the right number of arguments. The second
//! pass resolves every name to the innermost enclosing declaration,
//! records each resolution per instruction, checks types, gives each value
//! its type and a stack slot, and hides symbols declared between a forward
//! jump and its label.
//!
//! A step that fails gives its message together with the state it leaves
//! at the point it fails: what it resolved and noted up to there stays.

use vstd::prelude::*;
use crate::types::{Type, assignable, spec_size, spec_join, ty_text, no_common_msg, no_size_msg, is_signed,
    is_integer, is_float};
use crate::ast::{ValueV, KindV, InstV, UnaryOp, BinaryOp};
use crate::error::loc_msg;
use crate::text::dec_nat;

verus! {

/// The view of a symbol-table entry.
pub struct SymbolV {
    pub id: Seq<char>,
    pub ty: Type,
    pub is_fn: bool,
    pub is_visible: bool,
    pub is_reassignable: bool,
    pub is_global: bool,
    pub mangled_params: Seq<Seq<char>>,
    pub stack_offset: int,
}

/// The checker's state.
pub struct CState {
    /// The symbol table, by mangled name.
    pub symbols: Map<Seq<char>, SymbolV>,
    /// The mangled names of the functions whose bodies enclose the current
    /// instruction, innermost last.
    pub working_funcs: Seq<Seq<char>>,
    /// The labels passed so far (second pass).
    pub passed_labels: Set<Seq<char>>,
    /// The label that a forward jump targets, while its label is not passed.
    pub forward_jump: Option<Seq<char>>,
    /// The symbols declared since that forward jump.
    pub jumped: Set<Seq<char>>,
    /// The resolutions recorded for the current instruction.
    pub cur: Map<Seq<char>, Seq<char>>,
    /// The offset of the last stack slot given out.
    pub stack_offset: int,
}

/// What a step gives: the state after it, or its error message with the
/// state it leaves at the point it fails.
pub type Step = Result<CState, (Seq<char>, CState)>;

/// `id` declared inside the function `f`.
pub open spec fn mangled(f: Seq<char>, id: Seq<char>) -> Seq<char> {
    f + "#"@ + id
}

/// The name under which `id` is declared in the current scope.
pub open spec fn mangle(st: CState, id: Seq<char>) -> Seq<char> {
    if st.working_funcs.len() == 0 {
        id
    } else {
        mangled(st.working_funcs.last(), id)
    }
}

/// The innermost declaration of `id` among the functions `wf`, or `id`
/// itself when none of them declares it.
pub open spec fn resolve_in(syms: Map<Seq<char>, SymbolV>, wf: Seq<Seq<char>>, id: Seq<char>) -> Seq<char>
    decreases wf.len(),
{
    if wf.len() == 0 {
        id
    } else if syms.dom().contains(mangled(wf.last(), id)) {
        mangled(wf.last(), id)
    } else {
        resolve_in(syms, wf.drop_last(), id)
    }
}

pub open spec fn resolve(st: CState, id: Seq<char>) -> Seq<char> {
    resolve_in(st.symbols, st.working_funcs, id)
}

/// A new, visible symbol without a stack slot.
pub open spec fn fresh(id: Seq<char>, ty: Type, is_fn: bool, reassignable: bool, global: bool, params: Seq<Seq<char>>) -> SymbolV {
    SymbolV {
        id,
        ty,
        is_fn,
        is_visible: true,
        is_reassignable: reassignable,
        is_global: global,
        mangled_params: params,
        stack_offset: 0,
    }
}

/// The message `Symbol '<id><tail>`.
pub open spec fn sym_msg(id: Seq<char>, tail: Seq<char>) -> Seq<char> {
    "Symbol '"@ + id + tail
}

pub open spec fn arg_count_msg(op: Seq<char>, expected: nat, given: nat) -> Seq<char> {
    "Symbol '"@ + op + "' expected "@ + dec_nat(expected) + " arguments but "@ + dec_nat(given) + " were provided"@
}

pub open spec fn type_msg(from: Type, to: Type) -> Seq<char> {
    "Type '"@ + ty_text(from) + "' is not assignable to '"@ + ty_text(to) + "'"@
}

// ---------------------------------------------------------------- first pass

/// Enters a value symbol (a declaration or the result of a call or an
/// operation) under its mangled name; it is global outside functions.
pub open spec fn init_value(st: CState, id: Seq<char>) -> CState {
    let m = mangle(st, id);
    CState {
        symbols: st.symbols.insert(m, fresh(m, Type::Undeclared, false, true, st.working_funcs.len() == 0, Seq::empty())),
        ..st
    }
}

/// Enters the parameters from index `i` on, after the mangled names `acc`.
pub open spec fn init_params(st: CState, params: Seq<(Type, Seq<char>)>, i: int, acc: Seq<Seq<char>>, line: nat)
    -> Result<(CState, Seq<Seq<char>>), (Seq<char>, CState)>
    decreases params.len() - i,
{
    if i >= params.len() || i < 0 {
        Ok((st, acc))
    } else {
        let p = params[i].1;
        let mp = mangle(st, p);
        if st.symbols.dom().contains(mp) {
            Err((loc_msg(line, sym_msg(p, "' has already been declared"@)), st))
        } else {
            let st2 = CState {
                symbols: st.symbols.insert(mp, fresh(mp, Type::Undeclared, false, true, false, Seq::empty())),
                ..st
            };
            init_params(st2, params, i + 1, acc.push(mp), line)
        }
    }
}

pub open spec fn init_fn(st: CState, id: Seq<char>, params: Seq<(Type, Seq<char>)>, line: nat) -> Step {
    let m = mangle(st, id);
    if st.symbols.dom().contains(m) {
        Err((loc_msg(line, sym_msg(id, "' has already been declared"@)), st))
    } else {
        match init_params(st, params, 0, Seq::empty(), line) {
            Err(e) => Err(e),
            Ok((st2, mps)) => Ok(CState {
                symbols: st2.symbols.insert(m, fresh(m, Type::Undeclared, true, false, false, mps)),
                working_funcs: st2.working_funcs.push(m),
                ..st2
            }),
        }
    }
}

pub open spec fn init_ret(st: CState, line: nat) -> Step {
    if st.working_funcs.len() == 0 {
        Err((loc_msg(line, "Unmatched return"@), st))
    } else {
        Ok(CState { working_funcs: st.working_funcs.drop_last(), ..st })
    }
}

pub open spec fn init_call(st: CState, op: Seq<char>, id: Seq<char>, nargs: nat, line: nat) -> Step {
    let r = resolve(st, op);
    if !st.symbols.dom().contains(r) {
        Err((loc_msg(line, sym_msg(op, "' never declared"@)), st))
    } else if !st.symbols[r].is_fn {
        Err((loc_msg(line, sym_msg(op, "' is not callable"@)), st))
    } else if nargs != st.symbols[r].mangled_params.len() {
        Err((loc_msg(line, arg_count_msg(op, st.symbols[r].mangled_params.len(), nargs)), st))
    } else {
        Ok(init_value(st, id))
    }
}

pub open spec fn init_label(st: CState, id: Seq<char>, line: nat) -> Step {
    let m = mangle(st, id);
    if st.symbols.dom().contains(m) {
        Err((loc_msg(line, sym_msg(id, "' has already been declared"@)), st))
    } else {
        Ok(CState {
            symbols: st.symbols.insert(m, fresh(m, Type::Label, false, false, false, Seq::empty())),
            ..st
        })
    }
}

/// The first pass on one instruction.
pub open spec fn step1(st: CState, inst: InstV) -> Step {
    match inst.kind {
        KindV::Import { .. } => Err((loc_msg(inst.line, "Imports should not be passed to the checker"@), st)),
        KindV::Decl { id, .. } => Ok(init_value(st, id)),
        KindV::Fn { id, params, .. } => init_fn(st, id, params, inst.line),
        KindV::Ret { .. } => init_ret(st, inst.line),
        KindV::Call { op, id, args } => init_call(st, op, id, args.len(), inst.line),
        KindV::Label { id } => init_label(st, id, inst.line),
        KindV::UnaryOp { id, .. } => Ok(init_value(st, id)),
        KindV::BinaryOp { id, .. } => Ok(init_value(st, id)),
        _ => Ok(st),
    }
}

/// The first pass on the instructions from index `i` on.
pub open spec fn run1(prog: Seq<InstV>, i: int, st: CState) -> Step
    decreases prog.len() - i,
{
    if i >= prog.len() || i < 0 {
        Ok(st)
    } else {
        match step1(st, prog[i]) {
            Err(e) => Err(e),
            Ok(st2) => run1(prog, i + 1, st2),
        }
    }
}

// --------------------------------------------------------------- second pass

/// Resolves `id` and records the resolution for the current instruction.
pub open spec fn log(st: CState, id: Seq<char>) -> (Seq<char>, CState) {
    let r = resolve(st, id);
    (r, CState { cur: st.cur.insert(id, r), ..st })
}

/// Notes `r` as declared after a pending forward jump, if there is one.
pub open spec fn jot(st: CState, r: Seq<char>) -> CState {
    if st.forward_jump is Some {
        CState { jumped: st.jumped.insert(r), ..st }
    } else {
        st
    }
}

/// The message for a resolved name that has no symbol-table entry.
pub open spec fn missing_msg(r: Seq<char>) -> Seq<char> {
    sym_msg(r, "' is missing from the symbol table"@)
}

pub open spec fn float_literal_msg() -> Seq<char> {
    "Floating-point literal without a precision"@
}

/// The type of the value `v`, for which a symbol is resolved and recorded.
pub open spec fn value_ty(st: CState, v: ValueV, line: nat) -> Result<(Type, CState), (Seq<char>, CState)> {
    match v {
        ValueV::Symbol(id) => {
            let (r, st1) = log(st, id);
            if !st1.symbols.dom().contains(r) {
                Err((loc_msg(line, sym_msg(id, "' never declared"@)), st1))
            } else if st1.symbols[r].ty is Undeclared {
                Err((loc_msg(line, sym_msg(id, "' used before it's declared"@)), st1))
            } else if !st1.symbols[r].is_visible {
                Err((loc_msg(line, sym_msg(id, "' is not visible"@)), st1))
            } else if st1.symbols[r].is_fn {
                Err((loc_msg(line, sym_msg(id, "' is a function and cannot be used as a value"@)), st1))
            } else {
                Ok((st1.symbols[r].ty, st1))
            }
        },
        ValueV::Bool(_) => Ok((Type::Bool, st)),
        ValueV::Str(_) => Ok((Type::String, st)),
        ValueV::UInt8(_) => Ok((Type::UInt8, st)),
        ValueV::UInt16(_) => Ok((Type::UInt16, st)),
        ValueV::UInt32(_) => Ok((Type::UInt32, st)),
        ValueV::UInt64(_) => Ok((Type::UInt64, st)),
        ValueV::UInt128(_) => Ok((Type::UInt128, st)),
        ValueV::Int8(_) => Ok((Type::Int8, st)),
        ValueV::Int16(_) => Ok((Type::Int16, st)),
        ValueV::Int32(_) => Ok((Type::Int32, st)),
        ValueV::Int64(_) => Ok((Type::Int64, st)),
        ValueV::Int128(_) => Ok((Type::Int128, st)),
        ValueV::Float32(..) => Ok((Type::Float32, st)),
        ValueV::Float64(..) => Ok((Type::Float64, st)),
        ValueV::FloatLiteral(_) => Err((loc_msg(line, float_literal_msg()), st)),
    }
}

/// Gives the symbol `r` (which has an entry) the type `ty` and the next
/// stack slot: the offset goes down by the position of the type's size in
/// the list of sizes.
pub open spec fn place(st: CState, r: Seq<char>, ty: Type, line: nat) -> Step {
    match spec_size(ty) {
        None => Err((loc_msg(line, no_size_msg(ty)), st)),
        Some(sz) => {
            let off = st.stack_offset - sz.spec_ordinal();
            Ok(CState {
                stack_offset: off,
                symbols: st.symbols.insert(r, SymbolV { stack_offset: off, ty, ..st.symbols[r] }),
                ..st
            })
        },
    }
}

pub open spec fn check_decl(st: CState, ty: Type, id: Seq<char>, value: ValueV, line: nat) -> Step {
    match value_ty(st, value, line) {
        Err(e) => Err(e),
        Ok((vt, st1)) => {
            let (r, st2) = log(st1, id);
            let st3 = jot(st2, r);
            if !st3.symbols.dom().contains(r) {
                Err((loc_msg(line, missing_msg(r)), st3))
            } else if !assignable(vt, ty) {
                Err((loc_msg(line, type_msg(vt, ty)), st3))
            } else {
                place(st3, r, ty, line)
            }
        },
    }
}

pub open spec fn check_assign(st: CState, id: Seq<char>, value: ValueV, line: nat) -> Step {
    match value_ty(st, value, line) {
        Err(e) => Err(e),
        Ok((vt, st1)) => {
            let (r, st2) = log(st1, id);
            if !st2.symbols.dom().contains(r) {
                Err((loc_msg(line, sym_msg(id, "' never declared"@)), st2))
            } else if !st2.symbols[r].is_visible {
                Err((loc_msg(line, sym_msg(id, "' is not visible"@)), st2))
            } else if st2.symbols[r].is_global {
                Err((loc_msg(line, sym_msg(id, "' is global and cannot be assigned"@)), st2))
            } else if st2.symbols[r].is_fn {
                Err((loc_msg(line, sym_msg(id, "' is callable and cannot be assigned"@)), st2))
            } else if !st2.symbols[r].is_reassignable {
                Err((loc_msg(line, sym_msg(id, "' is not assignable"@)), st2))
            } else if !assignable(vt, st2.symbols[r].ty) {
                Err((loc_msg(line, type_msg(vt, st2.symbols[r].ty)), st2))
            } else {
                Ok(st2)
            }
        },
    }
}

/// Resolves the parameters from index `i` on and gives each its type and
/// a stack slot.
pub open spec fn check_params(st: CState, params: Seq<(Type, Seq<char>)>, i: int, line: nat) -> Step
    decreases params.len() - i,
{
    if i >= params.len() || i < 0 {
        Ok(st)
    } else {
        let (rp, st1) = log(st, params[i].1);
        let st2 = jot(st1, rp);
        if !st2.symbols.dom().contains(rp) {
            Err((loc_msg(line, missing_msg(rp)), st2))
        } else {
            match place(st2, rp, params[i].0, line) {
                Err(e) => Err(e),
                Ok(st3) => check_params(st3, params, i + 1, line),
            }
        }
    }
}

pub open spec fn check_fn(st: CState, ty: Type, id: Seq<char>, params: Seq<(Type, Seq<char>)>, line: nat) -> Step {
    let (r, st1) = log(st, id);
    let st2 = jot(st1, r);
    match check_params(st2, params, 0, line) {
        Err(e) => Err(e),
        Ok(st3) => {
            if !st3.symbols.dom().contains(r) {
                Err((loc_msg(line, missing_msg(r)), st3))
            } else {
                match place(st3, r, ty, line) {
                    Err(e) => Err(e),
                    Ok(st4) => Ok(CState { working_funcs: st4.working_funcs.push(r), ..st4 }),
                }
            }
        },
    }
}

pub open spec fn check_ret(st: CState, ret: ValueV, line: nat) -> Step {
    match value_ty(st, ret, line) {
        Err(e) => Err(e),
        Ok((vt, st1)) => {
            if st1.working_funcs.len() == 0 {
                Err((loc_msg(line, "Unmatched return"@), st1))
            } else {
                let f = st1.working_funcs.last();
                if !st1.symbols.dom().contains(f) {
                    Err((loc_msg(line, missing_msg(f)), st1))
                } else if !assignable(vt, st1.symbols[f].ty) {
                    Err((loc_msg(line, type_msg(vt, st1.symbols[f].ty)), st1))
                } else {
                    Ok(CState { working_funcs: st1.working_funcs.drop_last(), ..st1 })
                }
            }
        },
    }
}

/// The types of the arguments from index `i` on, after `acc`.
pub open spec fn arg_types(st: CState, args: Seq<ValueV>, i: int, line: nat, acc: Seq<Type>)
    -> Result<(Seq<Type>, CState), (Seq<char>, CState)>
    decreases args.len() - i,
{
    if i >= args.len() || i < 0 {
        Ok((acc, st))
    } else {
        match value_ty(st, args[i], line) {
            Err(e) => Err(e),
            Ok((t, st1)) => arg_types(st1, args, i + 1, line, acc.push(t)),
        }
    }
}

/// The first argument, from index `i` on, that does not fit its parameter,
/// as an error; each argument is matched with the parameter at its index,
/// as far as both lists go.
pub open spec fn arg_mismatch(syms: Map<Seq<char>, SymbolV>, tys: Seq<Type>, mps: Seq<Seq<char>>, i: int, line: nat)
    -> Option<Seq<char>>
    decreases tys.len() - i,
{
    if i >= tys.len() || i >= mps.len() || i < 0 {
        None
    } else if !syms.dom().contains(mps[i]) {
        Some(loc_msg(line, missing_msg(mps[i])))
    } else if !assignable(tys[i], syms[mps[i]].ty) {
        Some(loc_msg(line, type_msg(tys[i], syms[mps[i]].ty)))
    } else {
        arg_mismatch(syms, tys, mps, i + 1, line)
    }
}

pub open spec fn check_call(st: CState, op: Seq<char>, id: Seq<char>, args: Seq<ValueV>, line: nat) -> Step {
    let (rop, st1) = log(st, op);
    match arg_types(st1, args, 0, line, Seq::empty()) {
        Err(e) => Err(e),
        Ok((tys, st2)) => {
            if !st2.symbols.dom().contains(rop) {
                Err((loc_msg(line, missing_msg(rop)), st2))
            } else {
                let f = st2.symbols[rop];
                if !f.is_visible {
                    Err((loc_msg(line, sym_msg(op, "' is not visible"@)), st2))
                } else if !f.is_fn {
                    Err((loc_msg(line, sym_msg(op, "' is not a function"@)), st2))
                } else {
                    match arg_mismatch(st2.symbols, tys, f.mangled_params, 0, line) {
                        Some(e) => Err((e, st2)),
                        None => {
                            let (r, st3) = log(st2, id);
                            let st4 = jot(st3, r);
                            if !st4.symbols.dom().contains(r) {
                                Err((loc_msg(line, missing_msg(r)), st4))
                            } else {
                                place(st4, r, f.ty, line)
                            }
                        },
                    }
                }
            }
        },
    }
}

/// The symbol table with every symbol of `hidden` made invisible.
pub open spec fn hide_all(syms: Map<Seq<char>, SymbolV>, hidden: Set<Seq<char>>) -> Map<Seq<char>, SymbolV> {
    Map::new(
        |k: Seq<char>| syms.dom().contains(k),
        |k: Seq<char>| if hidden.contains(k) { SymbolV { is_visible: false, ..syms[k] } } else { syms[k] },
    )
}

pub open spec fn jumped_missing_msg() -> Seq<char> {
    "A symbol declared after a forward jump is missing from the symbol table"@
}

pub open spec fn check_label(st: CState, id: Seq<char>, line: nat) -> Step {
    let (r, st1) = log(st, id);
    let st2 = jot(st1, r);
    let st3 = CState { passed_labels: st2.passed_labels.insert(r), ..st2 };
    if st3.forward_jump == Some(r) {
        if st3.jumped.subset_of(st3.symbols.dom()) {
            Ok(CState {
                forward_jump: None,
                symbols: hide_all(st3.symbols, st3.jumped),
                jumped: Set::empty(),
                ..st3
            })
        } else {
            Err((loc_msg(line, jumped_missing_msg()), st3))
        }
    } else {
        Ok(st3)
    }
}

pub open spec fn check_jump(st: CState, cond: ValueV, label: Seq<char>, line: nat) -> Step {
    match value_ty(st, cond, line) {
        Err(e) => Err(e),
        Ok((ct, st1)) => {
            if !(ct is Bool) {
                Err((loc_msg(line, "Condition must have bool type"@), st1))
            } else {
                let (r, st2) = log(st1, label);
                if !st2.symbols.dom().contains(r) {
                    Err((loc_msg(line, sym_msg(label, "' never declared"@)), st2))
                } else if !st2.symbols[r].is_visible {
                    Err((loc_msg(line, sym_msg(label, "' is not visible"@)), st2))
                } else if !(st2.symbols[r].ty is Label) {
                    Err((loc_msg(line, "Jump target must be a label"@), st2))
                } else if st2.passed_labels.contains(r) {
                    Ok(CState { forward_jump: None, ..st2 })
                } else {
                    Ok(CState { forward_jump: Some(r), ..st2 })
                }
            }
        },
    }
}

/// The type of a unary operation's result, or the reason it is refused.
pub open spec fn unary_result(op: UnaryOp, vt: Type) -> Result<Type, Seq<char>> {
    match op {
        UnaryOp::Neg => if is_signed(vt) || is_float(vt) { Ok(vt) } else {
            Err("Negation requires a float or integer type"@)
        },
        UnaryOp::Not => if vt is Bool || is_integer(vt) { Ok(vt) } else {
            Err("Logical not requires bool or integer type"@)
        },
        UnaryOp::Ref => Ok(Type::Ptr(Box::new(vt))),
        UnaryOp::Deref => match vt {
            Type::Ptr(inner) => Ok(*inner),
            _ => Err("Cannot dereference a non-pointer type"@),
        },
        UnaryOp::Lsh | UnaryOp::Rsh => if is_integer(vt) { Ok(vt) } else {
            Err("Bitwise shift requires an integer type"@)
        },
    }
}

pub open spec fn check_unary(st: CState, op: UnaryOp, id: Seq<char>, val: ValueV, line: nat) -> Step {
    let (r, st1) = log(st, id);
    let st2 = jot(st1, r);
    match value_ty(st2, val, line) {
        Err(e) => Err(e),
        Ok((vt, st3)) => {
            if !st3.symbols.dom().contains(r) {
                Err((loc_msg(line, missing_msg(r)), st3))
            } else {
                match unary_result(op, vt) {
                    Err(m) => Err((loc_msg(line, m), st3)),
                    Ok(ft) => place(st3, r, ft, line),
                }
            }
        },
    }
}

/// Whether a binary operation accepts operands of the common type `t`.
pub open spec fn binary_ok(op: BinaryOp, t: Type) -> bool {
    match op {
        BinaryOp::Add | BinaryOp::Sub | BinaryOp::Mult | BinaryOp::Div => is_integer(t) || is_float(t),
        _ => t is Bool || is_integer(t),
    }
}

pub open spec fn binary_msg(op: BinaryOp) -> Seq<char> {
    match op {
        BinaryOp::Add | BinaryOp::Sub | BinaryOp::Mult | BinaryOp::Div => "Arithmetic operations require integer or float types"@,
        _ => "Binary logical operations require bool or integer types"@,
    }
}

pub open spec fn check_binary(st: CState, op: BinaryOp, id: Seq<char>, a: ValueV, b: ValueV, line: nat) -> Step {
    let (r, st1) = log(st, id);
    let st2 = jot(st1, r);
    match value_ty(st2, a, line) {
        Err(e) => Err(e),
        Ok((at, st3)) => match value_ty(st3, b, line) {
            Err(e) => Err(e),
            Ok((bt, st4)) => {
                if !st4.symbols.dom().contains(r) {
                    Err((loc_msg(line, missing_msg(r)), st4))
                } else {
                    match spec_join(at, bt) {
                        None => Err((loc_msg(line, no_common_msg(at, bt)), st4)),
                        Some(ft) => if !binary_ok(op, ft) {
                            Err((loc_msg(line, binary_msg(op)), st4))
                        } else {
                            place(st4, r, ft, line)
                        },
                    }
                }
            },
        },
    }
}

/// The second pass on one instruction.
pub open spec fn step2(st: CState, inst: InstV) -> Step {
    match inst.kind {
        KindV::Import { .. } => Err((loc_msg(inst.line, "Imports should not be passed to the checker"@), st)),
        KindV::Decl { ty, id, value } => check_decl(st, ty, id, value, inst.line),
        KindV::Assign { id, value } => check_assign(st, id, value, inst.line),
        KindV::Fn { ty, id, params } => check_fn(st, ty, id, params, inst.line),
        KindV::Ret { ret } => check_ret(st, ret, inst.line),
        KindV::Call { op, id, args } => check_call(st, op, id, args, inst.line),
        KindV::Label { id } => check_label(st, id, inst.line),
        KindV::Jump { cond, label } => check_jump(st, cond, label, inst.line),
        KindV::UnaryOp { op, id, val } => check_unary(st, op, id, val, inst.line),
        KindV::BinaryOp { op, id, a, b } => check_binary(st, op, id, a, b, inst.line),
    }
}

/// The second pass on the instructions from index `i` on; the resolutions
/// recorded for each are appended to `res`, and the next starts without any.
pub open spec fn run2(prog: Seq<InstV>, i: int, st: CState, res: Seq<Map<Seq<char>, Seq<char>>>)
    -> Result<(CState, Seq<Map<Seq<char>, Seq<char>>>), (Seq<char>, CState)>
    decreases prog.len() - i,
{
    if i >= prog.len() || i < 0 {
        Ok((st, res))
    } else {
        match step2(st, prog[i]) {
            Err(e) => Err(e),
            Ok(st2) => run2(prog, i + 1, CState { cur: Map::empty(), ..st2 }, res.push(st2.cur)),
        }
    }
}

/// The state the checker starts in.
pub open spec fn initial_state() -> CState {
    CState {
        symbols: Map::empty(),
        working_funcs: Seq::empty(),
        passed_labels: Set::empty(),
        forward_jump: None,
        jumped: Set::empty(),
        cur: Map::empty(),
        stack_offset: 0,
    }
}

/// The result of checking `prog`: the symbol table and the resolutions of
/// each instruction, or the first error. The second pass starts with the
/// symbol table and the function stack that the first pass left.
pub open spec fn spec_check(prog: Seq<InstV>) -> Result<(Map<Seq<char>, SymbolV>, Seq<Map<Seq<char>, Seq<char>>>), Seq<char>> {
    match run1(prog, 0, initial_state()) {
        Err((e, _)) => Err(e),
        Ok(st1) => {
            let st2 = CState {
                passed_labels: Set::empty(),
                forward_jump: None,
                jumped: Set::empty(),
                cur: Map::empty(),
                stack_offset: 0,
                ..st1
            };
            match run2(prog, 0, st2, Seq::empty()) {
                Err((e, _)) => Err(e),
                Ok((st3, res)) => Ok((st3.symbols, res)),
            }
        },
    }
}

/// How many stack slots an instruction can give out.
pub open spec fn slots(inst: InstV) -> nat {
    match inst.kind {
        KindV::Fn { params, .. } => params.len() + 1,
        _ => 1,
    }
}

/// How many stack slots the instructions from index `i` on can give out.
pub open spec fn slots_from(prog: Seq<InstV>, i: int) -> nat
    decreases prog.len() - i,
{
    if i >= prog.len() || i < 0 {
        0
    } else {
        slots(prog[i]) + slots_from(prog, i + 1)
    }
}

} // verus!
