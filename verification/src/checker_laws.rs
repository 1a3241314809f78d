//! Properties of the checker that hold for every program.

use vstd::prelude::*;
use crate::ast::{KindV, InstV, ValueV, UnaryOp, BinaryOp};
use crate::types::{Type, assignable, spec_size, spec_join, is_integer, is_float, lemma_join_idempotent};
use crate::error::loc_msg;
use crate::checker_spec::{
    resolve,
    CState, SymbolV, step1, step2, run1, run2, spec_check, initial_state, init_value, init_params, init_fn, init_label,
    init_call, init_ret, value_ty, place, log, jot, check_decl, check_assign, check_params, check_fn, check_ret,
    arg_types, check_call, check_label, check_jump, check_unary, check_binary, hide_all, arg_mismatch,
};

verus! {

/// No stack slot lies above the frame base.
pub open spec fn slots_below_base(st: CState) -> bool {
    &&& st.stack_offset <= 0
    &&& forall|k: Seq<char>| #[trigger] st.symbols.dom().contains(k) ==> st.symbols[k].stack_offset <= 0
}

proof fn lemma_init_params(st: CState, params: Seq<(Type, Seq<char>)>, i: int, acc: Seq<Seq<char>>, line: nat)
    requires
        slots_below_base(st),
    ensures
        init_params(st, params, i, acc, line) matches Ok((st2, _)) ==> slots_below_base(st2) && st2.stack_offset == st.stack_offset,
    decreases params.len() - i,
{
    if !(i >= params.len() || i < 0) {
        let p = params[i].1;
        let mp = crate::checker_spec::mangle(st, p);
        if !st.symbols.dom().contains(mp) {
            let st2 = CState {
                symbols: st.symbols.insert(mp, crate::checker_spec::fresh(mp, Type::Undeclared, false, true, false, Seq::empty())),
                ..st
            };
            lemma_init_params(st2, params, i + 1, acc.push(mp), line);
        }
    }
}

proof fn lemma_step1(st: CState, inst: InstV)
    requires
        slots_below_base(st),
    ensures
        step1(st, inst) matches Ok(st2) ==> slots_below_base(st2),
{
    match inst.kind {
        KindV::Fn { id, params, .. } => {
            lemma_init_params(st, params, 0, Seq::empty(), inst.line);
        },
        _ => {},
    }
}

proof fn lemma_run1(prog: Seq<InstV>, i: int, st: CState)
    requires
        slots_below_base(st),
    ensures
        run1(prog, i, st) matches Ok(st2) ==> slots_below_base(st2),
    decreases prog.len() - i,
{
    if !(i >= prog.len() || i < 0) {
        lemma_step1(st, prog[i]);
        if let Ok(st2) = step1(st, prog[i]) {
            lemma_run1(prog, i + 1, st2);
        }
    }
}

proof fn lemma_place(st: CState, r: Seq<char>, ty: Type, line: nat)
    requires
        slots_below_base(st),
        st.symbols.dom().contains(r),
    ensures
        place(st, r, ty, line) matches Ok(st2) ==> slots_below_base(st2),
{
}

proof fn lemma_value_ty(st: CState, v: ValueV, line: nat)
    ensures
        value_ty(st, v, line) matches Ok((_, st2)) ==> st2.symbols == st.symbols && st2.stack_offset == st.stack_offset,
{
}

proof fn lemma_arg_types(st: CState, args: Seq<ValueV>, i: int, line: nat, acc: Seq<Type>)
    ensures
        arg_types(st, args, i, line, acc) matches Ok((_, st2)) ==> st2.symbols == st.symbols && st2.stack_offset == st.stack_offset,
    decreases args.len() - i,
{
    if !(i >= args.len() || i < 0) {
        lemma_value_ty(st, args[i], line);
        if let Ok((t, st1)) = value_ty(st, args[i], line) {
            lemma_arg_types(st1, args, i + 1, line, acc.push(t));
        }
    }
}

proof fn lemma_check_params(st: CState, params: Seq<(Type, Seq<char>)>, i: int, line: nat)
    requires
        slots_below_base(st),
    ensures
        check_params(st, params, i, line) matches Ok(st2) ==> slots_below_base(st2),
    decreases params.len() - i,
{
    if !(i >= params.len() || i < 0) {
        let (rp, st1) = log(st, params[i].1);
        let st2 = jot(st1, rp);
        if st2.symbols.dom().contains(rp) {
            lemma_place(st2, rp, params[i].0, line);
            if let Ok(st3) = place(st2, rp, params[i].0, line) {
                lemma_check_params(st3, params, i + 1, line);
            }
        }
    }
}

proof fn lemma_step2(st: CState, inst: InstV)
    requires
        slots_below_base(st),
    ensures
        step2(st, inst) matches Ok(st2) ==> slots_below_base(st2),
{
    let line = inst.line;
    match inst.kind {
        KindV::Decl { ty, id, value } => {
            lemma_value_ty(st, value, line);
            if let Ok((vt, st1)) = value_ty(st, value, line) {
                let (r, st2) = log(st1, id);
                let st3 = jot(st2, r);
                if st3.symbols.dom().contains(r) {
                    lemma_place(st3, r, ty, line);
                }
            }
        },
        KindV::Assign { id, value } => {
            lemma_value_ty(st, value, line);
        },
        KindV::Fn { ty, id, params } => {
            let (r, st1) = log(st, id);
            let st2 = jot(st1, r);
            lemma_check_params(st2, params, 0, line);
            if let Ok(st3) = check_params(st2, params, 0, line) {
                if st3.symbols.dom().contains(r) {
                    lemma_place(st3, r, ty, line);
                }
            }
        },
        KindV::Ret { ret } => {
            lemma_value_ty(st, ret, line);
        },
        KindV::Call { op, id, args } => {
            let (rop, st1) = log(st, op);
            lemma_arg_types(st1, args, 0, line, Seq::empty());
            if let Ok((tys, st2)) = arg_types(st1, args, 0, line, Seq::empty()) {
                if st2.symbols.dom().contains(rop) {
                    let (r, st3) = log(st2, id);
                    let st4 = jot(st3, r);
                    if st4.symbols.dom().contains(r) {
                        lemma_place(st4, r, st2.symbols[rop].ty, line);
                    }
                }
            }
        },
        KindV::Label { id } => {
            let (r, st1) = log(st, id);
            let st2 = jot(st1, r);
            let st3 = CState { passed_labels: st2.passed_labels.insert(r), ..st2 };
            if st3.forward_jump == Some(r) && st3.jumped.subset_of(st3.symbols.dom()) {
                let h = hide_all(st3.symbols, st3.jumped);
                assert forall|k: Seq<char>| #[trigger] h.dom().contains(k) implies h[k].stack_offset <= 0 by {
                    assert(st3.symbols.dom().contains(k));
                }
            }
        },
        KindV::Jump { cond, label } => {
            lemma_value_ty(st, cond, line);
        },
        KindV::UnaryOp { op, id, val } => {
            let (r, st1) = log(st, id);
            let st2 = jot(st1, r);
            lemma_value_ty(st2, val, line);
            if let Ok((vt, st3)) = value_ty(st2, val, line) {
                if st3.symbols.dom().contains(r) {
                    if let Ok(ft) = crate::checker_spec::unary_result(op, vt) {
                        lemma_place(st3, r, ft, line);
                    }
                }
            }
        },
        KindV::BinaryOp { op, id, a, b } => {
            let (r, st1) = log(st, id);
            let st2 = jot(st1, r);
            lemma_value_ty(st2, a, line);
            if let Ok((at, st3)) = value_ty(st2, a, line) {
                lemma_value_ty(st3, b, line);
                if let Ok((bt, st4)) = value_ty(st3, b, line) {
                    if st4.symbols.dom().contains(r) {
                        if let Some(ft) = crate::types::spec_join(at, bt) {
                            lemma_place(st4, r, ft, line);
                        }
                    }
                }
            }
        },
        _ => {},
    }
}

proof fn lemma_run2(prog: Seq<InstV>, i: int, st: CState, res: Seq<Map<Seq<char>, Seq<char>>>)
    requires
        slots_below_base(st),
    ensures
        run2(prog, i, st, res) matches Ok((st2, r)) ==> slots_below_base(st2)
            && r.len() == res.len() + (if 0 <= i <= prog.len() { prog.len() - i } else { 0 }),
    decreases prog.len() - i,
{
    if !(i >= prog.len() || i < 0) {
        lemma_step2(st, prog[i]);
        if let Ok(st2) = step2(st, prog[i]) {
            lemma_run2(prog, i + 1, CState { cur: Map::empty(), ..st2 }, res.push(st2.cur));
        }
    }
}

/// A program that passes the checker gets one record of resolutions per
/// instruction, and no symbol's stack slot lies above the frame base.
pub proof fn lemma_check_results(prog: Seq<InstV>)
    ensures
        spec_check(prog) matches Ok((syms, res)) ==> res.len() == prog.len()
            && forall|k: Seq<char>| #[trigger] syms.dom().contains(k) ==> syms[k].stack_offset <= 0,
{
    lemma_run1(prog, 0, initial_state());
    if let Ok(st1) = run1(prog, 0, initial_state()) {
        let st2 = CState {
            passed_labels: Set::empty(),
            forward_jump: None,
            jumped: Set::empty(),
            cur: Map::empty(),
            stack_offset: 0,
            ..st1
        };
        lemma_run2(prog, 0, st2, Seq::empty());
    }
}

// ------------------------------------------------- names and their symbols

/// Every name recorded for the current instruction resolves to a symbol of
/// the table, or to one of `pending` (resolved, not yet looked up).
pub open spec fn recorded_in(st: CState, pending: Set<Seq<char>>) -> bool {
    forall|k: Seq<char>| #[trigger] st.cur.dom().contains(k)
        ==> st.symbols.dom().contains(st.cur[k]) || pending.contains(st.cur[k])
}

proof fn lemma_recorded_same(st: CState, st2: CState, p: Set<Seq<char>>, q: Set<Seq<char>>)
    requires
        recorded_in(st, p),
        st2.cur == st.cur,
        st2.symbols.dom() == st.symbols.dom(),
        p.subset_of(q),
    ensures
        recorded_in(st2, q),
{
    assert forall|k: Seq<char>| #[trigger] st2.cur.dom().contains(k)
        implies st2.symbols.dom().contains(st2.cur[k]) || q.contains(st2.cur[k]) by {
        assert(st.cur.dom().contains(k));
    }
}

proof fn lemma_log_recorded(st: CState, id: Seq<char>, p: Set<Seq<char>>)
    requires
        recorded_in(st, p),
    ensures
        recorded_in(log(st, id).1, p.insert(log(st, id).0)),
        log(st, id).1.symbols == st.symbols,
        log(st, id).1.cur.dom().contains(id),
{
    let (r, st1) = log(st, id);
    assert forall|k: Seq<char>| #[trigger] st1.cur.dom().contains(k)
        implies st1.symbols.dom().contains(st1.cur[k]) || p.insert(r).contains(st1.cur[k]) by {
        if k != id {
            assert(st.cur.dom().contains(k));
        }
    }
}

/// Once the name `r` is known to have a symbol, it is no longer pending.
proof fn lemma_settle(st: CState, p: Set<Seq<char>>, r: Seq<char>)
    requires
        recorded_in(st, p.insert(r)),
        st.symbols.dom().contains(r),
    ensures
        recorded_in(st, p),
{
    assert forall|k: Seq<char>| #[trigger] st.cur.dom().contains(k)
        implies st.symbols.dom().contains(st.cur[k]) || p.contains(st.cur[k]) by {
        assert(st.symbols.dom().contains(st.cur[k]) || p.insert(r).contains(st.cur[k]));
    }
}

proof fn lemma_value_ty_recorded(st: CState, v: ValueV, line: nat, p: Set<Seq<char>>)
    requires
        recorded_in(st, p),
    ensures
        value_ty(st, v, line) matches Ok((_, st2)) ==> recorded_in(st2, p) && st2.symbols == st.symbols
            && (forall|k: Seq<char>| #[trigger] st.cur.dom().contains(k) ==> st2.cur.dom().contains(k))
            && (v matches ValueV::Symbol(id) ==> st2.cur.dom().contains(id)),
{
    if let ValueV::Symbol(id) = v {
        let (r, st1) = log(st, id);
        lemma_log_recorded(st, id, p);
        if st1.symbols.dom().contains(r) {
            lemma_settle(st1, p, r);
        }
    }
}

proof fn lemma_arg_types_recorded(st: CState, args: Seq<ValueV>, i: int, line: nat, acc: Seq<Type>, p: Set<Seq<char>>)
    requires
        recorded_in(st, p),
    ensures
        arg_types(st, args, i, line, acc) matches Ok((_, st2)) ==> recorded_in(st2, p) && st2.symbols == st.symbols,
    decreases args.len() - i,
{
    if !(i >= args.len() || i < 0) {
        lemma_value_ty_recorded(st, args[i], line, p);
        if let Ok((t, st1)) = value_ty(st, args[i], line) {
            lemma_arg_types_recorded(st1, args, i + 1, line, acc.push(t), p);
        }
    }
}

proof fn lemma_place_recorded(st: CState, r: Seq<char>, ty: Type, line: nat, p: Set<Seq<char>>)
    requires
        recorded_in(st, p),
        st.symbols.dom().contains(r),
    ensures
        place(st, r, ty, line) matches Ok(st2) ==> recorded_in(st2, p) && st2.symbols.dom() == st.symbols.dom()
            && st2.cur == st.cur,
{
    if let Ok(st2) = place(st, r, ty, line) {
        assert(st2.symbols.dom() =~= st.symbols.dom());
        lemma_recorded_same(st, st2, p, p);
    }
}

proof fn lemma_check_params_recorded(st: CState, params: Seq<(Type, Seq<char>)>, i: int, line: nat, p: Set<Seq<char>>)
    requires
        recorded_in(st, p),
    ensures
        check_params(st, params, i, line) matches Ok(st2) ==> recorded_in(st2, p) && st2.symbols.dom() == st.symbols.dom(),
    decreases params.len() - i,
{
    if !(i >= params.len() || i < 0) {
        let (rp, st1) = log(st, params[i].1);
        lemma_log_recorded(st, params[i].1, p);
        let st2 = jot(st1, rp);
        if st2.symbols.dom().contains(rp) {
            lemma_settle(st2, p, rp);
            lemma_place_recorded(st2, rp, params[i].0, line, p);
            if let Ok(st3) = place(st2, rp, params[i].0, line) {
                lemma_check_params_recorded(st3, params, i + 1, line, p);
            }
        }
    }
}

/// The type of a constant value; none for a symbol or a floating-point
/// literal without a precision.
pub open spec fn constant_ty(v: ValueV) -> Option<Type> {
    match v {
        ValueV::Symbol(_) | ValueV::FloatLiteral(_) => None,
        ValueV::Bool(_) => Some(Type::Bool),
        ValueV::Str(_) => Some(Type::String),
        ValueV::UInt8(_) => Some(Type::UInt8),
        ValueV::UInt16(_) => Some(Type::UInt16),
        ValueV::UInt32(_) => Some(Type::UInt32),
        ValueV::UInt64(_) => Some(Type::UInt64),
        ValueV::UInt128(_) => Some(Type::UInt128),
        ValueV::Int8(_) => Some(Type::Int8),
        ValueV::Int16(_) => Some(Type::Int16),
        ValueV::Int32(_) => Some(Type::Int32),
        ValueV::Int64(_) => Some(Type::Int64),
        ValueV::Int128(_) => Some(Type::Int128),
        ValueV::Float32(..) => Some(Type::Float32),
        ValueV::Float64(..) => Some(Type::Float64),
    }
}

/// What a checked declaration has: its own name and its value's recorded
/// (the names the assembler looks up), a value that is no floating-point
/// literal without a precision, and a constant value of a type that may be
/// stored where the declared type is expected.
pub open spec fn decl_checked(inst: InstV, res: Map<Seq<char>, Seq<char>>) -> bool {
    inst.kind matches KindV::Decl { ty, id, value } ==> res.dom().contains(id)
        && (value matches ValueV::Symbol(v) ==> res.dom().contains(v))
        && !(value is FloatLiteral)
        && (constant_ty(value) matches Some(t) ==> assignable(t, ty))
}

/// The second pass on one instruction keeps the table's names; every name
/// it records, but a label's, has a symbol.
proof fn lemma_step2_recorded(st: CState, inst: InstV)
    requires
        recorded_in(st, Set::empty()),
        st.cur == Map::<Seq<char>, Seq<char>>::empty(),
    ensures
        step2(st, inst) matches Ok(st2) ==> st2.symbols.dom() == st.symbols.dom()
            && (!(inst.kind is Label) ==> recorded_in(st2, Set::empty()))
            && decl_checked(inst, st2.cur),
{
    let e = Set::<Seq<char>>::empty();
    let line = inst.line;
    match inst.kind {
        KindV::Decl { ty, id, value } => {
            lemma_value_ty_recorded(st, value, line, e);
            if let Ok((vt, st1)) = value_ty(st, value, line) {
                let (r, st2) = log(st1, id);
                lemma_log_recorded(st1, id, e);
                let st3 = jot(st2, r);
                if st3.symbols.dom().contains(r) {
                    lemma_settle(st3, e, r);
                    lemma_place_recorded(st3, r, ty, line, e);
                }
            }
        },
        KindV::Assign { id, value } => {
            lemma_value_ty_recorded(st, value, line, e);
            if let Ok((vt, st1)) = value_ty(st, value, line) {
                let (r, st2) = log(st1, id);
                lemma_log_recorded(st1, id, e);
                if st2.symbols.dom().contains(r) {
                    lemma_settle(st2, e, r);
                }
            }
        },
        KindV::Fn { ty, id, params } => {
            let (r, st1) = log(st, id);
            lemma_log_recorded(st, id, e);
            let st2 = jot(st1, r);
            lemma_check_params_recorded(st2, params, 0, line, e.insert(r));
            if let Ok(st3) = check_params(st2, params, 0, line) {
                if st3.symbols.dom().contains(r) {
                    lemma_settle(st3, e, r);
                    lemma_place_recorded(st3, r, ty, line, e);
                }
            }
        },
        KindV::Ret { ret } => {
            lemma_value_ty_recorded(st, ret, line, e);
        },
        KindV::Call { op, id, args } => {
            let (rop, st1) = log(st, op);
            lemma_log_recorded(st, op, e);
            lemma_arg_types_recorded(st1, args, 0, line, Seq::empty(), e.insert(rop));
            if let Ok((tys, st2)) = arg_types(st1, args, 0, line, Seq::empty()) {
                if st2.symbols.dom().contains(rop) {
                    lemma_settle(st2, e, rop);
                    let (r, st3) = log(st2, id);
                    lemma_log_recorded(st2, id, e);
                    let st4 = jot(st3, r);
                    if st4.symbols.dom().contains(r) {
                        lemma_settle(st4, e, r);
                        lemma_place_recorded(st4, r, st2.symbols[rop].ty, line, e);
                    }
                }
            }
        },
        KindV::Label { id } => {
            let (r, st1) = log(st, id);
            let st2 = jot(st1, r);
            let st3 = CState { passed_labels: st2.passed_labels.insert(r), ..st2 };
            if st3.forward_jump == Some(r) && st3.jumped.subset_of(st3.symbols.dom()) {
                assert(hide_all(st3.symbols, st3.jumped).dom() =~= st3.symbols.dom());
            }
        },
        KindV::Jump { cond, label } => {
            lemma_value_ty_recorded(st, cond, line, e);
            if let Ok((ct, st1)) = value_ty(st, cond, line) {
                let (r, st2) = log(st1, label);
                lemma_log_recorded(st1, label, e);
                if st2.symbols.dom().contains(r) {
                    lemma_settle(st2, e, r);
                }
            }
        },
        KindV::UnaryOp { op, id, val } => {
            let (r, st1) = log(st, id);
            lemma_log_recorded(st, id, e);
            let st2 = jot(st1, r);
            lemma_value_ty_recorded(st2, val, line, e.insert(r));
            if let Ok((vt, st3)) = value_ty(st2, val, line) {
                if st3.symbols.dom().contains(r) {
                    lemma_settle(st3, e, r);
                    if let Ok(ft) = crate::checker_spec::unary_result(op, vt) {
                        lemma_place_recorded(st3, r, ft, line, e);
                    }
                }
            }
        },
        KindV::BinaryOp { op, id, a, b } => {
            let (r, st1) = log(st, id);
            lemma_log_recorded(st, id, e);
            let st2 = jot(st1, r);
            lemma_value_ty_recorded(st2, a, line, e.insert(r));
            if let Ok((at, st3)) = value_ty(st2, a, line) {
                lemma_value_ty_recorded(st3, b, line, e.insert(r));
                if let Ok((bt, st4)) = value_ty(st3, b, line) {
                    if st4.symbols.dom().contains(r) {
                        lemma_settle(st4, e, r);
                        if let Some(ft) = crate::types::spec_join(at, bt) {
                            lemma_place_recorded(st4, r, ft, line, e);
                        }
                    }
                }
            }
        },
        _ => {},
    }
}

/// Whether the records `res` of the first instructions of `prog` meet the
/// resolution law against the names `dom`.
pub open spec fn records_named(prog: Seq<InstV>, res: Seq<Map<Seq<char>, Seq<char>>>, dom: Set<Seq<char>>) -> bool {
    forall|j: int, k: Seq<char>| 0 <= j < res.len() && j < prog.len() && !(prog[j].kind is Label)
        && #[trigger] res[j].dom().contains(k) ==> dom.contains(res[j][k])
}

proof fn lemma_run2_recorded(prog: Seq<InstV>, i: int, st: CState, res: Seq<Map<Seq<char>, Seq<char>>>)
    requires
        0 <= i <= prog.len(),
        res.len() == i,
        st.cur == Map::<Seq<char>, Seq<char>>::empty(),
        records_named(prog, res, st.symbols.dom()),
        forall|j: int| 0 <= j < i ==> decl_checked(prog[j], #[trigger] res[j]),
    ensures
        run2(prog, i, st, res) matches Ok((st2, r)) ==> records_named(prog, r, st2.symbols.dom())
            && st2.symbols.dom() == st.symbols.dom()
            && forall|j: int| 0 <= j < r.len() ==> decl_checked(prog[j], #[trigger] r[j]),
    decreases prog.len() - i,
{
    if i < prog.len() {
        assert(recorded_in(st, Set::empty()));
        lemma_step2_recorded(st, prog[i]);
        if let Ok(st2) = step2(st, prog[i]) {
            let nst = CState { cur: Map::empty(), ..st2 };
            let nres = res.push(st2.cur);
            assert forall|j: int, k: Seq<char>| 0 <= j < nres.len() && j < prog.len() && !(prog[j].kind is Label)
                && #[trigger] nres[j].dom().contains(k) implies nst.symbols.dom().contains(nres[j][k]) by {
                if j < i {
                    assert(nres[j] == res[j]);
                } else {
                    assert(nres[j] == st2.cur);
                    assert(st2.cur.dom().contains(k));
                }
            }
            assert forall|j: int| 0 <= j < i + 1 implies decl_checked(prog[j], #[trigger] nres[j]) by {
                if j < i {
                    assert(nres[j] == res[j]);
                }
            }
            lemma_run2_recorded(prog, i + 1, nst, nres);
        }
    }
}

/// In a program that passes the checker, every name that an instruction
/// other than a label records resolves to a symbol of the final table; a
/// declaration records its own name and its value's (the names the
/// assembler looks up for a declaration all have symbols), holds no
/// floating-point literal without a precision, and a constant it holds has
/// a type that may be stored where the declared type is expected.
pub proof fn lemma_resolutions_have_symbols(prog: Seq<InstV>)
    ensures
        spec_check(prog) matches Ok((syms, res)) ==> res.len() == prog.len()
            && (forall|j: int, k: Seq<char>| 0 <= j < prog.len() && !(prog[j].kind is Label)
                && #[trigger] res[j].dom().contains(k) ==> syms.dom().contains(res[j][k]))
            && forall|j: int| 0 <= j < prog.len() ==> decl_checked(prog[j], #[trigger] res[j]),
{
    lemma_check_results(prog);
    if let Ok(st1) = run1(prog, 0, initial_state()) {
        let st2 = CState {
            passed_labels: Set::empty(),
            forward_jump: None,
            jumped: Set::empty(),
            cur: Map::empty(),
            stack_offset: 0,
            ..st1
        };
        lemma_run2_recorded(prog, 0, st2, Seq::empty());
    }
}

// ------------------------------------------------------ failed steps

/// What a failed step keeps: the function stack and the pending forward
/// jump, and, but for a function's declaration, the symbol table and the
/// stack offset.
pub open spec fn failure_keeps(st: CState, st2: CState, keeps_table: bool) -> bool {
    &&& st2.working_funcs == st.working_funcs
    &&& st2.forward_jump == st.forward_jump
    &&& keeps_table ==> st2.symbols == st.symbols && st2.stack_offset == st.stack_offset
}

proof fn lemma_arg_types_failure(st: CState, args: Seq<ValueV>, i: int, line: nat, acc: Seq<Type>)
    ensures
        arg_types(st, args, i, line, acc) matches Err((_, st2)) ==> failure_keeps(st, st2, true),
        arg_types(st, args, i, line, acc) matches Ok((_, st2)) ==> failure_keeps(st, st2, true),
    decreases args.len() - i,
{
    if !(i >= args.len() || i < 0) {
        if let Ok((t, st1)) = value_ty(st, args[i], line) {
            lemma_arg_types_failure(st1, args, i + 1, line, acc.push(t));
        }
    }
}

proof fn lemma_check_params_failure(st: CState, params: Seq<(Type, Seq<char>)>, i: int, line: nat)
    ensures
        check_params(st, params, i, line) matches Err((_, st2)) ==> failure_keeps(st, st2, false),
        check_params(st, params, i, line) matches Ok(st2) ==> failure_keeps(st, st2, false),
    decreases params.len() - i,
{
    if !(i >= params.len() || i < 0) {
        let (rp, st1) = log(st, params[i].1);
        let st2 = jot(st1, rp);
        if st2.symbols.dom().contains(rp) {
            if let Ok(st3) = place(st2, rp, params[i].0, line) {
                lemma_check_params_failure(st3, params, i + 1, line);
            }
        }
    }
}

proof fn lemma_decl_failure(st: CState, ty: Type, id: Seq<char>, value: ValueV, line: nat)
    ensures
        check_decl(st, ty, id, value, line) matches Err((_, st2)) ==> failure_keeps(st, st2, true),
{
}

proof fn lemma_assign_failure(st: CState, id: Seq<char>, value: ValueV, line: nat)
    ensures
        check_assign(st, id, value, line) matches Err((_, st2)) ==> failure_keeps(st, st2, true),
{
}

proof fn lemma_fn_failure(st: CState, ty: Type, id: Seq<char>, params: Seq<(Type, Seq<char>)>, line: nat)
    ensures
        check_fn(st, ty, id, params, line) matches Err((_, st2)) ==> failure_keeps(st, st2, false),
{
    let (r, st1) = log(st, id);
    lemma_check_params_failure(jot(st1, r), params, 0, line);
}

proof fn lemma_ret_failure(st: CState, ret: ValueV, line: nat)
    ensures
        check_ret(st, ret, line) matches Err((_, st2)) ==> failure_keeps(st, st2, true),
{
}

proof fn lemma_call_failure(st: CState, op: Seq<char>, id: Seq<char>, args: Seq<ValueV>, line: nat)
    ensures
        check_call(st, op, id, args, line) matches Err((_, st2)) ==> failure_keeps(st, st2, true),
{
    let (rop, st1) = log(st, op);
    lemma_arg_types_failure(st1, args, 0, line, Seq::empty());
}

proof fn lemma_label_failure(st: CState, id: Seq<char>, line: nat)
    ensures
        check_label(st, id, line) matches Err((_, st2)) ==> failure_keeps(st, st2, true),
{
}

proof fn lemma_jump_failure(st: CState, cond: ValueV, label: Seq<char>, line: nat)
    ensures
        check_jump(st, cond, label, line) matches Err((_, st2)) ==> failure_keeps(st, st2, true),
{
}

proof fn lemma_unary_failure(st: CState, op: UnaryOp, id: Seq<char>, val: ValueV, line: nat)
    ensures
        check_unary(st, op, id, val, line) matches Err((_, st2)) ==> failure_keeps(st, st2, true),
{
}

proof fn lemma_binary_failure(st: CState, op: BinaryOp, id: Seq<char>, a: ValueV, b: ValueV, line: nat)
    ensures
        check_binary(st, op, id, a, b, line) matches Err((_, st2)) ==> failure_keeps(st, st2, true),
{
}

/// A failed step of the second pass leaves the function stack and the
/// pending forward jump as they were; a failed step other than a
/// function's declaration also leaves the symbol table and the stack offset
/// as they were. (A function's parameters placed before the failure keep
/// their types and slots.)
pub proof fn lemma_failed_step_keeps_state(st: CState, inst: InstV)
    ensures
        step2(st, inst) matches Err((_, st2)) ==> failure_keeps(st, st2, !(inst.kind is Fn)),
{
    let line = inst.line;
    match inst.kind {
        KindV::Import { .. } => {},
        KindV::Decl { ty, id, value } => lemma_decl_failure(st, ty, id, value, line),
        KindV::Assign { id, value } => lemma_assign_failure(st, id, value, line),
        KindV::Fn { ty, id, params } => lemma_fn_failure(st, ty, id, params, line),
        KindV::Ret { ret } => lemma_ret_failure(st, ret, line),
        KindV::Call { op, id, args } => lemma_call_failure(st, op, id, args, line),
        KindV::Label { id } => lemma_label_failure(st, id, line),
        KindV::Jump { cond, label } => lemma_jump_failure(st, cond, label, line),
        KindV::UnaryOp { op, id, val } => lemma_unary_failure(st, op, id, val, line),
        KindV::BinaryOp { op, id, a, b } => lemma_binary_failure(st, op, id, a, b, line),
    }
}

/// A failed step of the first pass leaves the symbol table as it was,
/// but for the parameters a function's declaration entered before a
/// repeated one; the function itself is not entered and the function stack
/// is left as it was.
pub proof fn lemma_failed_first_step(st: CState, inst: InstV)
    ensures
        step1(st, inst) matches Err((_, st2)) ==> st2.working_funcs == st.working_funcs
            && (!(inst.kind is Fn) ==> st2.symbols == st.symbols)
            && (inst.kind matches KindV::Fn { id, .. } ==> (!st.symbols.dom().contains(crate::checker_spec::mangle(st, id))
                ==> (st2.symbols.dom().contains(crate::checker_spec::mangle(st, id))
                    ==> !st2.symbols[crate::checker_spec::mangle(st, id)].is_fn))),
{
    if let KindV::Fn { id, params, .. } = inst.kind {
        let m = crate::checker_spec::mangle(st, id);
        if !st.symbols.dom().contains(m) {
            lemma_init_params_failure(st, params, 0, Seq::empty(), inst.line, m);
        }
    }
}

proof fn lemma_init_params_failure(st: CState, params: Seq<(Type, Seq<char>)>, i: int, acc: Seq<Seq<char>>, line: nat,
    m: Seq<char>)
    requires
        st.symbols.dom().contains(m) ==> !st.symbols[m].is_fn,
    ensures
        init_params(st, params, i, acc, line) matches Err((_, st2)) ==> st2.working_funcs == st.working_funcs
            && (st2.symbols.dom().contains(m) ==> !st2.symbols[m].is_fn),
    decreases params.len() - i,
{
    if !(i >= params.len() || i < 0) {
        let p = params[i].1;
        let mp = crate::checker_spec::mangle(st, p);
        if !st.symbols.dom().contains(mp) {
            let st2 = CState {
                symbols: st.symbols.insert(mp, crate::checker_spec::fresh(mp, Type::Undeclared, false, true, false, Seq::empty())),
                ..st
            };
            lemma_init_params_failure(st2, params, i + 1, acc.push(mp), line, m);
        }
    }
}

/// Dereferencing a reference to a value gives back the value's type.
pub proof fn lemma_deref_of_ref(t: Type)
    ensures
        crate::checker_spec::unary_result(UnaryOp::Ref, t) == Ok::<Type, Seq<char>>(Type::Ptr(Box::new(t))),
        crate::checker_spec::unary_result(UnaryOp::Deref, Type::Ptr(Box::new(t))) == Ok::<Type, Seq<char>>(t),
{
}

/// Resolution depends on the names in the table only.
proof fn lemma_resolve_same_names(s1: Map<Seq<char>, SymbolV>, s2: Map<Seq<char>, SymbolV>, wf: Seq<Seq<char>>, id: Seq<char>)
    requires
        s1.dom() == s2.dom(),
    ensures
        crate::checker_spec::resolve_in(s1, wf, id) == crate::checker_spec::resolve_in(s2, wf, id),
    decreases wf.len(),
{
    if wf.len() > 0 {
        lemma_resolve_same_names(s1, s2, wf.drop_last(), id);
    }
}

/// Taking a reference to a value into `p`, then, at the next instruction,
/// dereferencing `p` into `q` gives `q` the value's type, where that type
/// has a size and `p`'s symbol is a visible value and `q` has a symbol.
pub proof fn lemma_deref_undoes_ref(st: CState, p: Seq<char>, v: ValueV, line: nat, q: Seq<char>, line2: nat)
    requires
        check_unary(st, UnaryOp::Ref, p, v, line) is Ok,
        value_ty(jot(log(st, p).1, log(st, p).0), v, line) matches Ok((t, _)) && spec_size(t) is Some,
        st.symbols[resolve(st, p)].is_visible,
        !st.symbols[resolve(st, p)].is_fn,
        ({
            let st1 = check_unary(st, UnaryOp::Ref, p, v, line)->Ok_0;
            st1.symbols.dom().contains(resolve(CState { cur: Map::empty(), ..st1 }, q))
        }),
    ensures
        ({
            let st1 = check_unary(st, UnaryOp::Ref, p, v, line)->Ok_0;
            let st2 = CState { cur: Map::empty(), ..st1 };
            let t = value_ty(jot(log(st, p).1, log(st, p).0), v, line)->Ok_0.0;
            check_unary(st2, UnaryOp::Deref, q, ValueV::Symbol(p), line2) matches Ok(st3)
                && st3.symbols[resolve(st2, q)].ty == t
        }),
{
    let (r, s1) = log(st, p);
    let s2 = jot(s1, r);
    let (t, s3) = value_ty(s2, v, line)->Ok_0;
    lemma_value_ty(s2, v, line);
    let st1 = check_unary(st, UnaryOp::Ref, p, v, line)->Ok_0;
    assert(st1.symbols[r].ty == Type::Ptr(Box::new(t)));
    let st2 = CState { cur: Map::empty(), ..st1 };
    assert(st2.working_funcs == st.working_funcs);
    assert(st2.symbols.dom() =~= st.symbols.dom());
    lemma_resolve_same_names(st2.symbols, st.symbols, st.working_funcs, p);
    assert(resolve(st2, p) == r);
}


/// A binary operation whose two operands both have the type `t` (once the
/// result's name is resolved and its symbol exists) is accepted exactly
/// when `t` has a size and is an integer type, a floating-point type under
/// `add`, `sub`, `mult` or `div`, or `bool` under `and`, `or` or `xor`;
/// when accepted, the result's symbol gets the type `t` and the new top
/// stack slot.
pub proof fn lemma_binary_operand_types(st: CState, op: BinaryOp, id: Seq<char>, a: ValueV, b: ValueV, line: nat, t: Type)
    requires
        match value_ty(jot(log(st, id).1, log(st, id).0), a, line) {
            Ok((ta, sa)) => ta == t && match value_ty(sa, b, line) {
                Ok((tb, sb)) => tb == t && sb.symbols.dom().contains(log(st, id).0),
                Err(_) => false,
            },
            Err(_) => false,
        },
    ensures
        (check_binary(st, op, id, a, b, line) is Ok) <==> spec_size(t) is Some && {
            ||| is_integer(t)
            ||| (op is Add || op is Sub || op is Mult || op is Div) && is_float(t)
            ||| (op is And || op is Or || op is Xor) && t is Bool
        },
        check_binary(st, op, id, a, b, line) matches Ok(st2) ==> {
            &&& st2.symbols[log(st, id).0].ty == t
            &&& st2.symbols[log(st, id).0].stack_offset == st2.stack_offset
            &&& st2.stack_offset == st.stack_offset - spec_size(t).unwrap().spec_ordinal()
        },
{
    lemma_join_idempotent(t);
}


/// A binary operation on operands of the types `ta` and `tb` (once the
/// result's name is resolved and its symbol exists) is accepted exactly
/// when the two types have a common type that has a size and suits the
/// operator (an integer type; a floating-point type under `add`, `sub`,
/// `mult` or `div`; `bool` under `and`, `or` or `xor`); the result then
/// has the common type. A common type that does not suit the operator is
/// refused with the operator's message.
pub proof fn lemma_binary_common_type(st: CState, op: BinaryOp, id: Seq<char>, a: ValueV, b: ValueV, line: nat, ta: Type, tb: Type)
    requires
        match value_ty(jot(log(st, id).1, log(st, id).0), a, line) {
            Ok((ta2, sa)) => ta2 == ta && match value_ty(sa, b, line) {
                Ok((tb2, sb)) => tb2 == tb && sb.symbols.dom().contains(log(st, id).0),
                Err(_) => false,
            },
            Err(_) => false,
        },
    ensures
        (check_binary(st, op, id, a, b, line) is Ok) <==> match spec_join(ta, tb) {
            Some(ft) => spec_size(ft) is Some && {
                ||| is_integer(ft)
                ||| (op is Add || op is Sub || op is Mult || op is Div) && is_float(ft)
                ||| (op is And || op is Or || op is Xor) && ft is Bool
            },
            None => false,
        },
        check_binary(st, op, id, a, b, line) is Ok ==> check_binary(st, op, id, a, b, line)->Ok_0.symbols[log(st, id).0].ty
            == spec_join(ta, tb).unwrap(),
        match spec_join(ta, tb) {
            Some(ft) => !is_integer(ft) && !is_float(ft) && (op is Add || op is Sub || op is Mult || op is Div) ==> {
                &&& check_binary(st, op, id, a, b, line) is Err
                &&& check_binary(st, op, id, a, b, line)->Err_0.0 == loc_msg(line, "Arithmetic operations require integer or float types"@)
            },
            None => true,
        },
        match spec_join(ta, tb) {
            Some(ft) => !is_integer(ft) && !(ft is Bool) && (op is And || op is Or || op is Xor) ==> {
                &&& check_binary(st, op, id, a, b, line) is Err
                &&& check_binary(st, op, id, a, b, line)->Err_0.0 == loc_msg(line, "Binary logical operations require bool or integer types"@)
            },
            None => true,
        },
{
}

} // verus!
