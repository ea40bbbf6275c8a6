//! The functional model of lowering: for every value, statement, body and
//! function, a specification function that says exactly which instructions
//! are emitted, how the scopes change, and when lowering would instead end
//! in a fatal diagnostic.  The executable code in `value`, `operand` and
//! `compiler` is proved equal to this model, step by step.

use vstd::prelude::*;

use crate::assembly::InstructionView;
use crate::function_manager::{fn_lookup, FnBinding};
use crate::operand::{type_size, OperandType, OperandView};
use crate::registers::{reg_deref_token, reg_size, reg_token, Register};
use crate::render::dec_str;
use crate::scope::{empty_scope, ScopeView};
use crate::util::{size_bytes, Size};
use crate::value::{token_text, ValueCodegenView, ValueView};
use crate::variables::{
    location_ptr_token, location_token, param_reg, table_bind_param, table_lookup, table_remove,
    VarTableView, VariableLocation,
};

verus! {

/// The state a lowering step reads and writes: the stack of open scopes,
/// the instructions emitted so far, and the label-id counter.
#[verifier::ext_equal]
pub struct EmitState {
    pub scopes: Seq<ScopeView>,
    pub insts: Seq<InstructionView>,
    pub id: nat,
}

/// Look a name up in the innermost scope.
pub open spec fn lookup_var(scopes: Seq<ScopeView>, name: Seq<char>) -> Option<
    (VariableLocation, OperandType),
> {
    table_lookup(scopes.last().vars.bindings, name)
}

/// The state with the given instructions appended.
pub open spec fn emit(st: EmitState, extra: Seq<InstructionView>) -> EmitState {
    EmitState { insts: st.insts + extra, ..st }
}

/// The state with the innermost scope's variable table replaced.
pub open spec fn with_vars(st: EmitState, t: VarTableView) -> EmitState {
    EmitState {
        scopes: st.scopes.update(
            st.scopes.len() - 1,
            ScopeView { vars: t, funcs: st.scopes.last().funcs },
        ),
        ..st
    }
}

/// Whether the size estimate of a value can be taken: a value that names a
/// variable needs an open scope to look it in.
pub open spec fn estimate_wf(v: ValueView, scopes: Seq<ScopeView>) -> bool
    decreases v,
{
    match v {
        ValueView::Add(l, r) => estimate_wf(*l, scopes) && estimate_wf(*r, scopes),
        ValueView::Sub(l, r) => estimate_wf(*l, scopes) && estimate_wf(*r, scopes),
        ValueView::Reference(n) => scopes.len() > 0,
        ValueView::Dereference(n) => scopes.len() > 0,
        ValueView::Variable(n) => scopes.len() > 0,
        _ => true,
    }
}

/// The size a value is known to have, if any: a sum prefers its left leg,
/// a named variable its declared width (for a dereference, the pointee's),
/// a call its return width; literals have none.
pub open spec fn estimate_size(
    v: ValueView,
    scopes: Seq<ScopeView>,
    funcs: Seq<FnBinding>,
) -> Option<Size>
    decreases v,
{
    match v {
        ValueView::Add(l, r) => match estimate_size(*l, scopes, funcs) {
            Some(s) => Some(s),
            None => estimate_size(*r, scopes, funcs),
        },
        ValueView::Sub(l, r) => match estimate_size(*l, scopes, funcs) {
            Some(s) => Some(s),
            None => estimate_size(*r, scopes, funcs),
        },
        ValueView::Reference(n) => match lookup_var(scopes, n) {
            Some(p) => Some(type_size(p.1)),
            None => None,
        },
        ValueView::Variable(n) => match lookup_var(scopes, n) {
            Some(p) => Some(type_size(p.1)),
            None => None,
        },
        ValueView::Dereference(n) => match lookup_var(scopes, n) {
            Some(p) => match p.1 {
                OperandType::Pointer(inner) => Some(type_size(*inner)),
                _ => Some(type_size(p.1)),
            },
            None => None,
        },
        ValueView::FunctionCall(name, _) => match fn_lookup(funcs, name) {
            Some(p) => Some(type_size(p.0)),
            None => None,
        },
        _ => None,
    }
}

/// The width a value is lowered at when no width is imposed: its size
/// estimate, or a double word.
pub open spec fn value_size(v: ValueView, scopes: Seq<ScopeView>, funcs: Seq<FnBinding>) -> Size {
    match estimate_size(v, scopes, funcs) {
        Some(s) => s,
        None => Size::DoubleWord,
    }
}

/// The operation width of a sum or difference: the imposed width if one is
/// given, else the value's own.
pub open spec fn arith_size(
    v: ValueView,
    scopes: Seq<ScopeView>,
    funcs: Seq<FnBinding>,
    sz: Option<Size>,
) -> Size {
    match sz {
        Some(s) => s,
        None => value_size(v, scopes, funcs),
    }
}

/// The `pop` instructions that restore the first `k` argument registers,
/// last first.
pub open spec fn pops_emit(k: int) -> Seq<InstructionView>
    decreases k,
{
    if k <= 0 {
        Seq::empty()
    } else {
        seq![InstructionView::Pop(reg_token(param_reg(k - 1), Size::QuadWord))] + pops_emit(k - 1)
    }
}

/// Whether a value lowers without a fatal diagnostic, at the given imposed
/// width.  Every named variable must be bound, a dereference must go
/// through a pointer, and no register may be asked for at byte width.
pub open spec fn value_wf(
    v: ValueView,
    scopes: Seq<ScopeView>,
    funcs: Seq<FnBinding>,
    sz: Option<Size>,
) -> bool
    decreases v, 0int, 0int via value_wf_dec
{
    match v {
        ValueView::Char(_) => true,
        ValueView::Int(_) => true,
        ValueView::StringLiteral(_) => true,
        ValueView::Null => false,
        ValueView::Reference(n) => scopes.len() > 0 && (match lookup_var(scopes, n) {
            Some((loc, ty)) => loc is Register ==> type_size(ty) != Size::Byte,
            None => false,
        }),
        ValueView::Dereference(n) => scopes.len() > 0 && (match lookup_var(scopes, n) {
            Some((loc, ty)) => match ty {
                OperandType::Pointer(inner) => type_size(*inner) != Size::Byte,
                _ => false,
            },
            None => false,
        }),
        ValueView::Variable(n) => scopes.len() > 0 && (match lookup_var(scopes, n) {
            Some((loc, ty)) => loc is Register ==> type_size(ty) != Size::Byte,
            None => false,
        }),
        ValueView::FunctionCall(name, args) => call_wf(name, args, scopes, funcs) && (match
            fn_lookup(funcs, name) {
            Some(p) => type_size(p.0) != Size::Byte,
            None => false,
        }),
        ValueView::Add(l, r) => {
            let s = arith_size(v, scopes, funcs, sz);
            estimate_wf(v, scopes) && s != Size::Byte && value_wf(*l, scopes, funcs, Some(s))
                && value_wf(*r, scopes, funcs, Some(s))
        },
        ValueView::Sub(l, r) => {
            let s = arith_size(v, scopes, funcs, sz);
            estimate_wf(v, scopes) && s != Size::Byte && value_wf(*l, scopes, funcs, Some(s))
                && value_wf(*r, scopes, funcs, Some(s))
        },
    }
}

/// Whether a call lowers without a fatal diagnostic: the callee is
/// registered, the argument count matches its parameter count and stays
/// within the six argument registers, and every argument lowers at its
/// parameter's width, which may not be a byte.
pub open spec fn call_wf(
    name: Seq<char>,
    args: Seq<ValueView>,
    scopes: Seq<ScopeView>,
    funcs: Seq<FnBinding>,
) -> bool
    decreases args, 1int, 0int via call_wf_dec
{
    match fn_lookup(funcs, name) {
        Some((ret, params)) => args.len() == params.len() && args.len() <= 6 && args_wf(
            args,
            params,
            scopes,
            funcs,
            0,
        ),
        None => false,
    }
}

/// Whether every argument from the `i`-th on lowers at its parameter's
/// width.
pub open spec fn args_wf(
    args: Seq<ValueView>,
    params: Seq<OperandType>,
    scopes: Seq<ScopeView>,
    funcs: Seq<FnBinding>,
    i: int,
) -> bool
    decreases args, 0int, args.len() - i when 0 <= i <= args.len() via args_wf_dec
{
    if i >= args.len() {
        true
    } else {
        type_size(params[i]) != Size::Byte && value_wf(
            args[i],
            scopes,
            funcs,
            Some(type_size(params[i])),
        ) && args_wf(args, params, scopes, funcs, i + 1)
    }
}

#[via_fn]
proof fn value_wf_dec(v: ValueView, scopes: Seq<ScopeView>, funcs: Seq<FnBinding>, sz: Option<
    Size,
>) {
    if let ValueView::FunctionCall(name, args) = v {
        assert(decreases_to!(v => args));
    }
}

#[via_fn]
proof fn call_wf_dec(
    name: Seq<char>,
    args: Seq<ValueView>,
    scopes: Seq<ScopeView>,
    funcs: Seq<FnBinding>,
) {
}

#[via_fn]
proof fn args_wf_dec(
    args: Seq<ValueView>,
    params: Seq<OperandType>,
    scopes: Seq<ScopeView>,
    funcs: Seq<FnBinding>,
    i: int,
) {
    broadcast use vstd::seq::axiom_seq_index_decreases;

    if 0 <= i < args.len() {
        assert(decreases_to!(args => args[i]));
    }
}

/// The operand token a value lowers to.
pub open spec fn value_token(
    v: ValueView,
    scopes: Seq<ScopeView>,
    funcs: Seq<FnBinding>,
    sz: Option<Size>,
) -> ValueCodegenView {
    match v {
        ValueView::Char(c) => ValueCodegenView::StringLikeValue(seq!['\''] + seq![c] + seq!['\'']),
        ValueView::Int(n) => ValueCodegenView::Number(n),
        ValueView::StringLiteral(s) => ValueCodegenView::StringLiteral(s),
        ValueView::Null => ValueCodegenView::Number(Seq::empty()),
        ValueView::Reference(n) => reg_token(Register::AX, Size::QuadWord),
        ValueView::Dereference(n) => match lookup_var(scopes, n) {
            Some((loc, ty)) => reg_token(Register::AX, type_deref_or_own(ty)),
            None => reg_token(Register::AX, Size::QuadWord),
        },
        ValueView::Variable(n) => match lookup_var(scopes, n) {
            Some((loc, ty)) => location_token(loc, type_size(ty)),
            None => ValueCodegenView::Number(Seq::empty()),
        },
        ValueView::FunctionCall(name, args) => match fn_lookup(funcs, name) {
            Some(p) => reg_token(Register::AX, type_size(p.0)),
            None => reg_token(Register::AX, Size::QuadWord),
        },
        ValueView::Add(l, r) => reg_token(Register::AX, arith_size(v, scopes, funcs, sz)),
        ValueView::Sub(l, r) => reg_token(Register::AX, arith_size(v, scopes, funcs, sz)),
    }
}

/// The width loaded through a pointer type; for a non-pointer, its own.
pub open spec fn type_deref_or_own(ty: OperandType) -> Size {
    match ty {
        OperandType::Pointer(inner) => type_size(*inner),
        _ => type_size(ty),
    }
}

/// The instructions a value's lowering emits, in order.
pub open spec fn value_emit(
    v: ValueView,
    scopes: Seq<ScopeView>,
    funcs: Seq<FnBinding>,
    sz: Option<Size>,
) -> Seq<InstructionView>
    decreases v, 2int, 0int via value_emit_dec
{
    match v {
        ValueView::Char(_) => Seq::empty(),
        ValueView::Int(_) => Seq::empty(),
        ValueView::StringLiteral(_) => Seq::empty(),
        ValueView::Null => Seq::empty(),
        ValueView::Reference(n) => match lookup_var(scopes, n) {
            Some((loc, ty)) => seq![
                InstructionView::LoadAddress(
                    reg_token(Register::AX, Size::QuadWord),
                    location_token(loc, type_size(ty)),
                ),
            ],
            None => Seq::empty(),
        },
        ValueView::Dereference(n) => match lookup_var(scopes, n) {
            Some((loc, ty)) => {
                let ds = type_deref_or_own(ty);
                seq![
                    InstructionView::Move(
                        reg_token(Register::AX, Size::QuadWord),
                        location_ptr_token(loc),
                    ),
                    InstructionView::Move(
                        reg_token(Register::AX, ds),
                        reg_deref_token(Register::AX, ds),
                    ),
                ]
            },
            None => Seq::empty(),
        },
        ValueView::Variable(_) => Seq::empty(),
        ValueView::FunctionCall(name, args) => call_emit(name, args, scopes, funcs),
        ValueView::Add(l, r) => {
            let s = arith_size(v, scopes, funcs, sz);
            value_emit(*l, scopes, funcs, Some(s)) + value_emit(*r, scopes, funcs, Some(s)) + seq![
                InstructionView::Move(
                    reg_token(Register::AX, s),
                    value_token(*l, scopes, funcs, Some(s)),
                ),
                InstructionView::Add(
                    reg_token(Register::AX, s),
                    value_token(*r, scopes, funcs, Some(s)),
                ),
            ]
        },
        ValueView::Sub(l, r) => {
            let s = arith_size(v, scopes, funcs, sz);
            value_emit(*l, scopes, funcs, Some(s)) + value_emit(*r, scopes, funcs, Some(s)) + seq![
                InstructionView::Move(
                    reg_token(Register::AX, s),
                    value_token(*l, scopes, funcs, Some(s)),
                ),
                InstructionView::Sub(
                    reg_token(Register::AX, s),
                    value_token(*r, scopes, funcs, Some(s)),
                ),
            ]
        },
    }
}

/// The instructions a call emits: per argument its value, a spill of the
/// argument register, and the fill; then the call; then the restores.
pub open spec fn call_emit(
    name: Seq<char>,
    args: Seq<ValueView>,
    scopes: Seq<ScopeView>,
    funcs: Seq<FnBinding>,
) -> Seq<InstructionView>
    decreases args, 3int, 0int via call_emit_dec
{
    match fn_lookup(funcs, name) {
        Some((ret, params)) => args_emit(args, params, scopes, funcs, 0) + seq![
            InstructionView::Call(name),
        ] + pops_emit(args.len() as int),
        None => Seq::empty(),
    }
}

/// The per-argument part of a call's emission, from the `i`-th argument on.
pub open spec fn args_emit(
    args: Seq<ValueView>,
    params: Seq<OperandType>,
    scopes: Seq<ScopeView>,
    funcs: Seq<FnBinding>,
    i: int,
) -> Seq<InstructionView>
    decreases args, 1int, args.len() - i when 0 <= i <= args.len() via args_emit_dec
{
    if i >= args.len() {
        Seq::empty()
    } else {
        let width = type_size(params[i]);
        value_emit(args[i], scopes, funcs, Some(width)) + seq![
            InstructionView::Push(reg_token(param_reg(i), Size::QuadWord)),
            InstructionView::Move(
                reg_token(param_reg(i), width),
                value_token(args[i], scopes, funcs, Some(width)),
            ),
        ] + args_emit(args, params, scopes, funcs, i + 1)
    }
}

#[via_fn]
proof fn value_emit_dec(v: ValueView, scopes: Seq<ScopeView>, funcs: Seq<FnBinding>, sz: Option<
    Size,
>) {
    if let ValueView::FunctionCall(name, args) = v {
        assert(decreases_to!(v => args));
    }
}

#[via_fn]
proof fn call_emit_dec(
    name: Seq<char>,
    args: Seq<ValueView>,
    scopes: Seq<ScopeView>,
    funcs: Seq<FnBinding>,
) {
}

#[via_fn]
proof fn args_emit_dec(
    args: Seq<ValueView>,
    params: Seq<OperandType>,
    scopes: Seq<ScopeView>,
    funcs: Seq<FnBinding>,
    i: int,
) {
    broadcast use vstd::seq::axiom_seq_index_decreases;

    if 0 <= i < args.len() {
        assert(decreases_to!(args => args[i]));
    }
}

/// The return width of a registered function.
pub open spec fn call_ret_size(name: Seq<char>, funcs: Seq<FnBinding>) -> Size {
    match fn_lookup(funcs, name) {
        Some(p) => type_size(p.0),
        None => Size::QuadWord,
    }
}

/// Whether a value may stand on the left of an assignment: only a named
/// variable or a dereference of a pointer variable is addressable.
pub open spec fn lhs_wf(v: ValueView, scopes: Seq<ScopeView>) -> bool {
    match v {
        ValueView::Variable(n) => scopes.len() > 0 && (match lookup_var(scopes, n) {
            Some((loc, ty)) => loc is Register ==> type_size(ty) != Size::Byte,
            None => false,
        }),
        ValueView::Dereference(n) => scopes.len() > 0 && (match lookup_var(scopes, n) {
            Some((loc, ty)) => ty is Pointer,
            None => false,
        }),
        _ => false,
    }
}

/// The instructions lowering a destination emits: a dereference first
/// loads the pointer into the scratch register.
pub open spec fn lhs_emit(v: ValueView, scopes: Seq<ScopeView>) -> Seq<InstructionView> {
    match v {
        ValueView::Dereference(n) => match lookup_var(scopes, n) {
            Some((loc, ty)) => seq![
                InstructionView::Move(
                    reg_token(Register::AX, Size::QuadWord),
                    location_ptr_token(loc),
                ),
            ],
            None => Seq::empty(),
        },
        _ => Seq::empty(),
    }
}

/// The destination token of an assignment.
pub open spec fn lhs_token(v: ValueView, scopes: Seq<ScopeView>) -> ValueCodegenView {
    match v {
        ValueView::Variable(n) => match lookup_var(scopes, n) {
            Some((loc, ty)) => location_token(loc, type_size(ty)),
            None => ValueCodegenView::Number(Seq::empty()),
        },
        ValueView::Dereference(n) => match lookup_var(scopes, n) {
            Some((loc, ty)) => reg_deref_token(Register::AX, type_deref_or_own(ty)),
            None => ValueCodegenView::Number(Seq::empty()),
        },
        _ => ValueCodegenView::Number(Seq::empty()),
    }
}

/// Whether storing a value into a destination lowers cleanly: the value
/// must lower, and when both sides are memory the staging through the
/// scratch register must not be asked for at byte width.
pub open spec fn assign_wf(
    width: Size,
    dst: ValueCodegenView,
    value: ValueView,
    scopes: Seq<ScopeView>,
    funcs: Seq<FnBinding>,
) -> bool {
    value_wf(value, scopes, funcs, None) && ((dst is StackOffset && value_token(
        value,
        scopes,
        funcs,
        None,
    ) is StackOffset) ==> width != Size::Byte)
}

/// The instructions storing a value into a destination: the value's own,
/// then either a direct move or, memory to memory, a staged pair through
/// the scratch register.
pub open spec fn assign_emit(
    width: Size,
    dst: ValueCodegenView,
    value: ValueView,
    scopes: Seq<ScopeView>,
    funcs: Seq<FnBinding>,
) -> Seq<InstructionView> {
    let tok = value_token(value, scopes, funcs, None);
    value_emit(value, scopes, funcs, None) + if dst is StackOffset && tok is StackOffset {
        seq![
            InstructionView::Move(reg_token(Register::AX, width), tok),
            InstructionView::Move(dst, reg_token(Register::AX, width)),
        ]
    } else {
        seq![InstructionView::Move(dst, tok)]
    }
}

/// The instructions of a function prologue: the label, the saved frame
/// pointer, the new frame, and the placeholder that is later patched into
/// `sub rsp, n` or removed.
pub open spec fn prologue_emit(name: Seq<char>) -> Seq<InstructionView> {
    seq![
        InstructionView::Label(name),
        InstructionView::Push(reg_token(Register::BP, Size::QuadWord)),
        InstructionView::Move(
            reg_token(Register::BP, Size::QuadWord),
            reg_token(Register::SP, Size::QuadWord),
        ),
        InstructionView::Label("[PLACEHOLDER]"@),
    ]
}

/// The variable table with the parameters from the `i`-th on bound to
/// their argument registers.
pub open spec fn bind_params(
    t: VarTableView,
    params: Seq<(Seq<char>, OperandType)>,
    i: int,
) -> VarTableView
    decreases params.len() - i when 0 <= i <= params.len()
{
    if i >= params.len() {
        t
    } else {
        bind_params(table_bind_param(t, params[i].0, params[i].1, i), params, i + 1)
    }
}

/// The state at a function's entry: a fresh scope, the prologue emitted,
/// the parameters bound.
pub open spec fn func_entry(
    name: Seq<char>,
    params: Seq<(Seq<char>, OperandType)>,
    st: EmitState,
) -> EmitState {
    let st1 = EmitState {
        scopes: st.scopes.push(empty_scope()),
        insts: st.insts + prologue_emit(name),
        id: st.id,
    };
    with_vars(st1, bind_params(st1.scopes.last().vars, params, 0))
}

/// Whether the epilogue at a `Return` lowers cleanly: the placeholder is
/// in the buffer, and a non-null value lowers at the return width, which
/// may not be a byte.
pub open spec fn ret_wf(
    val: ValueView,
    ret: OperandType,
    ph: int,
    funcs: Seq<FnBinding>,
    st: EmitState,
) -> bool {
    st.scopes.len() > 0 && 0 <= ph < st.insts.len() && (val is Null || (value_wf(
        val,
        st.scopes,
        funcs,
        Some(type_size(ret)),
    ) && type_size(ret) != Size::Byte))
}

/// The state after the first `Return` of a body: the value moved into the
/// return register unless it is already there, the placeholder patched
/// into `sub rsp, n` or removed when the frame is empty, and the epilogue
/// emitted.  The scope is left open, as lowering never returns to it.
pub open spec fn ret_step(
    val: ValueView,
    ret: OperandType,
    ph: int,
    funcs: Seq<FnBinding>,
    st: EmitState,
) -> EmitState {
    let rs = type_size(ret);
    let st1 = if val is Null {
        st
    } else {
        let tok = value_token(val, st.scopes, funcs, Some(rs));
        let stv = emit(st, value_emit(val, st.scopes, funcs, Some(rs)));
        if token_text(tok) == reg_size(Register::AX, rs) {
            stv
        } else {
            emit(stv, seq![InstructionView::Move(reg_token(Register::AX, rs), tok)])
        }
    };
    let stack = st1.scopes.last().vars.stack;
    let patched = if stack == 0 {
        st1.insts.remove(ph)
    } else {
        st1.insts.update(
            ph,
            InstructionView::Sub(
                reg_token(Register::SP, Size::QuadWord),
                ValueCodegenView::Number(dec_str(stack)),
            ),
        )
    };
    EmitState {
        insts: patched + seq![
            InstructionView::Move(
                reg_token(Register::SP, Size::QuadWord),
                reg_token(Register::BP, Size::QuadWord),
            ),
            InstructionView::Pop(reg_token(Register::BP, Size::QuadWord)),
            InstructionView::Return,
        ],
        scopes: st1.scopes,
        id: st1.id,
    }
}


/// The label an `If` lowered in state `st` jumps to.
pub open spec fn if_label(st: EmitState) -> Seq<char> {
    ".IF"@ + dec_str(st.id + 1)
}

/// The state of an `If` after its comparison and conditional jump are
/// emitted, just before the body is lowered: the right value, the left
/// value at the left's width, a staging move when both are memory or the
/// left is an immediate, the compare, a fresh label, and the inverted
/// jump.
pub open spec fn if_pre_body(
    predicate: crate::operand::compare::PredicateView,
    funcs: Seq<FnBinding>,
    st: EmitState,
) -> EmitState {
    let op_size = value_size(predicate.lhs, st.scopes, funcs);
    let rhs_tok = value_token(predicate.rhs, st.scopes, funcs, None);
    let lhs_tok = value_token(predicate.lhs, st.scopes, funcs, Some(op_size));
    let st1 = emit(
        st,
        value_emit(predicate.rhs, st.scopes, funcs, None) + value_emit(
            predicate.lhs,
            st.scopes,
            funcs,
            Some(op_size),
        ),
    );
    let staged = (lhs_tok is StackOffset && rhs_tok is StackOffset) || lhs_tok is Number;
    let cmp_lhs = if staged {
        reg_token(Register::AX, op_size)
    } else {
        lhs_tok
    };
    let st2 = emit(
        st1,
        (if staged {
            seq![InstructionView::Move(reg_token(Register::AX, op_size), lhs_tok)]
        } else {
            Seq::empty()
        }) + seq![InstructionView::Compare(cmp_lhs, rhs_tok)],
    );
    emit(
        EmitState { id: st.id + 1, ..st2 },
        seq![
            InstructionView::JumpConditional {
                label_destination: if_label(st),
                conditional: crate::operand::compare::compare_opposite(predicate.operation),
            },
        ],
    )
}

/// The state after one statement is lowered.
pub open spec fn op_step(op: OperandView, funcs: Seq<FnBinding>, st: EmitState) -> EmitState
    decreases op, 0int via op_step_dec
{
    match op {
        OperandView::DeclareVariable(ty, name, val) => {
            let width = type_size(ty);
            let newoff = st.scopes.last().vars.stack + size_bytes(width);
            let st1 = with_vars(st, crate::variables::table_alloc(st.scopes.last().vars, name, ty));
            let dst = location_token(VariableLocation::StackOffset(newoff as u32), width);
            emit(st1, assign_emit(width, dst, val, st1.scopes, funcs))
        },
        OperandView::SetValue(dst, val) => {
            let width = value_size(dst, st.scopes, funcs);
            let st1 = emit(st, lhs_emit(dst, st.scopes));
            emit(st1, assign_emit(width, lhs_token(dst, st.scopes), val, st.scopes, funcs))
        },
        OperandView::InlineAssembly(text) => emit(st, seq![InstructionView::AsmLiteral(text)]),
        OperandView::FunctionCall(name, args) => emit(
            st,
            call_emit(name, args, st.scopes, funcs),
        ),
        OperandView::If { predicate, main_body } => {
            let st4 = if_pre_body(predicate, funcs, st);
            let st5 = ops_step(main_body, funcs, st4);
            emit(st5, seq![InstructionView::Label(if_label(st))])
        },
        OperandView::DropVariable(name) => with_vars(
            st,
            table_remove(st.scopes.last().vars, name),
        ),
        OperandView::Return(_) => st,
        OperandView::Add(_, _, _) => st,
        OperandView::Subtract(_, _, _) => st,
        OperandView::FunctionDecl(ty, name, body, params) => func_step(
            ty,
            name,
            body,
            params,
            funcs,
            st,
        ),
    }
}

/// The state after a list of statements is lowered in order.
pub open spec fn ops_step(s: Seq<OperandView>, funcs: Seq<FnBinding>, st: EmitState) -> EmitState
    decreases s, 0int via ops_step_dec
{
    if s.len() == 0 {
        st
    } else {
        ops_step(s.drop_first(), funcs, op_step(s.first(), funcs, st))
    }
}

/// The state after a function body is lowered: statements in order up to
/// the first `Return`, whose epilogue ends the body; statements after it
/// are not lowered.  A body without a `Return` only closes its scope.
pub open spec fn body_step(
    s: Seq<OperandView>,
    ret: OperandType,
    ph: int,
    funcs: Seq<FnBinding>,
    st: EmitState,
) -> EmitState
    decreases s, 0int via body_step_dec
{
    if s.len() == 0 {
        EmitState { scopes: st.scopes.drop_last(), ..st }
    } else {
        match s.first() {
            OperandView::Return(val) => ret_step(val, ret, ph, funcs, st),
            _ => body_step(s.drop_first(), ret, ph, funcs, op_step(s.first(), funcs, st)),
        }
    }
}

/// The state after a whole function declaration is lowered.
pub open spec fn func_step(
    ret: OperandType,
    name: Seq<char>,
    body: Seq<OperandView>,
    params: Seq<(Seq<char>, OperandType)>,
    funcs: Seq<FnBinding>,
    st: EmitState,
) -> EmitState
    decreases body, 1int via func_step_dec
{
    body_step(body, ret, st.insts.len() as int + 3, funcs, func_entry(name, params, st))
}

#[via_fn]
proof fn op_step_dec(op: OperandView, funcs: Seq<FnBinding>, st: EmitState) {
    if let OperandView::If { predicate, main_body } = op {
        assert(decreases_to!(op => main_body));
    }
    if let OperandView::FunctionDecl(ty, name, body, params) = op {
        assert(decreases_to!(op => body));
    }
}

#[via_fn]
proof fn ops_step_dec(s: Seq<OperandView>, funcs: Seq<FnBinding>, st: EmitState) {
    broadcast use vstd::seq::axiom_seq_index_decreases;

    if s.len() > 0 {
        assert(decreases_to!(s => s[0]));
        vstd::seq::axiom_seq_len_decreases::<OperandView>(s, s.drop_first());
    }
}

#[via_fn]
proof fn body_step_dec(
    s: Seq<OperandView>,
    ret: OperandType,
    ph: int,
    funcs: Seq<FnBinding>,
    st: EmitState,
) {
    broadcast use vstd::seq::axiom_seq_index_decreases;

    if s.len() > 0 {
        assert(decreases_to!(s => s[0]));
        vstd::seq::axiom_seq_len_decreases::<OperandView>(s, s.drop_first());
    }
}

#[via_fn]
proof fn func_step_dec(
    ret: OperandType,
    name: Seq<char>,
    body: Seq<OperandView>,
    params: Seq<(Seq<char>, OperandType)>,
    funcs: Seq<FnBinding>,
    st: EmitState,
) {
}

/// Whether one statement lowers without a fatal diagnostic.
pub open spec fn op_wf(op: OperandView, funcs: Seq<FnBinding>, st: EmitState) -> bool
    decreases op, 0int via op_wf_dec
{
    match op {
        OperandView::DeclareVariable(ty, name, val) => {
            let width = type_size(ty);
            let newoff = st.scopes.last().vars.stack + size_bytes(width);
            let st1 = with_vars(st, crate::variables::table_alloc(st.scopes.last().vars, name, ty));
            let dst = location_token(VariableLocation::StackOffset(newoff as u32), width);
            st.scopes.len() > 0 && newoff <= u32::MAX && assign_wf(
                width,
                dst,
                val,
                st1.scopes,
                funcs,
            )
        },
        OperandView::SetValue(dst, val) => estimate_wf(dst, st.scopes) && lhs_wf(dst, st.scopes)
            && assign_wf(
            value_size(dst, st.scopes, funcs),
            lhs_token(dst, st.scopes),
            val,
            st.scopes,
            funcs,
        ),
        OperandView::InlineAssembly(_) => true,
        OperandView::FunctionCall(name, args) => call_wf(name, args, st.scopes, funcs),
        OperandView::If { predicate, main_body } => {
            let op_size = value_size(predicate.lhs, st.scopes, funcs);
            let rhs_tok = value_token(predicate.rhs, st.scopes, funcs, None);
            let lhs_tok = value_token(predicate.lhs, st.scopes, funcs, Some(op_size));
            let staged = (lhs_tok is StackOffset && rhs_tok is StackOffset) || lhs_tok is Number;
            estimate_wf(predicate.lhs, st.scopes) && value_wf(predicate.rhs, st.scopes, funcs, None)
                && value_wf(predicate.lhs, st.scopes, funcs, Some(op_size)) && (staged ==> op_size
                != Size::Byte) && st.id + 1 <= usize::MAX && ops_wf(
                main_body,
                funcs,
                if_pre_body(predicate, funcs, st),
            )
        },
        OperandView::DropVariable(name) => st.scopes.len() > 0,
        OperandView::Return(_) => false,
        OperandView::Add(_, _, _) => true,
        OperandView::Subtract(_, _, _) => true,
        OperandView::FunctionDecl(ty, name, body, params) => func_wf(
            ty,
            name,
            body,
            params,
            funcs,
            st,
        ),
    }
}

/// Whether a list of statements lowers without a fatal diagnostic.
pub open spec fn ops_wf(s: Seq<OperandView>, funcs: Seq<FnBinding>, st: EmitState) -> bool
    decreases s, 0int via ops_wf_dec
{
    if s.len() == 0 {
        true
    } else {
        op_wf(s.first(), funcs, st) && ops_wf(s.drop_first(), funcs, op_step(s.first(), funcs, st))
    }
}

/// Whether a function body lowers without a fatal diagnostic, up to its
/// first `Return`.
pub open spec fn body_wf(
    s: Seq<OperandView>,
    ret: OperandType,
    ph: int,
    funcs: Seq<FnBinding>,
    st: EmitState,
) -> bool
    decreases s, 0int via body_wf_dec
{
    if s.len() == 0 {
        st.scopes.len() > 0
    } else {
        match s.first() {
            OperandView::Return(val) => ret_wf(val, ret, ph, funcs, st),
            _ => op_wf(s.first(), funcs, st) && body_wf(
                s.drop_first(),
                ret,
                ph,
                funcs,
                op_step(s.first(), funcs, st),
            ),
        }
    }
}

/// Whether a function declaration lowers without a fatal diagnostic: at
/// most six parameters, a `Return` somewhere in the body, and the body
/// well formed from the entry state on.
pub open spec fn func_wf(
    ret: OperandType,
    name: Seq<char>,
    body: Seq<OperandView>,
    params: Seq<(Seq<char>, OperandType)>,
    funcs: Seq<FnBinding>,
    st: EmitState,
) -> bool
    decreases body, 1int via func_wf_dec
{
    params.len() <= 6 && (exists|k: int| 0 <= k < body.len() && body[k] is Return) && body_wf(
        body,
        ret,
        st.insts.len() as int + 3,
        funcs,
        func_entry(name, params, st),
    )
}

#[via_fn]
proof fn op_wf_dec(op: OperandView, funcs: Seq<FnBinding>, st: EmitState) {
    if let OperandView::If { predicate, main_body } = op {
        assert(decreases_to!(op => main_body));
    }
    if let OperandView::FunctionDecl(ty, name, body, params) = op {
        assert(decreases_to!(op => body));
    }
}

#[via_fn]
proof fn ops_wf_dec(s: Seq<OperandView>, funcs: Seq<FnBinding>, st: EmitState) {
    broadcast use vstd::seq::axiom_seq_index_decreases;

    if s.len() > 0 {
        assert(decreases_to!(s => s[0]));
        vstd::seq::axiom_seq_len_decreases::<OperandView>(s, s.drop_first());
    }
}

#[via_fn]
proof fn body_wf_dec(
    s: Seq<OperandView>,
    ret: OperandType,
    ph: int,
    funcs: Seq<FnBinding>,
    st: EmitState,
) {
    broadcast use vstd::seq::axiom_seq_index_decreases;

    if s.len() > 0 {
        assert(decreases_to!(s => s[0]));
        vstd::seq::axiom_seq_len_decreases::<OperandView>(s, s.drop_first());
    }
}

#[via_fn]
proof fn func_wf_dec(
    ret: OperandType,
    name: Seq<char>,
    body: Seq<OperandView>,
    params: Seq<(Seq<char>, OperandType)>,
    funcs: Seq<FnBinding>,
    st: EmitState,
) {
}

/// The types of a parameter list, in order.
pub open spec fn param_types(params: Seq<(Seq<char>, OperandType)>) -> Seq<OperandType> {
    Seq::new(params.len(), |i: int| params[i].1)
}

/// The global function table after every top-level declaration's signature
/// is registered, in order; the first registration of a name wins.
pub open spec fn register_functions(
    ops: Seq<OperandView>,
    funcs: Seq<FnBinding>,
) -> Seq<FnBinding>
    decreases ops.len(),
{
    if ops.len() == 0 {
        funcs
    } else {
        let funcs1 = match ops.first() {
            OperandView::FunctionDecl(ty, name, body, params) => crate::function_manager::fn_declare(
                funcs,
                name,
                ty,
                param_types(params),
            ),
            _ => funcs,
        };
        register_functions(ops.drop_first(), funcs1)
    }
}

/// The empty lowering state a fresh compiler starts from.
pub open spec fn initial_state() -> EmitState {
    EmitState { scopes: Seq::empty(), insts: Seq::empty(), id: 0 }
}

} // verus!
