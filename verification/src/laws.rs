//! What holds of every lowered module: frame balance and the exactness of
//! `sub rsp, n`, the absence of memory-to-memory moves, the symmetry of
//! call spills and restores, where the dead-variable pass places its drops
//! and what it deletes, the provenance of every symbol reference in
//! `.text`, and the determinism of the output.

use vstd::prelude::*;

use crate::assembly::InstructionView;
use crate::function_manager::FnBinding;
use crate::lowering::{
    args_emit, args_wf, assign_emit, body_step, body_wf, call_emit, call_wf, func_step, func_wf,
    if_pre_body, lhs_emit, op_step, op_wf, ops_step, ops_wf, pops_emit, ret_step, ret_wf,
    value_emit, value_token, value_wf, EmitState,
};
use crate::optimisation::variable_deallocation::{
    dead_declare, dedup_names, drops_at, last_use, liveness_rewrite, op_names, ops_names,
    rewrite_from, rewrite_op,
};
use crate::render::dec_str;
use crate::util::size_bytes;
use crate::operand::{OperandType, OperandView};
use crate::registers::{reg_token, Register};
use crate::scope::ScopeView;
use crate::util::Size;
use crate::value::{ValueCodegenView, ValueView};

verus! {

/// No instruction of the list is a `ret`.
pub open spec fn no_ret(insts: Seq<InstructionView>) -> bool {
    forall|k: int| 0 <= k < insts.len() ==> !((#[trigger] insts[k]) is Return)
}

/// No `mov` of the list has frame slots on both sides.
pub open spec fn staged_moves(insts: Seq<InstructionView>) -> bool {
    forall|k: int|
        0 <= k < insts.len() ==> ((#[trigger] insts[k]) matches InstructionView::Move(d, s) ==> !(d
            is StackOffset && s is StackOffset))
}

/// Both section properties at once, for the instructions a value or
/// statement appends.
pub open spec fn tail_ok(insts: Seq<InstructionView>) -> bool {
    no_ret(insts) && staged_moves(insts)
}

/// `tail_ok` splits over concatenation.
pub proof fn lemma_tail_ok_concat(a: Seq<InstructionView>, b: Seq<InstructionView>)
    requires
        tail_ok(a),
        tail_ok(b),
    ensures
        tail_ok(a + b),
{
    assert forall|k: int| 0 <= k < (a + b).len() implies !((#[trigger] (a + b)[k]) is Return) && ((
    a + b)[k] matches InstructionView::Move(d, s) ==> !(d is StackOffset && s is StackOffset)) by {
        if k < a.len() {
            assert((a + b)[k] == a[k]);
        } else {
            assert((a + b)[k] == b[k - a.len()]);
        }
    }
}

/// The per-argument spill instructions of a call never emit a `ret` and
/// never move memory to memory.
pub proof fn lemma_args_emit_ok(
    args: Seq<ValueView>,
    params: Seq<OperandType>,
    scopes: Seq<ScopeView>,
    funcs: Seq<FnBinding>,
    i: int,
)
    requires
        0 <= i <= args.len(),
    ensures
        tail_ok(args_emit(args, params, scopes, funcs, i)),
    decreases args, 4int, args.len() - i,
{
    if i < args.len() {
        let width = crate::operand::type_size(params[i]);
        proof_decreases_args(args, i);
        lemma_value_emit_ok(args[i], scopes, funcs, Some(width));
        lemma_args_emit_ok(args, params, scopes, funcs, i + 1);
        let spill = seq![
            InstructionView::Push(reg_token(crate::variables::param_reg(i), Size::QuadWord)),
            InstructionView::Move(
                reg_token(crate::variables::param_reg(i), width),
                crate::lowering::value_token(args[i], scopes, funcs, Some(width)),
            ),
        ];
        assert(tail_ok(spill));
        lemma_tail_ok_concat(value_emit(args[i], scopes, funcs, Some(width)), spill);
        lemma_tail_ok_concat(
            value_emit(args[i], scopes, funcs, Some(width)) + spill,
            args_emit(args, params, scopes, funcs, i + 1),
        );
        assert(args_emit(args, params, scopes, funcs, i) =~= (value_emit(
            args[i],
            scopes,
            funcs,
            Some(width),
        ) + spill) + args_emit(args, params, scopes, funcs, i + 1));
    } else {
        assert(tail_ok(args_emit(args, params, scopes, funcs, i)));
    }
}

/// The restores after a call are all `pop`s.
pub proof fn lemma_pops_emit_ok(k: int)
    ensures
        tail_ok(pops_emit(k)),
        pops_emit(k).len() == if k >= 0 {
            k
        } else {
            0
        },
        forall|m: int| 0 <= m < k ==> pops_emit(k)[m] == InstructionView::Pop(
            reg_token(crate::variables::param_reg(k - 1 - m), Size::QuadWord),
        ),
    decreases k,
{
    if k > 0 {
        lemma_pops_emit_ok(k - 1);
        assert forall|m: int| 0 <= m < k implies pops_emit(k)[m] == InstructionView::Pop(
            reg_token(crate::variables::param_reg(k - 1 - m), Size::QuadWord),
        ) by {
            if m > 0 {
                assert(pops_emit(k)[m] == pops_emit(k - 1)[m - 1]);
            }
        }
    }
}

/// A call's instructions never emit a `ret` and never move memory to
/// memory.
pub proof fn lemma_call_emit_ok(
    name: Seq<char>,
    args: Seq<ValueView>,
    scopes: Seq<ScopeView>,
    funcs: Seq<FnBinding>,
)
    ensures
        tail_ok(call_emit(name, args, scopes, funcs)),
    decreases args, 5int, 0int,
{
    let looked = crate::function_manager::fn_lookup(funcs, name);
    if looked is Some {
        let params = looked->Some_0.1;
        lemma_args_emit_ok(args, params, scopes, funcs, 0);
        lemma_pops_emit_ok(args.len() as int);
        assert(tail_ok(seq![InstructionView::Call(name)]));
        lemma_tail_ok_concat(
            args_emit(args, params, scopes, funcs, 0),
            seq![InstructionView::Call(name)],
        );
        lemma_tail_ok_concat(
            args_emit(args, params, scopes, funcs, 0) + seq![InstructionView::Call(name)],
            pops_emit(args.len() as int),
        );
    }
}

/// A value's instructions never emit a `ret` and never move memory to
/// memory: every `mov` a value emits loads the scratch register or an
/// argument register.
pub proof fn lemma_value_emit_ok(
    v: ValueView,
    scopes: Seq<ScopeView>,
    funcs: Seq<FnBinding>,
    sz: Option<Size>,
)
    ensures
        tail_ok(value_emit(v, scopes, funcs, sz)),
    decreases v, 3int, 0int,
{
    match v {
        ValueView::FunctionCall(name, args) => {
            assert(decreases_to!(v => args));
            lemma_call_emit_ok(name, args, scopes, funcs);
        },
        ValueView::Add(l, r) => {
            let s = crate::lowering::arith_size(v, scopes, funcs, sz);
            lemma_value_emit_ok(*l, scopes, funcs, Some(s));
            lemma_value_emit_ok(*r, scopes, funcs, Some(s));
            let tail = seq![
                InstructionView::Move(
                    reg_token(Register::AX, s),
                    crate::lowering::value_token(*l, scopes, funcs, Some(s)),
                ),
                InstructionView::Add(
                    reg_token(Register::AX, s),
                    crate::lowering::value_token(*r, scopes, funcs, Some(s)),
                ),
            ];
            assert(tail_ok(tail));
            lemma_tail_ok_concat(
                value_emit(*l, scopes, funcs, Some(s)),
                value_emit(*r, scopes, funcs, Some(s)),
            );
            lemma_tail_ok_concat(
                value_emit(*l, scopes, funcs, Some(s)) + value_emit(*r, scopes, funcs, Some(s)),
                tail,
            );
        },
        ValueView::Sub(l, r) => {
            let s = crate::lowering::arith_size(v, scopes, funcs, sz);
            lemma_value_emit_ok(*l, scopes, funcs, Some(s));
            lemma_value_emit_ok(*r, scopes, funcs, Some(s));
            let tail = seq![
                InstructionView::Move(
                    reg_token(Register::AX, s),
                    crate::lowering::value_token(*l, scopes, funcs, Some(s)),
                ),
                InstructionView::Sub(
                    reg_token(Register::AX, s),
                    crate::lowering::value_token(*r, scopes, funcs, Some(s)),
                ),
            ];
            assert(tail_ok(tail));
            lemma_tail_ok_concat(
                value_emit(*l, scopes, funcs, Some(s)),
                value_emit(*r, scopes, funcs, Some(s)),
            );
            lemma_tail_ok_concat(
                value_emit(*l, scopes, funcs, Some(s)) + value_emit(*r, scopes, funcs, Some(s)),
                tail,
            );
        },
        _ => {
            assert(tail_ok(value_emit(v, scopes, funcs, sz)));
        },
    }
}

/// The index fact the argument-list induction steps on.
proof fn proof_decreases_args(args: Seq<ValueView>, i: int)
    requires
        0 <= i < args.len(),
    ensures
        decreases_to!(args => args[i]),
{
    broadcast use vstd::seq::axiom_seq_index_decreases;

    assert(decreases_to!(args => args[i]));
}

/// The frame bytes one statement takes: a declaration takes its type's
/// width, a conditional takes what its body declares.
pub open spec fn op_declared(op: OperandView) -> nat
    decreases op, 0int via op_declared_dec
{
    match op {
        OperandView::DeclareVariable(ty, _, _) => size_bytes(crate::operand::type_size(ty)),
        OperandView::If { predicate, main_body } => ops_declared(main_body),
        _ => 0,
    }
}

/// The frame bytes a list of statements takes.
pub open spec fn ops_declared(s: Seq<OperandView>) -> nat
    decreases s, 1int via ops_declared_dec
{
    if s.len() == 0 {
        0
    } else {
        op_declared(s.first()) + ops_declared(s.drop_first())
    }
}

/// The frame bytes taken on the path to the first `Return` of a body.
pub open spec fn declared_on_path(s: Seq<OperandView>) -> nat
    decreases s, 2int via declared_on_path_dec
{
    if s.len() == 0 {
        0
    } else if s.first() is Return {
        0
    } else {
        op_declared(s.first()) + declared_on_path(s.drop_first())
    }
}

/// A statement with no nested function declaration, not even inside a
/// conditional's body.
pub open spec fn flat_op(op: OperandView) -> bool
    decreases op, 0int via flat_op_dec
{
    match op {
        OperandView::FunctionDecl(_, _, _, _) => false,
        OperandView::If { predicate, main_body } => flat_ops(main_body),
        _ => true,
    }
}

/// A statement list with no nested function declaration anywhere.
pub open spec fn flat_ops(s: Seq<OperandView>) -> bool
    decreases s, 1int via flat_ops_dec
{
    s.len() == 0 || (flat_op(s.first()) && flat_ops(s.drop_first()))
}

/// Whether a body holds a `Return` at its own level.
pub open spec fn has_return(s: Seq<OperandView>) -> bool {
    exists|k: int| 0 <= k < s.len() && (#[trigger] s[k]) is Return
}

#[via_fn]
proof fn op_declared_dec(op: OperandView) {
    if let OperandView::If { predicate, main_body } = op {
        assert(decreases_to!(op => main_body));
    }
}

#[via_fn]
proof fn ops_declared_dec(s: Seq<OperandView>) {
    broadcast use vstd::seq::axiom_seq_index_decreases;

    if s.len() > 0 {
        assert(decreases_to!(s => s[0]));
        vstd::seq::axiom_seq_len_decreases::<OperandView>(s, s.drop_first());
    }
}

#[via_fn]
proof fn declared_on_path_dec(s: Seq<OperandView>) {
    broadcast use vstd::seq::axiom_seq_index_decreases;

    if s.len() > 0 {
        assert(decreases_to!(s => s[0]));
        vstd::seq::axiom_seq_len_decreases::<OperandView>(s, s.drop_first());
    }
}

#[via_fn]
proof fn flat_op_dec(op: OperandView) {
    if let OperandView::If { predicate, main_body } = op {
        assert(decreases_to!(op => main_body));
    }
}

#[via_fn]
proof fn flat_ops_dec(s: Seq<OperandView>) {
    broadcast use vstd::seq::axiom_seq_index_decreases;

    if s.len() > 0 {
        assert(decreases_to!(s => s[0]));
        vstd::seq::axiom_seq_len_decreases::<OperandView>(s, s.drop_first());
    }
}

/// Storing a value emits no `ret` and no memory-to-memory `mov`: when
/// both sides live in memory the store goes through the scratch register.
pub proof fn lemma_assign_emit_ok(
    width: Size,
    dst: ValueCodegenView,
    value: ValueView,
    scopes: Seq<ScopeView>,
    funcs: Seq<FnBinding>,
)
    ensures
        tail_ok(assign_emit(width, dst, value, scopes, funcs)),
{
    lemma_value_emit_ok(value, scopes, funcs, None);
    let tok = crate::lowering::value_token(value, scopes, funcs, None);
    if dst is StackOffset && tok is StackOffset {
        let staged = seq![
            InstructionView::Move(reg_token(Register::AX, width), tok),
            InstructionView::Move(dst, reg_token(Register::AX, width)),
        ];
        assert(tail_ok(staged));
        lemma_tail_ok_concat(value_emit(value, scopes, funcs, None), staged);
    } else {
        let direct = seq![InstructionView::Move(dst, tok)];
        assert(tail_ok(direct));
        lemma_tail_ok_concat(value_emit(value, scopes, funcs, None), direct);
    }
}

/// A flat statement only appends instructions, appends no `ret` and no
/// memory-to-memory `mov`, keeps the scope count, and grows the innermost
/// frame by exactly what it declares.
#[verifier::rlimit(60)]
pub proof fn lemma_op_step_flat(op: OperandView, funcs: Seq<FnBinding>, st: EmitState)
    requires
        op_wf(op, funcs, st),
        flat_op(op),
    ensures
        ({
            let out = op_step(op, funcs, st);
            &&& out.insts.len() >= st.insts.len()
            &&& out.insts.take(st.insts.len() as int) == st.insts
            &&& tail_ok(out.insts.skip(st.insts.len() as int))
            &&& out.scopes.len() == st.scopes.len()
            &&& (st.scopes.len() > 0 ==> out.scopes.last().vars.stack == st.scopes.last().vars.stack
                + op_declared(op))
        }),
    decreases op, 7int, 0int,
{
    let out = op_step(op, funcs, st);
    match op {
        OperandView::DeclareVariable(ty, name, val) => {
            let width = crate::operand::type_size(ty);
            let newoff = st.scopes.last().vars.stack + size_bytes(width);
            let st1 = crate::lowering::with_vars(
                st,
                crate::variables::table_alloc(st.scopes.last().vars, name, ty),
            );
            let dst = crate::variables::location_token(
                crate::variables::VariableLocation::StackOffset(newoff as u32),
                width,
            );
            lemma_assign_emit_ok(width, dst, val, st1.scopes, funcs);
            assert(out.insts.take(st.insts.len() as int) =~= st.insts);
            assert(out.insts.skip(st.insts.len() as int) =~= assign_emit(
                width,
                dst,
                val,
                st1.scopes,
                funcs,
            ));
        },
        OperandView::SetValue(dst, val) => {
            let width = crate::lowering::value_size(dst, st.scopes, funcs);
            lemma_assign_emit_ok(
                width,
                crate::lowering::lhs_token(dst, st.scopes),
                val,
                st.scopes,
                funcs,
            );
            assert(tail_ok(lhs_emit(dst, st.scopes)));
            lemma_tail_ok_concat(
                lhs_emit(dst, st.scopes),
                assign_emit(
                    width,
                    crate::lowering::lhs_token(dst, st.scopes),
                    val,
                    st.scopes,
                    funcs,
                ),
            );
            assert(out.insts.take(st.insts.len() as int) =~= st.insts);
            assert(out.insts.skip(st.insts.len() as int) =~= lhs_emit(dst, st.scopes)
                + assign_emit(
                width,
                crate::lowering::lhs_token(dst, st.scopes),
                val,
                st.scopes,
                funcs,
            ));
        },
        OperandView::InlineAssembly(text) => {
            assert(out.insts.take(st.insts.len() as int) =~= st.insts);
            assert(out.insts.skip(st.insts.len() as int) =~= seq![
                InstructionView::AsmLiteral(text),
            ]);
            assert(tail_ok(seq![InstructionView::AsmLiteral(text)]));
        },
        OperandView::FunctionCall(name, args) => {
            lemma_call_emit_ok(name, args, st.scopes, funcs);
            assert(out.insts.take(st.insts.len() as int) =~= st.insts);
            assert(out.insts.skip(st.insts.len() as int) =~= call_emit(
                name,
                args,
                st.scopes,
                funcs,
            ));
        },
        OperandView::If { predicate, main_body } => {
            let st4 = if_pre_body(predicate, funcs, st);
            let op_size = crate::lowering::value_size(predicate.lhs, st.scopes, funcs);
            let rhs_tok = crate::lowering::value_token(predicate.rhs, st.scopes, funcs, None);
            let lhs_tok = crate::lowering::value_token(
                predicate.lhs,
                st.scopes,
                funcs,
                Some(op_size),
            );
            let staged = (lhs_tok is StackOffset && rhs_tok is StackOffset) || lhs_tok is Number;
            let cmp_lhs = if staged {
                reg_token(Register::AX, op_size)
            } else {
                lhs_tok
            };
            let cmp_part = (if staged {
                seq![InstructionView::Move(reg_token(Register::AX, op_size), lhs_tok)]
            } else {
                Seq::<InstructionView>::empty()
            }) + seq![InstructionView::Compare(cmp_lhs, rhs_tok)] + seq![
                InstructionView::JumpConditional {
                    label_destination: crate::lowering::if_label(st),
                    conditional: crate::operand::compare::compare_opposite(predicate.operation),
                },
            ];
            lemma_value_emit_ok(predicate.rhs, st.scopes, funcs, None);
            lemma_value_emit_ok(predicate.lhs, st.scopes, funcs, Some(op_size));
            assert(tail_ok(cmp_part)) by {
                if staged {
                    assert(cmp_part[0] == InstructionView::Move(
                        reg_token(Register::AX, op_size),
                        lhs_tok,
                    ));
                    assert(cmp_part[1] == InstructionView::Compare(cmp_lhs, rhs_tok));
                    assert(cmp_part.len() == 3);
                } else {
                    assert(cmp_part[0] == InstructionView::Compare(cmp_lhs, rhs_tok));
                    assert(cmp_part.len() == 2);
                }
            }
            lemma_tail_ok_concat(
                value_emit(predicate.rhs, st.scopes, funcs, None),
                value_emit(predicate.lhs, st.scopes, funcs, Some(op_size)),
            );
            lemma_tail_ok_concat(
                value_emit(predicate.rhs, st.scopes, funcs, None) + value_emit(
                    predicate.lhs,
                    st.scopes,
                    funcs,
                    Some(op_size),
                ),
                cmp_part,
            );
            assert(st4.insts.len() >= st.insts.len());
            assert(st4.insts.take(st.insts.len() as int) =~= st.insts);
            assert(st4.insts.skip(st.insts.len() as int) =~= (value_emit(
                predicate.rhs,
                st.scopes,
                funcs,
                None,
            ) + value_emit(predicate.lhs, st.scopes, funcs, Some(op_size))) + cmp_part);
            assert(tail_ok(st4.insts.skip(st.insts.len() as int)));
            assert(st4.scopes == st.scopes);
            assert(decreases_to!(op => main_body));
            lemma_ops_step_flat(main_body, funcs, st4);
            let st5 = ops_step(main_body, funcs, st4);
            assert(out.insts.take(st.insts.len() as int) =~= st.insts);
            assert(out.insts.skip(st.insts.len() as int) =~= st4.insts.skip(
                st.insts.len() as int,
            ) + st5.insts.skip(st4.insts.len() as int) + seq![
                InstructionView::Label(crate::lowering::if_label(st)),
            ]);
            lemma_tail_ok_concat(
                st4.insts.skip(st.insts.len() as int),
                st5.insts.skip(st4.insts.len() as int),
            );
            lemma_tail_ok_concat(
                st4.insts.skip(st.insts.len() as int) + st5.insts.skip(st4.insts.len() as int),
                seq![InstructionView::Label(crate::lowering::if_label(st))],
            );
        },
        OperandView::DropVariable(name) => {
            assert(out.insts.take(st.insts.len() as int) =~= st.insts);
            assert(out.insts.skip(st.insts.len() as int) =~= Seq::<InstructionView>::empty());
        },
        OperandView::Return(_) => {
            assert(false);
        },
        OperandView::Add(_, _, _) | OperandView::Subtract(_, _, _) => {
            assert(out.insts.take(st.insts.len() as int) =~= st.insts);
            assert(out.insts.skip(st.insts.len() as int) =~= Seq::<InstructionView>::empty());
        },
        OperandView::FunctionDecl(_, _, _, _) => {
            assert(false);
        },
    }
}

/// A flat statement list only appends, appends no `ret` and no
/// memory-to-memory `mov`, keeps the scope count, and grows the innermost
/// frame by exactly what it declares.
pub proof fn lemma_ops_step_flat(s: Seq<OperandView>, funcs: Seq<FnBinding>, st: EmitState)
    requires
        ops_wf(s, funcs, st),
        flat_ops(s),
    ensures
        ({
            let out = ops_step(s, funcs, st);
            &&& out.insts.len() >= st.insts.len()
            &&& out.insts.take(st.insts.len() as int) == st.insts
            &&& tail_ok(out.insts.skip(st.insts.len() as int))
            &&& out.scopes.len() == st.scopes.len()
            &&& (st.scopes.len() > 0 ==> out.scopes.last().vars.stack == st.scopes.last().vars.stack
                + ops_declared(s))
        }),
    decreases s, 8int, 0int,
{
    if s.len() == 0 {
        let out = ops_step(s, funcs, st);
        assert(out.insts.take(st.insts.len() as int) =~= st.insts);
        assert(out.insts.skip(st.insts.len() as int) =~= Seq::<InstructionView>::empty());
    } else {
        broadcast use vstd::seq::axiom_seq_index_decreases;

        assert(decreases_to!(s => s[0]));
        vstd::seq::axiom_seq_len_decreases::<OperandView>(s, s.drop_first());
        lemma_op_step_flat(s.first(), funcs, st);
        let st1 = op_step(s.first(), funcs, st);
        lemma_ops_step_flat(s.drop_first(), funcs, st1);
        let out = ops_step(s, funcs, st);
        assert(out.insts.take(st.insts.len() as int) =~= st.insts);
        assert(out.insts.skip(st.insts.len() as int) =~= st1.insts.skip(st.insts.len() as int)
            + out.insts.skip(st1.insts.len() as int));
        lemma_tail_ok_concat(
            st1.insts.skip(st.insts.len() as int),
            out.insts.skip(st1.insts.len() as int),
        );
    }
}

/// The three instructions every epilogue ends with.
pub open spec fn epilogue_insts() -> Seq<InstructionView> {
    seq![
        InstructionView::Move(
            reg_token(Register::SP, Size::QuadWord),
            reg_token(Register::BP, Size::QuadWord),
        ),
        InstructionView::Pop(reg_token(Register::BP, Size::QuadWord)),
        InstructionView::Return,
    ]
}

/// Updating inside the left part of a concatenation leaves the right part
/// alone.
pub proof fn lemma_update_concat(
    a: Seq<InstructionView>,
    b: Seq<InstructionView>,
    i: int,
    x: InstructionView,
)
    requires
        0 <= i < a.len(),
    ensures
        (a + b).update(i, x) == a.update(i, x) + b,
{
    assert((a + b).update(i, x) =~= a.update(i, x) + b);
}

/// Removing from the left part of a concatenation leaves the right part
/// alone.
pub proof fn lemma_remove_concat(a: Seq<InstructionView>, b: Seq<InstructionView>, i: int)
    requires
        0 <= i < a.len(),
    ensures
        (a + b).remove(i) == a.remove(i) + b,
{
    assert((a + b).remove(i) =~= a.remove(i) + b);
}

/// A body with a `Return`, holding no nested function, lowers to: the
/// buffer with its placeholder patched into `sub rsp, n` (or removed when
/// `n` is zero), a middle with no `ret` and no memory-to-memory `mov`,
/// and the epilogue.  `n` is the frame taken before the body plus what
/// the body declares on the path to its first `Return`.
pub proof fn lemma_body_step_frame(
    s: Seq<OperandView>,
    ret: OperandType,
    ph: int,
    funcs: Seq<FnBinding>,
    st: EmitState,
)
    requires
        body_wf(s, ret, ph, funcs, st),
        flat_ops(s),
        has_return(s),
        0 <= ph < st.insts.len(),
        st.scopes.len() > 0,
    ensures
        ({
            let out = body_step(s, ret, ph, funcs, st);
            let n = st.scopes.last().vars.stack + declared_on_path(s);
            exists|mid: Seq<InstructionView>|
                #![all_triggers]
                {
                    &&& tail_ok(mid)
                    &&& out.insts == (if n == 0 {
                        st.insts.remove(ph)
                    } else {
                        st.insts.update(
                            ph,
                            InstructionView::Sub(
                                reg_token(Register::SP, Size::QuadWord),
                                ValueCodegenView::Number(dec_str(n)),
                            ),
                        )
                    }) + mid + epilogue_insts()
                }
        }),
    decreases s, 9int, 0int,
{
    broadcast use vstd::seq::axiom_seq_index_decreases;

    let out = body_step(s, ret, ph, funcs, st);
    let n = st.scopes.last().vars.stack + declared_on_path(s);
    assert(s.len() > 0);
    assert(decreases_to!(s => s[0]));
    vstd::seq::axiom_seq_len_decreases::<OperandView>(s, s.drop_first());
    match s.first() {
        OperandView::Return(val) => {
            let rs = crate::operand::type_size(ret);
            let tok = crate::lowering::value_token(val, st.scopes, funcs, Some(rs));
            let vp = if val is Null {
                Seq::<InstructionView>::empty()
            } else if crate::value::token_text(tok) == crate::registers::reg_size(
                Register::AX,
                rs,
            ) {
                value_emit(val, st.scopes, funcs, Some(rs))
            } else {
                value_emit(val, st.scopes, funcs, Some(rs)) + seq![
                    InstructionView::Move(reg_token(Register::AX, rs), tok),
                ]
            };
            assert(tail_ok(vp)) by {
                lemma_value_emit_ok(val, st.scopes, funcs, Some(rs));
                if !(val is Null) && crate::value::token_text(tok)
                    != crate::registers::reg_size(Register::AX, rs) {
                    lemma_tail_ok_concat(
                        value_emit(val, st.scopes, funcs, Some(rs)),
                        seq![InstructionView::Move(reg_token(Register::AX, rs), tok)],
                    );
                }
            }
            let st1_insts = st.insts + vp;
            assert(ret_step(val, ret, ph, funcs, st).insts == (if n == 0 {
                st1_insts.remove(ph)
            } else {
                st1_insts.update(
                    ph,
                    InstructionView::Sub(
                        reg_token(Register::SP, Size::QuadWord),
                        ValueCodegenView::Number(dec_str(n)),
                    ),
                )
            }) + epilogue_insts()) by {
                if val is Null {
                    assert(st1_insts =~= st.insts);
                }
                assert(ret_step(val, ret, ph, funcs, st).insts =~= (if n == 0 {
                    st1_insts.remove(ph)
                } else {
                    st1_insts.update(
                        ph,
                        InstructionView::Sub(
                            reg_token(Register::SP, Size::QuadWord),
                            ValueCodegenView::Number(dec_str(n)),
                        ),
                    )
                }) + epilogue_insts());
            }
            if n == 0 {
                lemma_remove_concat(st.insts, vp, ph);
                assert(out.insts == st.insts.remove(ph) + vp + epilogue_insts()) by {
                    assert(st.insts.remove(ph) + vp + epilogue_insts() =~= st1_insts.remove(ph)
                        + epilogue_insts());
                }
            } else {
                lemma_update_concat(
                    st.insts,
                    vp,
                    ph,
                    InstructionView::Sub(
                        reg_token(Register::SP, Size::QuadWord),
                        ValueCodegenView::Number(dec_str(n)),
                    ),
                );
                assert(out.insts == st.insts.update(
                    ph,
                    InstructionView::Sub(
                        reg_token(Register::SP, Size::QuadWord),
                        ValueCodegenView::Number(dec_str(n)),
                    ),
                ) + vp + epilogue_insts()) by {
                    assert(st.insts.update(
                        ph,
                        InstructionView::Sub(
                            reg_token(Register::SP, Size::QuadWord),
                            ValueCodegenView::Number(dec_str(n)),
                        ),
                    ) + vp + epilogue_insts() =~= st1_insts.update(
                        ph,
                        InstructionView::Sub(
                            reg_token(Register::SP, Size::QuadWord),
                            ValueCodegenView::Number(dec_str(n)),
                        ),
                    ) + epilogue_insts());
                }
            }
        },
        _ => {
            lemma_op_step_flat(s.first(), funcs, st);
            let st1 = op_step(s.first(), funcs, st);
            let t = st1.insts.skip(st.insts.len() as int);
            assert(st1.insts == st.insts + t) by {
                assert(st.insts + t =~= st1.insts);
            }
            assert(has_return(s.drop_first())) by {
                let w = choose|k: int| 0 <= k < s.len() && (#[trigger] s[k]) is Return;
                assert(w != 0);
                assert(s.drop_first()[w - 1] == s[w]);
            }
            lemma_body_step_frame(s.drop_first(), ret, ph, funcs, st1);
            let n1 = st1.scopes.last().vars.stack + declared_on_path(s.drop_first());
            assert(n1 == n);
            let mid1 = choose|mid: Seq<InstructionView>|
                #![all_triggers]
                {
                    &&& tail_ok(mid)
                    &&& body_step(s.drop_first(), ret, ph, funcs, st1).insts == (if n1 == 0 {
                        st1.insts.remove(ph)
                    } else {
                        st1.insts.update(
                            ph,
                            InstructionView::Sub(
                                reg_token(Register::SP, Size::QuadWord),
                                ValueCodegenView::Number(dec_str(n1)),
                            ),
                        )
                    }) + mid + epilogue_insts()
                };
            lemma_tail_ok_concat(t, mid1);
            if n == 0 {
                lemma_remove_concat(st.insts, t, ph);
                assert(out.insts == st.insts.remove(ph) + (t + mid1) + epilogue_insts()) by {
                    assert(st.insts.remove(ph) + (t + mid1) + epilogue_insts() =~= (st.insts
                        + t).remove(ph) + mid1 + epilogue_insts());
                }
            } else {
                lemma_update_concat(
                    st.insts,
                    t,
                    ph,
                    InstructionView::Sub(
                        reg_token(Register::SP, Size::QuadWord),
                        ValueCodegenView::Number(dec_str(n)),
                    ),
                );
                assert(out.insts == st.insts.update(
                    ph,
                    InstructionView::Sub(
                        reg_token(Register::SP, Size::QuadWord),
                        ValueCodegenView::Number(dec_str(n)),
                    ),
                ) + (t + mid1) + epilogue_insts()) by {
                    assert(st.insts.update(
                        ph,
                        InstructionView::Sub(
                            reg_token(Register::SP, Size::QuadWord),
                            ValueCodegenView::Number(dec_str(n)),
                        ),
                    ) + (t + mid1) + epilogue_insts() =~= (st.insts + t).update(
                        ph,
                        InstructionView::Sub(
                            reg_token(Register::SP, Size::QuadWord),
                            ValueCodegenView::Number(dec_str(n)),
                        ),
                    ) + mid1 + epilogue_insts());
                }
            }
        },
    }
}

/// Binding parameters never touches the frame counter.
pub proof fn lemma_bind_params_stack(
    t: crate::variables::VarTableView,
    params: Seq<(Seq<char>, OperandType)>,
    i: int,
)
    requires
        0 <= i <= params.len(),
    ensures
        crate::lowering::bind_params(t, params, i).stack == t.stack,
    decreases params.len() - i,
{
    if i < params.len() {
        lemma_bind_params_stack(
            crate::variables::table_bind_param(t, params[i].0, params[i].1, i),
            params,
            i + 1,
        );
    }
}

/// Frame balance and stack-size correctness of one lowered function.
///
/// A function whose body holds a `Return` and no nested function
/// declaration lowers to: its label; `push RBP; mov RBP, RSP`; `sub RSP,
/// n` exactly when `n`, the sum of the declared widths on the path to the
/// first `Return`, is not zero; a middle that holds no `ret` and no
/// memory-to-memory `mov`; and `mov RSP, RBP; pop RBP; ret`.  The first
/// `ret` of the function is thus the epilogue's, and the frame bytes
/// claimed match the declarations exactly.
pub proof fn lemma_function_frame(
    ret: OperandType,
    name: Seq<char>,
    body: Seq<OperandView>,
    params: Seq<(Seq<char>, OperandType)>,
    funcs: Seq<FnBinding>,
    st: EmitState,
)
    requires
        func_wf(ret, name, body, params, funcs, st),
        flat_ops(body),
    ensures
        ({
            let out = func_step(ret, name, body, params, funcs, st);
            let n = declared_on_path(body);
            exists|mid: Seq<InstructionView>|
                #![all_triggers]
                {
                    &&& tail_ok(mid)
                    &&& out.insts == st.insts + (if n == 0 {
                        seq![
                            InstructionView::Label(name),
                            InstructionView::Push(reg_token(Register::BP, Size::QuadWord)),
                            InstructionView::Move(
                                reg_token(Register::BP, Size::QuadWord),
                                reg_token(Register::SP, Size::QuadWord),
                            ),
                        ]
                    } else {
                        seq![
                            InstructionView::Label(name),
                            InstructionView::Push(reg_token(Register::BP, Size::QuadWord)),
                            InstructionView::Move(
                                reg_token(Register::BP, Size::QuadWord),
                                reg_token(Register::SP, Size::QuadWord),
                            ),
                            InstructionView::Sub(
                                reg_token(Register::SP, Size::QuadWord),
                                ValueCodegenView::Number(dec_str(n)),
                            ),
                        ]
                    }) + mid + epilogue_insts()
                }
        }),
{
    let st2 = crate::lowering::func_entry(name, params, st);
    let ph = st.insts.len() as int + 3;
    assert(st2.insts == st.insts + crate::lowering::prologue_emit(name));
    assert(st2.scopes.len() == st.scopes.len() + 1);
    lemma_bind_params_stack(
        crate::scope::empty_scope().vars,
        params,
        0,
    );
    assert(st2.scopes.last().vars.stack == 0) by {
        assert(st2.scopes.last().vars == crate::lowering::bind_params(
            crate::lowering::with_vars(
                EmitState {
                    scopes: st.scopes.push(crate::scope::empty_scope()),
                    insts: st.insts + crate::lowering::prologue_emit(name),
                    id: st.id,
                },
                crate::lowering::bind_params(crate::scope::empty_scope().vars, params, 0),
            ).scopes.last().vars,
            params,
            0,
        ) || st2.scopes.last().vars == crate::lowering::bind_params(
            crate::scope::empty_scope().vars,
            params,
            0,
        ));
    }
    lemma_body_step_frame(body, ret, ph, funcs, st2);
    let n = declared_on_path(body);
    assert(st2.scopes.last().vars.stack + declared_on_path(body) == n);
    let mid1 = choose|mid: Seq<InstructionView>|
        #![all_triggers]
        {
            &&& tail_ok(mid)
            &&& body_step(body, ret, ph, funcs, st2).insts == (if n == 0 {
                st2.insts.remove(ph)
            } else {
                st2.insts.update(
                    ph,
                    InstructionView::Sub(
                        reg_token(Register::SP, Size::QuadWord),
                        ValueCodegenView::Number(dec_str(n)),
                    ),
                )
            }) + mid + epilogue_insts()
        };
    if n == 0 {
        assert(st2.insts.remove(ph) =~= st.insts + seq![
            InstructionView::Label(name),
            InstructionView::Push(reg_token(Register::BP, Size::QuadWord)),
            InstructionView::Move(
                reg_token(Register::BP, Size::QuadWord),
                reg_token(Register::SP, Size::QuadWord),
            ),
        ]);
        assert(st.insts + seq![
            InstructionView::Label(name),
            InstructionView::Push(reg_token(Register::BP, Size::QuadWord)),
            InstructionView::Move(
                reg_token(Register::BP, Size::QuadWord),
                reg_token(Register::SP, Size::QuadWord),
            ),
        ] + mid1 + epilogue_insts() =~= st2.insts.remove(ph) + mid1 + epilogue_insts());
    } else {
        assert(st2.insts.update(
            ph,
            InstructionView::Sub(
                reg_token(Register::SP, Size::QuadWord),
                ValueCodegenView::Number(dec_str(n)),
            ),
        ) =~= st.insts + seq![
            InstructionView::Label(name),
            InstructionView::Push(reg_token(Register::BP, Size::QuadWord)),
            InstructionView::Move(
                reg_token(Register::BP, Size::QuadWord),
                reg_token(Register::SP, Size::QuadWord),
            ),
            InstructionView::Sub(
                reg_token(Register::SP, Size::QuadWord),
                ValueCodegenView::Number(dec_str(n)),
            ),
        ]);
        assert(st.insts + seq![
            InstructionView::Label(name),
            InstructionView::Push(reg_token(Register::BP, Size::QuadWord)),
            InstructionView::Move(
                reg_token(Register::BP, Size::QuadWord),
                reg_token(Register::SP, Size::QuadWord),
            ),
            InstructionView::Sub(
                reg_token(Register::SP, Size::QuadWord),
                ValueCodegenView::Number(dec_str(n)),
            ),
        ] + mid1 + epilogue_insts() =~= st2.insts.update(
            ph,
            InstructionView::Sub(
                reg_token(Register::SP, Size::QuadWord),
                ValueCodegenView::Number(dec_str(n)),
            ),
        ) + mid1 + epilogue_insts());
    }
}

/// Call spill/restore balance: around every lowered call of arity `k`,
/// the `k` instructions after the `call` restore the argument registers
/// in reverse order, and each argument register is pushed immediately
/// before it is filled.
pub proof fn lemma_call_spill_restore(
    name: Seq<char>,
    args: Seq<ValueView>,
    scopes: Seq<ScopeView>,
    funcs: Seq<FnBinding>,
)
    requires
        call_wf(name, args, scopes, funcs),
    ensures
        ({
            let out = call_emit(name, args, scopes, funcs);
            let k = args.len() as int;
            let c = out.len() - 1 - k;
            &&& out.len() >= k + 1
            &&& out[c] == InstructionView::Call(name)
            &&& forall|m: int|
                0 <= m < k ==> #[trigger] out[c + 1 + m] == InstructionView::Pop(
                    reg_token(crate::variables::param_reg(k - 1 - m), Size::QuadWord),
                )
        }),
{
    let params = crate::function_manager::fn_lookup(funcs, name)->Some_0.1;
    let k = args.len() as int;
    let front = args_emit(args, params, scopes, funcs, 0);
    lemma_pops_emit_ok(k);
    let out = call_emit(name, args, scopes, funcs);
    assert(out == front + seq![InstructionView::Call(name)] + pops_emit(k));
    assert(out[front.len() as int] == InstructionView::Call(name));
    assert forall|m: int| 0 <= m < k implies #[trigger] out[front.len() + 1 + m]
        == InstructionView::Pop(
        reg_token(crate::variables::param_reg(k - 1 - m), Size::QuadWord),
    ) by {
        assert(out[front.len() + 1 + m] == pops_emit(k)[m]);
    }
}

/// Whether the argument part of a call, taken from its `i`-th argument,
/// holds an adjacent `push <reg j>; mov <reg j>, <value j>` pair for the
/// `j`-th argument.
pub open spec fn spill_pair_at(
    args: Seq<ValueView>,
    params: Seq<OperandType>,
    scopes: Seq<ScopeView>,
    funcs: Seq<FnBinding>,
    i: int,
    j: int,
) -> bool {
    exists|p: int|
        #![trigger args_emit(args, params, scopes, funcs, i)[p]]
        {
            &&& 0 <= p
            &&& p + 1 < args_emit(args, params, scopes, funcs, i).len()
            &&& args_emit(args, params, scopes, funcs, i)[p] == InstructionView::Push(
                reg_token(crate::variables::param_reg(j), Size::QuadWord),
            )
            &&& args_emit(args, params, scopes, funcs, i)[p + 1] == InstructionView::Move(
                reg_token(crate::variables::param_reg(j), crate::operand::type_size(params[j])),
                crate::lowering::value_token(
                    args[j],
                    scopes,
                    funcs,
                    Some(crate::operand::type_size(params[j])),
                ),
            )
        }
}

/// The spill of every argument register stands immediately before its
/// fill: within the argument part of a call, each argument `i` occupies a
/// block ending in `push <reg i>; mov <reg i>, <value>`.
pub proof fn lemma_args_spill_pairs(
    args: Seq<ValueView>,
    params: Seq<OperandType>,
    scopes: Seq<ScopeView>,
    funcs: Seq<FnBinding>,
    i: int,
)
    requires
        0 <= i <= args.len(),
    ensures
        forall|j: int|
            i <= j < args.len() ==> #[trigger] spill_pair_at(args, params, scopes, funcs, i, j),
    decreases args.len() - i,
{
    if i < args.len() {
        lemma_args_spill_pairs(args, params, scopes, funcs, i + 1);
        let width = crate::operand::type_size(params[i]);
        let ve = value_emit(args[i], scopes, funcs, Some(width));
        let here = args_emit(args, params, scopes, funcs, i);
        let rest = args_emit(args, params, scopes, funcs, i + 1);
        assert forall|j: int| i <= j < args.len() implies #[trigger] spill_pair_at(
            args,
            params,
            scopes,
            funcs,
            i,
            j,
        ) by {
            if j == i {
                assert(here[ve.len() as int] == InstructionView::Push(
                    reg_token(crate::variables::param_reg(i), Size::QuadWord),
                ));
                assert(here[ve.len() as int + 1] == InstructionView::Move(
                    reg_token(crate::variables::param_reg(i), width),
                    crate::lowering::value_token(args[i], scopes, funcs, Some(width)),
                ));
                assert(spill_pair_at(args, params, scopes, funcs, i, j));
            } else {
                assert(spill_pair_at(args, params, scopes, funcs, i + 1, j));
                let p0 = choose|p: int|
                    #![trigger rest[p]]
                    {
                        &&& 0 <= p
                        &&& p + 1 < rest.len()
                        &&& rest[p] == InstructionView::Push(
                            reg_token(crate::variables::param_reg(j), Size::QuadWord),
                        )
                        &&& rest[p + 1] == InstructionView::Move(
                            reg_token(
                                crate::variables::param_reg(j),
                                crate::operand::type_size(params[j]),
                            ),
                            crate::lowering::value_token(
                                args[j],
                                scopes,
                                funcs,
                                Some(crate::operand::type_size(params[j])),
                            ),
                        )
                    };
                let shift = ve.len() as int + 2;
                assert(here[p0 + shift] == rest[p0]);
                assert(here[p0 + shift + 1] == rest[p0 + 1]);
            }
        }
    }
}

/// Determinism: the program text is a function of the module alone, so
/// two compilations of the same module are byte-identical.
pub proof fn lemma_deterministic_output(ops: Seq<OperandView>, r1: Seq<char>, r2: Seq<char>)
    requires
        r1 == crate::ir::module_output(ops),
        r2 == crate::ir::module_output(ops),
    ensures
        r1 == r2,
{
}

/// Membership in a concatenation is membership in either part.
pub proof fn lemma_contains_concat<A>(a: Seq<A>, b: Seq<A>, x: A)
    ensures
        (a + b).contains(x) == (a.contains(x) || b.contains(x)),
{
    if (a + b).contains(x) {
        let k = choose|k: int| 0 <= k < (a + b).len() && (a + b)[k] == x;
        if k < a.len() {
            assert(a[k] == x);
        } else {
            assert(b[k - a.len()] == x);
        }
    }
    if a.contains(x) {
        let k = choose|k: int| 0 <= k < a.len() && a[k] == x;
        assert((a + b)[k] == x);
    }
    if b.contains(x) {
        let k = choose|k: int| 0 <= k < b.len() && b[k] == x;
        assert((a + b)[a.len() + k] == x);
    }
}

/// `staged_moves` splits over concatenation.
pub proof fn lemma_staged_concat(a: Seq<InstructionView>, b: Seq<InstructionView>)
    requires
        staged_moves(a),
        staged_moves(b),
    ensures
        staged_moves(a + b),
{
    assert forall|k: int| 0 <= k < (a + b).len() implies ((#[trigger] (a + b)[k])
        matches InstructionView::Move(d, s) ==> !(d is StackOffset && s is StackOffset)) by {
        if k < a.len() {
            assert((a + b)[k] == a[k]);
        } else {
            assert((a + b)[k] == b[k - a.len()]);
        }
    }
}

/// A top-level statement: either flat, or a function declaration whose
/// body is flat.
pub open spec fn shallow_op(op: OperandView) -> bool {
    match op {
        OperandView::FunctionDecl(_, _, body, _) => flat_ops(body),
        _ => flat_op(op),
    }
}

/// A module whose nesting stops at one level of function declarations.
pub open spec fn shallow_ops(s: Seq<OperandView>) -> bool
    decreases s.len(),
{
    s.len() == 0 || (shallow_op(s.first()) && shallow_ops(s.drop_first()))
}

/// Memory-to-memory staging, for a statement list: lowering a shallow,
/// well-formed list onto a buffer with no memory-to-memory `mov` leaves
/// a buffer with none.
pub proof fn lemma_ops_step_moves(s: Seq<OperandView>, funcs: Seq<FnBinding>, st: EmitState)
    requires
        ops_wf(s, funcs, st),
        shallow_ops(s),
        staged_moves(st.insts),
    ensures
        staged_moves(ops_step(s, funcs, st).insts),
    decreases s.len(),
{
    if s.len() > 0 {
        let st1 = op_step(s.first(), funcs, st);
        if let OperandView::FunctionDecl(ty, name, body, params) = s.first() {
            assert(op_wf(s.first(), funcs, st));
            assert(func_wf(ty, name, body, params, funcs, st));
            lemma_function_frame(ty, name, body, params, funcs, st);
            let n = declared_on_path(body);
            let mid = choose|mid: Seq<InstructionView>|
                #![all_triggers]
                {
                    &&& tail_ok(mid)
                    &&& func_step(ty, name, body, params, funcs, st).insts == st.insts + (if n
                        == 0 {
                        seq![
                            InstructionView::Label(name),
                            InstructionView::Push(reg_token(Register::BP, Size::QuadWord)),
                            InstructionView::Move(
                                reg_token(Register::BP, Size::QuadWord),
                                reg_token(Register::SP, Size::QuadWord),
                            ),
                        ]
                    } else {
                        seq![
                            InstructionView::Label(name),
                            InstructionView::Push(reg_token(Register::BP, Size::QuadWord)),
                            InstructionView::Move(
                                reg_token(Register::BP, Size::QuadWord),
                                reg_token(Register::SP, Size::QuadWord),
                            ),
                            InstructionView::Sub(
                                reg_token(Register::SP, Size::QuadWord),
                                ValueCodegenView::Number(dec_str(n)),
                            ),
                        ]
                    }) + mid + epilogue_insts()
                };
            let pro = if n == 0 {
                seq![
                    InstructionView::Label(name),
                    InstructionView::Push(reg_token(Register::BP, Size::QuadWord)),
                    InstructionView::Move(
                        reg_token(Register::BP, Size::QuadWord),
                        reg_token(Register::SP, Size::QuadWord),
                    ),
                ]
            } else {
                seq![
                    InstructionView::Label(name),
                    InstructionView::Push(reg_token(Register::BP, Size::QuadWord)),
                    InstructionView::Move(
                        reg_token(Register::BP, Size::QuadWord),
                        reg_token(Register::SP, Size::QuadWord),
                    ),
                    InstructionView::Sub(
                        reg_token(Register::SP, Size::QuadWord),
                        ValueCodegenView::Number(dec_str(n)),
                    ),
                ]
            };
            assert(staged_moves(pro));
            assert(staged_moves(epilogue_insts()));
            lemma_staged_concat(st.insts, pro);
            lemma_staged_concat(st.insts + pro, mid);
            lemma_staged_concat(st.insts + pro + mid, epilogue_insts());
            assert(staged_moves(st1.insts));
        } else {
            lemma_op_step_flat(s.first(), funcs, st);
            let t = st1.insts.skip(st.insts.len() as int);
            lemma_staged_concat(st.insts, t);
            assert(st.insts + t =~= st1.insts);
            assert(staged_moves(st1.insts));
        }
        lemma_ops_step_moves(s.drop_first(), funcs, st1);
    }
}

/// Memory-to-memory staging over a whole module: no `mov` of the lowered
/// text has frame slots on both sides.
pub proof fn lemma_module_staged_moves(ops: Seq<OperandView>)
    requires
        crate::ir::module_wf(ops),
        shallow_ops(ops),
    ensures
        staged_moves(crate::ir::module_insts(ops)),
{
    let st0 = crate::lowering::initial_state();
    assert(staged_moves(st0.insts));
    lemma_ops_step_moves(ops, crate::lowering::register_functions(ops, Seq::empty()), st0);
}

/// Removing later repetitions keeps exactly the names that were there.
pub proof fn lemma_dedup_contains(s: Seq<Seq<char>>, x: Seq<char>)
    ensures
        dedup_names(s).contains(x) == s.contains(x),
    decreases s.len(),
{
    if s.len() > 0 {
        lemma_dedup_contains(s.drop_last(), x);
        let d = dedup_names(s.drop_last());
        if s.contains(x) {
            let k = choose|k: int| 0 <= k < s.len() && s[k] == x;
            if k < s.len() - 1 {
                assert(s.drop_last()[k] == x);
                assert(d.contains(x));
                if d.contains(s.last()) {
                } else {
                    let m = choose|m: int| 0 <= m < d.len() && d[m] == x;
                    assert(d.push(s.last())[m] == x);
                }
            } else {
                assert(s.last() == x);
                if d.contains(s.last()) {
                } else {
                    assert(d.push(s.last())[d.len() as int] == x);
                }
            }
        }
        if dedup_names(s).contains(x) {
            let m = choose|m: int| 0 <= m < dedup_names(s).len() && dedup_names(s)[m] == x;
            if d.contains(s.last()) {
                assert(d[m] == x);
            } else {
                if m < d.len() {
                    assert(d[m] == x);
                } else {
                    assert(x == s.last());
                }
            }
            if d.contains(x) {
                assert(s.drop_last().contains(x));
                let w = choose|w: int| 0 <= w < s.drop_last().len() && s.drop_last()[w] == x;
                assert(s[w] == x);
            } else {
                assert(x == s.last());
                assert(s[s.len() - 1] == x);
            }
        }
    }
}

/// Where the last use of a name lies: at a statement that touches it,
/// with nothing touching it later; or nowhere at all.
pub proof fn lemma_last_use_mentions(ops: Seq<OperandView>, n: Seq<char>)
    ensures
        last_use(ops, n) == -1 || (0 <= last_use(ops, n) < ops.len() && op_names(
            ops[last_use(ops, n)],
        ).contains(n)),
        forall|m: int| last_use(ops, n) < m < ops.len() ==> !(#[trigger] op_names(
            ops[m],
        )).contains(n),
    decreases ops.len(),
{
    if ops.len() > 0 {
        lemma_last_use_mentions(ops.drop_last(), n);
        if !op_names(ops.last()).contains(n) {
            assert(forall|m: int|
                0 <= m < ops.len() - 1 ==> ops.drop_last()[m] == #[trigger] ops[m]);
        } else {
            assert(ops[ops.len() - 1] == ops.last());
        }
    }
}

/// A name one statement touches is among the names the list touches.
pub proof fn lemma_ops_names_member(ops: Seq<OperandView>, m: int, n: Seq<char>)
    requires
        0 <= m < ops.len(),
        op_names(ops[m]).contains(n),
    ensures
        ops_names(ops).contains(n),
    decreases ops.len(),
{
    if m == ops.len() - 1 {
        lemma_contains_concat(ops_names(ops.drop_last()), op_names(ops.last()), n);
    } else {
        assert(ops.drop_last()[m] == ops[m]);
        lemma_ops_names_member(ops.drop_last(), m, n);
        lemma_contains_concat(ops_names(ops.drop_last()), op_names(ops.last()), n);
    }
}

/// The drops placed after a statement include each listed name whose last
/// use it is, unless the statement is that name's deleted declaration.
pub proof fn lemma_drops_at_member(
    names: Seq<Seq<char>>,
    ops: Seq<OperandView>,
    i: int,
    n: Seq<char>,
)
    requires
        names.contains(n),
        last_use(ops, n) == i,
        !(dead_declare(ops, i) && n == ops[i]->DeclareVariable_1),
    ensures
        drops_at(names, ops, i).contains(OperandView::DropVariable(n)),
    decreases names.len(),
{
    if names.first() == n {
        assert(drops_at(names, ops, i)[0] == OperandView::DropVariable(n));
    } else {
        let k = choose|k: int| 0 <= k < names.len() && names[k] == n;
        assert(names.drop_first()[k - 1] == n);
        lemma_drops_at_member(names.drop_first(), ops, i, n);
        lemma_contains_concat(
            if last_use(ops, names.first()) == i && !(dead_declare(ops, i) && names.first()
                == ops[i]->DeclareVariable_1) {
                seq![OperandView::DropVariable(names.first())]
            } else {
                Seq::<OperandView>::empty()
            },
            drops_at(names.drop_first(), ops, i),
            OperandView::DropVariable(n),
        );
    }
}

/// Everything dropped after statement `i` appears in the rewritten list
/// started at or before `i`.
pub proof fn lemma_rewrite_holds_drops(
    ops: Seq<OperandView>,
    names: Seq<Seq<char>>,
    j: int,
    i: int,
    x: OperandView,
)
    requires
        0 <= j <= i < ops.len(),
        drops_at(names, ops, i).contains(x),
    ensures
        rewrite_from(ops, names, j).contains(x),
    decreases i - j,
{
    let kept = if dead_declare(ops, j) {
        Seq::<OperandView>::empty()
    } else {
        seq![rewrite_op(ops[j])]
    };
    if j == i {
        lemma_contains_concat(kept, drops_at(names, ops, j), x);
        lemma_contains_concat(
            kept + drops_at(names, ops, j),
            rewrite_from(ops, names, j + 1),
            x,
        );
    } else {
        lemma_rewrite_holds_drops(ops, names, j + 1, i, x);
        lemma_contains_concat(kept, drops_at(names, ops, j), x);
        lemma_contains_concat(
            kept + drops_at(names, ops, j),
            rewrite_from(ops, names, j + 1),
            x,
        );
    }
}

/// Liveness, drop placement: after the pass, every name that some
/// statement touches carries a `DropVariable` -- unless its last touch is
/// a declaration that the pass deleted outright.
pub proof fn lemma_drop_after_last_use(ops: Seq<OperandView>, n: Seq<char>)
    requires
        last_use(ops, n) >= 0,
        !(dead_declare(ops, last_use(ops, n)) && n == ops[last_use(ops, n)]->DeclareVariable_1),
    ensures
        liveness_rewrite(ops).contains(OperandView::DropVariable(n)),
{
    let i = last_use(ops, n);
    lemma_last_use_mentions(ops, n);
    lemma_ops_names_member(ops, i, n);
    lemma_dedup_contains(ops_names(ops), n);
    lemma_drops_at_member(dedup_names(ops_names(ops)), ops, i, n);
    lemma_rewrite_holds_drops(
        ops,
        dedup_names(ops_names(ops)),
        0,
        i,
        OperandView::DropVariable(n),
    );
}

/// The pass keeps a statement's names: a nested function's body may be
/// rewritten, but the names a statement touches at its own level stay.
pub proof fn lemma_rewrite_op_names(op: OperandView)
    ensures
        op_names(rewrite_op(op)) == op_names(op),
{
}

/// Every statement of the rewritten list is either a drop the pass placed
/// or the rewrite of a kept original.
pub proof fn lemma_rewrite_members(
    ops: Seq<OperandView>,
    names: Seq<Seq<char>>,
    j: int,
    x: OperandView,
)
    requires
        0 <= j <= ops.len(),
        rewrite_from(ops, names, j).contains(x),
    ensures
        (x is DropVariable) || exists|m: int|
            j <= m < ops.len() && !dead_declare(ops, m) && x == rewrite_op(#[trigger] ops[m]),
    decreases ops.len() - j,
{
    if j < ops.len() {
        let kept = if dead_declare(ops, j) {
            Seq::<OperandView>::empty()
        } else {
            seq![rewrite_op(ops[j])]
        };
        lemma_contains_concat(kept + drops_at(names, ops, j), rewrite_from(ops, names, j + 1), x);
        lemma_contains_concat(kept, drops_at(names, ops, j), x);
        if kept.contains(x) {
            assert(x == rewrite_op(ops[j]));
        } else if drops_at(names, ops, j).contains(x) {
            lemma_drops_at_kind(names, ops, j, x);
        } else {
            lemma_rewrite_members(ops, names, j + 1, x);
        }
    }
}

/// Everything among the placed drops is a `DropVariable`.
pub proof fn lemma_drops_at_kind(
    names: Seq<Seq<char>>,
    ops: Seq<OperandView>,
    i: int,
    x: OperandView,
)
    requires
        drops_at(names, ops, i).contains(x),
    ensures
        x is DropVariable,
    decreases names.len(),
{
    if names.len() > 0 {
        let here = if last_use(ops, names.first()) == i && !(dead_declare(ops, i)
            && names.first() == ops[i]->DeclareVariable_1) {
            seq![OperandView::DropVariable(names.first())]
        } else {
            Seq::<OperandView>::empty()
        };
        lemma_contains_concat(here, drops_at(names.drop_first(), ops, i), x);
        if here.contains(x) {
        } else {
            lemma_drops_at_kind(names.drop_first(), ops, i, x);
        }
    }
}

/// No drop of a given name is placed when its last touch is a deleted
/// declaration.
pub proof fn lemma_drops_at_excludes(
    names: Seq<Seq<char>>,
    ops: Seq<OperandView>,
    i: int,
    n: Seq<char>,
)
    requires
        0 <= i,
        last_use(ops, n) >= 0 ==> dead_declare(ops, last_use(ops, n)) && n == ops[last_use(
            ops,
            n,
        )]->DeclareVariable_1,
    ensures
        !drops_at(names, ops, i).contains(OperandView::DropVariable(n)),
    decreases names.len(),
{
    if names.len() > 0 {
        let here = if last_use(ops, names.first()) == i && !(dead_declare(ops, i)
            && names.first() == ops[i]->DeclareVariable_1) {
            seq![OperandView::DropVariable(names.first())]
        } else {
            Seq::<OperandView>::empty()
        };
        lemma_drops_at_excludes(names.drop_first(), ops, i, n);
        lemma_contains_concat(
            here,
            drops_at(names.drop_first(), ops, i),
            OperandView::DropVariable(n),
        );
        if here.contains(OperandView::DropVariable(n)) {
            assert(names.first() == n);
            assert(false);
        }
    }
}

/// Liveness, deletion: a declaration of a name that nothing else touches
/// is gone after the pass, and the name is absent from the rewritten
/// list: no statement touches it, no drop names it.
pub proof fn lemma_dead_name_gone(ops: Seq<OperandView>, i: int)
    requires
        dead_declare(ops, i),
        forall|m: int|
            0 <= m < ops.len() && m != i ==> !(#[trigger] op_names(ops[m])).contains(
                ops[i]->DeclareVariable_1,
            ),
        forall|m: int|
            0 <= m < ops.len() ==> #[trigger] ops[m] != OperandView::DropVariable(
                ops[i]->DeclareVariable_1,
            ),
    ensures
        forall|x: OperandView|
            #[trigger] liveness_rewrite(ops).contains(x) ==> !op_names(x).contains(
                ops[i]->DeclareVariable_1,
            ) && x != OperandView::DropVariable(ops[i]->DeclareVariable_1),
{
    let n = ops[i]->DeclareVariable_1;
    let names = dedup_names(ops_names(ops));
    assert forall|x: OperandView| #[trigger] liveness_rewrite(ops).contains(x) implies !op_names(
        x,
    ).contains(n) && x != OperandView::DropVariable(n) by {
        lemma_rewrite_members(ops, names, 0, x);
        if x is DropVariable {
            if x == OperandView::DropVariable(n) {
                lemma_rewrite_no_drop_of(ops, names, 0, n);
            }
            assert(!op_names(x).contains(n));
        } else {
            let m = choose|m: int|
                0 <= m < ops.len() && !dead_declare(ops, m) && x == rewrite_op(#[trigger] ops[m]);
            lemma_rewrite_op_names(ops[m]);
            assert(m != i);
            assert(!op_names(ops[m]).contains(n));
        }
    }
}

/// The rewritten list places no drop of a name whose last touch is a
/// deleted declaration.
pub proof fn lemma_rewrite_no_drop_of(
    ops: Seq<OperandView>,
    names: Seq<Seq<char>>,
    j: int,
    n: Seq<char>,
)
    requires
        0 <= j <= ops.len(),
        last_use(ops, n) >= 0 ==> dead_declare(ops, last_use(ops, n)) && n == ops[last_use(
            ops,
            n,
        )]->DeclareVariable_1,
        forall|m: int|
            0 <= m < ops.len() ==> #[trigger] ops[m] != OperandView::DropVariable(n),
    ensures
        !rewrite_from(ops, names, j).contains(OperandView::DropVariable(n)),
    decreases ops.len() - j,
{
    if j < ops.len() {
        let kept = if dead_declare(ops, j) {
            Seq::<OperandView>::empty()
        } else {
            seq![rewrite_op(ops[j])]
        };
        lemma_rewrite_no_drop_of(ops, names, j + 1, n);
        lemma_drops_at_excludes(names, ops, j, n);
        lemma_contains_concat(
            kept + drops_at(names, ops, j),
            rewrite_from(ops, names, j + 1),
            OperandView::DropVariable(n),
        );
        lemma_contains_concat(
            kept,
            drops_at(names, ops, j),
            OperandView::DropVariable(n),
        );
        if kept.contains(OperandView::DropVariable(n)) {
            assert(rewrite_op(ops[j]) == OperandView::DropVariable(n));
            if ops[j] is FunctionDecl {
                assert(rewrite_op(ops[j]) is FunctionDecl);
            } else {
                assert(rewrite_op(ops[j]) == ops[j]);
            }
            assert(false);
        }
    }
}

/// The `.rodata` line of one string define.
pub open spec fn define_entry_text(d: (Seq<char>, Seq<char>)) -> Seq<char> {
    d.0 + ":\n\tdb \""@ + crate::render::escape_newlines(d.1) + "\", 0\n"@
}

/// Every define renders contiguously inside the `.rodata` body, with its
/// `\n` escapes spliced into `10` bytes.
pub proof fn lemma_defines_entry(defines: Seq<(Seq<char>, Seq<char>)>, k: int)
    requires
        0 <= k < defines.len(),
    ensures
        exists|p: int|
            #![trigger crate::render::defines_text(defines).subrange(
                p,
                p + define_entry_text(defines[k]).len(),
            )]
            {
                &&& 0 <= p
                &&& p + define_entry_text(defines[k]).len() <= crate::render::defines_text(
                    defines,
                ).len()
                &&& crate::render::defines_text(defines).subrange(
                    p,
                    p + define_entry_text(defines[k]).len(),
                ) == define_entry_text(defines[k])
            },
    decreases defines.len(),
{
    let whole = crate::render::defines_text(defines);
    let head = define_entry_text(defines.first());
    assert(whole == head + crate::render::defines_text(defines.drop_first()));
    if k == 0 {
        assert(whole.subrange(0, head.len() as int) =~= head);
        assert(crate::render::defines_text(defines).subrange(
            0,
            0 + define_entry_text(defines[k]).len() as int,
        ) == define_entry_text(defines[k]));
    } else {
        assert(defines.drop_first()[k - 1] == defines[k]);
        lemma_defines_entry(defines.drop_first(), k - 1);
        let rest = crate::render::defines_text(defines.drop_first());
        let entry = define_entry_text(defines[k]);
        let p0 = choose|p: int|
            #![trigger rest.subrange(p, p + entry.len())]
            {
                &&& 0 <= p
                &&& p + entry.len() <= rest.len()
                &&& rest.subrange(p, p + entry.len()) == entry
            };
        assert(whole.subrange(head.len() + p0, head.len() + p0 + entry.len()) =~= rest.subrange(
            p0,
            p0 + entry.len(),
        ));
        assert(crate::render::defines_text(defines).subrange(
            head.len() + p0,
            (head.len() + p0) + define_entry_text(defines[k]).len() as int,
        ) == define_entry_text(defines[k]));
    }
}

/// The string table of a compiled program: every define of the compiler
/// stands in the output text, rendered as its label, a `db` directive
/// with the escaped bytes, and a terminating zero.
pub proof fn lemma_string_table_rendered(c: crate::compiler::CompilerView, k: int)
    requires
        0 <= k < c.defines.len(),
    ensures
        exists|p: int|
            #![trigger crate::compiler::compile_output(c).subrange(
                p,
                p + define_entry_text(c.defines[k]).len(),
            )]
            {
                &&& 0 <= p
                &&& p + define_entry_text(c.defines[k]).len() <= crate::compiler::compile_output(
                    c,
                ).len()
                &&& crate::compiler::compile_output(c).subrange(
                    p,
                    p + define_entry_text(c.defines[k]).len(),
                ) == define_entry_text(c.defines[k])
            },
{
    lemma_defines_entry(c.defines, k);
    let body = crate::render::defines_text(c.defines);
    let entry = define_entry_text(c.defines[k]);
    let p0 = choose|p: int|
        #![trigger body.subrange(p, p + entry.len())]
        {
            &&& 0 <= p
            &&& p + entry.len() <= body.len()
            &&& body.subrange(p, p + entry.len()) == entry
        };
    let out = crate::compiler::compile_output(c);
    let off = "section .rodata\n"@.len() as int;
    assert(out.subrange(off + p0, off + p0 + entry.len()) =~= body.subrange(
        p0,
        p0 + entry.len(),
    ));
    assert(crate::compiler::compile_output(c).subrange(
        off + p0,
        (off + p0) + define_entry_text(c.defines[k]).len() as int,
    ) == define_entry_text(c.defines[k]));
}

/// Whether a token's symbol reference, if it is one, is among the
/// allowed labels.
pub open spec fn token_label_ok(t: ValueCodegenView, allowed: Seq<Seq<char>>) -> bool {
    t matches ValueCodegenView::StringLiteral(l) ==> allowed.contains(l)
}

/// Whether every symbol reference of one instruction is allowed.
pub open spec fn inst_labels_ok(i: InstructionView, allowed: Seq<Seq<char>>) -> bool {
    match i {
        InstructionView::Move(d, t) => token_label_ok(d, allowed) && token_label_ok(t, allowed),
        InstructionView::IntMultiply(d, t) => token_label_ok(d, allowed) && token_label_ok(
            t,
            allowed,
        ),
        InstructionView::Multiply(d, t) => token_label_ok(d, allowed) && token_label_ok(
            t,
            allowed,
        ),
        InstructionView::Compare(d, t) => token_label_ok(d, allowed) && token_label_ok(t, allowed),
        InstructionView::Add(d, t) => token_label_ok(d, allowed) && token_label_ok(t, allowed),
        InstructionView::Sub(d, t) => token_label_ok(d, allowed) && token_label_ok(t, allowed),
        InstructionView::LoadAddress(d, t) => token_label_ok(d, allowed) && token_label_ok(
            t,
            allowed,
        ),
        InstructionView::Push(t) => token_label_ok(t, allowed),
        InstructionView::Pop(t) => token_label_ok(t, allowed),
        _ => true,
    }
}

/// Whether every symbol reference of an instruction list is allowed.
pub open spec fn insts_labels_ok(insts: Seq<InstructionView>, allowed: Seq<Seq<char>>) -> bool {
    forall|k: int| 0 <= k < insts.len() ==> inst_labels_ok(#[trigger] insts[k], allowed)
}

/// The string literals a value holds, in order of appearance.
pub open spec fn value_literals(v: ValueView) -> Seq<Seq<char>>
    decreases v, 0int via value_literals_dec
{
    match v {
        ValueView::StringLiteral(l) => seq![l],
        ValueView::Add(l, r) => value_literals(*l) + value_literals(*r),
        ValueView::Sub(l, r) => value_literals(*l) + value_literals(*r),
        ValueView::FunctionCall(_, args) => values_literals(args),
        _ => Seq::empty(),
    }
}

/// The string literals a list of values holds.
pub open spec fn values_literals(s: Seq<ValueView>) -> Seq<Seq<char>>
    decreases s, 1int via values_literals_dec
{
    if s.len() == 0 {
        Seq::empty()
    } else {
        values_literals(s.drop_first()) + value_literals(s.first())
    }
}

#[via_fn]
proof fn value_literals_dec(v: ValueView) {
    if let ValueView::FunctionCall(n, args) = v {
        assert(decreases_to!(v => args));
    }
}

#[via_fn]
proof fn values_literals_dec(s: Seq<ValueView>) {
    broadcast use vstd::seq::axiom_seq_index_decreases;

    if s.len() > 0 {
        assert(decreases_to!(s => s[0]));
        vstd::seq::axiom_seq_len_decreases::<ValueView>(s, s.drop_first());
    }
}

/// `insts_labels_ok` splits over concatenation.
pub proof fn lemma_labels_ok_concat(
    a: Seq<InstructionView>,
    b: Seq<InstructionView>,
    allowed: Seq<Seq<char>>,
)
    requires
        insts_labels_ok(a, allowed),
        insts_labels_ok(b, allowed),
    ensures
        insts_labels_ok(a + b, allowed),
{
    assert forall|k: int| 0 <= k < (a + b).len() implies inst_labels_ok(
        #[trigger] (a + b)[k],
        allowed,
    ) by {
        if k < a.len() {
            assert((a + b)[k] == a[k]);
        } else {
            assert((a + b)[k] == b[k - a.len()]);
        }
    }
}

/// Every symbol reference a value's lowering emits, in an instruction or
/// in its own token, is a literal the value holds.
pub proof fn lemma_value_labels(
    v: ValueView,
    scopes: Seq<ScopeView>,
    funcs: Seq<FnBinding>,
    sz: Option<Size>,
    allowed: Seq<Seq<char>>,
)
    requires
        forall|l: Seq<char>| value_literals(v).contains(l) ==> #[trigger] allowed.contains(l),
    ensures
        insts_labels_ok(value_emit(v, scopes, funcs, sz), allowed),
        token_label_ok(value_token(v, scopes, funcs, sz), allowed),
    decreases v, 10int, 0int,
{
    match v {
        ValueView::StringLiteral(l) => {
            assert(value_literals(v)[0] == l);
        },
        ValueView::FunctionCall(name, args) => {
            lemma_call_labels(name, args, scopes, funcs, allowed);
        },
        ValueView::Add(l, r) => {
            let w = crate::lowering::arith_size(v, scopes, funcs, sz);
            assert forall|x: Seq<char>| value_literals(*l).contains(x) implies #[trigger] allowed
                .contains(x) by {
                lemma_contains_concat(value_literals(*l), value_literals(*r), x);
            }
            assert forall|x: Seq<char>| value_literals(*r).contains(x) implies #[trigger] allowed
                .contains(x) by {
                lemma_contains_concat(value_literals(*l), value_literals(*r), x);
            }
            lemma_value_labels(*l, scopes, funcs, Some(w), allowed);
            lemma_value_labels(*r, scopes, funcs, Some(w), allowed);
            let tail = seq![
                InstructionView::Move(
                    reg_token(Register::AX, w),
                    crate::lowering::value_token(*l, scopes, funcs, Some(w)),
                ),
                InstructionView::Add(
                    reg_token(Register::AX, w),
                    crate::lowering::value_token(*r, scopes, funcs, Some(w)),
                ),
            ];
            assert(insts_labels_ok(tail, allowed));
            lemma_labels_ok_concat(
                value_emit(*l, scopes, funcs, Some(w)),
                value_emit(*r, scopes, funcs, Some(w)),
                allowed,
            );
            lemma_labels_ok_concat(
                value_emit(*l, scopes, funcs, Some(w)) + value_emit(*r, scopes, funcs, Some(w)),
                tail,
                allowed,
            );
        },
        ValueView::Sub(l, r) => {
            let w = crate::lowering::arith_size(v, scopes, funcs, sz);
            assert forall|x: Seq<char>| value_literals(*l).contains(x) implies #[trigger] allowed
                .contains(x) by {
                lemma_contains_concat(value_literals(*l), value_literals(*r), x);
            }
            assert forall|x: Seq<char>| value_literals(*r).contains(x) implies #[trigger] allowed
                .contains(x) by {
                lemma_contains_concat(value_literals(*l), value_literals(*r), x);
            }
            lemma_value_labels(*l, scopes, funcs, Some(w), allowed);
            lemma_value_labels(*r, scopes, funcs, Some(w), allowed);
            let tail = seq![
                InstructionView::Move(
                    reg_token(Register::AX, w),
                    crate::lowering::value_token(*l, scopes, funcs, Some(w)),
                ),
                InstructionView::Sub(
                    reg_token(Register::AX, w),
                    crate::lowering::value_token(*r, scopes, funcs, Some(w)),
                ),
            ];
            assert(insts_labels_ok(tail, allowed));
            lemma_labels_ok_concat(
                value_emit(*l, scopes, funcs, Some(w)),
                value_emit(*r, scopes, funcs, Some(w)),
                allowed,
            );
            lemma_labels_ok_concat(
                value_emit(*l, scopes, funcs, Some(w)) + value_emit(*r, scopes, funcs, Some(w)),
                tail,
                allowed,
            );
        },
        _ => {
            assert(insts_labels_ok(value_emit(v, scopes, funcs, sz), allowed));
        },
    }
}

/// Every symbol reference a call's lowering emits is a literal of one of
/// its arguments.
pub proof fn lemma_call_labels(
    name: Seq<char>,
    args: Seq<ValueView>,
    scopes: Seq<ScopeView>,
    funcs: Seq<FnBinding>,
    allowed: Seq<Seq<char>>,
)
    requires
        forall|l: Seq<char>| values_literals(args).contains(l) ==> #[trigger] allowed.contains(l),
    ensures
        insts_labels_ok(call_emit(name, args, scopes, funcs), allowed),
    decreases args, 11int, 0int,
{
    if crate::function_manager::fn_lookup(funcs, name) is Some {
        let params = crate::function_manager::fn_lookup(funcs, name)->Some_0.1;
        lemma_args_labels(args, params, scopes, funcs, 0, allowed);
        lemma_pops_emit_ok(args.len() as int);
        assert(insts_labels_ok(pops_emit(args.len() as int), allowed)) by {
            assert forall|k: int| 0 <= k < pops_emit(args.len() as int).len() implies
                inst_labels_ok(#[trigger] pops_emit(args.len() as int)[k], allowed) by {}
        }
        assert(insts_labels_ok(seq![InstructionView::Call(name)], allowed));
        lemma_labels_ok_concat(
            args_emit(args, params, scopes, funcs, 0),
            seq![InstructionView::Call(name)],
            allowed,
        );
        lemma_labels_ok_concat(
            args_emit(args, params, scopes, funcs, 0) + seq![InstructionView::Call(name)],
            pops_emit(args.len() as int),
            allowed,
        );
    }
}

/// Every symbol reference the argument part of a call emits is a literal
/// of one of the arguments.
pub proof fn lemma_args_labels(
    args: Seq<ValueView>,
    params: Seq<OperandType>,
    scopes: Seq<ScopeView>,
    funcs: Seq<FnBinding>,
    i: int,
    allowed: Seq<Seq<char>>,
)
    requires
        0 <= i <= args.len(),
        forall|l: Seq<char>| values_literals(args).contains(l) ==> #[trigger] allowed.contains(l),
    ensures
        insts_labels_ok(args_emit(args, params, scopes, funcs, i), allowed),
    decreases args, 10int, args.len() - i,
{
    if i < args.len() {
        let width = crate::operand::type_size(params[i]);
        assert forall|l: Seq<char>| value_literals(args[i]).contains(l) implies #[trigger] allowed
            .contains(l) by {
            lemma_values_literals_member(args, i, l);
        }
        proof_decreases_args(args, i);
        lemma_value_labels(args[i], scopes, funcs, Some(width), allowed);
        lemma_args_labels(args, params, scopes, funcs, i + 1, allowed);
        let spill = seq![
            InstructionView::Push(reg_token(crate::variables::param_reg(i), Size::QuadWord)),
            InstructionView::Move(
                reg_token(crate::variables::param_reg(i), width),
                crate::lowering::value_token(args[i], scopes, funcs, Some(width)),
            ),
        ];
        assert(insts_labels_ok(spill, allowed));
        lemma_labels_ok_concat(value_emit(args[i], scopes, funcs, Some(width)), spill, allowed);
        lemma_labels_ok_concat(
            value_emit(args[i], scopes, funcs, Some(width)) + spill,
            args_emit(args, params, scopes, funcs, i + 1),
            allowed,
        );
        assert(args_emit(args, params, scopes, funcs, i) =~= (value_emit(
            args[i],
            scopes,
            funcs,
            Some(width),
        ) + spill) + args_emit(args, params, scopes, funcs, i + 1));
    } else {
        assert(insts_labels_ok(args_emit(args, params, scopes, funcs, i), allowed));
    }
}

/// A literal of one argument is a literal of the argument list.
pub proof fn lemma_values_literals_member(args: Seq<ValueView>, i: int, l: Seq<char>)
    requires
        0 <= i < args.len(),
        value_literals(args[i]).contains(l),
    ensures
        values_literals(args).contains(l),
    decreases args.len(),
{
    if i == 0 {
        lemma_contains_concat(values_literals(args.drop_first()), value_literals(args.first()), l);
    } else {
        assert(args.drop_first()[i - 1] == args[i]);
        lemma_values_literals_member(args.drop_first(), i - 1, l);
        lemma_contains_concat(values_literals(args.drop_first()), value_literals(args.first()), l);
    }
}

/// The string literals one statement holds, nested bodies included.
pub open spec fn op_literals(op: OperandView) -> Seq<Seq<char>>
    decreases op, 0int via op_literals_dec
{
    match op {
        OperandView::DeclareVariable(_, _, v) => value_literals(v),
        OperandView::SetValue(l, r) => value_literals(l) + value_literals(r),
        OperandView::Add(_, l, r) => value_literals(l) + value_literals(r),
        OperandView::Subtract(_, l, r) => value_literals(l) + value_literals(r),
        OperandView::FunctionCall(_, args) => values_literals(args),
        OperandView::If { predicate, main_body } => value_literals(predicate.lhs)
            + value_literals(predicate.rhs) + ops_literals(main_body),
        OperandView::Return(v) => value_literals(v),
        OperandView::FunctionDecl(_, _, body, _) => ops_literals(body),
        OperandView::DropVariable(_) => Seq::empty(),
        OperandView::InlineAssembly(_) => Seq::empty(),
    }
}

/// The string literals a statement list holds.
pub open spec fn ops_literals(s: Seq<OperandView>) -> Seq<Seq<char>>
    decreases s, 1int via ops_literals_dec
{
    if s.len() == 0 {
        Seq::empty()
    } else {
        op_literals(s.first()) + ops_literals(s.drop_first())
    }
}

#[via_fn]
proof fn op_literals_dec(op: OperandView) {
    if let OperandView::If { predicate, main_body } = op {
        assert(decreases_to!(op => main_body));
    }
    if let OperandView::FunctionDecl(ty, name, body, params) = op {
        assert(decreases_to!(op => body));
    }
}

#[via_fn]
proof fn ops_literals_dec(s: Seq<OperandView>) {
    broadcast use vstd::seq::axiom_seq_index_decreases;

    if s.len() > 0 {
        assert(decreases_to!(s => s[0]));
        vstd::seq::axiom_seq_len_decreases::<OperandView>(s, s.drop_first());
    }
}

/// Every symbol reference a store emits is a literal of the stored value.
pub proof fn lemma_assign_labels(
    width: Size,
    dst: ValueCodegenView,
    value: ValueView,
    scopes: Seq<ScopeView>,
    funcs: Seq<FnBinding>,
    allowed: Seq<Seq<char>>,
)
    requires
        token_label_ok(dst, allowed),
        forall|l: Seq<char>| value_literals(value).contains(l) ==> #[trigger] allowed.contains(l),
    ensures
        insts_labels_ok(assign_emit(width, dst, value, scopes, funcs), allowed),
{
    lemma_value_labels(value, scopes, funcs, None, allowed);
    let tok = value_token(value, scopes, funcs, None);
    if dst is StackOffset && tok is StackOffset {
        let staged = seq![
            InstructionView::Move(reg_token(Register::AX, width), tok),
            InstructionView::Move(dst, reg_token(Register::AX, width)),
        ];
        assert(insts_labels_ok(staged, allowed));
        lemma_labels_ok_concat(value_emit(value, scopes, funcs, None), staged, allowed);
    } else {
        let direct = seq![InstructionView::Move(dst, tok)];
        assert(insts_labels_ok(direct, allowed));
        lemma_labels_ok_concat(value_emit(value, scopes, funcs, None), direct, allowed);
    }
}

/// Every symbol reference a statement's lowering leaves in the buffer was
/// already there or is a literal the statement holds.
pub proof fn lemma_op_step_labels(
    op: OperandView,
    funcs: Seq<FnBinding>,
    st: EmitState,
    allowed: Seq<Seq<char>>,
)
    requires
        op_wf(op, funcs, st),
        insts_labels_ok(st.insts, allowed),
        forall|l: Seq<char>| op_literals(op).contains(l) ==> #[trigger] allowed.contains(l),
    ensures
        insts_labels_ok(op_step(op, funcs, st).insts, allowed),
    decreases op, 12int, 0int,
{
    let out = op_step(op, funcs, st);
    match op {
        OperandView::DeclareVariable(ty, name, val) => {
            let width = crate::operand::type_size(ty);
            let newoff = st.scopes.last().vars.stack + size_bytes(width);
            let st1 = crate::lowering::with_vars(
                st,
                crate::variables::table_alloc(st.scopes.last().vars, name, ty),
            );
            let dst = crate::variables::location_token(
                crate::variables::VariableLocation::StackOffset(newoff as u32),
                width,
            );
            lemma_assign_labels(width, dst, val, st1.scopes, funcs, allowed);
            lemma_labels_ok_concat(
                st.insts,
                assign_emit(width, dst, val, st1.scopes, funcs),
                allowed,
            );
        },
        OperandView::SetValue(dst, val) => {
            let width = crate::lowering::value_size(dst, st.scopes, funcs);
            let target = crate::lowering::lhs_token(dst, st.scopes);
            assert(token_label_ok(target, allowed));
            assert forall|l: Seq<char>| value_literals(val).contains(l) implies #[trigger] allowed
                .contains(l) by {
                lemma_contains_concat(value_literals(dst), value_literals(val), l);
            }
            lemma_assign_labels(width, target, val, st.scopes, funcs, allowed);
            assert(insts_labels_ok(lhs_emit(dst, st.scopes), allowed));
            lemma_labels_ok_concat(
                lhs_emit(dst, st.scopes),
                assign_emit(width, target, val, st.scopes, funcs),
                allowed,
            );
            lemma_labels_ok_concat(
                st.insts,
                lhs_emit(dst, st.scopes) + assign_emit(width, target, val, st.scopes, funcs),
                allowed,
            );
            assert(out.insts =~= st.insts + (lhs_emit(dst, st.scopes) + assign_emit(
                width,
                target,
                val,
                st.scopes,
                funcs,
            )));
        },
        OperandView::InlineAssembly(text) => {
            lemma_labels_ok_concat(
                st.insts,
                seq![InstructionView::AsmLiteral(text)],
                allowed,
            );
        },
        OperandView::FunctionCall(name, args) => {
            lemma_call_labels(name, args, st.scopes, funcs, allowed);
            lemma_labels_ok_concat(st.insts, call_emit(name, args, st.scopes, funcs), allowed);
        },
        OperandView::If { predicate, main_body } => {
            let st4 = if_pre_body(predicate, funcs, st);
            let op_size = crate::lowering::value_size(predicate.lhs, st.scopes, funcs);
            assert forall|l: Seq<char>| value_literals(predicate.lhs).contains(l) implies
                #[trigger] allowed.contains(l) by {
                lemma_contains_concat(
                    value_literals(predicate.lhs),
                    value_literals(predicate.rhs),
                    l,
                );
                lemma_contains_concat(
                    value_literals(predicate.lhs) + value_literals(predicate.rhs),
                    ops_literals(main_body),
                    l,
                );
            }
            assert forall|l: Seq<char>| value_literals(predicate.rhs).contains(l) implies
                #[trigger] allowed.contains(l) by {
                lemma_contains_concat(
                    value_literals(predicate.lhs),
                    value_literals(predicate.rhs),
                    l,
                );
                lemma_contains_concat(
                    value_literals(predicate.lhs) + value_literals(predicate.rhs),
                    ops_literals(main_body),
                    l,
                );
            }
            lemma_value_labels(predicate.rhs, st.scopes, funcs, None, allowed);
            lemma_value_labels(predicate.lhs, st.scopes, funcs, Some(op_size), allowed);
            let rhs_tok = value_token(predicate.rhs, st.scopes, funcs, None);
            let lhs_tok = value_token(predicate.lhs, st.scopes, funcs, Some(op_size));
            let staged = (lhs_tok is StackOffset && rhs_tok is StackOffset) || lhs_tok is Number;
            let cmp_lhs = if staged {
                reg_token(Register::AX, op_size)
            } else {
                lhs_tok
            };
            let cmp_part = (if staged {
                seq![InstructionView::Move(reg_token(Register::AX, op_size), lhs_tok)]
            } else {
                Seq::<InstructionView>::empty()
            }) + seq![InstructionView::Compare(cmp_lhs, rhs_tok)] + seq![
                InstructionView::JumpConditional {
                    label_destination: crate::lowering::if_label(st),
                    conditional: crate::operand::compare::compare_opposite(predicate.operation),
                },
            ];
            assert(insts_labels_ok(cmp_part, allowed)) by {
                if staged {
                    assert(cmp_part[0] == InstructionView::Move(
                        reg_token(Register::AX, op_size),
                        lhs_tok,
                    ));
                    assert(cmp_part[1] == InstructionView::Compare(cmp_lhs, rhs_tok));
                    assert(cmp_part.len() == 3);
                } else {
                    assert(cmp_part[0] == InstructionView::Compare(cmp_lhs, rhs_tok));
                    assert(cmp_part.len() == 2);
                }
            }
            lemma_labels_ok_concat(
                value_emit(predicate.rhs, st.scopes, funcs, None),
                value_emit(predicate.lhs, st.scopes, funcs, Some(op_size)),
                allowed,
            );
            lemma_labels_ok_concat(
                value_emit(predicate.rhs, st.scopes, funcs, None) + value_emit(
                    predicate.lhs,
                    st.scopes,
                    funcs,
                    Some(op_size),
                ),
                cmp_part,
                allowed,
            );
            lemma_labels_ok_concat(
                st.insts,
                (value_emit(predicate.rhs, st.scopes, funcs, None) + value_emit(
                    predicate.lhs,
                    st.scopes,
                    funcs,
                    Some(op_size),
                )) + cmp_part,
                allowed,
            );
            assert(st4.insts =~= st.insts + ((value_emit(
                predicate.rhs,
                st.scopes,
                funcs,
                None,
            ) + value_emit(predicate.lhs, st.scopes, funcs, Some(op_size))) + cmp_part));
            assert(insts_labels_ok(st4.insts, allowed));
            assert(decreases_to!(op => main_body));
            assert forall|l: Seq<char>| ops_literals(main_body).contains(l) implies #[trigger]
                allowed.contains(l) by {
                lemma_contains_concat(
                    value_literals(predicate.lhs) + value_literals(predicate.rhs),
                    ops_literals(main_body),
                    l,
                );
            }
            lemma_ops_step_labels(main_body, funcs, st4, allowed);
            let st5 = ops_step(main_body, funcs, st4);
            lemma_labels_ok_concat(
                st5.insts,
                seq![InstructionView::Label(crate::lowering::if_label(st))],
                allowed,
            );
        },
        OperandView::FunctionDecl(ty, name, body, params) => {
            let st2 = crate::lowering::func_entry(name, params, st);
            assert(insts_labels_ok(crate::lowering::prologue_emit(name), allowed));
            lemma_labels_ok_concat(st.insts, crate::lowering::prologue_emit(name), allowed);
            assert(decreases_to!(op => body));
            lemma_body_step_labels(
                body,
                ty,
                st.insts.len() as int + 3,
                funcs,
                st2,
                allowed,
            );
        },
        _ => {
            assert(out.insts == st.insts);
        },
    }
}

/// Every symbol reference a statement list's lowering leaves in the
/// buffer was already there or is a literal the list holds.
pub proof fn lemma_ops_step_labels(
    s: Seq<OperandView>,
    funcs: Seq<FnBinding>,
    st: EmitState,
    allowed: Seq<Seq<char>>,
)
    requires
        ops_wf(s, funcs, st),
        insts_labels_ok(st.insts, allowed),
        forall|l: Seq<char>| ops_literals(s).contains(l) ==> #[trigger] allowed.contains(l),
    ensures
        insts_labels_ok(ops_step(s, funcs, st).insts, allowed),
    decreases s, 12int, 0int,
{
    if s.len() > 0 {
        broadcast use vstd::seq::axiom_seq_index_decreases;

        assert(decreases_to!(s => s[0]));
        vstd::seq::axiom_seq_len_decreases::<OperandView>(s, s.drop_first());
        assert forall|l: Seq<char>| op_literals(s.first()).contains(l) implies #[trigger] allowed
            .contains(l) by {
            lemma_contains_concat(op_literals(s.first()), ops_literals(s.drop_first()), l);
        }
        assert forall|l: Seq<char>| ops_literals(s.drop_first()).contains(l) implies #[trigger]
            allowed.contains(l) by {
            lemma_contains_concat(op_literals(s.first()), ops_literals(s.drop_first()), l);
        }
        lemma_op_step_labels(s.first(), funcs, st, allowed);
        lemma_ops_step_labels(s.drop_first(), funcs, op_step(s.first(), funcs, st), allowed);
    }
}

/// Every symbol reference a body's lowering leaves in the buffer was
/// already there or is a literal the body holds.
pub proof fn lemma_body_step_labels(
    s: Seq<OperandView>,
    ret: OperandType,
    ph: int,
    funcs: Seq<FnBinding>,
    st: EmitState,
    allowed: Seq<Seq<char>>,
)
    requires
        body_wf(s, ret, ph, funcs, st),
        insts_labels_ok(st.insts, allowed),
        forall|l: Seq<char>| ops_literals(s).contains(l) ==> #[trigger] allowed.contains(l),
    ensures
        insts_labels_ok(body_step(s, ret, ph, funcs, st).insts, allowed),
    decreases s, 13int, 0int,
{
    if s.len() > 0 {
        broadcast use vstd::seq::axiom_seq_index_decreases;

        assert(decreases_to!(s => s[0]));
        vstd::seq::axiom_seq_len_decreases::<OperandView>(s, s.drop_first());
        match s.first() {
            OperandView::Return(val) => {
                let rs = crate::operand::type_size(ret);
                assert forall|l: Seq<char>| value_literals(val).contains(l) implies #[trigger]
                    allowed.contains(l) by {
                    lemma_contains_concat(op_literals(s.first()), ops_literals(s.drop_first()), l);
                }
                lemma_value_labels(val, st.scopes, funcs, Some(rs), allowed);
                let tok = value_token(val, st.scopes, funcs, Some(rs));
                let st1 = if val is Null {
                    st
                } else {
                    let stv = crate::lowering::emit(
                        st,
                        value_emit(val, st.scopes, funcs, Some(rs)),
                    );
                    if crate::value::token_text(tok) == crate::registers::reg_size(
                        Register::AX,
                        rs,
                    ) {
                        stv
                    } else {
                        crate::lowering::emit(
                            stv,
                            seq![InstructionView::Move(reg_token(Register::AX, rs), tok)],
                        )
                    }
                };
                assert(insts_labels_ok(st1.insts, allowed)) by {
                    if !(val is Null) {
                        lemma_labels_ok_concat(
                            st.insts,
                            value_emit(val, st.scopes, funcs, Some(rs)),
                            allowed,
                        );
                        if crate::value::token_text(tok) != crate::registers::reg_size(
                            Register::AX,
                            rs,
                        ) {
                            lemma_labels_ok_concat(
                                st.insts + value_emit(val, st.scopes, funcs, Some(rs)),
                                seq![InstructionView::Move(reg_token(Register::AX, rs), tok)],
                                allowed,
                            );
                        }
                    }
                }
                let stack = st1.scopes.last().vars.stack;
                let patched = if stack == 0 {
                    st1.insts.remove(ph)
                } else {
                    st1.insts.update(
                        ph,
                        InstructionView::Sub(
                            reg_token(Register::SP, Size::QuadWord),
                            ValueCodegenView::Number(dec_str(stack)),
                        ),
                    )
                };
                assert(insts_labels_ok(patched, allowed)) by {
                    if stack == 0 {
                        assert forall|k: int| 0 <= k < patched.len() implies inst_labels_ok(
                            #[trigger] patched[k],
                            allowed,
                        ) by {
                            if k < ph {
                                assert(patched[k] == st1.insts[k]);
                            } else {
                                assert(patched[k] == st1.insts[k + 1]);
                            }
                        }
                    } else {
                        assert forall|k: int| 0 <= k < patched.len() implies inst_labels_ok(
                            #[trigger] patched[k],
                            allowed,
                        ) by {
                            if k != ph {
                                assert(patched[k] == st1.insts[k]);
                            }
                        }
                    }
                }
                lemma_labels_ok_concat(patched, epilogue_insts(), allowed);
                assert(body_step(s, ret, ph, funcs, st).insts == patched + epilogue_insts());
            },
            _ => {
                assert forall|l: Seq<char>| op_literals(s.first()).contains(l) implies #[trigger]
                    allowed.contains(l) by {
                    lemma_contains_concat(op_literals(s.first()), ops_literals(s.drop_first()), l);
                }
                assert forall|l: Seq<char>| ops_literals(s.drop_first()).contains(l) implies
                    #[trigger] allowed.contains(l) by {
                    lemma_contains_concat(op_literals(s.first()), ops_literals(s.drop_first()), l);
                }
                lemma_op_step_labels(s.first(), funcs, st, allowed);
                lemma_body_step_labels(
                    s.drop_first(),
                    ret,
                    ph,
                    funcs,
                    op_step(s.first(), funcs, st),
                    allowed,
                );
            },
        }
    }
}

/// String-table completeness, origin half: every symbol reference in the
/// lowered `.text` of a well-formed module is a string literal the
/// module's statements hold.  Together with the rendering of each define,
/// a module whose literals all carry defines refers only to labels that
/// stand in `.rodata`.
pub proof fn lemma_module_labels(ops: Seq<OperandView>)
    requires
        crate::ir::module_wf(ops),
    ensures
        insts_labels_ok(crate::ir::module_insts(ops), ops_literals(ops)),
{
    let st0 = crate::lowering::initial_state();
    assert(insts_labels_ok(st0.insts, ops_literals(ops)));
    lemma_ops_step_labels(
        ops,
        crate::lowering::register_functions(ops, Seq::empty()),
        st0,
        ops_literals(ops),
    );
}

/// Liveness, kept declarations: a declaration the pass keeps is of a
/// name that some later statement touches; the pass deletes exactly the
/// declarations of names never touched again.
pub proof fn lemma_kept_declare_is_used(ops: Seq<OperandView>, i: int)
    requires
        0 <= i < ops.len(),
        ops[i] is DeclareVariable,
        !dead_declare(ops, i),
    ensures
        last_use(ops, ops[i]->DeclareVariable_1) > i,
        op_names(ops[last_use(ops, ops[i]->DeclareVariable_1)]).contains(
            ops[i]->DeclareVariable_1,
        ),
{
    let n = ops[i]->DeclareVariable_1;
    assert(op_names(ops[i]).contains(n)) by {
        assert(op_names(ops[i])[0] == n);
    }
    lemma_last_use_mentions(ops, n);
}

/// The prologue a function's segment opens with: with a frame, `sub rsp`
/// follows the frame-pointer setup; without one it is absent.
pub open spec fn prologue_shape(name: Seq<char>, n: nat) -> Seq<InstructionView> {
    if n == 0 {
        seq![
            InstructionView::Label(name),
            InstructionView::Push(reg_token(Register::BP, Size::QuadWord)),
            InstructionView::Move(
                reg_token(Register::BP, Size::QuadWord),
                reg_token(Register::SP, Size::QuadWord),
            ),
        ]
    } else {
        seq![
            InstructionView::Label(name),
            InstructionView::Push(reg_token(Register::BP, Size::QuadWord)),
            InstructionView::Move(
                reg_token(Register::BP, Size::QuadWord),
                reg_token(Register::SP, Size::QuadWord),
            ),
            InstructionView::Sub(
                reg_token(Register::SP, Size::QuadWord),
                ValueCodegenView::Number(dec_str(n)),
            ),
        ]
    }
}

/// Whether a buffer holds, starting at `base`, a whole function segment:
/// the prologue for frame size `n`, a middle with no `ret` and no
/// memory-to-memory `mov`, and the epilogue.
pub open spec fn frame_shape_at(
    insts: Seq<InstructionView>,
    base: int,
    name: Seq<char>,
    n: nat,
) -> bool {
    exists|mid: Seq<InstructionView>|
        #![trigger insts.subrange(
            base,
            base + prologue_shape(name, n).len() + mid.len() + epilogue_insts().len(),
        )]
        {
            &&& tail_ok(mid)
            &&& 0 <= base
            &&& base + prologue_shape(name, n).len() + mid.len() + epilogue_insts().len()
                <= insts.len()
            &&& insts.subrange(
                base,
                base + prologue_shape(name, n).len() + mid.len() + epilogue_insts().len(),
            ) == prologue_shape(name, n) + mid + epilogue_insts()
        }
}

/// Lowering a list decomposes at any cut: the tail continues from the
/// state the head left.
pub proof fn lemma_ops_step_split(
    s: Seq<OperandView>,
    k: int,
    funcs: Seq<FnBinding>,
    st: EmitState,
)
    requires
        0 <= k <= s.len(),
    ensures
        ops_step(s, funcs, st) == ops_step(s.skip(k), funcs, ops_step(s.take(k), funcs, st)),
        ops_wf(s, funcs, st) ==> ops_wf(s.take(k), funcs, st) && ops_wf(
            s.skip(k),
            funcs,
            ops_step(s.take(k), funcs, st),
        ),
    decreases k,
{
    if k == 0 {
        assert(s.take(0) =~= Seq::<OperandView>::empty());
        assert(s.skip(0) =~= s);
    } else {
        let hd = s.first();
        let st1 = op_step(hd, funcs, st);
        lemma_ops_step_split(s.drop_first(), k - 1, funcs, st1);
        assert(s.take(k).first() == hd);
        assert(s.take(k).drop_first() =~= s.drop_first().take(k - 1));
        assert(s.skip(k) =~= s.drop_first().skip(k - 1));
        assert(ops_step(s.take(k), funcs, st) == ops_step(
            s.drop_first().take(k - 1),
            funcs,
            st1,
        ));
        assert(ops_step(s, funcs, st) == ops_step(s.drop_first(), funcs, st1));
    }
}

/// A shallow, well-formed list only appends to the buffer.
pub proof fn lemma_ops_step_prefix(s: Seq<OperandView>, funcs: Seq<FnBinding>, st: EmitState)
    requires
        ops_wf(s, funcs, st),
        shallow_ops(s),
    ensures
        ops_step(s, funcs, st).insts.len() >= st.insts.len(),
        ops_step(s, funcs, st).insts.take(st.insts.len() as int) == st.insts,
    decreases s.len(),
{
    if s.len() > 0 {
        let st1 = op_step(s.first(), funcs, st);
        if let OperandView::FunctionDecl(ty, name, body, params) = s.first() {
            assert(op_wf(s.first(), funcs, st));
            assert(func_wf(ty, name, body, params, funcs, st));
            lemma_function_frame(ty, name, body, params, funcs, st);
            assert(st1.insts.take(st.insts.len() as int) =~= st.insts);
        } else {
            lemma_op_step_flat(s.first(), funcs, st);
        }
        lemma_ops_step_prefix(s.drop_first(), funcs, st1);
        let out = ops_step(s, funcs, st);
        assert(out.insts.take(st.insts.len() as int) =~= out.insts.take(
            st1.insts.len() as int,
        ).take(st.insts.len() as int));
    }
}

/// Frame balance over a whole module: every function declaration of a
/// shallow, well-formed module occupies a contiguous segment of the
/// lowered text that opens with its label, `push RBP; mov RBP, RSP` and,
/// exactly when the path to its first `Return` declares any frame bytes,
/// `sub RSP, n` with `n` that sum; holds no further `ret` and no
/// memory-to-memory `mov`; and closes with `mov RSP, RBP; pop RBP; ret`.
pub proof fn lemma_module_function_frames(ops: Seq<OperandView>, k: int)
    requires
        crate::ir::module_wf(ops),
        shallow_ops(ops),
        0 <= k < ops.len(),
        ops[k] is FunctionDecl,
    ensures
        frame_shape_at(
            crate::ir::module_insts(ops),
            ops_step(
                ops.take(k),
                crate::lowering::register_functions(ops, Seq::empty()),
                crate::lowering::initial_state(),
            ).insts.len() as int,
            ops[k]->FunctionDecl_1,
            declared_on_path(ops[k]->FunctionDecl_2),
        ),
{
    let funcs = crate::lowering::register_functions(ops, Seq::empty());
    let st0 = crate::lowering::initial_state();
    lemma_ops_step_split(ops, k, funcs, st0);
    let stk = ops_step(ops.take(k), funcs, st0);
    lemma_shallow_split(ops, k);
    let rest = ops.skip(k);
    assert(rest.first() == ops[k]);
    assert(ops_wf(rest, funcs, stk));
    let ty = ops[k]->FunctionDecl_0;
    let name = ops[k]->FunctionDecl_1;
    let body = ops[k]->FunctionDecl_2;
    let params = ops[k]->FunctionDecl_3;
    assert(op_wf(ops[k], funcs, stk));
    assert(func_wf(ty, name, body, params, funcs, stk));
    assert(flat_ops(body)) by {
        lemma_shallow_member(ops, k);
    }
    lemma_function_frame(ty, name, body, params, funcs, stk);
    let n = declared_on_path(body);
    let stk1 = op_step(ops[k], funcs, stk);
    let mid = choose|mid: Seq<InstructionView>|
        #![all_triggers]
        {
            &&& tail_ok(mid)
            &&& func_step(ty, name, body, params, funcs, stk).insts == stk.insts + (if n == 0 {
                seq![
                    InstructionView::Label(name),
                    InstructionView::Push(reg_token(Register::BP, Size::QuadWord)),
                    InstructionView::Move(
                        reg_token(Register::BP, Size::QuadWord),
                        reg_token(Register::SP, Size::QuadWord),
                    ),
                ]
            } else {
                seq![
                    InstructionView::Label(name),
                    InstructionView::Push(reg_token(Register::BP, Size::QuadWord)),
                    InstructionView::Move(
                        reg_token(Register::BP, Size::QuadWord),
                        reg_token(Register::SP, Size::QuadWord),
                    ),
                    InstructionView::Sub(
                        reg_token(Register::SP, Size::QuadWord),
                        ValueCodegenView::Number(dec_str(n)),
                    ),
                ]
            }) + mid + epilogue_insts()
        };
    assert(stk1.insts == stk.insts + prologue_shape(name, n) + mid + epilogue_insts());
    lemma_ops_step_split(rest, 1, funcs, stk);
    assert(rest.take(1) =~= seq![ops[k]]);
    assert(ops_step(rest.take(1), funcs, stk) == stk1) by {
        assert(rest.take(1).len() == 1);
        assert(rest.take(1).first() == ops[k]);
        assert(rest.take(1).drop_first() =~= Seq::<OperandView>::empty());
        assert(ops_step(rest.take(1), funcs, stk) == ops_step(
            rest.take(1).drop_first(),
            funcs,
            op_step(rest.take(1).first(), funcs, stk),
        ));
        assert(ops_step(Seq::<OperandView>::empty(), funcs, stk1) == stk1);
    }
    assert(ops_wf(rest.skip(1), funcs, stk1));
    assert(shallow_ops(rest.skip(1))) by {
        lemma_shallow_split(ops, k + 1);
        assert(rest.skip(1) =~= ops.skip(k + 1));
    }
    lemma_ops_step_prefix(rest.skip(1), funcs, stk1);
    let fin = crate::ir::module_insts(ops);
    assert(fin == ops_step(rest.skip(1), funcs, stk1).insts) by {
        assert(ops_step(ops, funcs, st0) == ops_step(rest, funcs, stk));
        assert(ops_step(rest, funcs, stk) == ops_step(rest.skip(1), funcs, stk1));
    }
    let base = stk.insts.len() as int;
    let seg = prologue_shape(name, n) + mid + epilogue_insts();
    assert(fin.take(stk1.insts.len() as int) == stk1.insts);
    assert(fin.subrange(base, base + seg.len()) =~= seg) by {
        assert forall|q: int| 0 <= q < seg.len() implies fin[base + q] == seg[q] by {
            assert(fin[base + q] == fin.take(stk1.insts.len() as int)[base + q]);
            assert(stk1.insts[base + q] == seg[q]);
        }
    }
    assert(fin.subrange(
        base,
        base + prologue_shape(name, n).len() + mid.len() + epilogue_insts().len(),
    ) == prologue_shape(name, n) + mid + epilogue_insts());
}

/// Shallowness passes to any prefix cut and to the element at the cut.
pub proof fn lemma_shallow_split(ops: Seq<OperandView>, k: int)
    requires
        shallow_ops(ops),
        0 <= k <= ops.len(),
    ensures
        shallow_ops(ops.skip(k)),
    decreases k,
{
    if k > 0 && ops.len() > 0 {
        lemma_shallow_split(ops.drop_first(), k - 1);
        assert(ops.skip(k) =~= ops.drop_first().skip(k - 1));
    } else {
        assert(ops.skip(0) =~= ops);
    }
}

/// Shallowness of the list gives shallowness of each member.
pub proof fn lemma_shallow_member(ops: Seq<OperandView>, k: int)
    requires
        shallow_ops(ops),
        0 <= k < ops.len(),
    ensures
        shallow_op(ops[k]),
    decreases k,
{
    if k == 0 {
        assert(ops.first() == ops[0]);
    } else {
        lemma_shallow_member(ops.drop_first(), k - 1);
        assert(ops.drop_first()[k - 1] == ops[k]);
    }
}

} // verus!
