use vstd::prelude::*;

use crate::assembly::Instruction;
use crate::compiler::{emit_of, with_emit, Compiler, CompilerView};
use crate::lowering::{
    args_emit, args_wf, bind_params, body_step, body_wf, call_emit, call_ret_size, call_wf,
    func_entry, func_step, func_wf, op_step, op_wf, pops_emit, prologue_emit, ret_step, ret_wf,
    EmitState,
};
use crate::operand::{
    lemma_operands_view, operands_view, params_view, Operand, OperandType, OperandView,
};
use crate::registers::Register;
use crate::render::u32_string;
use crate::scope::{empty_scope, ScopeView};
use crate::util::Size;
use crate::value::{lemma_values_view, values_view, Value, ValueCodegen};
use crate::variables::parameter_register;

verus! {

/// Lower a call: for each argument in order its value at the parameter's
/// width, a spill of the argument register, and the fill; then the call;
/// then the restores in reverse.  Returns the callee's return width.
pub fn function_call(name: &str, parameters: &[Value], compiler: &mut Compiler) -> (r: Size)
    requires
        call_wf(
            name@,
            values_view(parameters@),
            old(compiler)@.scopes,
            old(compiler)@.global.funcs,
        ),
    ensures
        final(compiler)@ == (CompilerView {
            insts: old(compiler)@.insts + call_emit(
                name@,
                values_view(parameters@),
                old(compiler)@.scopes,
                old(compiler)@.global.funcs,
            ),
            ..old(compiler)@
        }),
        r == call_ret_size(name@, old(compiler)@.global.funcs),
    decreases parameters@, 3int, 0int,
{
    let ghost dv = values_view(parameters@);
    let ghost funcs = old(compiler)@.global.funcs;
    let ghost scopes0 = old(compiler)@.scopes;
    proof {
        lemma_values_view(parameters@);
    }
    let looked_up = compiler.get_function(name);
    let (return_type, params) = match looked_up {
        Some(f) => f,
        None => vstd::pervasive::unreached(),
    };
    let ghost params_v = params@;

    let mut i: usize = 0;
    while i < parameters.len()
        invariant
            i <= parameters@.len(),
            parameters@.len() == dv.len() == params_v.len(),
            dv == values_view(parameters@),
            params_v == params@,
            scopes0 == old(compiler)@.scopes,
            funcs == old(compiler)@.global.funcs,
            compiler@ == (CompilerView { insts: compiler@.insts, ..old(compiler)@ }),
            old(compiler)@.insts + args_emit(dv, params_v, scopes0, funcs, 0) == compiler@.insts
                + args_emit(dv, params_v, scopes0, funcs, i as int),
            args_wf(dv, params_v, scopes0, funcs, i as int),
            dv.len() <= 6,
            forall|j: int| 0 <= j < dv.len() ==> dv[j] == #[trigger] parameters@[j].deep_view(),
        decreases parameters@.len() - i,
    {
        let ghost j = i as int;
        let ghost w = crate::operand::type_size(params_v[j]);
        proof {
            broadcast use vstd::seq::axiom_seq_index_decreases;

            assert(decreases_to!(parameters@ => parameters@[j]));
            assert(args_wf(dv, params_v, scopes0, funcs, j) == (crate::operand::type_size(
                params_v[j],
            ) != Size::Byte && crate::lowering::value_wf(dv[j], scopes0, funcs, Some(w))
                && args_wf(dv, params_v, scopes0, funcs, j + 1)));
            assert(args_emit(dv, params_v, scopes0, funcs, j) == crate::lowering::value_emit(
                dv[j],
                scopes0,
                funcs,
                Some(w),
            ) + seq![
                crate::assembly::InstructionView::Push(
                    crate::registers::reg_token(
                        crate::variables::param_reg(j),
                        Size::QuadWord,
                    ),
                ),
                crate::assembly::InstructionView::Move(
                    crate::registers::reg_token(crate::variables::param_reg(j), w),
                    crate::lowering::value_token(dv[j], scopes0, funcs, Some(w)),
                ),
            ] + args_emit(dv, params_v, scopes0, funcs, j + 1));
        }
        let width = params[i].size();
        proof {
            assert(width == w);
            assert(parameters@[j].deep_view() == dv[j]);
            assert(compiler@.scopes == scopes0);
            assert(compiler@.global.funcs == funcs);
            assert(crate::lowering::value_wf(dv[j], scopes0, funcs, Some(w)));
        }
        let value = parameters[i].codegen_size(compiler, &width);
        let reg = parameter_register(i);
        compiler.new_instruction(Instruction::Push(reg.as_gen(&Size::QuadWord)));
        compiler.new_instruction(Instruction::Move(reg.as_gen(&width), value));
        proof {
            assert(compiler@.insts + args_emit(dv, params_v, scopes0, funcs, j + 1)
                =~= old(compiler)@.insts + args_emit(dv, params_v, scopes0, funcs, 0));
        }
        i += 1;
    }
    compiler.new_instruction(Instruction::Call(name.to_owned()));
    let ghost after_call = compiler@.insts;
    proof {
        assert(args_emit(dv, params_v, scopes0, funcs, dv.len() as int)
            =~= Seq::<crate::assembly::InstructionView>::empty());
        assert(after_call =~= old(compiler)@.insts + args_emit(dv, params_v, scopes0, funcs, 0)
            + seq![crate::assembly::InstructionView::Call(name@)]);
    }

    let mut k: usize = parameters.len();
    while k > 0
        invariant
            k <= parameters@.len(),
            compiler@ == (CompilerView { insts: compiler@.insts, ..old(compiler)@ }),
            dv == values_view(parameters@),
            scopes0 == old(compiler)@.scopes,
            funcs == old(compiler)@.global.funcs,
            after_call == old(compiler)@.insts + args_emit(dv, params_v, scopes0, funcs, 0)
                + seq![crate::assembly::InstructionView::Call(name@)],
            compiler@.insts + pops_emit(k as int) == after_call + pops_emit(
                parameters@.len() as int,
            ),
            parameters@.len() <= 6,
        decreases k,
    {
        k = k - 1;
        compiler.new_instruction(
            Instruction::Pop(parameter_register(k).as_gen(&Size::QuadWord)),
        );
        proof {
            assert(compiler@.insts + pops_emit(k as int) =~= after_call + pops_emit(
                parameters@.len() as int,
            ));
        }
    }
    proof {
        assert(pops_emit(0) =~= Seq::<crate::assembly::InstructionView>::empty());
        assert(compiler@.insts =~= old(compiler)@.insts + call_emit(name@, dv, scopes0, funcs));
    }
    return_type.size()
}

/// Lower a function declaration: open a scope, emit the prologue with its
/// stack-frame placeholder, bind the parameters, then lower the body up to
/// its first `Return`, whose epilogue patches the placeholder with the
/// frame bytes taken (or removes it when none were).
pub fn function_decl(
    return_type: &OperandType,
    name: &str,
    operands: &[Operand],
    parameters: &[(String, OperandType)],
    compiler: &mut Compiler,
)
    requires
        func_wf(
            *return_type,
            name@,
            operands_view(operands@),
            params_view(parameters@),
            old(compiler)@.global.funcs,
            emit_of(old(compiler)@),
        ),
    ensures
        final(compiler)@ == with_emit(
            old(compiler)@,
            func_step(
                *return_type,
                name@,
                operands_view(operands@),
                params_view(parameters@),
                old(compiler)@.global.funcs,
                emit_of(old(compiler)@),
            ),
        ),
    decreases operands@, 1int, 0int,
{
    let ghost funcs = old(compiler)@.global.funcs;
    let ghost st0 = emit_of(old(compiler)@);
    let ghost bodyv = operands_view(operands@);
    let ghost paramsv = params_view(parameters@);
    let ghost ph = st0.insts.len() as int + 3;
    proof {
        lemma_operands_view(operands@);
    }

    compiler.enter_scope();
    compiler.new_instruction(Instruction::Label(name.to_owned()));
    compiler.new_instruction(Instruction::Push(Register::BP.as_gen(&Size::QuadWord)));
    compiler.new_instruction(
        Instruction::Move(
            Register::BP.as_gen(&Size::QuadWord),
            Register::SP.as_gen(&Size::QuadWord),
        ),
    );
    compiler.new_instruction(Instruction::Label("[PLACEHOLDER]".to_owned()));
    let placeholder_index = compiler.instruction_count() - 1;
    proof {
        assert(compiler@.insts =~= st0.insts + prologue_emit(name@));
        assert(placeholder_index as int == ph);
    }

    let mut i: usize = 0;
    while i < parameters.len()
        invariant
            i <= parameters@.len(),
            paramsv == params_view(parameters@),
            paramsv.len() == parameters@.len(),
            paramsv.len() <= 6,
            st0 == emit_of(old(compiler)@),
            compiler@ == with_emit(old(compiler)@, emit_of(compiler@)),
            compiler@.insts == st0.insts + prologue_emit(name@),
            compiler@.id == st0.id,
            compiler@.scopes.len() == st0.scopes.len() + 1,
            compiler@.scopes.drop_last() == st0.scopes,
            compiler@.scopes.last().funcs == empty_scope().funcs,
            bind_params(empty_scope().vars, paramsv, 0) == bind_params(
                compiler@.scopes.last().vars,
                paramsv,
                i as int,
            ),
        decreases parameters@.len() - i,
    {
        let ghost j = i as int;
        let ghost cur = compiler@.scopes.last().vars;
        proof {
            assert(bind_params(cur, paramsv, j) == bind_params(
                crate::variables::table_bind_param(cur, paramsv[j].0, paramsv[j].1, j),
                paramsv,
                j + 1,
            ));
        }
        let p = &parameters[i];
        compiler.bind_parameter(p.0.as_str(), &p.1, i);
        proof {
            assert(paramsv[j].0 == parameters@[j].0@);
            assert(paramsv[j].1 == parameters@[j].1);
            assert(compiler@.scopes.drop_last() =~= st0.scopes);
        }
        i += 1;
    }
    let ghost st2 = func_entry(name@, paramsv, st0);
    proof {
        assert(st2.scopes =~= st0.scopes.push(
            ScopeView {
                vars: bind_params(empty_scope().vars, paramsv, 0),
                funcs: empty_scope().funcs,
            },
        ));
        assert(compiler@.scopes =~= compiler@.scopes.drop_last().push(compiler@.scopes.last()));
        assert(emit_of(compiler@) =~= st2);
    }

    let mut has_ret = false;
    let mut k: usize = 0;
    while k < operands.len()
        invariant
            k <= operands@.len(),
            bodyv == operands_view(operands@),
            bodyv.len() == operands@.len(),
            forall|m: int|
                0 <= m < bodyv.len() ==> bodyv[m] == #[trigger] operands@[m].deep_view(),
            has_ret == exists|m: int| 0 <= m < k && (#[trigger] bodyv[m]) is Return,
        decreases operands@.len() - k,
    {
        let op = &operands[k];
        proof {
            reveal_with_fuel(crate::operand::operand_view, 2);
            assert(bodyv[k as int] == operands@[k as int].deep_view());
        }
        if matches!(op, Operand::Return(_)) {
            has_ret = true;
            proof {
                assert(operands@[k as int] is Return);
                assert(bodyv[k as int] is Return);
            }
        } else {
            proof {
                assert(!(operands@[k as int] is Return));
                assert(!(bodyv[k as int] is Return));
            }
        }
        k += 1;
    }
    // A body that never returns is rejected before anything is lowered;
    // the precondition guarantees a `Return`, so this branch cannot run.
    if !has_ret {
        proof {
            assert(false);
        }
    }
    proof {
        assert(bodyv.skip(0) =~= bodyv);
    }

    let mut bi: usize = 0;
    while bi < operands.len()
        invariant
            bi <= operands@.len(),
            bodyv == operands_view(operands@),
            bodyv.len() == operands@.len(),
            forall|m: int|
                0 <= m < bodyv.len() ==> bodyv[m] == #[trigger] operands@[m].deep_view(),
            funcs == old(compiler)@.global.funcs,
            st0 == emit_of(old(compiler)@),
            st2 == func_entry(name@, params_view(parameters@), st0),
            ph == st0.insts.len() as int + 3,
            placeholder_index as int == ph,
            compiler@ == with_emit(old(compiler)@, emit_of(compiler@)),
            body_step(bodyv, *return_type, ph, funcs, st2) == body_step(
                bodyv.skip(bi as int),
                *return_type,
                ph,
                funcs,
                emit_of(compiler@),
            ),
            body_wf(bodyv.skip(bi as int), *return_type, ph, funcs, emit_of(compiler@)),
            exists|m: int|
                0 <= m < bodyv.skip(bi as int).len() && (#[trigger] bodyv.skip(bi as int)[m])
                    is Return,
        decreases operands@.len() - bi,
    {
        let ghost j = bi as int;
        let ghost rest = bodyv.skip(j);
        proof {
            assert(rest.first() == bodyv[j]);
            assert(rest.drop_first() =~= bodyv.skip(j + 1));
        }
        let op = &operands[bi];
        proof {
            reveal_with_fuel(crate::operand::operand_view, 2);
            assert(bodyv[j] == operands@[j].deep_view());
        }
        if let Operand::Return(value) = op {
            let ghost valv = value.deep_view();
            proof {
                assert(operands@[j] is Return);
                assert(rest.first() == OperandView::Return(valv));
                assert(body_step(rest, *return_type, ph, funcs, emit_of(compiler@)) == ret_step(
                    valv,
                    *return_type,
                    ph,
                    funcs,
                    emit_of(compiler@),
                ));
                assert(ret_wf(valv, *return_type, ph, funcs, emit_of(compiler@)));
            }
            let ghost st_at_ret = emit_of(compiler@);
            if !matches!(value, Value::Null) {
                let width = return_type.size();
                let tok = value.codegen_size(compiler, &width);
                let token_inner = tok.inner();
                let ax_name = Register::AX.as_size(&width);
                if !(token_inner == ax_name) {
                    compiler.new_instruction(
                        Instruction::Move(Register::AX.as_gen(&width), tok),
                    );
                }
            }
            let stack = compiler.used_stack();
            if stack == 0 {
                compiler.remove_instruction(placeholder_index);
            } else {
                compiler.set_instruction(
                    placeholder_index,
                    Instruction::Sub(
                        Register::SP.as_gen(&Size::QuadWord),
                        ValueCodegen::Number(u32_string(stack)),
                    ),
                );
            }
            compiler.new_instruction(
                Instruction::Move(
                    Register::SP.as_gen(&Size::QuadWord),
                    Register::BP.as_gen(&Size::QuadWord),
                ),
            );
            compiler.new_instruction(Instruction::Pop(Register::BP.as_gen(&Size::QuadWord)));
            compiler.new_instruction(Instruction::Return);
            proof {
                assert(emit_of(compiler@) =~= ret_step(valv, *return_type, ph, funcs, st_at_ret));
            }
            return ;
        } else {
            proof {
                assert(!(rest.first() is Return));
                assert(body_step(rest, *return_type, ph, funcs, emit_of(compiler@)) == body_step(
                    rest.drop_first(),
                    *return_type,
                    ph,
                    funcs,
                    op_step(rest.first(), funcs, emit_of(compiler@)),
                ));
                assert(decreases_to!(operands@ => operands@[j]));
            }
            op.codegen(compiler);
            proof {
                let w = choose|w: int|
                    0 <= w < bodyv.skip(j).len() && (#[trigger] bodyv.skip(j)[w]) is Return;
                assert(w != 0);
                assert(bodyv.skip(j + 1)[w - 1] == bodyv.skip(j)[w]);
                assert(0 <= w - 1 < bodyv.skip(j + 1).len() && (bodyv.skip(j + 1)[w - 1])
                    is Return);
            }
        }
        bi += 1;
    }
    // The loop above always ends at the body's first `Return`; only a body
    // without one would fall through to close its scope here.
    proof {
        assert(false);
    }
    compiler.leave_scope();
}

} // verus!
