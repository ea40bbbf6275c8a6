use vstd::prelude::*;

use crate::assembly::Instruction;
use crate::compiler::{emit_of, with_emit, Compiler, CompilerView};
use crate::lowering::{assign_emit, assign_wf, op_step, op_wf};
use crate::operand::{OperandType, OperandView};
use crate::registers::Register;
use crate::util::Size;
use crate::value::{Value, ValueCodegen};

verus! {

/// Store a value into an already-rendered destination at a width: the
/// value's own instructions, then one move, or a staged pair through the
/// scratch register when both sides are memory.
fn m_set_variable(
    ty: &Size,
    variable_information: &ValueCodegen,
    value: &Value,
    compiler: &mut Compiler,
)
    requires
        assign_wf(
            *ty,
            variable_information.deep_view(),
            value.deep_view(),
            old(compiler)@.scopes,
            old(compiler)@.global.funcs,
        ),
    ensures
        final(compiler)@ == (CompilerView {
            insts: old(compiler)@.insts + assign_emit(
                *ty,
                variable_information.deep_view(),
                value.deep_view(),
                old(compiler)@.scopes,
                old(compiler)@.global.funcs,
            ),
            ..old(compiler)@
        }),
{
    let value_token = value.codegen(compiler);

    if variable_information.is_stack() && value_token.is_stack() {
        compiler.new_instruction(Instruction::Move(Register::AX.as_gen(ty), value_token));
        compiler.new_instruction(
            Instruction::Move(variable_information.clone(), Register::AX.as_gen(ty)),
        );
        proof {
            assert(compiler@.insts =~= old(compiler)@.insts + assign_emit(
                *ty,
                variable_information.deep_view(),
                value.deep_view(),
                old(compiler)@.scopes,
                old(compiler)@.global.funcs,
            ));
        }
    } else {
        compiler.new_instruction(Instruction::Move(variable_information.clone(), value_token));
        proof {
            assert(compiler@.insts =~= old(compiler)@.insts + assign_emit(
                *ty,
                variable_information.deep_view(),
                value.deep_view(),
                old(compiler)@.scopes,
                old(compiler)@.global.funcs,
            ));
        }
    }
}

/// Lower a variable declaration: allocate the local on the frame, then
/// store its initial value into the new slot.
pub fn variable_declaration(ty: &OperandType, name: &str, value: &Value, compiler: &mut Compiler)
    requires
        op_wf(
            OperandView::DeclareVariable(*ty, name@, value.deep_view()),
            old(compiler)@.global.funcs,
            emit_of(old(compiler)@),
        ),
    ensures
        final(compiler)@ == with_emit(
            old(compiler)@,
            op_step(
                OperandView::DeclareVariable(*ty, name@, value.deep_view()),
                old(compiler)@.global.funcs,
                emit_of(old(compiler)@),
            ),
        ),
{
    let allocated = compiler.allocate_variable(name, ty);
    let (location, var_type) = match allocated {
        Some(v) => v,
        None => vstd::pervasive::unreached(),
    };
    let width = var_type.size();
    m_set_variable(&width, &location.as_gen(&width), value, compiler);
}

/// Lower an assignment: size the destination, render it, then store.
pub fn set_value(dst: &Value, value: &Value, compiler: &mut Compiler)
    requires
        op_wf(
            OperandView::SetValue(dst.deep_view(), value.deep_view()),
            old(compiler)@.global.funcs,
            emit_of(old(compiler)@),
        ),
    ensures
        final(compiler)@ == with_emit(
            old(compiler)@,
            op_step(
                OperandView::SetValue(dst.deep_view(), value.deep_view()),
                old(compiler)@.global.funcs,
                emit_of(old(compiler)@),
            ),
        ),
{
    let width = dst.size(compiler);
    let location = dst.codegen_lhs(compiler);

    m_set_variable(&width, &location, value, compiler);
    proof {
        assert(compiler@.insts =~= old(compiler)@.insts + crate::lowering::lhs_emit(
            dst.deep_view(),
            old(compiler)@.scopes,
        ) + assign_emit(
            crate::lowering::value_size(
                dst.deep_view(),
                old(compiler)@.scopes,
                old(compiler)@.global.funcs,
            ),
            crate::lowering::lhs_token(dst.deep_view(), old(compiler)@.scopes),
            value.deep_view(),
            old(compiler)@.scopes,
            old(compiler)@.global.funcs,
        ));
    }
}

} // verus!
