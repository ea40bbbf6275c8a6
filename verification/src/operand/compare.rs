use vstd::prelude::*;

use crate::assembly::Instruction;
use crate::compiler::{emit_of, with_emit, Compiler};
use crate::lowering::{if_label, if_pre_body, op_step, op_wf, ops_step, ops_wf};
use crate::operand::{lemma_operands_view, operands_view, Operand, OperandView};
use crate::registers::Register;
use crate::value::{value_view, Value, ValueView};

verus! {

/// A comparison relation of a conditional branch.
#[derive(Debug, Clone, Copy, PartialEq, Eq, Structural)]
pub enum CompareOperation {
    GT,
    GTE,
    LT,
    LTE,
    EQ,
    NEQ,
}

/// The assembler condition-code suffix of a relation (`jg`, `jge`, ...).
pub open spec fn compare_suffix(op: CompareOperation) -> Seq<char> {
    match op {
        CompareOperation::GT => "g"@,
        CompareOperation::GTE => "ge"@,
        CompareOperation::LT => "l"@,
        CompareOperation::LTE => "le"@,
        CompareOperation::EQ => "e"@,
        CompareOperation::NEQ => "ne"@,
    }
}

/// The negation of a relation, used to jump over a body when the
/// stated relation holds on fall-through.
pub open spec fn compare_opposite(op: CompareOperation) -> CompareOperation {
    match op {
        CompareOperation::GT => CompareOperation::LTE,
        CompareOperation::GTE => CompareOperation::LT,
        CompareOperation::LT => CompareOperation::GTE,
        CompareOperation::LTE => CompareOperation::GT,
        CompareOperation::EQ => CompareOperation::NEQ,
        CompareOperation::NEQ => CompareOperation::EQ,
    }
}

impl CompareOperation {
    /// The condition-code suffix of this relation.
    pub fn as_suffix(&self) -> (r: String)
        ensures
            r@ == compare_suffix(*self),
    {
        match self {
            CompareOperation::GT => "g",
            CompareOperation::GTE => "ge",
            CompareOperation::LT => "l",
            CompareOperation::LTE => "le",
            CompareOperation::EQ => "e",
            CompareOperation::NEQ => "ne",
        }.to_owned()
    }

    /// The opposite relation.
    pub fn get_opposite(&self) -> (r: Self)
        ensures
            r == compare_opposite(*self),
    {
        match self {
            CompareOperation::GT => CompareOperation::LTE,
            CompareOperation::GTE => CompareOperation::LT,
            CompareOperation::LT => CompareOperation::GTE,
            CompareOperation::LTE => CompareOperation::GT,
            CompareOperation::EQ => CompareOperation::NEQ,
            CompareOperation::NEQ => CompareOperation::EQ,
        }
    }
}

/// The guard of an `If` operation: `lhs <relation> rhs`.
#[derive(Debug)]
pub struct ComparePredicate {
    pub operation: CompareOperation,
    pub lhs: Value,
    pub rhs: Value,
}

/// The mathematical shape of a predicate.
pub struct PredicateView {
    pub operation: CompareOperation,
    pub lhs: ValueView,
    pub rhs: ValueView,
}

impl DeepView for ComparePredicate {
    type V = PredicateView;

    open spec fn deep_view(&self) -> PredicateView {
        PredicateView {
            operation: self.operation,
            lhs: value_view(self.lhs),
            rhs: value_view(self.rhs),
        }
    }
}

impl Clone for ComparePredicate {
    fn clone(&self) -> (r: Self)
        ensures
            r.deep_view() == self.deep_view(),
    {
        ComparePredicate {
            operation: self.operation,
            lhs: self.lhs.clone(),
            rhs: self.rhs.clone(),
        }
    }
}

/// Lower a conditional: compare the two sides, jump past the body on the
/// opposite relation, lower the body, and place the join label.
pub fn if_statement(predicate: &ComparePredicate, main_body: &[Operand], compiler: &mut Compiler)
    requires
        op_wf(
            (OperandView::If {
                predicate: predicate.deep_view(),
                main_body: operands_view(main_body@),
            }),
            old(compiler)@.global.funcs,
            emit_of(old(compiler)@),
        ),
    ensures
        final(compiler)@ == with_emit(
            old(compiler)@,
            op_step(
                (OperandView::If {
                    predicate: predicate.deep_view(),
                    main_body: operands_view(main_body@),
                }),
                old(compiler)@.global.funcs,
                emit_of(old(compiler)@),
            ),
        ),
    decreases main_body@, 1int, 0int,
{
    let ghost funcs = old(compiler)@.global.funcs;
    let ghost st0 = emit_of(old(compiler)@);
    let ghost bodyv = operands_view(main_body@);
    proof {
        lemma_operands_view(main_body@);
    }

    let op_size = predicate.lhs.size(compiler);
    let rhs_gen = predicate.rhs.codegen(compiler);
    let mut lhs_gen = predicate.lhs.codegen_size(compiler, &op_size);
    proof {
        assert(compiler@.insts =~= old(compiler)@.insts + (crate::lowering::value_emit(
            predicate.deep_view().rhs,
            st0.scopes,
            funcs,
            None,
        ) + crate::lowering::value_emit(
            predicate.deep_view().lhs,
            st0.scopes,
            funcs,
            Some(op_size),
        )));
    }

    if lhs_gen.is_stack() && rhs_gen.is_stack() || lhs_gen.is_immediate() {
        let new_location = Register::AX.as_gen(&op_size);
        compiler.new_instruction(Instruction::Move(new_location.clone(), lhs_gen));
        lhs_gen = new_location;
    }

    compiler.new_instruction(Instruction::Compare(lhs_gen, rhs_gen));

    let id_label = compiler.fetch_id(".IF");

    compiler.new_instruction(
        Instruction::JumpConditional {
            label_destination: id_label.clone(),
            conditional: predicate.operation.get_opposite(),
        },
    );
    let ghost st4 = if_pre_body(predicate.deep_view(), funcs, st0);
    proof {
        assert(id_label@ == if_label(st0));
        assert(emit_of(compiler@) =~= st4);
        assert(compiler@ == with_emit(old(compiler)@, st4));
        assert(bodyv.skip(0) =~= bodyv);
    }

    let mut i: usize = 0;
    while i < main_body.len()
        invariant
            i <= main_body@.len(),
            bodyv == operands_view(main_body@),
            bodyv.len() == main_body@.len(),
            forall|j: int|
                0 <= j < bodyv.len() ==> bodyv[j] == #[trigger] main_body@[j].deep_view(),
            funcs == old(compiler)@.global.funcs,
            st4 == if_pre_body(predicate.deep_view(), funcs, emit_of(old(compiler)@)),
            compiler@ == with_emit(old(compiler)@, emit_of(compiler@)),
            ops_step(bodyv, funcs, st4) == ops_step(
                bodyv.skip(i as int),
                funcs,
                emit_of(compiler@),
            ),
            ops_wf(bodyv.skip(i as int), funcs, emit_of(compiler@)),
        decreases main_body@.len() - i,
    {
        let ghost j = i as int;
        let ghost rest = bodyv.skip(j);
        proof {
            broadcast use vstd::seq::axiom_seq_index_decreases;

            assert(decreases_to!(main_body@ => main_body@[j]));
            assert(rest.first() == bodyv[j]);
            assert(rest.drop_first() =~= bodyv.skip(j + 1));
            assert(ops_step(rest, funcs, emit_of(compiler@)) == ops_step(
                rest.drop_first(),
                funcs,
                op_step(rest.first(), funcs, emit_of(compiler@)),
            ));
        }
        let op = &main_body[i];
        op.codegen(compiler);
        i += 1;
    }
    proof {
        assert(bodyv.skip(bodyv.len() as int) =~= Seq::<OperandView>::empty());
    }
    compiler.new_instruction(Instruction::Label(id_label));
    proof {
        assert(compiler@.insts =~= ops_step(bodyv, funcs, st4).insts + seq![
            crate::assembly::InstructionView::Label(if_label(st0)),
        ]);
    }
}

} // verus!
