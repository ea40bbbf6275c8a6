use vstd::prelude::*;

use crate::compiler::{compile_output, Compiler, CompilerView};
use crate::lowering::{initial_state, ops_step, ops_wf, register_functions};
use crate::operand::{lemma_operands_view, operands_view, Operand, OperandView};
use crate::optimisation::variable_deallocation::{deallocation_pass, liveness_rewrite};
use crate::render::instructions_text;

verus! {

/// An IR module: the ordered top-level statements a front end built,
/// principally function declarations.
#[derive(Debug)]
pub struct IRModule {
    pub operands: Vec<Operand>,
}

impl View for IRModule {
    type V = Seq<OperandView>;

    open spec fn view(&self) -> Seq<OperandView> {
        operands_view(self.operands@)
    }
}

/// Whether a module lowers without a fatal diagnostic, with its function
/// signatures registered up front.
pub open spec fn module_wf(ops: Seq<OperandView>) -> bool {
    ops_wf(ops, register_functions(ops, Seq::empty()), initial_state())
}

/// The instructions a module lowers to.
pub open spec fn module_insts(ops: Seq<OperandView>) -> Seq<crate::assembly::InstructionView> {
    ops_step(ops, register_functions(ops, Seq::empty()), initial_state()).insts
}

/// The program text a module compiles to: an empty `.rodata` section and
/// the `.text` section holding every lowered instruction on its line.
pub open spec fn module_output(ops: Seq<OperandView>) -> Seq<char> {
    "section .rodata\n"@ + "\nsection .text\n"@ + instructions_text(module_insts(ops))
}

impl IRModule {
    /// A module with no statements.
    pub fn new() -> (r: Self)
        ensures
            r@.len() == 0,
    {
        let r = IRModule { operands: Vec::new() };
        proof {
            assert(r@ =~= Seq::<OperandView>::empty());
        }
        r
    }

    /// Rewrite the module with the dead-variable pass: declarations of
    /// names never touched again are deleted, and a `DropVariable` is
    /// placed after each name's last use.
    pub fn optimise(&mut self)
        ensures
            final(self)@ == liveness_rewrite(old(self)@),
    {
        deallocation_pass(self);
    }

    /// Compile the module to its program text.
    pub fn compile(&self) -> (r: String)
        requires
            module_wf(self@),
        ensures
            r@ == module_output(self@),
    {
        let ghost opsv = self@;
        proof {
            lemma_operands_view(self.operands@);
        }
        let mut compiler = Compiler::new();
        let ghost fresh = compiler@;

        let mut owned: Vec<Operand> = Vec::new();
        let mut i: usize = 0;
        while i < self.operands.len()
            invariant
                i <= self.operands@.len(),
                opsv == operands_view(self.operands@),
                opsv.len() == self.operands@.len(),
                forall|m: int|
                    0 <= m < opsv.len() ==> opsv[m] == #[trigger] self.operands@[m].deep_view(),
                owned@.len() == i,
                forall|m: int| 0 <= m < i ==> #[trigger] owned@[m].deep_view() == opsv[m],
            decreases self.operands@.len() - i,
        {
            let c = self.operands[i].clone();
            owned.push(c);
            i += 1;
        }
        proof {
            lemma_operands_view(owned@);
            assert forall|m: int| 0 <= m < opsv.len() implies operands_view(owned@)[m] == opsv[m] by {
                assert(owned@[m].deep_view() == opsv[m]);
                assert(operands_view(owned@)[m] == crate::operand::operand_view(owned@[m]));
            }
            assert(operands_view(owned@) =~= opsv);
        }
        compiler.set_operands(owned);
        proof {
            assert(compiler@.defines =~= Seq::<(Seq<char>, Seq<char>)>::empty());
            assert(crate::compiler::emit_of(compiler@) =~= initial_state());
            assert(register_functions(opsv, compiler@.global.funcs) == register_functions(
                opsv,
                Seq::empty(),
            ));
        }
        let text = compiler.compile();
        proof {
            assert(module_output(opsv) =~= compile_output(
                CompilerView { operands: opsv, ..fresh },
            ));
        }
        text
    }
}

} // verus!
