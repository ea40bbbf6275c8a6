use vstd::prelude::*;

use crate::assembly::{Instruction, InstructionView};
use crate::function_manager::{fn_declare, fn_lookup};
use crate::operand::{operands_view, type_size, Operand, OperandType, OperandView};
use crate::lowering::{op_step, ops_step, ops_wf, register_functions, EmitState};
use crate::render::{dec_str, defines_text, escape_string, instructions_text, usize_string};
use crate::scope::{empty_scope, ScopeManager, ScopeView};
use crate::util::size_bytes;
use crate::variables::{
    table_alloc, table_bind_param, table_lookup, table_remove, VariableLocation,
};

verus! {

/// The mathematical shape of the compiler: the instruction buffer, the open
/// scopes, the global scope, the pending statements, the string table and
/// the label-id counter.
#[verifier::ext_equal]
pub struct CompilerView {
    pub insts: Seq<InstructionView>,
    pub scopes: Seq<ScopeView>,
    pub global: ScopeView,
    pub operands: Seq<OperandView>,
    pub defines: Seq<(Seq<char>, Seq<char>)>,
    pub id: nat,
}

/// The part of a compiler state that lowering steps read and write.
pub open spec fn emit_of(c: CompilerView) -> crate::lowering::EmitState {
    crate::lowering::EmitState { scopes: c.scopes, insts: c.insts, id: c.id }
}

/// The compiler state with its lowering part replaced.
pub open spec fn with_emit(c: CompilerView, st: crate::lowering::EmitState) -> CompilerView {
    CompilerView {
        insts: st.insts,
        scopes: st.scopes,
        id: st.id,
        global: c.global,
        operands: c.operands,
        defines: c.defines,
    }
}

/// The per-module lowering state: instruction buffer, scope stack, string
/// table and label ids.
#[derive(Debug)]
pub struct Compiler {
    pub(crate) compiled: Vec<Instruction>,
    pub(crate) scope_manager: ScopeManager,
    pub operands: Vec<Operand>,
    pub string_defines: Vec<(String, String)>,
    pub id: usize,
}

impl View for Compiler {
    type V = CompilerView;

    closed spec fn view(&self) -> CompilerView {
        CompilerView {
            insts: Seq::new(self.compiled@.len(), |i: int| self.compiled@[i].deep_view()),
            scopes: self.scope_manager@.scopes,
            global: self.scope_manager@.global,
            operands: operands_view(self.operands@),
            defines: Seq::new(
                self.string_defines@.len(),
                |i: int| (self.string_defines@[i].0@, self.string_defines@[i].1@),
            ),
            id: self.id as nat,
        }
    }
}

impl Compiler {
    /// A compiler with nothing lowered, no open scope, no statements, an
    /// empty string table, and the label counter at zero.
    pub fn new() -> (r: Self)
        ensures
            r@.insts.len() == 0,
            r@.scopes.len() == 0,
            r@.global == empty_scope(),
            r@.operands.len() == 0,
            r@.defines.len() == 0,
            r@.id == 0,
    {
        let r = Compiler {
            scope_manager: ScopeManager::new(),
            compiled: Vec::new(),
            operands: Vec::new(),
            string_defines: Vec::new(),
            id: 0,
        };
        proof {
            assert(r@.insts =~= Seq::<InstructionView>::empty());
            assert(r@.operands =~= Seq::<OperandView>::empty());
            assert(r@.defines =~= Seq::<(Seq<char>, Seq<char>)>::empty());
        }
        r
    }

    /// A fresh label: the counter is bumped and appended to the prefix.
    pub fn fetch_id(&mut self, prefix: &str) -> (r: String)
        requires
            old(self)@.id < usize::MAX,
        ensures
            final(self)@ == (CompilerView { id: old(self)@.id + 1, ..old(self)@ }),
            r@ == prefix@ + dec_str(old(self)@.id + 1),
    {
        self.id = self.id + 1;
        let r = prefix.to_owned().concat(usize_string(self.id).as_str());
        proof {
            assert(self@.insts =~= old(self)@.insts);
            assert(self@.defines =~= old(self)@.defines);
        }
        r
    }

    /// Append one instruction to the buffer.
    pub fn new_instruction(&mut self, instr: Instruction)
        ensures
            final(self)@ == (CompilerView {
                insts: old(self)@.insts.push(instr.deep_view()),
                ..old(self)@
            }),
    {
        self.compiled.push(instr);
        proof {
            assert(self@.insts =~= old(self)@.insts.push(instr.deep_view()));
            assert(self@.defines =~= old(self)@.defines);
        }
    }

    /// How many instructions have been emitted so far.
    pub fn instruction_count(&self) -> (r: usize)
        ensures
            r == self@.insts.len(),
    {
        self.compiled.len()
    }

    /// Overwrite the instruction at an index; used to patch the stack-frame
    /// placeholder once the frame size is known.
    pub fn set_instruction(&mut self, index: usize, instr: Instruction)
        requires
            index < old(self)@.insts.len(),
        ensures
            final(self)@ == (CompilerView {
                insts: old(self)@.insts.update(index as int, instr.deep_view()),
                ..old(self)@
            }),
    {
        self.compiled[index] = instr;
        proof {
            assert(self@.insts =~= old(self)@.insts.update(index as int, instr.deep_view()));
            assert(self@.defines =~= old(self)@.defines);
        }
    }

    /// Remove the instruction at an index; used to drop the placeholder of
    /// a function that takes no frame bytes.
    pub fn remove_instruction(&mut self, index: usize)
        requires
            index < old(self)@.insts.len(),
        ensures
            final(self)@ == (CompilerView {
                insts: old(self)@.insts.remove(index as int),
                ..old(self)@
            }),
    {
        self.compiled.remove(index);
        proof {
            assert(self@.insts =~= old(self)@.insts.remove(index as int));
            assert(self@.defines =~= old(self)@.defines);
        }
    }

    /// Open a nested scope.
    pub fn enter_scope(&mut self)
        ensures
            final(self)@ == (CompilerView {
                scopes: old(self)@.scopes.push(empty_scope()),
                ..old(self)@
            }),
    {
        self.scope_manager.enter_scope();
        proof {
            assert(self@.insts =~= old(self)@.insts);
            assert(self@.defines =~= old(self)@.defines);
        }
    }

    /// Close the innermost scope.
    pub fn leave_scope(&mut self)
        requires
            old(self)@.scopes.len() > 0,
        ensures
            final(self)@ == (CompilerView { scopes: old(self)@.scopes.drop_last(), ..old(self)@ }),
    {
        self.scope_manager.leave_scope();
        proof {
            assert(self@.insts =~= old(self)@.insts);
            assert(self@.defines =~= old(self)@.defines);
        }
    }

    /// Register a function signature in the global scope.
    pub fn declare_function_global(&mut self, name: &str, ty: &OperandType, params: &[OperandType])
        ensures
            final(self)@ == (CompilerView {
                global: ScopeView {
                    vars: old(self)@.global.vars,
                    funcs: fn_declare(old(self)@.global.funcs, name@, *ty, params@),
                },
                ..old(self)@
            }),
    {
        self.scope_manager.declare_function_global(name, ty, params);
        proof {
            assert(self@.insts =~= old(self)@.insts);
            assert(self@.defines =~= old(self)@.defines);
        }
    }

    /// The signature registered under a name.
    pub fn get_function(&self, name: &str) -> (r: Option<(OperandType, Vec<OperandType>)>)
        ensures
            (r is Some) == (fn_lookup(self@.global.funcs, name@) is Some),
            r matches Some(q) ==> fn_lookup(self@.global.funcs, name@) matches Some(p) && q.0
                == p.0 && q.1@ == p.1,
    {
        self.scope_manager.get_function(name)
    }

    /// Append a local to the innermost scope's frame.
    pub fn allocate_variable(&mut self, var: &str, ty: &OperandType) -> (r: Option<
        (VariableLocation, OperandType),
    >)
        requires
            old(self)@.scopes.len() > 0,
            old(self)@.scopes.last().vars.stack + size_bytes(type_size(*ty)) <= u32::MAX,
        ensures
            final(self)@ == (CompilerView {
                scopes: old(self)@.scopes.update(
                    old(self)@.scopes.len() - 1,
                    ScopeView {
                        vars: table_alloc(old(self)@.scopes.last().vars, var@, *ty),
                        funcs: old(self)@.scopes.last().funcs,
                    },
                ),
                ..old(self)@
            }),
            r == Some(
                (
                    VariableLocation::StackOffset(
                        (old(self)@.scopes.last().vars.stack + size_bytes(type_size(*ty))) as u32,
                    ),
                    *ty,
                ),
            ),
    {
        let r = self.scope_manager.allocate_in_current(var, ty);
        proof {
            assert(self@.insts =~= old(self)@.insts);
            assert(self@.defines =~= old(self)@.defines);
        }
        r
    }

    /// Bind a parameter in the innermost scope to its argument register.
    pub fn bind_parameter(&mut self, var: &str, ty: &OperandType, i: usize)
        requires
            old(self)@.scopes.len() > 0,
            i < 6,
        ensures
            final(self)@ == (CompilerView {
                scopes: old(self)@.scopes.update(
                    old(self)@.scopes.len() - 1,
                    ScopeView {
                        vars: table_bind_param(old(self)@.scopes.last().vars, var@, *ty, i as int),
                        funcs: old(self)@.scopes.last().funcs,
                    },
                ),
                ..old(self)@
            }),
    {
        self.scope_manager.bind_parameter_in_current(var, ty, i);
        proof {
            assert(self@.insts =~= old(self)@.insts);
            assert(self@.defines =~= old(self)@.defines);
        }
    }

    /// Look a variable up in the innermost scope.
    pub fn lookup_variable(&self, var: &str) -> (r: Option<(VariableLocation, OperandType)>)
        requires
            self@.scopes.len() > 0,
        ensures
            r == table_lookup(self@.scopes.last().vars.bindings, var@),
    {
        self.scope_manager.get_variable_manager().get(var)
    }

    /// Mark a variable unreachable in the innermost scope.
    pub fn drop_variable(&mut self, var: &str) -> (r: bool)
        requires
            old(self)@.scopes.len() > 0,
        ensures
            final(self)@ == (CompilerView {
                scopes: old(self)@.scopes.update(
                    old(self)@.scopes.len() - 1,
                    ScopeView {
                        vars: table_remove(old(self)@.scopes.last().vars, var@),
                        funcs: old(self)@.scopes.last().funcs,
                    },
                ),
                ..old(self)@
            }),
            r == (table_lookup(old(self)@.scopes.last().vars.bindings, var@) is Some),
    {
        let r = self.scope_manager.deallocate_in_current(var);
        proof {
            assert(self@.insts =~= old(self)@.insts);
            assert(self@.defines =~= old(self)@.defines);
        }
        r
    }

    /// Hand the compiler the statements it is to lower.
    pub fn set_operands(&mut self, operands: Vec<Operand>)
        ensures
            final(self)@ == (CompilerView {
                operands: operands_view(operands@),
                ..old(self)@
            }),
    {
        self.operands = operands;
        proof {
            assert(self@.insts =~= old(self)@.insts);
            assert(self@.defines =~= old(self)@.defines);
        }
    }

    /// The frame bytes taken by the innermost scope so far.
    pub fn used_stack(&self) -> (r: u32)
        requires
            self@.scopes.len() > 0,
        ensures
            r as nat == self@.scopes.last().vars.stack,
    {
        self.scope_manager.get_variable_manager().used_stack()
    }
}

/// Whether a compiler's pending statements lower without a fatal
/// diagnostic, once every top-level function signature is registered.
pub open spec fn compile_wf(c: CompilerView) -> bool {
    ops_wf(c.operands, register_functions(c.operands, c.global.funcs), emit_of(c))
}

/// The instruction buffer after a compiler's pending statements are
/// lowered.
pub open spec fn compile_insts(c: CompilerView) -> Seq<InstructionView> {
    ops_step(c.operands, register_functions(c.operands, c.global.funcs), emit_of(c)).insts
}

/// The full program text a compiler produces: the `.rodata` string table,
/// then the `.text` section with every lowered instruction on its line.
pub open spec fn compile_output(c: CompilerView) -> Seq<char> {
    "section .rodata\n"@ + defines_text(c.defines) + "\nsection .text\n"@ + instructions_text(
        compile_insts(c),
    )
}

impl Compiler {
    /// Compile the pending statements into the final program text: render
    /// the string table, register every top-level function signature, lower
    /// each statement in order, and join the instruction lines under the
    /// two section headers.
    pub fn compile(self) -> (r: String)
        requires
            compile_wf(self@),
        ensures
            r@ == compile_output(self@),
    {
        let ghost c0 = self@;
        let ghost funcs_r = register_functions(c0.operands, c0.global.funcs);
        proof {
            crate::operand::lemma_operands_view(self.operands@);
        }
        let mut this = self;

        let mut defines = String::new();
        let mut di: usize = 0;
        proof {
            assert(c0.defines.skip(0) =~= c0.defines);
        }
        while di < this.string_defines.len()
            invariant
                di <= this.string_defines@.len(),
                this@ == c0,
                c0.defines.len() == this.string_defines@.len(),
                defines@ + defines_text(c0.defines.skip(di as int)) == defines_text(c0.defines),
            decreases this.string_defines@.len() - di,
        {
            let ghost rest = c0.defines.skip(di as int);
            proof {
                assert(rest.first() == c0.defines[di as int]);
                assert(rest.drop_first() =~= c0.defines.skip(di as int + 1));
                assert(c0.defines[di as int].0 == this.string_defines@[di as int].0@);
                assert(c0.defines[di as int].1 == this.string_defines@[di as int].1@);
            }
            let entry_name = this.string_defines[di].0.clone();
            let entry_value = this.string_defines[di].1.clone();
            defines.append(entry_name.as_str());
            defines.append(":\n\tdb \"");
            defines.append(escape_string(entry_value.as_str()).as_str());
            defines.append("\", 0\n");
            di += 1;
        }
        proof {
            assert(c0.defines.skip(c0.defines.len() as int)
                =~= Seq::<(Seq<char>, Seq<char>)>::empty());
            assert(defines@ == defines_text(c0.defines));
        }

        let mut fi: usize = 0;
        proof {
            assert(c0.operands.skip(0) =~= c0.operands);
        }
        while fi < this.operands.len()
            invariant
                fi <= this.operands@.len(),
                this@ == (CompilerView {
                    global: ScopeView { vars: c0.global.vars, funcs: this@.global.funcs },
                    ..c0
                }),
                c0.operands.len() == this.operands@.len(),
                forall|m: int|
                    0 <= m < c0.operands.len() ==> c0.operands[m] == #[trigger] this.operands@[m].deep_view(),
                funcs_r == register_functions(c0.operands, c0.global.funcs),
                register_functions(c0.operands, c0.global.funcs) == register_functions(
                    c0.operands.skip(fi as int),
                    this@.global.funcs,
                ),
            decreases this.operands@.len() - fi,
        {
            let ghost rest = c0.operands.skip(fi as int);
            let ghost funcs_before = this@.global.funcs;
            proof {
                assert(rest.first() == c0.operands[fi as int]);
                assert(rest.drop_first() =~= c0.operands.skip(fi as int + 1));
                assert(c0.operands[fi as int] == this.operands@[fi as int].deep_view());
            }
            let op = &this.operands[fi];
            proof {
                reveal_with_fuel(crate::operand::operand_view, 2);
            }
            if let Operand::FunctionDecl(func_type, func_name, _, func_params) = op {
                proof {
                    assert(rest.first() is FunctionDecl);
                    assert(rest.first()->FunctionDecl_0 == *func_type);
                    assert(rest.first()->FunctionDecl_1 == func_name@);
                    assert(rest.first()->FunctionDecl_3 == crate::operand::params_view(
                        func_params@,
                    ));
                }
                let mut tys: Vec<OperandType> = Vec::new();
                let mut ti: usize = 0;
                while ti < func_params.len()
                    invariant
                        ti <= func_params@.len(),
                        tys@.len() == ti,
                        forall|m: int| 0 <= m < ti ==> tys@[m] == #[trigger] func_params@[m].1,
                    decreases func_params@.len() - ti,
                {
                    let t = func_params[ti].1.clone();
                    tys.push(t);
                    ti += 1;
                }
                proof {
                    assert(tys@ =~= crate::lowering::param_types(
                        crate::operand::params_view(func_params@),
                    ));
                }
                let owned_name = func_name.clone();
                let owned_type = func_type.clone();
                this.scope_manager.declare_function_global(
                    owned_name.as_str(),
                    &owned_type,
                    tys.as_slice(),
                );
                proof {
                    assert(this@.insts =~= c0.insts);
                    assert(this@.defines =~= c0.defines);
                    assert(this@.operands =~= c0.operands);
                    assert(this@.global.funcs == crate::function_manager::fn_declare(
                        funcs_before,
                        func_name@,
                        *func_type,
                        tys@,
                    ));
                    assert(register_functions(rest, funcs_before) == register_functions(
                        rest.drop_first(),
                        this@.global.funcs,
                    ));
                }
            } else {
                proof {
                    assert(!(rest.first() is FunctionDecl));
                    assert(register_functions(rest, funcs_before) == register_functions(
                        rest.drop_first(),
                        funcs_before,
                    ));
                }
            }
            fi += 1;
        }
        proof {
            assert(c0.operands.skip(c0.operands.len() as int) =~= Seq::<OperandView>::empty());
            assert(this@.global.funcs == funcs_r);
        }

        let pending = this.operands;
        this.operands = Vec::new();
        proof {
            assert(this@.operands =~= Seq::<OperandView>::empty());
        }

        let mut oi: usize = 0;
        proof {
            assert(c0.operands.skip(0) =~= c0.operands);
            assert(emit_of(this@) =~= emit_of(c0));
        }
        while oi < pending.len()
            invariant
                oi <= pending@.len(),
                c0.operands.len() == pending@.len(),
                forall|m: int|
                    0 <= m < c0.operands.len() ==> c0.operands[m] == #[trigger] pending@[m].deep_view(),
                funcs_r == register_functions(c0.operands, c0.global.funcs),
                this@ == (CompilerView {
                    insts: this@.insts,
                    scopes: this@.scopes,
                    id: this@.id,
                    global: ScopeView { vars: c0.global.vars, funcs: funcs_r },
                    operands: Seq::empty(),
                    defines: c0.defines,
                }),
                ops_step(c0.operands, funcs_r, emit_of(c0)) == ops_step(
                    c0.operands.skip(oi as int),
                    funcs_r,
                    emit_of(this@),
                ),
                ops_wf(c0.operands.skip(oi as int), funcs_r, emit_of(this@)),
            decreases pending@.len() - oi,
        {
            let ghost rest = c0.operands.skip(oi as int);
            proof {
                assert(rest.first() == c0.operands[oi as int]);
                assert(rest.drop_first() =~= c0.operands.skip(oi as int + 1));
                assert(c0.operands[oi as int] == pending@[oi as int].deep_view());
                assert(ops_step(rest, funcs_r, emit_of(this@)) == ops_step(
                    rest.drop_first(),
                    funcs_r,
                    op_step(rest.first(), funcs_r, emit_of(this@)),
                ));
            }
            let op = &pending[oi];
            op.codegen(&mut this);
            oi += 1;
        }
        proof {
            assert(c0.operands.skip(c0.operands.len() as int) =~= Seq::<OperandView>::empty());
            assert(this@.insts == compile_insts(c0));
        }

        let ghost final_insts = this@.insts;
        let mut buffer = String::new();
        let mut bi: usize = 0;
        proof {
            assert(final_insts.skip(0) =~= final_insts);
        }
        while bi < this.compiled.len()
            invariant
                bi <= this.compiled@.len(),
                this@.insts == final_insts,
                final_insts.len() == this.compiled@.len(),
                forall|m: int|
                    0 <= m < final_insts.len() ==> final_insts[m]
                        == #[trigger] this.compiled@[m].deep_view(),
                buffer@ + instructions_text(final_insts.skip(bi as int)) == instructions_text(
                    final_insts,
                ),
            decreases this.compiled@.len() - bi,
        {
            let ghost rest = final_insts.skip(bi as int);
            proof {
                assert(rest.first() == final_insts[bi as int]);
                assert(rest.drop_first() =~= final_insts.skip(bi as int + 1));
            }
            let line = this.compiled[bi].clone().codegen_x86();
            buffer.append(line.as_str());
            buffer.append("\n");
            bi += 1;
        }
        proof {
            assert(final_insts.skip(final_insts.len() as int) =~= Seq::<InstructionView>::empty());
        }

        "section .rodata\n".to_owned().concat(defines.as_str()).concat(
            "\nsection .text\n",
        ).concat(buffer.as_str())
    }
}

} // verus!
