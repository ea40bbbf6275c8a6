use vstd::prelude::*;

use crate::function_manager::{fn_declare, fn_lookup, FnBinding, FunctionManager};
use crate::operand::OperandType;
use crate::variables::{VarTableView, VariableManager};

verus! {

/// The variables and functions visible at one nesting level.
#[derive(Debug)]
pub struct Scope {
    pub variables: VariableManager,
    pub functions: FunctionManager,
}

/// The mathematical shape of a scope.
#[verifier::ext_equal]
pub struct ScopeView {
    pub vars: VarTableView,
    pub funcs: Seq<FnBinding>,
}

/// The shape of a freshly opened scope.
pub open spec fn empty_scope() -> ScopeView {
    ScopeView {
        vars: VarTableView { bindings: Seq::empty(), stack: 0 },
        funcs: Seq::empty(),
    }
}

impl View for Scope {
    type V = ScopeView;

    open spec fn view(&self) -> ScopeView {
        ScopeView { vars: self.variables@, funcs: self.functions@ }
    }
}

impl Scope {
    /// A scope with no variables and no functions.
    pub fn new() -> (r: Self)
        ensures
            r@ == empty_scope(),
    {
        let r = Scope { variables: VariableManager::new(), functions: FunctionManager::new() };
        proof {
            assert(r@.vars.bindings =~= empty_scope().vars.bindings);
            assert(r@.funcs =~= empty_scope().funcs);
        }
        r
    }
}

/// The mathematical shape of the scope manager: the stack of open scopes
/// (innermost last) and the global scope that holds function signatures.
#[verifier::ext_equal]
pub struct ScopeStackView {
    pub scopes: Seq<ScopeView>,
    pub global: ScopeView,
}

/// A stack of scopes plus one global scope.
///
/// Function signatures live solely in the global scope; variables live in
/// the innermost open scope.
#[derive(Debug)]
pub struct ScopeManager {
    scopes: Vec<Scope>,
    global_scope: Scope,
}

impl View for ScopeManager {
    type V = ScopeStackView;

    closed spec fn view(&self) -> ScopeStackView {
        ScopeStackView {
            scopes: Seq::new(self.scopes@.len(), |i: int| self.scopes@[i]@),
            global: self.global_scope@,
        }
    }
}

impl ScopeManager {
    /// A manager with no open scope and an empty global scope.
    pub fn new() -> (r: Self)
        ensures
            r@.scopes.len() == 0,
            r@.global == empty_scope(),
    {
        let r = ScopeManager { scopes: Vec::new(), global_scope: Scope::new() };
        proof {
            assert(r@.scopes =~= Seq::<ScopeView>::empty());
        }
        r
    }

    /// Open a nested scope.
    pub fn enter_scope(&mut self)
        ensures
            final(self)@.scopes == old(self)@.scopes.push(empty_scope()),
            final(self)@.global == old(self)@.global,
    {
        self.scopes.push(Scope::new());
        proof {
            assert(self@.scopes =~= old(self)@.scopes.push(empty_scope()));
        }
    }

    /// Close the innermost scope; with none open this does nothing.
    pub fn leave_scope(&mut self)
        requires
            old(self)@.scopes.len() > 0,
        ensures
            final(self)@.scopes == old(self)@.scopes.drop_last(),
            final(self)@.global == old(self)@.global,
    {
        self.scopes.pop();
        proof {
            assert(self@.scopes =~= old(self)@.scopes.drop_last());
        }
    }

    /// Register a function signature in the global scope.
    pub fn declare_function_global(&mut self, name: &str, ty: &OperandType, params: &[OperandType])
        ensures
            final(self)@.global.funcs == fn_declare(old(self)@.global.funcs, name@, *ty, params@),
            final(self)@.global.vars == old(self)@.global.vars,
            final(self)@.scopes == old(self)@.scopes,
    {
        self.global_scope.functions.declare_function(name, ty, params);
        proof {
            assert(self@.scopes =~= old(self)@.scopes);
        }
    }

    /// The signature registered under a name in the global scope.
    pub fn get_function(&self, name: &str) -> (r: Option<(OperandType, Vec<OperandType>)>)
        ensures
            (r is Some) == (fn_lookup(self@.global.funcs, name@) is Some),
            r matches Some(q) ==> fn_lookup(self@.global.funcs, name@) matches Some(p) && q.0
                == p.0 && q.1@ == p.1,
    {
        self.global_scope.functions.get_function_type(name)
    }

    /// The variable table of the innermost scope, for reading.
    ///
    /// Asking with no scope open is a caller error, which the precondition
    /// rules out.
    pub fn get_variable_manager(&self) -> (r: &VariableManager)
        requires
            self@.scopes.len() > 0,
        ensures
            r@ == self@.scopes.last().vars,
    {
        &self.scopes[self.scopes.len() - 1].variables
    }

    /// Run one mutation on the innermost scope's variables: append a local.
    pub fn allocate_in_current(&mut self, var: &str, ty: &OperandType) -> (r: Option<
        (crate::variables::VariableLocation, OperandType),
    >)
        requires
            old(self)@.scopes.len() > 0,
            old(self)@.scopes.last().vars.stack + crate::util::size_bytes(
                crate::operand::type_size(*ty),
            ) <= u32::MAX,
        ensures
            final(self)@.scopes == old(self)@.scopes.update(
                old(self)@.scopes.len() - 1,
                ScopeView {
                    vars: crate::variables::table_alloc(old(self)@.scopes.last().vars, var@, *ty),
                    funcs: old(self)@.scopes.last().funcs,
                },
            ),
            final(self)@.global == old(self)@.global,
            r == Some(
                (
                    crate::variables::VariableLocation::StackOffset(
                        (old(self)@.scopes.last().vars.stack + crate::util::size_bytes(
                            crate::operand::type_size(*ty),
                        )) as u32,
                    ),
                    *ty,
                ),
            ),
    {
        let index = self.scopes.len() - 1;
        let r = self.scopes[index].variables.allocate(var, ty);
        proof {
            assert(self@.scopes =~= old(self)@.scopes.update(
                old(self)@.scopes.len() - 1,
                ScopeView {
                    vars: crate::variables::table_alloc(old(self)@.scopes.last().vars, var@, *ty),
                    funcs: old(self)@.scopes.last().funcs,
                },
            ));
        }
        r
    }

    /// Bind a parameter in the innermost scope to its argument register.
    pub fn bind_parameter_in_current(&mut self, var: &str, ty: &OperandType, i: usize)
        requires
            old(self)@.scopes.len() > 0,
            i < 6,
        ensures
            final(self)@.scopes == old(self)@.scopes.update(
                old(self)@.scopes.len() - 1,
                ScopeView {
                    vars: crate::variables::table_bind_param(
                        old(self)@.scopes.last().vars,
                        var@,
                        *ty,
                        i as int,
                    ),
                    funcs: old(self)@.scopes.last().funcs,
                },
            ),
            final(self)@.global == old(self)@.global,
    {
        let index = self.scopes.len() - 1;
        self.scopes[index].variables.allocate_parameter(var, ty, i);
        proof {
            assert(self@.scopes =~= old(self)@.scopes.update(
                old(self)@.scopes.len() - 1,
                ScopeView {
                    vars: crate::variables::table_bind_param(
                        old(self)@.scopes.last().vars,
                        var@,
                        *ty,
                        i as int,
                    ),
                    funcs: old(self)@.scopes.last().funcs,
                },
            ));
        }
    }

    /// Mark a name unreachable in the innermost scope.
    pub fn deallocate_in_current(&mut self, var: &str) -> (r: bool)
        requires
            old(self)@.scopes.len() > 0,
        ensures
            final(self)@.scopes == old(self)@.scopes.update(
                old(self)@.scopes.len() - 1,
                ScopeView {
                    vars: crate::variables::table_remove(old(self)@.scopes.last().vars, var@),
                    funcs: old(self)@.scopes.last().funcs,
                },
            ),
            final(self)@.global == old(self)@.global,
            r == (crate::variables::table_lookup(old(self)@.scopes.last().vars.bindings, var@)
                is Some),
    {
        let index = self.scopes.len() - 1;
        let r = self.scopes[index].variables.deallocate(var);
        proof {
            assert(self@.scopes =~= old(self)@.scopes.update(
                old(self)@.scopes.len() - 1,
                ScopeView {
                    vars: crate::variables::table_remove(old(self)@.scopes.last().vars, var@),
                    funcs: old(self)@.scopes.last().funcs,
                },
            ));
        }
        r
    }
}

} // verus!
