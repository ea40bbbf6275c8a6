use vstd::prelude::*;

use crate::operand::{type_size, OperandType};
use crate::registers::{reg_ptr_token, reg_token, Register};
use crate::render::{dec_str, u32_string};
use crate::util::{size_bytes, size_name, str_eq, Size};
use crate::value::{ValueCodegen, ValueCodegenView};

verus! {

/// Where a named variable lives: a register (parameters) or a byte offset
/// below the frame pointer (locals).
#[derive(Debug, Clone, Copy, PartialEq, Eq, Structural)]
pub enum VariableLocation {
    Register(Register),
    StackOffset(u32),
}

/// The operand token of a location at a given width.
pub open spec fn location_token(loc: VariableLocation, s: Size) -> ValueCodegenView {
    match loc {
        VariableLocation::Register(r) => reg_token(r, s),
        VariableLocation::StackOffset(n) => ValueCodegenView::StackOffset(
            size_name(s) + " [rbp-"@ + dec_str(n as nat) + "]"@,
        ),
    }
}

/// The `QWORD`-wide pointer operand token of a location.
pub open spec fn location_ptr_token(loc: VariableLocation) -> ValueCodegenView {
    match loc {
        VariableLocation::Register(r) => reg_ptr_token(r),
        VariableLocation::StackOffset(n) => ValueCodegenView::Pointer(
            "QWORD [rbp-"@ + dec_str(n as nat) + "]"@,
        ),
    }
}

impl VariableLocation {
    /// The register of a register location.
    pub fn as_reg(&self) -> (r: Option<Register>)
        ensures
            r == match *self {
                VariableLocation::Register(reg) => Some(reg),
                VariableLocation::StackOffset(_) => None::<Register>,
            },
    {
        match self {
            VariableLocation::Register(reg) => Some(*reg),
            _ => None,
        }
    }

    /// Whether this location is a frame slot.
    pub fn is_stack(&self) -> (r: bool)
        ensures
            r == (*self is StackOffset),
    {
        matches!(self, VariableLocation::StackOffset(_))
    }

    /// The operand token of this location at the given width.
    pub fn as_gen(&self, size: &Size) -> (r: ValueCodegen)
        requires
            *self is Register ==> *size != Size::Byte,
        ensures
            r.deep_view() == location_token(*self, *size),
    {
        match self {
            VariableLocation::Register(register) => register.as_gen(size),
            VariableLocation::StackOffset(stack) => ValueCodegen::StackOffset(
                size.name().concat(" [rbp-").concat(u32_string(*stack).as_str()).concat("]"),
            ),
        }
    }

    /// The pointer operand token of this location.
    pub fn as_ptr(&self) -> (r: ValueCodegen)
        ensures
            r.deep_view() == location_ptr_token(*self),
    {
        match self {
            VariableLocation::Register(register) => register.as_ptr(),
            VariableLocation::StackOffset(stack) => ValueCodegen::Pointer(
                "QWORD [rbp-".to_owned().concat(u32_string(*stack).as_str()).concat("]"),
            ),
        }
    }
}

/// The fixed argument-register order of the calling convention.
pub open spec fn param_reg(i: int) -> Register {
    if i == 0 {
        Register::DI
    } else if i == 1 {
        Register::SI
    } else if i == 2 {
        Register::DX
    } else if i == 3 {
        Register::CX
    } else if i == 4 {
        Register::R8
    } else {
        Register::R9
    }
}

/// The register that carries the `i`-th call argument.
pub fn parameter_register(i: usize) -> (r: Register)
    requires
        i < 6,
    ensures
        r == param_reg(i as int),
{
    match i {
        0 => Register::DI,
        1 => Register::SI,
        2 => Register::DX,
        3 => Register::CX,
        4 => Register::R8,
        _ => Register::R9,
    }
}

/// One binding of the variable table: a name, where it lives, its type.
#[verifier::ext_equal]
pub struct VarBinding {
    pub name: Seq<char>,
    pub location: VariableLocation,
    pub ty: OperandType,
}

/// The mathematical shape of a variable table: the bindings in the order
/// they were made, and the bytes of frame taken so far.
#[verifier::ext_equal]
pub struct VarTableView {
    pub bindings: Seq<VarBinding>,
    pub stack: nat,
}

/// Look a name up among bindings; the latest binding of a name wins.
pub open spec fn table_lookup(bindings: Seq<VarBinding>, name: Seq<char>) -> Option<
    (VariableLocation, OperandType),
>
    decreases bindings.len(),
{
    if bindings.len() == 0 {
        None
    } else if bindings.last().name == name {
        Some((bindings.last().location, bindings.last().ty))
    } else {
        table_lookup(bindings.drop_last(), name)
    }
}

/// The table after a local is appended to the frame.
pub open spec fn table_alloc(t: VarTableView, name: Seq<char>, ty: OperandType) -> VarTableView {
    let stack = t.stack + size_bytes(type_size(ty));
    VarTableView {
        bindings: t.bindings.push(
            VarBinding {
                name,
                location: VariableLocation::StackOffset(stack as u32),
                ty,
            },
        ),
        stack,
    }
}

/// The table after a parameter is bound to its argument register.
pub open spec fn table_bind_param(
    t: VarTableView,
    name: Seq<char>,
    ty: OperandType,
    i: int,
) -> VarTableView {
    VarTableView {
        bindings: t.bindings.push(
            VarBinding { name, location: VariableLocation::Register(param_reg(i)), ty },
        ),
        stack: t.stack,
    }
}

/// The bindings that survive when a name is removed, in their old order.
pub open spec fn bindings_remove(bindings: Seq<VarBinding>, name: Seq<char>) -> Seq<VarBinding>
    decreases bindings.len(),
{
    if bindings.len() == 0 {
        Seq::empty()
    } else if bindings.first().name == name {
        bindings_remove(bindings.drop_first(), name)
    } else {
        seq![bindings.first()] + bindings_remove(bindings.drop_first(), name)
    }
}

/// The table after a name is made unreachable; the frame bytes stay taken.
pub open spec fn table_remove(t: VarTableView, name: Seq<char>) -> VarTableView {
    VarTableView { bindings: bindings_remove(t.bindings, name), stack: t.stack }
}

/// The name-to-location table of one scope.
///
/// Locals are appended to the frame and never reclaimed (a bump allocator);
/// parameters live in their argument registers.
#[derive(Debug)]
pub struct VariableManager {
    variables: Vec<(String, VariableLocation, OperandType)>,
    stack_location: u32,
}

impl View for VariableManager {
    type V = VarTableView;

    closed spec fn view(&self) -> VarTableView {
        VarTableView {
            bindings: Seq::new(
                self.variables@.len(),
                |i: int| VarBinding {
                    name: self.variables@[i].0@,
                    location: self.variables@[i].1,
                    ty: self.variables@[i].2,
                },
            ),
            stack: self.stack_location as nat,
        }
    }
}

impl VariableManager {
    /// The bytes of frame this scope has taken so far; the prologue's
    /// `sub rsp, n` is patched with this.
    pub fn used_stack(&self) -> (r: u32)
        ensures
            r as nat == self@.stack,
    {
        self.stack_location
    }

    /// An empty table with an untouched frame.
    pub fn new() -> (r: Self)
        ensures
            r@.bindings.len() == 0,
            r@.stack == 0,
    {
        Self { variables: Vec::new(), stack_location: 0 }
    }

    /// Mark a name unreachable.  Returns whether the name was bound; its
    /// frame bytes are not reclaimed.
    pub fn deallocate(&mut self, var: &str) -> (r: bool)
        ensures
            final(self)@ == table_remove(old(self)@, var@),
            r == (table_lookup(old(self)@.bindings, var@) is Some),
    {
        let ghost old_view = self@;
        let mut kept: Vec<(String, VariableLocation, OperandType)> = Vec::new();
        let mut found = false;
        let mut i: usize = 0;
        proof {
            assert(old_view.bindings.skip(0) =~= old_view.bindings);
        }
        while i < self.variables.len()
            invariant
                i <= self.variables@.len(),
                self@ == old_view,
                found == exists|j: int| 0 <= j < i && #[trigger] old_view.bindings[j].name == var@,
                Seq::new(
                    kept@.len(),
                    |k: int| VarBinding {
                        name: kept@[k].0@,
                        location: kept@[k].1,
                        ty: kept@[k].2,
                    },
                ) + bindings_remove(old_view.bindings.skip(i as int), var@) =~= bindings_remove(
                    old_view.bindings,
                    var@,
                ),
            decreases self.variables@.len() - i,
        {
            let ghost rest = old_view.bindings.skip(i as int);
            proof {
                assert(rest.first() == old_view.bindings[i as int]);
                assert(rest.drop_first() =~= old_view.bindings.skip(i + 1));
            }
            let e = &self.variables[i];
            let ghost kept_pre = Seq::new(
                kept@.len(),
                |k: int| VarBinding { name: kept@[k].0@, location: kept@[k].1, ty: kept@[k].2 },
            );
            if str_eq(e.0.as_str(), var) {
                found = true;
                proof {
                    assert(bindings_remove(rest, var@) == bindings_remove(rest.drop_first(), var@));
                }
            } else {
                let item = (e.0.clone(), e.1, e.2.clone());
                kept.push(item);
                proof {
                    assert(bindings_remove(rest, var@) == seq![rest.first()] + bindings_remove(
                        rest.drop_first(),
                        var@,
                    ));
                    assert(Seq::new(
                        kept@.len(),
                        |k: int| VarBinding {
                            name: kept@[k].0@,
                            location: kept@[k].1,
                            ty: kept@[k].2,
                        },
                    ) =~= kept_pre.push(rest.first()));
                    assert(kept_pre.push(rest.first()) + bindings_remove(rest.drop_first(), var@)
                        =~= kept_pre + (seq![rest.first()] + bindings_remove(
                        rest.drop_first(),
                        var@,
                    )));
                }
            }
            i += 1;
        }
        proof {
            assert(old_view.bindings.skip(self.variables@.len() as int)
                =~= Seq::<VarBinding>::empty());
            assert(Seq::new(
                kept@.len(),
                |k: int| VarBinding { name: kept@[k].0@, location: kept@[k].1, ty: kept@[k].2 },
            ) + bindings_remove(old_view.bindings.skip(self.variables@.len() as int), var@)
                =~= Seq::new(
                kept@.len(),
                |k: int| VarBinding { name: kept@[k].0@, location: kept@[k].1, ty: kept@[k].2 },
            ));
            lemma_lookup_found(old_view.bindings, var@);
        }
        self.variables = kept;
        found
    }

    /// Append a local to the frame: the frame grows by the type's width and
    /// the name is bound to the new slot.
    pub fn allocate(&mut self, var: &str, ty: &OperandType) -> (r: Option<
        (VariableLocation, OperandType),
    >)
        requires
            old(self)@.stack + size_bytes(type_size(*ty)) <= u32::MAX,
        ensures
            final(self)@ == table_alloc(old(self)@, var@, *ty),
            r == Some(
                (
                    VariableLocation::StackOffset(
                        (old(self)@.stack + size_bytes(type_size(*ty))) as u32,
                    ),
                    *ty,
                ),
            ),
    {
        let size = ty.size().get_bytes();
        self.stack_location = self.stack_location + size as u32;
        let location = VariableLocation::StackOffset(self.stack_location);
        self.variables.push((var.to_owned(), location, ty.clone()));
        proof {
            assert(self@.bindings =~= table_alloc(old(self)@, var@, *ty).bindings);
        }
        Some((location, ty.clone()))
    }

    /// Bind a parameter name to the `i`-th argument register; the frame is
    /// not touched.
    pub fn allocate_parameter(&mut self, var: &str, ty: &OperandType, i: usize)
        requires
            i < 6,
        ensures
            final(self)@ == table_bind_param(old(self)@, var@, *ty, i as int),
    {
        let location = VariableLocation::Register(parameter_register(i));
        self.variables.push((var.to_owned(), location, ty.clone()));
        proof {
            assert(self@.bindings =~= table_bind_param(old(self)@, var@, *ty, i as int).bindings);
        }
    }

    /// Look a name up; the latest binding wins.
    pub fn get(&self, var: &str) -> (r: Option<(VariableLocation, OperandType)>)
        ensures
            r == table_lookup(self@.bindings, var@),
    {
        let mut i: usize = self.variables.len();
        proof {
            assert(self@.bindings.take(i as int) =~= self@.bindings);
        }
        while i > 0
            invariant
                i <= self.variables@.len(),
                table_lookup(self@.bindings, var@) == table_lookup(
                    self@.bindings.take(i as int),
                    var@,
                ),
            decreases i,
        {
            i = i - 1;
            let e = &self.variables[i];
            if str_eq(e.0.as_str(), var) {
                proof {
                    assert(self@.bindings.take(i + 1).last() == self@.bindings[i as int]);
                }
                return Some((e.1, e.2.clone()));
            }
            proof {
                assert(self@.bindings.take(i + 1).drop_last() =~= self@.bindings.take(i as int));
            }
        }
        proof {
            assert(self@.bindings.take(0) =~= Seq::<VarBinding>::empty());
        }
        None
    }

    /// Look a name up, allocating it as a fresh local when it is missing.
    pub fn get_or_allocate(&mut self, var: &str, ty: &OperandType) -> (r: Option<
        (VariableLocation, OperandType),
    >)
        requires
            old(self)@.stack + size_bytes(type_size(*ty)) <= u32::MAX,
        ensures
            final(self)@ == match table_lookup(old(self)@.bindings, var@) {
                Some(_) => old(self)@,
                None => table_alloc(old(self)@, var@, *ty),
            },
            r == match table_lookup(old(self)@.bindings, var@) {
                Some(found) => Some(found),
                None => Some(
                    (
                        VariableLocation::StackOffset(
                            (old(self)@.stack + size_bytes(type_size(*ty))) as u32,
                        ),
                        *ty,
                    ),
                ),
            },
    {
        let existing = self.get(var);
        if existing.is_some() {
            return existing;
        }
        self.allocate(var, ty)
    }
}

/// A lookup succeeds exactly when some binding carries the name.
pub proof fn lemma_lookup_found(bindings: Seq<VarBinding>, name: Seq<char>)
    ensures
        (table_lookup(bindings, name) is Some) == exists|j: int|
            0 <= j < bindings.len() && #[trigger] bindings[j].name == name,
    decreases bindings.len(),
{
    if bindings.len() > 0 {
        lemma_lookup_found(bindings.drop_last(), name);
        if bindings.last().name == name {
        } else {
            assert forall|j: int|
                0 <= j < bindings.len() && #[trigger] bindings[j].name == name implies 0 <= j
                < bindings.len() - 1 by {}
            assert(forall|j: int|
                0 <= j < bindings.len() - 1 ==> bindings.drop_last()[j] == #[trigger] bindings[j]);
        }
    }
}

} // verus!
