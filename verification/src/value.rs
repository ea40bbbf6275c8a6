use vstd::prelude::*;

use crate::assembly::Instruction;
use crate::compiler::{Compiler, CompilerView};
use crate::lowering::{
    arith_size, call_ret_size, estimate_size, estimate_wf, lhs_emit, lhs_token, lhs_wf,
    lookup_var, value_emit, value_size, value_token, value_wf,
};
use crate::registers::Register;
use crate::util::Size;

verus! {

/// An expression evaluated at code-generation time.
///
/// `Add`/`Sub` nest arbitrarily; the numeral of `Int` is kept as text because
/// it is copied verbatim into the assembly.
#[derive(Debug)]
pub enum Value {
    Add(Box<Value>, Box<Value>),
    Sub(Box<Value>, Box<Value>),
    Reference(String),
    Dereference(String),
    Variable(String),
    Char(char),
    Int(String),
    StringLiteral(String),
    FunctionCall(String, Vec<Value>),
    Null,
}

/// The mathematical shape of a `Value`: names become character sequences.
pub enum ValueView {
    Add(Box<ValueView>, Box<ValueView>),
    Sub(Box<ValueView>, Box<ValueView>),
    Reference(Seq<char>),
    Dereference(Seq<char>),
    Variable(Seq<char>),
    Char(char),
    Int(Seq<char>),
    StringLiteral(Seq<char>),
    FunctionCall(Seq<char>, Seq<ValueView>),
    Null,
}

/// The shape of a `Value`, with every `String` taken to its characters.
pub open spec fn value_view(v: Value) -> ValueView
    decreases v via value_view_dec
{
    match v {
        Value::Add(l, r) => ValueView::Add(Box::new(value_view(*l)), Box::new(value_view(*r))),
        Value::Sub(l, r) => ValueView::Sub(Box::new(value_view(*l)), Box::new(value_view(*r))),
        Value::Reference(n) => ValueView::Reference(n@),
        Value::Dereference(n) => ValueView::Dereference(n@),
        Value::Variable(n) => ValueView::Variable(n@),
        Value::Char(c) => ValueView::Char(c),
        Value::Int(n) => ValueView::Int(n@),
        Value::StringLiteral(s) => ValueView::StringLiteral(s@),
        Value::FunctionCall(n, args) => ValueView::FunctionCall(n@, values_view(args@)),
        Value::Null => ValueView::Null,
    }
}

/// The shapes of a list of values, in order.
pub open spec fn values_view(s: Seq<Value>) -> Seq<ValueView>
    decreases s via values_view_dec
{
    if s.len() == 0 {
        Seq::empty()
    } else {
        seq![value_view(s[0])] + values_view(s.drop_first())
    }
}

#[via_fn]
proof fn value_view_dec(v: Value) {
    if let Value::FunctionCall(n, args) = v {
        assert(decreases_to!(v => args));
        assert(decreases_to!(args => args@));
    }
}

#[via_fn]
proof fn values_view_dec(s: Seq<Value>) {
    broadcast use vstd::seq::axiom_seq_index_decreases;

    if s.len() > 0 {
        assert(decreases_to!(s => s[0]));
        vstd::seq::axiom_seq_len_decreases::<Value>(s, s.drop_first());
    }
}

/// `values_view` maps the view over the list pointwise.
pub proof fn lemma_values_view(s: Seq<Value>)
    ensures
        values_view(s).len() == s.len(),
        forall|i: int| 0 <= i < s.len() ==> values_view(s)[i] == value_view(#[trigger] s[i]),
    decreases s.len(),
{
    if s.len() > 0 {
        lemma_values_view(s.drop_first());
        assert forall|i: int| 0 <= i < s.len() implies values_view(s)[i] == value_view(
            #[trigger] s[i],
        ) by {
            if i > 0 {
                assert(values_view(s)[i] == values_view(s.drop_first())[i - 1]);
                assert(s.drop_first()[i - 1] == s[i]);
            }
        }
    }
}

/// Appending one value appends its view.
pub proof fn lemma_values_view_push(s: Seq<Value>, x: Value)
    ensures
        values_view(s.push(x)) == values_view(s).push(value_view(x)),
{
    lemma_values_view(s);
    lemma_values_view(s.push(x));
    assert forall|m: int| 0 <= m < s.len() + 1 implies values_view(s.push(x))[m] == values_view(
        s,
    ).push(value_view(x))[m] by {
        assert(values_view(s.push(x))[m] == value_view(s.push(x)[m]));
        if m < s.len() {
            assert(s.push(x)[m] == s[m]);
            assert(values_view(s)[m] == value_view(s[m]));
        } else {
            assert(s.push(x)[m] == x);
        }
    }
    assert(values_view(s.push(x)) =~= values_view(s).push(value_view(x)));
}

impl DeepView for Value {
    type V = ValueView;

    open spec fn deep_view(&self) -> ValueView {
        value_view(*self)
    }
}

/// A rendered operand: the text of a register, a frame slot, a pointer
/// operand, a numeral, a quoted character, or a symbol reference.
#[derive(Debug)]
pub enum ValueCodegen {
    Register(String),
    StackOffset(String),
    Pointer(String),
    Number(String),
    StringLikeValue(String),
    StringLiteral(String),
}

/// The mathematical shape of a rendered operand.
pub enum ValueCodegenView {
    Register(Seq<char>),
    StackOffset(Seq<char>),
    Pointer(Seq<char>),
    Number(Seq<char>),
    StringLikeValue(Seq<char>),
    StringLiteral(Seq<char>),
}

/// The raw text of a rendered operand, whatever its kind.
pub open spec fn token_text(v: ValueCodegenView) -> Seq<char> {
    match v {
        ValueCodegenView::Register(s) => s,
        ValueCodegenView::StackOffset(s) => s,
        ValueCodegenView::Pointer(s) => s,
        ValueCodegenView::Number(s) => s,
        ValueCodegenView::StringLikeValue(s) => s,
        ValueCodegenView::StringLiteral(s) => s,
    }
}

impl DeepView for ValueCodegen {
    type V = ValueCodegenView;

    open spec fn deep_view(&self) -> ValueCodegenView {
        match self {
            ValueCodegen::Register(s) => ValueCodegenView::Register(s@),
            ValueCodegen::StackOffset(s) => ValueCodegenView::StackOffset(s@),
            ValueCodegen::Pointer(s) => ValueCodegenView::Pointer(s@),
            ValueCodegen::Number(s) => ValueCodegenView::Number(s@),
            ValueCodegen::StringLikeValue(s) => ValueCodegenView::StringLikeValue(s@),
            ValueCodegen::StringLiteral(s) => ValueCodegenView::StringLiteral(s@),
        }
    }
}

impl Clone for ValueCodegen {
    fn clone(&self) -> (r: Self)
        ensures
            r.deep_view() == self.deep_view(),
    {
        match self {
            ValueCodegen::Register(s) => ValueCodegen::Register(s.clone()),
            ValueCodegen::StackOffset(s) => ValueCodegen::StackOffset(s.clone()),
            ValueCodegen::Pointer(s) => ValueCodegen::Pointer(s.clone()),
            ValueCodegen::Number(s) => ValueCodegen::Number(s.clone()),
            ValueCodegen::StringLikeValue(s) => ValueCodegen::StringLikeValue(s.clone()),
            ValueCodegen::StringLiteral(s) => ValueCodegen::StringLiteral(s.clone()),
        }
    }
}

impl ValueCodegen {
    /// Whether this operand is a numeric immediate.
    pub fn is_immediate(&self) -> (r: bool)
        ensures
            r == (self.deep_view() is Number),
    {
        matches!(self, ValueCodegen::Number(_))
    }

    /// Whether this operand is a register.
    pub fn is_register(&self) -> (r: bool)
        ensures
            r == (self.deep_view() is Register),
    {
        matches!(self, ValueCodegen::Register(_))
    }

    /// Whether this operand is a frame slot.
    pub fn is_stack(&self) -> (r: bool)
        ensures
            r == (self.deep_view() is StackOffset),
    {
        matches!(self, ValueCodegen::StackOffset(_))
    }

    /// The raw text of this operand.
    pub fn inner(&self) -> (r: String)
        ensures
            r@ == token_text(self.deep_view()),
    {
        match self {
            ValueCodegen::Register(s)
            | ValueCodegen::StackOffset(s)
            | ValueCodegen::Pointer(s)
            | ValueCodegen::Number(s)
            | ValueCodegen::StringLikeValue(s)
            | ValueCodegen::StringLiteral(s) => s.clone(),
        }
    }
}

impl Value {
    /// Whether this value is a bare variable reference.
    pub fn is_variable(&self) -> (r: bool)
        ensures
            r == (self.deep_view() is Variable),
    {
        matches!(self, Value::Variable(_))
    }
}

impl Clone for Value {
    fn clone(&self) -> (r: Self)
        ensures
            r.deep_view() == self.deep_view(),
        decreases self,
    {
        match self {
            Value::Add(l, rr) => Value::Add(Box::new((**l).clone()), Box::new((**rr).clone())),
            Value::Sub(l, rr) => Value::Sub(Box::new((**l).clone()), Box::new((**rr).clone())),
            Value::Reference(n) => Value::Reference(n.clone()),
            Value::Dereference(n) => Value::Dereference(n.clone()),
            Value::Variable(n) => Value::Variable(n.clone()),
            Value::Char(c) => Value::Char(*c),
            Value::Int(n) => Value::Int(n.clone()),
            Value::StringLiteral(s) => Value::StringLiteral(s.clone()),
            Value::FunctionCall(n, args) => {
                let mut cloned_args: Vec<Value> = Vec::new();
                let mut i: usize = 0;
                proof {
                    assert(decreases_to!(*self => *args));
                }
                while i < args.len()
                    invariant
                        i <= args.len(),
                        cloned_args.len() == i,
                        decreases_to!(*self => *args),
                        forall|j: int|
                            0 <= j < i ==> cloned_args[j].deep_view() == #[trigger] args[j].deep_view(),
                    decreases args.len() - i,
                {
                    let a: &Value = &args[i];
                    proof {
                        broadcast use vstd::std_specs::vec::axiom_vec_index_decreases;

                        assert(decreases_to!(*args => args[i as int]));
                    }
                    cloned_args.push(a.clone());
                    i += 1;
                }
                proof {
                    lemma_values_view(args@);
                    lemma_values_view(cloned_args@);
                    assert forall|j: int| 0 <= j < args@.len() implies values_view(cloned_args@)[j]
                        == values_view(args@)[j] by {
                        assert(cloned_args[j].deep_view() == args[j].deep_view());
                    }
                    assert(values_view(cloned_args@) =~= values_view(args@));
                }
                Value::FunctionCall(n.clone(), cloned_args)
            },
            Value::Null => Value::Null,
        }
    }
}

/// The width imposed on a lowering, if any.
pub open spec fn opt_size(o: Option<&Size>) -> Option<Size> {
    match o {
        Some(s) => Some(*s),
        None => None,
    }
}

impl Value {
    /// The size this value is known to have, if any: named variables use
    /// their declared width (a dereference its pointee's), calls their
    /// return width; literals have none.
    fn estimate_size(&self, compiler: &mut Compiler) -> (r: Option<Size>)
        requires
            estimate_wf(self.deep_view(), old(compiler)@.scopes),
        ensures
            final(compiler)@ == old(compiler)@,
            r == estimate_size(
                self.deep_view(),
                old(compiler)@.scopes,
                old(compiler)@.global.funcs,
            ),
        decreases *self,
    {
        match self {
            Value::Add(l, r) | Value::Sub(l, r) => {
                let left = l.estimate_size(compiler);
                if left.is_some() {
                    left
                } else {
                    r.estimate_size(compiler)
                }
            },
            Value::Reference(n) | Value::Variable(n) => {
                match compiler.lookup_variable(n.as_str()) {
                    Some(p) => Some(p.1.size()),
                    None => None,
                }
            },
            Value::Dereference(n) => {
                match compiler.lookup_variable(n.as_str()) {
                    Some(p) => match p.1.deref_size() {
                        Some(ds) => Some(ds),
                        None => Some(p.1.size()),
                    },
                    None => None,
                }
            },
            Value::FunctionCall(name, _) => {
                match compiler.get_function(name.as_str()) {
                    Some(p) => Some(p.0.size()),
                    None => None,
                }
            },
            Value::Null | Value::Char(_) | Value::Int(_) | Value::StringLiteral(_) => None,
        }
    }

    /// The width this value is lowered at when none is imposed: its size
    /// estimate, or a double word.
    pub fn size(&self, compiler: &mut Compiler) -> (r: Size)
        requires
            estimate_wf(self.deep_view(), old(compiler)@.scopes),
        ensures
            final(compiler)@ == old(compiler)@,
            r == value_size(self.deep_view(), old(compiler)@.scopes, old(compiler)@.global.funcs),
    {
        match self.estimate_size(compiler) {
            Some(s) => s,
            None => Size::DoubleWord,
        }
    }

    /// Lower this value as the destination of an assignment: only a named
    /// variable or a dereference of a pointer variable is addressable.  A
    /// dereference loads the pointer into the scratch register first.
    pub fn codegen_lhs(&self, compiler: &mut Compiler) -> (r: ValueCodegen)
        requires
            lhs_wf(self.deep_view(), old(compiler)@.scopes),
        ensures
            final(compiler)@ == (CompilerView {
                insts: old(compiler)@.insts + lhs_emit(self.deep_view(), old(compiler)@.scopes),
                ..old(compiler)@
            }),
            r.deep_view() == lhs_token(self.deep_view(), old(compiler)@.scopes),
    {
        match self {
            Value::Variable(name) => {
                let variable = match compiler.lookup_variable(name.as_str()) {
                    Some(v) => v,
                    None => vstd::pervasive::unreached(),
                };
                let r = variable.0.as_gen(&variable.1.size());
                proof {
                    assert(compiler@.insts =~= old(compiler)@.insts + lhs_emit(
                        self.deep_view(),
                        old(compiler)@.scopes,
                    ));
                }
                r
            },
            Value::Dereference(name) => {
                let variable = match compiler.lookup_variable(name.as_str()) {
                    Some(v) => v,
                    None => vstd::pervasive::unreached(),
                };
                compiler.new_instruction(
                    Instruction::Move(Register::AX.as_gen(&Size::QuadWord), variable.0.as_ptr()),
                );
                let deref_size = match variable.1.deref_size() {
                    Some(ds) => ds,
                    None => vstd::pervasive::unreached(),
                };
                let r = Register::AX.as_deref(&deref_size);
                proof {
                    assert(compiler@.insts =~= old(compiler)@.insts + lhs_emit(
                        self.deep_view(),
                        old(compiler)@.scopes,
                    ));
                }
                r
            },
            _ => vstd::pervasive::unreached(),
        }
    }
}

impl Value {
    /// Lower this value at an imposed width, or at its own.
    fn m_codegen(&self, compiler: &mut Compiler, size: Option<&Size>) -> (r: ValueCodegen)
        requires
            value_wf(
                self.deep_view(),
                old(compiler)@.scopes,
                old(compiler)@.global.funcs,
                opt_size(size),
            ),
        ensures
            final(compiler)@ == (CompilerView {
                insts: old(compiler)@.insts + value_emit(
                    self.deep_view(),
                    old(compiler)@.scopes,
                    old(compiler)@.global.funcs,
                    opt_size(size),
                ),
                ..old(compiler)@
            }),
            r.deep_view() == value_token(
                self.deep_view(),
                old(compiler)@.scopes,
                old(compiler)@.global.funcs,
                opt_size(size),
            ),
        decreases *self, 1int, 0int,
    {
        match self {
            Value::Char(c) => {
                let mut quoted = "'".to_owned();
                crate::util::push_char(&mut quoted, *c);
                quoted.append("'");
                let r = ValueCodegen::StringLikeValue(quoted);
                proof {
                    reveal_strlit("'");
                    assert("'"@ =~= seq!['\'']);
                    assert(quoted@ =~= seq!['\''] + seq![*c] + seq!['\'']);
                    assert(compiler@.insts =~= old(compiler)@.insts + Seq::<
                        crate::assembly::InstructionView,
                    >::empty());
                }
                r
            },
            Value::Reference(name) => {
                let variable = match compiler.lookup_variable(name.as_str()) {
                    Some(v) => v,
                    None => vstd::pervasive::unreached(),
                };
                compiler.new_instruction(
                    Instruction::LoadAddress(
                        Register::AX.as_gen(&Size::QuadWord),
                        variable.0.as_gen(&variable.1.size()),
                    ),
                );
                let r = Register::AX.as_gen(&Size::QuadWord);
                proof {
                    assert(compiler@.insts =~= old(compiler)@.insts + value_emit(
                        self.deep_view(),
                        old(compiler)@.scopes,
                        old(compiler)@.global.funcs,
                        opt_size(size),
                    ));
                }
                r
            },
            Value::Dereference(name) => {
                let variable = match compiler.lookup_variable(name.as_str()) {
                    Some(v) => v,
                    None => vstd::pervasive::unreached(),
                };
                compiler.new_instruction(
                    Instruction::Move(Register::AX.as_gen(&Size::QuadWord), variable.0.as_ptr()),
                );
                let deref_size = match variable.1.deref_size() {
                    Some(ds) => ds,
                    None => vstd::pervasive::unreached(),
                };
                compiler.new_instruction(
                    Instruction::Move(
                        Register::AX.as_gen(&deref_size),
                        Register::AX.as_deref(&deref_size),
                    ),
                );
                let r = Register::AX.as_gen(&deref_size);
                proof {
                    assert(compiler@.insts =~= old(compiler)@.insts + value_emit(
                        self.deep_view(),
                        old(compiler)@.scopes,
                        old(compiler)@.global.funcs,
                        opt_size(size),
                    ));
                }
                r
            },
            Value::Variable(name) => {
                let variable = match compiler.lookup_variable(name.as_str()) {
                    Some(v) => v,
                    None => vstd::pervasive::unreached(),
                };
                let r = variable.0.as_gen(&variable.1.size());
                proof {
                    assert(compiler@.insts =~= old(compiler)@.insts + Seq::<
                        crate::assembly::InstructionView,
                    >::empty());
                }
                r
            },
            Value::Int(num) => {
                let r = ValueCodegen::Number(num.clone());
                proof {
                    assert(compiler@.insts =~= old(compiler)@.insts + Seq::<
                        crate::assembly::InstructionView,
                    >::empty());
                }
                r
            },
            Value::StringLiteral(literal) => {
                let r = ValueCodegen::StringLiteral(literal.clone());
                proof {
                    assert(compiler@.insts =~= old(compiler)@.insts + Seq::<
                        crate::assembly::InstructionView,
                    >::empty());
                }
                r
            },
            Value::FunctionCall(name, parameters) => {
                proof {
                    assert(decreases_to!(*self => *parameters));
                    assert(decreases_to!(*parameters => parameters@));
                }
                let width = crate::operand::functions::function_call(
                    name.as_str(),
                    parameters.as_slice(),
                    compiler,
                );
                ValueCodegen::Register(Register::AX.as_size(&width))
            },
            Value::Add(lhs, rhs) => {
                let op_width: Size = match size {
                    Some(s) => *s,
                    None => self.size(compiler),
                };
                let lhs_tok = lhs.m_codegen(compiler, Some(&op_width));
                let rhs_tok = rhs.m_codegen(compiler, Some(&op_width));
                let dst = Register::AX.as_gen(&op_width);
                compiler.new_instruction(Instruction::Move(dst.clone(), lhs_tok));
                compiler.new_instruction(Instruction::Add(dst.clone(), rhs_tok));
                proof {
                    assert(compiler@.insts =~= old(compiler)@.insts + value_emit(
                        self.deep_view(),
                        old(compiler)@.scopes,
                        old(compiler)@.global.funcs,
                        opt_size(size),
                    ));
                }
                dst
            },
            Value::Sub(lhs, rhs) => {
                let op_width: Size = match size {
                    Some(s) => *s,
                    None => self.size(compiler),
                };
                let lhs_tok = lhs.m_codegen(compiler, Some(&op_width));
                let rhs_tok = rhs.m_codegen(compiler, Some(&op_width));
                let dst = Register::AX.as_gen(&op_width);
                compiler.new_instruction(Instruction::Move(dst.clone(), lhs_tok));
                compiler.new_instruction(Instruction::Sub(dst.clone(), rhs_tok));
                proof {
                    assert(compiler@.insts =~= old(compiler)@.insts + value_emit(
                        self.deep_view(),
                        old(compiler)@.scopes,
                        old(compiler)@.global.funcs,
                        opt_size(size),
                    ));
                }
                dst
            },
            Value::Null => vstd::pervasive::unreached(),
        }
    }

    /// Lower this value at its own width.
    pub fn codegen(&self, compiler: &mut Compiler) -> (r: ValueCodegen)
        requires
            value_wf(
                self.deep_view(),
                old(compiler)@.scopes,
                old(compiler)@.global.funcs,
                None,
            ),
        ensures
            final(compiler)@ == (CompilerView {
                insts: old(compiler)@.insts + value_emit(
                    self.deep_view(),
                    old(compiler)@.scopes,
                    old(compiler)@.global.funcs,
                    None,
                ),
                ..old(compiler)@
            }),
            r.deep_view() == value_token(
                self.deep_view(),
                old(compiler)@.scopes,
                old(compiler)@.global.funcs,
                None,
            ),
        decreases *self, 2int, 0int,
    {
        self.m_codegen(compiler, None)
    }

    /// Lower this value at an imposed width.
    pub fn codegen_size(&self, compiler: &mut Compiler, size: &Size) -> (r: ValueCodegen)
        requires
            value_wf(
                self.deep_view(),
                old(compiler)@.scopes,
                old(compiler)@.global.funcs,
                Some(*size),
            ),
        ensures
            final(compiler)@ == (CompilerView {
                insts: old(compiler)@.insts + value_emit(
                    self.deep_view(),
                    old(compiler)@.scopes,
                    old(compiler)@.global.funcs,
                    Some(*size),
                ),
                ..old(compiler)@
            }),
            r.deep_view() == value_token(
                self.deep_view(),
                old(compiler)@.scopes,
                old(compiler)@.global.funcs,
                Some(*size),
            ),
        decreases *self, 2int, 0int,
    {
        self.m_codegen(compiler, Some(size))
    }
}

} // verus!
