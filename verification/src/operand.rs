use vstd::prelude::*;

use crate::assembly::Instruction;
use crate::compiler::{emit_of, with_emit, Compiler};
use crate::lowering::{op_step, op_wf};
use crate::operand::compare::{ComparePredicate, PredicateView};
use crate::util::Size;
use crate::value::{value_view, values_view, Value, ValueView};

pub mod compare;
pub mod functions;
pub mod variables;

verus! {

/// The static type of an IR value.
#[derive(Debug, PartialEq, Eq)]
pub enum OperandType {
    Undefined,
    Int(Size),
    UInt(Size),
    Char,
    Pointer(Box<OperandType>),
}

/// The width a value of a type occupies: pointers are machine words,
/// `Char` and `Undefined` are single bytes.
pub open spec fn type_size(t: OperandType) -> Size {
    match t {
        OperandType::Undefined | OperandType::Char => Size::Byte,
        OperandType::Int(size) | OperandType::UInt(size) => size,
        OperandType::Pointer(_) => Size::QuadWord,
    }
}

/// The width of the pointee of a pointer type; no other type dereferences.
pub open spec fn type_deref_size(t: OperandType) -> Option<Size> {
    match t {
        OperandType::Pointer(inner) => Some(type_size(*inner)),
        _ => None,
    }
}

impl OperandType {
    /// The width used to allocate a value of this type and to pick
    /// a `mov` operand size.
    pub fn size(&self) -> (r: Size)
        ensures
            r == type_size(*self),
    {
        match self {
            OperandType::Undefined | OperandType::Char => Size::Byte,
            OperandType::Int(size) | OperandType::UInt(size) => *size,
            OperandType::Pointer(_) => Size::QuadWord,
        }
    }

    /// The width of the value behind a pointer of this type.
    pub fn deref_size(&self) -> (r: Option<Size>)
        ensures
            r == type_deref_size(*self),
    {
        match self {
            OperandType::Pointer(inner) => Some(inner.size()),
            _ => None,
        }
    }
}

impl Clone for OperandType {
    fn clone(&self) -> (r: Self)
        ensures
            r == *self,
        decreases self,
    {
        match self {
            OperandType::Undefined => OperandType::Undefined,
            OperandType::Int(size) => OperandType::Int(*size),
            OperandType::UInt(size) => OperandType::UInt(*size),
            OperandType::Char => OperandType::Char,
            OperandType::Pointer(inner) => OperandType::Pointer(Box::new((**inner).clone())),
        }
    }
}

/// An IR statement.
///
/// `Add` and `Subtract` are accepted by the data model but emit nothing;
/// arithmetic is expressed with `Value::Add`/`Value::Sub` inside a
/// declaration, assignment or return.
#[derive(Debug)]
pub enum Operand {
    DeclareVariable(OperandType, String, Value),
    FunctionDecl(OperandType, String, Vec<Operand>, Vec<(String, OperandType)>),
    Add(OperandType, Value, Value),
    Subtract(OperandType, Value, Value),
    SetValue(Value, Value),
    DropVariable(String),
    FunctionCall(String, Vec<Value>),
    If { predicate: ComparePredicate, main_body: Vec<Operand> },
    Return(Value),
    InlineAssembly(String),
}

/// The mathematical shape of an IR statement.
pub enum OperandView {
    DeclareVariable(OperandType, Seq<char>, ValueView),
    FunctionDecl(OperandType, Seq<char>, Seq<OperandView>, Seq<(Seq<char>, OperandType)>),
    Add(OperandType, ValueView, ValueView),
    Subtract(OperandType, ValueView, ValueView),
    SetValue(ValueView, ValueView),
    DropVariable(Seq<char>),
    FunctionCall(Seq<char>, Seq<ValueView>),
    If { predicate: PredicateView, main_body: Seq<OperandView> },
    Return(ValueView),
    InlineAssembly(Seq<char>),
}

/// The shape of a parameter list: each name with its type.
pub open spec fn params_view(params: Seq<(String, OperandType)>) -> Seq<(Seq<char>, OperandType)> {
    Seq::new(params.len(), |i: int| (params[i].0@, params[i].1))
}

/// The shape of an IR statement, with every `String` taken to its characters.
pub open spec fn operand_view(op: Operand) -> OperandView
    decreases op via operand_view_dec
{
    match op {
        Operand::DeclareVariable(ty, name, value) => OperandView::DeclareVariable(
            ty,
            name@,
            value_view(value),
        ),
        Operand::FunctionDecl(ty, name, body, params) => OperandView::FunctionDecl(
            ty,
            name@,
            operands_view(body@),
            params_view(params@),
        ),
        Operand::Add(ty, lhs, rhs) => OperandView::Add(ty, value_view(lhs), value_view(rhs)),
        Operand::Subtract(ty, lhs, rhs) => OperandView::Subtract(
            ty,
            value_view(lhs),
            value_view(rhs),
        ),
        Operand::SetValue(lhs, rhs) => OperandView::SetValue(value_view(lhs), value_view(rhs)),
        Operand::DropVariable(name) => OperandView::DropVariable(name@),
        Operand::FunctionCall(name, args) => OperandView::FunctionCall(name@, values_view(args@)),
        Operand::If { predicate, main_body } => OperandView::If {
            predicate: PredicateView {
                operation: predicate.operation,
                lhs: value_view(predicate.lhs),
                rhs: value_view(predicate.rhs),
            },
            main_body: operands_view(main_body@),
        },
        Operand::Return(value) => OperandView::Return(value_view(value)),
        Operand::InlineAssembly(text) => OperandView::InlineAssembly(text@),
    }
}

/// The shapes of a list of statements, in order.
pub open spec fn operands_view(s: Seq<Operand>) -> Seq<OperandView>
    decreases s via operands_view_dec
{
    if s.len() == 0 {
        Seq::empty()
    } else {
        seq![operand_view(s[0])] + operands_view(s.drop_first())
    }
}

#[via_fn]
proof fn operand_view_dec(op: Operand) {
    if let Operand::FunctionDecl(ty, name, body, params) = op {
        assert(decreases_to!(op => body));
        assert(decreases_to!(body => body@));
    }
    if let Operand::If { predicate, main_body } = op {
        assert(decreases_to!(op => main_body));
        assert(decreases_to!(main_body => main_body@));
    }
}

#[via_fn]
proof fn operands_view_dec(s: Seq<Operand>) {
    broadcast use vstd::seq::axiom_seq_index_decreases;

    if s.len() > 0 {
        assert(decreases_to!(s => s[0]));
        vstd::seq::axiom_seq_len_decreases::<Operand>(s, s.drop_first());
    }
}

/// `operands_view` maps the view over the list pointwise.
pub proof fn lemma_operands_view(s: Seq<Operand>)
    ensures
        operands_view(s).len() == s.len(),
        forall|i: int| 0 <= i < s.len() ==> operands_view(s)[i] == operand_view(#[trigger] s[i]),
    decreases s.len(),
{
    if s.len() > 0 {
        lemma_operands_view(s.drop_first());
        assert forall|i: int| 0 <= i < s.len() implies operands_view(s)[i] == operand_view(
            #[trigger] s[i],
        ) by {
            if i > 0 {
                assert(operands_view(s)[i] == operands_view(s.drop_first())[i - 1]);
                assert(s.drop_first()[i - 1] == s[i]);
            }
        }
    }
}

/// Appending one statement appends its view.
pub proof fn lemma_operands_view_push(s: Seq<Operand>, x: Operand)
    ensures
        operands_view(s.push(x)) == operands_view(s).push(operand_view(x)),
{
    lemma_operands_view(s);
    lemma_operands_view(s.push(x));
    assert forall|m: int| 0 <= m < s.len() + 1 implies operands_view(s.push(x))[m]
        == operands_view(s).push(operand_view(x))[m] by {
        assert(operands_view(s.push(x))[m] == operand_view(s.push(x)[m]));
        if m < s.len() {
            assert(s.push(x)[m] == s[m]);
            assert(operands_view(s)[m] == operand_view(s[m]));
        } else {
            assert(s.push(x)[m] == x);
        }
    }
    assert(operands_view(s.push(x)) =~= operands_view(s).push(operand_view(x)));
}

impl DeepView for Operand {
    type V = OperandView;

    open spec fn deep_view(&self) -> OperandView {
        operand_view(*self)
    }
}

impl Clone for Operand {
    fn clone(&self) -> (r: Self)
        ensures
            r.deep_view() == self.deep_view(),
        decreases *self,
    {
        match self {
            Operand::DeclareVariable(ty, name, value) => Operand::DeclareVariable(
                ty.clone(),
                name.clone(),
                value.clone(),
            ),
            Operand::FunctionDecl(ty, name, body, params) => {
                let mut cloned_body: Vec<Operand> = Vec::new();
                let mut i: usize = 0;
                proof {
                    assert(decreases_to!(*self => *body));
                }
                while i < body.len()
                    invariant
                        i <= body.len(),
                        cloned_body.len() == i,
                        decreases_to!(*self => *body),
                        forall|j: int|
                            0 <= j < i ==> cloned_body[j].deep_view() == #[trigger] body[j].deep_view(),
                    decreases body.len() - i,
                {
                    proof {
                        broadcast use vstd::std_specs::vec::axiom_vec_index_decreases;

                        assert(decreases_to!(*body => body[i as int]));
                    }
                    let e = body[i].clone();
                    cloned_body.push(e);
                    i += 1;
                }
                let mut cloned_params: Vec<(String, OperandType)> = Vec::new();
                let mut k: usize = 0;
                while k < params.len()
                    invariant
                        k <= params.len(),
                        cloned_params.len() == k,
                        forall|j: int|
                            0 <= j < k ==> cloned_params[j].0@ == #[trigger] params[j].0@
                                && cloned_params[j].1 == params[j].1,
                    decreases params.len() - k,
                {
                    let p = &params[k];
                    cloned_params.push((p.0.clone(), p.1.clone()));
                    k += 1;
                }
                proof {
                    lemma_operands_view(body@);
                    lemma_operands_view(cloned_body@);
                    assert forall|j: int| 0 <= j < body@.len() implies operands_view(cloned_body@)[j]
                        == operands_view(body@)[j] by {
                        assert(cloned_body[j].deep_view() == body[j].deep_view());
                    }
                    assert(operands_view(cloned_body@) =~= operands_view(body@));
                    assert(params_view(cloned_params@) =~= params_view(params@));
                }
                Operand::FunctionDecl(ty.clone(), name.clone(), cloned_body, cloned_params)
            },
            Operand::Add(ty, lhs, rhs) => Operand::Add(ty.clone(), lhs.clone(), rhs.clone()),
            Operand::Subtract(ty, lhs, rhs) => Operand::Subtract(
                ty.clone(),
                lhs.clone(),
                rhs.clone(),
            ),
            Operand::SetValue(lhs, rhs) => Operand::SetValue(lhs.clone(), rhs.clone()),
            Operand::DropVariable(name) => Operand::DropVariable(name.clone()),
            Operand::FunctionCall(name, args) => {
                let mut cloned_args: Vec<Value> = Vec::new();
                let mut i: usize = 0;
                while i < args.len()
                    invariant
                        i <= args.len(),
                        cloned_args.len() == i,
                        forall|j: int|
                            0 <= j < i ==> cloned_args[j].deep_view() == #[trigger] args[j].deep_view(),
                    decreases args.len() - i,
                {
                    let a = args[i].clone();
                    cloned_args.push(a);
                    i += 1;
                }
                proof {
                    crate::value::lemma_values_view(args@);
                    crate::value::lemma_values_view(cloned_args@);
                    assert forall|j: int| 0 <= j < args@.len() implies values_view(cloned_args@)[j]
                        == values_view(args@)[j] by {
                        assert(cloned_args[j].deep_view() == args[j].deep_view());
                    }
                    assert(values_view(cloned_args@) =~= values_view(args@));
                }
                Operand::FunctionCall(name.clone(), cloned_args)
            },
            Operand::If { predicate, main_body } => {
                let mut cloned_body: Vec<Operand> = Vec::new();
                let mut i: usize = 0;
                proof {
                    assert(decreases_to!(*self => *main_body));
                }
                while i < main_body.len()
                    invariant
                        i <= main_body.len(),
                        cloned_body.len() == i,
                        decreases_to!(*self => *main_body),
                        forall|j: int|
                            0 <= j < i ==> cloned_body[j].deep_view()
                                == #[trigger] main_body[j].deep_view(),
                    decreases main_body.len() - i,
                {
                    proof {
                        broadcast use vstd::std_specs::vec::axiom_vec_index_decreases;

                        assert(decreases_to!(*main_body => main_body[i as int]));
                    }
                    let e = main_body[i].clone();
                    cloned_body.push(e);
                    i += 1;
                }
                proof {
                    lemma_operands_view(main_body@);
                    lemma_operands_view(cloned_body@);
                    assert forall|j: int| 0 <= j < main_body@.len() implies operands_view(
                        cloned_body@,
                    )[j] == operands_view(main_body@)[j] by {
                        assert(cloned_body[j].deep_view() == main_body[j].deep_view());
                    }
                    assert(operands_view(cloned_body@) =~= operands_view(main_body@));
                }
                Operand::If { predicate: predicate.clone(), main_body: cloned_body }
            },
            Operand::Return(value) => Operand::Return(value.clone()),
            Operand::InlineAssembly(text) => Operand::InlineAssembly(text.clone()),
        }
    }
}

impl Operand {
    /// Lower one statement.
    pub fn codegen(&self, compiler: &mut Compiler)
        requires
            op_wf(self.deep_view(), old(compiler)@.global.funcs, emit_of(old(compiler)@)),
        ensures
            final(compiler)@ == with_emit(
                old(compiler)@,
                op_step(
                    self.deep_view(),
                    old(compiler)@.global.funcs,
                    emit_of(old(compiler)@),
                ),
            ),
        decreases *self, 0int, 0int,
    {
        match self {
            Operand::If { predicate, main_body } => {
                proof {
                    assert(decreases_to!(*self => *main_body));
                    assert(decreases_to!(*main_body => main_body@));
                }
                crate::operand::compare::if_statement(predicate, main_body.as_slice(), compiler);
            },
            Operand::DeclareVariable(ty, name, value) => {
                crate::operand::variables::variable_declaration(
                    ty,
                    name.as_str(),
                    value,
                    compiler,
                );
            },
            Operand::SetValue(lhs, value) => {
                crate::operand::variables::set_value(lhs, value, compiler);
            },
            Operand::InlineAssembly(text) => {
                compiler.new_instruction(Instruction::AsmLiteral(text.clone()));
                proof {
                    assert(compiler@.insts =~= old(compiler)@.insts + seq![
                        crate::assembly::InstructionView::AsmLiteral(text@),
                    ]);
                    assert(compiler@ =~= with_emit(
                        old(compiler)@,
                        op_step(
                            self.deep_view(),
                            old(compiler)@.global.funcs,
                            emit_of(old(compiler)@),
                        ),
                    ));
                }
            },
            Operand::FunctionCall(name, parameters) => {
                crate::operand::functions::function_call(
                    name.as_str(),
                    parameters.as_slice(),
                    compiler,
                );
                proof {
                    assert(compiler@ =~= with_emit(
                        old(compiler)@,
                        op_step(
                            self.deep_view(),
                            old(compiler)@.global.funcs,
                            emit_of(old(compiler)@),
                        ),
                    ));
                }
            },
            Operand::FunctionDecl(return_type, name, operands, parameters) => {
                proof {
                    assert(decreases_to!(*self => *operands));
                    assert(decreases_to!(*operands => operands@));
                }
                crate::operand::functions::function_decl(
                    return_type,
                    name.as_str(),
                    operands.as_slice(),
                    parameters.as_slice(),
                    compiler,
                );
            },
            Operand::Return(_) => {
                vstd::pervasive::unreached()
            },
            Operand::DropVariable(name) => {
                compiler.drop_variable(name.as_str());
                proof {
                    assert(compiler@ =~= with_emit(
                        old(compiler)@,
                        op_step(
                            self.deep_view(),
                            old(compiler)@.global.funcs,
                            emit_of(old(compiler)@),
                        ),
                    ));
                }
            },
            Operand::Add(_, _, _) | Operand::Subtract(_, _, _) => {
                proof {
                    assert(compiler@ =~= with_emit(
                        old(compiler)@,
                        op_step(
                            self.deep_view(),
                            old(compiler)@.global.funcs,
                            emit_of(old(compiler)@),
                        ),
                    ));
                }
            },
        }
    }
}

/// The values one statement holds: the sides of an arithmetic statement
/// or assignment, an initial value, a returned value, call arguments, a
/// guard's two sides, and everything inside nested bodies.
pub open spec fn operand_values(op: OperandView) -> Seq<ValueView>
    decreases op, 0int via operand_values_dec
{
    match op {
        OperandView::Add(_, a, b) => seq![a, b],
        OperandView::Subtract(_, a, b) => seq![a, b],
        OperandView::SetValue(l, r) => seq![l, r],
        OperandView::DeclareVariable(_, _, a) => seq![a],
        OperandView::Return(a) => seq![a],
        OperandView::FunctionCall(_, args) => args,
        OperandView::If { predicate, main_body } => seq![predicate.lhs, predicate.rhs]
            + list_values(main_body),
        OperandView::FunctionDecl(_, _, body, _) => list_values(body),
        OperandView::DropVariable(_) => Seq::empty(),
        OperandView::InlineAssembly(_) => Seq::empty(),
    }
}

/// The values a list of statements holds, in order.
pub open spec fn list_values(s: Seq<OperandView>) -> Seq<ValueView>
    decreases s, 1int via list_values_dec
{
    if s.len() == 0 {
        Seq::empty()
    } else {
        list_values(s.drop_last()) + operand_values(s.last())
    }
}

#[via_fn]
proof fn operand_values_dec(op: OperandView) {
    if let OperandView::If { predicate, main_body } = op {
        assert(decreases_to!(op => main_body));
    }
    if let OperandView::FunctionDecl(ty, name, body, params) = op {
        assert(decreases_to!(op => body));
    }
}

#[via_fn]
proof fn list_values_dec(s: Seq<OperandView>) {
    broadcast use vstd::seq::axiom_seq_index_decreases;

    if s.len() > 0 {
        assert(decreases_to!(s => s[s.len() - 1]));
        vstd::seq::axiom_seq_len_decreases::<OperandView>(s, s.drop_last());
    }
}

/// Append the values a statement holds, nested bodies included.
fn push_operand_values(op: &Operand, out: &mut Vec<Value>)
    ensures
        values_view(final(out)@) == values_view(old(out)@) + operand_values(op.deep_view()),
    decreases *op,
{
    match op {
        Operand::DeclareVariable(_, _, a) | Operand::Return(a) => {
            let ghost pre = out@;
            let c = a.clone();
            out.push(c);
            proof {
                crate::value::lemma_values_view_push(pre, out@.last());
                assert(values_view(out@) =~= values_view(old(out)@) + operand_values(
                    op.deep_view(),
                ));
            }
        },
        Operand::SetValue(l, r) | Operand::Add(_, l, r) | Operand::Subtract(_, l, r) => {
            let ghost pre = out@;
            let cl = l.clone();
            out.push(cl);
            proof {
                crate::value::lemma_values_view_push(pre, out@.last());
            }
            let ghost pre2 = out@;
            let cr = r.clone();
            out.push(cr);
            proof {
                crate::value::lemma_values_view_push(pre2, out@.last());
                assert(values_view(out@) =~= values_view(old(out)@) + operand_values(
                    op.deep_view(),
                ));
            }
        },
        Operand::FunctionCall(_, args) => {
            let ghost argsv = values_view(args@);
            proof {
                crate::value::lemma_values_view(args@);
            }
            let mut i: usize = 0;
            proof {
                assert(values_view(out@) =~= values_view(old(out)@) + argsv.take(0));
            }
            while i < args.len()
                invariant
                    i <= args@.len(),
                    argsv == values_view(args@),
                    argsv.len() == args@.len(),
                    forall|m: int|
                        0 <= m < argsv.len() ==> argsv[m] == #[trigger] args@[m].deep_view(),
                    values_view(out@) == values_view(old(out)@) + argsv.take(i as int),
                decreases args@.len() - i,
            {
                let ghost pre = out@;
                let c = args[i].clone();
                out.push(c);
                proof {
                    crate::value::lemma_values_view_push(pre, out@.last());
                    assert(argsv.take(i + 1) =~= argsv.take(i as int).push(argsv[i as int]));
                    assert(values_view(out@) =~= values_view(old(out)@) + argsv.take(i + 1));
                }
                i += 1;
            }
            proof {
                assert(argsv.take(argsv.len() as int) =~= argsv);
                assert(values_view(out@) =~= values_view(old(out)@) + operand_values(
                    op.deep_view(),
                ));
            }
        },
        Operand::If { predicate, main_body } => {
            let ghost pre = out@;
            let cl = predicate.lhs.clone();
            out.push(cl);
            proof {
                crate::value::lemma_values_view_push(pre, out@.last());
            }
            let ghost pre2 = out@;
            let cr = predicate.rhs.clone();
            out.push(cr);
            proof {
                crate::value::lemma_values_view_push(pre2, out@.last());
            }
            let ghost bodyv = operands_view(main_body@);
            let ghost mid = out@;
            proof {
                lemma_operands_view(main_body@);
                assert(decreases_to!(*op => *main_body));
                assert(bodyv.take(0) =~= Seq::<OperandView>::empty());
                assert(values_view(out@) =~= values_view(mid) + list_values(bodyv.take(0)));
            }
            let mut i: usize = 0;
            while i < main_body.len()
                invariant
                    i <= main_body@.len(),
                    bodyv == operands_view(main_body@),
                    bodyv.len() == main_body@.len(),
                    forall|m: int|
                        0 <= m < bodyv.len() ==> bodyv[m] == #[trigger] main_body@[m].deep_view(),
                    decreases_to!(*op => *main_body),
                    values_view(out@) == values_view(mid) + list_values(bodyv.take(i as int)),
                    values_view(mid) == values_view(old(out)@).push(
                        op.deep_view()->If_predicate.lhs,
                    ).push(op.deep_view()->If_predicate.rhs),
                decreases main_body@.len() - i,
            {
                proof {
                    broadcast use vstd::std_specs::vec::axiom_vec_index_decreases;

                    assert(decreases_to!(*main_body => main_body[i as int]));
                }
                let b = &main_body[i];
                push_operand_values(b, out);
                proof {
                    assert(bodyv.take(i + 1).drop_last() =~= bodyv.take(i as int));
                    assert(bodyv.take(i + 1).last() == bodyv[i as int]);
                    assert(values_view(out@) =~= values_view(mid) + list_values(bodyv.take(i + 1)));
                }
                i += 1;
            }
            proof {
                assert(bodyv.take(bodyv.len() as int) =~= bodyv);
                assert(values_view(out@) =~= values_view(old(out)@) + operand_values(
                    op.deep_view(),
                ));
            }
        },
        Operand::FunctionDecl(_, _, body, _) => {
            let ghost bodyv = operands_view(body@);
            let ghost mid = out@;
            proof {
                lemma_operands_view(body@);
                assert(decreases_to!(*op => *body));
                assert(bodyv.take(0) =~= Seq::<OperandView>::empty());
                assert(values_view(out@) =~= values_view(mid) + list_values(bodyv.take(0)));
            }
            let mut i: usize = 0;
            while i < body.len()
                invariant
                    i <= body@.len(),
                    bodyv == operands_view(body@),
                    bodyv.len() == body@.len(),
                    forall|m: int|
                        0 <= m < bodyv.len() ==> bodyv[m] == #[trigger] body@[m].deep_view(),
                    decreases_to!(*op => *body),
                    values_view(out@) == values_view(mid) + list_values(bodyv.take(i as int)),
                    mid == old(out)@,
                decreases body@.len() - i,
            {
                proof {
                    broadcast use vstd::std_specs::vec::axiom_vec_index_decreases;

                    assert(decreases_to!(*body => body[i as int]));
                }
                let b = &body[i];
                push_operand_values(b, out);
                proof {
                    assert(bodyv.take(i + 1).drop_last() =~= bodyv.take(i as int));
                    assert(bodyv.take(i + 1).last() == bodyv[i as int]);
                    assert(values_view(out@) =~= values_view(mid) + list_values(bodyv.take(i + 1)));
                }
                i += 1;
            }
            proof {
                assert(bodyv.take(bodyv.len() as int) =~= bodyv);
                assert(values_view(out@) =~= values_view(old(out)@) + operand_values(
                    op.deep_view(),
                ));
            }
        },
        Operand::DropVariable(_) | Operand::InlineAssembly(_) => {
            proof {
                assert(values_view(out@) =~= values_view(old(out)@) + operand_values(
                    op.deep_view(),
                ));
            }
        },
    }
}

impl Operand {
    /// The values this statement holds, nested bodies included: the
    /// uniform accessor the dead-variable analysis builds on.
    pub fn get_values(&self) -> (r: Vec<Value>)
        ensures
            values_view(r@) == operand_values(self.deep_view()),
    {
        let mut out: Vec<Value> = Vec::new();
        push_operand_values(self, &mut out);
        proof {
            assert(values_view(Seq::<Value>::empty()) =~= Seq::<crate::value::ValueView>::empty());
            assert(values_view(out@) =~= operand_values(self.deep_view()));
        }
        out
    }
}

} // verus!
