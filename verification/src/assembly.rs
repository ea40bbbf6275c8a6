use vstd::prelude::*;

use crate::operand::compare::{compare_suffix, CompareOperation};
use crate::value::{token_text, ValueCodegen, ValueCodegenView};

verus! {

/// A lowered machine instruction, still carrying its operands as rendered
/// text tokens.
#[derive(Debug)]
pub enum Instruction {
    AsmLiteral(String),
    Label(String),
    Move(ValueCodegen, ValueCodegen),
    IntMultiply(ValueCodegen, ValueCodegen),
    Multiply(ValueCodegen, ValueCodegen),
    Compare(ValueCodegen, ValueCodegen),
    Return,
    Push(ValueCodegen),
    Pop(ValueCodegen),
    Add(ValueCodegen, ValueCodegen),
    Sub(ValueCodegen, ValueCodegen),
    LoadAddress(ValueCodegen, ValueCodegen),
    Call(String),
    JumpConditional { label_destination: String, conditional: CompareOperation },
}

/// The mathematical shape of an instruction.
pub enum InstructionView {
    AsmLiteral(Seq<char>),
    Label(Seq<char>),
    Move(ValueCodegenView, ValueCodegenView),
    IntMultiply(ValueCodegenView, ValueCodegenView),
    Multiply(ValueCodegenView, ValueCodegenView),
    Compare(ValueCodegenView, ValueCodegenView),
    Return,
    Push(ValueCodegenView),
    Pop(ValueCodegenView),
    Add(ValueCodegenView, ValueCodegenView),
    Sub(ValueCodegenView, ValueCodegenView),
    LoadAddress(ValueCodegenView, ValueCodegenView),
    Call(Seq<char>),
    JumpConditional { label_destination: Seq<char>, conditional: CompareOperation },
}

impl DeepView for Instruction {
    type V = InstructionView;

    open spec fn deep_view(&self) -> InstructionView {
        match self {
            Instruction::AsmLiteral(s) => InstructionView::AsmLiteral(s@),
            Instruction::Label(s) => InstructionView::Label(s@),
            Instruction::Move(d, s) => InstructionView::Move(d.deep_view(), s.deep_view()),
            Instruction::IntMultiply(d, s) => InstructionView::IntMultiply(
                d.deep_view(),
                s.deep_view(),
            ),
            Instruction::Multiply(d, s) => InstructionView::Multiply(d.deep_view(), s.deep_view()),
            Instruction::Compare(a, b) => InstructionView::Compare(a.deep_view(), b.deep_view()),
            Instruction::Return => InstructionView::Return,
            Instruction::Push(s) => InstructionView::Push(s.deep_view()),
            Instruction::Pop(d) => InstructionView::Pop(d.deep_view()),
            Instruction::Add(d, s) => InstructionView::Add(d.deep_view(), s.deep_view()),
            Instruction::Sub(d, s) => InstructionView::Sub(d.deep_view(), s.deep_view()),
            Instruction::LoadAddress(d, s) => InstructionView::LoadAddress(
                d.deep_view(),
                s.deep_view(),
            ),
            Instruction::Call(s) => InstructionView::Call(s@),
            Instruction::JumpConditional { label_destination, conditional } =>
                InstructionView::JumpConditional {
                label_destination: label_destination@,
                conditional: *conditional,
            },
        }
    }
}

/// The Intel-syntax text of one instruction, without a trailing newline.
pub open spec fn instruction_text(i: InstructionView) -> Seq<char> {
    match i {
        InstructionView::Label(name) => name + ":"@,
        InstructionView::Move(dst, src) => "mov "@ + token_text(dst) + ", "@ + token_text(src),
        InstructionView::IntMultiply(dst, src) => "imul "@ + token_text(dst) + ", "@ + token_text(
            src,
        ),
        InstructionView::Multiply(dst, src) => "mul "@ + token_text(dst) + ", "@ + token_text(src),
        InstructionView::Return => "ret"@,
        InstructionView::Push(src) => "push "@ + token_text(src),
        InstructionView::Pop(dst) => "pop "@ + token_text(dst),
        InstructionView::Add(dst, src) => "add "@ + token_text(dst) + ", "@ + token_text(src),
        InstructionView::Sub(dst, src) => "sub "@ + token_text(dst) + ", "@ + token_text(src),
        InstructionView::Compare(lhs, rhs) => "cmp "@ + token_text(lhs) + ", "@ + token_text(rhs),
        InstructionView::LoadAddress(dst, src) => "lea "@ + token_text(dst) + ", "@ + token_text(
            src,
        ),
        InstructionView::Call(name) => "call "@ + name,
        InstructionView::JumpConditional { label_destination, conditional } => "j"@
            + compare_suffix(conditional) + " "@ + label_destination,
        InstructionView::AsmLiteral(literal) => literal,
    }
}

impl Instruction {
    /// Render this instruction as one line of Intel-syntax assembly.
    pub fn codegen_x86(self) -> (r: String)
        ensures
            r@ == instruction_text(self.deep_view()),
    {
        match self {
            Instruction::Label(name) => name.concat(":"),
            Instruction::Move(dst, src) => "mov ".to_owned().concat(dst.inner().as_str()).concat(
                ", ",
            ).concat(src.inner().as_str()),
            Instruction::IntMultiply(dst, src) => "imul ".to_owned().concat(
                dst.inner().as_str(),
            ).concat(", ").concat(src.inner().as_str()),
            Instruction::Multiply(dst, src) => "mul ".to_owned().concat(
                dst.inner().as_str(),
            ).concat(", ").concat(src.inner().as_str()),
            Instruction::Return => "ret".to_owned(),
            Instruction::Push(src) => "push ".to_owned().concat(src.inner().as_str()),
            Instruction::Pop(dst) => "pop ".to_owned().concat(dst.inner().as_str()),
            Instruction::Add(dst, src) => "add ".to_owned().concat(dst.inner().as_str()).concat(
                ", ",
            ).concat(src.inner().as_str()),
            Instruction::Sub(dst, src) => "sub ".to_owned().concat(dst.inner().as_str()).concat(
                ", ",
            ).concat(src.inner().as_str()),
            Instruction::Compare(lhs, rhs) => "cmp ".to_owned().concat(lhs.inner().as_str()).concat(
                ", ",
            ).concat(rhs.inner().as_str()),
            Instruction::LoadAddress(dst, src) => "lea ".to_owned().concat(
                dst.inner().as_str(),
            ).concat(", ").concat(src.inner().as_str()),
            Instruction::Call(name) => "call ".to_owned().concat(name.as_str()),
            Instruction::JumpConditional { label_destination, conditional } =>
                "j".to_owned().concat(conditional.as_suffix().as_str()).concat(" ").concat(
                label_destination.as_str(),
            ),
            Instruction::AsmLiteral(literal) => literal,
        }
    }
}

impl Clone for Instruction {
    fn clone(&self) -> (r: Self)
        ensures
            r.deep_view() == self.deep_view(),
    {
        match self {
            Instruction::AsmLiteral(s) => Instruction::AsmLiteral(s.clone()),
            Instruction::Label(s) => Instruction::Label(s.clone()),
            Instruction::Move(d, s) => Instruction::Move(d.clone(), s.clone()),
            Instruction::IntMultiply(d, s) => Instruction::IntMultiply(d.clone(), s.clone()),
            Instruction::Multiply(d, s) => Instruction::Multiply(d.clone(), s.clone()),
            Instruction::Compare(a, b) => Instruction::Compare(a.clone(), b.clone()),
            Instruction::Return => Instruction::Return,
            Instruction::Push(s) => Instruction::Push(s.clone()),
            Instruction::Pop(d) => Instruction::Pop(d.clone()),
            Instruction::Add(d, s) => Instruction::Add(d.clone(), s.clone()),
            Instruction::Sub(d, s) => Instruction::Sub(d.clone(), s.clone()),
            Instruction::LoadAddress(d, s) => Instruction::LoadAddress(d.clone(), s.clone()),
            Instruction::Call(s) => Instruction::Call(s.clone()),
            Instruction::JumpConditional { label_destination, conditional } =>
                Instruction::JumpConditional {
                label_destination: label_destination.clone(),
                conditional: *conditional,
            },
        }
    }
}

} // verus!
