use low_level_ir::assembly::Instruction;
use low_level_ir::function_manager::FunctionManager;
use low_level_ir::operand::compare::CompareOperation;
use low_level_ir::operand::OperandType;
use low_level_ir::registers::Register;
use low_level_ir::render::{escape_string, u32_string};
use low_level_ir::util::Size;
use low_level_ir::value::{Value, ValueCodegen};
use low_level_ir::variables::{VariableLocation, VariableManager};

#[test]
fn register_names() {
    assert_eq!(Register::AX.as_word(), "AX");
    assert_eq!(Register::AX.as_dword(), "EAX");
    assert_eq!(Register::AX.as_qword(), "RAX");
    assert_eq!(Register::R8.as_word(), "R8W");
    assert_eq!(Register::R8.as_dword(), "R8D");
    assert_eq!(Register::R8.as_qword(), "R8");
    assert_eq!(Register::DI.as_size(&Size::DoubleWord), "EDI");
    assert_eq!(Register::SP.as_size(&Size::QuadWord), "RSP");
}

#[test]
fn register_operands() {
    assert_eq!(Register::AX.as_ptr().inner(), "QWORD [RAX]");
    assert_eq!(Register::AX.as_deref(&Size::DoubleWord).inner(), "DWORD [RAX]");
    assert_eq!(Register::BP.as_gen(&Size::QuadWord).inner(), "RBP");
}

#[test]
fn size_words() {
    assert_eq!(Size::Byte.name(), "BYTE");
    assert_eq!(Size::Word.name(), "WORD");
    assert_eq!(Size::DoubleWord.name(), "DWORD");
    assert_eq!(Size::QuadWord.name(), "QWORD");
    assert_eq!(Size::Byte.get_bytes(), 1);
    assert_eq!(Size::Word.get_bytes(), 2);
    assert_eq!(Size::DoubleWord.get_bytes(), 4);
    assert_eq!(Size::QuadWord.get_bytes(), 8);
}

#[test]
fn operand_type_sizes() {
    assert_eq!(OperandType::Int(Size::Word).size(), Size::Word);
    assert_eq!(OperandType::Char.size(), Size::Byte);
    assert_eq!(OperandType::Undefined.size(), Size::Byte);
    let p = OperandType::Pointer(Box::new(OperandType::Int(Size::DoubleWord)));
    assert_eq!(p.size(), Size::QuadWord);
    assert_eq!(p.deref_size(), Some(Size::DoubleWord));
    assert_eq!(OperandType::Char.deref_size(), None);
}

#[test]
fn compare_suffixes() {
    assert_eq!(CompareOperation::GT.as_suffix(), "g");
    assert_eq!(CompareOperation::GTE.as_suffix(), "ge");
    assert_eq!(CompareOperation::LT.as_suffix(), "l");
    assert_eq!(CompareOperation::LTE.as_suffix(), "le");
    assert_eq!(CompareOperation::EQ.as_suffix(), "e");
    assert_eq!(CompareOperation::NEQ.as_suffix(), "ne");
}

#[test]
fn compare_opposites() {
    assert_eq!(CompareOperation::GT.get_opposite(), CompareOperation::LTE);
    assert_eq!(CompareOperation::GTE.get_opposite(), CompareOperation::LT);
    assert_eq!(CompareOperation::LT.get_opposite(), CompareOperation::GTE);
    assert_eq!(CompareOperation::LTE.get_opposite(), CompareOperation::GT);
    assert_eq!(CompareOperation::EQ.get_opposite(), CompareOperation::NEQ);
    assert_eq!(CompareOperation::NEQ.get_opposite(), CompareOperation::EQ);
}

#[test]
fn instruction_lines() {
    let mov = Instruction::Move(
        ValueCodegen::Register("EAX".to_string()),
        ValueCodegen::Number("2".to_string()),
    );
    assert_eq!(mov.codegen_x86(), "mov EAX, 2");
    assert_eq!(Instruction::Return.codegen_x86(), "ret");
    assert_eq!(Instruction::Label("f".to_string()).codegen_x86(), "f:");
    assert_eq!(Instruction::Call("f".to_string()).codegen_x86(), "call f");
    let jump = Instruction::JumpConditional {
        label_destination: ".IF1".to_string(),
        conditional: CompareOperation::LTE,
    };
    assert_eq!(jump.codegen_x86(), "jle .IF1");
    let push = Instruction::Push(ValueCodegen::Register("RDI".to_string()));
    assert_eq!(push.codegen_x86(), "push RDI");
    let lea = Instruction::LoadAddress(
        ValueCodegen::Register("RAX".to_string()),
        ValueCodegen::StackOffset("DWORD [rbp-4]".to_string()),
    );
    assert_eq!(lea.codegen_x86(), "lea RAX, DWORD [rbp-4]");
}

#[test]
fn token_kinds() {
    let n = ValueCodegen::Number("7".to_string());
    assert!(n.is_immediate());
    assert!(!n.is_register());
    assert!(!n.is_stack());
    assert_eq!(n.inner(), "7");
    let s = ValueCodegen::StackOffset("DWORD [rbp-4]".to_string());
    assert!(s.is_stack());
    assert!(Value::Variable("x".to_string()).is_variable());
    assert!(!Value::Null.is_variable());
}

#[test]
fn variable_table() {
    let mut vars = VariableManager::new();
    assert_eq!(vars.used_stack(), 0);
    let a = vars.allocate("a", &OperandType::Int(Size::DoubleWord));
    assert_eq!(a, Some((VariableLocation::StackOffset(4), OperandType::Int(Size::DoubleWord))));
    assert_eq!(vars.used_stack(), 4);
    let b = vars.allocate("b", &OperandType::Int(Size::QuadWord));
    assert_eq!(b, Some((VariableLocation::StackOffset(12), OperandType::Int(Size::QuadWord))));
    assert_eq!(vars.used_stack(), 12);
    assert_eq!(vars.get("a"), Some((VariableLocation::StackOffset(4), OperandType::Int(Size::DoubleWord))));
    assert_eq!(vars.get("missing"), None);

    assert!(vars.deallocate("a"));
    assert_eq!(vars.get("a"), None);
    assert_eq!(vars.used_stack(), 12);
    assert!(!vars.deallocate("a"));

    vars.allocate_parameter("p", &OperandType::Int(Size::DoubleWord), 0);
    assert_eq!(vars.get("p"), Some((VariableLocation::Register(Register::DI), OperandType::Int(Size::DoubleWord))));

    let again = vars.get_or_allocate("b", &OperandType::Int(Size::Word));
    assert_eq!(again, Some((VariableLocation::StackOffset(12), OperandType::Int(Size::QuadWord))));
    let fresh = vars.get_or_allocate("c", &OperandType::Int(Size::Word));
    assert_eq!(fresh, Some((VariableLocation::StackOffset(14), OperandType::Int(Size::Word))));
}

#[test]
fn function_table_first_registration_wins() {
    let mut funcs = FunctionManager::new();
    funcs.declare_function("f", &OperandType::Int(Size::DoubleWord), &[OperandType::Char]);
    funcs.declare_function("f", &OperandType::Int(Size::QuadWord), &[]);
    let got = funcs.get_function_type("f").unwrap();
    assert_eq!(got.0, OperandType::Int(Size::DoubleWord));
    assert_eq!(got.1, vec![OperandType::Char]);
    assert!(funcs.get_function_type("g").is_none());
}

#[test]
fn location_rendering() {
    let slot = VariableLocation::StackOffset(12);
    assert_eq!(slot.as_gen(&Size::DoubleWord).inner(), "DWORD [rbp-12]");
    assert_eq!(slot.as_ptr().inner(), "QWORD [rbp-12]");
    assert!(slot.is_stack());
    assert_eq!(slot.as_reg(), None);
    let reg = VariableLocation::Register(Register::SI);
    assert_eq!(reg.as_gen(&Size::DoubleWord).inner(), "ESI");
    assert_eq!(reg.as_reg(), Some(Register::SI));
}

#[test]
fn decimal_rendering() {
    assert_eq!(u32_string(0), "0");
    assert_eq!(u32_string(7), "7");
    assert_eq!(u32_string(40), "40");
    assert_eq!(u32_string(1234567890), "1234567890");
    assert_eq!(u32_string(u32::MAX), "4294967295");
}

#[test]
fn newline_escaping() {
    assert_eq!(escape_string("hi"), "hi");
    assert_eq!(escape_string("hi\\n"), "hi\", 10, \"");
    assert_eq!(escape_string("\\n\\n"), "\", 10, \"\", 10, \"");
    assert_eq!(escape_string(""), "");
    assert_eq!(escape_string("a\\b"), "a\\b");
}
