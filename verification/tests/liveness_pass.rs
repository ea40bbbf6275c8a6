use low_level_ir::ir::IRModule;
use low_level_ir::operand::{Operand, OperandType};
use low_level_ir::util::Size;
use low_level_ir::value::Value;

fn int32() -> OperandType {
    OperandType::Int(Size::DoubleWord)
}

fn module_of(body: Vec<Operand>) -> IRModule {
    let mut module = IRModule::new();
    module.operands = vec![Operand::FunctionDecl(
        int32(),
        "_start".to_string(),
        body,
        vec![],
    )];
    module
}

fn body_of(module: &IRModule) -> &Vec<Operand> {
    match &module.operands[0] {
        Operand::FunctionDecl(_, _, body, _) => body,
        _ => panic!("module does not start with a function"),
    }
}

/// A drop is placed right after each name's last use, and none is placed
/// for a name still in use before that point.
#[test]
fn drops_follow_last_uses() {
    let mut module = module_of(vec![
        Operand::DeclareVariable(int32(), "a".to_string(), Value::Int("1".to_string())),
        Operand::DeclareVariable(int32(), "b".to_string(), Value::Variable("a".to_string())),
        Operand::Return(Value::Variable("b".to_string())),
    ]);
    module.optimise();
    let body = body_of(&module);
    assert_eq!(body.len(), 5);
    assert!(matches!(&body[0], Operand::DeclareVariable(_, n, _) if n == "a"));
    assert!(matches!(&body[1], Operand::DeclareVariable(_, n, _) if n == "b"));
    assert!(matches!(&body[2], Operand::DropVariable(n) if n == "a"));
    assert!(matches!(&body[3], Operand::Return(Value::Variable(n)) if n == "b"));
    assert!(matches!(&body[4], Operand::DropVariable(n) if n == "b"));
}

/// A declaration of a name that nothing ever touches again is deleted
/// outright, and no drop is placed for it.
#[test]
fn unused_declaration_deleted() {
    let mut module = module_of(vec![
        Operand::DeclareVariable(int32(), "a".to_string(), Value::Int("1".to_string())),
        Operand::Return(Value::Int("0".to_string())),
    ]);
    module.optimise();
    let body = body_of(&module);
    assert_eq!(body.len(), 1);
    assert!(matches!(&body[0], Operand::Return(Value::Int(n)) if n == "0"));
}

/// A parameter used in the body gets a drop after its last use even
/// though it was never declared.
#[test]
fn parameter_dropped_after_last_use() {
    let mut module = IRModule::new();
    module.operands = vec![Operand::FunctionDecl(
        int32(),
        "_start".to_string(),
        vec![
            Operand::DeclareVariable(int32(), "a".to_string(), Value::Variable("c".to_string())),
            Operand::Return(Value::Variable("a".to_string())),
        ],
        vec![("c".to_string(), int32())],
    )];
    module.optimise();
    let body = body_of(&module);
    assert_eq!(body.len(), 4);
    assert!(matches!(&body[0], Operand::DeclareVariable(_, n, _) if n == "a"));
    assert!(matches!(&body[1], Operand::DropVariable(n) if n == "c"));
    assert!(matches!(&body[2], Operand::Return(_)));
    assert!(matches!(&body[3], Operand::DropVariable(n) if n == "a"));
}

/// The uniform value accessor walks nested bodies.
#[test]
fn get_values_walks_nested_bodies() {
    let op = Operand::FunctionDecl(
        int32(),
        "f".to_string(),
        vec![
            Operand::DeclareVariable(int32(), "x".to_string(), Value::Int("1".to_string())),
            Operand::Return(Value::Variable("x".to_string())),
        ],
        vec![],
    );
    let values = op.get_values();
    assert_eq!(values.len(), 2);
    assert!(matches!(&values[0], Value::Int(n) if n == "1"));
    assert!(matches!(&values[1], Value::Variable(n) if n == "x"));

    let set = Operand::SetValue(
        Value::Variable("x".to_string()),
        Value::Int("2".to_string()),
    );
    let values = set.get_values();
    assert_eq!(values.len(), 2);
    assert!(matches!(&values[0], Value::Variable(n) if n == "x"));
    assert!(matches!(&values[1], Value::Int(n) if n == "2"));
}
