use low_level_ir::compiler::Compiler;
use low_level_ir::ir::IRModule;
use low_level_ir::operand::compare::{CompareOperation, ComparePredicate};
use low_level_ir::operand::{Operand, OperandType};
use low_level_ir::util::Size;
use low_level_ir::value::Value;

fn int32() -> OperandType {
    OperandType::Int(Size::DoubleWord)
}

fn var(n: &str) -> Value {
    Value::Variable(n.to_string())
}

fn lit(n: &str) -> Value {
    Value::Int(n.to_string())
}

fn decl(name: &str, v: Value) -> Operand {
    Operand::DeclareVariable(int32(), name.to_string(), v)
}

/// `_start(): declare a = 20; declare b = a; return b`, run through the
/// dead-variable pass and compiled.
#[test]
fn identity_return() {
    let mut module = IRModule::new();
    module.operands = vec![Operand::FunctionDecl(
        int32(),
        "_start".to_string(),
        vec![
            decl("a", lit("20")),
            decl("b", var("a")),
            Operand::Return(var("b")),
        ],
        vec![],
    )];

    module.optimise();
    let text = module.compile();

    assert_eq!(
        text,
        "section .rodata\n\nsection .text\n\
         _start:\npush RBP\nmov RBP, RSP\nsub RSP, 8\n\
         mov DWORD [rbp-4], 20\n\
         mov EAX, DWORD [rbp-4]\nmov DWORD [rbp-8], EAX\n\
         mov EAX, DWORD [rbp-8]\n\
         mov RSP, RBP\npop RBP\nret\n"
    );
}

/// `_start(c): declare a = c + 2; declare b = a; return b`: the parameter
/// arrives in `EDI`, the sum goes through the scratch register, and the
/// return value leaves in `EAX`.
#[test]
fn parameter_forwarding() {
    let mut module = IRModule::new();
    module.operands = vec![Operand::FunctionDecl(
        int32(),
        "_start".to_string(),
        vec![
            decl(
                "a",
                Value::Add(Box::new(var("c")), Box::new(lit("2"))),
            ),
            decl("b", var("a")),
            Operand::Return(var("b")),
        ],
        vec![("c".to_string(), int32())],
    )];

    let text = module.compile();

    assert_eq!(
        text,
        "section .rodata\n\nsection .text\n\
         _start:\npush RBP\nmov RBP, RSP\nsub RSP, 8\n\
         mov EAX, EDI\nadd EAX, 2\nmov DWORD [rbp-4], EAX\n\
         mov EAX, DWORD [rbp-4]\nmov DWORD [rbp-8], EAX\n\
         mov EAX, DWORD [rbp-8]\n\
         mov RSP, RBP\npop RBP\nret\n"
    );
}

/// Storing through a pointer stages the address into `RAX` and writes at
/// the pointee's width.
#[test]
fn pointer_dereference() {
    let mut module = IRModule::new();
    module.operands = vec![Operand::FunctionDecl(
        int32(),
        "_start".to_string(),
        vec![
            decl("x", lit("5")),
            Operand::DeclareVariable(
                OperandType::Pointer(Box::new(int32())),
                "p".to_string(),
                Value::Reference("x".to_string()),
            ),
            Operand::SetValue(Value::Dereference("p".to_string()), lit("7")),
            Operand::Return(Value::Null),
        ],
        vec![],
    )];

    let text = module.compile();

    assert!(text.contains("lea RAX, DWORD [rbp-4]\nmov QWORD [rbp-12], RAX\n"));
    assert!(text.contains("mov RAX, QWORD [rbp-12]\nmov DWORD [RAX], 7\n"));
}

/// `If(a > b) { call f }` compares the two sides and jumps over the body
/// on the opposite relation.
#[test]
fn conditional_branch() {
    let mut module = IRModule::new();
    module.operands = vec![
        Operand::FunctionDecl(
            int32(),
            "f".to_string(),
            vec![Operand::Return(Value::Null)],
            vec![],
        ),
        Operand::FunctionDecl(
            int32(),
            "_start".to_string(),
            vec![
                decl("a", lit("1")),
                decl("b", lit("2")),
                Operand::If {
                    predicate: ComparePredicate {
                        operation: CompareOperation::GT,
                        lhs: var("a"),
                        rhs: var("b"),
                    },
                    main_body: vec![Operand::FunctionCall("f".to_string(), vec![])],
                },
                Operand::Return(Value::Null),
            ],
            vec![],
        ),
    ];

    let text = module.compile();

    assert!(text.contains("mov EAX, DWORD [rbp-4]\ncmp EAX, DWORD [rbp-8]\njle .IF1\ncall f\n.IF1:\n"));
}

/// A two-argument call spills and restores the argument registers
/// symmetrically around the `call`.
#[test]
fn call_sequencing() {
    let mut module = IRModule::new();
    module.operands = vec![
        Operand::FunctionDecl(
            int32(),
            "f".to_string(),
            vec![Operand::Return(Value::Null)],
            vec![("u".to_string(), int32()), ("v".to_string(), int32())],
        ),
        Operand::FunctionDecl(
            int32(),
            "_start".to_string(),
            vec![
                decl("x", lit("1")),
                decl("y", lit("2")),
                Operand::FunctionCall("f".to_string(), vec![var("x"), var("y")]),
                Operand::Return(Value::Null),
            ],
            vec![],
        ),
    ];

    let text = module.compile();

    assert!(text.contains(
        "push RDI\nmov EDI, DWORD [rbp-4]\npush RSI\nmov ESI, DWORD [rbp-8]\ncall f\npop RSI\npop RDI\n"
    ));
}

/// A string define renders in `.rodata` with its `\n` escape spliced into
/// a `10` byte, and the literal's label is referenced from `.text`.
#[test]
fn string_emission() {
    let mut compiler = Compiler::new();
    compiler.string_defines = vec![("msg".to_string(), "hi\\n".to_string())];
    compiler.set_operands(vec![Operand::FunctionDecl(
        int32(),
        "_start".to_string(),
        vec![
            Operand::DeclareVariable(
                OperandType::Pointer(Box::new(OperandType::Char)),
                "m".to_string(),
                Value::StringLiteral("msg".to_string()),
            ),
            Operand::Return(Value::Null),
        ],
        vec![],
    )]);

    let text = compiler.compile();

    assert!(text.starts_with("section .rodata\nmsg:\n\tdb \"hi\", 10, \"\", 0\n"));
    assert!(text.contains("mov QWORD [rbp-8], msg\n"));
}

/// Two compilations of the same module give byte-identical output.
#[test]
fn deterministic_output() {
    let build = || {
        let mut module = IRModule::new();
        module.operands = vec![Operand::FunctionDecl(
            int32(),
            "_start".to_string(),
            vec![
                decl("a", lit("3")),
                decl("b", var("a")),
                Operand::Return(var("b")),
            ],
            vec![],
        )];
        module.optimise();
        module.compile()
    };
    assert_eq!(build(), build());
}
