use nilang::errors::GeneratorErrors;
use nilang::generator::transformers::{transform_function_call, transform_operation, transform_return, Scope};
use nilang::types::nodes::expressions::Arithmetic as Operator;
use nilang::types::nodes::Node;

fn number(n: &str) -> Box<Node> {
    Box::new(Node::Number(n.into()))
}

fn variable(name: &str) -> Box<Node> {
    Box::new(Node::VariableReference(name.into()))
}

fn operation(operator: Operator, a: Box<Node>, b: Box<Node>) -> Node {
    Node::Operation { operator, a, b }
}

fn lines(v: &[&str]) -> Vec<String> {
    v.iter().map(|s| s.to_string()).collect()
}

#[test]
fn add_numbers() {
    assert_eq!(
        transform_operation(&operation(Operator::Add, number("1"), number("2")), &mut Scope::default(), "%rax")
            .unwrap(),
        lines(&["movq $1, %rax", "add $2, %rax"])
    );
}

#[test]
fn subtract_numbers() {
    assert_eq!(
        transform_operation(&operation(Operator::Subtract, number("1"), number("2")), &mut Scope::default(), "%rax")
            .unwrap(),
        lines(&["movq $1, %rax", "sub $2, %rax"])
    );
}

#[test]
fn multiply_numbers() {
    assert_eq!(
        transform_operation(&operation(Operator::Multiply, number("1"), number("2")), &mut Scope::default(), "%rax")
            .unwrap(),
        lines(&["movq $1, %rax", "imul $2, %rax"])
    );
}

#[test]
fn divide_numbers() {
    assert_eq!(
        transform_operation(&operation(Operator::Divide, number("1"), number("2")), &mut Scope::default(), "%rax")
            .unwrap(),
        lines(&["movq $1, %rax", "movq $2, %rbx", "cqto", "idiv %rbx", "movq %rax, %rax"])
    );
}

#[test]
fn modulo_numbers() {
    assert_eq!(
        transform_operation(&operation(Operator::Modulo, number("1"), number("2")), &mut Scope::default(), "%rax")
            .unwrap(),
        lines(&["movq $1, %rax", "movq $2, %rbx", "cqto", "idiv %rbx", "movq %rdx, %rax"])
    );
}

#[test]
fn number_variable_reference() {
    let mut scope = Scope::default();
    let _ = scope.insert("a");

    assert_eq!(
        transform_operation(&operation(Operator::Add, number("1"), variable("a")), &mut scope, "%rax").unwrap(),
        lines(&["movq $1, %rax", "add -8(%rbp), %rax"])
    );
}

#[test]
fn variable_reference_number() {
    let mut scope = Scope::default();
    let _ = scope.insert("a");

    assert_eq!(
        transform_operation(&operation(Operator::Add, variable("a"), number("2")), &mut scope, "%rax").unwrap(),
        lines(&["movq -8(%rbp), %rax", "add $2, %rax"])
    );
}

#[test]
fn variable_reference_variable_reference() {
    let mut scope = Scope::default();
    let _ = scope.insert("a");
    let _ = scope.insert("b");

    assert_eq!(
        transform_operation(&operation(Operator::Add, variable("a"), variable("b")), &mut scope, "%rax").unwrap(),
        lines(&["movq -8(%rbp), %rax", "add -16(%rbp), %rax"])
    );
}

#[test]
fn number_operation() {
    assert_eq!(
        transform_operation(
            &operation(Operator::Add, Box::new(operation(Operator::Multiply, number("1"), number("2"))), number("3")),
            &mut Scope::default(),
            "%rax",
        )
        .unwrap(),
        lines(&["movq $1, %rax", "imul $2, %rax", "add $3, %rax"])
    );
}

#[test]
fn variable_reference_operation() {
    let mut scope = Scope::default();
    let _ = scope.insert("a");

    assert_eq!(
        transform_operation(
            &operation(Operator::Add, variable("a"), Box::new(operation(Operator::Multiply, number("2"), number("3")))),
            &mut scope,
            "%rax",
        )
        .unwrap(),
        lines(&[
            "movq $2, %rax",
            "imul $3, %rax",
            "movq %rax, -16(%rbp)",
            "movq -8(%rbp), %rax",
            "add -16(%rbp), %rax",
        ])
    );
}

#[test]
fn operation_number() {
    assert_eq!(
        transform_operation(
            &operation(Operator::Add, number("1"), Box::new(operation(Operator::Multiply, number("2"), number("3")))),
            &mut Scope::default(),
            "%rax",
        )
        .unwrap(),
        lines(&["movq $2, %rax", "imul $3, %rax", "movq %rax, -8(%rbp)", "movq $1, %rax", "add -8(%rbp), %rax"])
    );
}

#[test]
fn operation_variable_reference() {
    let mut scope = Scope::default();
    let _ = scope.insert("a");

    assert_eq!(
        transform_operation(
            &operation(Operator::Add, Box::new(operation(Operator::Multiply, number("1"), number("2"))), variable("a")),
            &mut scope,
            "%rax",
        )
        .unwrap(),
        lines(&["movq $1, %rax", "imul $2, %rax", "add -8(%rbp), %rax"])
    );
}

#[test]
fn operation_operation() {
    assert_eq!(
        transform_operation(
            &operation(
                Operator::Add,
                Box::new(operation(Operator::Multiply, number("1"), number("2"))),
                Box::new(operation(Operator::Subtract, number("3"), number("4"))),
            ),
            &mut Scope::default(),
            "%rax",
        )
        .unwrap(),
        lines(&[
            "movq $1, %rax",
            "imul $2, %rax",
            "movq %rax, -8(%rbp)",
            "movq $3, %rax",
            "sub $4, %rax",
            "movq -8(%rbp), %rax",
            "add %rbx, %rax",
        ])
    );
}

#[test]
fn undefined_variable_in_operation_is_an_error() {
    let mut scope = Scope::default();
    let _ = scope.insert("a");
    assert_eq!(
        transform_operation(&operation(Operator::Add, variable("a"), variable("b")), &mut scope, "%rax"),
        Err(GeneratorErrors::VariableNotDefined { name: "b".into() })
    );
    assert_eq!(
        transform_operation(
            &operation(Operator::Add, variable("x"), Box::new(operation(Operator::Add, number("1"), number("2")))),
            &mut scope,
            "%rax",
        ),
        Err(GeneratorErrors::VariableNotDefined { name: "x".into() })
    );
}

#[test]
fn scope_offsets_and_errors() {
    let mut scope = Scope::new();
    assert_eq!(scope.insert("a"), Ok(8));
    assert_eq!(scope.insert("b"), Ok(16));
    assert_eq!(scope.insert("a"), Err(GeneratorErrors::VariableAlreadyExists { name: "a".into() }));
    assert_eq!(scope.insert_unnamed(), 24);
    assert_eq!(scope.get("b"), Ok(16));
    assert_eq!(scope.get("c"), Err(GeneratorErrors::VariableNotDefined { name: "c".into() }));
    let mut inner = Scope::inherit(&scope);
    assert_eq!(inner.get("a"), Ok(8));
    assert_eq!(inner.insert("c"), Ok(32));
    assert_eq!(scope.get("c"), Err(GeneratorErrors::VariableNotDefined { name: "c".into() }));
}

#[test]
fn return_number() {
    assert_eq!(
        transform_return(&Node::Return(number("42")), &mut Scope::default()).unwrap(),
        lines(&["movq $42, %rbx"])
    );
}

#[test]
fn return_variable_reference() {
    let mut scope = Scope::default();
    let _ = scope.insert("a");

    assert_eq!(
        transform_return(&Node::Return(variable("a")), &mut scope).unwrap(),
        lines(&["movq -8(%rbp), %rbx"])
    );
}

#[test]
fn return_operation() {
    assert_eq!(
        transform_return(
            &Node::Return(Box::new(operation(Operator::Add, number("1"), number("2")))),
            &mut Scope::default(),
        )
        .unwrap(),
        lines(&["movq $1, %rbx", "add $2, %rbx"])
    );
}

#[test]
fn test_function_call() {
    assert_eq!(
        transform_function_call(
            &Node::FunctionCall {
                name: "main".into(),
                arguments: vec![
                    Node::Number("1".into()),
                    Node::Number("2".into()),
                    operation(Operator::Add, number("3"), number("4")),
                ],
            },
            &mut Scope::default(),
        )
        .unwrap(),
        lines(&["movq $1, %rdi", "movq $2, %rsi", "movq $3, %rax", "add $4, %rax", "movq %rax, %rdx", "call _main"])
    );
}

#[test]
fn calls_take_variables_nested_calls_and_six_arguments() {
    let mut scope = Scope::default();
    let _ = scope.insert("a");
    let call = Node::FunctionCall {
        name: "f".into(),
        arguments: vec![
            Node::VariableReference("a".into()),
            Node::FunctionCall { name: "g".into(), arguments: vec![Node::Number("5".into())] },
            Node::Number("3".into()),
            Node::Number("4".into()),
            Node::Number("5".into()),
            Node::Number("6".into()),
            Node::Number("7".into()),
        ],
    };
    assert_eq!(
        transform_function_call(&call, &mut scope).unwrap(),
        lines(&[
            "movq -8(%rbp), %rdi",
            "movq $5, %rdi",
            "call _g",
            "movq %rbx, %rsi",
            "movq $3, %rdx",
            "movq $4, %rcx",
            "movq $5, %r8",
            "movq $6, %r9",
            "call _f",
        ])
    );
    assert_eq!(
        transform_return(&Node::Return(Box::new(call)), &mut scope).unwrap().last(),
        Some(&"call _f".to_string())
    );
}

#[test]
fn call_argument_with_undefined_variable_is_an_error() {
    let call = Node::FunctionCall {
        name: "f".into(),
        arguments: vec![operation(Operator::Add, variable("x"), number("1"))],
    };
    assert_eq!(
        transform_function_call(&call, &mut Scope::default()),
        Err(GeneratorErrors::VariableNotDefined { name: "x".into() })
    );
    assert_eq!(
        transform_return(&Node::Return(variable("y")), &mut Scope::default()),
        Err(GeneratorErrors::VariableNotDefined { name: "y".into() })
    );
}
