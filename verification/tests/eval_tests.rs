use aepl::builtins::get_builtins;
use aepl::builtins::BuiltinOp;
use aepl::eval::eval_ops;
use aepl::parser::parse_ops;
use aepl::types::AeplStack;
use aepl::types::Literal;
use aepl::types::Value;

fn run(input: &str) -> AeplStack {
    let ops = parse_ops(input).unwrap();
    let builtins = get_builtins();
    let mut stack: AeplStack = Vec::new();
    eval_ops(&mut stack, ops, &builtins);
    stack
}

#[test]
fn test_eval_empty() {
    assert_eq!(run(""), vec![]);
}

#[test]
fn test_eval_prefix_multiply_add() {
    // multiply 5 (add 2 2): reverse-order evaluation realizes prefix notation
    assert_eq!(
        run("\u{2716}5\u{2795}2 2"),
        vec![Value::Literal(Literal::Int(20))]
    );
}

#[test]
fn test_eval_add_negative_literal() {
    assert_eq!(
        run("\u{2795}-1 2"),
        vec![Value::Literal(Literal::Int(1))]
    );
}

#[test]
fn test_eval_discard() {
    // the push of 3 happens before discard is applied
    assert_eq!(run("\u{1F389}3"), vec![]);
}

#[test]
fn test_eval_unknown_identifier_continues() {
    // the balloon is registered to nothing; tokens around it still evaluate
    assert_eq!(
        run("2\u{1F388}3"),
        vec![
            Value::Literal(Literal::Int(3)),
            Value::Literal(Literal::Int(2)),
        ]
    );
}

#[test]
fn test_eval_type_mismatch_drops_operands() {
    // add pops both operands, sees a text value, and pushes nothing
    assert_eq!(run("\u{2795}\u{1FAF8}a\u{1FAF7}2"), vec![]);
}

#[test]
fn test_eval_insufficient_operands() {
    // one operand only: add does nothing
    assert_eq!(
        run("\u{2795}5"),
        vec![Value::Literal(Literal::Int(5))]
    );
}

#[test]
fn test_eval_subtract_operand_order() {
    // subtract 5 2: the operand pushed first is the left one, so the result
    // is 2 - 5
    assert_eq!(
        run("\u{2796}5 2"),
        vec![Value::Literal(Literal::Int(-3))]
    );
}

#[test]
fn test_eval_arithmetic_wraps() {
    assert_eq!(
        run("\u{2716}9223372036854775807 2"),
        vec![Value::Literal(Literal::Int(-2))]
    );
}

#[test]
fn test_eval_program_example() {
    let stack = run("\u{2716}5\u{2795}2 2\u{1F389}3\u{1FAF8}hello\u{1FAF7}");
    assert_eq!(
        stack,
        vec![
            Value::Literal(Literal::Text("hello".to_string())),
            Value::Literal(Literal::Int(20)),
        ]
    );
}

#[test]
fn test_eval_float_operand_is_no_arithmetic() {
    // floats do not take part in arithmetic: both operands are dropped
    assert_eq!(run("\u{2795}1.5 2"), vec![]);
}

#[test]
fn test_builtin_lookup() {
    let builtins = get_builtins();
    assert_eq!(
        builtins.lookup(&"\u{2716}".to_string()),
        Some(BuiltinOp::Multiply)
    );
    assert_eq!(
        builtins.lookup(&"\u{2795}".to_string()),
        Some(BuiltinOp::Add)
    );
    assert_eq!(
        builtins.lookup(&"\u{2796}".to_string()),
        Some(BuiltinOp::Subtract)
    );
    assert_eq!(
        builtins.lookup(&"\u{1F389}".to_string()),
        Some(BuiltinOp::Discard)
    );
    assert_eq!(builtins.lookup(&"\u{1F388}".to_string()), None);
    assert_eq!(builtins.lookup(&"x".to_string()), None);
}

#[test]
fn test_eval_onto_existing_stack() {
    let ops = parse_ops("\u{2795}1 2").unwrap();
    let builtins = get_builtins();
    let mut stack: AeplStack = vec![Value::Literal(Literal::Int(7))];
    eval_ops(&mut stack, ops, &builtins);
    assert_eq!(
        stack,
        vec![
            Value::Literal(Literal::Int(7)),
            Value::Literal(Literal::Int(3)),
        ]
    );
}
