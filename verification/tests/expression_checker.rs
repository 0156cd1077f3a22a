use hulk_compiler::errors::SemanticError;
use hulk_compiler::parser::ast::{BinaryOperator, Expr, Literal};
use hulk_compiler::semantic::expression_checker::{ExpressionChecker, ExpressionType};
use hulk_compiler::semantic::type_system::NormalizedType;
use hulk_compiler::span::Span;

fn sp() -> Span {
    Span::default()
}

#[test]
fn literals_have_their_types() {
    let c = ExpressionChecker::new();
    let t = c.check_literal(&Expr::literal(Literal::Pi, sp())).unwrap();
    assert_eq!(t.type_, NormalizedType::Number);
    assert!(!t.is_lvalue);
    let t = c.check_literal(&Expr::literal(Literal::String("s".to_string()), sp())).unwrap();
    assert_eq!(t.type_, NormalizedType::String);
    assert!(matches!(
        c.check_literal(&Expr::identifier("x".to_string(), sp())),
        Err(SemanticError::UnsupportedExpression { .. })
    ));
}

#[test]
fn binary_operators() {
    let c = ExpressionChecker::new();
    let n = NormalizedType::Number;
    let s = NormalizedType::String;
    assert_eq!(c.check_binary_op(&n, &BinaryOperator::Add, &n, &sp()).unwrap().type_, NormalizedType::Number);
    assert_eq!(c.check_binary_op(&s, &BinaryOperator::Concat, &s, &sp()).unwrap().type_, NormalizedType::String);
    assert_eq!(c.check_binary_op(&s, &BinaryOperator::Equal, &s, &sp()).unwrap().type_, NormalizedType::Boolean);
    assert_eq!(
        c.check_binary_op(&n, &BinaryOperator::Add, &s, &sp()).unwrap_err(),
        SemanticError::InvalidBinaryOperator {
            operator: "Add".to_string(),
            left_type: "Number".to_string(),
            right_type: "String".to_string()
        }
    );
    assert_eq!(
        c.check_binary_op(&n, &BinaryOperator::Less, &s, &sp()).unwrap_err(),
        SemanticError::IncomparableTypes { left_type: "Number".to_string(), right_type: "String".to_string() }
    );
}

#[test]
fn unary_operators() {
    let c = ExpressionChecker::new();
    assert!(c.check_unary_op(&NormalizedType::Number, true, &sp()).is_ok());
    assert_eq!(
        c.check_unary_op(&NormalizedType::Number, false, &sp()).unwrap_err(),
        SemanticError::InvalidUnaryOperator { operator: "!".to_string(), operand_type: "Number".to_string() }
    );
}

#[test]
fn builtin_and_declared_calls() {
    let c = ExpressionChecker::new();
    let n = NormalizedType::Number;
    assert_eq!(c.check_function_call("sqrt", &[n.clone()], None, None, &sp()).unwrap().type_, n);
    assert_eq!(
        c.check_function_call("log", &[n.clone(), NormalizedType::String], None, None, &sp()).unwrap_err(),
        SemanticError::ArgumentTypeMismatch {
            function: "log".to_string(),
            parameter_name: "value".to_string(),
            parameter_position: 1,
            expected: "Number".to_string(),
            found: "String".to_string()
        }
    );
    assert_eq!(
        c.check_function_call("print", &[], None, None, &sp()).unwrap_err(),
        SemanticError::WrongArgumentCount { function: "print".to_string(), expected: 1, found: 0 }
    );
    let params = vec![("a".to_string(), n.clone()), ("b".to_string(), NormalizedType::Boolean)];
    assert_eq!(
        c.check_function_call("f", &[n.clone(), n.clone()], Some(&params), Some(&NormalizedType::String), &sp())
            .unwrap_err(),
        SemanticError::ArgumentTypeMismatch {
            function: "f".to_string(),
            parameter_name: "b".to_string(),
            parameter_position: 1,
            expected: "Boolean".to_string(),
            found: "Number".to_string()
        }
    );
    assert_eq!(
        c.check_function_call("f", &[NormalizedType::Unknown, NormalizedType::Boolean], Some(&params), None, &sp())
            .unwrap()
            .type_,
        NormalizedType::Unknown
    );
}

#[test]
fn conditionals_blocks_and_loops() {
    let c = ExpressionChecker::new();
    let b = NormalizedType::Boolean;
    let n = NormalizedType::Number;
    assert_eq!(c.check_if_expression(&b, &n, &[(b.clone(), n.clone())], Some(&n), &sp()).unwrap().type_, n);
    assert_eq!(
        c.check_if_expression(&b, &n, &[(n.clone(), n.clone())], None, &sp()).unwrap_err(),
        SemanticError::NonBooleanCondition { found_type: "Number".to_string(), context: "elif".to_string() }
    );
    assert_eq!(
        c.check_if_expression(&b, &n, &[], Some(&b), &sp()).unwrap_err(),
        SemanticError::IncompatibleBranchTypes { then_type: "Number".to_string(), else_type: "Boolean".to_string() }
    );
    assert_eq!(c.check_block(&[]).unwrap().type_, NormalizedType::Unknown);
    assert_eq!(c.check_block(&[b.clone(), n.clone()]).unwrap().type_, n);
    assert!(matches!(
        c.check_while_expression(&n, &n, &sp()),
        Err(SemanticError::NonBooleanCondition { .. })
    ));
}

#[test]
fn lets_assignments_and_access() {
    let c = ExpressionChecker::new();
    let n = NormalizedType::Number;
    let s = NormalizedType::String;
    assert_eq!(
        c.check_let_expression(Some(&n), Some(&s), &sp()).unwrap_err(),
        SemanticError::TypeMismatch {
            expected: "Number".to_string(),
            found: "String".to_string(),
            context: "asignación en let".to_string()
        }
    );
    assert_eq!(c.check_let_expression(None, Some(&s), &sp()).unwrap().type_, s);
    let target = ExpressionType::value(n.clone());
    assert!(matches!(
        c.check_assignment_expression(&target, &n, &sp()),
        Err(SemanticError::InvalidTarget { .. })
    ));
    let place = ExpressionType::lvalue(n.clone());
    assert!(c.check_assignment_expression(&place, &NormalizedType::Unknown, &sp()).is_ok());
    let v = NormalizedType::Vector(Box::new(s.clone()));
    let r = c.check_index_access(&v, &n, &sp()).unwrap();
    assert_eq!(r.type_, s);
    assert!(r.is_lvalue);
    assert_eq!(
        c.check_index_access(&n, &n, &sp()).unwrap_err(),
        SemanticError::NotIndexable { found_type: "Number".to_string() }
    );
    assert_eq!(
        c.check_member_access(&NormalizedType::Named("P".to_string()), "x", None, &sp()).unwrap_err(),
        SemanticError::MemberNotFound { owner: "P".to_string(), member_name: "x".to_string() }
    );
}

#[test]
fn vectors_and_constructors() {
    let c = ExpressionChecker::new();
    let n = NormalizedType::Number;
    let s = NormalizedType::String;
    assert_eq!(
        c.check_vector_literal(&[n.clone(), NormalizedType::Unknown, s.clone()], &sp()).unwrap_err(),
        SemanticError::InconsistentArrayTypes { expected: "Number".to_string(), found: "String".to_string(), position: 2 }
    );
    assert_eq!(
        c.check_vector_literal(&[], &sp()).unwrap().type_,
        NormalizedType::Vector(Box::new(NormalizedType::Unknown))
    );
    let params = vec![("x".to_string(), n.clone())];
    assert_eq!(
        c.check_new("Point", &[], Some(&params), &sp()).unwrap_err(),
        SemanticError::InvalidConstructor {
            constructed: "Point".to_string(),
            reason: "esperaba 1 argumentos, recibió 0".to_string()
        }
    );
    assert_eq!(
        c.check_new("Point", &[n.clone()], Some(&params), &sp()).unwrap().type_,
        NormalizedType::Named("Point".to_string())
    );
    assert_eq!(
        c.check_iterable_usage(&n, &NormalizedType::Unknown, &sp()).unwrap().type_,
        NormalizedType::Iterable(Box::new(n.clone()))
    );
}
