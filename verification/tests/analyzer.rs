use hulk_compiler::errors::SemanticError;
use hulk_compiler::lexer::Lexer;
use hulk_compiler::parser::ast::{
    Declaration, DeclarationKind, Expr, FunctionDeclaration, Literal, Parameter, Program,
    ProtocolDeclaration, ProtocolMethodSignature, TypeReference,
};
use hulk_compiler::parser::Parser;
use hulk_compiler::semantic::{SemanticAnalyzer, SemanticContext};
use hulk_compiler::span::Span;

fn program_of(code: &str) -> Program {
    let mut lexer = Lexer::new(code.to_string(), "test.hulk".to_string());
    let tokens = lexer.tokenize();
    let mut parser = Parser::new(tokens);
    let (program, errors) = parser.parse_program_with_errors();
    assert!(errors.is_empty(), "{:?}", errors);
    program
}

fn analyze(code: &str) -> (Result<(), SemanticError>, Vec<SemanticError>) {
    let program = program_of(code);
    let mut analyzer = SemanticAnalyzer::new();
    let result = analyzer.analyze(&program);
    (result, analyzer.errors().to_vec())
}

#[test]
fn test_semantic_analyzer_new() {
    let analyzer = SemanticAnalyzer::new();
    assert!(!analyzer.has_errors());
}

#[test]
fn test_semantic_context_new() {
    let ctx = SemanticContext::new();
    assert!(!ctx.has_errors());
}

#[test]
fn test_context_push_and_clear_error() {
    let mut ctx = SemanticContext::new();
    ctx.push_error(SemanticError::UnsupportedFeature {
        feature: "Test error".to_string(),
    });
    assert!(ctx.has_errors());
    assert_eq!(ctx.get_errors().len(), 1);
    ctx.clear_errors();
    assert!(!ctx.has_errors());
}

#[test]
fn accepts_arithmetic_entry() {
    let (result, errors) = analyze("1 + 2;");
    assert!(result.is_ok());
    assert!(errors.is_empty());
}

#[test]
fn reports_undeclared_variable() {
    let (result, errors) = analyze("x + 1;");
    assert_eq!(
        result,
        Err(SemanticError::UndeclaredVariable {
            name: "x".to_string()
        })
    );
    assert_eq!(
        errors[0],
        SemanticError::UndeclaredVariable {
            name: "x".to_string()
        }
    );
}

#[test]
fn reports_invalid_binary_operator() {
    let (result, errors) = analyze("1 + \"a\";");
    assert!(matches!(
        result,
        Err(SemanticError::InvalidBinaryOperator { ref operator, .. }) if operator == "Add"
    ));
    assert_eq!(errors.len(), 1);
}

#[test]
fn let_binding_gives_the_variable_its_type() {
    let (result, _) = analyze("let x = 5 in x + 1;");
    assert!(result.is_ok());
    let (result, _) = analyze("let x = \"s\" in x + 1;");
    assert!(matches!(result, Err(SemanticError::InvalidBinaryOperator { .. })));
    let (result, _) = analyze("let x: Number = \"s\" in x;");
    assert!(matches!(result, Err(SemanticError::TypeMismatch { .. })));
}

#[test]
fn functions_are_declared_and_checked() {
    let (result, errors) = analyze("function f(x: Number): Number => x + 1;\nf(2);");
    assert!(result.is_ok(), "{:?}", errors);
    let (result, _) = analyze("function f(x: Number): Number => x + 1;\nf(\"a\");");
    assert!(matches!(result, Err(SemanticError::ArgumentTypeMismatch { .. })));
    let (result, _) = analyze("function f(x: Number): Number => x + 1;\nf(1, 2);");
    assert!(matches!(result, Err(SemanticError::WrongArgumentCount { .. })));
}

#[test]
fn return_type_mismatch_is_reported() {
    let (result, errors) = analyze("function f(): Number => \"a\";");
    assert_eq!(
        result,
        Err(SemanticError::ReturnTypeMismatch {
            function: "f".to_string(),
            expected: "Number".to_string(),
            found: "String".to_string(),
        })
    );
    assert_eq!(errors.len(), 1);
}

#[test]
fn unknown_annotation_stops_the_check() {
    let (result, errors) = analyze("function f(x: Missing) => x;");
    assert_eq!(
        result,
        Err(SemanticError::UnknownType {
            name: "Missing".to_string()
        })
    );
    assert!(!errors.is_empty());
}

#[test]
fn duplicate_function_is_reported() {
    let (result, _) = analyze("function f() => 1;\nfunction f() => 2;");
    assert!(matches!(
        result,
        Err(SemanticError::FunctionAlreadyDeclared { ref name, .. }) if name == "f"
    ));
}

#[test]
fn types_and_protocols_are_registered() {
    let (result, errors) = analyze(
        "type Point(x: Number) { x: Number = x; }\nprotocol Shape { area(): Number; }\n\
         function g(p: Point, s: Shape) => 1;",
    );
    assert!(result.is_ok(), "{:?}", errors);
    let (result, _) = analyze("type A() inherits Missing() { }");
    assert!(result.is_err());
}

#[test]
fn if_needs_boolean_condition() {
    let (result, _) = analyze("if (1) 2 else 3;");
    assert!(matches!(result, Err(SemanticError::NonBooleanCondition { .. })));
    let (result, _) = analyze("if (true) 2 else 3;");
    assert!(result.is_ok());
}

#[test]
fn builtin_functions_are_known() {
    let (result, errors) = analyze("print(sqrt(4));");
    assert!(result.is_ok(), "{:?}", errors);
}

#[test]
fn functor_parameter_call_ok() {
    let proto_sig = ProtocolMethodSignature {
        name: "invoke".into(),
        parameters: vec![Parameter::new(
            "x".into(),
            Some(TypeReference::new("Number".into(), Span::default())),
            Span::default(),
        )],
        return_type: TypeReference::new("Number".into(), Span::default()),
        span: Span::default(),
    };
    let proto_decl = ProtocolDeclaration {
        name: "Callable".into(),
        extends: vec![],
        members: vec![proto_sig],
    };
    let func = FunctionDeclaration {
        name: "use_functor".into(),
        parameters: vec![Parameter::new(
            "f".into(),
            Some(TypeReference::new("Callable".into(), Span::default())),
            Span::default(),
        )],
        return_type: Some(TypeReference::new("Number".into(), Span::default())),
        body: Expr::call(
            Expr::identifier("f".into(), Span::default()),
            vec![Expr::literal(Literal::Number("1".into()), Span::default())],
            Span::default(),
        ),
    };
    let program = Program::new(
        vec![
            Declaration::new(DeclarationKind::Protocol(proto_decl), Span::default()),
            Declaration::new(DeclarationKind::Function(func), Span::default()),
        ],
        None,
        Span::default(),
    );
    let mut analyzer = SemanticAnalyzer::new();
    let res = analyzer.analyze(&program);
    assert!(res.is_ok(), "{:?} {:?}", res, analyzer.errors());
    assert!(!analyzer.has_errors());
}

#[test]
fn earlier_errors_make_analysis_fail() {
    let program = program_of("1;");
    let mut analyzer = SemanticAnalyzer::new();
    analyzer.report_error(SemanticError::UnsupportedFeature {
        feature: "x".to_string(),
    });
    assert!(analyzer.analyze(&program).is_err());
    assert!(analyzer.has_errors());
}

#[test]
fn return_annotations_are_checked_before_parameter_annotations() {
    let (result, _) = analyze("function f(x: First) => x;\nfunction g(): Second => 1;");
    assert_eq!(result, Err(SemanticError::UnknownType { name: "Second".to_string() }));
}

#[test]
fn first_unknown_parameter_annotation_is_reported() {
    let (result, _) = analyze("function f(x: Number, y: Alpha, z: Beta) => x;\nfunction g(w: Gamma) => 1;");
    assert_eq!(result, Err(SemanticError::UnknownType { name: "Alpha".to_string() }));
}

#[test]
fn declared_types_can_be_used_in_later_annotations() {
    let (result, errors) = analyze("function f(p: Later): Later => p;\ntype Later() { }");
    assert!(result.is_ok(), "{:?}", errors);
}

#[test]
fn entry_errors_come_in_the_order_of_the_expression() {
    let (result, errors) = analyze("let x: Number = \"a\" in y + true;");
    assert!(result.is_err());
    assert_eq!(errors.len(), 3);
    assert!(matches!(&errors[0], SemanticError::TypeMismatch { expected, found, .. }
        if expected == "Number" && found == "String"));
    assert!(matches!(&errors[1], SemanticError::UndeclaredVariable { name } if name == "y"));
    assert!(matches!(&errors[2], SemanticError::InvalidBinaryOperator { .. }));
}

#[test]
fn builtin_call_with_wrong_arity_is_reported() {
    let (result, errors) = analyze("print(1, 2);");
    assert!(matches!(result, Err(SemanticError::WrongArgumentCount { expected: 1, found: 2, .. })));
    assert_eq!(errors.len(), 1);
}

#[test]
fn let_variable_takes_the_type_of_its_value() {
    let (result, errors) = analyze("let x = \"a\" in x @ \"b\";");
    assert!(result.is_ok());
    assert!(errors.is_empty());
}

#[test]
fn type_declared_twice_is_reported() {
    let (result, errors) = analyze("type A() { } type A() { } 1;");
    assert!(result.is_err());
    assert!(errors.iter().any(|e| matches!(e, SemanticError::TypeAlreadyDeclared { name, .. } if name == "A")));
}

#[test]
fn return_type_mismatch_is_reported_after_declarations() {
    let (result, errors) = analyze("function f(): Number => \"a\"; f();");
    assert!(result.is_err());
    assert!(errors.iter().any(|e| matches!(e, SemanticError::ReturnTypeMismatch { function, .. } if function == "f")));
}
