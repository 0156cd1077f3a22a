use hulk_compiler::errors::SemanticError;
use hulk_compiler::parser::ast::{
    AttributeDeclaration, Expr, FunctionDeclaration, Literal, Parameter, ProtocolMethodSignature, TypeDeclaration,
    TypeMember, TypeReference,
};
use hulk_compiler::semantic::type_system::{NormalizedType, ProtocolInfo, TypeEnvironment, TypeInfo};
use hulk_compiler::span::Span;

fn type_info(name: &str, parent: Option<&str>, methods: Vec<FunctionDeclaration>) -> TypeInfo {
    TypeInfo {
        name: name.to_string(),
        parameters: vec![],
        parent: parent.map(|p| p.to_string()),
        methods,
        properties: vec![],
        implemented_protocols: vec![],
        span: Span::default(),
    }
}

fn method(name: &str, ret: &str) -> FunctionDeclaration {
    FunctionDeclaration {
        name: name.to_string(),
        parameters: vec![],
        return_type: Some(TypeReference::new(ret.to_string(), Span::default())),
        body: Expr::literal(Literal::Number("0".to_string()), Span::default()),
    }
}

fn protocol(name: &str, member: &str, ret: &str, extends: Vec<&str>) -> ProtocolInfo {
    ProtocolInfo {
        name: name.to_string(),
        members: vec![ProtocolMethodSignature {
            name: member.to_string(),
            parameters: vec![],
            return_type: TypeReference::new(ret.to_string(), Span::default()),
            span: Span::default(),
        }],
        extends: extends.into_iter().map(|e| e.to_string()).collect(),
        span: Span::default(),
    }
}

fn named(n: &str) -> NormalizedType {
    NormalizedType::Named(n.to_string())
}

#[test]
fn test_normalized_type_builtin() {
    assert_eq!(NormalizedType::Number.to_text(), "Number");
    assert_eq!(NormalizedType::String.to_text(), "String");
    assert_eq!(NormalizedType::Boolean.to_text(), "Boolean");
}

#[test]
fn test_normalized_type_iterable() {
    let iter_num = NormalizedType::Iterable(Box::new(NormalizedType::Number));
    assert_eq!(iter_num.to_text(), "Number*");
    assert_eq!(NormalizedType::Vector(Box::new(named("P"))).to_text(), "P[]");
    assert_eq!(NormalizedType::Unknown.to_text(), "?");
}

#[test]
fn test_type_environment_new() {
    let env = TypeEnvironment::new();
    let names: Vec<&str> = env.all_types().iter().map(|t| t.name.as_str()).collect();
    assert_eq!(names, vec!["Range", "Object"]);
    assert!(env.has_protocol("Iterable"));
    assert!(env.type_implements("Range", "Iterable"));
    assert!(env.has_type("Number"));
    assert!(!env.has_type("Point"));
}

#[test]
fn test_is_compatible_subtype() {
    let mut env = TypeEnvironment::new();
    env.register_type(type_info("A", None, vec![])).unwrap();
    env.register_type(type_info("B", Some("A"), vec![])).unwrap();
    assert!(env.is_compatible(&named("B"), &named("A")));
    assert!(!env.is_compatible(&named("A"), &named("B")));
}

#[test]
fn test_protocol_conformance_positive() {
    let mut env = TypeEnvironment::new();
    env.register_protocol(protocol("P", "m", "Number", vec![])).unwrap();
    env.register_type(type_info("A", None, vec![method("m", "Number")])).unwrap();
    assert!(env.type_conforms_to_protocol("A", "P"));
}

#[test]
fn test_protocol_conformance_negative_missing_method() {
    let mut env = TypeEnvironment::new();
    env.register_protocol(protocol("P2", "m", "Number", vec![])).unwrap();
    env.register_type(type_info("B", None, vec![])).unwrap();
    assert!(!env.type_conforms_to_protocol("B", "P2"));
}

#[test]
fn test_register_type_inherit_from_undeclared() {
    let mut env = TypeEnvironment::new();
    let res = env.register_type(type_info("X", Some("Missing"), vec![]));
    assert!(matches!(res, Err(SemanticError::InheritFromUndeclared { .. })));
    assert!(env.get_type("X").is_none());
}

#[test]
fn test_register_type_self_inherit() {
    let mut env = TypeEnvironment::new();
    let res = env.register_type(type_info("Selfy", Some("Selfy"), vec![]));
    match res {
        Err(SemanticError::CircularInheritance { child_name, cycle }) => {
            assert_eq!(child_name, "Selfy");
            assert_eq!(cycle, vec!["Selfy".to_string(), "Selfy".to_string()]);
        }
        _ => panic!("expected a circular inheritance error"),
    }
}

#[test]
fn test_register_protocol_extends_undeclared() {
    let mut env = TypeEnvironment::new();
    let res = env.register_protocol(protocol("P3", "m", "Number", vec!["UnknownProto"]));
    match res {
        Err(SemanticError::UndeclaredProtocol { name }) => assert_eq!(name, "UnknownProto"),
        _ => panic!("expected an undeclared protocol error"),
    }
}

#[test]
fn test_protocol_conformance_inherited_method() {
    let mut env = TypeEnvironment::new();
    env.register_type(type_info("Parent", None, vec![method("m", "Number")])).unwrap();
    env.register_type(type_info("Child", Some("Parent"), vec![])).unwrap();
    env.register_protocol(protocol("PChild", "m", "Number", vec![])).unwrap();
    assert!(env.type_conforms_to_protocol("Child", "PChild"));
}

#[test]
fn duplicate_and_builtin_parents_are_refused() {
    let mut env = TypeEnvironment::new();
    env.register_type(type_info("A", None, vec![])).unwrap();
    match env.register_type(type_info("A", None, vec![])) {
        Err(SemanticError::TypeAlreadyDeclared { name, first_line, first_column }) => {
            assert_eq!((name.as_str(), first_line, first_column), ("A", 0, 0));
        }
        _ => panic!("expected a duplicate"),
    }
    assert!(matches!(
        env.register_type(type_info("C", Some("Object"), vec![])),
        Err(SemanticError::InheritFromUndeclared { .. })
    ));
    assert!(matches!(
        env.register_protocol(protocol("Iterable", "x", "Number", vec![])),
        Err(SemanticError::ProtocolAlreadyDeclared { .. })
    ));
}

#[test]
fn hierarchy_queries() {
    let mut env = TypeEnvironment::new();
    env.register_type(type_info("A", None, vec![method("m", "Number")])).unwrap();
    env.register_type(type_info("B", Some("A"), vec![])).unwrap();
    env.register_type(type_info("C", Some("B"), vec![method("m", "String")])).unwrap();
    env.register_type(type_info("D", Some("A"), vec![])).unwrap();
    assert_eq!(env.get_ancestors("C"), vec!["B".to_string(), "A".to_string()]);
    assert!(env.get_ancestors("A").is_empty());
    assert!(env.is_subtype("C", "A"));
    assert!(env.is_subtype("A", "A"));
    assert!(!env.is_subtype("A", "C"));
    assert!(!env.is_subtype("Number", "Object"));
    assert_eq!(env.get_parent_type("C"), Some("B".to_string()));
    assert_eq!(env.common_supertype(&named("C"), &named("D")), Some(named("A")));
    assert_eq!(env.common_supertype(&named("C"), &named("B")), Some(named("B")));
    assert_eq!(env.common_supertype(&named("C"), &NormalizedType::Unknown), Some(named("C")));
    assert_eq!(env.common_supertype(&NormalizedType::Number, &NormalizedType::String), None);
    assert_eq!(env.common_supertype(&named("C"), &named("Range")), None);
    let m = env.get_method_in_parent("C", "m").unwrap();
    assert_eq!(m.return_type, Some(TypeReference::new("Number".to_string(), Span::default())));
    assert!(env.get_method_in_parent("A", "m").is_none());
    assert!(env.can_use_is(&named("C"), &named("D")));
    assert!(!env.can_use_is(&NormalizedType::Number, &NormalizedType::String));
    assert!(env.can_use_is(&NormalizedType::Unknown, &NormalizedType::String));
    assert_eq!(env.resolve_self_type("C"), named("C"));
}

#[test]
fn types_equal_treats_protocols_apart() {
    let env = TypeEnvironment::new();
    let p = NormalizedType::Protocol("Iterable".to_string());
    assert!(!env.types_equal(&p, &p));
    assert!(env.types_equal(
        &NormalizedType::Vector(Box::new(NormalizedType::Number)),
        &NormalizedType::Vector(Box::new(NormalizedType::Number))
    ));
    assert!(env.is_compatible(&p, &p));
    assert!(env.is_compatible(&named("Range"), &p));
}

#[test]
fn range_does_not_conform_structurally_to_iterable() {
    let env = TypeEnvironment::new();
    assert!(!env.type_conforms_to_protocol("Range", "Iterable"));
    assert!(!env.type_conforms_to_protocol("Range", "Missing"));
}

#[test]
fn validation_of_type_references_and_declarations() {
    let mut env = TypeEnvironment::new();
    env.register_type(type_info("A", None, vec![])).unwrap();
    let vec_a = TypeReference::vector_of(TypeReference::new("A".to_string(), Span::default()), Span::default());
    assert_eq!(env.validate_type_reference(&vec_a), Ok(NormalizedType::Vector(Box::new(named("A")))));
    assert_eq!(
        env.validate_type_reference(&TypeReference::new("Iterable".to_string(), Span::default())),
        Ok(NormalizedType::Protocol("Iterable".to_string()))
    );
    assert_eq!(
        env.validate_type_reference(&TypeReference::new("Object".to_string(), Span::default())),
        Ok(named("Object"))
    );
    assert_eq!(
        env.validate_type_reference(&TypeReference::iterable_of(
            TypeReference::new("Nope".to_string(), Span::default()),
            Span::default()
        )),
        Err(SemanticError::UnknownType { name: "Nope".to_string() })
    );
    let mut f = method("f", "Zap");
    f.parameters = vec![Parameter::new(
        "x".to_string(),
        Some(TypeReference::new("Bad".to_string(), Span::default())),
        Span::default(),
    )];
    assert_eq!(env.validate_function_signature(&f), Err(SemanticError::UnknownType { name: "Bad".to_string() }));

    let td = TypeDeclaration {
        name: "B".to_string(),
        parameters: vec![],
        inherits: Some(TypeReference::new("A".to_string(), Span::default())),
        parent_arguments: vec![Expr::literal(Literal::Boolean(true), Span::default())],
        members: vec![],
    };
    assert_eq!(
        env.validate_type_declaration(&td),
        Err(SemanticError::InvalidConstructor {
            constructed: "B".to_string(),
            reason: "parent arguments arity mismatch: expected 0, got 1".to_string()
        })
    );
    let td2 = TypeDeclaration {
        name: "B".to_string(),
        parameters: vec![],
        inherits: Some(TypeReference::new("Number".to_string(), Span::default())),
        parent_arguments: vec![],
        members: vec![],
    };
    assert_eq!(
        env.validate_type_declaration(&td2),
        Err(SemanticError::InvalidConstructor {
            constructed: "B".to_string(),
            reason: "cannot inherit from builtin 'Number'".to_string()
        })
    );
    let td3 = TypeDeclaration {
        name: "B".to_string(),
        parameters: vec![],
        inherits: None,
        parent_arguments: vec![],
        members: vec![TypeMember::Attribute(AttributeDeclaration {
            name: "x".to_string(),
            annotation: Some(TypeReference::new("Ghost".to_string(), Span::default())),
            initializer: Expr::literal(Literal::Boolean(true), Span::default()),
            span: Span::default(),
        })],
    };
    assert_eq!(env.validate_type_declaration(&td3), Err(SemanticError::UnknownType { name: "Ghost".to_string() }));
}

#[test]
fn declared_implementations_are_recorded_in_order() {
    let mut env = TypeEnvironment::new();
    env.add_type_implements("A".to_string(), "P".to_string());
    env.add_type_implements("A".to_string(), "Q".to_string());
    env.add_type_implements("Range".to_string(), "Q".to_string());
    assert!(env.type_implements("A", "P"));
    assert!(env.type_implements("A", "Q"));
    assert!(env.type_implements("Range", "Iterable"));
    assert!(env.type_implements("Range", "Q"));
    assert!(!env.type_implements("B", "P"));
}
