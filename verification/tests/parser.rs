use hulk_compiler::errors::ParserError;
use hulk_compiler::lexer::Lexer;
use hulk_compiler::lexer::Token;
use hulk_compiler::lexer::TokenType;
use hulk_compiler::parser::ast::{
    BinaryOperator, Declaration, DeclarationKind, Expr, ExprKind, FunctionDeclaration, Literal,
    Program, ProtocolDeclaration, ProtocolMethodSignature, TypeDeclaration, TypeMember,
    TypeReference, TypeReferenceKind, UnaryOperator,
};
use hulk_compiler::parser::{Parser, TokenCursor};
use hulk_compiler::span::Span;

fn create_token(lexeme: &str, token_type: TokenType) -> Token {
    Token::new(
        lexeme.to_string(),
        token_type,
        Span::new("test".to_string(), 1, 1, 1, 1),
    )
}

fn parser_for(code: &str) -> Parser {
    let mut lexer = Lexer::new(code.to_string(), "test.hulk".to_string());
    let tokens = lexer.tokenize();
    Parser::new(tokens)
}

fn number(n: &str) -> TokenType {
    TokenType::Number(n.to_string())
}

// ---------------------------------------------------------------------------
// TokenCursor
// ---------------------------------------------------------------------------

#[test]
fn test_cursor_peek() {
    let tokens = vec![
        create_token("+", TokenType::Plus),
        create_token("5", number("5")),
        create_token("*", TokenType::Star),
        Token::eof("test".to_string(), 1, 1),
    ];

    let cursor = TokenCursor::new(tokens);

    assert_eq!(cursor.peek().token_type, TokenType::Plus);
    assert_eq!(cursor.current_position(), 0);
}

#[test]
fn test_cursor_advance() {
    let tokens = vec![
        create_token("+", TokenType::Plus),
        create_token("5", number("5")),
        create_token("*", TokenType::Star),
        Token::eof("test".to_string(), 1, 1),
    ];

    let mut cursor = TokenCursor::new(tokens);

    assert_eq!(cursor.peek().token_type, TokenType::Plus);
    cursor.advance();
    assert_eq!(cursor.current_position(), 1);
    assert_eq!(cursor.peek().token_type, number("5"));
}

#[test]
fn test_cursor_consume_match() {
    let tokens = vec![
        create_token("let", TokenType::Let),
        create_token("x", TokenType::Identifier("x".to_string())),
        create_token("=", TokenType::Equal),
        Token::eof("test".to_string(), 1, 1),
    ];

    let mut cursor = TokenCursor::new(tokens);

    assert!(cursor.consume(&TokenType::Let).is_some());
    assert_eq!(cursor.current_position(), 1);

    assert!(cursor.consume(&TokenType::Plus).is_none());
    assert_eq!(cursor.current_position(), 1);
}

#[test]
fn test_cursor_check() {
    let tokens = vec![
        create_token("if", TokenType::If),
        create_token("(", TokenType::LeftParen),
        create_token("x", TokenType::Identifier("x".to_string())),
        Token::eof("test".to_string(), 1, 1),
    ];

    let cursor = TokenCursor::new(tokens);

    assert!(cursor.check(&TokenType::If));
    assert!(!cursor.check(&TokenType::LeftParen));
    assert_eq!(cursor.current_position(), 0);
}

#[test]
fn test_cursor_check_any() {
    let tokens = vec![
        create_token("if", TokenType::If),
        create_token("(", TokenType::LeftParen),
        Token::eof("test".to_string(), 1, 1),
    ];

    let cursor = TokenCursor::new(tokens);

    assert!(cursor.check_any(&[TokenType::While, TokenType::If]));
    assert!(!cursor.check_any(&[TokenType::While, TokenType::For]));
}

#[test]
fn test_cursor_match_token() {
    let tokens = vec![
        create_token("+", TokenType::Plus),
        create_token("5", number("5")),
        Token::eof("test".to_string(), 1, 1),
    ];

    let mut cursor = TokenCursor::new(tokens);

    assert!(cursor.match_token(&TokenType::Plus));
    assert_eq!(cursor.current_position(), 1);

    assert!(!cursor.match_token(&TokenType::Plus));
    assert_eq!(cursor.current_position(), 1);
}

#[test]
fn test_cursor_match_any() {
    let tokens = vec![
        create_token("&", TokenType::Ampersand),
        create_token("x", TokenType::Identifier("x".to_string())),
        Token::eof("test".to_string(), 1, 1),
    ];

    let mut cursor = TokenCursor::new(tokens);

    assert!(cursor.match_any(&[TokenType::Pipe, TokenType::Ampersand]));
    assert_eq!(cursor.current_position(), 1);

    assert!(!cursor.match_any(&[TokenType::Plus, TokenType::Minus]));
    assert_eq!(cursor.current_position(), 1);
}

#[test]
fn test_cursor_backtrack() {
    let tokens = vec![
        create_token("+", TokenType::Plus),
        create_token("5", number("5")),
        create_token("*", TokenType::Star),
        Token::eof("test".to_string(), 1, 1),
    ];

    let mut cursor = TokenCursor::new(tokens);

    cursor.advance();
    cursor.advance();
    assert_eq!(cursor.current_position(), 2);

    cursor.backtrack();
    assert_eq!(cursor.current_position(), 1);
}

#[test]
fn test_cursor_is_at_end() {
    let tokens = vec![
        create_token("+", TokenType::Plus),
        Token::eof("test".to_string(), 1, 1),
    ];

    let mut cursor = TokenCursor::new(tokens);

    assert!(!cursor.is_at_end());
    cursor.advance();
    assert!(cursor.is_at_end());
}

#[test]
fn test_cursor_set_position() {
    let tokens = vec![
        create_token("+", TokenType::Plus),
        create_token("5", number("5")),
        create_token("*", TokenType::Star),
        Token::eof("test".to_string(), 1, 1),
    ];

    let mut cursor = TokenCursor::new(tokens);

    cursor.set_position(2);
    assert_eq!(cursor.current_position(), 2);
    assert_eq!(cursor.peek().token_type, TokenType::Star);

    cursor.set_position(100);
    assert!(cursor.current_position() < 100);
}

#[test]
fn test_cursor_token_count() {
    let tokens = vec![
        create_token("+", TokenType::Plus),
        create_token("5", number("5")),
        create_token("*", TokenType::Star),
        Token::eof("test".to_string(), 1, 1),
    ];

    let cursor = TokenCursor::new(tokens);

    assert_eq!(cursor.token_count(), 4);
}

#[test]
fn cursor_never_passes_the_last_token() {
    let tokens = vec![
        create_token("+", TokenType::Plus),
        Token::eof("test".to_string(), 1, 1),
    ];
    let mut cursor = TokenCursor::new(tokens);
    cursor.advance();
    cursor.advance();
    cursor.advance();
    assert_eq!(cursor.current_position(), 1);
    cursor.backtrack();
    cursor.backtrack();
    assert_eq!(cursor.current_position(), 0);
}

// ---------------------------------------------------------------------------
// AST nodes
// ---------------------------------------------------------------------------

#[test]
fn test_program_ast_root() {
    let span = Span::new("test".to_string(), 1, 1, 1, 10);
    let entry = Some(Expr::literal(Literal::Number("1".to_string()), span.clone()));
    let program = Program::new(Vec::new(), entry, span.clone());

    assert!(program.declarations.is_empty());
    assert!(program.entry_expression.is_some());
    assert_eq!(program.span, span);
}

#[test]
fn test_expr_binary_node() {
    let span = Span::new("test".to_string(), 1, 1, 1, 5);
    let left = Expr::literal(Literal::Number("2".to_string()), span.clone());
    let right = Expr::literal(Literal::Number("3".to_string()), span.clone());
    let expr = Expr::binary(left, BinaryOperator::Add, right, span.clone());

    match expr.kind {
        ExprKind::Binary { operator, .. } => assert_eq!(operator, BinaryOperator::Add),
        _ => panic!("expected a binary node"),
    }
    assert_eq!(expr.span, span);
}

#[test]
fn test_declaration_function_shape() {
    let span = Span::new("test".to_string(), 1, 1, 1, 15);
    let return_type = TypeReference::new("Number".to_string(), span.clone());
    let body = Expr::literal(Literal::Number("42".to_string()), span.clone());
    let function = Declaration::new(
        DeclarationKind::Function(FunctionDeclaration {
            name: "answer".to_string(),
            parameters: Vec::new(),
            return_type: Some(return_type),
            body,
        }),
        span.clone(),
    );

    match function.kind {
        DeclarationKind::Function(ref declaration) => {
            assert_eq!(declaration.name, "answer");
            assert!(declaration.parameters.is_empty());
        }
        _ => panic!("expected a function declaration"),
    }
    assert_eq!(function.span, span);
}

#[test]
fn test_if_expr_node() {
    let span = Span::new("test".to_string(), 1, 1, 1, 20);
    let condition = Expr::identifier("x".to_string(), span.clone());
    let then_expr = Expr::literal(Literal::Number("1".to_string()), span.clone());
    let else_expr = Some(Expr::literal(Literal::Number("0".to_string()), span.clone()));

    let if_node = Expr::if_expr(condition, then_expr, vec![], else_expr, span.clone());

    match if_node.kind {
        ExprKind::If {
            ref condition,
            ref then_expr,
            ref else_expr,
            ..
        } => {
            assert!(matches!(condition.kind, ExprKind::Identifier(_)));
            assert!(matches!(
                then_expr.kind,
                ExprKind::Literal(Literal::Number(ref n)) if n == "1"
            ));
            assert!(else_expr.is_some());
        }
        _ => panic!("expected an if expression"),
    }
}

#[test]
fn test_while_expr_node() {
    let span = Span::new("test".to_string(), 1, 1, 1, 15);
    let condition = Expr::identifier("keep_going".to_string(), span.clone());
    let body = Expr::literal(Literal::Number("42".to_string()), span.clone());

    let while_node = Expr::while_expr(condition, body, span.clone());

    match while_node.kind {
        ExprKind::While {
            ref condition,
            ref body,
        } => {
            assert!(matches!(condition.kind, ExprKind::Identifier(_)));
            assert!(matches!(body.kind, ExprKind::Literal(_)));
        }
        _ => panic!("expected a while expression"),
    }
}

#[test]
fn test_for_expr_node() {
    let span = Span::new("test".to_string(), 1, 1, 1, 15);
    let iterable = Expr::identifier("items".to_string(), span.clone());
    let body = Expr::identifier("i".to_string(), span.clone());

    let for_node = Expr::for_expr("i".to_string(), iterable, body, span.clone());

    match for_node.kind {
        ExprKind::For {
            ref variable,
            ref iterable,
            ref body,
        } => {
            assert_eq!(variable, "i");
            assert!(matches!(iterable.kind, ExprKind::Identifier(_)));
            assert!(matches!(body.kind, ExprKind::Identifier(_)));
        }
        _ => panic!("expected a for expression"),
    }
}

#[test]
fn test_member_access_node() {
    let span = Span::new("test".to_string(), 1, 1, 1, 10);
    let object = Expr::identifier("obj".to_string(), span.clone());

    let access = Expr::member_access(object, "property".to_string(), span.clone());

    match &access.kind {
        ExprKind::MemberAccess { object: _, member } => {
            assert_eq!(member, "property");
        }
        _ => panic!("expected a member access"),
    }
}

#[test]
fn test_type_check_node() {
    let span = Span::new("test".to_string(), 1, 1, 1, 10);
    let expr = Expr::identifier("x".to_string(), span.clone());
    let type_ref = TypeReference::new("Number".to_string(), span.clone());

    let check = Expr::type_check(expr, type_ref, span.clone());

    match &check.kind {
        ExprKind::TypeCheck {
            expr: _,
            type_ref: tr,
        } => {
            assert_eq!(tr.display_name(), "Number");
        }
        _ => panic!("expected a type check"),
    }
}

#[test]
fn test_new_expr_node() {
    let span = Span::new("test".to_string(), 1, 1, 1, 10);
    let type_ref = TypeReference::new("MyClass".to_string(), span.clone());
    let arguments = vec![Expr::literal(Literal::Number("1".to_string()), span.clone())];

    let new_node = Expr::new_expr(type_ref.clone(), arguments, span.clone());

    match &new_node.kind {
        ExprKind::New {
            type_ref: tr,
            arguments: args,
        } => {
            assert_eq!(tr.display_name(), "MyClass");
            assert_eq!(args.len(), 1);
        }
        _ => panic!("expected a new expression"),
    }
}

#[test]
fn test_vector_literal_expr_node() {
    let span = Span::new("test".to_string(), 1, 1, 1, 10);
    let elements = vec![
        Expr::literal(Literal::Number("1".to_string()), span.clone()),
        Expr::literal(Literal::Number("2".to_string()), span.clone()),
    ];

    let vector = Expr::vector_literal(elements, span.clone());

    match vector.kind {
        ExprKind::VectorLiteral(items) => assert_eq!(items.len(), 2),
        _ => panic!("expected a vector literal"),
    }
}

#[test]
fn test_vector_comprehension_expr_node() {
    let span = Span::new("test".to_string(), 1, 1, 1, 20);
    let element_expr = Expr::binary(
        Expr::identifier("x".to_string(), span.clone()),
        BinaryOperator::Power,
        Expr::literal(Literal::Number("2".to_string()), span.clone()),
        span.clone(),
    );
    let iterable = Expr::identifier("numbers".to_string(), span.clone());

    let vector = Expr::vector_comprehension(element_expr, "x".to_string(), iterable, span.clone());

    match vector.kind {
        ExprKind::VectorComprehension { binding, .. } => assert_eq!(binding, "x"),
        _ => panic!("expected a vector comprehension"),
    }
}

#[test]
fn test_type_reference_iterable_and_vector() {
    let span = Span::new("test".to_string(), 1, 1, 1, 8);
    let number = TypeReference::new("Number".to_string(), span.clone());
    let iterable = TypeReference::iterable_of(number.clone(), span.clone());
    let vector = TypeReference::vector_of(number, span.clone());

    assert_eq!(iterable.display_name(), "Number*");
    assert_eq!(vector.display_name(), "Number[]");
    assert!(matches!(iterable.kind, TypeReferenceKind::Iterable(_)));
    assert!(matches!(vector.kind, TypeReferenceKind::Vector(_)));
}

#[test]
fn test_protocol_method_signature_has_no_body() {
    let span = Span::new("test".to_string(), 1, 1, 1, 20);
    let method = ProtocolMethodSignature {
        name: "next".to_string(),
        parameters: Vec::new(),
        return_type: TypeReference::new("Boolean".to_string(), span.clone()),
        span: span.clone(),
    };
    let protocol = ProtocolDeclaration {
        name: "Iterable".to_string(),
        extends: Vec::new(),
        members: vec![method],
    };

    assert_eq!(protocol.members.len(), 1);
    assert_eq!(protocol.members[0].name, "next");
}

#[test]
fn test_type_declaration_supports_parent_arguments() {
    let span = Span::new("test".to_string(), 1, 1, 1, 30);
    let decl = TypeDeclaration {
        name: "PolarPoint".to_string(),
        parameters: Vec::new(),
        inherits: Some(TypeReference::new("Point".to_string(), span.clone())),
        parent_arguments: vec![Expr::literal(Literal::Number("1".to_string()), span.clone())],
        members: Vec::new(),
    };

    assert!(decl.inherits.is_some());
    assert_eq!(decl.parent_arguments.len(), 1);
}

#[test]
fn test_self_expr_node() {
    let span = Span::new("test".to_string(), 1, 1, 1, 5);
    let self_node = Expr::self_expr(span.clone());

    assert!(matches!(self_node.kind, ExprKind::Self_));
}

// ---------------------------------------------------------------------------
// Parsing
// ---------------------------------------------------------------------------

#[test]
fn test_parse_block_from_lexer() {
    let mut parser = parser_for("{ 5 }");
    let expr = parser.parse_expression();

    match &expr.kind {
        ExprKind::Block(exprs) => assert_eq!(exprs.len(), 1),
        _ => panic!("expected a block, got {:?}", expr.kind),
    }
}

#[test]
fn test_parse_empty_block() {
    let mut parser = parser_for("{}");
    let expr = parser.parse_expression();

    match &expr.kind {
        ExprKind::Block(exprs) => assert_eq!(exprs.len(), 0),
        _ => panic!("expected a block"),
    }
}

#[test]
fn test_parse_multiple_expr_block() {
    let mut parser = parser_for("{ 5; 10; 15 }");
    let expr = parser.parse_expression();

    match &expr.kind {
        ExprKind::Block(exprs) => assert_eq!(exprs.len(), 3),
        _ => panic!("expected a block"),
    }
}

#[test]
fn test_parse_if_else() {
    let mut parser = parser_for("if (true) { 1 } else { 2 }");
    let expr = parser.parse_expression();

    match &expr.kind {
        ExprKind::If {
            elif_parts,
            else_expr,
            ..
        } => {
            assert_eq!(elif_parts.len(), 0);
            assert!(else_expr.is_some());
        }
        _ => panic!("expected if/else"),
    }
}

#[test]
fn test_parse_if_elif_else() {
    let mut parser = parser_for("if (false) { 1 } elif (true) { 2 } else { 3 }");
    let expr = parser.parse_expression();

    match &expr.kind {
        ExprKind::If {
            elif_parts,
            else_expr,
            ..
        } => {
            assert_eq!(elif_parts.len(), 1);
            assert!(else_expr.is_some());
        }
        _ => panic!("expected if/elif/else"),
    }
}

#[test]
fn test_parse_simple_if() {
    let mut parser = parser_for("if (true) { 5 }");
    let expr = parser.parse_expression();

    match &expr.kind {
        ExprKind::If {
            condition: _,
            then_expr: _,
            elif_parts,
            else_expr,
        } => {
            assert_eq!(elif_parts.len(), 0);
            assert!(else_expr.is_none());
        }
        _ => panic!("expected an if"),
    }
}

#[test]
fn test_parse_simple_for() {
    let mut parser = parser_for("for i in range(1, 10) { 5 }");
    let expr = parser.parse_expression();

    match &expr.kind {
        ExprKind::For {
            variable,
            iterable: _,
            body: _,
        } => {
            assert_eq!(variable, "i");
        }
        _ => panic!("expected a for"),
    }
}

#[test]
fn block_needs_semicolons_between_expressions() {
    let mut parser = parser_for("{ 1 2 }");
    parser.parse_expression();
    assert!(matches!(
        parser.errors()[0].error,
        ParserError::UnexpectedToken { ref expected, .. } if expected == ";"
    ));
}

#[test]
fn test_parse_simple_while() {
    let mut parser = parser_for("while (true) { 5 }");
    let expr = parser.parse_expression();

    assert!(matches!(expr.kind, ExprKind::While { .. }));
}

#[test]
fn test_parse_simple_assignment() {
    let mut parser = parser_for("x := 5");
    let expr = parser.parse_expression();

    match &expr.kind {
        ExprKind::Assignment { target, value } => {
            assert!(matches!(target.kind, ExprKind::Identifier(_)));
            assert!(matches!(value.kind, ExprKind::Literal(Literal::Number(_))));
        }
        _ => panic!("expected an assignment"),
    }
}

#[test]
fn test_parse_assignment_with_expression() {
    let mut parser = parser_for("x := y + 5");
    let expr = parser.parse_expression();

    match &expr.kind {
        ExprKind::Assignment { target, value: _ } => {
            if let ExprKind::Identifier(name) = &target.kind {
                assert_eq!(name, "x");
            } else {
                panic!("the target must be an identifier");
            }
        }
        _ => panic!("expected an assignment"),
    }
}

#[test]
fn parses_let_with_annotation_and_several_bindings() {
    let mut parser = parser_for("let x: Number = 5, y = x in x + y");
    let expr = parser.parse_expression();
    assert!(parser.errors().is_empty());
    match &expr.kind {
        ExprKind::Let { name, annotation, body, .. } => {
            assert_eq!(name, "x");
            assert_eq!(annotation.as_ref().unwrap().display_name(), "Number");
            match &body.kind {
                ExprKind::Let { name, annotation, body, .. } => {
                    assert_eq!(name, "y");
                    assert!(annotation.is_none());
                    assert!(matches!(
                        body.kind,
                        ExprKind::Binary { operator: BinaryOperator::Add, .. }
                    ));
                }
                _ => panic!("expected the inner let"),
            }
        }
        _ => panic!("expected a let"),
    }
}

#[test]
fn parses_for_with_parenthesised_header() {
    let mut parser = parser_for("for (i in range(1, 10)) { 5 }");
    let expr = parser.parse_expression();
    assert!(parser.errors().is_empty());
    match &expr.kind {
        ExprKind::For { variable, iterable, .. } => {
            assert_eq!(variable, "i");
            match &iterable.kind {
                ExprKind::Call { arguments, .. } => assert_eq!(arguments.len(), 2),
                _ => panic!("expected a call"),
            }
        }
        _ => panic!("expected a for"),
    }
}

#[test]
fn multiplication_binds_tighter_than_addition() {
    let mut parser = parser_for("1 + 2 * 3");
    let expr = parser.parse_expression();
    match &expr.kind {
        ExprKind::Binary { operator, right, .. } => {
            assert_eq!(*operator, BinaryOperator::Add);
            assert!(matches!(
                right.kind,
                ExprKind::Binary { operator: BinaryOperator::Multiply, .. }
            ));
        }
        _ => panic!("expected a binary expression"),
    }
}

#[test]
fn subtraction_is_left_associative() {
    let mut parser = parser_for("8 - 4 - 2");
    let expr = parser.parse_expression();
    match &expr.kind {
        ExprKind::Binary { operator, left, right } => {
            assert_eq!(*operator, BinaryOperator::Subtract);
            assert!(matches!(
                left.kind,
                ExprKind::Binary { operator: BinaryOperator::Subtract, .. }
            ));
            assert!(matches!(right.kind, ExprKind::Literal(Literal::Number(ref n)) if n == "2"));
        }
        _ => panic!("expected a binary expression"),
    }
}

#[test]
fn power_is_right_associative() {
    let mut parser = parser_for("2 ^ 3 ^ 2");
    let expr = parser.parse_expression();
    match &expr.kind {
        ExprKind::Binary { operator, left, right } => {
            assert_eq!(*operator, BinaryOperator::Power);
            assert!(matches!(left.kind, ExprKind::Literal(_)));
            assert!(matches!(
                right.kind,
                ExprKind::Binary { operator: BinaryOperator::Power, .. }
            ));
        }
        _ => panic!("expected a binary expression"),
    }
}

#[test]
fn unary_minus_and_member_calls() {
    let mut parser = parser_for("-p.norm(1)[0]");
    let expr = parser.parse_expression();
    assert!(parser.errors().is_empty());
    match &expr.kind {
        ExprKind::Unary { operator, operand } => {
            assert_eq!(*operator, UnaryOperator::Minus);
            match &operand.kind {
                ExprKind::IndexAccess { object, .. } => match &object.kind {
                    ExprKind::Call { callee, arguments } => {
                        assert_eq!(arguments.len(), 1);
                        assert!(matches!(callee.kind, ExprKind::MemberAccess { .. }));
                    }
                    _ => panic!("expected a call"),
                },
                _ => panic!("expected an index access"),
            }
        }
        _ => panic!("expected a unary expression"),
    }
}

#[test]
fn type_operations_and_concatenation() {
    let mut parser = parser_for("x is Number[] as Object");
    let expr = parser.parse_expression();
    assert!(parser.errors().is_empty());
    match &expr.kind {
        ExprKind::TypeCast { expr: inner, type_ref } => {
            assert_eq!(type_ref.display_name(), "Object");
            match &inner.kind {
                ExprKind::TypeCheck { type_ref, .. } => {
                    assert_eq!(type_ref.display_name(), "Number[]")
                }
                _ => panic!("expected a type check"),
            }
        }
        _ => panic!("expected a type cast, got {:?}", expr.kind),
    }
}

#[test]
fn assignment_to_a_literal_is_reported() {
    let mut parser = parser_for("5 := 3");
    let (expr, errors) = parser.parse_expression_with_errors();
    assert!(matches!(expr.kind, ExprKind::Literal(Literal::Number(ref n)) if n == "3"));
    assert_eq!(errors.len(), 1);
    assert_eq!(
        errors[0].error,
        ParserError::InvalidAssignmentTarget {
            target: "expression".to_string()
        }
    );
    assert!(parser.errors().is_empty());
}

#[test]
fn unmatched_closing_delimiter_is_reported() {
    let mut parser = parser_for(")");
    let expr = parser.parse_expression();
    assert_eq!(
        parser.errors()[0].error,
        ParserError::UnmatchedClosingDelimiter { delimiter: ')' }
    );
    assert!(matches!(expr.kind, ExprKind::Literal(Literal::Number(ref n)) if n == "0"));
}

#[test]
fn unclosed_call_is_reported() {
    let mut parser = parser_for("f(1, 2");
    let expr = parser.parse_expression();
    assert!(matches!(
        parser.errors()[0].error,
        ParserError::UnclosedParenthesis { start_line: 1, start_column: 2 }
    ));
    match &expr.kind {
        ExprKind::Call { arguments, .. } => assert_eq!(arguments.len(), 2),
        _ => panic!("expected a call"),
    }
}

#[test]
fn vector_literal_after_bracket() {
    // The bracket that opens a vector is consumed together with the token
    // after it, so `[[1, 2]` reads as the vector of `1` and `2`.
    let mut parser = parser_for("[[1, 2]");
    let expr = parser.parse_expression();
    assert!(parser.errors().is_empty());
    match &expr.kind {
        ExprKind::VectorLiteral(items) => assert_eq!(items.len(), 2),
        _ => panic!("expected a vector, got {:?}", expr.kind),
    }
}

#[test]
fn parses_program_with_declarations_and_entry() {
    let code = "function f(x: Number): Number => x + 1;\n\
                type Point(x, y) inherits Base(x) { x = x; function norm() => self.x; }\n\
                protocol Shape extends Figure { area(): Number; }\n\
                f(2);";
    let mut parser = parser_for(code);
    let (program, errors) = parser.parse_program_with_errors();
    assert!(errors.is_empty(), "{:?}", errors);
    assert_eq!(program.declarations.len(), 3);
    match &program.declarations[0].kind {
        DeclarationKind::Function(f) => {
            assert_eq!(f.name, "f");
            assert_eq!(f.parameters.len(), 1);
            assert_eq!(f.return_type.as_ref().unwrap().display_name(), "Number");
        }
        _ => panic!("expected a function"),
    }
    match &program.declarations[1].kind {
        DeclarationKind::Type(t) => {
            assert_eq!(t.name, "Point");
            assert_eq!(t.parameters.len(), 2);
            assert_eq!(t.parent_arguments.len(), 1);
            assert_eq!(t.members.len(), 2);
            assert!(matches!(t.members[0], TypeMember::Attribute(_)));
            assert!(matches!(t.members[1], TypeMember::Method(_)));
        }
        _ => panic!("expected a type"),
    }
    match &program.declarations[2].kind {
        DeclarationKind::Protocol(p) => {
            assert_eq!(p.name, "Shape");
            assert_eq!(p.extends.len(), 1);
            assert_eq!(p.members.len(), 1);
            assert_eq!(p.members[0].return_type.display_name(), "Number");
        }
        _ => panic!("expected a protocol"),
    }
    assert!(matches!(
        program.entry_expression.as_ref().unwrap().kind,
        ExprKind::Call { .. }
    ));
}

#[test]
fn empty_program_has_no_entry() {
    let mut parser = parser_for("");
    let program = parser.parse_program();
    assert!(program.declarations.is_empty());
    assert!(program.entry_expression.is_none());
}

#[test]
fn function_without_body_is_reported() {
    let mut parser = parser_for("function f(x) 42;");
    let program = parser.parse_program();
    assert!(program.declarations.is_empty());
    assert_eq!(parser.errors()[0].error, ParserError::ExpectedFunctionBody);
}

#[test]
fn missing_type_is_read_as_error_type() {
    let mut parser = parser_for("5");
    let t = parser.parse_type_reference();
    assert_eq!(t.display_name(), "ErrorType");
    assert_eq!(
        parser.errors()[0].error,
        ParserError::ExpectedType {
            found: "5".to_string()
        }
    );
}

#[test]
fn parse_declaration_leaves_other_tokens() {
    let mut parser = parser_for("x");
    assert!(parser.parse_declaration().is_none());
    assert_eq!(parser.cursor().current_position(), 0);
    assert!(parser.errors().is_empty());
}

#[test]
fn take_errors_empties_the_list() {
    let mut parser = parser_for("]");
    parser.parse_expression();
    let errors = parser.take_errors();
    assert_eq!(errors.len(), 1);
    assert!(parser.errors().is_empty());
}

#[test]
fn lone_atom_is_taken_as_it_is() {
    let mut parser = parser_for("x; 1");
    let expr = parser.parse_expression();
    assert!(matches!(expr.kind, ExprKind::Identifier(ref n) if n == "x"));
    assert_eq!(parser.cursor().current_position(), 1);
    assert!(parser.errors().is_empty());

    let mut parser = parser_for("\"s\" }");
    let expr = parser.parse_expression();
    assert!(matches!(expr.kind, ExprKind::Literal(Literal::String(ref s)) if s == "s"));
    assert_eq!(parser.cursor().current_position(), 1);
}

/// The grouping of an operator expression over simple operands, fully
/// parenthesised.
fn grouping(e: &Expr) -> String {
    match &e.kind {
        ExprKind::Binary { left, operator, right } => {
            format!("({} {:?} {})", grouping(left), operator, grouping(right))
        }
        ExprKind::Literal(Literal::Number(n)) => n.clone(),
        ExprKind::Identifier(n) => n.clone(),
        _ => "?".to_string(),
    }
}

#[test]
fn mixed_operators_group_by_strength() {
    let mut parser = parser_for("a | b & c == d < e @ f + g * h ^ i ^ j - k / l;");
    let expr = parser.parse_expression();
    assert!(parser.errors().is_empty());
    assert_eq!(
        grouping(&expr),
        "(a Or (b And (c Equal (d Less (e Concat ((f Add (g Multiply (h Power (i Power j)))) Subtract (k Divide l)))))))"
    );
}

#[test]
fn equal_strength_operators_group_to_the_left() {
    let mut parser = parser_for("1 - 2 + 3 * 4 / 5 % 6");
    let expr = parser.parse_expression();
    assert_eq!(grouping(&expr), "((1 Subtract 2) Add (((3 Multiply 4) Divide 5) Modulo 6))");
}

#[test]
fn test_let_expr_node() {
    let span = Span::new("test".to_string(), 1, 1, 1, 15);
    let annotation = Some(TypeReference::new("Number".to_string(), span.clone()));
    let value = Expr::literal(Literal::Number("5".to_string()), span.clone());
    let body = Expr::identifier("x".to_string(), span.clone());
    let let_node = Expr::let_expr("x".to_string(), annotation, value, body, span.clone());
    match &let_node.kind {
        ExprKind::Let { name, annotation: ann, value: val, .. } => {
            assert_eq!(name, "x");
            assert!(ann.is_some());
            assert!(matches!(&val.kind, ExprKind::Literal(Literal::Number(n)) if n == "5"));
        }
        _ => panic!("se esperaba una expresión let"),
    }
}

#[test]
fn test_parse_simple_let() {
    let mut parser = parser_for("let x = 5 in x");
    let expr = parser.parse_expression();
    match &expr.kind {
        ExprKind::Let { name, value, annotation, .. } => {
            assert_eq!(name, "x", "Variable debe ser 'x'");
            assert!(annotation.is_none(), "No debe haber anotación de tipo");
            assert!(matches!(&value.kind, ExprKind::Literal(Literal::Number(n)) if n == "5"));
        }
        _ => panic!("Se esperaba Let, obtuvo {:?}", expr.kind),
    }
}

#[test]
fn test_parse_let_with_type_annotation() {
    let mut parser = parser_for("let x: Number = 5 in x");
    let expr = parser.parse_expression();
    match &expr.kind {
        ExprKind::Let { name, value, annotation, .. } => {
            assert_eq!(name, "x");
            assert!(matches!(annotation, Some(t) if matches!(&t.kind, TypeReferenceKind::Named(n) if n == "Number")));
            assert!(matches!(&value.kind, ExprKind::Literal(Literal::Number(n)) if n == "5"));
        }
        _ => panic!("Se esperaba Let con anotación"),
    }
}
