use vstd::prelude::*;

use crate::lexer::token::{tag_ampersand, tag_at, tag_at_at, tag_bang, tag_bang_equal, tag_caret, tag_equal_equal, tag_greater, tag_greater_equal, tag_less, tag_less_equal, tag_minus, tag_percent, tag_pipe, tag_plus, tag_slash, tag_star};
use crate::lexer::TokenType;
use crate::span::Span;
use crate::text::push_str;

verus! {

/// A whole program: its declarations and the expression it evaluates.
#[derive(Debug, PartialEq)]
pub struct Program {
    pub declarations: Vec<Declaration>,
    pub entry_expression: Option<Expr>,
    pub span: Span,
}

impl Program {
    pub fn new(declarations: Vec<Declaration>, entry_expression: Option<Expr>, span: Span) -> (p: Program)
        ensures
            p.declarations == declarations,
            p.entry_expression == entry_expression,
            p.span == span,
    {
        Program { declarations, entry_expression, span }
    }
}

#[derive(Debug, PartialEq)]
pub struct Declaration {
    pub kind: DeclarationKind,
    pub span: Span,
}

impl Declaration {
    pub fn new(kind: DeclarationKind, span: Span) -> (d: Declaration)
        ensures
            d.kind == kind,
            d.span == span,
    {
        Declaration { kind, span }
    }
}

#[derive(Debug, PartialEq)]
pub enum DeclarationKind {
    Function(FunctionDeclaration),
    Type(TypeDeclaration),
    Protocol(ProtocolDeclaration),
}

#[derive(Debug, PartialEq)]
pub struct FunctionDeclaration {
    pub name: String,
    pub parameters: Vec<Parameter>,
    pub return_type: Option<TypeReference>,
    pub body: Expr,
}

#[derive(Debug, PartialEq)]
pub struct VariableDeclaration {
    pub name: String,
    pub annotation: Option<TypeReference>,
    pub value: Option<Expr>,
}

#[derive(Debug, PartialEq)]
pub struct TypeDeclaration {
    pub name: String,
    pub parameters: Vec<Parameter>,
    pub inherits: Option<TypeReference>,
    pub parent_arguments: Vec<Expr>,
    pub members: Vec<TypeMember>,
}

#[derive(Debug, PartialEq)]
pub struct ProtocolDeclaration {
    pub name: String,
    pub extends: Vec<TypeReference>,
    pub members: Vec<ProtocolMethodSignature>,
}

#[derive(Debug, PartialEq)]
pub enum TypeMember {
    Attribute(AttributeDeclaration),
    Method(FunctionDeclaration),
}

#[derive(Debug, PartialEq)]
pub struct AttributeDeclaration {
    pub name: String,
    pub annotation: Option<TypeReference>,
    pub initializer: Expr,
    pub span: Span,
}

#[derive(Debug, PartialEq)]
pub struct ProtocolMethodSignature {
    pub name: String,
    pub parameters: Vec<Parameter>,
    pub return_type: TypeReference,
    pub span: Span,
}

#[derive(Debug, PartialEq)]
pub struct Parameter {
    pub name: String,
    pub annotation: Option<TypeReference>,
    pub span: Span,
}

impl Parameter {
    pub fn new(name: String, annotation: Option<TypeReference>, span: Span) -> (p: Parameter)
        ensures
            p.name == name,
            p.annotation == annotation,
            p.span == span,
    {
        Parameter { name, annotation, span }
    }
}

/// A type as written in the source: a name, `T*` (iterable of `T`) or `T[]`
/// (vector of `T`).
#[derive(Debug, PartialEq)]
pub struct TypeReference {
    pub kind: TypeReferenceKind,
    pub span: Span,
}

#[derive(Debug, PartialEq)]
pub enum TypeReferenceKind {
    Named(String),
    Iterable(Box<TypeReference>),
    Vector(Box<TypeReference>),
}

/// How a type reference is written: `Name`, `T*` or `T[]`.
pub open spec fn type_display(t: TypeReference) -> Seq<char>
    decreases t,
{
    match t.kind {
        TypeReferenceKind::Named(name) => name@,
        TypeReferenceKind::Iterable(inner) => type_display(*inner) + "*"@,
        TypeReferenceKind::Vector(inner) => type_display(*inner) + "[]"@,
    }
}

impl TypeReference {
    pub fn new(name: String, span: Span) -> (t: TypeReference)
        ensures
            t.kind == TypeReferenceKind::Named(name),
            t.span == span,
    {
        TypeReference { kind: TypeReferenceKind::Named(name), span }
    }

    pub fn iterable_of(element_type: TypeReference, span: Span) -> (t: TypeReference)
        ensures
            t.kind == TypeReferenceKind::Iterable(Box::new(element_type)),
            t.span == span,
    {
        TypeReference { kind: TypeReferenceKind::Iterable(Box::new(element_type)), span }
    }

    pub fn vector_of(element_type: TypeReference, span: Span) -> (t: TypeReference)
        ensures
            t.kind == TypeReferenceKind::Vector(Box::new(element_type)),
            t.span == span,
    {
        TypeReference { kind: TypeReferenceKind::Vector(Box::new(element_type)), span }
    }

    /// The type as written: `Number`, `Number*`, `Number[]`, ...
    pub fn display_name(&self) -> (r: String)
        ensures
            r@ == type_display(*self),
        decreases self,
    {
        match &self.kind {
            TypeReferenceKind::Named(name) => name.clone(),
            TypeReferenceKind::Iterable(inner) => {
                let mut r = inner.display_name();
                push_str(&mut r, "*");
                r
            },
            TypeReferenceKind::Vector(inner) => {
                let mut r = inner.display_name();
                push_str(&mut r, "[]");
                r
            },
        }
    }
}

/// An expression and where it stands.
#[derive(Debug, PartialEq)]
pub struct Expr {
    pub kind: ExprKind,
    pub span: Span,
}

impl Expr {
    pub fn new(kind: ExprKind, span: Span) -> (e: Expr)
        ensures
            e.kind == kind,
            e.span == span,
    {
        Expr { kind, span }
    }

    pub fn literal(literal: Literal, span: Span) -> (e: Expr)
        ensures
            e.kind == ExprKind::Literal(literal),
            e.span == span,
    {
        Self::new(ExprKind::Literal(literal), span)
    }

    pub fn identifier(name: String, span: Span) -> (e: Expr)
        ensures
            e.kind == ExprKind::Identifier(name),
            e.span == span,
    {
        Self::new(ExprKind::Identifier(name), span)
    }

    pub fn unary(operator: UnaryOperator, operand: Expr, span: Span) -> (e: Expr)
        ensures
            e.kind == (ExprKind::Unary { operator, operand: Box::new(operand) }),
            e.span == span,
    {
        Self::new(ExprKind::Unary { operator, operand: Box::new(operand) }, span)
    }

    pub fn binary(left: Expr, operator: BinaryOperator, right: Expr, span: Span) -> (e: Expr)
        ensures
            e.kind == (ExprKind::Binary { left: Box::new(left), operator, right: Box::new(right) }),
            e.span == span,
    {
        Self::new(ExprKind::Binary { left: Box::new(left), operator, right: Box::new(right) }, span)
    }

    pub fn call(callee: Expr, arguments: Vec<Expr>, span: Span) -> (e: Expr)
        ensures
            e.kind == (ExprKind::Call { callee: Box::new(callee), arguments }),
            e.span == span,
    {
        Self::new(ExprKind::Call { callee: Box::new(callee), arguments }, span)
    }

    pub fn assignment(target: Expr, value: Expr, span: Span) -> (e: Expr)
        ensures
            e.kind == (ExprKind::Assignment { target: Box::new(target), value: Box::new(value) }),
            e.span == span,
    {
        Self::new(ExprKind::Assignment { target: Box::new(target), value: Box::new(value) }, span)
    }

    pub fn block(expressions: Vec<Expr>, span: Span) -> (e: Expr)
        ensures
            e.kind == ExprKind::Block(expressions),
            e.span == span,
    {
        Self::new(ExprKind::Block(expressions), span)
    }

    pub fn if_expr(
        condition: Expr,
        then_expr: Expr,
        elif_parts: Vec<(Expr, Expr)>,
        else_expr: Option<Expr>,
        span: Span,
    ) -> (e: Expr)
        ensures
            e.kind == (ExprKind::If {
                condition: Box::new(condition),
                then_expr: Box::new(then_expr),
                elif_parts,
                else_expr: match else_expr {
                    Some(x) => Some(Box::new(x)),
                    None => None,
                },
            }),
            e.span == span,
    {
        let else_boxed = match else_expr {
            Some(x) => Some(Box::new(x)),
            None => None,
        };
        Self::new(
            ExprKind::If {
                condition: Box::new(condition),
                then_expr: Box::new(then_expr),
                elif_parts,
                else_expr: else_boxed,
            },
            span,
        )
    }

    pub fn while_expr(condition: Expr, body: Expr, span: Span) -> (e: Expr)
        ensures
            e.kind == (ExprKind::While { condition: Box::new(condition), body: Box::new(body) }),
            e.span == span,
    {
        Self::new(ExprKind::While { condition: Box::new(condition), body: Box::new(body) }, span)
    }

    pub fn for_expr(variable: String, iterable: Expr, body: Expr, span: Span) -> (e: Expr)
        ensures
            e.kind == (ExprKind::For { variable, iterable: Box::new(iterable), body: Box::new(body) }),
            e.span == span,
    {
        Self::new(ExprKind::For { variable, iterable: Box::new(iterable), body: Box::new(body) }, span)
    }

    pub fn let_expr(
        name: String,
        annotation: Option<TypeReference>,
        value: Expr,
        body: Expr,
        span: Span,
    ) -> (e: Expr)
        ensures
            e.kind == (ExprKind::Let { name, annotation, value: Box::new(value), body: Box::new(body) }),
            e.span == span,
    {
        Self::new(ExprKind::Let { name, annotation, value: Box::new(value), body: Box::new(body) }, span)
    }

    pub fn member_access(object: Expr, member: String, span: Span) -> (e: Expr)
        ensures
            e.kind == (ExprKind::MemberAccess { object: Box::new(object), member }),
            e.span == span,
    {
        Self::new(ExprKind::MemberAccess { object: Box::new(object), member }, span)
    }

    pub fn index_access(object: Expr, index: Expr, span: Span) -> (e: Expr)
        ensures
            e.kind == (ExprKind::IndexAccess { object: Box::new(object), index: Box::new(index) }),
            e.span == span,
    {
        Self::new(ExprKind::IndexAccess { object: Box::new(object), index: Box::new(index) }, span)
    }

    pub fn type_check(expr: Expr, type_ref: TypeReference, span: Span) -> (e: Expr)
        ensures
            e.kind == (ExprKind::TypeCheck { expr: Box::new(expr), type_ref }),
            e.span == span,
    {
        Self::new(ExprKind::TypeCheck { expr: Box::new(expr), type_ref }, span)
    }

    pub fn type_cast(expr: Expr, type_ref: TypeReference, span: Span) -> (e: Expr)
        ensures
            e.kind == (ExprKind::TypeCast { expr: Box::new(expr), type_ref }),
            e.span == span,
    {
        Self::new(ExprKind::TypeCast { expr: Box::new(expr), type_ref }, span)
    }

    pub fn new_expr(type_ref: TypeReference, arguments: Vec<Expr>, span: Span) -> (e: Expr)
        ensures
            e.kind == (ExprKind::New { type_ref, arguments }),
            e.span == span,
    {
        Self::new(ExprKind::New { type_ref, arguments }, span)
    }

    pub fn self_expr(span: Span) -> (e: Expr)
        ensures
            e.kind == ExprKind::Self_,
            e.span == span,
    {
        Self::new(ExprKind::Self_, span)
    }

    pub fn base_expr(span: Span) -> (e: Expr)
        ensures
            e.kind == ExprKind::Base,
            e.span == span,
    {
        Self::new(ExprKind::Base, span)
    }

    pub fn vector_literal(elements: Vec<Expr>, span: Span) -> (e: Expr)
        ensures
            e.kind == ExprKind::VectorLiteral(elements),
            e.span == span,
    {
        Self::new(ExprKind::VectorLiteral(elements), span)
    }

    pub fn vector_comprehension(element_expr: Expr, binding: String, iterable: Expr, span: Span) -> (e: Expr)
        ensures
            e.kind == (ExprKind::VectorComprehension {
                element_expr: Box::new(element_expr),
                binding,
                iterable: Box::new(iterable),
            }),
            e.span == span,
    {
        Self::new(
            ExprKind::VectorComprehension {
                element_expr: Box::new(element_expr),
                binding,
                iterable: Box::new(iterable),
            },
            span,
        )
    }
}

#[derive(Debug, PartialEq)]
pub enum ExprKind {
    Literal(Literal),
    Identifier(String),
    Unary { operator: UnaryOperator, operand: Box<Expr> },
    Binary { left: Box<Expr>, operator: BinaryOperator, right: Box<Expr> },
    Block(Vec<Expr>),
    Call { callee: Box<Expr>, arguments: Vec<Expr> },
    Assignment { target: Box<Expr>, value: Box<Expr> },
    If {
        condition: Box<Expr>,
        then_expr: Box<Expr>,
        elif_parts: Vec<(Expr, Expr)>,
        else_expr: Option<Box<Expr>>,
    },
    While { condition: Box<Expr>, body: Box<Expr> },
    For { variable: String, iterable: Box<Expr>, body: Box<Expr> },
    Let { name: String, annotation: Option<TypeReference>, value: Box<Expr>, body: Box<Expr> },
    MemberAccess { object: Box<Expr>, member: String },
    IndexAccess { object: Box<Expr>, index: Box<Expr> },
    TypeCheck { expr: Box<Expr>, type_ref: TypeReference },
    TypeCast { expr: Box<Expr>, type_ref: TypeReference },
    New { type_ref: TypeReference, arguments: Vec<Expr> },
    Self_,
    Base,
    VectorLiteral(Vec<Expr>),
    VectorComprehension { element_expr: Box<Expr>, binding: String, iterable: Box<Expr> },
}

/// A literal. A number is held as the text of the literal in the source
/// (digits, an optional fraction and an optional exponent).
#[derive(Debug, PartialEq)]
pub enum Literal {
    Number(String),
    String(String),
    Boolean(bool),
    Pi,
    E,
}

#[derive(Debug, Clone, Copy, PartialEq, Eq)]
pub enum UnaryOperator {
    Plus,
    Minus,
    Not,
}

/// The unary operator that a token kind stands for.
pub open spec fn unary_of_tag(tag: nat) -> Option<UnaryOperator> {
    if tag == tag_plus() {
        Some(UnaryOperator::Plus)
    } else if tag == tag_minus() {
        Some(UnaryOperator::Minus)
    } else if tag == tag_bang() {
        Some(UnaryOperator::Not)
    } else {
        None
    }
}

impl UnaryOperator {
    pub fn from_token_type(token_type: &TokenType) -> (r: Option<UnaryOperator>)
        ensures
            r == unary_of_tag(token_type@.0),
    {
        match token_type {
            TokenType::Plus => Some(UnaryOperator::Plus),
            TokenType::Minus => Some(UnaryOperator::Minus),
            TokenType::Bang => Some(UnaryOperator::Not),
            _ => None,
        }
    }
}

#[derive(Debug, Clone, Copy, PartialEq, Eq)]
pub enum BinaryOperator {
    Add,
    Subtract,
    Multiply,
    Divide,
    Power,
    Modulo,
    Concat,
    Concatenate,
    Equal,
    NotEqual,
    Less,
    LessEqual,
    Greater,
    GreaterEqual,
    And,
    Or,
}

/// The binary operator that a token kind stands for.
pub open spec fn binary_of_tag(tag: nat) -> Option<BinaryOperator> {
    if tag == tag_plus() {
        Some(BinaryOperator::Add)
    } else if tag == tag_minus() {
        Some(BinaryOperator::Subtract)
    } else if tag == tag_star() {
        Some(BinaryOperator::Multiply)
    } else if tag == tag_slash() {
        Some(BinaryOperator::Divide)
    } else if tag == tag_caret() {
        Some(BinaryOperator::Power)
    } else if tag == tag_percent() {
        Some(BinaryOperator::Modulo)
    } else if tag == tag_at() {
        Some(BinaryOperator::Concat)
    } else if tag == tag_at_at() {
        Some(BinaryOperator::Concatenate)
    } else if tag == tag_equal_equal() {
        Some(BinaryOperator::Equal)
    } else if tag == tag_bang_equal() {
        Some(BinaryOperator::NotEqual)
    } else if tag == tag_less() {
        Some(BinaryOperator::Less)
    } else if tag == tag_less_equal() {
        Some(BinaryOperator::LessEqual)
    } else if tag == tag_greater() {
        Some(BinaryOperator::Greater)
    } else if tag == tag_greater_equal() {
        Some(BinaryOperator::GreaterEqual)
    } else if tag == tag_ampersand() {
        Some(BinaryOperator::And)
    } else if tag == tag_pipe() {
        Some(BinaryOperator::Or)
    } else {
        None
    }
}

/// The name of a binary operator as its variant is written.
pub open spec fn binary_name(op: BinaryOperator) -> Seq<char> {
    match op {
        BinaryOperator::Add => "Add"@,
        BinaryOperator::Subtract => "Subtract"@,
        BinaryOperator::Multiply => "Multiply"@,
        BinaryOperator::Divide => "Divide"@,
        BinaryOperator::Power => "Power"@,
        BinaryOperator::Modulo => "Modulo"@,
        BinaryOperator::Concat => "Concat"@,
        BinaryOperator::Concatenate => "Concatenate"@,
        BinaryOperator::Equal => "Equal"@,
        BinaryOperator::NotEqual => "NotEqual"@,
        BinaryOperator::Less => "Less"@,
        BinaryOperator::LessEqual => "LessEqual"@,
        BinaryOperator::Greater => "Greater"@,
        BinaryOperator::GreaterEqual => "GreaterEqual"@,
        BinaryOperator::And => "And"@,
        BinaryOperator::Or => "Or"@,
    }
}

impl BinaryOperator {
    pub fn from_token_type(token_type: &TokenType) -> (r: Option<BinaryOperator>)
        ensures
            r == binary_of_tag(token_type@.0),
    {
        match token_type {
            TokenType::Plus => Some(BinaryOperator::Add),
            TokenType::Minus => Some(BinaryOperator::Subtract),
            TokenType::Star => Some(BinaryOperator::Multiply),
            TokenType::Slash => Some(BinaryOperator::Divide),
            TokenType::Caret => Some(BinaryOperator::Power),
            TokenType::Percent => Some(BinaryOperator::Modulo),
            TokenType::At => Some(BinaryOperator::Concat),
            TokenType::AtAt => Some(BinaryOperator::Concatenate),
            TokenType::EqualEqual => Some(BinaryOperator::Equal),
            TokenType::BangEqual => Some(BinaryOperator::NotEqual),
            TokenType::Less => Some(BinaryOperator::Less),
            TokenType::LessEqual => Some(BinaryOperator::LessEqual),
            TokenType::Greater => Some(BinaryOperator::Greater),
            TokenType::GreaterEqual => Some(BinaryOperator::GreaterEqual),
            TokenType::Ampersand => Some(BinaryOperator::And),
            TokenType::Pipe => Some(BinaryOperator::Or),
            _ => None,
        }
    }

    /// The operator's variant name (`Add`, `Concat`, ...), as it appears in
    /// error messages.
    pub fn variant_name(&self) -> (r: &'static str)
        ensures
            r@ == binary_name(*self),
    {
        match self {
            BinaryOperator::Add => "Add",
            BinaryOperator::Subtract => "Subtract",
            BinaryOperator::Multiply => "Multiply",
            BinaryOperator::Divide => "Divide",
            BinaryOperator::Power => "Power",
            BinaryOperator::Modulo => "Modulo",
            BinaryOperator::Concat => "Concat",
            BinaryOperator::Concatenate => "Concatenate",
            BinaryOperator::Equal => "Equal",
            BinaryOperator::NotEqual => "NotEqual",
            BinaryOperator::Less => "Less",
            BinaryOperator::LessEqual => "LessEqual",
            BinaryOperator::Greater => "Greater",
            BinaryOperator::GreaterEqual => "GreaterEqual",
            BinaryOperator::And => "And",
            BinaryOperator::Or => "Or",
        }
    }
}


/// A copy of a type reference, equal to it.
pub fn copy_type_reference(t: &TypeReference) -> (r: TypeReference)
    ensures
        r == *t,
    decreases t,
{
    let kind = match &t.kind {
        TypeReferenceKind::Named(name) => TypeReferenceKind::Named(name.clone()),
        TypeReferenceKind::Iterable(inner) => TypeReferenceKind::Iterable(Box::new(copy_type_reference(inner))),
        TypeReferenceKind::Vector(inner) => TypeReferenceKind::Vector(Box::new(copy_type_reference(inner))),
    };
    TypeReference { kind, span: t.span.copy_exact() }
}

pub fn copy_opt_type_reference(t: &Option<TypeReference>) -> (r: Option<TypeReference>)
    ensures
        r == *t,
{
    match t {
        Some(x) => Some(copy_type_reference(x)),
        None => None,
    }
}

pub fn copy_parameter(p: &Parameter) -> (r: Parameter)
    ensures
        r == *p,
{
    Parameter { name: p.name.clone(), annotation: copy_opt_type_reference(&p.annotation), span: p.span.copy_exact() }
}

/// A copy of a list of parameters, equal to it element by element.
pub fn copy_parameters(ps: &Vec<Parameter>) -> (r: Vec<Parameter>)
    ensures
        r@ == ps@,
{
    let mut r: Vec<Parameter> = Vec::new();
    let mut i: usize = 0;
    while i < ps.len()
        invariant
            0 <= i <= ps@.len(),
            r@ == ps@.subrange(0, i as int),
        decreases ps@.len() - i,
    {
        r.push(copy_parameter(&ps[i]));
        assert(ps@.subrange(0, i + 1) == ps@.subrange(0, i as int).push(ps@[i as int]));
        i = i + 1;
    }
    assert(ps@.subrange(0, ps@.len() as int) == ps@);
    r
}

pub fn copy_literal(l: &Literal) -> (r: Literal)
    ensures
        r == *l,
{
    match l {
        Literal::Number(s) => Literal::Number(s.clone()),
        Literal::String(s) => Literal::String(s.clone()),
        Literal::Boolean(b) => Literal::Boolean(*b),
        Literal::Pi => Literal::Pi,
        Literal::E => Literal::E,
    }
}

/// Two expressions that are the same tree: equal in every part, with lists
/// of sub-expressions the same element by element.
pub open spec fn same_expr(a: Expr, b: Expr) -> bool
    decreases a, 1nat,
{
    a.span == b.span && match (a.kind, b.kind) {
        (ExprKind::Literal(x), ExprKind::Literal(y)) => x == y,
        (ExprKind::Identifier(x), ExprKind::Identifier(y)) => x == y,
        (ExprKind::Unary { operator: o1, operand: x1 }, ExprKind::Unary { operator: o2, operand: x2 }) => o1 == o2
            && same_expr(*x1, *x2),
        (
            ExprKind::Binary { left: l1, operator: o1, right: r1 },
            ExprKind::Binary { left: l2, operator: o2, right: r2 },
        ) => o1 == o2 && same_expr(*l1, *l2) && same_expr(*r1, *r2),
        (ExprKind::Block(x), ExprKind::Block(y)) => same_exprs(x@, y@),
        (ExprKind::Call { callee: c1, arguments: a1 }, ExprKind::Call { callee: c2, arguments: a2 }) => same_expr(
            *c1,
            *c2,
        ) && same_exprs(a1@, a2@),
        (ExprKind::Assignment { target: t1, value: v1 }, ExprKind::Assignment { target: t2, value: v2 }) =>
            same_expr(*t1, *t2) && same_expr(*v1, *v2),
        (
            ExprKind::If { condition: c1, then_expr: t1, elif_parts: p1, else_expr: e1 },
            ExprKind::If { condition: c2, then_expr: t2, elif_parts: p2, else_expr: e2 },
        ) => same_expr(*c1, *c2) && same_expr(*t1, *t2) && same_pairs(p1@, p2@) && match (e1, e2) {
            (Some(x), Some(y)) => same_expr(*x, *y),
            (None, None) => true,
            _ => false,
        },
        (ExprKind::While { condition: c1, body: b1 }, ExprKind::While { condition: c2, body: b2 }) => same_expr(
            *c1,
            *c2,
        ) && same_expr(*b1, *b2),
        (
            ExprKind::For { variable: n1, iterable: i1, body: b1 },
            ExprKind::For { variable: n2, iterable: i2, body: b2 },
        ) => n1 == n2 && same_expr(*i1, *i2) && same_expr(*b1, *b2),
        (
            ExprKind::Let { name: n1, annotation: t1, value: v1, body: b1 },
            ExprKind::Let { name: n2, annotation: t2, value: v2, body: b2 },
        ) => n1 == n2 && t1 == t2 && same_expr(*v1, *v2) && same_expr(*b1, *b2),
        (ExprKind::MemberAccess { object: o1, member: m1 }, ExprKind::MemberAccess { object: o2, member: m2 }) =>
            m1 == m2 && same_expr(*o1, *o2),
        (ExprKind::IndexAccess { object: o1, index: i1 }, ExprKind::IndexAccess { object: o2, index: i2 }) =>
            same_expr(*o1, *o2) && same_expr(*i1, *i2),
        (ExprKind::TypeCheck { expr: x1, type_ref: t1 }, ExprKind::TypeCheck { expr: x2, type_ref: t2 }) => t1
            == t2 && same_expr(*x1, *x2),
        (ExprKind::TypeCast { expr: x1, type_ref: t1 }, ExprKind::TypeCast { expr: x2, type_ref: t2 }) => t1 == t2
            && same_expr(*x1, *x2),
        (ExprKind::New { type_ref: t1, arguments: a1 }, ExprKind::New { type_ref: t2, arguments: a2 }) => t1 == t2
            && same_exprs(a1@, a2@),
        (ExprKind::Self_, ExprKind::Self_) => true,
        (ExprKind::Base, ExprKind::Base) => true,
        (ExprKind::VectorLiteral(x), ExprKind::VectorLiteral(y)) => same_exprs(x@, y@),
        (
            ExprKind::VectorComprehension { element_expr: x1, binding: n1, iterable: i1 },
            ExprKind::VectorComprehension { element_expr: x2, binding: n2, iterable: i2 },
        ) => n1 == n2 && same_expr(*x1, *x2) && same_expr(*i1, *i2),
        _ => false,
    }
}

/// Two lists of expressions that are the same trees, element by element.
pub open spec fn same_exprs(a: Seq<Expr>, b: Seq<Expr>) -> bool
    decreases a, 0nat,
{
    a.len() == b.len() && (a.len() > 0 ==> same_exprs(a.subrange(0, a.len() - 1), b.subrange(0, b.len() - 1))
        && same_expr(a[a.len() - 1], b[b.len() - 1]))
}

/// Two lists of pairs of expressions that are the same trees, pair by pair.
pub open spec fn same_pairs(a: Seq<(Expr, Expr)>, b: Seq<(Expr, Expr)>) -> bool
    decreases a, 0nat,
{
    a.len() == b.len() && (a.len() > 0 ==> same_pairs(a.subrange(0, a.len() - 1), b.subrange(0, b.len() - 1))
        && same_expr(a[a.len() - 1].0, b[b.len() - 1].0) && same_expr(a[a.len() - 1].1, b[b.len() - 1].1))
}

fn copy_exprs(es: &Vec<Expr>) -> (r: Vec<Expr>)
    ensures
        same_exprs(r@, es@),
    decreases es, 0nat,
{
    let mut r: Vec<Expr> = Vec::new();
    let mut i: usize = 0;
    while i < es.len()
        invariant
            0 <= i <= es@.len(),
            same_exprs(r@, es@.subrange(0, i as int)),
        decreases es@.len() - i,
    {
        let c = copy_expr(&es[i]);
        let ghost r0 = r@;
        r.push(c);
        proof {
            let s1 = es@.subrange(0, i + 1);
            assert(r@.subrange(0, i as int) =~= r0);
            assert(s1.subrange(0, i as int) =~= es@.subrange(0, i as int));
            assert(s1[i as int] == es@[i as int]);
        }
        i = i + 1;
    }
    assert(es@.subrange(0, es@.len() as int) =~= es@);
    r
}

fn copy_pairs(ps: &Vec<(Expr, Expr)>) -> (r: Vec<(Expr, Expr)>)
    ensures
        same_pairs(r@, ps@),
    decreases ps, 0nat,
{
    let mut r: Vec<(Expr, Expr)> = Vec::new();
    let mut i: usize = 0;
    while i < ps.len()
        invariant
            0 <= i <= ps@.len(),
            same_pairs(r@, ps@.subrange(0, i as int)),
        decreases ps@.len() - i,
    {
        let c = copy_expr(&ps[i].0);
        let b = copy_expr(&ps[i].1);
        let ghost r0 = r@;
        r.push((c, b));
        proof {
            let s1 = ps@.subrange(0, i + 1);
            assert(r@.subrange(0, i as int) =~= r0);
            assert(s1.subrange(0, i as int) =~= ps@.subrange(0, i as int));
            assert(s1[i as int] == ps@[i as int]);
        }
        i = i + 1;
    }
    assert(ps@.subrange(0, ps@.len() as int) =~= ps@);
    r
}

/// A deep copy of an expression: the same tree.
pub fn copy_expr(e: &Expr) -> (r: Expr)
    ensures
        same_expr(r, *e),
    decreases e, 1nat,
{
    let kind = match &e.kind {
        ExprKind::Literal(l) => ExprKind::Literal(copy_literal(l)),
        ExprKind::Identifier(n) => ExprKind::Identifier(n.clone()),
        ExprKind::Unary { operator, operand } => ExprKind::Unary { operator: *operator, operand: Box::new(copy_expr(operand)) },
        ExprKind::Binary { left, operator, right } => ExprKind::Binary {
            left: Box::new(copy_expr(left)),
            operator: *operator,
            right: Box::new(copy_expr(right)),
        },
        ExprKind::Block(es) => ExprKind::Block(copy_exprs(es)),
        ExprKind::Call { callee, arguments } => ExprKind::Call { callee: Box::new(copy_expr(callee)), arguments: copy_exprs(arguments) },
        ExprKind::Assignment { target, value } => ExprKind::Assignment { target: Box::new(copy_expr(target)), value: Box::new(copy_expr(value)) },
        ExprKind::If { condition, then_expr, elif_parts, else_expr } => {
            let parts = copy_pairs(elif_parts);
            let else_copy = match else_expr {
                Some(x) => Some(Box::new(copy_expr(x))),
                None => None,
            };
            ExprKind::If {
                condition: Box::new(copy_expr(condition)),
                then_expr: Box::new(copy_expr(then_expr)),
                elif_parts: parts,
                else_expr: else_copy,
            }
        },
        ExprKind::While { condition, body } => ExprKind::While { condition: Box::new(copy_expr(condition)), body: Box::new(copy_expr(body)) },
        ExprKind::For { variable, iterable, body } => ExprKind::For {
            variable: variable.clone(),
            iterable: Box::new(copy_expr(iterable)),
            body: Box::new(copy_expr(body)),
        },
        ExprKind::Let { name, annotation, value, body } => ExprKind::Let {
            name: name.clone(),
            annotation: copy_opt_type_reference(annotation),
            value: Box::new(copy_expr(value)),
            body: Box::new(copy_expr(body)),
        },
        ExprKind::MemberAccess { object, member } => ExprKind::MemberAccess { object: Box::new(copy_expr(object)), member: member.clone() },
        ExprKind::IndexAccess { object, index } => ExprKind::IndexAccess { object: Box::new(copy_expr(object)), index: Box::new(copy_expr(index)) },
        ExprKind::TypeCheck { expr, type_ref } => ExprKind::TypeCheck { expr: Box::new(copy_expr(expr)), type_ref: copy_type_reference(type_ref) },
        ExprKind::TypeCast { expr, type_ref } => ExprKind::TypeCast { expr: Box::new(copy_expr(expr)), type_ref: copy_type_reference(type_ref) },
        ExprKind::New { type_ref, arguments } => ExprKind::New { type_ref: copy_type_reference(type_ref), arguments: copy_exprs(arguments) },
        ExprKind::Self_ => ExprKind::Self_,
        ExprKind::Base => ExprKind::Base,
        ExprKind::VectorLiteral(es) => ExprKind::VectorLiteral(copy_exprs(es)),
        ExprKind::VectorComprehension { element_expr, binding, iterable } => ExprKind::VectorComprehension {
            element_expr: Box::new(copy_expr(element_expr)),
            binding: binding.clone(),
            iterable: Box::new(copy_expr(iterable)),
        },
    };
    Expr { kind, span: e.span.copy_exact() }
}

impl Clone for TypeReference {
    fn clone(&self) -> (r: TypeReference)
        ensures
            r == *self,
    {
        copy_type_reference(self)
    }
}

impl Clone for Parameter {
    fn clone(&self) -> (r: Parameter)
        ensures
            r == *self,
    {
        copy_parameter(self)
    }
}

impl Clone for Expr {
    fn clone(&self) -> Expr {
        copy_expr(self)
    }
}


/// A copy of a function declaration: same name, parameters and return type,
/// and a deep copy of the body.
pub fn copy_function_declaration(f: &FunctionDeclaration) -> (r: FunctionDeclaration)
    ensures
        r.name == f.name,
        r.parameters@ == f.parameters@,
        r.return_type == f.return_type,
{
    FunctionDeclaration {
        name: f.name.clone(),
        parameters: copy_parameters(&f.parameters),
        return_type: copy_opt_type_reference(&f.return_type),
        body: copy_expr(&f.body),
    }
}

impl Clone for FunctionDeclaration {
    fn clone(&self) -> (r: FunctionDeclaration)
        ensures
            r.name == self.name,
            r.parameters@ == self.parameters@,
            r.return_type == self.return_type,
    {
        copy_function_declaration(self)
    }
}

pub fn copy_protocol_method_signature(m: &ProtocolMethodSignature) -> (r: ProtocolMethodSignature)
    ensures
        r.name == m.name,
        r.parameters@ == m.parameters@,
        r.return_type == m.return_type,
        r.span == m.span,
{
    ProtocolMethodSignature {
        name: m.name.clone(),
        parameters: copy_parameters(&m.parameters),
        return_type: copy_type_reference(&m.return_type),
        span: m.span.copy_exact(),
    }
}

impl Clone for ProtocolMethodSignature {
    fn clone(&self) -> (r: ProtocolMethodSignature)
        ensures
            r.name == self.name,
            r.parameters@ == self.parameters@,
            r.return_type == self.return_type,
            r.span == self.span,
    {
        copy_protocol_method_signature(self)
    }
}

} // verus!
