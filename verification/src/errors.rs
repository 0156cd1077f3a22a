use vstd::prelude::*;

use crate::span::Span;
use crate::text::{decimal, push_str, string_from, usize_to_string};

verus! {

/// The errors of semantic analysis.
#[derive(Debug, Clone, PartialEq)]
pub enum SemanticError {
    FunctionAlreadyDeclared { name: String, first_line: usize, first_column: usize },
    TypeAlreadyDeclared { name: String, first_line: usize, first_column: usize },
    VariableAlreadyDeclared { name: String, first_line: usize, first_column: usize },
    ProtocolAlreadyDeclared { name: String, first_line: usize, first_column: usize },
    UndefinedFunction { name: String },
    UndeclaredVariable { name: String },
    UndeclaredType { name: String },
    UndeclaredProtocol { name: String },
    UnknownType { name: String },
    InheritFromUndeclared { child_name: String, parent_name: String },
    CircularInheritance { child_name: String, cycle: Vec<String> },
    CyclicDefinition { names: Vec<String> },
    InvalidConstructor { constructed: String, reason: String },
    UnsupportedFeature { feature: String },
    UnsupportedExpression { expression_type: String },
    InvalidBinaryOperator { operator: String, left_type: String, right_type: String },
    IncomparableTypes { left_type: String, right_type: String },
    InvalidUnaryOperator { operator: String, operand_type: String },
    WrongArgumentCount { function: String, expected: usize, found: usize },
    ArgumentTypeMismatch {
        function: String,
        parameter_name: String,
        parameter_position: usize,
        expected: String,
        found: String,
    },
    NonBooleanCondition { found_type: String, context: String },
    IncompatibleBranchTypes { then_type: String, else_type: String },
    TypeMismatch { expected: String, found: String, context: String },
    InvalidTarget { context: String },
    MemberNotFound { owner: String, member_name: String },
    InvalidIndexType { expected: String, found: String },
    NotIndexable { found_type: String },
    InconsistentArrayTypes { expected: String, found: String, position: usize },
    ReturnTypeMismatch { function: String, expected: String, found: String },
}

/// The errors of the parser.
#[derive(Debug, Clone, PartialEq)]
pub enum ParserError {
    UnexpectedToken { expected: String, found: String },
    ExpectedExpression { found: String },
    ExpectedIdentifier { found: String },
    ExpectedType { found: String },
    ExpectedVariableName,
    ExpectedFunctionName,
    ExpectedFunctionBody,
    ExpectedTypeName,
    ExpectedTypeBody,
    InvalidAssignmentTarget { target: String },
    InvalidDeclaration { declaration_type: String, context: String },
    InvalidParameter { reason: String },
    UnclosedParenthesis { start_line: usize, start_column: usize },
    UnclosedBracket { start_line: usize, start_column: usize },
    UnmatchedClosingDelimiter { delimiter: char },
}

/// Where a span starts, as `file:line:column`.
pub open spec fn position_text(span: Span) -> Seq<char> {
    span.file@ + ":"@ + decimal(span.start_line as nat) + ":"@ + decimal(span.start_column as nat)
}

/// The message shown to the user for an error that stops the compilation.
pub open spec fn interface_text(e: CompilationError) -> Seq<char> {
    match e {
        CompilationError::Lexer { message, span } => "error léxico en "@ + position_text(span) + ": "@ + message@,
        CompilationError::Parser { span, .. } => "error de sintaxis en "@ + position_text(span),
        CompilationError::Semantic { .. } => "error semántico"@,
        CompilationError::Io { operation, path, message } => "no se pudo "@ + operation@ + " "@ + path@ + ": "@
            + message@,
        CompilationError::Internal { message } => "error interno: "@ + message@,
    }
}

/// An error that stops the compilation, by phase.
#[derive(Debug, PartialEq)]
pub enum CompilationError {
    /// A lexical error: the message of the error token, and where it stands.
    Lexer { message: String, span: Span },
    Parser { error: ParserError, span: Span },
    Semantic { error: SemanticError },
    Io { operation: String, path: String, message: String },
    Internal { message: String },
}

pub type CompileResult<T> = Result<T, CompilationError>;

impl CompilationError {
    pub fn internal(message: String) -> (e: CompilationError)
        ensures
            e == (CompilationError::Internal { message }),
    {
        CompilationError::Internal { message }
    }

    pub fn io(operation: String, path: String, message: String) -> (e: CompilationError)
        ensures
            e == (CompilationError::Io { operation, path, message }),
    {
        CompilationError::Io { operation, path, message }
    }

    pub fn lexer(message: String, span: Span) -> (e: CompilationError)
        ensures
            e == (CompilationError::Lexer { message, span }),
    {
        CompilationError::Lexer { message, span }
    }

    pub fn parser(error: ParserError, span: Span) -> (e: CompilationError)
        ensures
            e == (CompilationError::Parser { error, span }),
    {
        CompilationError::Parser { error, span }
    }

    pub fn semantic(error: SemanticError) -> (e: CompilationError)
        ensures
            e == (CompilationError::Semantic { error }),
    {
        CompilationError::Semantic { error }
    }

    /// The process exit code for this error: 1 for errors in the program
    /// (lexical, syntactic, semantic), 2 for the others.
    pub fn exit_code(&self) -> (r: i32)
        ensures
            r == (match self {
                CompilationError::Lexer { .. } | CompilationError::Parser { .. } | CompilationError::Semantic { .. } => 1i32,
                _ => 2i32,
            }),
    {
        match self {
            CompilationError::Lexer { .. } | CompilationError::Parser { .. } | CompilationError::Semantic { .. } => 1,
            _ => 2,
        }
    }

    /// The message shown to the user (see `interface_text`).
    pub fn render_interface(&self) -> (r: String)
        ensures
            r@ == interface_text(*self),
    {
        match self {
            CompilationError::Lexer { message, span } => {
                let mut r = string_from("error léxico en ");
                push_str(&mut r, span.file.as_str());
                push_str(&mut r, ":");
                let l = usize_to_string(span.start_line);
                push_str(&mut r, l.as_str());
                push_str(&mut r, ":");
                let c = usize_to_string(span.start_column);
                push_str(&mut r, c.as_str());
                push_str(&mut r, ": ");
                push_str(&mut r, message.as_str());
                r
            },
            CompilationError::Parser { span, .. } => {
                let mut r = string_from("error de sintaxis en ");
                push_str(&mut r, span.file.as_str());
                push_str(&mut r, ":");
                let l = usize_to_string(span.start_line);
                push_str(&mut r, l.as_str());
                push_str(&mut r, ":");
                let c = usize_to_string(span.start_column);
                push_str(&mut r, c.as_str());
                r
            },
            CompilationError::Semantic { .. } => string_from("error semántico"),
            CompilationError::Io { operation, path, message } => {
                let mut r = string_from("no se pudo ");
                push_str(&mut r, operation.as_str());
                push_str(&mut r, " ");
                push_str(&mut r, path.as_str());
                push_str(&mut r, ": ");
                push_str(&mut r, message.as_str());
                r
            },
            CompilationError::Internal { message } => {
                let mut r = string_from("error interno: ");
                push_str(&mut r, message.as_str());
                r
            },
        }
    }
}

} // verus!
