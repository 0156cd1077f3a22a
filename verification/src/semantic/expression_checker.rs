use vstd::prelude::*;

use crate::errors::SemanticError;
use crate::parser::ast::{binary_name, BinaryOperator, Expr, ExprKind, Literal};
use crate::semantic::type_system::{copy_type, same_type, type_text, NormalizedType, TypeModel};
use crate::span::Span;
use crate::text::{decimal, push_str, str_equal, string_from, usize_to_string};

verus! {

/// The type of a checked expression, and whether it can be assigned to.
#[derive(Debug)]
pub struct ExpressionType {
    pub type_: NormalizedType,
    pub is_lvalue: bool,
}

impl View for ExpressionType {
    type V = (TypeModel, bool);

    open spec fn view(&self) -> (TypeModel, bool) {
        (self.type_@, self.is_lvalue)
    }
}

impl ExpressionType {
    pub fn new(type_: NormalizedType, is_lvalue: bool) -> (r: ExpressionType)
        ensures
            r@ == (type_@, is_lvalue),
    {
        ExpressionType { type_, is_lvalue }
    }

    /// A value that cannot be assigned to.
    pub fn value(type_: NormalizedType) -> (r: ExpressionType)
        ensures
            r@ == (type_@, false),
    {
        Self::new(type_, false)
    }

    /// A place that can be assigned to.
    pub fn lvalue(type_: NormalizedType) -> (r: ExpressionType)
        ensures
            r@ == (type_@, true),
    {
        Self::new(type_, true)
    }
}

impl Clone for ExpressionType {
    fn clone(&self) -> (r: ExpressionType)
        ensures
            r@ == self@,
    {
        ExpressionType { type_: copy_type(&self.type_), is_lvalue: self.is_lvalue }
    }
}

/// A result that is `Ok` with the given type and assignability.
pub open spec fn gives(r: Result<ExpressionType, SemanticError>, t: TypeModel, lvalue: bool) -> bool {
    r matches Ok(x) && x@ == (t, lvalue)
}

/// Two types that clash: different, and neither unknown.
pub open spec fn clash(a: TypeModel, b: TypeModel) -> bool {
    a != b && !(a is Unknown) && !(b is Unknown)
}

/// The type of `op` applied to operands of types `l` and `r`, if it applies:
/// arithmetic on numbers, concatenation of strings, comparison of equal types,
/// logic on booleans.
pub open spec fn binary_result(op: BinaryOperator, l: TypeModel, r: TypeModel) -> Option<TypeModel> {
    match op {
        BinaryOperator::Add | BinaryOperator::Subtract | BinaryOperator::Multiply | BinaryOperator::Divide
        | BinaryOperator::Modulo | BinaryOperator::Power => if l is Number && r is Number {
            Some(TypeModel::Number)
        } else {
            None
        },
        BinaryOperator::Concat | BinaryOperator::Concatenate => if l is String && r is String {
            Some(TypeModel::String)
        } else {
            None
        },
        BinaryOperator::Equal | BinaryOperator::NotEqual | BinaryOperator::Less | BinaryOperator::LessEqual
        | BinaryOperator::Greater | BinaryOperator::GreaterEqual => if l == r {
            Some(TypeModel::Boolean)
        } else {
            None
        },
        BinaryOperator::And | BinaryOperator::Or => if l is Boolean && r is Boolean {
            Some(TypeModel::Boolean)
        } else {
            None
        },
    }
}

pub open spec fn is_comparison(op: BinaryOperator) -> bool {
    op is Equal || op is NotEqual || op is Less || op is LessEqual || op is Greater || op is GreaterEqual
}

/// The error for `op` on types `l` and `r`: incomparable types for a
/// comparison, else an invalid operator named by its variant.
pub open spec fn binary_error(op: BinaryOperator, l: TypeModel, r: TypeModel, e: SemanticError) -> bool {
    if is_comparison(op) {
        e matches SemanticError::IncomparableTypes { left_type, right_type }
            && left_type@ == type_text(l) && right_type@ == type_text(r)
    } else {
        e matches SemanticError::InvalidBinaryOperator { operator, left_type, right_type }
            && operator@ == binary_name(op) && left_type@ == type_text(l) && right_type@ == type_text(r)
    }
}

/// An argument count error.
pub open spec fn count_error(e: SemanticError, f: Seq<char>, expected: int, found: int) -> bool {
    e matches SemanticError::WrongArgumentCount { function, expected: x, found: y }
        && function@ == f && x == expected && y == found
}

/// An argument type error.
pub open spec fn argument_error(
    e: SemanticError,
    f: Seq<char>,
    param: Seq<char>,
    position: int,
    expected: Seq<char>,
    found: Seq<char>,
) -> bool {
    e matches SemanticError::ArgumentTypeMismatch {
        function,
        parameter_name,
        parameter_position,
        expected: x,
        found: y,
    } && function@ == f && parameter_name@ == param && parameter_position == position && x@ == expected
        && y@ == found
}

/// A number argument: a number, or unknown.
pub open spec fn number_like(t: TypeModel) -> bool {
    t is Number || t is Unknown
}

/// The builtin functions of one numeric argument.
pub open spec fn is_unary_math(name: Seq<char>) -> bool {
    name == "sqrt"@ || name == "sin"@ || name == "cos"@ || name == "exp"@
}

/// The first position from `i` on where an argument clashes with its parameter, or -1.
pub open spec fn first_clash_from(args: Seq<TypeModel>, params: Seq<(Seq<char>, TypeModel)>, i: int) -> int
    decreases args.len() - i,
{
    if i < 0 || i >= args.len() || i >= params.len() {
        -1
    } else if clash(args[i], params[i].1) {
        i
    } else {
        first_clash_from(args, params, i + 1)
    }
}

/// What checking arguments against declared parameters gives for function
/// `f`: a count error, an error at the first clashing argument, or success.
pub open spec fn arguments_outcome(
    f: Seq<char>,
    args: Seq<TypeModel>,
    params: Seq<(Seq<char>, TypeModel)>,
    r: Result<ExpressionType, SemanticError>,
    ok: TypeModel,
) -> bool {
    if args.len() != params.len() {
        r matches Err(e) && count_error(e, f, params.len() as int, args.len() as int)
    } else if first_clash_from(args, params, 0) >= 0 {
        let i = first_clash_from(args, params, 0);
        r matches Err(e) && argument_error(e, f, params[i].0, i, type_text(params[i].1), type_text(args[i]))
    } else {
        gives(r, ok, false)
    }
}

/// What checking a call of `f` gives: the builtins `print`, `sqrt`, `sin`,
/// `cos`, `exp` and `log` are checked by their own rules; another function
/// against its parameters, when they are known, and it gives its return type
/// (unknown when not given).
pub open spec fn call_outcome(
    f: Seq<char>,
    args: Seq<TypeModel>,
    params: Option<Seq<(Seq<char>, TypeModel)>>,
    ret: Option<TypeModel>,
    r: Result<ExpressionType, SemanticError>,
) -> bool {
    let ret_type = match ret {
        Some(t) => t,
        None => TypeModel::Unknown,
    };
    if f == "print"@ {
        if args.len() != 1 {
            r matches Err(e) && count_error(e, f, 1, args.len() as int)
        } else {
            gives(r, args[0], false)
        }
    } else if is_unary_math(f) {
        if args.len() != 1 {
            r matches Err(e) && count_error(e, f, 1, args.len() as int)
        } else if !number_like(args[0]) {
            r matches Err(e) && argument_error(e, f, "value"@, 0, "Number"@, type_text(args[0]))
        } else {
            gives(r, TypeModel::Number, false)
        }
    } else if f == "log"@ {
        if args.len() != 2 {
            r matches Err(e) && count_error(e, f, 2, args.len() as int)
        } else if !number_like(args[0]) {
            r matches Err(e) && argument_error(e, f, "base"@, 0, "Number"@, type_text(args[0]))
        } else if !number_like(args[1]) {
            r matches Err(e) && argument_error(e, f, "value"@, 1, "Number"@, type_text(args[1]))
        } else {
            gives(r, TypeModel::Number, false)
        }
    } else {
        match params {
            Some(ps) => arguments_outcome(f, args, ps, r, ret_type),
            None => gives(r, ret_type, false),
        }
    }
}

/// The first `elif` branch from `k` on whose condition is not boolean or
/// whose body type differs from `then`, or -1.
pub open spec fn first_bad_elif_from(then: TypeModel, elifs: Seq<(TypeModel, TypeModel)>, k: int) -> int
    decreases elifs.len() - k,
{
    if k < 0 || k >= elifs.len() {
        -1
    } else if !(elifs[k].0 is Boolean) || elifs[k].1 != then {
        k
    } else {
        first_bad_elif_from(then, elifs, k + 1)
    }
}

/// The first element from `i` on that clashes with the first element, or -1.
pub open spec fn first_inconsistent_from(elems: Seq<TypeModel>, i: int) -> int
    decreases elems.len() - i,
{
    if i < 1 || i >= elems.len() {
        -1
    } else if clash(elems[i], elems[0]) {
        i
    } else {
        first_inconsistent_from(elems, i + 1)
    }
}

/// What checking an `if` gives from the types of its condition, its `then`
/// branch, its `elif` branches and its `else` branch: the first non-boolean
/// condition or the first branch whose type differs from the `then` branch
/// is an error; else the type of the `then` branch.
pub open spec fn if_outcome(
    c: TypeModel,
    t: TypeModel,
    elifs: Seq<(TypeModel, TypeModel)>,
    el: Option<TypeModel>,
    r: Result<ExpressionType, SemanticError>,
) -> bool {
    let k = first_bad_elif_from(t, elifs, 0);
    if !(c is Boolean) {
        r matches Err(SemanticError::NonBooleanCondition { found_type, context })
            && found_type@ == type_text(c) && context@ == "if"@
    } else if k >= 0 && !(elifs[k].0 is Boolean) {
        r matches Err(SemanticError::NonBooleanCondition { found_type, context })
            && found_type@ == type_text(elifs[k].0) && context@ == "elif"@
    } else if k >= 0 {
        r matches Err(SemanticError::IncompatibleBranchTypes { then_type: a, else_type: b })
            && a@ == type_text(t) && b@ == type_text(elifs[k].1)
    } else if el matches Some(x) && x != t {
        r matches Err(SemanticError::IncompatibleBranchTypes { then_type: a, else_type: b })
            && a@ == type_text(t) && b@ == type_text(el.unwrap())
    } else {
        gives(r, t, false)
    }
}

/// The type of an `if`, when its check succeeds.
pub open spec fn if_type(c: TypeModel, t: TypeModel, elifs: Seq<(TypeModel, TypeModel)>, el: Option<TypeModel>) -> Option<
    TypeModel,
> {
    if !(c is Boolean) || first_bad_elif_from(t, elifs, 0) >= 0 || (el matches Some(x) && x != t) {
        None
    } else {
        Some(t)
    }
}

/// The type of a call, when its check succeeds (see `call_outcome`).
pub open spec fn call_type(
    f: Seq<char>,
    args: Seq<TypeModel>,
    params: Option<Seq<(Seq<char>, TypeModel)>>,
    ret: Option<TypeModel>,
) -> Option<TypeModel> {
    let ret_type = match ret {
        Some(t) => t,
        None => TypeModel::Unknown,
    };
    if f == "print"@ {
        if args.len() != 1 {
            None
        } else {
            Some(args[0])
        }
    } else if is_unary_math(f) {
        if args.len() != 1 || !number_like(args[0]) {
            None
        } else {
            Some(TypeModel::Number)
        }
    } else if f == "log"@ {
        if args.len() != 2 || !number_like(args[0]) || !number_like(args[1]) {
            None
        } else {
            Some(TypeModel::Number)
        }
    } else {
        match params {
            Some(ps) => if args.len() != ps.len() || first_clash_from(args, ps, 0) >= 0 {
                None
            } else {
                Some(ret_type)
            },
            None => Some(ret_type),
        }
    }
}

/// The error of a `let` whose annotation `a` differs from the type `v` of its value.
pub open spec fn let_mismatch(a: TypeModel, v: TypeModel, e: SemanticError) -> bool {
    e matches SemanticError::TypeMismatch { expected, found, context }
        && expected@ == type_text(a) && found@ == type_text(v) && context@ == "asignación en let"@
}

/// A call succeeds exactly when `call_type` gives its type.
pub proof fn lemma_call_outcome(
    f: Seq<char>,
    args: Seq<TypeModel>,
    params: Option<Seq<(Seq<char>, TypeModel)>>,
    ret: Option<TypeModel>,
    r: Result<ExpressionType, SemanticError>,
)
    requires
        call_outcome(f, args, params, ret, r),
    ensures
        r matches Ok(x) ==> call_type(f, args, params, ret) == Some(x@.0),
        r is Err <==> call_type(f, args, params, ret) is None,
        r matches Err(e) ==> call_outcome(f, args, params, ret, Err(e)),
{
}

/// An `if` succeeds exactly when `if_type` gives its type.
pub proof fn lemma_if_outcome(
    c: TypeModel,
    t: TypeModel,
    elifs: Seq<(TypeModel, TypeModel)>,
    el: Option<TypeModel>,
    r: Result<ExpressionType, SemanticError>,
)
    requires
        if_outcome(c, t, elifs, el, r),
    ensures
        r matches Ok(x) ==> if_type(c, t, elifs, el) == Some(x@.0),
        r is Err <==> if_type(c, t, elifs, el) is None,
        r matches Err(e) ==> if_outcome(c, t, elifs, el, Err(e)),
{
}

pub open spec fn models(ts: Seq<NormalizedType>) -> Seq<TypeModel> {
    ts.map_values(|t: NormalizedType| t@)
}

pub open spec fn param_models(ps: Seq<(String, NormalizedType)>) -> Seq<(Seq<char>, TypeModel)> {
    ps.map_values(|p: (String, NormalizedType)| (p.0@, p.1@))
}

pub open spec fn opt_model(t: Option<&NormalizedType>) -> Option<TypeModel> {
    match t {
        Some(x) => Some(x@),
        None => None,
    }
}

/// Comparing two values of the same type gives a boolean, whatever the
/// type; comparing values of different types is refused.
pub proof fn law_comparisons_are_boolean(op: BinaryOperator, l: TypeModel, r: TypeModel)
    requires
        op is Equal || op is NotEqual || op is Less || op is LessEqual || op is Greater || op is GreaterEqual,
    ensures
        l == r ==> binary_result(op, l, r) == Some(TypeModel::Boolean),
        l != r ==> binary_result(op, l, r) is None,
{
}

/// Arithmetic takes two numbers and gives a number; `&` and `|` take two
/// booleans and give a boolean; `@` and `@@` take two strings and give a
/// string. No operator gives a type other than a number, a string or a
/// boolean.
pub proof fn law_operator_result_types(op: BinaryOperator, l: TypeModel, r: TypeModel)
    ensures
        (op is Add || op is Subtract || op is Multiply || op is Divide || op is Modulo || op is Power) ==> (
        binary_result(op, l, r) == if l is Number && r is Number {
            Some(TypeModel::Number)
        } else {
            None
        }),
        (op is And || op is Or) ==> (binary_result(op, l, r) == if l is Boolean && r is Boolean {
            Some(TypeModel::Boolean)
        } else {
            None
        }),
        (op is Concat || op is Concatenate) ==> (binary_result(op, l, r) == if l is String && r is String {
            Some(TypeModel::String)
        } else {
            None
        }),
        binary_result(op, l, r) matches Some(t) ==> (t is Number || t is String || t is Boolean),
{
}

/// Checks the types of expressions from the types of their parts.
pub struct ExpressionChecker {}

impl ExpressionChecker {
    pub fn new() -> (r: ExpressionChecker) {
        ExpressionChecker {}
    }

    /// Numbers, `PI` and `E` are `Number`, strings `String`, `true` and
    /// `false` `Boolean`; another expression is refused.
    pub fn check_literal(&self, expr: &Expr) -> (r: Result<ExpressionType, SemanticError>)
        ensures
            match expr.kind {
                ExprKind::Literal(Literal::String(_)) => gives(r, TypeModel::String, false),
                ExprKind::Literal(Literal::Boolean(_)) => gives(r, TypeModel::Boolean, false),
                ExprKind::Literal(_) => gives(r, TypeModel::Number, false),
                _ => r matches Err(SemanticError::UnsupportedExpression { expression_type })
                    && expression_type@ == "expected literal expression"@,
            },
    {
        match &expr.kind {
            ExprKind::Literal(Literal::Number(_)) | ExprKind::Literal(Literal::Pi) | ExprKind::Literal(Literal::E) => {
                Ok(ExpressionType::value(NormalizedType::Number))
            },
            ExprKind::Literal(Literal::String(_)) => Ok(ExpressionType::value(NormalizedType::String)),
            ExprKind::Literal(Literal::Boolean(_)) => Ok(ExpressionType::value(NormalizedType::Boolean)),
            _ => Err(SemanticError::UnsupportedExpression {
                expression_type: string_from("expected literal expression"),
            }),
        }
    }

    /// Arithmetic (`+ - * / % ^`) takes numbers, concatenation (`@ @@`)
    /// strings, comparison two equal types, logic (`& |`) booleans.
    pub fn check_binary_op(
        &self,
        left_type: &NormalizedType,
        op: &BinaryOperator,
        right_type: &NormalizedType,
        _span: &Span,
    ) -> (r: Result<ExpressionType, SemanticError>)
        ensures
            match binary_result(*op, left_type@, right_type@) {
                Some(t) => gives(r, t, false),
                None => r matches Err(e) && binary_error(*op, left_type@, right_type@, e),
            },
    {
        let result_type = match op {
            BinaryOperator::Add | BinaryOperator::Subtract | BinaryOperator::Multiply | BinaryOperator::Divide
            | BinaryOperator::Modulo | BinaryOperator::Power => {
                if same_type(left_type, &NormalizedType::Number) && same_type(right_type, &NormalizedType::Number) {
                    NormalizedType::Number
                } else {
                    return Err(SemanticError::InvalidBinaryOperator {
                        operator: string_from(op.variant_name()),
                        left_type: left_type.to_text(),
                        right_type: right_type.to_text(),
                    });
                }
            },
            BinaryOperator::Concat | BinaryOperator::Concatenate => {
                if same_type(left_type, &NormalizedType::String) && same_type(right_type, &NormalizedType::String) {
                    NormalizedType::String
                } else {
                    return Err(SemanticError::InvalidBinaryOperator {
                        operator: string_from(op.variant_name()),
                        left_type: left_type.to_text(),
                        right_type: right_type.to_text(),
                    });
                }
            },
            BinaryOperator::Equal | BinaryOperator::NotEqual | BinaryOperator::Less | BinaryOperator::LessEqual
            | BinaryOperator::Greater | BinaryOperator::GreaterEqual => {
                if same_type(left_type, right_type) {
                    NormalizedType::Boolean
                } else {
                    return Err(SemanticError::IncomparableTypes {
                        left_type: left_type.to_text(),
                        right_type: right_type.to_text(),
                    });
                }
            },
            BinaryOperator::And | BinaryOperator::Or => {
                if same_type(left_type, &NormalizedType::Boolean) && same_type(right_type, &NormalizedType::Boolean) {
                    NormalizedType::Boolean
                } else {
                    return Err(SemanticError::InvalidBinaryOperator {
                        operator: string_from(op.variant_name()),
                        left_type: left_type.to_text(),
                        right_type: right_type.to_text(),
                    });
                }
            },
        };
        Ok(ExpressionType::value(result_type))
    }

    /// Negation (`-`) takes a number, `!` a boolean.
    pub fn check_unary_op(&self, operand_type: &NormalizedType, is_negation: bool, _span: &Span) -> (r: Result<
        ExpressionType,
        SemanticError,
    >)
        ensures
            if is_negation {
                if operand_type@ is Number {
                    gives(r, TypeModel::Number, false)
                } else {
                    r matches Err(SemanticError::InvalidUnaryOperator { operator, operand_type: found })
                        && operator@ == "-"@ && found@ == type_text(operand_type@)
                }
            } else {
                if operand_type@ is Boolean {
                    gives(r, TypeModel::Boolean, false)
                } else {
                    r matches Err(SemanticError::InvalidUnaryOperator { operator, operand_type: found })
                        && operator@ == "!"@ && found@ == type_text(operand_type@)
                }
            },
    {
        if is_negation {
            if same_type(operand_type, &NormalizedType::Number) {
                Ok(ExpressionType::value(NormalizedType::Number))
            } else {
                Err(SemanticError::InvalidUnaryOperator {
                    operator: string_from("-"),
                    operand_type: operand_type.to_text(),
                })
            }
        } else {
            if same_type(operand_type, &NormalizedType::Boolean) {
                Ok(ExpressionType::value(NormalizedType::Boolean))
            } else {
                Err(SemanticError::InvalidUnaryOperator {
                    operator: string_from("!"),
                    operand_type: operand_type.to_text(),
                })
            }
        }
    }

    /// A parenthesized expression has the type of what it holds.
    pub fn check_grouping(&self, inner_type: &NormalizedType) -> (r: Result<ExpressionType, SemanticError>)
        ensures
            gives(r, inner_type@, false),
    {
        Ok(ExpressionType::value(copy_type(inner_type)))
    }

    /// Checks a call of `function_name` (see `call_outcome`).
    pub fn check_function_call(
        &self,
        function_name: &str,
        argument_types: &[NormalizedType],
        expected_params: Option<&[(String, NormalizedType)]>,
        expected_return_type: Option<&NormalizedType>,
        _span: &Span,
    ) -> (r: Result<ExpressionType, SemanticError>)
        ensures
            call_outcome(
                function_name@,
                models(argument_types@),
                match expected_params {
                    Some(ps) => Some(param_models(ps@)),
                    None => None,
                },
                opt_model(expected_return_type),
                r,
            ),
    {
        let ghost args = models(argument_types@);
        if str_equal(function_name, "print") {
            if argument_types.len() != 1 {
                return Err(SemanticError::WrongArgumentCount {
                    function: string_from(function_name),
                    expected: 1,
                    found: argument_types.len(),
                });
            }
            return Ok(ExpressionType::value(copy_type(&argument_types[0])));
        }
        if str_equal(function_name, "sqrt") || str_equal(function_name, "sin") || str_equal(function_name, "cos")
            || str_equal(function_name, "exp") {
            proof {
                reveal_strlit("print");
                reveal_strlit("sqrt");
                reveal_strlit("sin");
                reveal_strlit("cos");
                reveal_strlit("exp");
            }
            if argument_types.len() != 1 {
                return Err(SemanticError::WrongArgumentCount {
                    function: string_from(function_name),
                    expected: 1,
                    found: argument_types.len(),
                });
            }
            if !argument_types[0].is_unknown() && !same_type(&argument_types[0], &NormalizedType::Number) {
                return Err(SemanticError::ArgumentTypeMismatch {
                    function: string_from(function_name),
                    parameter_name: string_from("value"),
                    parameter_position: 0,
                    expected: NormalizedType::Number.to_text(),
                    found: argument_types[0].to_text(),
                });
            }
            return Ok(ExpressionType::value(NormalizedType::Number));
        }
        if str_equal(function_name, "log") {
            proof {
                reveal_strlit("log");
                reveal_strlit("sqrt");
                reveal_strlit("sin");
                reveal_strlit("cos");
                reveal_strlit("exp");
            }
            if argument_types.len() != 2 {
                return Err(SemanticError::WrongArgumentCount {
                    function: string_from(function_name),
                    expected: 2,
                    found: argument_types.len(),
                });
            }
            if !argument_types[0].is_unknown() && !same_type(&argument_types[0], &NormalizedType::Number) {
                return Err(SemanticError::ArgumentTypeMismatch {
                    function: string_from(function_name),
                    parameter_name: string_from("base"),
                    parameter_position: 0,
                    expected: NormalizedType::Number.to_text(),
                    found: argument_types[0].to_text(),
                });
            }
            if !argument_types[1].is_unknown() && !same_type(&argument_types[1], &NormalizedType::Number) {
                return Err(SemanticError::ArgumentTypeMismatch {
                    function: string_from(function_name),
                    parameter_name: string_from("value"),
                    parameter_position: 1,
                    expected: NormalizedType::Number.to_text(),
                    found: argument_types[1].to_text(),
                });
            }
            return Ok(ExpressionType::value(NormalizedType::Number));
        }
        proof {
            reveal_strlit("print");
            reveal_strlit("log");
            reveal_strlit("sqrt");
            reveal_strlit("sin");
            reveal_strlit("cos");
            reveal_strlit("exp");
        }
        let ret_type = match expected_return_type {
            Some(t) => copy_type(t),
            None => NormalizedType::Unknown,
        };
        match expected_params {
            Some(params) => check_arguments(function_name, argument_types, params, ret_type),
            None => Ok(ExpressionType::value(ret_type)),
        }
    }

    /// The condition of an `if` and of each `elif` must be boolean, and every
    /// branch must have the type of the `then` branch, which is the result.
    pub fn check_if_expression(
        &self,
        condition_type: &NormalizedType,
        then_type: &NormalizedType,
        elif_branches: &[(NormalizedType, NormalizedType)],
        else_type: Option<&NormalizedType>,
        _span: &Span,
    ) -> (r: Result<ExpressionType, SemanticError>)
        ensures
            if_outcome(
                condition_type@,
                then_type@,
                elif_branches@.map_values(|b: (NormalizedType, NormalizedType)| (b.0@, b.1@)),
                opt_model(else_type),
                r,
            ),
    {
        let ghost elifs = elif_branches@.map_values(|b: (NormalizedType, NormalizedType)| (b.0@, b.1@));
        if !same_type(condition_type, &NormalizedType::Boolean) {
            return Err(SemanticError::NonBooleanCondition {
                found_type: condition_type.to_text(),
                context: string_from("if"),
            });
        }
        let mut k: usize = 0;
        while k < elif_branches.len()
            invariant
                condition_type@ is Boolean,
                0 <= k <= elifs.len(),
                elifs.len() == elif_branches@.len(),
                elifs == elif_branches@.map_values(|b: (NormalizedType, NormalizedType)| (b.0@, b.1@)),
                first_bad_elif_from(then_type@, elifs, 0) == first_bad_elif_from(then_type@, elifs, k as int),
            decreases elifs.len() - k,
        {
            let (elif_cond, elif_body) = (&elif_branches[k].0, &elif_branches[k].1);
            assert(elifs[k as int] == (elif_cond@, elif_body@));
            if !same_type(elif_cond, &NormalizedType::Boolean) {
                return Err(SemanticError::NonBooleanCondition {
                    found_type: elif_cond.to_text(),
                    context: string_from("elif"),
                });
            }
            if !same_type(then_type, elif_body) {
                return Err(SemanticError::IncompatibleBranchTypes {
                    then_type: then_type.to_text(),
                    else_type: elif_body.to_text(),
                });
            }
            k = k + 1;
        }
        match else_type {
            Some(e) => {
                if !same_type(then_type, e) {
                    return Err(SemanticError::IncompatibleBranchTypes {
                        then_type: then_type.to_text(),
                        else_type: e.to_text(),
                    });
                }
            },
            None => {},
        }
        Ok(ExpressionType::value(copy_type(then_type)))
    }

    /// A block has the type of its last expression; an empty one is unknown.
    pub fn check_block(&self, expr_types: &[NormalizedType]) -> (r: Result<ExpressionType, SemanticError>)
        ensures
            if expr_types@.len() > 0 {
                gives(r, expr_types@.last()@, false)
            } else {
                gives(r, TypeModel::Unknown, false)
            },
    {
        if expr_types.len() > 0 {
            Ok(ExpressionType::value(copy_type(&expr_types[expr_types.len() - 1])))
        } else {
            Ok(ExpressionType::value(NormalizedType::Unknown))
        }
    }

    /// The condition of a `while` must be boolean; the loop has the type of
    /// its body.
    pub fn check_while_expression(&self, condition_type: &NormalizedType, body_type: &NormalizedType, _span: &Span) -> (r:
        Result<ExpressionType, SemanticError>)
        ensures
            if condition_type@ is Boolean {
                gives(r, body_type@, false)
            } else {
                r matches Err(SemanticError::NonBooleanCondition { found_type, context })
                    && found_type@ == type_text(condition_type@) && context@ == "while"@
            },
    {
        if !same_type(condition_type, &NormalizedType::Boolean) {
            return Err(SemanticError::NonBooleanCondition {
                found_type: condition_type.to_text(),
                context: string_from("while"),
            });
        }
        Ok(ExpressionType::value(copy_type(body_type)))
    }

    /// A `for` loop has the type of its body.
    pub fn check_for_expression(&self, _iterable_type: &NormalizedType, body_type: &NormalizedType, _span: &Span) -> (r:
        Result<ExpressionType, SemanticError>)
        ensures
            gives(r, body_type@, false),
    {
        Ok(ExpressionType::value(copy_type(body_type)))
    }

    /// A `let` with both an annotation and a value needs them equal; its type
    /// is the annotation, else the value's, else unknown.
    pub fn check_let_expression(
        &self,
        annotation_type: Option<&NormalizedType>,
        value_type: Option<&NormalizedType>,
        _span: &Span,
    ) -> (r: Result<ExpressionType, SemanticError>)
        ensures
            match (annotation_type, value_type) {
                (Some(a), Some(v)) => if a@ != v@ {
                    r matches Err(e) && let_mismatch(a@, v@, e)
                } else {
                    gives(r, a@, false)
                },
                (Some(a), None) => gives(r, a@, false),
                (None, Some(v)) => gives(r, v@, false),
                (None, None) => gives(r, TypeModel::Unknown, false),
            },
    {
        match (annotation_type, value_type) {
            (Some(expected), Some(found)) => {
                if !same_type(expected, found) {
                    return Err(SemanticError::TypeMismatch {
                        expected: expected.to_text(),
                        found: found.to_text(),
                        context: string_from("asignación en let"),
                    });
                }
                Ok(ExpressionType::value(copy_type(expected)))
            },
            (Some(expected), None) => Ok(ExpressionType::value(copy_type(expected))),
            (None, Some(found)) => Ok(ExpressionType::value(copy_type(found))),
            (None, None) => Ok(ExpressionType::value(NormalizedType::Unknown)),
        }
    }

    /// An assignment needs a place as target and a value whose type does not
    /// clash with it; it has the type of the value.
    pub fn check_assignment_expression(&self, target_type: &ExpressionType, value_type: &NormalizedType, _span: &Span) -> (r:
        Result<ExpressionType, SemanticError>)
        ensures
            if !target_type.is_lvalue {
                r matches Err(SemanticError::InvalidTarget { context }) && context@ == "asignación (no es lvalue)"@
            } else if clash(target_type.type_@, value_type@) {
                r matches Err(SemanticError::TypeMismatch { expected, found, context })
                    && expected@ == type_text(target_type.type_@) && found@ == type_text(value_type@)
                    && context@ == "asignación"@
            } else {
                gives(r, value_type@, false)
            },
    {
        if !target_type.is_lvalue {
            return Err(SemanticError::InvalidTarget { context: string_from("asignación (no es lvalue)") });
        }
        if !same_type(&target_type.type_, value_type) && !target_type.type_.is_unknown() && !value_type.is_unknown() {
            return Err(SemanticError::TypeMismatch {
                expected: target_type.type_.to_text(),
                found: value_type.to_text(),
                context: string_from("asignación"),
            });
        }
        Ok(ExpressionType::value(copy_type(value_type)))
    }

    /// `new T(args)`: the arguments are checked against the constructor's
    /// parameters when they are known; the result is `T`.
    pub fn check_new(
        &self,
        ty: &str,
        argument_types: &[NormalizedType],
        expected_params: Option<&[(String, NormalizedType)]>,
        _span: &Span,
    ) -> (r: Result<ExpressionType, SemanticError>)
        ensures
            match expected_params {
                Some(ps) => {
                    let args = models(argument_types@);
                    let params = param_models(ps@);
                    if args.len() != params.len() {
                        r matches Err(SemanticError::InvalidConstructor { constructed, reason })
                            && constructed@ == ty@
                            && reason@ == "esperaba "@ + decimal(params.len()) + " argumentos, recibió "@
                                + decimal(args.len())
                    } else if first_clash_from(args, params, 0) >= 0 {
                        let i = first_clash_from(args, params, 0);
                        r matches Err(e) && argument_error(e, ty@, params[i].0, i, type_text(params[i].1), type_text(args[i]))
                    } else {
                        gives(r, TypeModel::Named(ty@), false)
                    }
                },
                None => gives(r, TypeModel::Named(ty@), false),
            },
    {
        match expected_params {
            Some(params) => {
                if argument_types.len() != params.len() {
                    let mut reason = string_from("esperaba ");
                    let n = usize_to_string(params.len());
                    push_str(&mut reason, n.as_str());
                    push_str(&mut reason, " argumentos, recibió ");
                    let m = usize_to_string(argument_types.len());
                    push_str(&mut reason, m.as_str());
                    return Err(SemanticError::InvalidConstructor { constructed: string_from(ty), reason });
                }
                let checked = check_arguments(ty, argument_types, params, NormalizedType::Named(string_from(ty)));
                checked
            },
            None => Ok(ExpressionType::value(NormalizedType::Named(string_from(ty)))),
        }
    }

    /// A member access has the member's type and can be assigned to; an
    /// unknown member is refused.
    pub fn check_member_access(
        &self,
        object_type: &NormalizedType,
        member_name: &str,
        member_type: Option<&NormalizedType>,
        _span: &Span,
    ) -> (r: Result<ExpressionType, SemanticError>)
        ensures
            match member_type {
                Some(m) => gives(r, m@, true),
                None => r matches Err(SemanticError::MemberNotFound { owner, member_name: m })
                    && owner@ == type_text(object_type@) && m@ == member_name@,
            },
    {
        match member_type {
            Some(m) => Ok(ExpressionType::lvalue(copy_type(m))),
            None => Err(SemanticError::MemberNotFound {
                owner: object_type.to_text(),
                member_name: string_from(member_name),
            }),
        }
    }

    /// `e is T` is a boolean.
    pub fn check_is(&self, _expr_type: &NormalizedType, _target_type: &NormalizedType, _span: &Span) -> (r: Result<
        ExpressionType,
        SemanticError,
    >)
        ensures
            gives(r, TypeModel::Boolean, false),
    {
        Ok(ExpressionType::value(NormalizedType::Boolean))
    }

    /// `e as T` has type `T`.
    pub fn check_as(&self, _expr_type: &NormalizedType, target_type: &NormalizedType, _span: &Span) -> (r: Result<
        ExpressionType,
        SemanticError,
    >)
        ensures
            gives(r, target_type@, false),
    {
        Ok(ExpressionType::value(copy_type(target_type)))
    }

    /// `v[i]`: the index must be a number (or unknown), and `v` a vector,
    /// whose element type is the result (a place), or unknown.
    pub fn check_index_access(&self, object_type: &NormalizedType, index_type: &NormalizedType, _span: &Span) -> (r:
        Result<ExpressionType, SemanticError>)
        ensures
            if !number_like(index_type@) {
                r matches Err(SemanticError::InvalidIndexType { expected, found })
                    && expected@ == "Number"@ && found@ == type_text(index_type@)
            } else {
                match object_type@ {
                    TypeModel::Vector(inner) => gives(r, *inner, true),
                    TypeModel::Unknown => gives(r, TypeModel::Unknown, true),
                    _ => r matches Err(SemanticError::NotIndexable { found_type })
                        && found_type@ == type_text(object_type@),
                }
            },
    {
        if !same_type(index_type, &NormalizedType::Number) && !index_type.is_unknown() {
            return Err(SemanticError::InvalidIndexType { expected: string_from("Number"), found: index_type.to_text() });
        }
        match object_type {
            NormalizedType::Vector(inner) => Ok(ExpressionType::lvalue(copy_type(inner))),
            NormalizedType::Unknown => Ok(ExpressionType::lvalue(NormalizedType::Unknown)),
            _ => Err(SemanticError::NotIndexable { found_type: object_type.to_text() }),
        }
    }

    /// A vector literal is a vector of its first element's type (of unknown
    /// when empty); an element that clashes with the first is refused.
    pub fn check_vector_literal(&self, element_types: &[NormalizedType], _span: &Span) -> (r: Result<
        ExpressionType,
        SemanticError,
    >)
        ensures
            ({
                let elems = models(element_types@);
                if elems.len() == 0 {
                    gives(r, TypeModel::Vector(Box::new(TypeModel::Unknown)), false)
                } else if first_inconsistent_from(elems, 1) >= 0 {
                    let i = first_inconsistent_from(elems, 1);
                    r matches Err(SemanticError::InconsistentArrayTypes { expected, found, position })
                        && expected@ == type_text(elems[0]) && found@ == type_text(elems[i]) && position == i
                } else {
                    gives(r, TypeModel::Vector(Box::new(elems[0])), false)
                }
            }),
    {
        let ghost elems = models(element_types@);
        if element_types.len() == 0 {
            assert(elems.len() == 0);
            let u = NormalizedType::Unknown;
            assert(u@ == TypeModel::Unknown);
            let r = ExpressionType::value(NormalizedType::Vector(Box::new(u)));
            return Ok(r);
        }
        let first_type = &element_types[0];
        let mut i: usize = 1;
        while i < element_types.len()
            invariant
                1 <= i <= elems.len(),
                elems == models(element_types@),
                *first_type == element_types@[0],
                first_inconsistent_from(elems, 1) == first_inconsistent_from(elems, i as int),
            decreases elems.len() - i,
        {
            let element_type = &element_types[i];
            if !same_type(element_type, first_type) && !element_type.is_unknown() && !first_type.is_unknown() {
                return Err(SemanticError::InconsistentArrayTypes {
                    expected: first_type.to_text(),
                    found: element_type.to_text(),
                    position: i,
                });
            }
            i = i + 1;
        }
        Ok(ExpressionType::value(NormalizedType::Vector(Box::new(copy_type(first_type)))))
    }

    /// A comprehension gives an iterable of the element expression's type.
    pub fn check_iterable_usage(&self, element_expr_type: &NormalizedType, _iterable_type: &NormalizedType, _span: &Span) -> (r:
        Result<ExpressionType, SemanticError>)
        ensures
            gives(r, TypeModel::Iterable(Box::new(element_expr_type@)), false),
    {
        Ok(ExpressionType::value(NormalizedType::Iterable(Box::new(copy_type(element_expr_type)))))
    }
}

/// Checks arguments against parameters of the same count, for function `f`;
/// on success the result is a value of type `ok`.
fn check_arguments(
    f: &str,
    argument_types: &[NormalizedType],
    params: &[(String, NormalizedType)],
    ok: NormalizedType,
) -> (r: Result<ExpressionType, SemanticError>)
    ensures
        arguments_outcome(f@, models(argument_types@), param_models(params@), r, ok@),
{
    let ghost args = models(argument_types@);
    let ghost ps = param_models(params@);
    if argument_types.len() != params.len() {
        return Err(SemanticError::WrongArgumentCount {
            function: string_from(f),
            expected: params.len(),
            found: argument_types.len(),
        });
    }
    let mut i: usize = 0;
    while i < argument_types.len()
        invariant
            0 <= i <= args.len(),
            args.len() == ps.len(),
            args == models(argument_types@),
            ps == param_models(params@),
            first_clash_from(args, ps, 0) == first_clash_from(args, ps, i as int),
        decreases args.len() - i,
    {
        let arg_type = &argument_types[i];
        let param_name = &params[i].0;
        let param_type = &params[i].1;
        if !same_type(arg_type, param_type) && !arg_type.is_unknown() && !param_type.is_unknown() {
            return Err(SemanticError::ArgumentTypeMismatch {
                function: string_from(f),
                parameter_name: param_name.clone(),
                parameter_position: i,
                expected: param_type.to_text(),
                found: arg_type.to_text(),
            });
        }
        i = i + 1;
    }
    Ok(ExpressionType::value(ok))
}

impl Default for ExpressionChecker {
    fn default() -> (r: ExpressionChecker) {
        ExpressionChecker::new()
    }
}

} // verus!
