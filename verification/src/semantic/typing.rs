use vstd::prelude::*;

use crate::errors::SemanticError;
use crate::parser::ast::{BinaryOperator, Expr, ExprKind, Literal, Parameter, ProtocolMethodSignature, TypeReference};
use crate::semantic::expression_checker::{
    binary_error, binary_result, call_outcome, call_type, if_outcome, if_type, let_mismatch, ExpressionType,
};
use crate::semantic::symbol_table::{duplicate_error, index_of, lookup_in, SymbolView};
use crate::semantic::type_system::{
    first_missing_protocol, is_builtin_type_name, is_unknown_type_error, proto_pos, resolved,
    type_registration_error, type_pos, type_text, ProtocolInfo, TypeEnvironment, TypeInfo, TypeModel,
};
use crate::text::{decimal, strs};

verus! {

/// The type of a literal.
pub open spec fn literal_model(l: Literal) -> TypeModel {
    match l {
        Literal::String(_) => TypeModel::String,
        Literal::Boolean(_) => TypeModel::Boolean,
        _ => TypeModel::Number,
    }
}

/// The type an optional annotation names in `env`: unknown when there is
/// none or when it names nothing.
pub open spec fn annotation_model(env: TypeEnvironment, a: Option<TypeReference>) -> TypeModel {
    match a {
        Some(tr) => match resolved(env, tr) {
            Ok(m) => m,
            Err(_) => TypeModel::Unknown,
        },
        None => TypeModel::Unknown,
    }
}

/// The type a name has through the symbol it resolves to: a variable's or a
/// parameter's annotation as the environment reads it (unknown when it has
/// none or when it names nothing); unknown for other symbols.
pub open spec fn symbol_type(env: TypeEnvironment, s: SymbolView) -> TypeModel {
    if s.0 <= 1 {
        annotation_model(env, s.2)
    } else {
        TypeModel::Unknown
    }
}

/// Each parameter's name with the type its annotation names.
pub open spec fn parameter_facts(env: TypeEnvironment, ps: Seq<Parameter>) -> Seq<(Seq<char>, TypeModel)> {
    ps.map_values(|p: Parameter| (p.name@, annotation_model(env, p.annotation)))
}

/// What checking expressions reads of a symbol: its kind, its name, the type
/// a name gets through it, and, for a function, its parameters and the type
/// its return annotation names.
pub type SymbolFacts = (nat, Seq<char>, TypeModel, Seq<(Seq<char>, TypeModel)>, TypeModel);

pub open spec fn facts(env: TypeEnvironment, s: SymbolView) -> SymbolFacts {
    (s.0, s.1, symbol_type(env, s), parameter_facts(env, s.3), annotation_model(env, s.2))
}

/// The facts of every symbol of every scope.
pub open spec fn facts_of(env: TypeEnvironment, scopes: Seq<Seq<SymbolView>>) -> Seq<Seq<SymbolFacts>> {
    scopes.map_values(|sc: Seq<SymbolView>| sc.map_values(|s: SymbolView| facts(env, s)))
}

/// The index of the last fact of `scope` about `name`, or -1.
pub open spec fn fact_index(scope: Seq<SymbolFacts>, name: Seq<char>) -> int
    decreases scope.len(),
{
    if scope.len() == 0 {
        -1
    } else if scope.last().1 == name {
        scope.len() - 1
    } else {
        fact_index(scope.drop_last(), name)
    }
}

/// The facts of the symbol `name` resolves to, searching from the innermost scope.
pub open spec fn find_fact(scopes: Seq<Seq<SymbolFacts>>, name: Seq<char>) -> Option<SymbolFacts>
    decreases scopes.len(),
{
    if scopes.len() == 0 {
        None
    } else if fact_index(scopes.last(), name) >= 0 {
        Some(scopes.last()[fact_index(scopes.last(), name)])
    } else {
        find_fact(scopes.drop_last(), name)
    }
}

proof fn lemma_fact_index(env: TypeEnvironment, scope: Seq<SymbolView>, name: Seq<char>)
    ensures
        fact_index(scope.map_values(|s: SymbolView| facts(env, s)), name) == index_of(scope, name),
    decreases scope.len(),
{
    let fs = scope.map_values(|s: SymbolView| facts(env, s));
    if scope.len() > 0 {
        assert(fs.drop_last() =~= scope.drop_last().map_values(|s: SymbolView| facts(env, s)));
        lemma_fact_index(env, scope.drop_last(), name);
    }
}

proof fn lemma_index_of_range(scope: Seq<SymbolView>, name: Seq<char>)
    ensures
        index_of(scope, name) < scope.len(),
    decreases scope.len(),
{
    if scope.len() > 0 {
        lemma_index_of_range(scope.drop_last(), name);
    }
}

/// Looking a name up among the facts finds the facts of the symbol that the
/// symbol table finds.
pub proof fn lemma_find_fact(env: TypeEnvironment, scopes: Seq<Seq<SymbolView>>, name: Seq<char>)
    ensures
        find_fact(facts_of(env, scopes), name) == match lookup_in(scopes, name) {
            Some(s) => Some(facts(env, s)),
            None => None,
        },
    decreases scopes.len(),
{
    if scopes.len() > 0 {
        let fs = facts_of(env, scopes);
        assert(fs.drop_last() =~= facts_of(env, scopes.drop_last()));
        assert(fs.last() == scopes.last().map_values(|s: SymbolView| facts(env, s)));
        lemma_fact_index(env, scopes.last(), name);
        lemma_find_fact(env, scopes.drop_last(), name);
        let k = index_of(scopes.last(), name);
        if k >= 0 {
            lemma_index_of_range(scopes.last(), name);
            assert(fs.last()[k] == facts(env, scopes.last()[k]));
        }
    }
}

/// The facts of a scope pushed on top are pushed on top of the facts.
pub proof fn lemma_facts_push(env: TypeEnvironment, scopes: Seq<Seq<SymbolView>>, scope: Seq<SymbolView>)
    ensures
        facts_of(env, scopes.push(scope)) == facts_of(env, scopes).push(
            scope.map_values(|s: SymbolView| facts(env, s)),
        ),
{
    assert(facts_of(env, scopes.push(scope)) =~= facts_of(env, scopes).push(
        scope.map_values(|s: SymbolView| facts(env, s)),
    ));
}

/// What a name written in an annotation reads as in `env`: a builtin type, a
/// declared type, a declared protocol, or nothing.
pub open spec fn name_reading(env: TypeEnvironment, n: Seq<char>) -> Option<TypeModel> {
    if is_builtin_type_name(n) {
        Some(
            if n == "Number"@ {
                TypeModel::Number
            } else if n == "String"@ {
                TypeModel::String
            } else if n == "Boolean"@ {
                TypeModel::Boolean
            } else {
                TypeModel::Named(n)
            },
        )
    } else if type_pos(env.types(), n) >= 0 {
        Some(TypeModel::Named(n))
    } else if proto_pos(env.protos(), n) >= 0 {
        Some(TypeModel::Protocol(n))
    } else {
        None
    }
}

/// What a type reads as in `env` once it is written out as an annotation:
/// every name is read again; an unknown part leaves nothing to write.
pub open spec fn reading(env: TypeEnvironment, m: TypeModel) -> Option<TypeModel>
    decreases m,
{
    match m {
        TypeModel::Number => Some(TypeModel::Number),
        TypeModel::String => Some(TypeModel::String),
        TypeModel::Boolean => Some(TypeModel::Boolean),
        TypeModel::Named(n) => name_reading(env, n),
        TypeModel::Protocol(n) => name_reading(env, n),
        TypeModel::Iterable(inner) => match reading(env, *inner) {
            Some(t) => Some(TypeModel::Iterable(Box::new(t))),
            None => None,
        },
        TypeModel::Vector(inner) => match reading(env, *inner) {
            Some(t) => Some(TypeModel::Vector(Box::new(t))),
            None => None,
        },
        TypeModel::Unknown => None,
    }
}

/// What an optional annotation reads as in `env`.
pub open spec fn annotation_reading(env: TypeEnvironment, a: Option<TypeReference>) -> Option<TypeModel> {
    match a {
        Some(tr) => match resolved(env, tr) {
            Ok(m) => Some(m),
            Err(_) => None,
        },
        None => None,
    }
}

/// The type a variable declared with the type `m` gets when it is looked up.
pub open spec fn stored_type(env: TypeEnvironment, m: TypeModel) -> TypeModel {
    match reading(env, m) {
        Some(t) => t,
        None => TypeModel::Unknown,
    }
}

/// The first method signature from `i` on named `invoke`, or -1.
pub open spec fn invoke_from(ms: Seq<ProtocolMethodSignature>, i: int) -> int
    decreases ms.len() - i,
{
    if i < 0 || i >= ms.len() {
        -1
    } else if ms[i].name@ == "invoke"@ {
        i
    } else {
        invoke_from(ms, i + 1)
    }
}

/// The parameters and the return type of the `invoke` method of the
/// protocol named like the type `t`, when `t` is a named type and there is
/// such a protocol with such a method.
pub open spec fn invoke_of(env: TypeEnvironment, t: TypeModel) -> Option<(Seq<(Seq<char>, TypeModel)>, TypeModel)> {
    match t {
        TypeModel::Named(n) => {
            let k = proto_pos(env.protos(), n);
            if k >= 0 {
                let ms = env.protos()[k].members@;
                let j = invoke_from(ms, 0);
                if j >= 0 {
                    Some(
                        (
                            parameter_facts(env, ms[j].parameters@),
                            match resolved(env, ms[j].return_type) {
                                Ok(m) => m,
                                Err(_) => TypeModel::Unknown,
                            },
                        ),
                    )
                } else {
                    None
                }
            } else {
                None
            }
        },
        _ => None,
    }
}

/// For each name called that is a variable or a parameter, the argument
/// types of each call seen, in order; kept only while a function body is
/// checked.
pub type CallLog = Option<Seq<(Seq<char>, Seq<Seq<TypeModel>>)>>;

/// The first entry from `i` on for `name`, or -1.
pub open spec fn entry_from(log: Seq<(Seq<char>, Seq<Seq<TypeModel>>)>, name: Seq<char>, i: int) -> int
    decreases log.len() - i,
{
    if i < 0 || i >= log.len() {
        -1
    } else if log[i].0 == name {
        i
    } else {
        entry_from(log, name, i + 1)
    }
}

/// The log with a call of `name` with argument types `args` added to the
/// entry for `name`, or to a new entry at the end.
pub open spec fn log_call(log: Seq<(Seq<char>, Seq<Seq<TypeModel>>)>, name: Seq<char>, args: Seq<TypeModel>) -> Seq<
    (Seq<char>, Seq<Seq<TypeModel>>),
> {
    let i = entry_from(log, name, 0);
    if i >= 0 {
        log.update(i, (log[i].0, log[i].1.push(args)))
    } else {
        log.push((name, seq![args]))
    }
}

/// The entry found for a name depends only on the names of the entries.
pub proof fn lemma_entry_keys(
    l1: Seq<(Seq<char>, Seq<Seq<TypeModel>>)>,
    l2: Seq<(Seq<char>, Seq<Seq<TypeModel>>)>,
    name: Seq<char>,
    i: int,
)
    requires
        l1.len() == l2.len(),
        forall|j: int| 0 <= j < l1.len() ==> #[trigger] l1[j].0 == l2[j].0,
    ensures
        entry_from(l1, name, i) == entry_from(l2, name, i),
    decreases l1.len() - i,
{
    if 0 <= i < l1.len() {
        lemma_entry_keys(l1, l2, name, i + 1);
    }
}

/// A name with no entry finds the entry pushed for it.
pub proof fn lemma_entry_push(
    l: Seq<(Seq<char>, Seq<Seq<TypeModel>>)>,
    name: Seq<char>,
    x: (Seq<char>, Seq<Seq<TypeModel>>),
    i: int,
)
    requires
        0 <= i <= l.len(),
        entry_from(l, name, i) == -1,
        x.0 == name,
    ensures
        entry_from(l.push(x), name, i) == l.len(),
    decreases l.len() - i,
{
    if i < l.len() {
        assert(l.push(x)[i] == l[i]);
        lemma_entry_push(l, name, x, i + 1);
    }
}

/// The argument types of the first call of `name` in a log that has one.
pub open spec fn first_call(log: Seq<(Seq<char>, Seq<Seq<TypeModel>>)>, name: Seq<char>) -> Seq<TypeModel> {
    log[entry_from(log, name, 0)].1[0]
}

/// Parameters named `arg0`, `arg1`, ... with the given types.
pub open spec fn labelled(ts: Seq<TypeModel>) -> Seq<(Seq<char>, TypeModel)> {
    Seq::new(ts.len(), |k: int| ("arg"@ + decimal(k as nat), ts[k]))
}

/// What a call of `name` with argument types `args` is checked against,
/// given the symbol it resolves to: the parameters and the return type of a
/// function; for a variable or a parameter, those of the `invoke` method of
/// its protocol, where the parameters of a logged call are the argument
/// types of the first call of the name; nothing otherwise. Also the log
/// after the call.
pub open spec fn call_expectation(
    env: TypeEnvironment,
    found: Option<SymbolFacts>,
    name: Seq<char>,
    args: Seq<TypeModel>,
    log: CallLog,
) -> (Option<Seq<(Seq<char>, TypeModel)>>, Option<TypeModel>, CallLog) {
    match found {
        Some(f) => if f.0 == 2 {
            (Some(f.3), Some(f.4), log)
        } else if f.0 <= 1 {
            let inv = invoke_of(env, f.2);
            let ret = match inv {
                Some(s) => Some(s.1),
                None => None,
            };
            match log {
                Some(l) => {
                    let l2 = log_call(l, name, args);
                    (Some(labelled(first_call(l2, name))), ret, Some(l2))
                },
                None => (
                    match inv {
                        Some(s) => Some(s.0),
                        None => None,
                    },
                    ret,
                    None,
                ),
            }
        } else {
            (None, None, log)
        },
        None => (None, None, log),
    }
}

/// What goes wrong in an expression, by what it rests on.
pub enum Finding {
    /// A name that no scope declares.
    Undeclared(Seq<char>),
    /// A call of something other than a name.
    ComplexCall,
    /// A call refused: the name, the argument types, the parameters and the
    /// return type it is checked against.
    Call(Seq<char>, Seq<TypeModel>, Option<Seq<(Seq<char>, TypeModel)>>, Option<TypeModel>),
    /// An operator refused on operands of these types.
    Binary(BinaryOperator, TypeModel, TypeModel),
    /// An annotation with a name that names nothing.
    UnknownName(Seq<char>),
    /// A `let` annotation that differs from the type of the value.
    LetMismatch(TypeModel, TypeModel),
    /// An `if` refused: the types of its condition, `then`, `elif` and `else` parts.
    Branches(TypeModel, TypeModel, Seq<(TypeModel, TypeModel)>, Option<TypeModel>),
    /// A feature the analysis does not support.
    Unsupported(Seq<char>),
    /// A type refused by the environment holding the given types.
    TypeRefused(Seq<TypeInfo>, TypeInfo),
    /// A protocol refused by the environment holding the given protocols.
    ProtocolRefused(Seq<ProtocolInfo>, ProtocolInfo),
    /// A symbol whose name its scope already declares, with that symbol.
    Duplicate(SymbolView, SymbolView),
    /// A function body whose type does not fit the return annotation: the
    /// function, the type annotated, the type of the body.
    ReturnMismatch(Seq<char>, TypeModel, TypeModel),
}

/// The error recorded for a finding.
pub open spec fn reports(f: Finding, e: SemanticError) -> bool {
    match f {
        Finding::Undeclared(n) => e matches SemanticError::UndeclaredVariable { name } && name@ == n,
        Finding::ComplexCall => e matches SemanticError::UnsupportedFeature { feature }
            && feature@ == "complex function calls"@,
        Finding::Call(n, args, params, ret) => call_outcome(n, args, params, ret, Err(e)),
        Finding::Binary(op, l, r) => binary_error(op, l, r, e),
        Finding::UnknownName(n) => is_unknown_type_error(e, n),
        Finding::LetMismatch(a, v) => let_mismatch(a, v, e),
        Finding::Branches(c, t, elifs, el) => if_outcome(c, t, elifs, el, Err::<ExpressionType, SemanticError>(e)),
        Finding::Unsupported(f) => e matches SemanticError::UnsupportedFeature { feature } && feature@ == f,
        Finding::TypeRefused(ts, info) => type_registration_error(ts, info, e),
        Finding::ProtocolRefused(ps, info) => if proto_pos(ps, info.name@) >= 0 {
            e matches SemanticError::ProtocolAlreadyDeclared { name, first_line, first_column }
                && name@ == info.name@ && first_line == 0 && first_column == 0
        } else {
            e matches SemanticError::UndeclaredProtocol { name }
                && Some(name@) == first_missing_protocol(ps, strs(info.extends@))
        },
        Finding::Duplicate(entry, existing) => duplicate_error(e, entry, existing),
        Finding::ReturnMismatch(f, expected, found) => e matches SemanticError::ReturnTypeMismatch {
            function,
            expected: x,
            found: y,
        } && function@ == f && x@ == type_text(expected) && y@ == type_text(found),
    }
}

/// The errors from position `from` on are those the findings report, in order.
pub open spec fn reported(errs: Seq<SemanticError>, from: int, fs: Seq<Finding>) -> bool {
    &&& 0 <= from
    &&& errs.len() == from + fs.len()
    &&& forall|i: int| 0 <= i < fs.len() ==> reports(#[trigger] fs[i], errs[from + i])
}

/// Errors reported one after another are reported together.
pub proof fn lemma_reported_join(e1: Seq<SemanticError>, e2: Seq<SemanticError>, from: int, a: Seq<Finding>, b: Seq<Finding>)
    requires
        reported(e1, from, a),
        e1.len() <= e2.len(),
        forall|i: int| 0 <= i < e1.len() ==> #[trigger] e2[i] == e1[i],
        reported(e2, e1.len() as int, b),
    ensures
        reported(e2, from, a + b),
{
    assert forall|i: int| 0 <= i < (a + b).len() implies reports(#[trigger] (a + b)[i], e2[from + i]) by {
        if i < a.len() {
            assert(e2[from + i] == e1[from + i]);
        } else {
            assert((a + b)[i] == b[i - a.len()]);
        }
    }
}

/// An error reported after others.
pub proof fn lemma_reported_push(e1: Seq<SemanticError>, from: int, a: Seq<Finding>, f: Finding, e: SemanticError)
    requires
        reported(e1, from, a),
        reports(f, e),
    ensures
        reported(e1.push(e), from, a.push(f)),
{
    assert forall|i: int| 0 <= i < a.push(f).len() implies reports(#[trigger] a.push(f)[i], e1.push(e)[from + i]) by {
        if i < a.len() {
            assert(a.push(f)[i] == a[i]);
        }
    }
}

/// Nothing reported.
pub proof fn lemma_reported_none(e1: Seq<SemanticError>)
    ensures
        reported(e1, e1.len() as int, Seq::empty()),
{
}

/// The type of an expression, how the call log ends, and what goes wrong in
/// it, in order, when it is checked in the scopes `fs` with the log `log`.
pub open spec fn check_model(env: TypeEnvironment, fs: Seq<Seq<SymbolFacts>>, log: CallLog, e: Expr) -> (
    TypeModel,
    CallLog,
    Seq<Finding>,
)
    decreases e, 1nat,
{
    match e.kind {
        ExprKind::Literal(l) => (literal_model(l), log, Seq::empty()),
        ExprKind::Identifier(n) => match find_fact(fs, n@) {
            Some(f) => (f.2, log, Seq::empty()),
            None => (TypeModel::Unknown, log, seq![Finding::Undeclared(n@)]),
        },
        ExprKind::Call { callee, arguments } => match callee.kind {
            ExprKind::Identifier(n) => {
                let a = list_model(env, fs, log, arguments@);
                let x = call_expectation(env, find_fact(fs, n@), n@, a.0, a.1);
                match call_type(n@, a.0, x.0, x.1) {
                    Some(t) => (t, x.2, a.2),
                    None => (TypeModel::Unknown, x.2, a.2.push(Finding::Call(n@, a.0, x.0, x.1))),
                }
            },
            _ => (TypeModel::Unknown, log, seq![Finding::ComplexCall]),
        },
        ExprKind::Binary { left, operator, right } => {
            let l = check_model(env, fs, log, *left);
            let r = check_model(env, fs, l.1, *right);
            match binary_result(operator, l.0, r.0) {
                Some(t) => (t, r.1, l.2 + r.2),
                None => (TypeModel::Unknown, r.1, (l.2 + r.2).push(Finding::Binary(operator, l.0, r.0))),
            }
        },
        ExprKind::Block(es) => {
            let a = list_model(env, fs, log, es@);
            (
                if a.0.len() > 0 {
                    a.0.last()
                } else {
                    TypeModel::Unknown
                },
                a.1,
                a.2,
            )
        },
        ExprKind::Let { name, annotation, value, body } => {
            let v = check_model(env, fs.push(Seq::empty()), log, *value);
            let ann: Option<TypeModel> = match annotation {
                Some(a) => match resolved(env, a) {
                    Ok(m) => Some(m),
                    Err(_) => None,
                },
                None => None,
            };
            let f_ann: Seq<Finding> = match annotation {
                Some(a) => match resolved(env, a) {
                    Ok(_) => Seq::empty(),
                    Err(n) => seq![Finding::UnknownName(n)],
                },
                None => Seq::empty(),
            };
            let t: TypeModel = match ann {
                Some(a) => if a != v.0 {
                    TypeModel::Unknown
                } else {
                    a
                },
                None => v.0,
            };
            let f_let: Seq<Finding> = match ann {
                Some(a) => if a != v.0 {
                    seq![Finding::LetMismatch(a, v.0)]
                } else {
                    Seq::empty()
                },
                None => Seq::empty(),
            };
            let stored = stored_type(env, t);
            let b = check_model(env, fs.push(seq![(0nat, name@, stored, Seq::empty(), stored)]), v.1, *body);
            (b.0, b.1, v.2 + f_ann + f_let + b.2)
        },
        ExprKind::If { condition, then_expr, elif_parts, else_expr } => {
            let c = check_model(env, fs, log, *condition);
            let t = check_model(env, fs, c.1, *then_expr);
            let p = pairs_model(env, fs, t.1, elif_parts@);
            let el: Option<(TypeModel, CallLog, Seq<Finding>)> = match else_expr {
                Some(x) => Some(check_model(env, fs, p.1, *x)),
                None => None,
            };
            let el_type: Option<TypeModel> = match el {
                Some(x) => Some(x.0),
                None => None,
            };
            let end_log = match el {
                Some(x) => x.1,
                None => p.1,
            };
            let found = c.2 + t.2 + p.2 + match el {
                Some(x) => x.2,
                None => Seq::empty(),
            };
            match if_type(c.0, t.0, p.0, el_type) {
                Some(ty) => (ty, end_log, found),
                None => (TypeModel::Unknown, end_log, found.push(Finding::Branches(c.0, t.0, p.0, el_type))),
            }
        },
        ExprKind::TypeCheck { expr: inner, type_ref } => {
            let x = check_model(env, fs, log, *inner);
            match resolved(env, type_ref) {
                Ok(_) => (TypeModel::Boolean, x.1, x.2),
                Err(n) => (TypeModel::Unknown, x.1, x.2.push(Finding::UnknownName(n))),
            }
        },
        ExprKind::TypeCast { expr: inner, type_ref } => {
            let x = check_model(env, fs, log, *inner);
            match resolved(env, type_ref) {
                Ok(m) => (m, x.1, x.2),
                Err(n) => (TypeModel::Unknown, x.1, x.2.push(Finding::UnknownName(n))),
            }
        },
        _ => (TypeModel::Unknown, log, Seq::empty()),
    }
}

/// The types of `es` checked one after another.
pub open spec fn list_model(env: TypeEnvironment, fs: Seq<Seq<SymbolFacts>>, log: CallLog, es: Seq<Expr>) -> (
    Seq<TypeModel>,
    CallLog,
    Seq<Finding>,
)
    decreases es, 0nat,
{
    if es.len() == 0 {
        (Seq::empty(), log, Seq::empty())
    } else {
        let prev = list_model(env, fs, log, es.subrange(0, es.len() - 1));
        let last = check_model(env, fs, prev.1, es[es.len() - 1]);
        (prev.0.push(last.0), last.1, prev.2 + last.2)
    }
}

/// The types of the conditions and bodies of `elif` branches checked one
/// after another.
pub open spec fn pairs_model(env: TypeEnvironment, fs: Seq<Seq<SymbolFacts>>, log: CallLog, ps: Seq<(Expr, Expr)>) -> (
    Seq<(TypeModel, TypeModel)>,
    CallLog,
    Seq<Finding>,
)
    decreases ps, 0nat,
{
    if ps.len() == 0 {
        (Seq::empty(), log, Seq::empty())
    } else {
        let prev = pairs_model(env, fs, log, ps.subrange(0, ps.len() - 1));
        let c = check_model(env, fs, prev.1, ps[ps.len() - 1].0);
        let b = check_model(env, fs, c.1, ps[ps.len() - 1].1);
        (prev.0.push((c.0, b.0)), b.1, prev.2 + c.2 + b.2)
    }
}

/// Outside a function body there is no call log, and checking makes none.
pub proof fn lemma_log_none(env: TypeEnvironment, fs: Seq<Seq<SymbolFacts>>, e: Expr)
    ensures
        check_model(env, fs, None, e).1 is None,
    decreases e, 1nat,
{
    match e.kind {
        ExprKind::Call { callee, arguments } => {
            lemma_list_log_none(env, fs, arguments@);
            match callee.kind {
                ExprKind::Identifier(n) => {
                    let a = list_model(env, fs, None, arguments@);
                    let x = call_expectation(env, find_fact(fs, n@), n@, a.0, a.1);
                    assert(x.2 is None);
                    assert(check_model(env, fs, None, e).1 == x.2);
                },
                _ => {
                    assert(check_model(env, fs, None, e).1 is None);
                },
            }
        },
        ExprKind::Binary { left, operator, right } => {
            lemma_log_none(env, fs, *left);
            lemma_log_none(env, fs, *right);
            assert(check_model(env, fs, None, e).1 is None);
        },
        ExprKind::Block(es) => {
            lemma_list_log_none(env, fs, es@);
            assert(check_model(env, fs, None, e).1 is None);
        },
        ExprKind::Let { name, annotation, value, body } => {
            lemma_log_none(env, fs.push(Seq::empty()), *value);
            let v = check_model(env, fs.push(Seq::empty()), None, *value);
            let ann: Option<TypeModel> = match annotation {
                Some(a) => match resolved(env, a) {
                    Ok(m) => Some(m),
                    Err(_) => None,
                },
                None => None,
            };
            let t: TypeModel = match ann {
                Some(a) => if a != v.0 {
                    TypeModel::Unknown
                } else {
                    a
                },
                None => v.0,
            };
            let stored = stored_type(env, t);
            lemma_log_none(env, fs.push(seq![(0nat, name@, stored, Seq::empty(), stored)]), *body);
            assert(check_model(env, fs, None, e).1 is None);
        },
        ExprKind::If { condition, then_expr, elif_parts, else_expr } => {
            lemma_log_none(env, fs, *condition);
            lemma_log_none(env, fs, *then_expr);
            lemma_pairs_log_none(env, fs, elif_parts@);
            match else_expr {
                Some(x) => lemma_log_none(env, fs, *x),
                None => {},
            }
            assert(check_model(env, fs, None, e).1 is None);
        },
        ExprKind::TypeCheck { expr: inner, type_ref } => {
            lemma_log_none(env, fs, *inner);
        },
        ExprKind::TypeCast { expr: inner, type_ref } => {
            lemma_log_none(env, fs, *inner);
        },
        _ => {},
    }
}

proof fn lemma_list_log_none(env: TypeEnvironment, fs: Seq<Seq<SymbolFacts>>, es: Seq<Expr>)
    ensures
        list_model(env, fs, None, es).1 is None,
    decreases es, 0nat,
{
    if es.len() > 0 {
        lemma_list_log_none(env, fs, es.subrange(0, es.len() - 1));
        lemma_log_none(env, fs, es[es.len() - 1]);
    }
}

proof fn lemma_pairs_log_none(env: TypeEnvironment, fs: Seq<Seq<SymbolFacts>>, ps: Seq<(Expr, Expr)>)
    ensures
        pairs_model(env, fs, None, ps).1 is None,
    decreases ps, 0nat,
{
    if ps.len() > 0 {
        lemma_pairs_log_none(env, fs, ps.subrange(0, ps.len() - 1));
        lemma_log_none(env, fs, ps[ps.len() - 1].0);
        lemma_log_none(env, fs, ps[ps.len() - 1].1);
    }
}

} // verus!
