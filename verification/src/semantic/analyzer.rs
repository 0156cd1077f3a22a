use vstd::prelude::*;

use crate::errors::SemanticError;
use crate::parser::ast::{
    copy_function_declaration, copy_opt_type_reference, copy_parameters, copy_protocol_method_signature,
    copy_type_reference, Declaration, DeclarationKind, Expr, ExprKind, FunctionDeclaration, Literal, Parameter,
    Program, ProtocolMethodSignature, TypeMember, TypeReference, TypeReferenceKind,
};
use crate::semantic::declarations::{
    declare_findings, declared_in, extends_findings, first_pass_step, function_declared, parameter_entry,
    parameters_declared, return_findings, second_pass_step, third_pass_step, lemma_declare_on_top, pass_through,
    declarations_checked, inherits_findings, member_methods,
    member_properties, named_extends, protocol_info_of, protocol_registered, protocol_registration_fails,
    same_environment, type_info_of, type_registered,
};
use crate::semantic::expression_checker::{
    lemma_call_outcome, lemma_if_outcome, models, param_models, ExpressionChecker,
};
use crate::semantic::symbol_table::{index_of, lookup_in, SymbolInfo, SymbolTable, SymbolView};
use crate::semantic::typing::{
    annotation_model, annotation_reading, check_model, entry_from, facts, facts_of, first_call, invoke_from,
    labelled, lemma_entry_keys, lemma_entry_push, lemma_facts_push, lemma_find_fact, lemma_log_none,
    lemma_reported_join, lemma_reported_none, lemma_reported_push, list_model, log_call, pairs_model,
    parameter_facts, reading, reported, symbol_type, CallLog, Finding, SymbolFacts,
};
use crate::semantic::type_system::{
    builtin_environment, copy_type, type_registration_fails, first_unknown_in_params, first_unknown_in_signature, is_unknown_type_error, resolved, NormalizedType,
    ProtocolInfo,
    TypeEnvironment, TypeInfo, TypeModel,
};
use crate::span::Span;
use crate::text::{decimal, push_str, str_equal, string_from, strs, usize_to_string};

verus! {

/// What semantic analysis has gathered: the symbols in scope, the declared
/// types and protocols, and the errors found so far.
pub struct SemanticContext {
    pub symbols: SymbolTable,
    pub types: TypeEnvironment,
    pub expression_checker: ExpressionChecker,
    pub errors: Vec<SemanticError>,
}

/// `b` holds the errors of `a`, in order, followed by any new ones.
pub open spec fn errors_extend(a: Seq<SemanticError>, b: Seq<SemanticError>) -> bool {
    a.len() <= b.len() && forall|i: int| 0 <= i < a.len() ==> #[trigger] b[i] == a[i]
}

impl SemanticContext {
    pub open spec fn wf(&self) -> bool {
        self.symbols.wf() && self.types.wf()
    }

    /// An empty symbol table, the builtin types and protocols, and no errors.
    pub fn new() -> (c: SemanticContext)
        ensures
            c.wf(),
            c.symbols@ == seq![Seq::<SymbolView>::empty()],
            c.errors@ == Seq::<SemanticError>::empty(),
            builtin_environment(c.types),
    {
        SemanticContext {
            symbols: SymbolTable::new(),
            types: TypeEnvironment::new(),
            expression_checker: ExpressionChecker::new(),
            errors: Vec::new(),
        }
    }

    /// Records an error; analysis goes on.
    pub fn push_error(&mut self, error: SemanticError)
        ensures
            final(self).errors@ == old(self).errors@.push(error),
            final(self).symbols == old(self).symbols,
            final(self).types == old(self).types,
    {
        self.errors.push(error);
    }

    pub fn has_errors(&self) -> (r: bool)
        ensures
            r == (self.errors@.len() > 0),
    {
        self.errors.len() > 0
    }

    pub fn get_errors(&self) -> (r: &[SemanticError])
        ensures
            r@ == self.errors@,
    {
        self.errors.as_slice()
    }

    pub fn clear_errors(&mut self)
        ensures
            final(self).errors@ == Seq::<SemanticError>::empty(),
            final(self).symbols == old(self).symbols,
            final(self).types == old(self).types,
    {
        self.errors.clear();
    }
}

impl Default for SemanticContext {
    fn default() -> (c: SemanticContext)
        ensures
            c.wf(),
            c.symbols@ == seq![Seq::<SymbolView>::empty()],
            c.errors@ == Seq::<SemanticError>::empty(),
    {
        SemanticContext::new()
    }
}

/// The argument types of each logged call.
pub open spec fn calls_view(c: Seq<Vec<NormalizedType>>) -> Seq<Seq<TypeModel>> {
    c.map_values(|a: Vec<NormalizedType>| models(a@))
}

/// A call log as the model sees it.
pub open spec fn log_view(v: Seq<(String, Vec<Vec<NormalizedType>>)>) -> Seq<(Seq<char>, Seq<Seq<TypeModel>>)> {
    v.map_values(|e: (String, Vec<Vec<NormalizedType>>)| (e.0@, calls_view(e.1@)))
}

/// Some function of `decls` has an annotation that names nothing in `env`.
pub open spec fn bad_signature(env: TypeEnvironment, decls: Seq<Declaration>, j: int) -> bool {
    decls[j].kind matches DeclarationKind::Function(f) && first_unknown_in_signature(env, f) is Some
}

/// The name a declaration declares.
pub open spec fn declared_name(d: Declaration) -> Seq<char> {
    match d.kind {
        DeclarationKind::Function(f) => f.name@,
        DeclarationKind::Type(t) => t.name@,
        DeclarationKind::Protocol(p) => p.name@,
    }
}

/// Whether declaration `j` is a function whose return annotation names
/// nothing in `env`.
pub open spec fn bad_return(env: TypeEnvironment, ds: Seq<Declaration>, j: int) -> bool {
    ds[j].kind matches DeclarationKind::Function(f) && f.return_type matches Some(tr) && resolved(env, tr) is Err
}

/// Whether declaration `j` is a function with a parameter annotation that
/// names nothing in `env`.
pub open spec fn bad_params(env: TypeEnvironment, ds: Seq<Declaration>, j: int) -> bool {
    ds[j].kind matches DeclarationKind::Function(f) && first_unknown_in_params(env, f.parameters@) is Some
}

/// Whether some function among `ds` has an annotation that names nothing
/// in `env`.
pub open spec fn has_bad_annotation(env: TypeEnvironment, ds: Seq<Declaration>) -> bool {
    exists|j: int| 0 <= j < ds.len() && (bad_return(env, ds, j) || bad_params(env, ds, j))
}

/// Whether `e` is the error for the annotations of `ds` that name nothing:
/// the return annotations are checked first, for all functions in order,
/// then the parameter annotations, function by function; the first
/// failing annotation gives the error.
pub open spec fn annotation_failure(env: TypeEnvironment, ds: Seq<Declaration>, e: SemanticError) -> bool {
    if exists|j: int| 0 <= j < ds.len() && bad_return(env, ds, j) {
        exists|j: int|
            0 <= j < ds.len() && bad_return(env, ds, j) && (forall|j2: int| 0 <= j2 < j ==> !bad_return(env, ds, j2))
                && return_error(env, ds, j, e)
    } else {
        exists|j: int|
            0 <= j < ds.len() && bad_params(env, ds, j) && (forall|j2: int| 0 <= j2 < j ==> !bad_params(env, ds, j2))
                && params_error(env, ds, j, e)
    }
}

/// Whether `e` reports the name that the return annotation of declaration
/// `j` lacks.
pub open spec fn return_error(env: TypeEnvironment, ds: Seq<Declaration>, j: int, e: SemanticError) -> bool {
    &&& ds[j].kind matches DeclarationKind::Function(f)
    &&& f.return_type matches Some(tr)
    &&& resolved(env, tr) matches Err(n)
    &&& is_unknown_type_error(e, n)
}

/// Whether `e` reports the first name that the parameter annotations of
/// declaration `j` lack.
pub open spec fn params_error(env: TypeEnvironment, ds: Seq<Declaration>, j: int, e: SemanticError) -> bool {
    &&& ds[j].kind matches DeclarationKind::Function(f)
    &&& first_unknown_in_params(env, f.parameters@) matches Some(n)
    &&& is_unknown_type_error(e, n)
}

/// After a declaration in the innermost scope, the names found there stay,
/// and the declared name is found.
proof fn lemma_declared_in_last(before: Seq<Seq<SymbolView>>, after: Seq<Seq<SymbolView>>, entry: SymbolView)
    requires
        before.len() >= 1,
        index_of(before.last(), entry.1) >= 0 ==> after == before,
        index_of(before.last(), entry.1) < 0 ==> after == before.drop_last().push(before.last().push(entry)),
    ensures
        after.len() == before.len(),
        index_of(after.last(), entry.1) >= 0,
        forall|n: Seq<char>| index_of(before.last(), n) >= 0 ==> #[trigger] index_of(after.last(), n) >= 0,
        forall|k: int| 0 <= k < before.len() - 1 ==> #[trigger] after[k] == before[k],
{
    if index_of(before.last(), entry.1) < 0 {
        assert(before.last().push(entry).drop_last() =~= before.last());
        assert(after.last() == before.last().push(entry));
    }
}

/// The scopes `s0` are kept, unchanged, at the bottom of `s1`.
pub open spec fn scopes_kept(s0: Seq<Seq<SymbolView>>, s1: Seq<Seq<SymbolView>>) -> bool {
    s0.len() <= s1.len() && forall|k: int| 0 <= k < s0.len() ==> #[trigger] s1[k] == s0[k]
}

/// Checks a parsed program: declares its types, protocols and functions,
/// then checks the function bodies and the entry expression.
pub struct SemanticAnalyzer {
    context: SemanticContext,
    /// While a function body is checked: for each name called that is a
    /// variable or parameter, the argument types of each call seen, in order.
    current_inferred_signatures: Option<Vec<(String, Vec<Vec<NormalizedType>>)>>,
}

impl SemanticAnalyzer {
    pub closed spec fn ctx(&self) -> SemanticContext {
        self.context
    }

    /// The errors found so far.
    pub open spec fn errs(&self) -> Seq<SemanticError> {
        self.ctx().errors@
    }

    /// The calls logged while a function body is checked.
    pub closed spec fn calls(&self) -> CallLog {
        match self.current_inferred_signatures {
            Some(v) => Some(log_view(v@)),
            None => None,
        }
    }

    /// Between analyses: a well-formed context and no call log.
    pub open spec fn wf(&self) -> bool {
        self.ctx().wf() && self.calls() is None
    }

    /// What checking `e` in the present state gives: its type, the call log
    /// after it, and what goes wrong in it.
    pub open spec fn outcome(&self, e: Expr) -> (TypeModel, CallLog, Seq<Finding>) {
        check_model(self.ctx().types, facts_of(self.ctx().types, self.ctx().symbols@), self.calls(), e)
    }

    /// An analyzer whose global scope holds the builtin functions.
    pub fn new() -> (a: SemanticAnalyzer)
        ensures
            a.wf(),
            a.errs() == Seq::<SemanticError>::empty(),
            a.ctx().symbols@.len() == 1,
            crate::semantic::symbol_table::builtins_declared(a.ctx().symbols@[0]),
            builtin_environment(a.ctx().types),
            a.starts_fresh(),
    {
        let mut context = SemanticContext::new();
        context.symbols.declare_builtins();
        SemanticAnalyzer { context, current_inferred_signatures: None }
    }

    pub fn context(&self) -> (r: &SemanticContext)
        ensures
            *r == self.ctx(),
    {
        &self.context
    }

    pub fn context_mut(&mut self) -> (r: &mut SemanticContext)
        ensures
            *r == old(self).ctx(),
            final(self).ctx() == *final(r),
    {
        &mut self.context
    }

    /// An analyzer as `new` makes it: the builtin functions in its only
    /// scope, the builtin types and protocols, and no errors.
    pub open spec fn starts_fresh(&self) -> bool {
        &&& self.wf()
        &&& self.errs().len() == 0
        &&& self.ctx().symbols@.len() == 1
        &&& crate::semantic::symbol_table::builtins_declared(self.ctx().symbols@[0])
        &&& builtin_environment(self.ctx().types)
    }

    /// What analysing `program` does, from the analyzer `before` to the
    /// analyzer `after`, with result `r` (see `analyze`).
    pub open spec fn analysis(
        before: SemanticAnalyzer,
        program: Program,
        after: SemanticAnalyzer,
        r: Result<(), SemanticError>,
    ) -> bool {
        &&& after.wf()
        &&& errors_extend(before.errs(), after.errs())
        &&& (r is Ok <==> after.errs().len() == 0)
        &&& (has_bad_annotation(after.ctx().types, program.declarations@) ==> (r matches Err(e)
            && annotation_failure(after.ctx().types, program.declarations@, e)))
        &&& (program.declarations@.len() == 0 ==> reported(
            after.errs(),
            before.errs().len() as int,
            match program.entry_expression {
                Some(e) => before.outcome(e).2,
                None => Seq::empty(),
            },
        ))
        &&& (!has_bad_annotation(after.ctx().types, program.declarations@) ==> exists|m: SemanticAnalyzer|
            #![trigger declarations_checked(before, program.declarations@, m)]
            {
                &&& declarations_checked(before, program.declarations@, m)
                &&& m.wf()
                &&& after.ctx().types == m.ctx().types
                &&& reported(
                    after.errs(),
                    m.errs().len() as int,
                    match program.entry_expression {
                        Some(e) => m.outcome(e).2,
                        None => Seq::empty(),
                    },
                )
            })
    }

    /// Checks a whole program. It is accepted exactly when no error has been
    /// recorded, by this analysis or before it. A program without
    /// declarations records exactly what checking its entry expression finds
    /// (see `check_model`).
    pub fn analyze(&mut self, program: &Program) -> (r: Result<(), SemanticError>)
        requires
            old(self).wf(),
        ensures
            Self::analysis(*old(self), *program, *final(self), r),
    {
        match self.check_declarations(program) {
            Ok(()) => {},
            Err(e) => {
                return Err(e);
            },
        }
        let ghost m = *self;
        match self.check_entry_expression(program) {
            Ok(()) => {},
            Err(e) => {
                return Err(e);
            },
        }
        proof {
            assert(declarations_checked(*old(self), program.declarations@, m));
        }
        if self.context.errors.len() > 0 {
            return Err(self.context.errors[0].clone());
        }
        Ok(())
    }

    /// Records an error.
    pub fn report_error(&mut self, error: SemanticError)
        ensures
            final(self).errs() == old(self).errs().push(error),
            final(self).ctx().symbols == old(self).ctx().symbols,
            final(self).ctx().types == old(self).ctx().types,
            final(self).calls() == old(self).calls(),
    {
        self.context.push_error(error);
    }

    pub fn errors(&self) -> (r: &[SemanticError])
        ensures
            r@ == self.errs(),
    {
        self.context.get_errors()
    }

    pub fn has_errors(&self) -> (r: bool)
        ensures
            r == (self.errs().len() > 0),
    {
        self.context.has_errors()
    }

    /// The type an annotation names, or unknown when it names nothing.
    fn annotation_type(&self, annotation: &Option<TypeReference>) -> (t: NormalizedType)
        ensures
            t@ == annotation_model(self.ctx().types, *annotation),
    {
        match annotation {
            Some(ann) => match self.context.types.validate_type_reference(ann) {
                Ok(t) => t,
                Err(_) => NormalizedType::Unknown,
            },
            None => NormalizedType::Unknown,
        }
    }

    /// Each parameter's name with the type its annotation names (unknown when
    /// it has none or names nothing).
    fn parameter_types(&self, parameters: &Vec<Parameter>) -> (r: Vec<(String, NormalizedType)>)
        ensures
            param_models(r@) == parameter_facts(self.ctx().types, parameters@),
    {
        let ghost env = self.ctx().types;
        let mut r: Vec<(String, NormalizedType)> = Vec::new();
        let mut i: usize = 0;
        while i < parameters.len()
            invariant
                env == self.ctx().types,
                0 <= i <= parameters@.len(),
                r@.len() == i,
                forall|j: int|
                    0 <= j < i ==> #[trigger] r@[j].0@ == parameters@[j].name@ && r@[j].1@ == annotation_model(
                        env,
                        parameters@[j].annotation,
                    ),
            decreases parameters@.len() - i,
        {
            let t = self.annotation_type(&parameters[i].annotation);
            r.push((parameters[i].name.clone(), t));
            i = i + 1;
        }
        assert(param_models(r@) =~= parameter_facts(env, parameters@));
        r
    }

    /// The type a symbol gives to a name that resolves to it.
    fn symbol_type_of(&self, symbol: &SymbolInfo) -> (t: NormalizedType)
        ensures
            t@ == symbol_type(self.ctx().types, symbol@),
    {
        match symbol {
            SymbolInfo::Variable { type_ref, .. } => self.annotation_type(type_ref),
            SymbolInfo::Parameter { type_ref, .. } => self.annotation_type(type_ref),
            _ => NormalizedType::Unknown,
        }
    }

    /// Records the argument types of a call of `name` (a variable or a
    /// parameter) while a function body is checked, and gives the argument
    /// types of the first such call as the expected parameters, named
    /// `arg0`, `arg1`, ...
    fn record_call(&mut self, name: &String, arg_types: &Vec<NormalizedType>) -> (r: Option<
        Vec<(String, NormalizedType)>,
    >)
        ensures
            final(self).ctx() == old(self).ctx(),
            match old(self).calls() {
                Some(l) => {
                    let l2 = log_call(l, name@, models(arg_types@));
                    &&& final(self).calls() == Some(l2)
                    &&& r matches Some(ps) && param_models(ps@) == labelled(first_call(l2, name@))
                },
                None => final(self).calls() is None && r is None,
            },
    {
        let mut sigs: Option<Vec<(String, Vec<Vec<NormalizedType>>)>> = None;
        std::mem::swap(&mut sigs, &mut self.current_inferred_signatures);
        match sigs {
            None => None,
            Some(mut map) => {
                let ghost l = log_view(map@);
                let ghost args = models(arg_types@);
                let mut i: usize = 0;
                while i < map.len() && !str_equal(map[i].0.as_str(), name.as_str())
                    invariant
                        0 <= i <= map@.len(),
                        l == log_view(map@),
                        entry_from(l, name@, 0) == entry_from(l, name@, i as int),
                    decreases map@.len() - i,
                {
                    i = i + 1;
                }
                let ghost at = entry_from(l, name@, 0);
                let ghost m0 = map@;
                let copy = copy_types(arg_types);
                assert(models(copy@) =~= args);
                if i == map.len() {
                    map.push((name.clone(), Vec::new()));
                }
                let (key, mut calls) = map.remove(i);
                calls.push(copy);
                let mut params: Vec<(String, NormalizedType)> = Vec::new();
                let mut k: usize = 0;
                while k < calls[0].len()
                    invariant
                        0 <= k <= calls@[0]@.len(),
                        calls@.len() > 0,
                        params@.len() == k,
                        forall|j: int|
                            0 <= j < k ==> #[trigger] params@[j].0@ == "arg"@ + decimal(j as nat) && params@[j].1@
                                == calls@[0]@[j]@,
                    decreases calls@[0]@.len() - k,
                {
                    let mut label = string_from("arg");
                    let digits = usize_to_string(k);
                    push_str(&mut label, digits.as_str());
                    params.push((label, copy_type(&calls[0][k])));
                    k = k + 1;
                }
                let ghost entry = (key, calls);
                map.insert(i, (key, calls));
                proof {
                    let l2 = log_call(l, name@, args);
                    if i < m0.len() {
                        assert(at == i);
                        assert(map@ =~= m0.update(i as int, entry));
                        assert(calls_view(entry.1@) =~= calls_view(m0[i as int].1@).push(args));
                        assert(log_view(map@)[i as int] == l2[i as int]);
                        assert(log_view(map@) =~= l2);
                        lemma_entry_keys(l, l2, name@, 0);
                    } else {
                        assert(at == -1);
                        assert(map@ =~= m0.push(entry));
                        assert(calls_view(entry.1@) =~= seq![args]);
                        assert(log_view(map@)[i as int] == l2[i as int]);
                        assert(log_view(map@) =~= l2);
                        lemma_entry_push(l, name@, l2.last(), 0);
                        assert(l2 == l.push(l2.last()));
                    }
                    assert(entry_from(l2, name@, 0) == i);
                    assert(first_call(l2, name@) == models(calls@[0]@));
                    assert(param_models(params@) =~= labelled(first_call(l2, name@)));
                }
                self.current_inferred_signatures = Some(map);
                Some(params)
            },
        }
    }

    /// The first pass for one declaration: a type or a protocol is
    /// registered and declared; a function waits.
    fn register_declaration(&mut self, d: &Declaration)
        requires
            old(self).wf(),
        ensures
            final(self).wf(),
            errors_extend(old(self).errs(), final(self).errs()),
            first_pass_step(*d, *old(self), *final(self)),
            final(self).ctx().symbols@.len() == old(self).ctx().symbols@.len(),
            !(d.kind is Function) ==> index_of(final(self).ctx().symbols@.last(), declared_name(*d)) >= 0,
            forall|n: Seq<char>|
                index_of(old(self).ctx().symbols@.last(), n) >= 0 ==> #[trigger] index_of(
                    final(self).ctx().symbols@.last(),
                    n,
                ) >= 0,
            forall|k: int|
                0 <= k < old(self).ctx().symbols@.len() - 1 ==> #[trigger] final(self).ctx().symbols@[k]
                    == old(self).ctx().symbols@[k],
    {
        proof {
            self.context.symbols.lemma_has_global_scope();
            reveal(first_pass_step);
        }
        match &d.kind {
            DeclarationKind::Type(td) => {
                let ghost e0 = self.errs();
                proof {
                    lemma_reported_none(e0);
                }
                let parent = match &td.inherits {
                    Some(tr) => match &tr.kind {
                        TypeReferenceKind::Named(name) => Some(name.clone()),
                        _ => {
                            let e = SemanticError::UnsupportedFeature { feature: string_from("parametrized inherits") };
                            self.report_error(e);
                            proof {
                                lemma_reported_push(e0, e0.len() as int, Seq::empty(), Finding::Unsupported("parametrized inherits"@), e);
                                assert(Seq::<Finding>::empty().push(Finding::Unsupported("parametrized inherits"@)) =~= inherits_findings(*td));
                            }
                            None
                        },
                    },
                    None => None,
                };
                proof {
                    if inherits_findings(*td).len() == 0 {
                        assert(inherits_findings(*td) =~= Seq::<Finding>::empty());
                    }
                    assert(reported(self.errs(), e0.len() as int, inherits_findings(*td)));
                }
                let mut methods: Vec<FunctionDeclaration> = Vec::new();
                let mut properties: Vec<(String, TypeReference)> = Vec::new();
                let mut m: usize = 0;
                assert(td.members@.take(0) =~= Seq::<TypeMember>::empty());
                while m < td.members.len()
                    invariant
                        0 <= m <= td.members@.len(),
                        methods@.map_values(|f: FunctionDeclaration| (f.name@, f.parameters@, f.return_type))
                            == member_methods(td.members@.take(m as int)),
                        properties@.map_values(|p: (String, TypeReference)| (p.0@, p.1)) == member_properties(
                            td.members@.take(m as int),
                        ),
                    decreases td.members@.len() - m,
                {
                    assert(td.members@.take(m + 1).drop_last() =~= td.members@.take(m as int));
                    match &td.members[m] {
                        TypeMember::Method(f) => {
                            methods.push(copy_function_declaration(f));
                        },
                        TypeMember::Attribute(a) => {
                            match &a.annotation {
                                Some(ann) => {
                                    properties.push((a.name.clone(), copy_type_reference(ann)));
                                },
                                None => {},
                            }
                        },
                    }
                    assert(methods@.map_values(|f: FunctionDeclaration| (f.name@, f.parameters@, f.return_type))
                        =~= member_methods(td.members@.take(m + 1)));
                    assert(properties@.map_values(|p: (String, TypeReference)| (p.0@, p.1)) =~= member_properties(
                        td.members@.take(m + 1),
                    ));
                    m = m + 1;
                }
                assert(td.members@.take(m as int) =~= td.members@);
                let type_info = TypeInfo {
                    name: td.name.clone(),
                    parameters: copy_parameters(&td.parameters),
                    parent,
                    methods,
                    properties,
                    implemented_protocols: Vec::new(),
                    span: Span::default(),
                };
                let ghost info = type_info;
                let ghost ts = self.ctx().types.types();
                let ghost e1 = self.errs();
                proof {
                    assert(type_info_of(*td, info));
                }
                match self.context.types.register_type(type_info) {
                    Ok(()) => {},
                    Err(e) => {
                        self.report_error(e);
                        proof {
                            lemma_reported_push(e1, e0.len() as int, inherits_findings(*td), Finding::TypeRefused(ts, info), e);
                        }
                    },
                }
                let ghost regf: Seq<Finding> = if type_registration_fails(ts, info) {
                    seq![Finding::TypeRefused(ts, info)]
                } else {
                    Seq::empty()
                };
                proof {
                    if regf.len() == 0 {
                        assert(inherits_findings(*td) + regf =~= inherits_findings(*td));
                    } else {
                        assert(inherits_findings(*td).push(Finding::TypeRefused(ts, info)) =~= inherits_findings(*td) + regf);
                    }
                }
                let ghost e2 = self.errs();
                let sym = SymbolInfo::Type { name: td.name.clone(), span: Span::default() };
                let ghost before = self.ctx().symbols@;
                let ghost entry = sym@;
                match self.context.symbols.declare(sym) {
                    Ok(()) => {},
                    Err(e) => {
                        self.report_error(e);
                        proof {
                            lemma_reported_push(e2, e0.len() as int, inherits_findings(*td) + regf, Finding::Duplicate(entry, before.last()[index_of(before.last(), entry.1)]), e);
                        }
                    },
                }
                proof {
                    lemma_declared_in_last(before, self.ctx().symbols@, entry);
                    assert(entry.1 == declared_name(*d));
                    let df = declare_findings(before, entry);
                    if df.len() == 0 {
                        assert(inherits_findings(*td) + regf + df =~= inherits_findings(*td) + regf);
                    } else {
                        assert((inherits_findings(*td) + regf).push(df[0]) =~= inherits_findings(*td) + regf + df);
                    }
                    assert(self.ctx().symbols@ == declared_in(before, entry));
                    assert(type_registered(*td, *old(self), *self, info, entry));
                }
            },
            DeclarationKind::Protocol(pd) => {
                let ghost e0 = self.errs();
                proof {
                    lemma_reported_none(e0);
                }
                let mut extends: Vec<String> = Vec::new();
                let mut k: usize = 0;
                let ghost syms = self.ctx().symbols@;
                let ghost sx = *self;
                assert(pd.extends@.take(0) =~= Seq::<TypeReference>::empty());
                while k < pd.extends.len()
                    invariant
                        self.wf(),
                        errors_extend(old(self).errs(), self.errs()),
                        0 <= k <= pd.extends@.len(),
                        self.ctx().symbols@ == syms,
                        same_environment(sx, *self),
                        strs(extends@) == named_extends(pd.extends@.take(k as int)),
                        reported(self.errs(), e0.len() as int, extends_findings(pd.extends@.take(k as int))),
                        errors_extend(e0, self.errs()),
                    decreases pd.extends@.len() - k,
                {
                    let ghost e1 = self.errs();
                    assert(pd.extends@.take(k + 1).drop_last() =~= pd.extends@.take(k as int));
                    match &pd.extends[k].kind {
                        TypeReferenceKind::Named(name) => {
                            extends.push(name.clone());
                            assert(strs(extends@) =~= named_extends(pd.extends@.take(k + 1)));
                        },
                        _ => {
                            let e = SemanticError::UnsupportedFeature {
                                feature: string_from("parametrized protocol extends"),
                            };
                            self.report_error(e);
                            proof {
                                lemma_reported_push(e1, e0.len() as int, extends_findings(pd.extends@.take(k as int)), Finding::Unsupported("parametrized protocol extends"@), e);
                            }
                        },
                    }
                    k = k + 1;
                }
                assert(pd.extends@.take(k as int) =~= pd.extends@);
                let proto_info = ProtocolInfo {
                    name: pd.name.clone(),
                    members: copy_signatures(&pd.members),
                    extends,
                    span: Span::default(),
                };
                let ghost info = proto_info;
                let ghost ps = self.ctx().types.protos();
                let ghost e1 = self.errs();
                proof {
                    assert(info.members@.map_values(|m: ProtocolMethodSignature| (m.name@, m.parameters@, m.return_type))
                        =~= pd.members@.map_values(|m: ProtocolMethodSignature| (m.name@, m.parameters@, m.return_type)));
                    assert(protocol_info_of(*pd, info));
                }
                match self.context.types.register_protocol(proto_info) {
                    Ok(()) => {},
                    Err(e) => {
                        self.report_error(e);
                        proof {
                            lemma_reported_push(e1, e0.len() as int, extends_findings(pd.extends@), Finding::ProtocolRefused(ps, info), e);
                        }
                    },
                }
                let ghost regf: Seq<Finding> = if protocol_registration_fails(ps, info) {
                    seq![Finding::ProtocolRefused(ps, info)]
                } else {
                    Seq::empty()
                };
                proof {
                    if regf.len() == 0 {
                        assert(extends_findings(pd.extends@) + regf =~= extends_findings(pd.extends@));
                    } else {
                        assert(extends_findings(pd.extends@).push(Finding::ProtocolRefused(ps, info)) =~= extends_findings(pd.extends@) + regf);
                    }
                }
                let ghost e2 = self.errs();
                let sym = SymbolInfo::Protocol { name: pd.name.clone(), span: Span::default() };
                let ghost before = self.ctx().symbols@;
                let ghost entry = sym@;
                match self.context.symbols.declare(sym) {
                    Ok(()) => {},
                    Err(e) => {
                        self.report_error(e);
                        proof {
                            lemma_reported_push(e2, e0.len() as int, extends_findings(pd.extends@) + regf, Finding::Duplicate(entry, before.last()[index_of(before.last(), entry.1)]), e);
                        }
                    },
                }
                proof {
                    lemma_declared_in_last(before, self.ctx().symbols@, entry);
                    assert(entry.1 == declared_name(*d));
                    let df = declare_findings(before, entry);
                    if df.len() == 0 {
                        assert(extends_findings(pd.extends@) + regf + df =~= extends_findings(pd.extends@) + regf);
                    } else {
                        assert((extends_findings(pd.extends@) + regf).push(df[0]) =~= extends_findings(pd.extends@) + regf + df);
                    }
                    assert(self.ctx().symbols@ == declared_in(before, entry));
                    assert(protocol_registered(*pd, *old(self), *self, info, entry));
                }
            },
            _ => {},
        }
    }

    /// The second pass for one function: its signature is checked and it
    /// is declared; refused, before it is declared, when its return
    /// annotation names nothing.
    fn declare_function(&mut self, func: &FunctionDeclaration) -> (r: Result<(), SemanticError>)
        requires
            old(self).wf(),
        ensures
            final(self).wf(),
            errors_extend(old(self).errs(), final(self).errs()),
            final(self).ctx().types == old(self).ctx().types,
            match r {
                Ok(_) => {
                    &&& (exists|entry: SymbolView|
                        #![trigger function_declared(*func, *old(self), *final(self), entry)]
                        function_declared(*func, *old(self), *final(self), entry))
                    &&& !(func.return_type matches Some(tr) && resolved(old(self).ctx().types, tr) is Err)
                    &&& final(self).ctx().symbols@.len() == old(self).ctx().symbols@.len()
                    &&& index_of(final(self).ctx().symbols@.last(), func.name@) >= 0
                    &&& forall|n: Seq<char>|
                        index_of(old(self).ctx().symbols@.last(), n) >= 0 ==> #[trigger] index_of(
                            final(self).ctx().symbols@.last(),
                            n,
                        ) >= 0
                    &&& forall|k: int|
                        0 <= k < old(self).ctx().symbols@.len() - 1 ==> #[trigger] final(self).ctx().symbols@[k]
                            == old(self).ctx().symbols@[k]
                },
                Err(e) => func.return_type matches Some(tr) && resolved(old(self).ctx().types, tr) matches Err(n)
                    && is_unknown_type_error(e, n),
            },
            first_unknown_in_signature(old(self).ctx().types, *func) is Some ==> final(self).errs().len() > 0,
    {
        let ghost env = self.ctx().types;
        proof {
            self.context.symbols.lemma_has_global_scope();
        }
            let ghost e0 = self.errs();
            let ghost sigf: Seq<Finding> = match first_unknown_in_signature(env, *func) {
                Some(n) => seq![Finding::UnknownName(n)],
                None => Seq::empty(),
            };
            proof {
                lemma_reported_none(e0);
            }
            match self.context.types.validate_function_signature(func) {
                Ok(()) => {},
                Err(e) => {
                    self.report_error(e);
                    proof {
                        let n = first_unknown_in_signature(env, *func).unwrap();
                        lemma_reported_push(e0, e0.len() as int, Seq::empty(), Finding::UnknownName(n), e);
                        assert(Seq::<Finding>::empty().push(Finding::UnknownName(n)) =~= sigf);
                    }
                },
            }
            proof {
                if sigf.len() == 0 {
                    assert(sigf =~= Seq::<Finding>::empty());
                }
            }
            let ghost e1 = self.errs();
            match &func.return_type {
                Some(type_ref) => {
                    match self.context.types.validate_type_reference(type_ref) {
                        Ok(_) => {},
                        Err(e) => {
                            return Err(e);
                        },
                    }
                },
                None => {},
            }
            let sym = SymbolInfo::Function {
                name: func.name.clone(),
                parameters: copy_parameters(&func.parameters),
                return_type: copy_opt_type_reference(&func.return_type),
                span: Span::default(),
            };
            let ghost before = self.ctx().symbols@;
            let ghost entry = sym@;
            match self.context.symbols.declare(sym) {
                Ok(()) => {},
                Err(e) => {
                    self.report_error(e);
                    proof {
                        lemma_reported_push(e1, e0.len() as int, sigf, Finding::Duplicate(entry, before.last()[index_of(before.last(), entry.1)]), e);
                    }
                },
            }
            proof {
                lemma_declared_in_last(before, self.ctx().symbols@, entry);
                assert(entry.1 == func.name@);
                let df = declare_findings(before, entry);
                if df.len() == 0 {
                    assert(sigf + df =~= sigf);
                } else {
                    assert(sigf.push(df[0]) =~= sigf + df);
                }
                assert(self.ctx().symbols@ == declared_in(before, entry));
                assert(function_declared(*func, *old(self), *self, entry));
            }
        Ok(())
    }

    /// The third pass for one function: its parameters are declared in a
    /// scope of their own, and its body is checked there, with a fresh call
    /// log, against its return annotation. Refused, with the parameters'
    /// scope still open, when a parameter annotation names nothing.
    fn check_function_body(&mut self, func: &FunctionDeclaration) -> (r: Result<(), SemanticError>)
        requires
            old(self).wf(),
        ensures
            final(self).ctx().wf(),
            final(self).calls() is None,
            errors_extend(old(self).errs(), final(self).errs()),
            final(self).ctx().types == old(self).ctx().types,
            scopes_kept(old(self).ctx().symbols@, final(self).ctx().symbols@),
            match r {
                Ok(_) => {
                    let env = old(self).ctx().types;
                    let params = parameters_declared(Seq::empty(), func.parameters@);
                    let body = check_model(
                        env,
                        facts_of(env, old(self).ctx().symbols@.push(params.0)),
                        Some(Seq::empty()),
                        func.body,
                    );
                    &&& first_unknown_in_params(env, func.parameters@) is None
                    &&& final(self).ctx().symbols@ == old(self).ctx().symbols@
                    &&& reported(
                        final(self).errs(),
                        old(self).errs().len() as int,
                        params.1 + body.2 + return_findings(env, *func, body.0),
                    )
                },
                Err(e) => first_unknown_in_params(old(self).ctx().types, func.parameters@) matches Some(n)
                    && is_unknown_type_error(e, n),
            },
    {
        let ghost env = self.ctx().types;
        let ghost base_syms = self.ctx().symbols@;
        let ghost e0 = self.errs();
        proof {
            self.context.symbols.lemma_has_global_scope();
            lemma_reported_none(e0);
        }
        self.context.symbols.enter_scope();
        let ghost ps = func.parameters@;
        assert(ps.skip(0) =~= ps);
        assert(ps.take(0) =~= Seq::<Parameter>::empty());
        let mut k: usize = 0;
        while k < func.parameters.len()
            invariant
                self.ctx().wf(),
                self.calls() is None,
                errors_extend(e0, self.errs()),
                e0 == old(self).errs(),
                self.ctx().types == env,
                env == old(self).ctx().types,
                base_syms == old(self).ctx().symbols@,
                0 <= k <= func.parameters@.len(),
                ps == func.parameters@,
                first_unknown_in_params(env, ps) == first_unknown_in_params(env, ps.skip(k as int)),
                self.ctx().symbols@ == base_syms.push(parameters_declared(Seq::empty(), ps.take(k as int)).0),
                reported(self.errs(), e0.len() as int, parameters_declared(Seq::empty(), ps.take(k as int)).1),
            decreases func.parameters@.len() - k,
        {
            let p = &func.parameters[k];
            proof {
                assert(ps.skip(k as int)[0] == ps[k as int]);
                assert(ps.skip(k as int).drop_first() =~= ps.skip(k + 1));
                assert(ps.take(k + 1).drop_last() =~= ps.take(k as int));
                assert(ps.take(k + 1).last() == ps[k as int]);
            }
            match &p.annotation {
                Some(annotation) => {
                    match self.context.types.validate_type_reference(annotation) {
                        Ok(_) => {},
                        Err(e) => {
                            proof {
                                lemma_bad_parameter(env, func.parameters@, k as int);
                                assert(scopes_kept(base_syms, self.ctx().symbols@));
                            }
                            return Err(e);
                        },
                    }
                },
                None => {},
            }
            let param_sym = SymbolInfo::Parameter {
                name: p.name.clone(),
                type_ref: copy_opt_type_reference(&p.annotation),
                span: p.span.copy_exact(),
            };
            let ghost before = self.ctx().symbols@;
            let ghost entry = param_sym@;
            let ghost e1 = self.errs();
            let ghost prev = parameters_declared(Seq::empty(), ps.take(k as int));
            proof {
                assert(entry == parameter_entry(ps[k as int]));
                lemma_declare_on_top(base_syms, prev.0, entry);
            }
            match self.context.symbols.declare(param_sym) {
                Ok(()) => {},
                Err(e) => {
                    self.report_error(e);
                    proof {
                        lemma_reported_push(e1, e0.len() as int, prev.1, Finding::Duplicate(entry, before.last()[index_of(before.last(), entry.1)]), e);
                    }
                },
            }
            proof {
                let df = declare_findings(before, entry);
                if df.len() == 0 {
                    assert(prev.1 + df =~= prev.1);
                } else {
                    assert(prev.1.push(df[0]) =~= prev.1 + df);
                }
                assert(self.ctx().symbols@ == declared_in(before, entry));
            }
            k = k + 1;
        }
        proof {
            assert(ps.skip(k as int) =~= Seq::<Parameter>::empty());
            assert(ps.take(k as int) =~= ps);
        }
        let ghost params = parameters_declared(Seq::empty(), ps);
        let ghost e2 = self.errs();
        self.current_inferred_signatures = Some(Vec::new());
        proof {
            assert(log_view(Seq::<(String, Vec<Vec<NormalizedType>>)>::empty()) =~= Seq::<(Seq<char>, Seq<Seq<TypeModel>>)>::empty());
        }
        let body_t = match self.analyze_expr(&func.body) {
            Ok(t) => t,
            Err(e) => {
                self.report_error(e);
                NormalizedType::Unknown
            },
        };
        let ghost body = check_model(env, facts_of(env, base_syms.push(params.0)), Some(Seq::empty()), func.body);
        proof {
            lemma_reported_join(e2, self.errs(), e0.len() as int, params.1, body.2);
        }
        self.current_inferred_signatures = None;
        let ghost e3 = self.errs();
        let ghost rf = return_findings(env, *func, body.0);
        match &func.return_type {
            Some(ret_ann) => {
                match self.context.types.validate_type_reference(ret_ann) {
                    Ok(expected_t) => {
                        if !body_t.is_unknown() && !self.context.types.is_compatible(&body_t, &expected_t) {
                            let expected = expected_t.to_text();
                            let found = body_t.to_text();
                            let e = SemanticError::ReturnTypeMismatch { function: func.name.clone(), expected, found };
                            self.report_error(e);
                            proof {
                                lemma_reported_push(e3, e0.len() as int, params.1 + body.2, Finding::ReturnMismatch(func.name@, expected_t@, body_t@), e);
                                assert((params.1 + body.2).push(Finding::ReturnMismatch(func.name@, expected_t@, body_t@)) =~= params.1 + body.2 + rf);
                            }
                        } else {
                            assert(params.1 + body.2 + rf =~= params.1 + body.2);
                        }
                    },
                    Err(e) => {
                        self.report_error(e);
                        proof {
                            let n = resolved(env, *ret_ann)->Err_0;
                            lemma_reported_push(e3, e0.len() as int, params.1 + body.2, Finding::UnknownName(n), e);
                            assert((params.1 + body.2).push(Finding::UnknownName(n)) =~= params.1 + body.2 + rf);
                        }
                    },
                }
            },
            None => {
                assert(params.1 + body.2 + rf =~= params.1 + body.2);
            },
        }
        let ghost before_exit = self.ctx().symbols@;
        self.context.symbols.exit_scope();
        proof {
            assert(self.ctx().symbols@ == before_exit.drop_last());
            assert(self.ctx().symbols@ =~= base_syms);
        }
        Ok(())
    }

    /// Checks the declarations of a program, in three passes: the types and
    /// protocols are registered and declared; the function signatures are
    /// checked and the functions declared; each function body is checked in
    /// a scope holding its parameters, against its declared return type.
    ///
    /// Stops with an error only when an annotation of a function names
    /// nothing, which has then been recorded already.
    #[verifier::rlimit(100)]
    #[verifier::spinoff_prover]
    fn check_declarations(&mut self, program: &Program) -> (r: Result<(), SemanticError>)
        requires
            old(self).wf(),
        ensures
            final(self).wf(),
            errors_extend(old(self).errs(), final(self).errs()),
            r is Err ==> final(self).errs().len() > 0,
            r is Err <==> has_bad_annotation(final(self).ctx().types, program.declarations@),
            r matches Err(e) ==> annotation_failure(final(self).ctx().types, program.declarations@, e),
            r is Ok ==> forall|j: int|
                0 <= j < program.declarations@.len() ==> index_of(
                    final(self).ctx().symbols@[old(self).ctx().symbols@.len() - 1],
                    declared_name(#[trigger] program.declarations@[j]),
                ) >= 0,
            program.declarations@.len() == 0 ==> r is Ok && final(self).ctx() == old(self).ctx(),
            r is Ok ==> declarations_checked(*old(self), program.declarations@, *final(self)),
    {
        let decls = &program.declarations;
        let ghost base = self.ctx().symbols@.len() - 1;
        proof {
            self.context.symbols.lemma_has_global_scope();
        }
        let mut i: usize = 0;
        let ghost mut st1: Seq<SemanticAnalyzer> = seq![*self];
        while i < decls.len()
            invariant
                self.wf(),
                errors_extend(old(self).errs(), self.errs()),
                0 <= i <= decls@.len(),
                st1.len() == i + 1,
                st1[0] == *old(self),
                st1.last() == *self,
                forall|k: int| 0 <= k < i ==> first_pass_step(decls@[k], #[trigger] st1[k], st1[k + 1]),
                decls@ == program.declarations@,
                base == old(self).ctx().symbols@.len() - 1,
                base >= 0,
                self.ctx().symbols@.len() == base + 1,
                forall|j: int|
                    0 <= j < i && !(decls@[j].kind is Function) ==> index_of(
                        self.ctx().symbols@[base],
                        declared_name(#[trigger] decls@[j]),
                    ) >= 0,
                decls@.len() == 0 ==> self.ctx() == old(self).ctx() && self.calls() == old(self).calls(),
            decreases decls@.len() - i,
        {
            let ghost pre = self.ctx().symbols@;
            self.register_declaration(&decls[i]);
            proof {
                assert(pre[base] == pre.last());
                assert(self.ctx().symbols@[base] == self.ctx().symbols@.last());
                assert forall|j: int| 0 <= j < i + 1 && !(decls@[j].kind is Function) implies index_of(
                    self.ctx().symbols@[base],
                    declared_name(#[trigger] decls@[j]),
                ) >= 0 by {
                    if j < i {
                        assert(index_of(pre.last(), declared_name(decls@[j])) >= 0);
                    }
                }
                assert(first_pass_step(decls@[i as int], st1.last(), *self));
                st1 = st1.push(*self);
            }
            i = i + 1;
        }

        let ghost env = self.context.types;
        let ghost mid1 = *self;
        let mut i: usize = 0;
        let ghost mut st2: Seq<SemanticAnalyzer> = seq![*self];
        while i < decls.len()
            invariant
                self.wf(),
                errors_extend(old(self).errs(), self.errs()),
                self.ctx().types == env,
                0 <= i <= decls@.len(),
                st1.len() == decls@.len() + 1,
                st1[0] == *old(self),
                st1.last() == mid1,
                forall|k: int| 0 <= k < decls@.len() ==> first_pass_step(decls@[k], #[trigger] st1[k], st1[k + 1]),
                st2.len() == i + 1,
                st2[0] == mid1,
                st2.last() == *self,
                forall|k: int| 0 <= k < i ==> second_pass_step(decls@[k], #[trigger] st2[k], st2[k + 1]),
                forall|j: int| 0 <= j < i && bad_signature(env, decls@, j) ==> self.errs().len() > 0,
                base == old(self).ctx().symbols@.len() - 1,
                base >= 0,
                self.ctx().symbols@.len() == base + 1,
                forall|j: int|
                    0 <= j < decls@.len() && !(decls@[j].kind is Function) ==> index_of(
                        self.ctx().symbols@[base],
                        declared_name(#[trigger] decls@[j]),
                    ) >= 0,
                forall|j: int|
                    0 <= j < i && decls@[j].kind is Function ==> index_of(
                        self.ctx().symbols@[base],
                        declared_name(#[trigger] decls@[j]),
                    ) >= 0,
                forall|j: int| 0 <= j < i ==> !#[trigger] bad_return(env, decls@, j),
                decls@ == program.declarations@,
                decls@.len() == 0 ==> self.ctx() == old(self).ctx() && self.calls() == old(self).calls(),
            decreases decls@.len() - i,
        {
            match &decls[i].kind {
                DeclarationKind::Function(func) => {
                    assert(decls@[i as int].kind == DeclarationKind::Function(*func));
                    match self.declare_function(func) {
                        Ok(()) => {},
                        Err(e) => {
                            proof {
                                let ds = program.declarations@;
                                assert(ds == decls@);
                                assert(bad_return(self.ctx().types, ds, i as int));
                                assert(return_error(self.ctx().types, ds, i as int, e));
                                assert(forall|j2: int| 0 <= j2 < i ==> !bad_return(self.ctx().types, ds, j2));
                            }
                            return Err(e);
                        },
                    }
                },
                _ => {},
            }
            proof {
                reveal(second_pass_step);
                assert(second_pass_step(decls@[i as int], st2.last(), *self));
                st2 = st2.push(*self);
            }
            i = i + 1;
        }

        let ghost s2 = self.ctx().symbols@;
        let ghost mid2 = *self;
        proof {
            reveal(pass_through);
            assert(pass_through(1, decls@, st1));
            assert(pass_through(2, decls@, st2));
        }
        let ghost mut st3: Seq<SemanticAnalyzer> = seq![*self];
        let mut i: usize = 0;
        while i < decls.len()
            invariant
                self.wf(),
                errors_extend(old(self).errs(), self.errs()),
                self.ctx().types == env,
                0 <= i <= decls@.len(),
                forall|j: int| 0 <= j < decls@.len() && bad_signature(env, decls@, j) ==> self.errs().len() > 0,
                base >= 0,
                s2.len() == base + 1,
                self.ctx().symbols@ == s2,
                forall|j: int|
                    0 <= j < decls@.len() ==> index_of(s2[base], declared_name(#[trigger] decls@[j])) >= 0,
                forall|j: int| 0 <= j < decls@.len() ==> !#[trigger] bad_return(env, decls@, j),
                forall|j: int| 0 <= j < i ==> !#[trigger] bad_params(env, decls@, j),
                decls@ == program.declarations@,
                decls@.len() == 0 ==> self.ctx() == old(self).ctx() && self.calls() == old(self).calls(),
                pass_through(1, decls@, st1),
                st1[0] == *old(self),
                pass_through(2, decls@, st2),
                st2[0] == st1.last(),
                st2.last() == mid2,
                st3.len() == i + 1,
                st3[0] == mid2,
                st3.last() == *self,
                forall|k: int| 0 <= k < i ==> third_pass_step(decls@[k], #[trigger] st3[k], st3[k + 1]),
            decreases decls@.len() - i,
        {
            match &decls[i].kind {
                DeclarationKind::Function(func) => {
                    assert(decls@[i as int].kind == DeclarationKind::Function(*func));
                    match self.check_function_body(func) {
                        Ok(()) => {},
                        Err(e) => {
                            proof {
                                let ds = program.declarations@;
                                assert(ds == decls@);
                                assert(bad_signature(env, decls@, i as int));
                                assert(bad_params(self.ctx().types, ds, i as int));
                                assert(params_error(self.ctx().types, ds, i as int, e));
                                assert(forall|j2: int| 0 <= j2 < i ==> !bad_params(self.ctx().types, ds, j2));
                                assert(forall|j2: int| 0 <= j2 < ds.len() ==> !bad_return(self.ctx().types, ds, j2));
                            }
                            return Err(e);
                        },
                    }
                },
                _ => {},
            }
            proof {
                reveal(third_pass_step);
                assert(third_pass_step(decls@[i as int], st3.last(), *self));
                st3 = st3.push(*self);
            }
            i = i + 1;
        }
        proof {
            reveal(pass_through);
            assert(pass_through(3, decls@, st3));
            assert(declarations_checked(*old(self), decls@, *self));
            assert forall|j: int| 0 <= j < decls@.len() implies index_of(
                self.ctx().symbols@[base],
                declared_name(#[trigger] decls@[j]),
            ) >= 0 by {
                assert(self.ctx().symbols@[base] == s2[base]);
            }
            assert(!exists|j: int| 0 <= j < decls@.len() && (bad_return(env, decls@, j) || bad_params(env, decls@, j)));
        }
        Ok(())
    }

    /// The types of `es`, in order; stops at the first error handed out.
    fn analyze_list(&mut self, es: &Vec<Expr>) -> (r: Result<Vec<NormalizedType>, SemanticError>)
        requires
            old(self).ctx().wf(),
        ensures
            final(self).ctx().wf(),
            final(self).ctx().types == old(self).ctx().types,
            errors_extend(old(self).errs(), final(self).errs()),
            final(self).ctx().symbols@ == old(self).ctx().symbols@,
            ({
                let m = list_model(
                    old(self).ctx().types,
                    facts_of(old(self).ctx().types, old(self).ctx().symbols@),
                    old(self).calls(),
                    es@,
                );
                &&& r matches Ok(ts) && models(ts@) == m.0
                &&& final(self).calls() == m.1
                &&& reported(final(self).errs(), old(self).errs().len() as int, m.2)
            }),
        decreases es, 0nat,
    {
        let ghost env = self.ctx().types;
        let ghost fs = facts_of(env, self.ctx().symbols@);
        let ghost log0 = self.calls();
        let ghost e0 = self.errs();
        let mut types: Vec<NormalizedType> = Vec::new();
        let mut k: usize = 0;
        proof {
            assert(es@.subrange(0, 0) =~= Seq::<Expr>::empty());
            lemma_reported_none(e0);
            assert(models(types@) =~= Seq::<TypeModel>::empty());
        }
        while k < es.len()
            invariant
                self.ctx().wf(),
                self.ctx().types == env,
                self.ctx().symbols@ == old(self).ctx().symbols@,
                fs == facts_of(env, self.ctx().symbols@),
                errors_extend(e0, self.errs()),
                e0 == old(self).errs(),
                0 <= k <= es@.len(),
                types@.len() == k,
                ({
                    let m = list_model(env, fs, log0, es@.subrange(0, k as int));
                    &&& models(types@) == m.0
                    &&& self.calls() == m.1
                    &&& reported(self.errs(), e0.len() as int, m.2)
                }),
            decreases es@.len() - k,
        {
            let ghost e1 = self.errs();
            let ghost prev = list_model(env, fs, log0, es@.subrange(0, k as int));
            let t = self.analyze_expr(&es[k])?;
            proof {
                let sub = es@.subrange(0, k + 1);
                assert(sub.subrange(0, k as int) =~= es@.subrange(0, k as int));
                assert(sub[k as int] == es@[k as int]);
                let last = check_model(env, fs, prev.1, es@[k as int]);
                lemma_reported_join(e1, self.errs(), e0.len() as int, prev.2, last.2);
            }
            types.push(t);
            proof {
                assert(models(types@) =~= list_model(env, fs, log0, es@.subrange(0, k + 1)).0);
            }
            k = k + 1;
        }
        proof {
            assert(es@.subrange(0, es@.len() as int) =~= es@);
        }
        Ok(types)
    }

    /// The types of the conditions and bodies of `elif` branches, in order;
    /// stops at the first error handed out.
    fn analyze_pairs(&mut self, ps: &Vec<(Expr, Expr)>) -> (r: Result<Vec<(NormalizedType, NormalizedType)>, SemanticError>)
        requires
            old(self).ctx().wf(),
        ensures
            final(self).ctx().wf(),
            final(self).ctx().types == old(self).ctx().types,
            errors_extend(old(self).errs(), final(self).errs()),
            final(self).ctx().symbols@ == old(self).ctx().symbols@,
            ({
                let m = pairs_model(
                    old(self).ctx().types,
                    facts_of(old(self).ctx().types, old(self).ctx().symbols@),
                    old(self).calls(),
                    ps@,
                );
                &&& r matches Ok(ts) && ts@.map_values(|b: (NormalizedType, NormalizedType)| (b.0@, b.1@)) == m.0
                &&& final(self).calls() == m.1
                &&& reported(final(self).errs(), old(self).errs().len() as int, m.2)
            }),
        decreases ps, 0nat,
    {
        let ghost env = self.ctx().types;
        let ghost fs = facts_of(env, self.ctx().symbols@);
        let ghost log0 = self.calls();
        let ghost e0 = self.errs();
        let mut types: Vec<(NormalizedType, NormalizedType)> = Vec::new();
        let mut k: usize = 0;
        proof {
            assert(ps@.subrange(0, 0) =~= Seq::<(Expr, Expr)>::empty());
            lemma_reported_none(e0);
            assert(types@.map_values(|b: (NormalizedType, NormalizedType)| (b.0@, b.1@)) =~= Seq::<
                (TypeModel, TypeModel),
            >::empty());
        }
        while k < ps.len()
            invariant
                self.ctx().wf(),
                self.ctx().types == env,
                self.ctx().symbols@ == old(self).ctx().symbols@,
                fs == facts_of(env, self.ctx().symbols@),
                errors_extend(e0, self.errs()),
                e0 == old(self).errs(),
                0 <= k <= ps@.len(),
                types@.len() == k,
                ({
                    let m = pairs_model(env, fs, log0, ps@.subrange(0, k as int));
                    &&& types@.map_values(|b: (NormalizedType, NormalizedType)| (b.0@, b.1@)) == m.0
                    &&& self.calls() == m.1
                    &&& reported(self.errs(), e0.len() as int, m.2)
                }),
            decreases ps@.len() - k,
        {
            let ghost e1 = self.errs();
            let ghost prev = pairs_model(env, fs, log0, ps@.subrange(0, k as int));
            let c = self.analyze_expr(&ps[k].0)?;
            let ghost e2 = self.errs();
            let ghost cm = check_model(env, fs, prev.1, ps@[k as int].0);
            proof {
                lemma_reported_join(e1, e2, e0.len() as int, prev.2, cm.2);
            }
            let b = self.analyze_expr(&ps[k].1)?;
            proof {
                let bm = check_model(env, fs, cm.1, ps@[k as int].1);
                lemma_reported_join(e2, self.errs(), e0.len() as int, prev.2 + cm.2, bm.2);
                let sub = ps@.subrange(0, k + 1);
                assert(sub.subrange(0, k as int) =~= ps@.subrange(0, k as int));
                assert(sub[k as int] == ps@[k as int]);
            }
            types.push((c, b));
            proof {
                assert(types@.map_values(|b: (NormalizedType, NormalizedType)| (b.0@, b.1@)) =~= pairs_model(
                    env,
                    fs,
                    log0,
                    ps@.subrange(0, k + 1),
                ).0);
            }
            k = k + 1;
        }
        proof {
            assert(ps@.subrange(0, ps@.len() as int) =~= ps@);
        }
        Ok(types)
    }

    /// Checks the entry expression, if any, recording what goes wrong.
    fn check_entry_expression(&mut self, program: &Program) -> (r: Result<(), SemanticError>)
        requires
            old(self).wf(),
        ensures
            final(self).wf(),
            final(self).ctx().types == old(self).ctx().types,
            final(self).ctx().symbols@ == old(self).ctx().symbols@,
            errors_extend(old(self).errs(), final(self).errs()),
            r is Ok,
            reported(final(self).errs(), old(self).errs().len() as int, match program.entry_expression {
                Some(e) => old(self).outcome(e).2,
                None => Seq::empty(),
            }),
    {
        proof {
            lemma_reported_none(self.errs());
        }
        match &program.entry_expression {
            Some(expr) => {
                proof {
                    lemma_log_none(self.ctx().types, facts_of(self.ctx().types, self.ctx().symbols@), *expr);
                }
                match self.analyze_expr(expr) {
                    Ok(_) => {},
                    Err(e) => self.report_error(e),
                }
            },
            None => {},
        }
        Ok(())
    }

    /// The type of an expression (see `check_model`). Errors in it are
    /// recorded and its type is then unknown.
    fn analyze_expr(&mut self, expr: &Expr) -> (r: Result<NormalizedType, SemanticError>)
        requires
            old(self).ctx().wf(),
        ensures
            final(self).ctx().wf(),
            final(self).ctx().types == old(self).ctx().types,
            final(self).ctx().symbols@ == old(self).ctx().symbols@,
            errors_extend(old(self).errs(), final(self).errs()),
            r matches Ok(t) && t@ == old(self).outcome(*expr).0,
            final(self).calls() == old(self).outcome(*expr).1,
            reported(final(self).errs(), old(self).errs().len() as int, old(self).outcome(*expr).2),
        decreases expr, 1nat,
    {
        let ghost env = self.ctx().types;
        let ghost syms = self.ctx().symbols@;
        let ghost fs = facts_of(env, syms);
        let ghost log0 = self.calls();
        let ghost e0 = self.errs();
        proof {
            lemma_reported_none(e0);
        }
        match &expr.kind {
            ExprKind::Literal(_) => {
                let et = self.context.expression_checker.check_literal(expr)?;
                Ok(et.type_)
            },
            ExprKind::Identifier(name) => {
                proof {
                    lemma_find_fact(env, syms, name@);
                }
                match self.context.symbols.lookup(name.as_str()) {
                    Some(symbol) => Ok(self.symbol_type_of(&symbol)),
                    None => {
                        let e = SemanticError::UndeclaredVariable { name: name.clone() };
                        self.report_error(e);
                        proof {
                            lemma_reported_push(e0, e0.len() as int, Seq::empty(), Finding::Undeclared(name@), e);
                            assert(Seq::<Finding>::empty().push(Finding::Undeclared(name@)) =~= seq![
                                Finding::Undeclared(name@),
                            ]);
                        }
                        Ok(NormalizedType::Unknown)
                    },
                }
            },
            ExprKind::Call { callee, arguments } => {
                match &callee.kind {
                    ExprKind::Identifier(name) => {
                        let arg_types = self.analyze_list(arguments)?;
                        let ghost a = list_model(env, fs, log0, arguments@);
                        let ghost e1 = self.errs();
                        proof {
                            lemma_find_fact(env, syms, name@);
                        }
                        let mut expected_params: Option<Vec<(String, NormalizedType)>> = None;
                        let mut expected_return: Option<NormalizedType> = None;
                        match self.context.symbols.lookup(name.as_str()) {
                            Some(SymbolInfo::Function { parameters, return_type, .. }) => {
                                expected_params = Some(self.parameter_types(&parameters));
                                expected_return = Some(self.annotation_type(&return_type));
                            },
                            Some(symbol) => {
                                if symbol.kind() <= 1 {
                                    let type_ref = self.symbol_type_of(&symbol);
                                    match &type_ref {
                                        NormalizedType::Named(named) => {
                                            match self.context.types.get_protocol(named.as_str()) {
                                                Some(proto) => {
                                                    match find_invoke(&proto.members) {
                                                        Some(m) => {
                                                            let sig = &proto.members[m];
                                                            expected_params = Some(self.parameter_types(&sig.parameters));
                                                            let ret = match self.context.types.validate_type_reference(
                                                                &sig.return_type,
                                                            ) {
                                                                Ok(t) => t,
                                                                Err(_) => NormalizedType::Unknown,
                                                            };
                                                            expected_return = Some(ret);
                                                        },
                                                        None => {},
                                                    }
                                                },
                                                None => {},
                                            }
                                        },
                                        _ => {},
                                    }
                                    match self.record_call(name, &arg_types) {
                                        Some(params) => {
                                            expected_params = Some(params);
                                        },
                                        None => {},
                                    }
                                }
                            },
                            None => {},
                        }
                        let ghost x = crate::semantic::typing::call_expectation(
                            env,
                            crate::semantic::typing::find_fact(fs, name@),
                            name@,
                            a.0,
                            a.1,
                        );
                        assert(self.calls() == x.2);
                        assert(match expected_params {
                            Some(ps) => Some(param_models(ps@)),
                            None => None,
                        } == x.0);
                        assert(match expected_return {
                            Some(t) => Some(t@),
                            None => None,
                        } == x.1);
                        let params_slice: Option<&[(String, NormalizedType)]> = match &expected_params {
                            Some(v) => Some(v.as_slice()),
                            None => None,
                        };
                        let outcome = self.context.expression_checker.check_function_call(
                            name.as_str(),
                            arg_types.as_slice(),
                            params_slice,
                            expected_return.as_ref(),
                            &expr.span,
                        );
                        proof {
                            lemma_call_outcome(name@, a.0, x.0, x.1, outcome);
                        }
                        match outcome {
                            Ok(res) => Ok(res.type_),
                            Err(e) => {
                                self.report_error(e);
                                proof {
                                    lemma_reported_push(e1, e0.len() as int, a.2, Finding::Call(name@, a.0, x.0, x.1), e);
                                }
                                Ok(NormalizedType::Unknown)
                            },
                        }
                    },
                    _ => {
                        let e = SemanticError::UnsupportedFeature { feature: string_from("complex function calls") };
                        self.report_error(e);
                        proof {
                            lemma_reported_push(e0, e0.len() as int, Seq::empty(), Finding::ComplexCall, e);
                            assert(Seq::<Finding>::empty().push(Finding::ComplexCall) =~= seq![Finding::ComplexCall]);
                        }
                        Ok(NormalizedType::Unknown)
                    },
                }
            },
            ExprKind::Binary { left, operator, right } => {
                let left_type = self.analyze_expr(left)?;
                let ghost l = check_model(env, fs, log0, **left);
                let ghost e1 = self.errs();
                let right_type = self.analyze_expr(right)?;
                let ghost rm = check_model(env, fs, l.1, **right);
                let ghost e2 = self.errs();
                proof {
                    lemma_reported_join(e1, e2, e0.len() as int, l.2, rm.2);
                }
                match self.context.expression_checker.check_binary_op(&left_type, operator, &right_type, &expr.span) {
                    Ok(res) => Ok(res.type_),
                    Err(e) => {
                        self.report_error(e);
                        proof {
                            lemma_reported_push(e2, e0.len() as int, l.2 + rm.2, Finding::Binary(*operator, l.0, rm.0), e);
                        }
                        Ok(NormalizedType::Unknown)
                    },
                }
            },
            ExprKind::Block(exprs) => {
                let types = self.analyze_list(exprs)?;
                let et = self.context.expression_checker.check_block(types.as_slice())?;
                proof {
                    if types@.len() > 0 {
                        assert(models(types@).last() == types@.last()@);
                    }
                }
                Ok(et.type_)
            },
            ExprKind::Let { name, annotation, value, body } => {
                proof {
                    self.context.symbols.lemma_has_global_scope();
                    lemma_facts_push(env, syms, Seq::empty());
                    assert(Seq::<SymbolView>::empty().map_values(|s: SymbolView| facts(env, s)) =~= Seq::<
                        SymbolFacts,
                    >::empty());
                }
                self.context.symbols.enter_scope();
                let value_type = self.analyze_expr(value)?;
                let ghost v = check_model(env, fs.push(Seq::empty()), log0, **value);
                let ghost e1 = self.errs();
                let ghost ann: Option<TypeModel> = match annotation {
                    Some(a) => match resolved(env, *a) {
                        Ok(m) => Some(m),
                        Err(_) => None,
                    },
                    None => None,
                };
                let ghost f_ann: Seq<Finding> = match annotation {
                    Some(a) => match resolved(env, *a) {
                        Ok(_) => Seq::empty(),
                        Err(n) => seq![Finding::UnknownName(n)],
                    },
                    None => Seq::empty(),
                };
                let annotation_type = match annotation {
                    Some(annotation) => match self.context.types.validate_type_reference(annotation) {
                        Ok(t) => Some(t),
                        Err(e) => {
                            self.report_error(e);
                            proof {
                                let n = resolved(env, *annotation)->Err_0;
                                lemma_reported_push(e1, e0.len() as int, v.2, Finding::UnknownName(n), e);
                                assert(v.2.push(Finding::UnknownName(n)) =~= v.2 + f_ann);
                            }
                            None
                        },
                    },
                    None => None,
                };
                proof {
                    if f_ann.len() == 0 {
                        assert(v.2 + f_ann =~= v.2);
                    }
                    assert(reported(self.errs(), e0.len() as int, v.2 + f_ann));
                    assert(match annotation_type {
                        Some(t) => Some(t@),
                        None => None,
                    } == ann);
                }
                let ghost e2 = self.errs();
                let ghost f_let: Seq<Finding> = match ann {
                    Some(a) => if a != v.0 {
                        seq![Finding::LetMismatch(a, v.0)]
                    } else {
                        Seq::empty()
                    },
                    None => Seq::empty(),
                };
                let final_type = match self.context.expression_checker.check_let_expression(
                    annotation_type.as_ref(),
                    Some(&value_type),
                    &expr.span,
                ) {
                    Ok(res) => res.type_,
                    Err(e) => {
                        self.report_error(e);
                        proof {
                            let a = ann.unwrap();
                            lemma_reported_push(e2, e0.len() as int, v.2 + f_ann, Finding::LetMismatch(a, v.0), e);
                            assert((v.2 + f_ann).push(Finding::LetMismatch(a, v.0)) =~= v.2 + f_ann + f_let);
                        }
                        NormalizedType::Unknown
                    },
                };
                proof {
                    if f_let.len() == 0 {
                        assert(v.2 + f_ann + f_let =~= v.2 + f_ann);
                    }
                    assert(reported(self.errs(), e0.len() as int, v.2 + f_ann + f_let));
                }
                let ghost e3 = self.errs();
                let type_ref = type_reference_of(&final_type, &expr.span);
                let symbol = SymbolInfo::Variable { name: name.clone(), type_ref, span: expr.span.clone() };
                let ghost entry = symbol@;
                let ghost stored = crate::semantic::typing::stored_type(env, final_type@);
                proof {
                    assert(reading(env, final_type@) == annotation_reading(env, type_ref));
                    assert(parameter_facts(env, Seq::<Parameter>::empty()) =~= Seq::<(Seq<char>, TypeModel)>::empty());
                    assert(facts(env, entry) == (0nat, name@, stored, Seq::<(Seq<char>, TypeModel)>::empty(), stored));
                }
                match self.context.symbols.declare(symbol) {
                    Ok(()) => {},
                    Err(e) => self.report_error(e),
                }
                let ghost declared = self.context.symbols@;
                proof {
                    assert(declared =~= syms.push(seq![entry]));
                    lemma_facts_push(env, syms, seq![entry]);
                    assert(seq![entry].map_values(|s: SymbolView| facts(env, s)) =~= seq![facts(env, entry)]);
                }
                assert(declared.drop_last() =~= old(self).ctx().symbols@);
                let body_type = self.analyze_expr(body);
                proof {
                    let bm = check_model(env, fs.push(seq![facts(env, entry)]), v.1, **body);
                    lemma_reported_join(e3, self.errs(), e0.len() as int, v.2 + f_ann + f_let, bm.2);
                }
                self.context.symbols.exit_scope();
                body_type
            },
            ExprKind::If { condition, then_expr, elif_parts, else_expr } => {
                let cond_t = self.analyze_expr(condition)?;
                let ghost c = check_model(env, fs, log0, **condition);
                let ghost e1 = self.errs();
                let then_t = self.analyze_expr(then_expr)?;
                let ghost t = check_model(env, fs, c.1, **then_expr);
                let ghost e2 = self.errs();
                proof {
                    lemma_reported_join(e1, e2, e0.len() as int, c.2, t.2);
                }
                let elif_types = self.analyze_pairs(elif_parts)?;
                let ghost p = pairs_model(env, fs, t.1, elif_parts@);
                let ghost e3 = self.errs();
                proof {
                    lemma_reported_join(e2, e3, e0.len() as int, c.2 + t.2, p.2);
                }
                let ghost el: Option<(TypeModel, CallLog, Seq<Finding>)> = match else_expr {
                    Some(x) => Some(check_model(env, fs, p.1, **x)),
                    None => None,
                };
                let else_t = match else_expr {
                    Some(e) => Some(self.analyze_expr(e)?),
                    None => None,
                };
                let ghost f_el: Seq<Finding> = match el {
                    Some(x) => x.2,
                    None => Seq::empty(),
                };
                let ghost el_type: Option<TypeModel> = match el {
                    Some(x) => Some(x.0),
                    None => None,
                };
                proof {
                    if el is Some {
                        lemma_reported_join(e3, self.errs(), e0.len() as int, c.2 + t.2 + p.2, f_el);
                    } else {
                        assert(c.2 + t.2 + p.2 + f_el =~= c.2 + t.2 + p.2);
                    }
                    assert(match else_t {
                        Some(x) => Some(x@),
                        None => None,
                    } == el_type);
                }
                let ghost e4 = self.errs();
                let outcome = self.context.expression_checker.check_if_expression(
                    &cond_t,
                    &then_t,
                    elif_types.as_slice(),
                    else_t.as_ref(),
                    &expr.span,
                );
                proof {
                    lemma_if_outcome(c.0, t.0, p.0, el_type, outcome);
                }
                match outcome {
                    Ok(res) => Ok(res.type_),
                    Err(e) => {
                        self.report_error(e);
                        proof {
                            lemma_reported_push(
                                e4,
                                e0.len() as int,
                                c.2 + t.2 + p.2 + f_el,
                                Finding::Branches(c.0, t.0, p.0, el_type),
                                e,
                            );
                        }
                        Ok(NormalizedType::Unknown)
                    },
                }
            },
            ExprKind::TypeCheck { expr: inner, type_ref } => {
                let expr_t = self.analyze_expr(inner)?;
                let ghost x = check_model(env, fs, log0, **inner);
                let ghost e1 = self.errs();
                let target_t = match self.context.types.validate_type_reference(type_ref) {
                    Ok(t) => t,
                    Err(e) => {
                        self.report_error(e);
                        proof {
                            let n = resolved(env, *type_ref)->Err_0;
                            lemma_reported_push(e1, e0.len() as int, x.2, Finding::UnknownName(n), e);
                        }
                        return Ok(NormalizedType::Unknown);
                    },
                };
                match self.context.expression_checker.check_is(&expr_t, &target_t, &expr.span) {
                    Ok(res) => Ok(res.type_),
                    Err(e) => {
                        self.report_error(e);
                        Ok(NormalizedType::Unknown)
                    },
                }
            },
            ExprKind::TypeCast { expr: inner, type_ref } => {
                let expr_t = self.analyze_expr(inner)?;
                let ghost x = check_model(env, fs, log0, **inner);
                let ghost e1 = self.errs();
                let target_t = match self.context.types.validate_type_reference(type_ref) {
                    Ok(t) => t,
                    Err(e) => {
                        self.report_error(e);
                        proof {
                            let n = resolved(env, *type_ref)->Err_0;
                            lemma_reported_push(e1, e0.len() as int, x.2, Finding::UnknownName(n), e);
                        }
                        return Ok(NormalizedType::Unknown);
                    },
                };
                match self.context.expression_checker.check_as(&expr_t, &target_t, &expr.span) {
                    Ok(res) => Ok(res.type_),
                    Err(e) => {
                        self.report_error(e);
                        Ok(NormalizedType::Unknown)
                    },
                }
            },
            _ => Ok(NormalizedType::Unknown),
        }
    }
}

impl Default for SemanticAnalyzer {
    fn default() -> (a: SemanticAnalyzer)
        ensures
            a.wf(),
            a.errs() == Seq::<SemanticError>::empty(),
    {
        SemanticAnalyzer::new()
    }
}

/// A parameter whose annotation names nothing makes the signature's first
/// unknown name defined.
proof fn lemma_bad_parameter(env: TypeEnvironment, ps: Seq<Parameter>, k: int)
    requires
        0 <= k < ps.len(),
        ps[k].annotation matches Some(a) && resolved(env, a) is Err,
    ensures
        first_unknown_in_params(env, ps) is Some,
    decreases ps.len(),
{
    if k > 0 {
        assert(ps.drop_first()[k - 1] == ps[k]);
        lemma_bad_parameter(env, ps.drop_first(), k - 1);
    }
}

/// The index of the method signature named `invoke`.
fn find_invoke(members: &Vec<ProtocolMethodSignature>) -> (r: Option<usize>)
    ensures
        r matches Some(i) ==> i < members@.len(),
        match r {
            Some(i) => i == invoke_from(members@, 0),
            None => invoke_from(members@, 0) == -1,
        },
{
    let mut i: usize = 0;
    while i < members.len()
        invariant
            0 <= i <= members@.len(),
            invoke_from(members@, 0) == invoke_from(members@, i as int),
        decreases members@.len() - i,
    {
        if str_equal(members[i].name.as_str(), "invoke") {
            return Some(i);
        }
        i = i + 1;
    }
    None
}

/// A copy of a list of types.
fn copy_types(ts: &Vec<NormalizedType>) -> (r: Vec<NormalizedType>)
    ensures
        r@.len() == ts@.len(),
        forall|i: int| 0 <= i < ts@.len() ==> #[trigger] r@[i]@ == ts@[i]@,
{
    let mut r: Vec<NormalizedType> = Vec::new();
    let mut i: usize = 0;
    while i < ts.len()
        invariant
            0 <= i <= ts@.len(),
            r@.len() == i,
            forall|j: int| 0 <= j < i ==> #[trigger] r@[j]@ == ts@[j]@,
        decreases ts@.len() - i,
    {
        r.push(copy_type(&ts[i]));
        i = i + 1;
    }
    r
}

/// A copy of a list of method signatures.
fn copy_signatures(ms: &Vec<ProtocolMethodSignature>) -> (r: Vec<ProtocolMethodSignature>)
    ensures
        r@.len() == ms@.len(),
        forall|i: int|
            0 <= i < ms@.len() ==> (#[trigger] r@[i]).name == ms@[i].name && r@[i].parameters@ == ms@[i].parameters@
                && r@[i].return_type == ms@[i].return_type,
{
    let mut r: Vec<ProtocolMethodSignature> = Vec::new();
    let mut i: usize = 0;
    while i < ms.len()
        invariant
            0 <= i <= ms@.len(),
            r@.len() == i,
            forall|j: int|
                0 <= j < i ==> (#[trigger] r@[j]).name == ms@[j].name && r@[j].parameters@ == ms@[j].parameters@
                    && r@[j].return_type == ms@[j].return_type,
        decreases ms@.len() - i,
    {
        r.push(copy_protocol_method_signature(&ms[i]));
        i = i + 1;
    }
    r
}

/// The annotation that records an inferred type in the symbol table: the
/// type written out, with `span`; none for a type that is not known.
fn type_reference_of(t: &NormalizedType, span: &Span) -> (r: Option<TypeReference>)
    ensures
        forall|env: TypeEnvironment| #[trigger] reading(env, t@) == annotation_reading(env, r),
    decreases t,
{
    proof {
        reveal_strlit("Number");
        reveal_strlit("String");
        reveal_strlit("Boolean");
        reveal_strlit("Object");
    }
    let r = match t {
        NormalizedType::Number => Some(TypeReference::new(string_from("Number"), span.clone())),
        NormalizedType::String => Some(TypeReference::new(string_from("String"), span.clone())),
        NormalizedType::Boolean => Some(TypeReference::new(string_from("Boolean"), span.clone())),
        NormalizedType::Named(n) => Some(TypeReference::new(n.clone(), span.clone())),
        NormalizedType::Protocol(n) => Some(TypeReference::new(n.clone(), span.clone())),
        NormalizedType::Iterable(inner) => {
            let r_in = type_reference_of(inner, span);
            let ghost g_in = r_in;
            let r = match r_in {
                Some(tr) => Some(TypeReference::iterable_of(tr, span.clone())),
                None => None,
            };
            proof {
                assert forall|env: TypeEnvironment| #[trigger] reading(env, t@) == annotation_reading(env, r) by {
                    assert(reading(env, inner@) == annotation_reading(env, g_in));
                }
            }
            r
        },
        NormalizedType::Vector(inner) => {
            let r_in = type_reference_of(inner, span);
            let ghost g_in = r_in;
            let r = match r_in {
                Some(tr) => Some(TypeReference::vector_of(tr, span.clone())),
                None => None,
            };
            proof {
                assert forall|env: TypeEnvironment| #[trigger] reading(env, t@) == annotation_reading(env, r) by {
                    assert(reading(env, inner@) == annotation_reading(env, g_in));
                }
            }
            r
        },
        NormalizedType::Unknown => None,
    };
    proof {
        assert forall|env: TypeEnvironment| #[trigger] reading(env, t@) == annotation_reading(env, r) by {
            match t {
                NormalizedType::Number => {
                    let tr = r.unwrap();
                    assert(tr.kind matches TypeReferenceKind::Named(n) && n@ == "Number"@);
                    assert(resolved(env, tr) == Ok::<TypeModel, Seq<char>>(TypeModel::Number));
                },
                NormalizedType::String => {
                    let tr = r.unwrap();
                    assert(tr.kind matches TypeReferenceKind::Named(n) && n@ == "String"@);
                    assert("String"@[0] != "Number"@[0]);
                    assert(resolved(env, tr) == Ok::<TypeModel, Seq<char>>(TypeModel::String));
                },
                NormalizedType::Boolean => {
                    let tr = r.unwrap();
                    assert(tr.kind matches TypeReferenceKind::Named(n) && n@ == "Boolean"@);
                    assert("Boolean"@.len() != "Number"@.len() && "Boolean"@.len() != "String"@.len());
                    assert(resolved(env, tr) == Ok::<TypeModel, Seq<char>>(TypeModel::Boolean));
                },
                NormalizedType::Named(n) => {
                    let tr = r.unwrap();
                    assert(tr.kind == TypeReferenceKind::Named(*n));
                },
                NormalizedType::Protocol(n) => {
                    let tr = r.unwrap();
                    assert(tr.kind == TypeReferenceKind::Named(*n));
                },
                _ => {},
            }
        }
    }
    r
}

} // verus!
