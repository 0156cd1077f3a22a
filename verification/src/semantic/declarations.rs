use vstd::prelude::*;

use crate::parser::ast::{
    Declaration, DeclarationKind, FunctionDeclaration, Parameter, ProtocolDeclaration, ProtocolMethodSignature,
    TypeDeclaration, TypeMember, TypeReference, TypeReferenceKind,
};
use crate::semantic::analyzer::SemanticAnalyzer;
use crate::semantic::symbol_table::{index_of, SymbolView};
use crate::semantic::type_system::{
    first_unknown_in_signature, proto_pos, resolved, type_registration_fails, ProtocolInfo, TypeInfo,
    TypeModel,
};
use crate::semantic::typing::{check_model, facts_of, reported, Finding};
use crate::text::strs;

verus! {

/// The scopes after declaring `entry` in the innermost one: unchanged when
/// that scope already has its name.
pub open spec fn declared_in(scopes: Seq<Seq<SymbolView>>, entry: SymbolView) -> Seq<Seq<SymbolView>> {
    if index_of(scopes.last(), entry.1) >= 0 {
        scopes
    } else {
        scopes.drop_last().push(scopes.last().push(entry))
    }
}

/// What declaring `entry` in the innermost scope finds: the symbol of the
/// same name that scope already has.
pub open spec fn declare_findings(scopes: Seq<Seq<SymbolView>>, entry: SymbolView) -> Seq<Finding> {
    let i = index_of(scopes.last(), entry.1);
    if i >= 0 {
        seq![Finding::Duplicate(entry, scopes.last()[i])]
    } else {
        Seq::empty()
    }
}

/// Declaring in the innermost scope of `base` with `top` on top only
/// touches `top`.
pub proof fn lemma_declare_on_top(base: Seq<Seq<SymbolView>>, top: Seq<SymbolView>, entry: SymbolView)
    ensures
        declared_in(base.push(top), entry) == base.push(declared_in(seq![top], entry)[0]),
        declare_findings(base.push(top), entry) == declare_findings(seq![top], entry),
{
    assert(base.push(top).last() == top);
    assert(seq![top].last() == top);
    assert(base.push(top).drop_last() =~= base);
    assert(seq![top].drop_last() =~= Seq::<Seq<SymbolView>>::empty());
    if index_of(top, entry.1) < 0 {
        assert(Seq::<Seq<SymbolView>>::empty().push(top.push(entry))[0] == top.push(entry));
    }
}

/// The parent a type declaration names, when it is written as a plain name.
pub open spec fn parent_of(td: TypeDeclaration) -> Option<Seq<char>> {
    match td.inherits {
        Some(tr) => match tr.kind {
            TypeReferenceKind::Named(n) => Some(n@),
            _ => None,
        },
        None => None,
    }
}

/// What declaring a parent that is not a plain name finds.
pub open spec fn inherits_findings(td: TypeDeclaration) -> Seq<Finding> {
    match td.inherits {
        Some(tr) => match tr.kind {
            TypeReferenceKind::Named(_) => Seq::empty(),
            _ => seq![Finding::Unsupported("parametrized inherits"@)],
        },
        None => Seq::empty(),
    }
}

/// The name, parameters and return annotation of each method among `ms`, in order.
pub open spec fn member_methods(ms: Seq<TypeMember>) -> Seq<(Seq<char>, Seq<Parameter>, Option<TypeReference>)>
    decreases ms.len(),
{
    if ms.len() == 0 {
        Seq::empty()
    } else {
        let prev = member_methods(ms.drop_last());
        match ms.last() {
            TypeMember::Method(f) => prev.push((f.name@, f.parameters@, f.return_type)),
            _ => prev,
        }
    }
}

/// The name and annotation of each annotated attribute among `ms`, in order.
pub open spec fn member_properties(ms: Seq<TypeMember>) -> Seq<(Seq<char>, TypeReference)>
    decreases ms.len(),
{
    if ms.len() == 0 {
        Seq::empty()
    } else {
        let prev = member_properties(ms.drop_last());
        match ms.last() {
            TypeMember::Attribute(a) => match a.annotation {
                Some(t) => prev.push((a.name@, t)),
                None => prev,
            },
            _ => prev,
        }
    }
}

/// What the environment records of a type declaration: its name,
/// parameters, parent (when a plain name), methods and annotated
/// attributes, and no protocols yet.
pub open spec fn type_info_of(td: TypeDeclaration, info: TypeInfo) -> bool {
    &&& info.name@ == td.name@
    &&& info.parameters@ == td.parameters@
    &&& match info.parent {
        Some(p) => parent_of(td) == Some(p@),
        None => parent_of(td) is None,
    }
    &&& info.methods@.map_values(|f: FunctionDeclaration| (f.name@, f.parameters@, f.return_type)) == member_methods(
        td.members@,
    )
    &&& info.properties@.map_values(|p: (String, TypeReference)| (p.0@, p.1)) == member_properties(td.members@)
    &&& info.implemented_protocols@.len() == 0
}

/// The names a protocol declaration extends, where written as plain names.
pub open spec fn named_extends(es: Seq<TypeReference>) -> Seq<Seq<char>>
    decreases es.len(),
{
    if es.len() == 0 {
        Seq::empty()
    } else {
        let prev = named_extends(es.drop_last());
        match es.last().kind {
            TypeReferenceKind::Named(n) => prev.push(n@),
            _ => prev,
        }
    }
}

/// What declaring extended protocols that are not plain names finds.
pub open spec fn extends_findings(es: Seq<TypeReference>) -> Seq<Finding>
    decreases es.len(),
{
    if es.len() == 0 {
        Seq::empty()
    } else {
        let prev = extends_findings(es.drop_last());
        match es.last().kind {
            TypeReferenceKind::Named(_) => prev,
            _ => prev.push(Finding::Unsupported("parametrized protocol extends"@)),
        }
    }
}

/// What the environment records of a protocol declaration: its name, its
/// method signatures, and the protocols it extends.
pub open spec fn protocol_info_of(pd: ProtocolDeclaration, info: ProtocolInfo) -> bool {
    &&& info.name@ == pd.name@
    &&& info.members@.map_values(|m: ProtocolMethodSignature| (m.name@, m.parameters@, m.return_type))
        == pd.members@.map_values(|m: ProtocolMethodSignature| (m.name@, m.parameters@, m.return_type))
    &&& strs(info.extends@) == named_extends(pd.extends@)
}

/// Whether registering the protocol `info` among `ps` is refused.
pub open spec fn protocol_registration_fails(ps: Seq<ProtocolInfo>, info: ProtocolInfo) -> bool {
    proto_pos(ps, info.name@) >= 0 || crate::semantic::type_system::first_missing_protocol(ps, strs(info.extends@))
        is Some
}

/// The analyzers `s` and `t` have the same type environment and call log.
pub open spec fn same_environment(s: SemanticAnalyzer, t: SemanticAnalyzer) -> bool {
    &&& t.ctx().types.types() == s.ctx().types.types()
    &&& t.ctx().types.protos() == s.ctx().types.protos()
    &&& t.ctx().types.impls() == s.ctx().types.impls()
    &&& t.calls() == s.calls()
}

/// A type declaration registered, from `s` to `t`: its type (unless
/// refused), its symbol `entry` (unless its name is taken in the scope),
/// and what goes wrong, in order.
pub open spec fn type_registered(td: TypeDeclaration, s: SemanticAnalyzer, t: SemanticAnalyzer, info: TypeInfo, entry: SymbolView) -> bool {
    let ts = s.ctx().types.types();
    let fails = type_registration_fails(ts, info);
    &&& type_info_of(td, info)
    &&& entry.0 == 3 && entry.1 == td.name@ && entry.2 is None && entry.3 == Seq::<Parameter>::empty()
    &&& t.ctx().types.types() == if fails {
        ts
    } else {
        ts.push(info)
    }
    &&& t.ctx().types.protos() == s.ctx().types.protos()
    &&& t.ctx().types.impls() == s.ctx().types.impls()
    &&& t.calls() == s.calls()
    &&& t.ctx().symbols@ == declared_in(s.ctx().symbols@, entry)
    &&& reported(
        t.errs(),
        s.errs().len() as int,
        inherits_findings(td) + (if fails {
            seq![Finding::TypeRefused(ts, info)]
        } else {
            Seq::empty()
        }) + declare_findings(s.ctx().symbols@, entry),
    )
}

/// A protocol declaration registered, from `s` to `t`.
pub open spec fn protocol_registered(pd: ProtocolDeclaration, s: SemanticAnalyzer, t: SemanticAnalyzer, info: ProtocolInfo, entry: SymbolView) -> bool {
    let ps = s.ctx().types.protos();
    let fails = protocol_registration_fails(ps, info);
    &&& protocol_info_of(pd, info)
    &&& entry.0 == 4 && entry.1 == pd.name@ && entry.2 is None && entry.3 == Seq::<Parameter>::empty()
    &&& t.ctx().types.protos() == if fails {
        ps
    } else {
        ps.push(info)
    }
    &&& t.ctx().types.types() == s.ctx().types.types()
    &&& t.ctx().types.impls() == s.ctx().types.impls()
    &&& t.calls() == s.calls()
    &&& t.ctx().symbols@ == declared_in(s.ctx().symbols@, entry)
    &&& reported(
        t.errs(),
        s.errs().len() as int,
        extends_findings(pd.extends@) + (if fails {
            seq![Finding::ProtocolRefused(ps, info)]
        } else {
            Seq::empty()
        }) + declare_findings(s.ctx().symbols@, entry),
    )
}

/// The first pass for one declaration, from `s` to `t`: types and
/// protocols are registered and declared; functions wait.
#[verifier::opaque]
pub open spec fn first_pass_step(d: Declaration, s: SemanticAnalyzer, t: SemanticAnalyzer) -> bool {
    match d.kind {
        DeclarationKind::Type(td) => exists|info: TypeInfo, entry: SymbolView|
            #![trigger type_registered(td, s, t, info, entry)]
            type_registered(td, s, t, info, entry),
        DeclarationKind::Protocol(pd) => exists|info: ProtocolInfo, entry: SymbolView|
            #![trigger protocol_registered(pd, s, t, info, entry)]
            protocol_registered(pd, s, t, info, entry),
        DeclarationKind::Function(_) => same_environment(s, t) && t.ctx().symbols@ == s.ctx().symbols@
            && t.errs() == s.errs(),
    }
}

/// A function declared in the second pass, from `s` to `t`: its signature
/// checked, and its symbol `entry` declared.
pub open spec fn function_declared(f: FunctionDeclaration, s: SemanticAnalyzer, t: SemanticAnalyzer, entry: SymbolView) -> bool {
    let env = s.ctx().types;
    &&& entry.0 == 2 && entry.1 == f.name@ && entry.2 == f.return_type && entry.3 == f.parameters@
    &&& same_environment(s, t)
    &&& t.ctx().symbols@ == declared_in(s.ctx().symbols@, entry)
    &&& reported(
        t.errs(),
        s.errs().len() as int,
        match first_unknown_in_signature(env, f) {
            Some(n) => seq![Finding::UnknownName(n)],
            None => Seq::empty(),
        } + declare_findings(s.ctx().symbols@, entry),
    )
}

/// The second pass for one declaration: functions are declared.
#[verifier::opaque]
pub open spec fn second_pass_step(d: Declaration, s: SemanticAnalyzer, t: SemanticAnalyzer) -> bool {
    match d.kind {
        DeclarationKind::Function(f) => exists|entry: SymbolView|
            #![trigger function_declared(f, s, t, entry)]
            function_declared(f, s, t, entry),
        _ => same_environment(s, t) && t.ctx().symbols@ == s.ctx().symbols@ && t.errs() == s.errs(),
    }
}

/// The symbol of a parameter.
pub open spec fn parameter_entry(p: Parameter) -> SymbolView {
    (1nat, p.name@, p.annotation, Seq::<Parameter>::empty(), p.span)
}

/// The scope of the parameters `ps` declared in order into `scope`, and what
/// goes wrong: a name declared twice.
pub open spec fn parameters_declared(scope: Seq<SymbolView>, ps: Seq<Parameter>) -> (Seq<SymbolView>, Seq<Finding>)
    decreases ps.len(),
{
    if ps.len() == 0 {
        (scope, Seq::empty())
    } else {
        let prev = parameters_declared(scope, ps.drop_last());
        let entry = parameter_entry(ps.last());
        let sc = seq![prev.0];
        (declared_in(sc, entry)[0], prev.1 + declare_findings(sc, entry))
    }
}

/// What checking a function body whose type is `body` against the return
/// annotation of `f` finds.
pub open spec fn return_findings(env: crate::semantic::type_system::TypeEnvironment, f: FunctionDeclaration, body: TypeModel) -> Seq<Finding> {
    match f.return_type {
        Some(tr) => match resolved(env, tr) {
            Ok(expected) => if !(body is Unknown) && !env.compatible(body, expected) {
                seq![Finding::ReturnMismatch(f.name@, expected, body)]
            } else {
                Seq::empty()
            },
            Err(n) => seq![Finding::UnknownName(n)],
        },
        None => Seq::empty(),
    }
}

/// The third pass for one declaration: a function body is checked in a
/// scope holding its parameters, with a fresh call log, against the return
/// annotation.
#[verifier::opaque]
pub open spec fn third_pass_step(d: Declaration, s: SemanticAnalyzer, t: SemanticAnalyzer) -> bool {
    &&& same_environment(s, t)
    &&& t.ctx().symbols@ == s.ctx().symbols@
    &&& match d.kind {
        DeclarationKind::Function(f) => {
            let env = s.ctx().types;
            let params = parameters_declared(Seq::empty(), f.parameters@);
            let body = check_model(env, facts_of(env, s.ctx().symbols@.push(params.0)), Some(Seq::empty()), f.body);
            reported(t.errs(), s.errs().len() as int, params.1 + body.2 + return_findings(env, f, body.0))
        },
        _ => t.errs() == s.errs(),
    }
}

/// One pass over the declarations `ds`, from `start` to `end`, through the
/// analyzers `st`.
#[verifier::opaque]
pub open spec fn pass_through(pass: nat, ds: Seq<Declaration>, st: Seq<SemanticAnalyzer>) -> bool {
    &&& st.len() == ds.len() + 1
    &&& forall|k: int|
        0 <= k < ds.len() ==> if pass == 1 {
            first_pass_step(ds[k], #[trigger] st[k], st[k + 1])
        } else if pass == 2 {
            second_pass_step(ds[k], st[k], st[k + 1])
        } else {
            third_pass_step(ds[k], st[k], st[k + 1])
        }
}

/// The declarations `ds` checked in three passes from `start` to `end`.
pub open spec fn declarations_checked(start: SemanticAnalyzer, ds: Seq<Declaration>, end: SemanticAnalyzer) -> bool {
    exists|s1: Seq<SemanticAnalyzer>, s2: Seq<SemanticAnalyzer>, s3: Seq<SemanticAnalyzer>|
        #![trigger pass_through(1, ds, s1), pass_through(2, ds, s2), pass_through(3, ds, s3)]
        {
            &&& pass_through(1, ds, s1) && s1[0] == start
            &&& pass_through(2, ds, s2) && s2[0] == s1.last()
            &&& pass_through(3, ds, s3) && s3[0] == s2.last() && s3.last() == end
        }
}

} // verus!
