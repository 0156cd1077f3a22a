use vstd::prelude::*;

use crate::errors::SemanticError;
use crate::parser::ast::{
    copy_function_declaration, copy_parameters, Expr, FunctionDeclaration, Literal, Parameter,
    ProtocolMethodSignature, TypeDeclaration, TypeMember, TypeReference, TypeReferenceKind,
};
use crate::span::Span;
use crate::text::{contains_str, copy_string, copy_strings, decimal, push_str, str_equal, string_from, strs, usize_to_string};

verus! {

/// A type as the compiler understands it.
#[derive(Debug, PartialEq)]
pub enum NormalizedType {
    Number,
    String,
    Boolean,
    /// A type declared by the program.
    Named(String),
    /// An iterable of the inner type (`T*`).
    Iterable(Box<NormalizedType>),
    /// A vector of the inner type (`T[]`).
    Vector(Box<NormalizedType>),
    Protocol(String),
    /// A type not known (after an error).
    Unknown,
}

/// The mathematical content of a `NormalizedType`.
pub enum TypeModel {
    Number,
    String,
    Boolean,
    Named(Seq<char>),
    Iterable(Box<TypeModel>),
    Vector(Box<TypeModel>),
    Protocol(Seq<char>),
    Unknown,
}

pub open spec fn model_of(t: NormalizedType) -> TypeModel
    decreases t,
{
    match t {
        NormalizedType::Number => TypeModel::Number,
        NormalizedType::String => TypeModel::String,
        NormalizedType::Boolean => TypeModel::Boolean,
        NormalizedType::Named(n) => TypeModel::Named(n@),
        NormalizedType::Iterable(inner) => TypeModel::Iterable(Box::new(model_of(*inner))),
        NormalizedType::Vector(inner) => TypeModel::Vector(Box::new(model_of(*inner))),
        NormalizedType::Protocol(n) => TypeModel::Protocol(n@),
        NormalizedType::Unknown => TypeModel::Unknown,
    }
}

impl View for NormalizedType {
    type V = TypeModel;

    open spec fn view(&self) -> TypeModel {
        model_of(*self)
    }
}

/// How a type is written in messages: `Number`, `T*`, `T[]`, a name, or `?`.
pub open spec fn type_text(m: TypeModel) -> Seq<char>
    decreases m,
{
    match m {
        TypeModel::Number => "Number"@,
        TypeModel::String => "String"@,
        TypeModel::Boolean => "Boolean"@,
        TypeModel::Named(n) => n,
        TypeModel::Iterable(inner) => type_text(*inner) + "*"@,
        TypeModel::Vector(inner) => type_text(*inner) + "[]"@,
        TypeModel::Protocol(n) => n,
        TypeModel::Unknown => "?"@,
    }
}

/// The type a type reference stands for, before any check that its names exist.
pub open spec fn model_of_ref(t: TypeReference) -> TypeModel
    decreases t,
{
    match t.kind {
        TypeReferenceKind::Named(n) => if n@ == "Number"@ {
            TypeModel::Number
        } else if n@ == "String"@ {
            TypeModel::String
        } else if n@ == "Boolean"@ {
            TypeModel::Boolean
        } else {
            TypeModel::Named(n@)
        },
        TypeReferenceKind::Iterable(inner) => TypeModel::Iterable(Box::new(model_of_ref(*inner))),
        TypeReferenceKind::Vector(inner) => TypeModel::Vector(Box::new(model_of_ref(*inner))),
    }
}

/// The environment every analysis starts from: the builtin types `Range`
/// (with `min` and `max`, `next` and `current`, implementing `Iterable`)
/// and `Object`, and the builtin protocol `Iterable` (`next`, `current`).
pub open spec fn builtin_environment(e: TypeEnvironment) -> bool {
    &&& e.types().len() == 2
    &&& e.types()[0].name@ == "Range"@
    &&& e.types()[0].parent is None
    &&& e.types()[0].parameters@.len() == 2
    &&& e.types()[0].parameters@[0].name@ == "min"@
    &&& e.types()[0].parameters@[1].name@ == "max"@
    &&& e.types()[0].methods@.len() == 2
    &&& e.types()[0].methods@[0].name@ == "next"@
    &&& e.types()[0].methods@[0].parameters@.len() == 0
    &&& e.types()[0].methods@[1].name@ == "current"@
    &&& e.types()[0].methods@[1].parameters@.len() == 0
    &&& strs(e.types()[0].implemented_protocols@) == seq!["Iterable"@]
    &&& e.types()[1].name@ == "Object"@
    &&& e.types()[1].parent is None
    &&& e.types()[1].methods@.len() == 0
    &&& e.types()[1].parameters@.len() == 0
    &&& e.protos().len() == 1
    &&& e.protos()[0].name@ == "Iterable"@
    &&& e.protos()[0].extends@.len() == 0
    &&& e.protos()[0].members@.len() == 2
    &&& e.protos()[0].members@[0].name@ == "next"@
    &&& e.protos()[0].members@[0].parameters@.len() == 0
    &&& e.protos()[0].members@[1].name@ == "current"@
    &&& e.protos()[0].members@[1].parameters@.len() == 0
    &&& e.impls() == seq![("Range"@, seq!["Iterable"@])]
}

/// The names of the builtin types: `Number`, `String`, `Boolean` and `Object`.
pub open spec fn is_builtin_type_name(n: Seq<char>) -> bool {
    n == "Number"@ || n == "String"@ || n == "Boolean"@ || n == "Object"@
}

pub fn copy_type(t: &NormalizedType) -> (r: NormalizedType)
    ensures
        r@ == t@,
    decreases t,
{
    match t {
        NormalizedType::Number => NormalizedType::Number,
        NormalizedType::String => NormalizedType::String,
        NormalizedType::Boolean => NormalizedType::Boolean,
        NormalizedType::Named(n) => NormalizedType::Named(n.clone()),
        NormalizedType::Iterable(inner) => NormalizedType::Iterable(Box::new(copy_type(inner))),
        NormalizedType::Vector(inner) => NormalizedType::Vector(Box::new(copy_type(inner))),
        NormalizedType::Protocol(n) => NormalizedType::Protocol(n.clone()),
        NormalizedType::Unknown => NormalizedType::Unknown,
    }
}

impl Clone for NormalizedType {
    fn clone(&self) -> (r: NormalizedType)
        ensures
            r@ == self@,
    {
        copy_type(self)
    }
}

/// Whether two types are the same.
pub fn same_type(a: &NormalizedType, b: &NormalizedType) -> (r: bool)
    ensures
        r == (a@ == b@),
    decreases a,
{
    match (a, b) {
        (NormalizedType::Number, NormalizedType::Number) => true,
        (NormalizedType::String, NormalizedType::String) => true,
        (NormalizedType::Boolean, NormalizedType::Boolean) => true,
        (NormalizedType::Named(x), NormalizedType::Named(y)) => str_equal(x.as_str(), y.as_str()),
        (NormalizedType::Iterable(x), NormalizedType::Iterable(y)) => same_type(x, y),
        (NormalizedType::Vector(x), NormalizedType::Vector(y)) => same_type(x, y),
        (NormalizedType::Protocol(x), NormalizedType::Protocol(y)) => str_equal(x.as_str(), y.as_str()),
        (NormalizedType::Unknown, NormalizedType::Unknown) => true,
        _ => false,
    }
}

impl NormalizedType {
    pub fn from_type_reference(type_ref: &TypeReference) -> (r: NormalizedType)
        ensures
            r@ == model_of_ref(*type_ref),
        decreases type_ref,
    {
        match &type_ref.kind {
            TypeReferenceKind::Named(name) => {
                if str_equal(name.as_str(), "Number") {
                    NormalizedType::Number
                } else if str_equal(name.as_str(), "String") {
                    NormalizedType::String
                } else if str_equal(name.as_str(), "Boolean") {
                    NormalizedType::Boolean
                } else {
                    NormalizedType::Named(name.clone())
                }
            },
            TypeReferenceKind::Iterable(inner) => NormalizedType::Iterable(
                Box::new(NormalizedType::from_type_reference(inner)),
            ),
            TypeReferenceKind::Vector(inner) => NormalizedType::Vector(
                Box::new(NormalizedType::from_type_reference(inner)),
            ),
        }
    }

    pub fn from_kind(kind: &TypeReferenceKind) -> (r: NormalizedType)
        ensures
            r@ == model_of_ref(TypeReference { kind: *kind, span: arbitrary() }),
    {
        match kind {
            TypeReferenceKind::Named(name) => {
                if str_equal(name.as_str(), "Number") {
                    NormalizedType::Number
                } else if str_equal(name.as_str(), "String") {
                    NormalizedType::String
                } else if str_equal(name.as_str(), "Boolean") {
                    NormalizedType::Boolean
                } else {
                    NormalizedType::Named(name.clone())
                }
            },
            TypeReferenceKind::Iterable(inner) => NormalizedType::Iterable(
                Box::new(NormalizedType::from_type_reference(inner)),
            ),
            TypeReferenceKind::Vector(inner) => NormalizedType::Vector(
                Box::new(NormalizedType::from_type_reference(inner)),
            ),
        }
    }

    pub fn is_builtin(&self) -> (r: bool)
        ensures
            r == (self@ is Number || self@ is String || self@ is Boolean),
    {
        match self {
            NormalizedType::Number | NormalizedType::String | NormalizedType::Boolean => true,
            _ => false,
        }
    }

    pub fn is_value_type(&self) -> (r: bool)
        ensures
            r == !(self@ is Unknown),
    {
        match self {
            NormalizedType::Unknown => false,
            _ => true,
        }
    }

    pub fn is_unknown(&self) -> (r: bool)
        ensures
            r == (self@ is Unknown),
    {
        match self {
            NormalizedType::Unknown => true,
            _ => false,
        }
    }

    /// How the type is written in messages (`Number`, `Point*`, `Number[]`, `?`).
    pub fn to_text(&self) -> (r: String)
        ensures
            r@ == type_text(self@),
        decreases self,
    {
        match self {
            NormalizedType::Number => string_from("Number"),
            NormalizedType::String => string_from("String"),
            NormalizedType::Boolean => string_from("Boolean"),
            NormalizedType::Named(n) => n.clone(),
            NormalizedType::Iterable(inner) => {
                let mut r = inner.to_text();
                push_str(&mut r, "*");
                r
            },
            NormalizedType::Vector(inner) => {
                let mut r = inner.to_text();
                push_str(&mut r, "[]");
                r
            },
            NormalizedType::Protocol(n) => n.clone(),
            NormalizedType::Unknown => string_from("?"),
        }
    }
}


/// What the environment knows of a declared type.
#[derive(Debug)]
pub struct TypeInfo {
    pub name: String,
    pub parameters: Vec<Parameter>,
    pub parent: Option<String>,
    pub methods: Vec<FunctionDeclaration>,
    pub properties: Vec<(String, TypeReference)>,
    pub implemented_protocols: Vec<String>,
    pub span: Span,
}

/// What the environment knows of a declared protocol.
#[derive(Debug)]
pub struct ProtocolInfo {
    pub name: String,
    pub members: Vec<ProtocolMethodSignature>,
    pub extends: Vec<String>,
    pub span: Span,
}

/// The characters of an optional string.
pub open spec fn opt_chars(o: Option<String>) -> Option<Seq<char>> {
    match o {
        Some(s) => Some(s@),
        None => None,
    }
}

/// The index of the type named `name` (the last such), or -1.
pub open spec fn type_pos(ts: Seq<TypeInfo>, name: Seq<char>) -> int
    decreases ts.len(),
{
    if ts.len() == 0 {
        -1
    } else if ts.last().name@ == name {
        ts.len() - 1
    } else {
        type_pos(ts.drop_last(), name)
    }
}

/// The index of the protocol named `name` (the last such), or -1.
pub open spec fn proto_pos(ps: Seq<ProtocolInfo>, name: Seq<char>) -> int
    decreases ps.len(),
{
    if ps.len() == 0 {
        -1
    } else if ps.last().name@ == name {
        ps.len() - 1
    } else {
        proto_pos(ps.drop_last(), name)
    }
}

/// The index of the entry for type `name` in a list of implemented protocols, or -1.
pub open spec fn impl_pos(is: Seq<(Seq<char>, Seq<Seq<char>>)>, name: Seq<char>) -> int
    decreases is.len(),
{
    if is.len() == 0 {
        -1
    } else if is.last().0 == name {
        is.len() - 1
    } else {
        impl_pos(is.drop_last(), name)
    }
}

/// Types are well formed when no name is declared twice and each parent is a
/// type declared before its child, never a builtin (so inheritance has no cycle).
pub open spec fn hierarchy_wf(ts: Seq<TypeInfo>) -> bool {
    &&& forall|i: int, j: int| 0 <= i < j < ts.len() ==> ts[i].name@ != ts[j].name@
    &&& forall|i: int|
        0 <= i < ts.len() && (#[trigger] ts[i]).parent is Some
            ==> 0 <= type_pos(ts, ts[i].parent.unwrap()@) < i
                && !is_builtin_type_name(ts[i].parent.unwrap()@)
}

/// Protocols are well formed when no name is declared twice and each extended
/// protocol was declared before the protocol that extends it.
pub open spec fn protocols_wf(ps: Seq<ProtocolInfo>) -> bool {
    &&& forall|i: int, j: int| 0 <= i < j < ps.len() ==> ps[i].name@ != ps[j].name@
    &&& forall|i: int, k: int|
        0 <= i < ps.len() && 0 <= k < ps[i].extends@.len()
            ==> 0 <= proto_pos(ps, (#[trigger] ps[i].extends@[k])@) < i
}

/// No type has two entries in the list of implemented protocols.
pub open spec fn impls_wf(is: Seq<(Seq<char>, Seq<Seq<char>>)>) -> bool {
    forall|i: int, j: int| 0 <= i < j < is.len() ==> is[i].0 != is[j].0
}

/// The declared parent of the type named `name`, if the type exists and has one.
pub open spec fn parent_of(ts: Seq<TypeInfo>, name: Seq<char>) -> Option<Seq<char>> {
    if type_pos(ts, name) >= 0 {
        opt_chars(ts[type_pos(ts, name)].parent)
    } else {
        None
    }
}

pub proof fn lemma_type_pos(ts: Seq<TypeInfo>, name: Seq<char>)
    ensures
        -1 <= type_pos(ts, name) < ts.len(),
        type_pos(ts, name) >= 0 ==> ts[type_pos(ts, name)].name@ == name,
        type_pos(ts, name) < 0 ==> forall|i: int| 0 <= i < ts.len() ==> ts[i].name@ != name,
    decreases ts.len(),
{
    if ts.len() > 0 {
        lemma_type_pos(ts.drop_last(), name);
        if type_pos(ts, name) < 0 {
            assert forall|i: int| 0 <= i < ts.len() implies ts[i].name@ != name by {
                if i < ts.len() - 1 {
                    assert(ts[i] == ts.drop_last()[i]);
                }
            }
        }
    }
}

pub proof fn lemma_proto_pos(ps: Seq<ProtocolInfo>, name: Seq<char>)
    ensures
        -1 <= proto_pos(ps, name) < ps.len(),
        proto_pos(ps, name) >= 0 ==> ps[proto_pos(ps, name)].name@ == name,
        proto_pos(ps, name) < 0 ==> forall|i: int| 0 <= i < ps.len() ==> ps[i].name@ != name,
    decreases ps.len(),
{
    if ps.len() > 0 {
        lemma_proto_pos(ps.drop_last(), name);
        if proto_pos(ps, name) < 0 {
            assert forall|i: int| 0 <= i < ps.len() implies ps[i].name@ != name by {
                if i < ps.len() - 1 {
                    assert(ps[i] == ps.drop_last()[i]);
                }
            }
        }
    }
}

pub proof fn lemma_impl_pos(is: Seq<(Seq<char>, Seq<Seq<char>>)>, name: Seq<char>)
    ensures
        -1 <= impl_pos(is, name) < is.len(),
        impl_pos(is, name) >= 0 ==> is[impl_pos(is, name)].0 == name,
        impl_pos(is, name) < 0 ==> forall|i: int| 0 <= i < is.len() ==> is[i].0 != name,
    decreases is.len(),
{
    if is.len() > 0 {
        lemma_impl_pos(is.drop_last(), name);
        if impl_pos(is, name) < 0 {
            assert forall|i: int| 0 <= i < is.len() implies is[i].0 != name by {
                if i < is.len() - 1 {
                    assert(is[i] == is.drop_last()[i]);
                }
            }
        }
    }
}

/// A parent stands before its child.
pub proof fn lemma_parent_earlier(ts: Seq<TypeInfo>, name: Seq<char>)
    requires
        hierarchy_wf(ts),
        parent_of(ts, name) is Some,
    ensures
        0 <= type_pos(ts, name) < ts.len(),
        0 <= type_pos(ts, parent_of(ts, name).unwrap()) < type_pos(ts, name),
{
    lemma_type_pos(ts, name);
    let i = type_pos(ts, name);
    assert(ts[i].parent is Some);
}

/// The chain of ancestors of `name`: its parent, the parent's parent, and so on.
pub open spec fn ancestors(ts: Seq<TypeInfo>, name: Seq<char>) -> Seq<Seq<char>>
    decreases type_pos(ts, name) + 1,
    when hierarchy_wf(ts)
{
    match parent_of(ts, name) {
        Some(p) => {
            proof {
                lemma_parent_earlier(ts, name);
            }
            seq![p] + ancestors(ts, p)
        },
        None => Seq::empty(),
    }
}


/// The registry of declared types and protocols, and of which protocols each
/// type was declared to implement.
pub struct TypeEnvironment {
    user_types: Vec<TypeInfo>,
    protocols: Vec<ProtocolInfo>,
    type_implements: Vec<(String, Vec<String>)>,
}

pub open spec fn impl_entries(v: Seq<(String, Vec<String>)>) -> Seq<(Seq<char>, Seq<Seq<char>>)> {
    v.map_values(|e: (String, Vec<String>)| (e.0@, strs(e.1@)))
}

/// The protocols declared for type `name`, in the order they were added.
pub open spec fn implemented(is: Seq<(Seq<char>, Seq<Seq<char>>)>, name: Seq<char>) -> Seq<Seq<char>> {
    if impl_pos(is, name) >= 0 {
        is[impl_pos(is, name)].1
    } else {
        Seq::empty()
    }
}

impl TypeEnvironment {
    /// The declared types, in the order of declaration.
    pub closed spec fn types(&self) -> Seq<TypeInfo> {
        self.user_types@
    }

    /// The declared protocols, in the order of declaration.
    pub closed spec fn protos(&self) -> Seq<ProtocolInfo> {
        self.protocols@
    }

    /// For each type with declared protocols, their names.
    pub closed spec fn impls(&self) -> Seq<(Seq<char>, Seq<Seq<char>>)> {
        impl_entries(self.type_implements@)
    }

    pub open spec fn wf(&self) -> bool {
        &&& hierarchy_wf(self.types())
        &&& protocols_wf(self.protos())
        &&& impls_wf(self.impls())
    }

    /// The index of the type named `name`.
    fn find_type(&self, name: &str) -> (r: Option<usize>)
        ensures
            match r {
                Some(i) => i as int == type_pos(self.types(), name@) && i < self.types().len(),
                None => type_pos(self.types(), name@) == -1,
            },
    {
        let ghost ts = self.types();
        let mut i = self.user_types.len();
        assert(ts.take(i as int) =~= ts);
        while i > 0
            invariant
                0 <= i <= ts.len(),
                ts == self.types(),
                type_pos(ts, name@) == type_pos(ts.take(i as int), name@),
            decreases i,
        {
            assert(ts.take(i as int).last() == ts[i - 1]);
            if str_equal(self.user_types[i - 1].name.as_str(), name) {
                return Some(i - 1);
            }
            assert(ts.take(i as int).drop_last() == ts.take(i - 1));
            i = i - 1;
        }
        None
    }

    /// The index of the protocol named `name`.
    fn find_protocol(&self, name: &str) -> (r: Option<usize>)
        ensures
            match r {
                Some(i) => i as int == proto_pos(self.protos(), name@) && i < self.protos().len(),
                None => proto_pos(self.protos(), name@) == -1,
            },
    {
        let ghost ps = self.protos();
        let mut i = self.protocols.len();
        assert(ps.take(i as int) =~= ps);
        while i > 0
            invariant
                0 <= i <= ps.len(),
                ps == self.protos(),
                proto_pos(ps, name@) == proto_pos(ps.take(i as int), name@),
            decreases i,
        {
            assert(ps.take(i as int).last() == ps[i - 1]);
            if str_equal(self.protocols[i - 1].name.as_str(), name) {
                return Some(i - 1);
            }
            assert(ps.take(i as int).drop_last() == ps.take(i - 1));
            i = i - 1;
        }
        None
    }

    /// The index of the entry of type `name` among the implemented protocols.
    fn find_impls(&self, name: &str) -> (r: Option<usize>)
        ensures
            match r {
                Some(i) => i as int == impl_pos(self.impls(), name@) && i < self.impls().len(),
                None => impl_pos(self.impls(), name@) == -1,
            },
    {
        let ghost is = self.impls();
        let mut i = self.type_implements.len();
        assert(is.take(i as int) =~= is);
        while i > 0
            invariant
                0 <= i <= is.len(),
                is == self.impls(),
                is.len() == self.type_implements@.len(),
                impl_pos(is, name@) == impl_pos(is.take(i as int), name@),
            decreases i,
        {
            assert(is.take(i as int).last() == is[i - 1]);
            if str_equal(self.type_implements[i - 1].0.as_str(), name) {
                return Some(i - 1);
            }
            assert(is.take(i as int).drop_last() == is.take(i - 1));
            i = i - 1;
        }
        None
    }

    /// Whether `name` is one of the builtin type names: `Number`, `String`,
    /// `Boolean` or `Object`.
    pub fn is_builtin_name(name: &str) -> (r: bool)
        ensures
            r == is_builtin_type_name(name@),
    {
        str_equal(name, "Number") || str_equal(name, "String") || str_equal(name, "Boolean")
            || str_equal(name, "Object")
    }

    /// The declared type named `name`.
    pub fn get_type(&self, name: &str) -> (r: Option<&TypeInfo>)
        ensures
            match r {
                Some(t) => type_pos(self.types(), name@) >= 0 && *t == self.types()[type_pos(self.types(), name@)],
                None => type_pos(self.types(), name@) == -1,
            },
    {
        match self.find_type(name) {
            Some(i) => Some(&self.user_types[i]),
            None => None,
        }
    }

    /// Whether `name` is a builtin type or a declared one.
    pub fn has_type(&self, name: &str) -> (r: bool)
        ensures
            r == (is_builtin_type_name(name@) || type_pos(self.types(), name@) >= 0),
    {
        Self::is_builtin_name(name) || self.find_type(name).is_some()
    }

    pub fn has_protocol(&self, name: &str) -> (r: bool)
        ensures
            r == (proto_pos(self.protos(), name@) >= 0),
    {
        self.find_protocol(name).is_some()
    }

    /// The declared protocols, in the order of declaration.
    pub fn protocols(&self) -> (r: &Vec<ProtocolInfo>)
        ensures
            r@ == self.protos(),
    {
        &self.protocols
    }

    /// The declared protocol named `name`.
    pub fn get_protocol(&self, name: &str) -> (r: Option<&ProtocolInfo>)
        ensures
            match r {
                Some(p) => proto_pos(self.protos(), name@) >= 0 && *p == self.protos()[proto_pos(self.protos(), name@)],
                None => proto_pos(self.protos(), name@) == -1,
            },
    {
        match self.find_protocol(name) {
            Some(i) => Some(&self.protocols[i]),
            None => None,
        }
    }

    /// The parent of the type named `ty_name`, when it is declared and has one.
    pub fn get_parent_type(&self, ty_name: &str) -> (r: Option<String>)
        ensures
            opt_chars(r) == parent_of(self.types(), ty_name@),
    {
        match self.find_type(ty_name) {
            Some(i) => match &self.user_types[i].parent {
                Some(p) => Some(p.clone()),
                None => None,
            },
            None => None,
        }
    }

    /// Whether `ty_name` was declared to implement `proto`.
    pub fn type_implements(&self, ty_name: &str, proto: &str) -> (r: bool)
        ensures
            r == implemented(self.impls(), ty_name@).contains(proto@),
    {
        match self.find_impls(ty_name) {
            Some(i) => contains_str(&self.type_implements[i].1, proto),
            None => false,
        }
    }

    /// Records that `ty_name` implements `proto` (after the protocols
    /// already recorded for it).
    pub fn add_type_implements(&mut self, ty_name: String, proto: String)
        requires
            old(self).wf(),
        ensures
            final(self).wf(),
            final(self).types() == old(self).types(),
            final(self).protos() == old(self).protos(),
            forall|t: Seq<char>|
                #[trigger] implemented(final(self).impls(), t) == if t == ty_name@ {
                    implemented(old(self).impls(), t).push(proto@)
                } else {
                    implemented(old(self).impls(), t)
                },
    {
        let ghost old_is = self.impls();
        proof {
            lemma_impl_pos(old_is, ty_name@);
        }
        match self.find_impls(ty_name.as_str()) {
            Some(i) => {
                let mut list = copy_strings(&self.type_implements[i].1);
                let ghost before = strs(list@);
                list.push(proto);
                assert(strs(list@) == before.push(proto@));
                let key = ty_name;
                self.type_implements.set(i, (key, list));
                proof {
                    let is = self.impls();
                    assert(is == old_is.update(i as int, (ty_name@, old_is[i as int].1.push(proto@))));
                    assert forall|t: Seq<char>| #[trigger]
                        implemented(is, t) == if t == ty_name@ {
                            implemented(old_is, t).push(proto@)
                        } else {
                            implemented(old_is, t)
                        } by {
                        lemma_impl_pos(old_is, t);
                        lemma_impl_pos(is, t);
                        if t == ty_name@ {
                            assert(impl_pos(is, t) == i) by {
                                lemma_impl_pos_unique(is, t, i as int);
                            }
                        } else {
                            if impl_pos(old_is, t) >= 0 {
                                lemma_impl_pos_unique(is, t, impl_pos(old_is, t));
                            } else {
                                assert forall|j: int| 0 <= j < is.len() implies is[j].0 != t by {
                                    if j != i {
                                        assert(is[j] == old_is[j]);
                                    }
                                }
                                lemma_impl_pos_absent(is, t);
                            }
                        }
                    }
                }
            },
            None => {
                let mut list: Vec<String> = Vec::new();
                list.push(proto);
                let ghost nm = ty_name@;
                self.type_implements.push((ty_name, list));
                proof {
                    let is = self.impls();
                    assert(strs(seq![proto]) == seq![proto@]);
                    assert(is == old_is.push((nm, seq![proto@])));
                    assert(impls_wf(is));
                    assert forall|t: Seq<char>| #[trigger]
                        implemented(is, t) == if t == nm {
                            implemented(old_is, t).push(proto@)
                        } else {
                            implemented(old_is, t)
                        } by {
                        assert(is.drop_last() == old_is);
                        lemma_impl_pos(old_is, t);
                        if t == nm {
                            assert(implemented(old_is, t) == Seq::<Seq<char>>::empty());
                            assert(seq![proto@] == Seq::<Seq<char>>::empty().push(proto@));
                        }
                    }
                }
            },
        }
    }
}

/// With distinct keys, `impl_pos` finds the one entry of that key.
pub proof fn lemma_impl_pos_unique(is: Seq<(Seq<char>, Seq<Seq<char>>)>, name: Seq<char>, i: int)
    requires
        impls_wf(is),
        0 <= i < is.len(),
        is[i].0 == name,
    ensures
        impl_pos(is, name) == i,
{
    lemma_impl_pos(is, name);
}

pub proof fn lemma_impl_pos_absent(is: Seq<(Seq<char>, Seq<Seq<char>>)>, name: Seq<char>)
    requires
        forall|j: int| 0 <= j < is.len() ==> is[j].0 != name,
    ensures
        impl_pos(is, name) == -1,
{
    lemma_impl_pos(is, name);
}


/// Whether registering `ti` among the types `ts` is refused.
pub open spec fn type_registration_fails(ts: Seq<TypeInfo>, ti: TypeInfo) -> bool {
    ||| type_pos(ts, ti.name@) >= 0
    ||| match ti.parent {
        Some(p) => is_builtin_type_name(p@) || p@ == ti.name@ || type_pos(ts, p@) < 0,
        None => false,
    }
}

/// The error that refuses registering `ti` among the types `ts`: a name
/// declared twice, a parent that is builtin or undeclared, or a type that
/// inherits from itself.
pub open spec fn type_registration_error(ts: Seq<TypeInfo>, ti: TypeInfo, e: SemanticError) -> bool {
    if type_pos(ts, ti.name@) >= 0 {
        e matches SemanticError::TypeAlreadyDeclared { name, first_line, first_column }
            && name@ == ti.name@ && first_line == 0 && first_column == 0
    } else {
        match ti.parent {
            Some(p) => if is_builtin_type_name(p@) || (p@ != ti.name@ && type_pos(ts, p@) < 0) {
                e matches SemanticError::InheritFromUndeclared { child_name, parent_name }
                    && child_name@ == ti.name@ && parent_name@ == p@
            } else if p@ == ti.name@ {
                e matches SemanticError::CircularInheritance { child_name, cycle }
                    && child_name@ == ti.name@ && strs(cycle@) == seq![ti.name@, p@]
            } else {
                false
            },
            None => false,
        }
    }
}

/// The first of `exts` that names no declared protocol.
pub open spec fn first_missing_protocol(ps: Seq<ProtocolInfo>, exts: Seq<Seq<char>>) -> Option<Seq<char>>
    decreases exts.len(),
{
    if exts.len() == 0 {
        None
    } else if proto_pos(ps, exts[0]) < 0 {
        Some(exts[0])
    } else {
        first_missing_protocol(ps, exts.drop_first())
    }
}

pub proof fn lemma_first_missing_protocol(ps: Seq<ProtocolInfo>, exts: Seq<Seq<char>>)
    ensures
        first_missing_protocol(ps, exts) is None <==> forall|k: int| 0 <= k < exts.len() ==> proto_pos(ps, #[trigger] exts[k]) >= 0,
    decreases exts.len(),
{
    if exts.len() > 0 {
        lemma_first_missing_protocol(ps, exts.drop_first());
        if proto_pos(ps, exts[0]) >= 0 {
            assert forall|k: int| 0 <= k < exts.len() && (forall|j: int| 0 <= j < exts.drop_first().len() ==> proto_pos(ps, #[trigger] exts.drop_first()[j]) >= 0) implies proto_pos(ps, #[trigger] exts[k]) >= 0 by {
                if k > 0 {
                    assert(exts[k] == exts.drop_first()[k - 1]);
                }
            }
        }
    }
}

impl TypeEnvironment {
    /// Registers a type.
    ///
    /// Refused when a type of that name exists, or when its parent is a
    /// builtin, itself, or not declared; the environment is then unchanged.
    pub fn register_type(&mut self, type_info: TypeInfo) -> (r: Result<(), SemanticError>)
        requires
            old(self).wf(),
        ensures
            final(self).wf(),
            r is Err == type_registration_fails(old(self).types(), type_info),
            match r {
                Ok(_) => final(self).types() == old(self).types().push(type_info),
                Err(e) => type_registration_error(old(self).types(), type_info, e)
                    && final(self).types() == old(self).types(),
            },
            final(self).protos() == old(self).protos(),
            final(self).impls() == old(self).impls(),
    {
        let ghost ts = self.types();
        proof {
            lemma_type_pos(ts, type_info.name@);
        }
        if self.find_type(type_info.name.as_str()).is_some() {
            return Err(SemanticError::TypeAlreadyDeclared {
                name: type_info.name.clone(),
                first_line: 0,
                first_column: 0,
            });
        }
        match &type_info.parent {
            Some(parent) => {
                if Self::is_builtin_name(parent.as_str()) {
                    return Err(SemanticError::InheritFromUndeclared {
                        child_name: type_info.name.clone(),
                        parent_name: parent.clone(),
                    });
                }
                if str_equal(parent.as_str(), type_info.name.as_str()) {
                    let mut cycle: Vec<String> = Vec::new();
                    cycle.push(type_info.name.clone());
                    cycle.push(parent.clone());
                    assert(strs(cycle@) == seq![type_info.name@, parent@]);
                    return Err(SemanticError::CircularInheritance {
                        child_name: type_info.name.clone(),
                        cycle,
                    });
                }
                if self.find_type(parent.as_str()).is_none() {
                    return Err(SemanticError::InheritFromUndeclared {
                        child_name: type_info.name.clone(),
                        parent_name: parent.clone(),
                    });
                }
            },
            None => {},
        }
        let ghost ti = type_info;
        self.user_types.push(type_info);
        proof {
            let nts = self.types();
            assert(nts == ts.push(ti));
            assert(nts.drop_last() == ts);
            assert forall|i: int, j: int| 0 <= i < j < nts.len() implies nts[i].name@ != nts[j].name@ by {
                if j == ts.len() {
                    assert(nts[i] == ts[i]);
                } else {
                    assert(nts[i] == ts[i] && nts[j] == ts[j]);
                }
            }
            assert forall|i: int|
                0 <= i < nts.len() && (#[trigger] nts[i]).parent is Some implies 0 <= type_pos(
                    nts,
                    nts[i].parent.unwrap()@,
                ) < i && !is_builtin_type_name(nts[i].parent.unwrap()@) by {
                let q = nts[i].parent.unwrap()@;
                if i < ts.len() {
                    assert(nts[i] == ts[i]);
                    assert(ts[i].parent is Some);
                    lemma_type_pos(ts, q);
                    assert(q != ti.name@);
                } else {
                    assert(nts[i] == ti);
                }
            }
        }
        Ok(())
    }

    /// Registers a protocol.
    ///
    /// Refused when a protocol of that name exists, or when it extends one
    /// that is not declared (the first such is reported); the environment is
    /// then unchanged.
    pub fn register_protocol(&mut self, protocol_info: ProtocolInfo) -> (r: Result<(), SemanticError>)
        requires
            old(self).wf(),
        ensures
            final(self).wf(),
            r is Err == (proto_pos(old(self).protos(), protocol_info.name@) >= 0
                || first_missing_protocol(old(self).protos(), strs(protocol_info.extends@)) is Some),
            match r {
                Ok(_) => final(self).protos() == old(self).protos().push(protocol_info),
                Err(e) => final(self).protos() == old(self).protos() && if proto_pos(
                    old(self).protos(),
                    protocol_info.name@,
                ) >= 0 {
                    e matches SemanticError::ProtocolAlreadyDeclared { name, first_line, first_column }
                        && name@ == protocol_info.name@ && first_line == 0 && first_column == 0
                } else {
                    e matches SemanticError::UndeclaredProtocol { name }
                        && Some(name@) == first_missing_protocol(old(self).protos(), strs(protocol_info.extends@))
                },
            },
            final(self).types() == old(self).types(),
            final(self).impls() == old(self).impls(),
    {
        let ghost ps = self.protos();
        let ghost exts = strs(protocol_info.extends@);
        proof {
            lemma_proto_pos(ps, protocol_info.name@);
        }
        if self.find_protocol(protocol_info.name.as_str()).is_some() {
            return Err(SemanticError::ProtocolAlreadyDeclared {
                name: protocol_info.name.clone(),
                first_line: 0,
                first_column: 0,
            });
        }
        let mut k: usize = 0;
        assert(exts.skip(0) == exts);
        while k < protocol_info.extends.len()
            invariant
                0 <= k <= exts.len(),
                exts == strs(protocol_info.extends@),
                ps == self.protos(),
                ps == old(self).protos(),
                proto_pos(ps, protocol_info.name@) == -1,
                self.wf(),
                self.types() == old(self).types(),
                self.impls() == old(self).impls(),
                first_missing_protocol(ps, exts) == first_missing_protocol(ps, exts.skip(k as int)),
            decreases exts.len() - k,
        {
            assert(exts.skip(k as int)[0] == exts[k as int]);
            assert(exts[k as int] == protocol_info.extends@[k as int]@);
            if self.find_protocol(protocol_info.extends[k].as_str()).is_none() {
                return Err(SemanticError::UndeclaredProtocol { name: protocol_info.extends[k].clone() });
            }
            assert(exts.skip(k as int).drop_first() == exts.skip(k + 1));
            k = k + 1;
        }
        assert(exts.skip(k as int).len() == 0);
        let ghost pi = protocol_info;
        self.protocols.push(protocol_info);
        proof {
            let nps = self.protos();
            lemma_first_missing_protocol(ps, exts);
            assert(nps == ps.push(pi));
            assert(nps.drop_last() == ps);
            assert forall|i: int, j: int| 0 <= i < j < nps.len() implies nps[i].name@ != nps[j].name@ by {
                if j == ps.len() {
                    assert(nps[i] == ps[i]);
                } else {
                    assert(nps[i] == ps[i] && nps[j] == ps[j]);
                }
            }
            assert forall|i: int, k: int|
                0 <= i < nps.len() && 0 <= k < nps[i].extends@.len() implies 0 <= proto_pos(
                    nps,
                    (#[trigger] nps[i].extends@[k])@,
                ) < i by {
                let q = nps[i].extends@[k]@;
                if i < ps.len() {
                    assert(nps[i] == ps[i]);
                    assert(0 <= proto_pos(ps, ps[i].extends@[k]@) < i);
                    lemma_proto_pos(ps, q);
                    assert(q != pi.name@);
                } else {
                    assert(nps[i] == pi);
                    assert(exts[k] == q);
                    assert(proto_pos(ps, exts[k]) >= 0);
                    lemma_proto_pos(ps, q);
                    assert(q != pi.name@);
                }
            }
        }
        Ok(())
    }
}


/// Whether `a` is `b` or inherits from it, directly or not. Builtin names are
/// subtypes of themselves only.
pub open spec fn subtype_of(ts: Seq<TypeInfo>, a: Seq<char>, b: Seq<char>) -> bool {
    a == b || (!is_builtin_type_name(a) && !is_builtin_type_name(b) && ancestors(ts, a).contains(b))
}

/// A type followed by its ancestors.
pub open spec fn lineage(ts: Seq<TypeInfo>, name: Seq<char>) -> Seq<Seq<char>> {
    seq![name] + ancestors(ts, name)
}

/// The first of `xs` that `ys` holds.
pub open spec fn first_shared(xs: Seq<Seq<char>>, ys: Seq<Seq<char>>) -> Option<Seq<char>>
    decreases xs.len(),
{
    if xs.len() == 0 {
        None
    } else if ys.contains(xs[0]) {
        Some(xs[0])
    } else {
        first_shared(xs.drop_first(), ys)
    }
}

/// Structural equality of types, where two protocols are never equal.
pub open spec fn types_equal_spec(a: TypeModel, b: TypeModel) -> bool
    decreases a,
{
    match (a, b) {
        (TypeModel::Number, TypeModel::Number) => true,
        (TypeModel::String, TypeModel::String) => true,
        (TypeModel::Boolean, TypeModel::Boolean) => true,
        (TypeModel::Named(x), TypeModel::Named(y)) => x == y,
        (TypeModel::Iterable(x), TypeModel::Iterable(y)) => types_equal_spec(*x, *y),
        (TypeModel::Vector(x), TypeModel::Vector(y)) => types_equal_spec(*x, *y),
        (TypeModel::Unknown, TypeModel::Unknown) => true,
        _ => false,
    }
}

impl TypeEnvironment {
    /// Whether a value of type `from` can be used where `to` is expected: the
    /// same type, a type and one of its ancestors, a type and a protocol it
    /// was declared to implement, or a protocol and one it directly extends.
    pub open spec fn compatible(&self, from: TypeModel, to: TypeModel) -> bool {
        if from == to {
            true
        } else {
            match (from, to) {
                (TypeModel::Named(a), TypeModel::Named(b)) => subtype_of(self.types(), a, b),
                (TypeModel::Named(t), TypeModel::Protocol(p)) => implemented(self.impls(), t).contains(p),
                (TypeModel::Protocol(a), TypeModel::Protocol(b)) => proto_pos(self.protos(), a) >= 0
                    && strs(self.protos()[proto_pos(self.protos(), a)].extends@).contains(b),
                _ => false,
            }
        }
    }

    /// The nearest type that both sides can be used as: one side when the
    /// other is unknown, and for two declared types the first type of the
    /// right side's lineage that the left side's lineage holds.
    pub open spec fn common_super(&self, left: TypeModel, right: TypeModel) -> Option<TypeModel> {
        if left == right {
            Some(left)
        } else if left is Unknown {
            Some(right)
        } else if right is Unknown {
            Some(left)
        } else {
            match (left, right) {
                (TypeModel::Named(a), TypeModel::Named(b)) => match first_shared(
                    lineage(self.types(), b),
                    lineage(self.types(), a),
                ) {
                    Some(n) => Some(TypeModel::Named(n)),
                    None => None,
                },
                _ => None,
            }
        }
    }

    /// Whether `left is right` is a sensible test.
    pub open spec fn is_testable(&self, left: TypeModel, right: TypeModel) -> bool {
        ||| left is Unknown
        ||| right is Unknown
        ||| self.compatible(left, right)
        ||| self.compatible(right, left)
        ||| (left is Named && right is Named)
    }

    /// An environment that knows the builtin `Range` type (with parameters
    /// `min` and `max` and methods `next(): Boolean` and `current(): Number`),
    /// the `Object` type, and the `Iterable` protocol (`next(): Boolean`,
    /// `current(): Object`), which `Range` implements.
    pub fn new() -> (e: TypeEnvironment)
        ensures
            e.wf(),
            builtin_environment(e),
    {
        let mut range_params: Vec<Parameter> = Vec::new();
        range_params.push(Parameter::new(
            string_from("min"),
            Some(TypeReference::new(string_from("Number"), Span::default())),
            Span::default(),
        ));
        range_params.push(Parameter::new(
            string_from("max"),
            Some(TypeReference::new(string_from("Number"), Span::default())),
            Span::default(),
        ));
        let mut range_methods: Vec<FunctionDeclaration> = Vec::new();
        range_methods.push(FunctionDeclaration {
            name: string_from("next"),
            parameters: Vec::new(),
            return_type: Some(TypeReference::new(string_from("Boolean"), Span::default())),
            body: Expr::literal(Literal::Boolean(true), Span::default()),
        });
        range_methods.push(FunctionDeclaration {
            name: string_from("current"),
            parameters: Vec::new(),
            return_type: Some(TypeReference::new(string_from("Number"), Span::default())),
            body: Expr::literal(Literal::Number(string_from("0")), Span::default()),
        });
        let mut range_protocols: Vec<String> = Vec::new();
        range_protocols.push(string_from("Iterable"));
        let range_info = TypeInfo {
            name: string_from("Range"),
            parameters: range_params,
            parent: None,
            methods: range_methods,
            properties: Vec::new(),
            implemented_protocols: range_protocols,
            span: Span::default(),
        };
        let object_info = TypeInfo {
            name: string_from("Object"),
            parameters: Vec::new(),
            parent: None,
            methods: Vec::new(),
            properties: Vec::new(),
            implemented_protocols: Vec::new(),
            span: Span::default(),
        };
        let mut members: Vec<ProtocolMethodSignature> = Vec::new();
        members.push(ProtocolMethodSignature {
            name: string_from("next"),
            parameters: Vec::new(),
            return_type: TypeReference::new(string_from("Boolean"), Span::default()),
            span: Span::default(),
        });
        members.push(ProtocolMethodSignature {
            name: string_from("current"),
            parameters: Vec::new(),
            return_type: TypeReference::new(string_from("Object"), Span::default()),
            span: Span::default(),
        });
        let iterable = ProtocolInfo {
            name: string_from("Iterable"),
            members,
            extends: Vec::new(),
            span: Span::default(),
        };
        let mut user_types: Vec<TypeInfo> = Vec::new();
        user_types.push(range_info);
        user_types.push(object_info);
        let mut protocols: Vec<ProtocolInfo> = Vec::new();
        protocols.push(iterable);
        let mut implements_list: Vec<String> = Vec::new();
        implements_list.push(string_from("Iterable"));
        let mut type_implements: Vec<(String, Vec<String>)> = Vec::new();
        type_implements.push((string_from("Range"), implements_list));
        let e = TypeEnvironment { user_types, protocols, type_implements };
        proof {
            reveal_strlit("Range");
            reveal_strlit("Object");
            assert(e.types()[0] == range_info);
            assert(e.types()[1] == object_info);
            assert(e.types()[0].name@.len() != e.types()[1].name@.len());
            assert(e.types()[0].name@ != e.types()[1].name@);
            assert(strs(e.types()[0].implemented_protocols@) == seq!["Iterable"@]);
            assert(strs(e.type_implements@[0].1@) == seq!["Iterable"@]);
            assert(e.impls() == seq![("Range"@, seq!["Iterable"@])]);
        }
        e
    }

    /// Whether `a` is `b` or inherits from it (builtin names only from themselves).
    pub fn is_subtype(&self, a: &str, b: &str) -> (r: bool)
        requires
            self.wf(),
        ensures
            r == subtype_of(self.types(), a@, b@),
    {
        if str_equal(a, b) {
            return true;
        }
        if Self::is_builtin_name(a) || Self::is_builtin_name(b) {
            return false;
        }
        let ghost ts = self.types();
        let mut cur = string_from(a);
        loop
            invariant
                self.wf(),
                ts == self.types(),
                a@ != b@,
                !is_builtin_type_name(a@),
                !is_builtin_type_name(b@),
                ancestors(ts, a@).contains(b@) == ancestors(ts, cur@).contains(b@),
            decreases type_pos(ts, cur@) + 1,
        {
            match self.get_parent_type(cur.as_str()) {
                Some(parent) => {
                    proof {
                        lemma_parent_earlier(ts, cur@);
                        assert(ancestors(ts, cur@) == seq![parent@] + ancestors(ts, parent@));
                        assert((seq![parent@] + ancestors(ts, parent@))[0] == parent@);
                    }
                    if str_equal(parent.as_str(), b) {
                        return true;
                    }
                    proof {
                        let x = seq![parent@];
                        let y = ancestors(ts, parent@);
                        assert((x + y).contains(b@) ==> y.contains(b@)) by {
                            if (x + y).contains(b@) {
                                let k = choose|k: int| 0 <= k < (x + y).len() && (x + y)[k] == b@;
                                assert(k > 0);
                                assert((x + y)[k] == y[k - 1]);
                            }
                        }
                        assert(y.contains(b@) ==> (x + y).contains(b@)) by {
                            if y.contains(b@) {
                                let k = choose|k: int| 0 <= k < y.len() && y[k] == b@;
                                assert((x + y)[k + 1] == y[k]);
                            }
                        }
                    }
                    cur = parent;
                },
                None => {
                    assert(ancestors(ts, cur@) == Seq::<Seq<char>>::empty());
                    return false;
                },
            }
        }
    }

    /// The ancestors of `ty_name`, nearest first.
    pub fn get_ancestors(&self, ty_name: &str) -> (r: Vec<String>)
        requires
            self.wf(),
        ensures
            strs(r@) == ancestors(self.types(), ty_name@),
    {
        let ghost ts = self.types();
        let mut res: Vec<String> = Vec::new();
        let mut cur = string_from(ty_name);
        assert(strs(res@) + ancestors(ts, cur@) == ancestors(ts, ty_name@));
        loop
            invariant
                self.wf(),
                ts == self.types(),
                strs(res@) + ancestors(ts, cur@) == ancestors(ts, ty_name@),
            decreases type_pos(ts, cur@) + 1,
        {
            match self.get_parent_type(cur.as_str()) {
                Some(parent) => {
                    proof {
                        lemma_parent_earlier(ts, cur@);
                        assert(ancestors(ts, cur@) == seq![parent@] + ancestors(ts, parent@));
                    }
                    let ghost before = strs(res@);
                    res.push(parent.clone());
                    assert(strs(res@) == before.push(parent@));
                    assert(before + (seq![parent@] + ancestors(ts, parent@)) == before.push(parent@) + ancestors(ts, parent@));
                    cur = parent;
                },
                None => {
                    assert(ancestors(ts, cur@) == Seq::<Seq<char>>::empty());
                    assert(strs(res@) + Seq::<Seq<char>>::empty() == strs(res@));
                    return res;
                },
            }
        }
    }

    /// `ty_name` followed by its ancestors.
    fn lineage_of(&self, ty_name: &str) -> (r: Vec<String>)
        requires
            self.wf(),
        ensures
            strs(r@) == lineage(self.types(), ty_name@),
    {
        let ancestors_list = self.get_ancestors(ty_name);
        let mut r: Vec<String> = Vec::new();
        r.push(string_from(ty_name));
        let mut k: usize = 0;
        while k < ancestors_list.len()
            invariant
                0 <= k <= ancestors_list@.len(),
                strs(r@) == seq![ty_name@] + strs(ancestors_list@).take(k as int),
            decreases ancestors_list@.len() - k,
        {
            let ghost before = strs(r@);
            r.push(ancestors_list[k].clone());
            assert(strs(r@) == before.push(ancestors_list@[k as int]@));
            assert(strs(ancestors_list@).take(k + 1) == strs(ancestors_list@).take(k as int).push(
                ancestors_list@[k as int]@,
            ));
            assert(seq![ty_name@] + strs(ancestors_list@).take(k as int).push(ancestors_list@[k as int]@)
                =~= (seq![ty_name@] + strs(ancestors_list@).take(k as int)).push(ancestors_list@[k as int]@));
            k = k + 1;
        }
        assert(strs(ancestors_list@).take(k as int) == strs(ancestors_list@));
        r
    }

    /// The nearest type both sides can be used as (see `common_super`).
    pub fn common_supertype(&self, left: &NormalizedType, right: &NormalizedType) -> (r: Option<NormalizedType>)
        requires
            self.wf(),
        ensures
            match r {
                Some(t) => self.common_super(left@, right@) == Some(t@),
                None => self.common_super(left@, right@) is None,
            },
    {
        if same_type(left, right) {
            return Some(copy_type(left));
        }
        if left.is_unknown() {
            return Some(copy_type(right));
        }
        if right.is_unknown() {
            return Some(copy_type(left));
        }
        let (left_name, right_name) = match (left, right) {
            (NormalizedType::Named(l), NormalizedType::Named(r)) => (l, r),
            _ => {
                return None;
            },
        };
        let ghost ts = self.types();
        let left_line = self.lineage_of(left_name.as_str());
        let ghost ys = strs(left_line@);
        let mut cur = right_name.clone();
        assert(lineage(ts, cur@) == lineage(ts, right_name@));
        assert(self.common_super(left@, right@) == match first_shared(lineage(ts, right_name@), ys) {
            Some(n) => Some(TypeModel::Named(n)),
            None => None,
        });
        loop
            invariant
                self.common_super(left@, right@) == match first_shared(lineage(ts, right_name@), ys) {
                    Some(n) => Some(TypeModel::Named(n)),
                    None => None,
                },
                self.wf(),
                ts == self.types(),
                ys == strs(left_line@),
                ys == lineage(ts, left_name@),
                first_shared(lineage(ts, right_name@), ys) == first_shared(lineage(ts, cur@), ys),
            decreases type_pos(ts, cur@) + 1,
        {
            assert(lineage(ts, cur@)[0] == cur@);
            if contains_str(&left_line, cur.as_str()) {
                return Some(NormalizedType::Named(cur));
            }
            assert(lineage(ts, cur@).drop_first() == ancestors(ts, cur@));
            match self.get_parent_type(cur.as_str()) {
                Some(parent) => {
                    proof {
                        lemma_parent_earlier(ts, cur@);
                        assert(ancestors(ts, cur@) == seq![parent@] + ancestors(ts, parent@));
                    }
                    cur = parent;
                },
                None => {
                    assert(ancestors(ts, cur@) == Seq::<Seq<char>>::empty());
                    assert(first_shared(lineage(ts, cur@), ys) == first_shared(lineage(ts, cur@).drop_first(), ys));
                    assert(first_shared(Seq::<Seq<char>>::empty(), ys) is None);
                    return None;
                },
            }
        }
    }

    /// Structural equality, where two protocols are never equal.
    pub fn types_equal(&self, type1: &NormalizedType, type2: &NormalizedType) -> (r: bool)
        ensures
            r == types_equal_spec(type1@, type2@),
        decreases type1,
    {
        match (type1, type2) {
            (NormalizedType::Number, NormalizedType::Number) => true,
            (NormalizedType::String, NormalizedType::String) => true,
            (NormalizedType::Boolean, NormalizedType::Boolean) => true,
            (NormalizedType::Named(a), NormalizedType::Named(b)) => str_equal(a.as_str(), b.as_str()),
            (NormalizedType::Iterable(a), NormalizedType::Iterable(b)) => self.types_equal(a, b),
            (NormalizedType::Vector(a), NormalizedType::Vector(b)) => self.types_equal(a, b),
            (NormalizedType::Unknown, NormalizedType::Unknown) => true,
            _ => false,
        }
    }

    /// Whether a value of type `from` can be used where `to` is expected (see
    /// `compatible`).
    pub fn is_compatible(&self, from: &NormalizedType, to: &NormalizedType) -> (r: bool)
        requires
            self.wf(),
        ensures
            r == self.compatible(from@, to@),
    {
        if same_type(from, to) {
            return true;
        }
        match (from, to) {
            (NormalizedType::Named(a), NormalizedType::Named(b)) => self.is_subtype(a.as_str(), b.as_str()),
            (NormalizedType::Named(t), NormalizedType::Protocol(p)) => self.type_implements(t.as_str(), p.as_str()),
            (NormalizedType::Protocol(a), NormalizedType::Protocol(b)) => {
                if str_equal(a.as_str(), b.as_str()) {
                    return true;
                }
                match self.get_protocol(a.as_str()) {
                    Some(proto) => contains_str(&proto.extends, b.as_str()),
                    None => false,
                }
            },
            _ => false,
        }
    }

    /// Whether `left is right` is a sensible test: one side unknown, one side
    /// compatible with the other, or two declared types.
    pub fn can_use_is(&self, left: &NormalizedType, right: &NormalizedType) -> (r: bool)
        requires
            self.wf(),
        ensures
            r == self.is_testable(left@, right@),
    {
        if left.is_unknown() || right.is_unknown() {
            return true;
        }
        if self.is_compatible(left, right) || self.is_compatible(right, left) {
            return true;
        }
        match (left, right) {
            (NormalizedType::Named(_), NormalizedType::Named(_)) => true,
            _ => false,
        }
    }

    /// The type of `self` inside a method of `ty_name`.
    pub fn resolve_self_type(&self, ty_name: &str) -> (r: NormalizedType)
        ensures
            r@ == TypeModel::Named(ty_name@),
    {
        NormalizedType::Named(string_from(ty_name))
    }

    /// All declared types, in the order of declaration.
    pub fn all_types(&self) -> (r: Vec<&TypeInfo>)
        ensures
            r@.len() == self.types().len(),
            forall|i: int| 0 <= i < r@.len() ==> *r@[i] == self.types()[i],
    {
        let mut r: Vec<&TypeInfo> = Vec::new();
        let mut k: usize = 0;
        while k < self.user_types.len()
            invariant
                0 <= k <= self.user_types@.len(),
                r@.len() == k,
                forall|i: int| 0 <= i < k ==> *r@[i] == self.user_types@[i],
            decreases self.user_types@.len() - k,
        {
            r.push(&self.user_types[k]);
            k = k + 1;
        }
        r
    }

    /// All declared protocols, in the order of declaration.
    pub fn all_protocols(&self) -> (r: Vec<&ProtocolInfo>)
        ensures
            r@.len() == self.protos().len(),
            forall|i: int| 0 <= i < r@.len() ==> *r@[i] == self.protos()[i],
    {
        let mut r: Vec<&ProtocolInfo> = Vec::new();
        let mut k: usize = 0;
        while k < self.protocols.len()
            invariant
                0 <= k <= self.protocols@.len(),
                r@.len() == k,
                forall|i: int| 0 <= i < k ==> *r@[i] == self.protocols@[i],
            decreases self.protocols@.len() - k,
        {
            r.push(&self.protocols[k]);
            k = k + 1;
        }
        r
    }
}


/// The first method of `ms` named `name`.
pub open spec fn first_method(ms: Seq<FunctionDeclaration>, name: Seq<char>) -> Option<FunctionDeclaration>
    decreases ms.len(),
{
    if ms.len() == 0 {
        None
    } else if ms[0].name@ == name {
        Some(ms[0])
    } else {
        first_method(ms.drop_first(), name)
    }
}

/// The method `method` of the type `ty`: its own, else the nearest
/// ancestor's.
pub open spec fn method_in_hierarchy(ts: Seq<TypeInfo>, ty: Seq<char>, method: Seq<char>) -> Option<FunctionDeclaration>
    decreases type_pos(ts, ty) + 1,
    when hierarchy_wf(ts)
{
    if type_pos(ts, ty) < 0 {
        None
    } else {
        match first_method(ts[type_pos(ts, ty)].methods@, method) {
            Some(m) => Some(m),
            None => match parent_of(ts, ty) {
                Some(p) => {
                    proof {
                        lemma_parent_earlier(ts, ty);
                    }
                    method_in_hierarchy(ts, p, method)
                },
                None => None,
            },
        }
    }
}

/// A copy of a method: same name, parameters and return type.
pub open spec fn same_signature(m: FunctionDeclaration, x: FunctionDeclaration) -> bool {
    m.name@ == x.name@ && m.parameters@ == x.parameters@ && m.return_type == x.return_type
}

/// The index of the first method of `ms` named `name`.
fn find_method(ms: &Vec<FunctionDeclaration>, name: &str) -> (r: Option<usize>)
    ensures
        match r {
            Some(k) => k < ms@.len() && first_method(ms@, name@) == Some(ms@[k as int]),
            None => first_method(ms@, name@) is None,
        },
{
    let mut k: usize = 0;
    assert(ms@.skip(0) == ms@);
    while k < ms.len()
        invariant
            0 <= k <= ms@.len(),
            first_method(ms@, name@) == first_method(ms@.skip(k as int), name@),
        decreases ms@.len() - k,
    {
        assert(ms@.skip(k as int)[0] == ms@[k as int]);
        if str_equal(ms[k].name.as_str(), name) {
            return Some(k);
        }
        assert(ms@.skip(k as int).drop_first() == ms@.skip(k + 1));
        k = k + 1;
    }
    None
}

/// A parameter of a method against the same parameter of a protocol
/// signature: free when the protocol leaves it unannotated, else annotated
/// with a compatible type.
pub open spec fn param_conforms(env: TypeEnvironment, m: Parameter, p: Parameter) -> bool {
    match p.annotation {
        None => true,
        Some(pa) => match m.annotation {
            Some(ma) => env.compatible(model_of_ref(ma), model_of_ref(pa)),
            None => false,
        },
    }
}

/// Whether the type `ty` has a method that meets the protocol signature `sig`.
pub open spec fn member_conforms(env: TypeEnvironment, ty: Seq<char>, sig: ProtocolMethodSignature) -> bool {
    match method_in_hierarchy(env.types(), ty, sig.name@) {
        None => false,
        Some(m) => {
            &&& m.parameters@.len() == sig.parameters@.len()
            &&& forall|j: int| 0 <= j < m.parameters@.len()
                ==> param_conforms(env, #[trigger] m.parameters@[j], sig.parameters@[j])
            &&& match m.return_type {
                Some(rt) => env.compatible(model_of_ref(rt), model_of_ref(sig.return_type)),
                None => false,
            }
        },
    }
}

/// The result of checking a type reference: the type it names, or the first
/// name in it that is neither builtin nor declared.
pub open spec fn resolved(env: TypeEnvironment, tr: TypeReference) -> Result<TypeModel, Seq<char>>
    decreases tr,
{
    match tr.kind {
        TypeReferenceKind::Named(n) => if is_builtin_type_name(n@) {
            Ok(model_of_ref(tr))
        } else if type_pos(env.types(), n@) >= 0 {
            Ok(TypeModel::Named(n@))
        } else if proto_pos(env.protos(), n@) >= 0 {
            Ok(TypeModel::Protocol(n@))
        } else {
            Err(n@)
        },
        TypeReferenceKind::Iterable(inner) => match resolved(env, *inner) {
            Ok(t) => Ok(TypeModel::Iterable(Box::new(t))),
            Err(n) => Err(n),
        },
        TypeReferenceKind::Vector(inner) => match resolved(env, *inner) {
            Ok(t) => Ok(TypeModel::Vector(Box::new(t))),
            Err(n) => Err(n),
        },
    }
}

/// The first unknown name among the annotations of `ps`, in order.
pub open spec fn first_unknown_in_params(env: TypeEnvironment, ps: Seq<Parameter>) -> Option<Seq<char>>
    decreases ps.len(),
{
    if ps.len() == 0 {
        None
    } else {
        match ps[0].annotation {
            Some(a) => match resolved(env, a) {
                Err(n) => Some(n),
                Ok(_) => first_unknown_in_params(env, ps.drop_first()),
            },
            None => first_unknown_in_params(env, ps.drop_first()),
        }
    }
}

/// The first unknown name among the annotations of the attributes of `ms`.
pub open spec fn first_unknown_in_members(env: TypeEnvironment, ms: Seq<TypeMember>) -> Option<Seq<char>>
    decreases ms.len(),
{
    if ms.len() == 0 {
        None
    } else {
        match ms[0] {
            TypeMember::Attribute(attr) => match attr.annotation {
                Some(a) => match resolved(env, a) {
                    Err(n) => Some(n),
                    Ok(_) => first_unknown_in_members(env, ms.drop_first()),
                },
                None => first_unknown_in_members(env, ms.drop_first()),
            },
            TypeMember::Method(_) => first_unknown_in_members(env, ms.drop_first()),
        }
    }
}

/// The first unknown name in the signature of `f`: its parameters in order,
/// then its return type.
pub open spec fn first_unknown_in_signature(env: TypeEnvironment, f: FunctionDeclaration) -> Option<Seq<char>> {
    match first_unknown_in_params(env, f.parameters@) {
        Some(n) => Some(n),
        None => match f.return_type {
            Some(rt) => match resolved(env, rt) {
                Err(n) => Some(n),
                Ok(_) => None,
            },
            None => None,
        },
    }
}

/// The error for an unknown name.
pub open spec fn is_unknown_type_error(e: SemanticError, n: Seq<char>) -> bool {
    e matches SemanticError::UnknownType { name } && name@ == n
}

/// What checking the annotations of the attributes of `ms` gives.
pub open spec fn members_outcome(env: TypeEnvironment, ms: Seq<TypeMember>, r: Result<(), SemanticError>) -> bool {
    match first_unknown_in_members(env, ms) {
        Some(n) => r matches Err(e) && is_unknown_type_error(e, n),
        None => r is Ok,
    }
}

/// What checking the declaration `td` gives: for a parent, that it is named,
/// not builtin, declared, and given as many arguments as it has parameters;
/// then that the attributes' annotations name known types.
pub open spec fn type_declaration_outcome(env: TypeEnvironment, td: TypeDeclaration, r: Result<(), SemanticError>) -> bool {
    let rest = members_outcome(env, td.members@, r);
    match td.inherits {
        Some(inh) => match inh.kind {
            TypeReferenceKind::Named(n) => if is_builtin_type_name(n@) {
                r matches Err(SemanticError::InvalidConstructor { constructed, reason })
                    && constructed@ == td.name@
                    && reason@ == "cannot inherit from builtin '"@ + n@ + "'"@
            } else if type_pos(env.types(), n@) < 0 {
                r matches Err(SemanticError::InheritFromUndeclared { child_name, parent_name })
                    && child_name@ == td.name@ && parent_name@ == n@
            } else if env.types()[type_pos(env.types(), n@)].parameters@.len() != td.parent_arguments@.len() {
                r matches Err(SemanticError::InvalidConstructor { constructed, reason })
                    && constructed@ == td.name@
                    && reason@ == "parent arguments arity mismatch: expected "@
                        + decimal(env.types()[type_pos(env.types(), n@)].parameters@.len())
                        + ", got "@ + decimal(td.parent_arguments@.len())
            } else {
                rest
            },
            _ => r matches Err(SemanticError::UnsupportedFeature { feature })
                && feature@ == "parametrized inherits"@,
        },
        None => rest,
    }
}

impl TypeEnvironment {
    /// Whether the type `ty` conforms to the protocol `proto`: both are known,
    /// and each member of the protocol is met by a method of the type or of
    /// its ancestors.
    pub open spec fn conforms(&self, ty: Seq<char>, proto: Seq<char>) -> bool {
        &&& proto_pos(self.protos(), proto) >= 0
        &&& (is_builtin_type_name(ty) || type_pos(self.types(), ty) >= 0)
        &&& forall|k: int| 0 <= k < self.protos()[proto_pos(self.protos(), proto)].members@.len()
            ==> member_conforms(*self, ty, #[trigger] self.protos()[proto_pos(self.protos(), proto)].members@[k])
    }

    /// The method `method` of `ty` or of its nearest ancestor that has one.
    fn get_method_from_hierarchy(&self, ty: &str, method: &str) -> (r: Option<FunctionDeclaration>)
        requires
            self.wf(),
        ensures
            match r {
                Some(m) => method_in_hierarchy(self.types(), ty@, method@) matches Some(x) && same_signature(m, x),
                None => method_in_hierarchy(self.types(), ty@, method@) is None,
            },
    {
        let ghost ts = self.types();
        let mut cur = string_from(ty);
        loop
            invariant
                self.wf(),
                ts == self.types(),
                method_in_hierarchy(ts, ty@, method@) == method_in_hierarchy(ts, cur@, method@),
            decreases type_pos(ts, cur@) + 1,
        {
            match self.find_type(cur.as_str()) {
                None => {
                    return None;
                },
                Some(i) => {
                    proof {
                        lemma_type_pos(ts, cur@);
                    }
                    let tinfo = &self.user_types[i];
                    match find_method(&tinfo.methods, method) {
                        Some(k) => {
                            return Some(copy_function_declaration(&tinfo.methods[k]));
                        },
                        None => {},
                    }
                    match &tinfo.parent {
                        Some(p) => {
                            proof {
                                lemma_parent_earlier(ts, cur@);
                            }
                            cur = p.clone();
                        },
                        None => {
                            return None;
                        },
                    }
                },
            }
        }
    }

    /// The method `method` as the parent of `ty` has it (its own or an
    /// ancestor's), when `ty` is declared with a parent.
    pub fn get_method_in_parent(&self, ty: &str, method: &str) -> (r: Option<FunctionDeclaration>)
        requires
            self.wf(),
        ensures
            match parent_of(self.types(), ty@) {
                Some(p) => match r {
                    Some(m) => method_in_hierarchy(self.types(), p, method@) matches Some(x) && same_signature(m, x),
                    None => method_in_hierarchy(self.types(), p, method@) is None,
                },
                None => r is None,
            },
    {
        match self.get_parent_type(ty) {
            Some(parent) => self.get_method_from_hierarchy(parent.as_str(), method),
            None => None,
        }
    }

    /// Whether the type `ty` conforms to the protocol `proto` (see `conforms`).
    pub fn type_conforms_to_protocol(&self, ty: &str, proto: &str) -> (r: bool)
        requires
            self.wf(),
        ensures
            r == self.conforms(ty@, proto@),
    {
        let protocol = match self.get_protocol(proto) {
            Some(p) => p,
            None => {
                return false;
            },
        };
        if !self.has_type(ty) {
            return false;
        }
        let ghost members = protocol.members@;
        let mut k: usize = 0;
        while k < protocol.members.len()
            invariant
                self.wf(),
                0 <= k <= members.len(),
                members == protocol.members@,
                proto_pos(self.protos(), proto@) >= 0,
                *protocol == self.protos()[proto_pos(self.protos(), proto@)],
                forall|j: int| 0 <= j < k ==> member_conforms(*self, ty@, #[trigger] members[j]),
            decreases members.len() - k,
        {
            let sig = &protocol.members[k];
            let method = match self.get_method_from_hierarchy(ty, sig.name.as_str()) {
                Some(m) => m,
                None => {
                    assert(!member_conforms(*self, ty@, members[k as int]));
                    return false;
                },
            };
            let ghost x = method_in_hierarchy(self.types(), ty@, sig.name@).unwrap();
            proof {
                lemma_proto_pos(self.protos(), proto@);
            }
            if method.parameters.len() != sig.parameters.len() {
                assert(!member_conforms(*self, ty@, members[k as int]));
                return false;
            }
            let mut j: usize = 0;
            while j < method.parameters.len()
                invariant
                    self.wf(),
                    0 <= k < members.len(),
                    members == protocol.members@,
                    *sig == members[k as int],
                    proto_pos(self.protos(), proto@) >= 0,
                    *protocol == self.protos()[proto_pos(self.protos(), proto@)],
                    method_in_hierarchy(self.types(), ty@, sig.name@) == Some(x),
                    same_signature(method, x),
                    0 <= j <= method.parameters@.len(),
                    method.parameters@.len() == sig.parameters@.len(),
                    method.parameters@ == x.parameters@,
                    forall|i: int| 0 <= i < j ==> param_conforms(*self, #[trigger] x.parameters@[i], sig.parameters@[i]),
                decreases method.parameters@.len() - j,
            {
                let m_param = &method.parameters[j];
                let p_param = &sig.parameters[j];
                match &p_param.annotation {
                    None => {},
                    Some(p_ann) => match &m_param.annotation {
                        Some(m_ann) => {
                            let m_t = NormalizedType::from_type_reference(m_ann);
                            let p_t = NormalizedType::from_type_reference(p_ann);
                            if !self.is_compatible(&m_t, &p_t) {
                                assert(!param_conforms(*self, x.parameters@[j as int], sig.parameters@[j as int]));
                                assert(!member_conforms(*self, ty@, members[k as int]));
                                return false;
                            }
                        },
                        None => {
                            assert(!param_conforms(*self, x.parameters@[j as int], sig.parameters@[j as int]));
                            assert(!member_conforms(*self, ty@, members[k as int]));
                            return false;
                        },
                    },
                }
                j = j + 1;
            }
            match &method.return_type {
                Some(m_ret) => {
                    let m_rt = NormalizedType::from_type_reference(m_ret);
                    let p_rt = NormalizedType::from_type_reference(&sig.return_type);
                    if !self.is_compatible(&m_rt, &p_rt) {
                        assert(!member_conforms(*self, ty@, members[k as int]));
                        return false;
                    }
                },
                None => {
                    assert(!member_conforms(*self, ty@, members[k as int]));
                    return false;
                },
            }
            assert(member_conforms(*self, ty@, members[k as int]));
            k = k + 1;
        }
        true
    }

    /// Checks a type reference and gives the type it names.
    ///
    /// Refused with `UnknownType` for the first name in it that is neither
    /// builtin, nor a declared type, nor a declared protocol.
    pub fn validate_type_reference(&self, tr: &TypeReference) -> (r: Result<NormalizedType, SemanticError>)
        ensures
            match r {
                Ok(t) => resolved(*self, *tr) == Ok::<TypeModel, Seq<char>>(t@),
                Err(e) => resolved(*self, *tr) matches Err(n) && is_unknown_type_error(e, n),
            },
        decreases tr,
    {
        match &tr.kind {
            TypeReferenceKind::Named(name) => {
                if Self::is_builtin_name(name.as_str()) {
                    Ok(NormalizedType::from_type_reference(tr))
                } else if self.find_type(name.as_str()).is_some() {
                    Ok(NormalizedType::Named(name.clone()))
                } else if self.find_protocol(name.as_str()).is_some() {
                    Ok(NormalizedType::Protocol(name.clone()))
                } else {
                    Err(SemanticError::UnknownType { name: name.clone() })
                }
            },
            TypeReferenceKind::Iterable(inner) => {
                match self.validate_type_reference(inner) {
                    Ok(t) => Ok(NormalizedType::Iterable(Box::new(t))),
                    Err(e) => Err(e),
                }
            },
            TypeReferenceKind::Vector(inner) => {
                match self.validate_type_reference(inner) {
                    Ok(t) => Ok(NormalizedType::Vector(Box::new(t))),
                    Err(e) => Err(e),
                }
            },
        }
    }

    /// Checks the annotations of the parameters of `ps`, in order.
    fn validate_parameters(&self, ps: &Vec<Parameter>) -> (r: Result<(), SemanticError>)
        ensures
            match first_unknown_in_params(*self, ps@) {
                Some(n) => r matches Err(e) && is_unknown_type_error(e, n),
                None => r is Ok,
            },
    {
        let mut k: usize = 0;
        assert(ps@.skip(0) == ps@);
        while k < ps.len()
            invariant
                0 <= k <= ps@.len(),
                first_unknown_in_params(*self, ps@) == first_unknown_in_params(*self, ps@.skip(k as int)),
            decreases ps@.len() - k,
        {
            assert(ps@.skip(k as int)[0] == ps@[k as int]);
            assert(ps@.skip(k as int).drop_first() == ps@.skip(k + 1));
            match &ps[k].annotation {
                Some(ann) => {
                    match self.validate_type_reference(ann) {
                        Err(e) => {
                            return Err(e);
                        },
                        Ok(_) => {},
                    }
                },
                None => {},
            }
            k = k + 1;
        }
        Ok(())
    }

    /// Checks the annotations of the parameters and return type of `func`.
    ///
    /// Refused with `UnknownType` for the first unknown name, parameters first.
    pub fn validate_function_signature(&self, func: &FunctionDeclaration) -> (r: Result<(), SemanticError>)
        ensures
            match first_unknown_in_signature(*self, *func) {
                Some(n) => r matches Err(e) && is_unknown_type_error(e, n),
                None => r is Ok,
            },
    {
        match self.validate_parameters(&func.parameters) {
            Err(e) => {
                return Err(e);
            },
            Ok(_) => {},
        }
        match &func.return_type {
            Some(ret) => match self.validate_type_reference(ret) {
                Err(e) => Err(e),
                Ok(_) => Ok(()),
            },
            None => Ok(()),
        }
    }

    /// Checks the parent of a type declaration and its attributes'
    /// annotations (see `type_declaration_outcome`); method bodies are not
    /// looked at.
    pub fn validate_type_declaration(&self, td: &TypeDeclaration) -> (r: Result<(), SemanticError>)
        ensures
            type_declaration_outcome(*self, *td, r),
    {
        match &td.inherits {
            Some(inherits) => match &inherits.kind {
                TypeReferenceKind::Named(name) => {
                    if Self::is_builtin_name(name.as_str()) {
                        let mut reason = string_from("cannot inherit from builtin '");
                        push_str(&mut reason, name.as_str());
                        push_str(&mut reason, "'");
                        return Err(SemanticError::InvalidConstructor { constructed: td.name.clone(), reason });
                    }
                    match self.find_type(name.as_str()) {
                        None => {
                            return Err(SemanticError::InheritFromUndeclared {
                                child_name: td.name.clone(),
                                parent_name: name.clone(),
                            });
                        },
                        Some(i) => {
                            let expected = self.user_types[i].parameters.len();
                            let provided = td.parent_arguments.len();
                            if expected != provided {
                                let mut reason = string_from("parent arguments arity mismatch: expected ");
                                let e_text = usize_to_string(expected);
                                push_str(&mut reason, e_text.as_str());
                                push_str(&mut reason, ", got ");
                                let p_text = usize_to_string(provided);
                                push_str(&mut reason, p_text.as_str());
                                return Err(SemanticError::InvalidConstructor { constructed: td.name.clone(), reason });
                            }
                        },
                    }
                },
                _ => {
                    return Err(SemanticError::UnsupportedFeature { feature: string_from("parametrized inherits") });
                },
            },
            None => {},
        }
        let mut k: usize = 0;
        assert(td.members@.skip(0) == td.members@);
        assert(forall|r: Result<(), SemanticError>| #[trigger] type_declaration_outcome(*self, *td, r) == members_outcome(*self, td.members@, r));
        while k < td.members.len()
            invariant
                forall|r: Result<(), SemanticError>| #[trigger] type_declaration_outcome(*self, *td, r) == members_outcome(*self, td.members@, r),
                0 <= k <= td.members@.len(),
                first_unknown_in_members(*self, td.members@) == first_unknown_in_members(
                    *self,
                    td.members@.skip(k as int),
                ),
            decreases td.members@.len() - k,
        {
            assert(td.members@.skip(k as int)[0] == td.members@[k as int]);
            assert(td.members@.skip(k as int).drop_first() == td.members@.skip(k + 1));
            match &td.members[k] {
                TypeMember::Attribute(attr) => match &attr.annotation {
                    Some(ann) => match self.validate_type_reference(ann) {
                        Err(e) => {
                            return Err(e);
                        },
                        Ok(_) => {},
                    },
                    None => {},
                },
                TypeMember::Method(_) => {},
            }
            k = k + 1;
        }
        Ok(())
    }
}


impl Default for TypeEnvironment {
    fn default() -> (e: TypeEnvironment)
        ensures
            e.wf(),
            e.types().len() == 2,
            e.protos().len() == 1,
    {
        TypeEnvironment::new()
    }
}

impl Clone for TypeInfo {
    fn clone(&self) -> (r: TypeInfo)
        ensures
            r.name@ == self.name@,
            opt_chars(r.parent) == opt_chars(self.parent),
            r.parameters@ == self.parameters@,
            r.methods@.len() == self.methods@.len(),
            forall|i: int| 0 <= i < r.methods@.len() ==> same_signature(#[trigger] r.methods@[i], self.methods@[i]),
            strs(r.implemented_protocols@) == strs(self.implemented_protocols@),
            r.span == self.span,
    {
        let mut methods: Vec<FunctionDeclaration> = Vec::new();
        let mut k: usize = 0;
        while k < self.methods.len()
            invariant
                0 <= k <= self.methods@.len(),
                methods@.len() == k,
                forall|i: int| 0 <= i < k ==> same_signature(#[trigger] methods@[i], self.methods@[i]),
            decreases self.methods@.len() - k,
        {
            methods.push(copy_function_declaration(&self.methods[k]));
            k = k + 1;
        }
        let mut properties: Vec<(String, TypeReference)> = Vec::new();
        let mut k: usize = 0;
        while k < self.properties.len()
            invariant
                0 <= k <= self.properties@.len(),
            decreases self.properties@.len() - k,
        {
            properties.push((self.properties[k].0.clone(), self.properties[k].1.clone()));
            k = k + 1;
        }
        let parent = match &self.parent {
            Some(p) => Some(p.clone()),
            None => None,
        };
        TypeInfo {
            name: self.name.clone(),
            parameters: copy_parameters(&self.parameters),
            parent,
            methods,
            properties,
            implemented_protocols: copy_strings(&self.implemented_protocols),
            span: self.span.copy_exact(),
        }
    }
}

impl Clone for ProtocolInfo {
    fn clone(&self) -> (r: ProtocolInfo)
        ensures
            r.name@ == self.name@,
            r.members@.len() == self.members@.len(),
            forall|i: int| 0 <= i < r.members@.len() ==> {
                &&& (#[trigger] r.members@[i]).name@ == self.members@[i].name@
                &&& r.members@[i].parameters@ == self.members@[i].parameters@
                &&& r.members@[i].return_type == self.members@[i].return_type
            },
            strs(r.extends@) == strs(self.extends@),
            r.span == self.span,
    {
        let mut members: Vec<ProtocolMethodSignature> = Vec::new();
        let mut k: usize = 0;
        while k < self.members.len()
            invariant
                0 <= k <= self.members@.len(),
                members@.len() == k,
                forall|i: int| 0 <= i < k ==> {
                    &&& (#[trigger] members@[i]).name@ == self.members@[i].name@
                    &&& members@[i].parameters@ == self.members@[i].parameters@
                    &&& members@[i].return_type == self.members@[i].return_type
                },
            decreases self.members@.len() - k,
        {
            members.push(self.members[k].clone());
            k = k + 1;
        }
        ProtocolInfo {
            name: self.name.clone(),
            members,
            extends: copy_strings(&self.extends),
            span: self.span.copy_exact(),
        }
    }
}

/// A registered protocol can be used where a protocol it extends is
/// expected; the converse does not hold, since a protocol only extends
/// protocols registered before it.
pub proof fn law_protocol_usable_as_extended(env: TypeEnvironment, i: int, b: Seq<char>)
    requires
        env.wf(),
        0 <= i < env.protos().len(),
        strs(env.protos()[i].extends@).contains(b),
    ensures
        env.compatible(TypeModel::Protocol(env.protos()[i].name@), TypeModel::Protocol(b)),
        !env.compatible(TypeModel::Protocol(b), TypeModel::Protocol(env.protos()[i].name@)),
{
    let ps = env.protos();
    let a = ps[i].name@;
    lemma_proto_pos(ps, a);
    lemma_proto_pos(ps, b);
    let k = choose|k: int| 0 <= k < strs(ps[i].extends@).len() && strs(ps[i].extends@)[k] == b;
    assert(ps[i].extends@[k]@ == b);
    assert(0 <= proto_pos(ps, b) < i);
    assert(proto_pos(ps, a) == i) by {
        if proto_pos(ps, a) != i {
            assert(ps[proto_pos(ps, a)].name@ == a);
        }
    }
    assert(a != b) by {
        assert(ps[proto_pos(ps, b)].name@ == b);
    }
    let j = proto_pos(ps, b);
    assert forall|m: int| 0 <= m < strs(ps[j].extends@).len() implies strs(ps[j].extends@)[m] != a by {
        assert(ps[j].extends@[m]@ == strs(ps[j].extends@)[m]);
        assert(0 <= proto_pos(ps, ps[j].extends@[m]@) < j);
    }
}

/// Every type is a subtype of itself.
pub proof fn law_subtype_reflexive(ts: Seq<TypeInfo>, a: Seq<char>)
    ensures
        subtype_of(ts, a, a),
{
}

/// The ancestors of an ancestor of `a` are ancestors of `a`.
pub proof fn lemma_ancestors_closed(ts: Seq<TypeInfo>, a: Seq<char>, b: Seq<char>, c: Seq<char>)
    requires
        hierarchy_wf(ts),
        ancestors(ts, a).contains(b),
        ancestors(ts, b).contains(c),
    ensures
        ancestors(ts, a).contains(c),
    decreases type_pos(ts, a) + 1,
{
    let p = parent_of(ts, a).unwrap();
    lemma_parent_earlier(ts, a);
    let x = seq![p];
    let y = ancestors(ts, p);
    assert(ancestors(ts, a) == x + y);
    if p == b {
        let k = choose|k: int| 0 <= k < y.len() && y[k] == c;
        assert((x + y)[k + 1] == y[k]);
    } else {
        let k = choose|k: int| 0 <= k < (x + y).len() && (x + y)[k] == b;
        assert(k > 0);
        assert((x + y)[k] == y[k - 1]);
        lemma_ancestors_closed(ts, p, b, c);
        let m = choose|m: int| 0 <= m < y.len() && y[m] == c;
        assert((x + y)[m + 1] == y[m]);
    }
}

/// Each ancestor of `a` is declared before `a`.
pub proof fn lemma_ancestors_earlier(ts: Seq<TypeInfo>, a: Seq<char>, b: Seq<char>)
    requires
        hierarchy_wf(ts),
        ancestors(ts, a).contains(b),
    ensures
        0 <= type_pos(ts, b) < type_pos(ts, a),
        !is_builtin_type_name(b),
    decreases type_pos(ts, a) + 1,
{
    let p = parent_of(ts, a).unwrap();
    lemma_parent_earlier(ts, a);
    lemma_type_pos(ts, a);
    assert(ts[type_pos(ts, a)].parent is Some);
    let x = seq![p];
    let y = ancestors(ts, p);
    assert(ancestors(ts, a) == x + y);
    if p != b {
        let k = choose|k: int| 0 <= k < (x + y).len() && (x + y)[k] == b;
        assert(k > 0);
        assert((x + y)[k] == y[k - 1]);
        lemma_ancestors_earlier(ts, p, b);
    }
}

/// Subtyping is transitive.
pub proof fn law_subtype_transitive(ts: Seq<TypeInfo>, a: Seq<char>, b: Seq<char>, c: Seq<char>)
    requires
        hierarchy_wf(ts),
        subtype_of(ts, a, b),
        subtype_of(ts, b, c),
    ensures
        subtype_of(ts, a, c),
{
    if a != b && b != c {
        lemma_ancestors_closed(ts, a, b, c);
    }
}

/// Inheritance has no cycle: two types that are subtypes of each other are the
/// same type.
pub proof fn law_subtype_antisymmetric(ts: Seq<TypeInfo>, a: Seq<char>, b: Seq<char>)
    requires
        hierarchy_wf(ts),
        subtype_of(ts, a, b),
        subtype_of(ts, b, a),
    ensures
        a == b,
{
    if a != b {
        lemma_ancestors_earlier(ts, a, b);
        lemma_ancestors_earlier(ts, b, a);
    }
}

/// A declared type is a subtype of its parent, and the parent is a declared,
/// non-builtin type.
pub proof fn law_parent_is_supertype(ts: Seq<TypeInfo>, a: Seq<char>)
    requires
        hierarchy_wf(ts),
        !is_builtin_type_name(a),
        parent_of(ts, a) is Some,
    ensures
        subtype_of(ts, a, parent_of(ts, a).unwrap()),
        type_pos(ts, parent_of(ts, a).unwrap()) >= 0,
{
    let p = parent_of(ts, a).unwrap();
    lemma_parent_earlier(ts, a);
    lemma_type_pos(ts, a);
    assert(ts[type_pos(ts, a)].parent is Some);
    assert(ancestors(ts, a) == seq![p] + ancestors(ts, p));
    assert((seq![p] + ancestors(ts, p))[0] == p);
}

pub proof fn lemma_first_shared(xs: Seq<Seq<char>>, ys: Seq<Seq<char>>)
    ensures
        first_shared(xs, ys) matches Some(n) ==> xs.contains(n) && ys.contains(n),
    decreases xs.len(),
{
    if xs.len() > 0 && !ys.contains(xs[0]) {
        lemma_first_shared(xs.drop_first(), ys);
        if first_shared(xs, ys) is Some {
            let n = first_shared(xs, ys).unwrap();
            let k = choose|k: int| 0 <= k < xs.drop_first().len() && xs.drop_first()[k] == n;
            assert(xs[k + 1] == n);
        }
    } else if xs.len() > 0 {
        assert(xs[0] == xs[0]);
    }
}

/// What `common_supertype` gives for two declared, non-builtin types is a
/// supertype of both.
pub proof fn law_common_supertype_is_upper_bound(env: TypeEnvironment, a: Seq<char>, b: Seq<char>, n: Seq<char>)
    requires
        env.wf(),
        !is_builtin_type_name(a),
        !is_builtin_type_name(b),
        env.common_super(TypeModel::Named(a), TypeModel::Named(b)) == Some(TypeModel::Named(n)),
    ensures
        subtype_of(env.types(), a, n),
        subtype_of(env.types(), b, n),
{
    let ts = env.types();
    if a != b {
        lemma_first_shared(lineage(ts, b), lineage(ts, a));
        assert(lineage(ts, b).contains(n) && lineage(ts, a).contains(n));
        if n != a {
            let k = choose|k: int| 0 <= k < lineage(ts, a).len() && lineage(ts, a)[k] == n;
            assert(k > 0);
            assert(lineage(ts, a)[k] == ancestors(ts, a)[k - 1]);
            lemma_ancestors_earlier(ts, a, n);
        }
        if n != b {
            let k = choose|k: int| 0 <= k < lineage(ts, b).len() && lineage(ts, b)[k] == n;
            assert(k > 0);
            assert(lineage(ts, b)[k] == ancestors(ts, b)[k - 1]);
            lemma_ancestors_earlier(ts, b, n);
        }
    }
}

/// Every type is compatible with itself.
pub proof fn law_compatible_reflexive(env: TypeEnvironment, t: TypeModel)
    ensures
        env.compatible(t, t),
{
}

/// Two types that `types_equal` calls equal are the same type.
pub proof fn law_types_equal_sound(a: TypeModel, b: TypeModel)
    requires
        types_equal_spec(a, b),
    ensures
        a == b,
    decreases a,
{
    match (a, b) {
        (TypeModel::Iterable(x), TypeModel::Iterable(y)) => {
            law_types_equal_sound(*x, *y);
        },
        (TypeModel::Vector(x), TypeModel::Vector(y)) => {
            law_types_equal_sound(*x, *y);
        },
        _ => {},
    }
}

/// After a type is registered, looking up its name finds it, and every other
/// name finds what it found before.
pub proof fn law_registered_type_is_found(ts: Seq<TypeInfo>, ti: TypeInfo, other: Seq<char>)
    requires
        other != ti.name@,
    ensures
        type_pos(ts.push(ti), ti.name@) == ts.len(),
        type_pos(ts.push(ti), other) == type_pos(ts, other),
{
    assert(ts.push(ti).drop_last() == ts);
}

/// After a protocol is registered, looking up its name finds it, and every
/// other name finds what it found before.
pub proof fn law_registered_protocol_is_found(ps: Seq<ProtocolInfo>, pi: ProtocolInfo, other: Seq<char>)
    requires
        other != pi.name@,
    ensures
        proto_pos(ps.push(pi), pi.name@) == ps.len(),
        proto_pos(ps.push(pi), other) == proto_pos(ps, other),
{
    assert(ps.push(pi).drop_last() == ps);
}

} // verus!
