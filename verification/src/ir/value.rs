use vstd::prelude::*;

use crate::span::Span;
use crate::text::{join_strings, joined, push_str, str_equal, string_from, strs};

verus! {

/// The name of a value in the intermediate representation.
#[derive(Debug, PartialEq, Eq, Hash)]
pub struct IRValueId(pub String);

impl IRValueId {
    pub fn new(name: String) -> (r: IRValueId)
        ensures
            r.0@ == name@,
    {
        IRValueId(name)
    }
}

impl Clone for IRValueId {
    fn clone(&self) -> (r: IRValueId)
        ensures
            r.0@ == self.0@,
    {
        IRValueId(self.0.clone())
    }
}

/// The names of a list of value identifiers.
pub open spec fn id_names(ids: Seq<IRValueId>) -> Seq<Seq<char>> {
    ids.map_values(|d: IRValueId| d.0@)
}

#[derive(Debug, Clone, Copy, PartialEq, Eq)]
pub enum IRValueKind {
    Temporary,
    Parameter,
    Constant,
    Phi,
    Named,
}

/// A value: its name and kind, its type and origin when known, and the values
/// it depends on.
#[derive(Debug)]
pub struct IRValue {
    pub id: IRValueId,
    pub kind: IRValueKind,
    pub ty: Option<String>,
    pub span: Option<Span>,
    pub dependencies: Vec<IRValueId>,
}

/// How a value kind is written: `temp`, `param`, `const`, `phi`, `named`.
pub open spec fn kind_text(k: IRValueKind) -> Seq<char> {
    match k {
        IRValueKind::Temporary => "temp"@,
        IRValueKind::Parameter => "param"@,
        IRValueKind::Constant => "const"@,
        IRValueKind::Phi => "phi"@,
        IRValueKind::Named => "named"@,
    }
}

/// How a value is written: `ID: KIND (TYPE)` and, when it has dependencies,
/// ` [deps: A, B]`; an unknown type is written `?`.
pub open spec fn value_text(id: Seq<char>, k: IRValueKind, ty: Option<Seq<char>>, deps: Seq<Seq<char>>) -> Seq<char> {
    let t = match ty {
        Some(t) => t,
        None => "?"@,
    };
    let d = if deps.len() == 0 {
        Seq::empty()
    } else {
        " [deps: "@ + joined(deps, ", "@) + "]"@
    };
    id + ": "@ + kind_text(k) + " ("@ + t + ")"@ + d
}

impl IRValue {
    /// A value with no type, span nor dependencies.
    pub fn new(id: String, kind: IRValueKind) -> (v: IRValue)
        ensures
            v.id.0@ == id@,
            v.kind == kind,
            v.ty is None,
            v.span is None,
            v.dependencies@.len() == 0,
    {
        IRValue { id: IRValueId::new(id), kind, ty: None, span: None, dependencies: Vec::new() }
    }

    pub fn temporary(id: String) -> (v: IRValue)
        ensures
            v.id.0@ == id@,
            v.kind == IRValueKind::Temporary,
            v.ty is None,
            v.span is None,
            v.dependencies@.len() == 0,
    {
        Self::new(id, IRValueKind::Temporary)
    }

    pub fn parameter(id: String) -> (v: IRValue)
        ensures
            v.id.0@ == id@,
            v.kind == IRValueKind::Parameter,
            v.ty is None,
            v.span is None,
            v.dependencies@.len() == 0,
    {
        Self::new(id, IRValueKind::Parameter)
    }

    pub fn constant(id: String) -> (v: IRValue)
        ensures
            v.id.0@ == id@,
            v.kind == IRValueKind::Constant,
            v.ty is None,
            v.span is None,
            v.dependencies@.len() == 0,
    {
        Self::new(id, IRValueKind::Constant)
    }

    pub fn named(id: String) -> (v: IRValue)
        ensures
            v.id.0@ == id@,
            v.kind == IRValueKind::Named,
            v.ty is None,
            v.span is None,
            v.dependencies@.len() == 0,
    {
        Self::new(id, IRValueKind::Named)
    }

    pub fn phi(id: String) -> (v: IRValue)
        ensures
            v.id.0@ == id@,
            v.kind == IRValueKind::Phi,
            v.ty is None,
            v.span is None,
            v.dependencies@.len() == 0,
    {
        Self::new(id, IRValueKind::Phi)
    }

    pub fn with_type(self, ty: String) -> (v: IRValue)
        ensures
            v.id == self.id,
            v.kind == self.kind,
            v.ty matches Some(t) && t@ == ty@,
            v.span == self.span,
            v.dependencies == self.dependencies,
    {
        let mut v = self;
        v.ty = Some(ty);
        v
    }

    pub fn with_span(self, span: Span) -> (v: IRValue)
        ensures
            v.id == self.id,
            v.kind == self.kind,
            v.ty == self.ty,
            v.span == Some(span),
            v.dependencies == self.dependencies,
    {
        let mut v = self;
        v.span = Some(span);
        v
    }

    pub fn is_parameter(&self) -> (r: bool)
        ensures
            r == (self.kind == IRValueKind::Parameter),
    {
        match self.kind {
            IRValueKind::Parameter => true,
            _ => false,
        }
    }

    pub fn is_temporary(&self) -> (r: bool)
        ensures
            r == (self.kind == IRValueKind::Temporary),
    {
        match self.kind {
            IRValueKind::Temporary => true,
            _ => false,
        }
    }

    pub fn is_constant(&self) -> (r: bool)
        ensures
            r == (self.kind == IRValueKind::Constant),
    {
        match self.kind {
            IRValueKind::Constant => true,
            _ => false,
        }
    }

    pub fn is_phi(&self) -> (r: bool)
        ensures
            r == (self.kind == IRValueKind::Phi),
    {
        match self.kind {
            IRValueKind::Phi => true,
            _ => false,
        }
    }

    /// Replaces the dependencies.
    pub fn with_dependencies(self, deps: Vec<IRValueId>) -> (v: IRValue)
        ensures
            v.id == self.id,
            v.kind == self.kind,
            v.ty == self.ty,
            v.span == self.span,
            v.dependencies == deps,
    {
        let mut v = self;
        v.dependencies = deps;
        v
    }

    /// Adds a dependency, unless one of that name is there already.
    pub fn add_dependency(&mut self, dep: IRValueId)
        ensures
            final(self).id == old(self).id,
            final(self).kind == old(self).kind,
            final(self).ty == old(self).ty,
            final(self).span == old(self).span,
            id_names(final(self).dependencies@) == if id_names(old(self).dependencies@).contains(dep.0@) {
                id_names(old(self).dependencies@)
            } else {
                id_names(old(self).dependencies@).push(dep.0@)
            },
    {
        if !self.depends_on(&dep) {
            let ghost before = id_names(self.dependencies@);
            self.dependencies.push(dep);
            assert(id_names(self.dependencies@) =~= before.push(dep.0@));
        }
    }

    pub fn get_dependencies(&self) -> (r: &[IRValueId])
        ensures
            r@ == self.dependencies@,
    {
        self.dependencies.as_slice()
    }

    /// Whether a dependency has the name of `value_id`.
    pub fn depends_on(&self, value_id: &IRValueId) -> (r: bool)
        ensures
            r == id_names(self.dependencies@).contains(value_id.0@),
    {
        let ghost l = id_names(self.dependencies@);
        let mut k: usize = 0;
        while k < self.dependencies.len()
            invariant
                0 <= k <= self.dependencies@.len(),
                l == id_names(self.dependencies@),
                forall|j: int| 0 <= j < k ==> l[j] != value_id.0@,
            decreases self.dependencies@.len() - k,
        {
            if str_equal(self.dependencies[k].0.as_str(), value_id.0.as_str()) {
                assert(l[k as int] == value_id.0@);
                return true;
            }
            k = k + 1;
        }
        false
    }

    pub fn has_dependencies(&self) -> (r: bool)
        ensures
            r == (self.dependencies@.len() > 0),
    {
        self.dependencies.len() > 0
    }

    pub fn dependency_count(&self) -> (r: usize)
        ensures
            r == self.dependencies@.len(),
    {
        self.dependencies.len()
    }

    /// The value as text (see `value_text`).
    pub fn fmt_display(&self) -> (r: String)
        ensures
            r@ == value_text(
                self.id.0@,
                self.kind,
                match self.ty {
                    Some(t) => Some(t@),
                    None => None,
                },
                id_names(self.dependencies@),
            ),
    {
        let kind_str = match self.kind {
            IRValueKind::Temporary => "temp",
            IRValueKind::Parameter => "param",
            IRValueKind::Constant => "const",
            IRValueKind::Phi => "phi",
            IRValueKind::Named => "named",
        };
        let mut r = string_from(self.id.0.as_str());
        push_str(&mut r, ": ");
        push_str(&mut r, kind_str);
        push_str(&mut r, " (");
        match &self.ty {
            Some(t) => push_str(&mut r, t.as_str()),
            None => push_str(&mut r, "?"),
        }
        push_str(&mut r, ")");
        if self.dependencies.len() > 0 {
            let mut names: Vec<String> = Vec::new();
            let mut k: usize = 0;
            while k < self.dependencies.len()
                invariant
                    0 <= k <= self.dependencies@.len(),
                    strs(names@) == id_names(self.dependencies@).take(k as int),
                decreases self.dependencies@.len() - k,
            {
                names.push(self.dependencies[k].0.clone());
                assert(id_names(self.dependencies@).take(k + 1) == id_names(self.dependencies@).take(k as int).push(
                    self.dependencies@[k as int].0@,
                ));
                k = k + 1;
            }
            assert(id_names(self.dependencies@).take(k as int) == id_names(self.dependencies@));
            let deps = join_strings(&names, ", ");
            push_str(&mut r, " [deps: ");
            push_str(&mut r, deps.as_str());
            push_str(&mut r, "]");
        }
        r
    }
}

} // verus!
