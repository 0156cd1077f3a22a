use vstd::prelude::*;

use crate::errors::SemanticError;
use crate::parser::ast::{copy_opt_type_reference, copy_parameters, Parameter, TypeReference};
use crate::span::Span;
use crate::text::{str_equal, string_from};

verus! {

/// What the symbol table knows of a declared name.
#[derive(Debug, PartialEq)]
pub enum SymbolInfo {
    /// A variable, with the type it was annotated with, if any.
    Variable { name: String, type_ref: Option<TypeReference>, span: Span },
    /// A function parameter, with its annotation, if any.
    Parameter { name: String, type_ref: Option<TypeReference>, span: Span },
    /// A function, with its parameters and declared return type, if any.
    Function {
        name: String,
        parameters: Vec<Parameter>,
        return_type: Option<TypeReference>,
        span: Span,
    },
    Type { name: String, span: Span },
    Protocol { name: String, span: Span },
}

/// The content of a symbol: its kind (0 variable, 1 parameter, 2 function,
/// 3 type, 4 protocol), its name, its annotated type (for a function, its
/// return type), its parameters (functions only) and its span.
pub type SymbolView = (nat, Seq<char>, Option<TypeReference>, Seq<Parameter>, Span);

pub open spec fn kind_variable() -> nat { 0 }
pub open spec fn kind_parameter() -> nat { 1 }
pub open spec fn kind_function() -> nat { 2 }
pub open spec fn kind_type() -> nat { 3 }
pub open spec fn kind_protocol() -> nat { 4 }

impl View for SymbolInfo {
    type V = SymbolView;

    open spec fn view(&self) -> SymbolView {
        match self {
            SymbolInfo::Variable { name, type_ref, span } => (0, name@, *type_ref, Seq::empty(), *span),
            SymbolInfo::Parameter { name, type_ref, span } => (1, name@, *type_ref, Seq::empty(), *span),
            SymbolInfo::Function { name, parameters, return_type, span } => (2, name@, *return_type, parameters@, *span),
            SymbolInfo::Type { name, span } => (3, name@, None, Seq::empty(), *span),
            SymbolInfo::Protocol { name, span } => (4, name@, None, Seq::empty(), *span),
        }
    }
}

/// The name of a kind of symbol, as the symbol table reports it.
pub open spec fn kind_label(kind: nat) -> Seq<char> {
    if kind == 0 {
        "variable"@
    } else if kind == 1 {
        "parameter"@
    } else if kind == 2 {
        "function"@
    } else if kind == 3 {
        "type"@
    } else {
        "protocol"@
    }
}

impl SymbolInfo {
    pub fn name(&self) -> (r: &str)
        ensures
            r@ == self@.1,
    {
        match self {
            SymbolInfo::Variable { name, .. } => name.as_str(),
            SymbolInfo::Parameter { name, .. } => name.as_str(),
            SymbolInfo::Function { name, .. } => name.as_str(),
            SymbolInfo::Type { name, .. } => name.as_str(),
            SymbolInfo::Protocol { name, .. } => name.as_str(),
        }
    }

    pub fn span(&self) -> (r: &Span)
        ensures
            *r == self@.4,
    {
        match self {
            SymbolInfo::Variable { span, .. } => span,
            SymbolInfo::Parameter { span, .. } => span,
            SymbolInfo::Function { span, .. } => span,
            SymbolInfo::Type { span, .. } => span,
            SymbolInfo::Protocol { span, .. } => span,
        }
    }

    /// The kind of the symbol: 0 variable, 1 parameter, 2 function, 3 type, 4 protocol.
    pub fn kind(&self) -> (r: u8)
        ensures
            r as nat == self@.0,
    {
        match self {
            SymbolInfo::Variable { .. } => 0,
            SymbolInfo::Parameter { .. } => 1,
            SymbolInfo::Function { .. } => 2,
            SymbolInfo::Type { .. } => 3,
            SymbolInfo::Protocol { .. } => 4,
        }
    }

    /// `"variable"`, `"parameter"`, `"function"`, `"type"` or `"protocol"`.
    pub fn kind_name(&self) -> (r: &'static str)
        ensures
            r@ == kind_label(self@.0),
    {
        match self {
            SymbolInfo::Variable { .. } => "variable",
            SymbolInfo::Parameter { .. } => "parameter",
            SymbolInfo::Function { .. } => "function",
            SymbolInfo::Type { .. } => "type",
            SymbolInfo::Protocol { .. } => "protocol",
        }
    }

    pub fn copy(&self) -> (r: SymbolInfo)
        ensures
            r@ == self@,
    {
        match self {
            SymbolInfo::Variable { name, type_ref, span } => SymbolInfo::Variable {
                name: name.clone(),
                type_ref: copy_opt_type_reference(type_ref),
                span: span.copy_exact(),
            },
            SymbolInfo::Parameter { name, type_ref, span } => SymbolInfo::Parameter {
                name: name.clone(),
                type_ref: copy_opt_type_reference(type_ref),
                span: span.copy_exact(),
            },
            SymbolInfo::Function { name, parameters, return_type, span } => SymbolInfo::Function {
                name: name.clone(),
                parameters: copy_parameters(parameters),
                return_type: copy_opt_type_reference(return_type),
                span: span.copy_exact(),
            },
            SymbolInfo::Type { name, span } => SymbolInfo::Type { name: name.clone(), span: span.copy_exact() },
            SymbolInfo::Protocol { name, span } => SymbolInfo::Protocol { name: name.clone(), span: span.copy_exact() },
        }
    }
}

impl Clone for SymbolInfo {
    fn clone(&self) -> (r: SymbolInfo)
        ensures
            r@ == self@,
    {
        self.copy()
    }
}

/// The index of the symbol named `name` in a scope (the last such, scanning
/// from the end), or -1.
pub open spec fn index_of(scope: Seq<SymbolView>, name: Seq<char>) -> int
    decreases scope.len(),
{
    if scope.len() == 0 {
        -1
    } else if scope.last().1 == name {
        scope.len() - 1
    } else {
        index_of(scope.drop_last(), name)
    }
}

/// No two symbols of a scope have the same name.
pub open spec fn distinct_names(scope: Seq<SymbolView>) -> bool {
    forall|i: int, j: int| 0 <= i < j < scope.len() ==> scope[i].1 != scope[j].1
}

/// The symbol that `name` resolves to: the one in the innermost scope that
/// declares it.
pub open spec fn lookup_in(scopes: Seq<Seq<SymbolView>>, name: Seq<char>) -> Option<SymbolView>
    decreases scopes.len(),
{
    if scopes.len() == 0 {
        None
    } else if index_of(scopes.last(), name) >= 0 {
        Some(scopes.last()[index_of(scopes.last(), name)])
    } else {
        lookup_in(scopes.drop_last(), name)
    }
}

/// The index of the innermost scope that declares `name`, or -1.
pub open spec fn scope_index_of(scopes: Seq<Seq<SymbolView>>, name: Seq<char>) -> int
    decreases scopes.len(),
{
    if scopes.len() == 0 {
        -1
    } else if index_of(scopes.last(), name) >= 0 {
        scopes.len() - 1
    } else {
        scope_index_of(scopes.drop_last(), name)
    }
}

/// A scope where `sym` replaces the symbol of the same name, or is added last.
pub open spec fn upsert(scope: Seq<SymbolView>, sym: SymbolView) -> Seq<SymbolView> {
    if index_of(scope, sym.1) >= 0 {
        scope.update(index_of(scope, sym.1), sym)
    } else {
        scope.push(sym)
    }
}

/// The error that declaring `sym` gives when `existing` already has its name
/// in the current scope: its kind picks the variant (a parameter reports a
/// variable), the error names it and gives where `existing` starts.
pub open spec fn duplicate_error(e: SemanticError, sym: SymbolView, existing: SymbolView) -> bool {
    let line = existing.4.start_line;
    let column = existing.4.start_column;
    if sym.0 == kind_function() {
        e matches SemanticError::FunctionAlreadyDeclared { name, first_line, first_column } && name@ == sym.1
            && first_line == line && first_column == column
    } else if sym.0 == kind_type() {
        e matches SemanticError::TypeAlreadyDeclared { name, first_line, first_column } && name@ == sym.1
            && first_line == line && first_column == column
    } else if sym.0 == kind_protocol() {
        e matches SemanticError::ProtocolAlreadyDeclared { name, first_line, first_column } && name@ == sym.1
            && first_line == line && first_column == column
    } else {
        e matches SemanticError::VariableAlreadyDeclared { name, first_line, first_column } && name@ == sym.1
            && first_line == line && first_column == column
    }
}

/// The symbols of a scope that are of the given kind, in order.
pub open spec fn of_kind(scope: Seq<SymbolView>, kind: nat) -> Seq<SymbolView>
    decreases scope.len(),
{
    if scope.len() == 0 {
        Seq::empty()
    } else if scope.last().0 == kind {
        of_kind(scope.drop_last(), kind).push(scope.last())
    } else {
        of_kind(scope.drop_last(), kind)
    }
}

/// The number of symbols over all scopes.
pub open spec fn total_count(scopes: Seq<Seq<SymbolView>>) -> nat
    decreases scopes.len(),
{
    if scopes.len() == 0 {
        0
    } else {
        total_count(scopes.drop_last()) + scopes.last().len()
    }
}

/// Whether a name starts with an ASCII capital letter (then it is taken for a type name).
pub open spec fn starts_upper(name: Seq<char>) -> bool {
    name.len() > 0 && 'A' <= name[0] <= 'Z'
}

pub proof fn lemma_index_of(scope: Seq<SymbolView>, name: Seq<char>)
    ensures
        -1 <= index_of(scope, name) < scope.len(),
        index_of(scope, name) >= 0 ==> scope[index_of(scope, name)].1 == name,
        index_of(scope, name) < 0 ==> forall|i: int| 0 <= i < scope.len() ==> scope[i].1 != name,
    decreases scope.len(),
{
    if scope.len() > 0 {
        lemma_index_of(scope.drop_last(), name);
        if index_of(scope, name) < 0 {
            assert forall|i: int| 0 <= i < scope.len() implies scope[i].1 != name by {
                if i < scope.len() - 1 {
                    assert(scope[i] == scope.drop_last()[i]);
                }
            }
        }
    }
}

/// The symbol table: a stack of scopes, the first one global.
pub struct SymbolTable {
    scopes: Vec<Vec<SymbolInfo>>,
}

pub open spec fn scope_view(scope: Vec<SymbolInfo>) -> Seq<SymbolView> {
    scope@.map_values(|s: SymbolInfo| s@)
}

impl View for SymbolTable {
    type V = Seq<Seq<SymbolView>>;

    closed spec fn view(&self) -> Seq<Seq<SymbolView>> {
        self.scopes@.map_values(|s: Vec<SymbolInfo>| scope_view(s))
    }
}

/// A table is well formed when it has at least its global scope and no scope
/// declares a name twice.
pub open spec fn table_wf(scopes: Seq<Seq<SymbolView>>) -> bool {
    &&& scopes.len() >= 1
    &&& forall|i: int| 0 <= i < scopes.len() ==> #[trigger] distinct_names(scopes[i])
}

/// Finds `name` in a scope, scanning from the end.
fn find_in_scope(scope: &Vec<SymbolInfo>, name: &str) -> (r: Option<usize>)
    ensures
        match r {
            Some(i) => i as int == index_of(scope_view(*scope), name@),
            None => index_of(scope_view(*scope), name@) == -1,
        },
{
    let ghost sv = scope_view(*scope);
    let mut i = scope.len();
    assert(sv.take(i as int) =~= sv);
    while i > 0
        invariant
            0 <= i <= scope@.len(),
            sv == scope_view(*scope),
            index_of(sv, name@) == index_of(sv.take(i as int), name@),
        decreases i,
    {
        assert(sv.take(i as int).last() == sv[i - 1]);
        if str_equal(scope[i - 1].name(), name) {
            return Some(i - 1);
        }
        assert(sv.take(i as int).drop_last() == sv.take(i - 1));
        i = i - 1;
    }
    None
}

impl SymbolTable {
    pub closed spec fn wf(&self) -> bool {
        table_wf(self@)
    }

    /// A well-formed table always has its global scope.
    pub proof fn lemma_has_global_scope(&self)
        requires
            self.wf(),
        ensures
            self@.len() >= 1,
    {
    }

    /// A table with an empty global scope.
    pub fn new() -> (t: SymbolTable)
        ensures
            t.wf(),
            t@ == seq![Seq::<SymbolView>::empty()],
    {
        let mut scopes: Vec<Vec<SymbolInfo>> = Vec::new();
        scopes.push(Vec::new());
        let t = SymbolTable { scopes };
        assert(t@ =~~= seq![Seq::<SymbolView>::empty()]);
        t
    }

    /// Opens a new, empty, innermost scope.
    pub fn enter_scope(&mut self)
        requires
            old(self).wf(),
        ensures
            final(self).wf(),
            final(self)@ == old(self)@.push(Seq::<SymbolView>::empty()),
    {
        self.scopes.push(Vec::new());
        assert(self@ =~~= old(self)@.push(Seq::<SymbolView>::empty()));
    }

    /// Closes the innermost scope; the global scope is never closed.
    pub fn exit_scope(&mut self)
        requires
            old(self).wf(),
        ensures
            final(self).wf(),
            old(self)@.len() > 1 ==> final(self)@ == old(self)@.drop_last(),
            old(self)@.len() <= 1 ==> final(self)@ == old(self)@,
    {
        if self.scopes.len() > 1 {
            self.scopes.pop();
            assert(self@ =~= old(self)@.drop_last());
        }
    }

    /// The number of open scopes, the global one included.
    pub fn scope_depth(&self) -> (r: usize)
        ensures
            r == self@.len(),
    {
        self.scopes.len()
    }

    /// Whether the innermost scope is the global one.
    pub fn is_global_scope(&self) -> (r: bool)
        ensures
            r == (self@.len() == 1),
    {
        self.scopes.len() == 1
    }

    /// Declares a symbol in the innermost scope. A name can be declared once
    /// per scope; an inner scope may shadow an outer one.
    pub fn declare(&mut self, symbol: SymbolInfo) -> (r: Result<(), SemanticError>)
        requires
            old(self).wf(),
        ensures
            final(self).wf(),
            index_of(old(self)@.last(), symbol@.1) >= 0 ==> {
                &&& r matches Err(e)
                &&& duplicate_error(e, symbol@, old(self)@.last()[index_of(old(self)@.last(), symbol@.1)])
                &&& final(self)@ == old(self)@
            },
            index_of(old(self)@.last(), symbol@.1) < 0 ==> {
                &&& r is Ok
                &&& final(self)@ == old(self)@.drop_last().push(old(self)@.last().push(symbol@))
            },
    {
        let n = self.scopes.len();
        let found = find_in_scope(&self.scopes[n - 1], symbol.name());
        match found {
            Some(i) => {
                proof {
                    lemma_index_of(scope_view(self.scopes@[n - 1]), symbol@.1);
                }
                let existing = &self.scopes[n - 1][i];
                let line = existing.span().start_line;
                let column = existing.span().start_column;
                let name = string_from(symbol.name());
                let err = match &symbol {
                    SymbolInfo::Function { .. } => SemanticError::FunctionAlreadyDeclared {
                        name,
                        first_line: line,
                        first_column: column,
                    },
                    SymbolInfo::Type { .. } => SemanticError::TypeAlreadyDeclared {
                        name,
                        first_line: line,
                        first_column: column,
                    },
                    SymbolInfo::Variable { .. } | SymbolInfo::Parameter { .. } => SemanticError::VariableAlreadyDeclared {
                        name,
                        first_line: line,
                        first_column: column,
                    },
                    SymbolInfo::Protocol { .. } => SemanticError::ProtocolAlreadyDeclared {
                        name,
                        first_line: line,
                        first_column: column,
                    },
                };
                Err(err)
            },
            None => {
                let ghost sv = symbol@;
                let mut top = self.scopes.pop().unwrap();
                proof {
                    lemma_index_of(scope_view(top), sv.1);
                }
                top.push(symbol);
                assert(scope_view(top) =~= old(self)@.last().push(sv));
                self.scopes.push(top);
                assert(self@ =~= old(self)@.drop_last().push(old(self)@.last().push(sv)));
                assert(distinct_names(old(self)@.last()));
                assert forall|a: int, b: int| 0 <= a < b < self@.last().len() implies self@.last()[a].1
                    != self@.last()[b].1 by {
                    if b == self@.last().len() - 1 {
                        assert(old(self)@.last()[a].1 != sv.1);
                    } else {
                        assert(old(self)@.last()[a] == self@.last()[a]);
                        assert(old(self)@.last()[b] == self@.last()[b]);
                    }
                }
                assert forall|k: int| 0 <= k < self@.len() implies #[trigger] distinct_names(self@[k]) by {
                    if k < self@.len() - 1 {
                        assert(self@[k] == old(self)@[k]);
                    }
                }
                Ok(())
            },
        }
    }

    /// The symbol that `name` resolves to, searching from the innermost scope outwards.
    pub fn lookup(&self, name: &str) -> (r: Option<SymbolInfo>)
        requires
            self.wf(),
        ensures
            match lookup_in(self@, name@) {
                Some(s) => r matches Some(x) && x@ == s,
                None => r is None,
            },
    {
        match self.find(name) {
            Some((si, i)) => Some(self.scopes[si][i].copy()),
            None => None,
        }
    }

    /// The scope and index of the symbol `name` resolves to.
    fn find(&self, name: &str) -> (r: Option<(usize, usize)>)
        requires
            self.wf(),
        ensures
            match r {
                Some((si, i)) => {
                    &&& si < self@.len()
                    &&& si as int == scope_index_of(self@, name@)
                    &&& i as int == index_of(self@[si as int], name@)
                    &&& i < self@[si as int].len()
                    &&& lookup_in(self@, name@) == Some(self@[si as int][i as int])
                },
                None => lookup_in(self@, name@) is None && scope_index_of(self@, name@) == -1,
            },
    {
        let ghost v = self@;
        let mut s = self.scopes.len();
        assert(v.take(s as int) =~= v);
        while s > 0
            invariant
                0 <= s <= v.len(),
                v == self@,
                v.len() == self.scopes@.len(),
                lookup_in(v, name@) == lookup_in(v.take(s as int), name@),
                scope_index_of(v, name@) == scope_index_of(v.take(s as int), name@),
            decreases s,
        {
            assert(v.take(s as int).last() == v[s - 1]);
            assert(v[s - 1] == scope_view(self.scopes@[s - 1]));
            match find_in_scope(&self.scopes[s - 1], name) {
                Some(i) => {
                    proof {
                        lemma_index_of(v[s - 1], name@);
                    }
                    return Some((s - 1, i));
                },
                None => {},
            }
            assert(v.take(s as int).drop_last() == v.take(s - 1));
            s = s - 1;
        }
        None
    }

    /// The symbol `name` stands for in the innermost scope alone.
    pub fn lookup_local(&self, name: &str) -> (r: Option<SymbolInfo>)
        requires
            self.wf(),
        ensures
            index_of(self@.last(), name@) >= 0 ==> (r matches Some(x) && x@ == self@.last()[index_of(
                self@.last(),
                name@,
            )]),
            index_of(self@.last(), name@) < 0 ==> r is None,
    {
        let n = self.scopes.len();
        match find_in_scope(&self.scopes[n - 1], name) {
            Some(i) => {
                proof {
                    lemma_index_of(self@.last(), name@);
                }
                Some(self.scopes[n - 1][i].copy())
            },
            None => None,
        }
    }

    /// Sets the return type of the function `name` resolves to. Fails when
    /// `name` resolves to nothing or to a symbol that is no function.
    pub fn update_function_return_type(&mut self, name: &str, return_type: Option<TypeReference>) -> (r: Result<
        (),
        SemanticError,
    >)
        requires
            old(self).wf(),
        ensures
            final(self).wf(),
            match lookup_in(old(self)@, name@) {
                Some(s) => if s.0 == kind_function() {
                    let si = scope_index_of(old(self)@, name@);
                    let i = index_of(old(self)@[si], name@);
                    &&& r is Ok
                    &&& final(self)@ == old(self)@.update(si, old(self)@[si].update(i, (s.0, s.1, return_type, s.3, s.4)))
                } else {
                    &&& r matches Err(SemanticError::UndefinedFunction { name: n }) && n@ == name@
                    &&& final(self)@ == old(self)@
                },
                None => {
                    &&& r matches Err(SemanticError::UndefinedFunction { name: n }) && n@ == name@
                    &&& final(self)@ == old(self)@
                },
            },
    {
        match self.find(name) {
            Some((si, i)) => {
                let is_function = self.scopes[si][i].kind() == 2;
                if !is_function {
                    return Err(SemanticError::UndefinedFunction { name: string_from(name) });
                }
                let ghost before = self@;
                let mut scope = self.scopes.remove(si);
                let old_sym = scope.remove(i);
                let new_sym = match old_sym {
                    SymbolInfo::Function { name, parameters, return_type: _, span } => SymbolInfo::Function {
                        name,
                        parameters,
                        return_type,
                        span,
                    },
                    other => other,
                };
                scope.insert(i, new_sym);
                self.scopes.insert(si, scope);
                assert(self@[si as int] =~= before[si as int].update(i as int, (
                    before[si as int][i as int].0,
                    before[si as int][i as int].1,
                    return_type,
                    before[si as int][i as int].3,
                    before[si as int][i as int].4,
                )));
                assert(self@ =~= before.update(si as int, self@[si as int]));
                assert forall|k: int| 0 <= k < self@.len() implies #[trigger] distinct_names(self@[k]) by {
                    if k != si {
                        assert(self@[k] == before[k]);
                    } else {
                        assert(distinct_names(before[k]));
                    }
                }
                Ok(())
            },
            None => Err(SemanticError::UndefinedFunction { name: string_from(name) }),
        }
    }

    /// Copies of the symbols of a scope for which `keep` holds of the kind,
    /// in order.
    fn copy_scope(&self, si: usize, kind: Option<u8>) -> (r: Vec<SymbolInfo>)
        requires
            si < self@.len(),
        ensures
            match kind {
                Some(k) => r@.map_values(|s: SymbolInfo| s@) == of_kind(self@[si as int], k as nat),
                None => r@.map_values(|s: SymbolInfo| s@) == self@[si as int],
            },
    {
        let scope = &self.scopes[si];
        let ghost sv = scope_view(*scope);
        assert(sv == self@[si as int]);
        let mut r: Vec<SymbolInfo> = Vec::new();
        let mut i: usize = 0;
        while i < scope.len()
            invariant
                0 <= i <= scope@.len(),
                sv == scope_view(*scope),
                match kind {
                    Some(k) => r@.map_values(|s: SymbolInfo| s@) == of_kind(sv.take(i as int), k as nat),
                    None => r@.map_values(|s: SymbolInfo| s@) == sv.take(i as int),
                },
            decreases scope@.len() - i,
        {
            let ghost prev = r@.map_values(|s: SymbolInfo| s@);
            assert(sv.take(i + 1) =~= sv.take(i as int).push(sv[i as int]));
            assert(sv[i as int] == scope@[i as int]@);
            let keep = match kind {
                Some(k) => scope[i].kind() == k,
                None => true,
            };
            if keep {
                r.push(scope[i].copy());
                assert(r@.map_values(|s: SymbolInfo| s@) =~= prev.push(sv[i as int]));
            }
            assert(sv.take(i + 1).drop_last() =~= sv.take(i as int));
            i = i + 1;
        }
        assert(sv.take(scope@.len() as int) == sv);
        r
    }

    /// The symbols of the innermost scope, in the order they were declared.
    pub fn symbols_in_current_scope(&self) -> (r: Vec<SymbolInfo>)
        requires
            self.wf(),
        ensures
            r@.map_values(|s: SymbolInfo| s@) == self@.last(),
    {
        self.copy_scope(self.scopes.len() - 1, None)
    }

    /// The symbols of the global scope, in the order they were declared.
    pub fn global_symbols(&self) -> (r: Vec<SymbolInfo>)
        requires
            self.wf(),
        ensures
            r@.map_values(|s: SymbolInfo| s@) == self@[0],
    {
        self.copy_scope(0, None)
    }

    /// The functions declared in the innermost scope.
    pub fn functions_in_scope(&self) -> (r: Vec<SymbolInfo>)
        requires
            self.wf(),
        ensures
            r@.map_values(|s: SymbolInfo| s@) == of_kind(self@.last(), kind_function()),
    {
        self.copy_scope(self.scopes.len() - 1, Some(2))
    }

    /// The variables declared in the innermost scope.
    pub fn variables_in_scope(&self) -> (r: Vec<SymbolInfo>)
        requires
            self.wf(),
        ensures
            r@.map_values(|s: SymbolInfo| s@) == of_kind(self@.last(), kind_variable()),
    {
        self.copy_scope(self.scopes.len() - 1, Some(0))
    }

    /// The parameters declared in the innermost scope.
    pub fn parameters_in_scope(&self) -> (r: Vec<SymbolInfo>)
        requires
            self.wf(),
        ensures
            r@.map_values(|s: SymbolInfo| s@) == of_kind(self@.last(), kind_parameter()),
    {
        self.copy_scope(self.scopes.len() - 1, Some(1))
    }

    /// The functions declared in the global scope.
    pub fn global_functions(&self) -> (r: Vec<SymbolInfo>)
        requires
            self.wf(),
        ensures
            r@.map_values(|s: SymbolInfo| s@) == of_kind(self@[0], kind_function()),
    {
        self.copy_scope(0, Some(2))
    }

    /// The types declared in the global scope.
    pub fn global_types(&self) -> (r: Vec<SymbolInfo>)
        requires
            self.wf(),
        ensures
            r@.map_values(|s: SymbolInfo| s@) == of_kind(self@[0], kind_type()),
    {
        self.copy_scope(0, Some(3))
    }

    /// The protocols declared in the global scope.
    pub fn global_protocols(&self) -> (r: Vec<SymbolInfo>)
        requires
            self.wf(),
        ensures
            r@.map_values(|s: SymbolInfo| s@) == of_kind(self@[0], kind_protocol()),
    {
        self.copy_scope(0, Some(4))
    }

    /// Whether `name` resolves to a symbol of the given kind.
    fn resolves_to_kind(&self, name: &str, kind: u8) -> (r: bool)
        requires
            self.wf(),
        ensures
            r == (lookup_in(self@, name@) matches Some(sym) && sym.0 == kind as nat),
    {
        match self.find(name) {
            Some((si, i)) => self.scopes[si][i].kind() == kind,
            None => false,
        }
    }

    /// Whether `name` resolves to a function.
    pub fn is_function(&self, name: &str) -> (r: bool)
        requires
            self.wf(),
        ensures
            r == (lookup_in(self@, name@) matches Some(sym) && sym.0 == kind_function()),
    {
        self.resolves_to_kind(name, 2)
    }

    /// Whether `name` resolves to a variable.
    pub fn is_variable(&self, name: &str) -> (r: bool)
        requires
            self.wf(),
        ensures
            r == (lookup_in(self@, name@) matches Some(sym) && sym.0 == kind_variable()),
    {
        self.resolves_to_kind(name, 0)
    }

    /// Whether `name` resolves to a parameter.
    pub fn is_parameter(&self, name: &str) -> (r: bool)
        requires
            self.wf(),
        ensures
            r == (lookup_in(self@, name@) matches Some(sym) && sym.0 == kind_parameter()),
    {
        self.resolves_to_kind(name, 1)
    }

    /// Whether `name` resolves to a type.
    pub fn is_type(&self, name: &str) -> (r: bool)
        requires
            self.wf(),
        ensures
            r == (lookup_in(self@, name@) matches Some(sym) && sym.0 == kind_type()),
    {
        self.resolves_to_kind(name, 3)
    }

    /// Whether `name` resolves to a protocol.
    pub fn is_protocol(&self, name: &str) -> (r: bool)
        requires
            self.wf(),
        ensures
            r == (lookup_in(self@, name@) matches Some(sym) && sym.0 == kind_protocol()),
    {
        self.resolves_to_kind(name, 4)
    }

    /// The kind of the symbol `name` resolves to, by name.
    pub fn get_symbol_kind(&self, name: &str) -> (r: Option<&'static str>)
        requires
            self.wf(),
        ensures
            match lookup_in(self@, name@) {
                Some(sym) => r matches Some(k) && k@ == kind_label(sym.0),
                None => r is None,
            },
    {
        match self.find(name) {
            Some((si, i)) => Some(self.scopes[si][i].kind_name()),
            None => None,
        }
    }

    /// The symbol `name` resolves to, or the error for an undeclared name:
    /// a name that starts with an ASCII capital letter is taken for a type.
    pub fn get_symbol_or_error(&self, name: &str) -> (r: Result<SymbolInfo, SemanticError>)
        requires
            self.wf(),
        ensures
            match lookup_in(self@, name@) {
                Some(sym) => r matches Ok(x) && x@ == sym,
                None => if starts_upper(name@) {
                    r matches Err(SemanticError::UndeclaredType { name: n }) && n@ == name@
                } else {
                    r matches Err(SemanticError::UndeclaredVariable { name: n }) && n@ == name@
                },
            },
    {
        match self.lookup(name) {
            Some(sym) => Ok(sym),
            None => {
                let cs = crate::text::chars_of(name);
                if cs.len() > 0 && 'A' <= cs[0] && cs[0] <= 'Z' {
                    Err(SemanticError::UndeclaredType { name: string_from(name) })
                } else {
                    Err(SemanticError::UndeclaredVariable { name: string_from(name) })
                }
            },
        }
    }

    /// The number of symbols in the innermost scope.
    pub fn symbol_count_in_scope(&self) -> (r: usize)
        requires
            self.wf(),
        ensures
            r == self@.last().len(),
    {
        self.scopes[self.scopes.len() - 1].len()
    }

    /// The number of symbols over all scopes (at most `usize::MAX`).
    pub fn total_symbol_count(&self) -> (r: usize)
        requires
            self.wf(),
        ensures
            total_count(self@) <= usize::MAX ==> r == total_count(self@),
            total_count(self@) > usize::MAX ==> r == usize::MAX,
    {
        let ghost v = self@;
        let mut total: usize = 0;
        let mut saturated = false;
        let mut i: usize = 0;
        while i < self.scopes.len()
            invariant
                0 <= i <= v.len(),
                v == self@,
                v.len() == self.scopes@.len(),
                !saturated ==> total == total_count(v.take(i as int)),
                saturated ==> total == usize::MAX && total_count(v.take(i as int)) > usize::MAX,
            decreases v.len() - i,
        {
            assert(v.take(i + 1).drop_last() =~= v.take(i as int));
            assert(v[i as int].len() == self.scopes@[i as int]@.len());
            let n = self.scopes[i].len();
            if !saturated {
                match total.checked_add(n) {
                    Some(t) => {
                        total = t;
                    },
                    None => {
                        total = usize::MAX;
                        saturated = true;
                    },
                }
            }
            i = i + 1;
        }
        assert(v.take(v.len() as int) =~= v);
        total
    }

    /// Whether the global scope declares `name`.
    pub fn exists_in_global(&self, name: &str) -> (r: bool)
        requires
            self.wf(),
        ensures
            r == (index_of(self@[0], name@) >= 0),
    {
        find_in_scope(&self.scopes[0], name).is_some()
    }

    /// Whether the innermost scope declares `name` and the global scope does not.
    pub fn exists_only_locally(&self, name: &str) -> (r: bool)
        requires
            self.wf(),
        ensures
            r == (index_of(self@.last(), name@) >= 0 && index_of(self@[0], name@) < 0),
    {
        let n = self.scopes.len();
        find_in_scope(&self.scopes[n - 1], name).is_some() && !self.exists_in_global(name)
    }

    /// Whether `name` resolves at all, whether the innermost scope declares
    /// it, and whether the global scope does.
    pub fn symbol_availability(&self, name: &str) -> (r: (bool, bool, bool))
        requires
            self.wf(),
        ensures
            r == (
                lookup_in(self@, name@) is Some,
                index_of(self@.last(), name@) >= 0,
                index_of(self@[0], name@) >= 0,
            ),
    {
        let n = self.scopes.len();
        let exists = self.find(name).is_some();
        let is_local = find_in_scope(&self.scopes[n - 1], name).is_some();
        let is_global = self.exists_in_global(name);
        (exists, is_local, is_global)
    }

    /// The symbol `name` resolves to, the index of the scope that declares it
    /// (0 is global) and its kind by name.
    pub fn resolve_symbol_info(&self, name: &str) -> (r: Option<(SymbolInfo, usize, &'static str)>)
        requires
            self.wf(),
        ensures
            match lookup_in(self@, name@) {
                Some(sym) => r matches Some((x, si, k)) && x@ == sym && si as int == scope_index_of(self@, name@)
                    && k@ == kind_label(sym.0),
                None => r is None,
            },
    {
        match self.find(name) {
            Some((si, i)) => {
                let sym = self.scopes[si][i].copy();
                let k = sym.kind_name();
                Some((sym, si, k))
            },
            None => None,
        }
    }

    /// The type annotation of the variable or parameter `name` resolves to;
    /// `None` for any other symbol or an undeclared name.
    pub fn get_type_reference(&self, name: &str) -> (r: Option<TypeReference>)
        requires
            self.wf(),
        ensures
            r == (match lookup_in(self@, name@) {
                Some(sym) => if sym.0 == kind_variable() || sym.0 == kind_parameter() {
                    sym.2
                } else {
                    None
                },
                None => None,
            }),
    {
        match self.find(name) {
            Some((si, i)) => match &self.scopes[si][i] {
                SymbolInfo::Variable { type_ref, .. } => copy_opt_type_reference(type_ref),
                SymbolInfo::Parameter { type_ref, .. } => copy_opt_type_reference(type_ref),
                _ => None,
            },
            None => None,
        }
    }

    /// Every symbol with the index of its scope and its name, from the
    /// innermost scope outwards, each scope in the order of declaration.
    pub fn all_symbols_in_chain(&self) -> (r: Vec<(usize, String, SymbolInfo)>)
        requires
            self.wf(),
        ensures
            r@.map_values(|e: (usize, String, SymbolInfo)| (e.0 as int, e.1@, e.2@)) == chain(self@),
    {
        let ghost v = self@;
        let mut r: Vec<(usize, String, SymbolInfo)> = Vec::new();
        let mut s = self.scopes.len();
        assert(v.take(s as int) =~= v);
        assert(chain(v.take(s as int).skip(s as int)) =~= Seq::empty()) by {
            assert(v.take(s as int).skip(s as int) =~= Seq::<Seq<SymbolView>>::empty());
        }
        while s > 0
            invariant
                0 <= s <= v.len(),
                v == self@,
                v.len() == self.scopes@.len(),
                r@.map_values(|e: (usize, String, SymbolInfo)| (e.0 as int, e.1@, e.2@)) + chain(v.take(s as int))
                    == chain(v),
            decreases s,
        {
            let ghost before = r@.map_values(|e: (usize, String, SymbolInfo)| (e.0 as int, e.1@, e.2@));
            let scope = &self.scopes[s - 1];
            let ghost sv = scope_view(*scope);
            assert(sv == v[s - 1]);
            assert(v.take(s as int).last() == v[s - 1]);
            assert(v.take(s as int).drop_last() =~= v.take(s - 1));
            let mut i: usize = 0;
            while i < scope.len()
                invariant
                    0 <= i <= scope@.len(),
                    1 <= s <= v.len(),
                    sv == scope_view(*scope),
                    r@.map_values(|e: (usize, String, SymbolInfo)| (e.0 as int, e.1@, e.2@)) == before + entries(
                        sv.take(i as int),
                        s - 1,
                    ),
                decreases scope@.len() - i,
            {
                let sym = scope[i].copy();
                let name = string_from(sym.name());
                let ghost prev_r = r@.map_values(|e: (usize, String, SymbolInfo)| (e.0 as int, e.1@, e.2@));
                let ghost entry = ((s - 1) as int, name@, sym@);
                r.push((s - 1, name, sym));
                assert(r@.map_values(|e: (usize, String, SymbolInfo)| (e.0 as int, e.1@, e.2@)) =~= prev_r.push(entry));
                assert(sv.take(i + 1).drop_last() =~= sv.take(i as int));
                assert(sv.take(i + 1).last() == sv[i as int]);
                assert(sv[i as int] == scope@[i as int]@);
                assert(entries(sv.take(i + 1), s - 1) == entries(sv.take(i as int), s - 1).push(
                    ((s - 1) as int, sv[i as int].1, sv[i as int]),
                ));
                assert(r@.map_values(|e: (usize, String, SymbolInfo)| (e.0 as int, e.1@, e.2@)) =~= before + entries(
                    sv.take(i + 1),
                    s - 1,
                ));
                i = i + 1;
            }
            assert(sv.take(scope@.len() as int) =~= sv);
            s = s - 1;
        }
        r
    }

    /// Declares `sym` in the global scope, replacing a symbol of the same name.
    fn upsert_global(&mut self, sym: SymbolInfo)
        requires
            old(self).wf(),
        ensures
            final(self).wf(),
            final(self)@ == old(self)@.update(0, upsert(old(self)@[0], sym@)),
    {
        let ghost sv = sym@;
        let ghost before = self@;
        let found = find_in_scope(&self.scopes[0], sym.name());
        let mut global = self.scopes.remove(0);
        proof {
            lemma_index_of(before[0], sv.1);
        }
        match found {
            Some(i) => {
                global.remove(i);
                global.insert(i, sym);
            },
            None => {
                global.push(sym);
            },
        }
        assert(scope_view(global) =~= upsert(before[0], sv));
        self.scopes.insert(0, global);
        assert(self@ =~= before.update(0, upsert(before[0], sv)));
        proof {
            lemma_upsert_distinct(before[0], sv);
            assert forall|k: int| 0 <= k < self@.len() implies #[trigger] distinct_names(self@[k]) by {
                if k != 0 {
                    assert(self@[k] == before[k]);
                }
            }
        }
    }

    /// Declares the builtin functions in the global scope, replacing any
    /// symbol of the same name: `print(value)`, `sqrt(x: Number): Number`,
    /// `sin`, `cos` and `exp` like `sqrt`, `log(base: Number, value: Number): Number`
    /// and `rand(): Number`.
    pub fn declare_builtins(&mut self)
        requires
            old(self).wf(),
        ensures
            final(self).wf(),
            final(self)@.len() == old(self)@.len(),
            forall|k: int| 1 <= k < old(self)@.len() ==> #[trigger] final(self)@[k] == old(self)@[k],
            builtins_declared(final(self)@[0]),
            forall|i: int|
                0 <= i < old(self)@[0].len() && !is_builtin_name(#[trigger] old(self)@[0][i].1) ==> final(self)@[0][i]
                    == old(self)@[0][i],
            forall|i: int|
                old(self)@[0].len() <= i < final(self)@[0].len() ==> is_builtin_name(
                    #[trigger] final(self)@[0][i].1,
                ),
            final(self)@[0].len() <= old(self)@[0].len() + 7,
    {
        let ghost g0 = self@[0];
        let print_param = Parameter::new(string_from("value"), None, Span::default());
        let mut params: Vec<Parameter> = Vec::new();
        params.push(print_param);
        self.upsert_global(SymbolInfo::Function {
            name: string_from("print"),
            parameters: params,
            return_type: None,
            span: Span::default(),
        });
        let ghost g1 = self@[0];
        self.upsert_global(unary_number_function("sqrt"));
        let ghost g2 = self@[0];
        self.upsert_global(unary_number_function("sin"));
        let ghost g3 = self@[0];
        self.upsert_global(unary_number_function("cos"));
        let ghost g4 = self@[0];
        self.upsert_global(unary_number_function("exp"));
        let ghost g5 = self@[0];
        let mut log_params: Vec<Parameter> = Vec::new();
        log_params.push(Parameter::new(string_from("base"), Some(number_type_reference()), Span::default()));
        log_params.push(Parameter::new(string_from("value"), Some(number_type_reference()), Span::default()));
        self.upsert_global(SymbolInfo::Function {
            name: string_from("log"),
            parameters: log_params,
            return_type: Some(number_type_reference()),
            span: Span::default(),
        });
        let ghost g6 = self@[0];
        self.upsert_global(SymbolInfo::Function {
            name: string_from("rand"),
            parameters: Vec::new(),
            return_type: Some(number_type_reference()),
            span: Span::default(),
        });
        let ghost g7 = self@[0];
        proof {
            lemma_builtins(g0, g1, g2, g3, g4, g5, g6, g7);
        }
    }
}

impl Default for SymbolTable {
    fn default() -> (t: SymbolTable)
        ensures
            t.wf(),
            t@ == seq![Seq::<SymbolView>::empty()],
    {
        SymbolTable::new()
    }
}

/// The type reference `Number`.
fn number_type_reference() -> (t: TypeReference)
    ensures
        is_number_ref(Some(t)),
{
    TypeReference::new(string_from("Number"), Span::default())
}

/// A builtin function of one `Number` parameter `x` that returns a `Number`.
fn unary_number_function(name: &str) -> (s: SymbolInfo)
    ensures
        s@.0 == kind_function(),
        s@.1 == name@,
        unary_number_shape(s@),
{
    let mut params: Vec<Parameter> = Vec::new();
    params.push(Parameter::new(string_from("x"), Some(number_type_reference()), Span::default()));
    SymbolInfo::Function {
        name: string_from(name),
        parameters: params,
        return_type: Some(number_type_reference()),
        span: Span::default(),
    }
}

/// An annotation that names the type `Number`.
pub open spec fn is_number_ref(t: Option<TypeReference>) -> bool {
    t matches Some(r) && (r.kind matches crate::parser::ast::TypeReferenceKind::Named(n) && n@ == "Number"@)
}

pub open spec fn unary_number_shape(s: SymbolView) -> bool {
    &&& s.3.len() == 1
    &&& s.3[0].name@ == "x"@
    &&& is_number_ref(s.3[0].annotation)
    &&& is_number_ref(s.2)
}

pub open spec fn is_builtin_name(n: Seq<char>) -> bool {
    n == "print"@ || n == "sqrt"@ || n == "sin"@ || n == "cos"@ || n == "exp"@ || n == "log"@ || n == "rand"@
}

/// The function named `name` in the scope, if the scope declares one.
pub open spec fn declared_function(scope: Seq<SymbolView>, name: Seq<char>) -> bool {
    index_of(scope, name) >= 0 && scope[index_of(scope, name)].0 == kind_function()
}

/// The builtins as `declare_builtins` declares them.
pub open spec fn builtins_declared(g: Seq<SymbolView>) -> bool {
    &&& declared_function(g, "print"@)
    &&& {
        let p = g[index_of(g, "print"@)];
        p.3.len() == 1 && p.3[0].name@ == "value"@ && p.3[0].annotation is None && p.2 is None
    }
    &&& declared_function(g, "sqrt"@) && unary_number_shape(g[index_of(g, "sqrt"@)])
    &&& declared_function(g, "sin"@) && unary_number_shape(g[index_of(g, "sin"@)])
    &&& declared_function(g, "cos"@) && unary_number_shape(g[index_of(g, "cos"@)])
    &&& declared_function(g, "exp"@) && unary_number_shape(g[index_of(g, "exp"@)])
    &&& declared_function(g, "log"@)
    &&& {
        let l = g[index_of(g, "log"@)];
        &&& l.3.len() == 2
        &&& l.3[0].name@ == "base"@ && is_number_ref(l.3[0].annotation)
        &&& l.3[1].name@ == "value"@ && is_number_ref(l.3[1].annotation)
        &&& is_number_ref(l.2)
    }
    &&& declared_function(g, "rand"@)
    &&& {
        let r = g[index_of(g, "rand"@)];
        r.3.len() == 0 && is_number_ref(r.2)
    }
}

/// The entries `(scope index, name, symbol)` of one scope, in order.
pub open spec fn entries(scope: Seq<SymbolView>, si: int) -> Seq<(int, Seq<char>, SymbolView)>
    decreases scope.len(),
{
    if scope.len() == 0 {
        Seq::empty()
    } else {
        entries(scope.drop_last(), si).push((si, scope.last().1, scope.last()))
    }
}

/// Every entry from the innermost scope outwards.
pub open spec fn chain(scopes: Seq<Seq<SymbolView>>) -> Seq<(int, Seq<char>, SymbolView)>
    decreases scopes.len(),
{
    if scopes.len() == 0 {
        Seq::empty()
    } else {
        entries(scopes.last(), scopes.len() - 1) + chain(scopes.drop_last())
    }
}

pub proof fn lemma_upsert_distinct(scope: Seq<SymbolView>, sym: SymbolView)
    requires
        distinct_names(scope),
    ensures
        distinct_names(upsert(scope, sym)),
        index_of(upsert(scope, sym), sym.1) >= 0,
        upsert(scope, sym)[index_of(upsert(scope, sym), sym.1)] == sym,
        forall|n: Seq<char>| n != sym.1 ==> #[trigger] index_of(upsert(scope, sym), n) == index_of(scope, n),
        forall|i: int| 0 <= i < scope.len() && scope[i].1 != sym.1 ==> #[trigger] upsert(scope, sym)[i] == scope[i],
        upsert(scope, sym).len() <= scope.len() + 1,
        upsert(scope, sym).len() >= scope.len(),
        forall|i: int| 0 <= i < scope.len() ==> #[trigger] upsert(scope, sym)[i].1 == scope[i].1,
        forall|i: int| scope.len() <= i < upsert(scope, sym).len() ==> #[trigger] upsert(scope, sym)[i].1 == sym.1,
{
    let u = upsert(scope, sym);
    lemma_index_of(scope, sym.1);
    let pos = if index_of(scope, sym.1) >= 0 { index_of(scope, sym.1) } else { scope.len() as int };
    assert(u[pos] == sym);
    assert forall|a: int, b: int| 0 <= a < b < u.len() implies u[a].1 != u[b].1 by {
        if index_of(scope, sym.1) >= 0 {
            assert(u[a].1 == scope[a].1);
            assert(u[b].1 == scope[b].1);
        } else if b == scope.len() {
            assert(scope[a].1 != sym.1);
        }
    }
    lemma_index_unique(u, sym.1);
    lemma_index_of(u, sym.1);
    assert forall|n: Seq<char>| n != sym.1 implies #[trigger] index_of(u, n) == index_of(scope, n) by {
        lemma_index_of(scope, n);
        lemma_index_of(u, n);
        lemma_index_unique(scope, n);
        lemma_index_unique(u, n);
        if index_of(scope, n) >= 0 {
            assert(u[index_of(scope, n)].1 == n);
        }
        if index_of(u, n) >= 0 {
            if index_of(u, n) < scope.len() {
                assert(scope[index_of(u, n)].1 == n);
            }
        }
    }
    lemma_index_of(u, sym.1);
}

/// In a scope without repeated names, the index found is the only one.
pub proof fn lemma_index_unique(scope: Seq<SymbolView>, n: Seq<char>)
    requires
        distinct_names(scope),
    ensures
        forall|i: int| 0 <= i < scope.len() && scope[i].1 == n ==> index_of(scope, n) == i,
{
    lemma_index_of(scope, n);
    assert forall|i: int| 0 <= i < scope.len() && scope[i].1 == n implies index_of(scope, n) == i by {
        if index_of(scope, n) != i {
            if index_of(scope, n) < i {
                assert(scope[index_of(scope, n)].1 != scope[i].1);
            } else {
                assert(scope[i].1 != scope[index_of(scope, n)].1);
            }
        }
    }
}

proof fn lemma_builtins(
    g0: Seq<SymbolView>,
    g1: Seq<SymbolView>,
    g2: Seq<SymbolView>,
    g3: Seq<SymbolView>,
    g4: Seq<SymbolView>,
    g5: Seq<SymbolView>,
    g6: Seq<SymbolView>,
    g7: Seq<SymbolView>,
)
    requires
        distinct_names(g0),
        exists|s: SymbolView|
            s.1 == "print"@ && #[trigger] upsert(g0, s) == g1 && s.0 == kind_function() && s.3.len() == 1
                && s.3[0].name@ == "value"@ && s.3[0].annotation is None && s.2 is None,
        exists|s: SymbolView|
            s.1 == "sqrt"@ && #[trigger] upsert(g1, s) == g2 && s.0 == kind_function() && unary_number_shape(s),
        exists|s: SymbolView|
            s.1 == "sin"@ && #[trigger] upsert(g2, s) == g3 && s.0 == kind_function() && unary_number_shape(s),
        exists|s: SymbolView|
            s.1 == "cos"@ && #[trigger] upsert(g3, s) == g4 && s.0 == kind_function() && unary_number_shape(s),
        exists|s: SymbolView|
            s.1 == "exp"@ && #[trigger] upsert(g4, s) == g5 && s.0 == kind_function() && unary_number_shape(s),
        exists|s: SymbolView|
            s.1 == "log"@ && #[trigger] upsert(g5, s) == g6 && s.0 == kind_function() && s.3.len() == 2
                && s.3[0].name@ == "base"@ && is_number_ref(s.3[0].annotation) && s.3[1].name@ == "value"@
                && is_number_ref(s.3[1].annotation) && is_number_ref(s.2),
        exists|s: SymbolView|
            s.1 == "rand"@ && #[trigger] upsert(g6, s) == g7 && s.0 == kind_function() && s.3.len() == 0
                && is_number_ref(s.2),
    ensures
        distinct_names(g7),
        builtins_declared(g7),
        forall|i: int| 0 <= i < g0.len() && !is_builtin_name(#[trigger] g0[i].1) ==> g7[i] == g0[i],
        forall|i: int| g0.len() <= i < g7.len() ==> is_builtin_name(#[trigger] g7[i].1),
        g7.len() <= g0.len() + 7,
{
    let s1 = choose|s: SymbolView| s.1 == "print"@ && #[trigger] upsert(g0, s) == g1 && s.0 == kind_function()
        && s.3.len() == 1 && s.3[0].name@ == "value"@ && s.3[0].annotation is None && s.2 is None;
    let s2 = choose|s: SymbolView| s.1 == "sqrt"@ && #[trigger] upsert(g1, s) == g2 && s.0 == kind_function()
        && unary_number_shape(s);
    let s3 = choose|s: SymbolView| s.1 == "sin"@ && #[trigger] upsert(g2, s) == g3 && s.0 == kind_function()
        && unary_number_shape(s);
    let s4 = choose|s: SymbolView| s.1 == "cos"@ && #[trigger] upsert(g3, s) == g4 && s.0 == kind_function()
        && unary_number_shape(s);
    let s5 = choose|s: SymbolView| s.1 == "exp"@ && #[trigger] upsert(g4, s) == g5 && s.0 == kind_function()
        && unary_number_shape(s);
    let s6 = choose|s: SymbolView| s.1 == "log"@ && #[trigger] upsert(g5, s) == g6 && s.0 == kind_function()
        && s.3.len() == 2 && s.3[0].name@ == "base"@ && is_number_ref(s.3[0].annotation) && s.3[1].name@
        == "value"@ && is_number_ref(s.3[1].annotation) && is_number_ref(s.2);
    let s7 = choose|s: SymbolView| s.1 == "rand"@ && #[trigger] upsert(g6, s) == g7 && s.0 == kind_function()
        && s.3.len() == 0 && is_number_ref(s.2);
    lemma_upsert_distinct(g0, s1);
    lemma_upsert_distinct(g1, s2);
    lemma_upsert_distinct(g2, s3);
    lemma_upsert_distinct(g3, s4);
    lemma_upsert_distinct(g4, s5);
    lemma_upsert_distinct(g5, s6);
    lemma_upsert_distinct(g6, s7);
    assert(present(g1, s1));
    assert(present(g2, s2));
    assert(present(g3, s3));
    assert(present(g4, s4));
    assert(present(g5, s5));
    assert(present(g6, s6));
    assert(present(g7, s7));
    reveal_strlit("print");
    reveal_strlit("sqrt");
    reveal_strlit("sin");
    reveal_strlit("cos");
    reveal_strlit("exp");
    reveal_strlit("log");
    reveal_strlit("rand");
    assert forall|i: int| 0 <= i < g0.len() && !is_builtin_name(#[trigger] g0[i].1) implies g7[i] == g0[i] by {
        assert(g1[i] == g0[i]);
        assert(g2[i] == g1[i]);
        assert(g3[i] == g2[i]);
        assert(g4[i] == g3[i]);
        assert(g5[i] == g4[i]);
        assert(g6[i] == g5[i]);
    }
    assert forall|i: int| g0.len() <= i < g7.len() implies is_builtin_name(#[trigger] g7[i].1) by {
        if i < g6.len() {
            assert(g7[i].1 == g6[i].1);
            if i < g5.len() {
                assert(g6[i].1 == g5[i].1);
                if i < g4.len() {
                    assert(g5[i].1 == g4[i].1);
                    if i < g3.len() {
                        assert(g4[i].1 == g3[i].1);
                        if i < g2.len() {
                            assert(g3[i].1 == g2[i].1);
                            if i < g1.len() {
                                assert(g2[i].1 == g1[i].1);
                            }
                        }
                    }
                }
            }
        }
    }
    assert("print"@[0] == 'p' && "sqrt"@[0] == 's' && "sqrt"@[1] == 'q' && "sin"@[0] == 's' && "sin"@[1] == 'i'
        && "cos"@[0] == 'c' && "exp"@[0] == 'e' && "log"@[0] == 'l' && "rand"@[0] == 'r');
    lemma_present_after(g1, s2, s1);
    lemma_present_after(g2, s3, s1);
    lemma_present_after(g3, s4, s1);
    lemma_present_after(g4, s5, s1);
    lemma_present_after(g5, s6, s1);
    lemma_present_after(g6, s7, s1);
    lemma_present_after(g2, s3, s2);
    lemma_present_after(g3, s4, s2);
    lemma_present_after(g4, s5, s2);
    lemma_present_after(g5, s6, s2);
    lemma_present_after(g6, s7, s2);
    lemma_present_after(g3, s4, s3);
    lemma_present_after(g4, s5, s3);
    lemma_present_after(g5, s6, s3);
    lemma_present_after(g6, s7, s3);
    lemma_present_after(g4, s5, s4);
    lemma_present_after(g5, s6, s4);
    lemma_present_after(g6, s7, s4);
    lemma_present_after(g5, s6, s5);
    lemma_present_after(g6, s7, s5);
    lemma_present_after(g6, s7, s6);
}

/// The symbol a scope holds under a name.
pub open spec fn present(g: Seq<SymbolView>, sv: SymbolView) -> bool {
    index_of(g, sv.1) >= 0 && g[index_of(g, sv.1)] == sv
}

proof fn lemma_present_after(g: Seq<SymbolView>, sym: SymbolView, kept: SymbolView)
    requires
        distinct_names(g),
        present(g, kept),
        kept.1 != sym.1,
    ensures
        present(upsert(g, sym), kept),
{
    lemma_upsert_distinct(g, sym);
    lemma_index_of(g, kept.1);
}


/// A name declared successfully in the innermost scope is then found by
/// `lookup`, and it resolves to the declared symbol.
pub proof fn law_declare_then_lookup(scopes: Seq<Seq<SymbolView>>, sym: SymbolView)
    requires
        table_wf(scopes),
        index_of(scopes.last(), sym.1) < 0,
    ensures
        lookup_in(scopes.drop_last().push(scopes.last().push(sym)), sym.1) == Some(sym),
        index_of(scopes.drop_last().push(scopes.last().push(sym)).last(), sym.1) >= 0,
{
    let t = scopes.drop_last().push(scopes.last().push(sym));
    assert(t.last() == scopes.last().push(sym));
    assert(t.last().last() == sym);
}

/// A name can be declared once per scope: once a declaration succeeded, the
/// same name declared again in the same scope is refused.
pub proof fn law_redeclaration_refused(scopes: Seq<Seq<SymbolView>>, sym: SymbolView, again: SymbolView)
    requires
        table_wf(scopes),
        index_of(scopes.last(), sym.1) < 0,
        again.1 == sym.1,
    ensures
        index_of(scopes.drop_last().push(scopes.last().push(sym)).last(), again.1) >= 0,
{
    law_declare_then_lookup(scopes, sym);
}

/// Leaving a scope undoes entering it.
pub proof fn law_exit_undoes_enter(scopes: Seq<Seq<SymbolView>>)
    ensures
        scopes.push(Seq::<SymbolView>::empty()).drop_last() == scopes,
{
    assert(scopes.push(Seq::<SymbolView>::empty()).drop_last() =~= scopes);
}

/// An empty inner scope changes no lookup.
pub proof fn law_empty_scope_is_transparent(scopes: Seq<Seq<SymbolView>>, name: Seq<char>)
    ensures
        lookup_in(scopes.push(Seq::<SymbolView>::empty()), name) == lookup_in(scopes, name),
{
    assert(scopes.push(Seq::<SymbolView>::empty()).drop_last() =~= scopes);
}

/// A symbol declared in an inner scope shadows any outer symbol of that name,
/// and leaving the scope brings the outer one back.
pub proof fn law_shadowing(scopes: Seq<Seq<SymbolView>>, sym: SymbolView)
    ensures
        lookup_in(scopes.push(seq![sym]), sym.1) == Some(sym),
        scopes.push(seq![sym]).drop_last() == scopes,
{
    assert(seq![sym].last() == sym);
    assert(scopes.push(seq![sym]).drop_last() =~= scopes);
}

/// What the innermost scope declares is what `lookup` finds.
pub proof fn law_local_agrees_with_lookup(scopes: Seq<Seq<SymbolView>>, name: Seq<char>)
    requires
        scopes.len() >= 1,
        index_of(scopes.last(), name) >= 0,
    ensures
        lookup_in(scopes, name) == Some(scopes.last()[index_of(scopes.last(), name)]),
{
}

} // verus!
