use vstd::prelude::*;

use crate::text::{contains_str, copy_strings, join_strings, joined, push_str, str_equal, string_from, strs};

verus! {

/// What the code generator produces.
#[derive(Debug, Clone, Copy, PartialEq, Eq)]
pub enum CodegenTarget {
    LlvmIr,
    LlvmBitcode,
    Native,
}

/// The target triple used when none is given.
pub const DEFAULT_TARGET_TRIPLE: &'static str = "x86_64-unknown-linux-gnu";

/// The data layout used when none is given.
pub const DEFAULT_DATA_LAYOUT: &'static str = "e-m:e-p270:32:32-p271:32:32-p272:64:64-i64:64-f80:128-n8:16:32:64-S128";

/// The settings of one code generation run.
#[derive(Debug)]
pub struct CodegenContext {
    pub module_name: String,
    pub target: CodegenTarget,
    pub emit_comments: bool,
    pub target_triple: Option<String>,
    pub data_layout: Option<String>,
}

impl CodegenContext {
    /// A context that emits comments and uses the default triple and layout.
    pub fn new(module_name: String, target: CodegenTarget) -> (c: CodegenContext)
        ensures
            c.module_name@ == module_name@,
            c.target == target,
            c.emit_comments,
            c.target_triple is None,
            c.data_layout is None,
    {
        CodegenContext { module_name, target, emit_comments: true, target_triple: None, data_layout: None }
    }

    pub fn with_target_triple(self, triple: String) -> (c: CodegenContext)
        ensures
            c.module_name@ == self.module_name@,
            c.target == self.target,
            c.emit_comments == self.emit_comments,
            c.target_triple matches Some(t) && t@ == triple@,
            c.data_layout == self.data_layout,
    {
        let mut c = self;
        c.target_triple = Some(triple);
        c
    }

    pub fn with_data_layout(self, layout: String) -> (c: CodegenContext)
        ensures
            c.module_name@ == self.module_name@,
            c.target == self.target,
            c.emit_comments == self.emit_comments,
            c.target_triple == self.target_triple,
            c.data_layout matches Some(l) && l@ == layout@,
    {
        let mut c = self;
        c.data_layout = Some(layout);
        c
    }

    /// The target triple given, else the default one.
    pub fn resolved_target_triple(&self) -> (r: &str)
        ensures
            r@ == match self.target_triple {
                Some(t) => t@,
                None => DEFAULT_TARGET_TRIPLE@,
            },
    {
        match &self.target_triple {
            Some(t) => t.as_str(),
            None => DEFAULT_TARGET_TRIPLE,
        }
    }

    /// The data layout given, else the default one.
    pub fn resolved_data_layout(&self) -> (r: &str)
        ensures
            r@ == match self.data_layout {
                Some(l) => l@,
                None => DEFAULT_DATA_LAYOUT@,
            },
    {
        match &self.data_layout {
            Some(l) => l.as_str(),
            None => DEFAULT_DATA_LAYOUT,
        }
    }

    pub fn without_comments(self) -> (c: CodegenContext)
        ensures
            c.module_name@ == self.module_name@,
            c.target == self.target,
            !c.emit_comments,
            c.target_triple == self.target_triple,
            c.data_layout == self.data_layout,
    {
        let mut c = self;
        c.emit_comments = false;
        c
    }
}

/// A context for LLVM work; modules remember the context they were made in.
/// Contexts are told apart by their identifier, which whoever makes them
/// chooses unique.
#[derive(Debug, Clone, Copy)]
pub struct LlvmContext {
    id: u64,
}

impl LlvmContext {
    pub closed spec fn spec_id(&self) -> u64 {
        self.id
    }

    pub fn new(id: u64) -> (c: LlvmContext)
        ensures
            c.spec_id() == id,
    {
        LlvmContext { id }
    }

    pub fn id(&self) -> (r: u64)
        ensures
            r == self.spec_id(),
    {
        self.id
    }

    /// A context stays valid as long as it lives.
    pub fn is_valid(&self) -> (r: bool)
        ensures
            r,
    {
        true
    }
}

/// A function signature: name, return type, parameter types.
pub type SigView = (Seq<char>, Seq<char>, Seq<Seq<char>>);

/// The signatures of a list, as characters.
pub open spec fn sig_views(v: Seq<(String, String, Vec<String>)>) -> Seq<SigView> {
    v.map_values(|e: (String, String, Vec<String>)| (e.0@, e.1@, strs(e.2@)))
}

/// The prototypes of a list, as characters, with whether each is defined.
pub open spec fn proto_views(v: Seq<(String, String, Vec<String>, bool)>) -> Seq<(SigView, bool)> {
    v.map_values(|e: (String, String, Vec<String>, bool)| ((e.0@, e.1@, strs(e.2@)), e.3))
}

/// The index of the signature named `name`, or -1.
pub open spec fn sig_pos(es: Seq<SigView>, name: Seq<char>) -> int
    decreases es.len(),
{
    if es.len() == 0 {
        -1
    } else if es.last().0 == name {
        es.len() - 1
    } else {
        sig_pos(es.drop_last(), name)
    }
}

/// The index of the prototype named `name`, or -1.
pub open spec fn proto_index(ps: Seq<(SigView, bool)>, name: Seq<char>) -> int
    decreases ps.len(),
{
    if ps.len() == 0 {
        -1
    } else if ps.last().0.0 == name {
        ps.len() - 1
    } else {
        proto_index(ps.drop_last(), name)
    }
}

pub proof fn lemma_sig_pos(es: Seq<SigView>, name: Seq<char>)
    ensures
        -1 <= sig_pos(es, name) < es.len(),
        sig_pos(es, name) >= 0 ==> es[sig_pos(es, name)].0 == name,
        sig_pos(es, name) < 0 ==> forall|i: int| 0 <= i < es.len() ==> es[i].0 != name,
        forall|i: int| 0 <= i < es.len() && es[i].0 == name && (forall|j: int| 0 <= j < es.len() && j != i ==> es[j].0 != name) ==> sig_pos(es, name) == i,
    decreases es.len(),
{
    if es.len() > 0 {
        lemma_sig_pos(es.drop_last(), name);
        assert forall|i: int| 0 <= i < es.len() - 1 implies es[i] == es.drop_last()[i] by {}
    }
}

pub proof fn lemma_proto_index(ps: Seq<(SigView, bool)>, name: Seq<char>)
    ensures
        -1 <= proto_index(ps, name) < ps.len(),
        proto_index(ps, name) >= 0 ==> ps[proto_index(ps, name)].0.0 == name,
        proto_index(ps, name) < 0 ==> forall|i: int| 0 <= i < ps.len() ==> ps[i].0.0 != name,
        forall|i: int| 0 <= i < ps.len() && ps[i].0.0 == name && (forall|j: int| 0 <= j < ps.len() && j != i ==> ps[j].0.0 != name) ==> proto_index(ps, name) == i,
    decreases ps.len(),
{
    if ps.len() > 0 {
        lemma_proto_index(ps.drop_last(), name);
        assert forall|i: int| 0 <= i < ps.len() - 1 implies ps[i] == ps.drop_last()[i] by {}
    }
}

/// The message for an operation refused because the module is finalized.
pub open spec fn finalized_message() -> Seq<char> {
    "Module is finalized; cannot register new symbols"@
}

/// A message `prefix + name + suffix`.
pub open spec fn quoted(prefix: Seq<char>, name: Seq<char>, suffix: Seq<char>) -> Seq<char> {
    prefix + name + suffix
}

/// A module being built: its names, target settings and the functions it
/// defines, declares and takes from the runtime.
#[derive(Debug)]
pub struct LlvmModule {
    context_id: u64,
    name: String,
    target_triple: String,
    data_layout: String,
    symbols: Vec<(String, String, Vec<String>)>,
    prototypes: Vec<(String, String, Vec<String>, bool)>,
    runtime_decls: Vec<(String, String, Vec<String>)>,
    finalized: bool,
}

/// Builds `prefix + name + suffix`.
fn message_with(prefix: &str, name: &str, suffix: &str) -> (r: String)
    ensures
        r@ == quoted(prefix@, name@, suffix@),
{
    let mut r = string_from(prefix);
    push_str(&mut r, name);
    push_str(&mut r, suffix);
    r
}

/// Whether two lists of strings hold the same strings in the same order.
fn same_strings(a: &Vec<String>, b: &Vec<String>) -> (r: bool)
    ensures
        r == (strs(a@) == strs(b@)),
{
    if a.len() != b.len() {
        assert(strs(a@).len() != strs(b@).len());
        return false;
    }
    let mut k: usize = 0;
    while k < a.len()
        invariant
            a@.len() == b@.len(),
            0 <= k <= a@.len(),
            forall|j: int| 0 <= j < k ==> a@[j]@ == b@[j]@,
        decreases a@.len() - k,
    {
        if !str_equal(a[k].as_str(), b[k].as_str()) {
            assert(strs(a@)[k as int] != strs(b@)[k as int]);
            return false;
        }
        k = k + 1;
    }
    assert(strs(a@) =~= strs(b@));
    true
}

impl LlvmModule {
    pub closed spec fn spec_context_id(&self) -> u64 {
        self.context_id
    }

    pub closed spec fn spec_name(&self) -> Seq<char> {
        self.name@
    }

    pub closed spec fn spec_triple(&self) -> Seq<char> {
        self.target_triple@
    }

    pub closed spec fn spec_layout(&self) -> Seq<char> {
        self.data_layout@
    }

    /// The defined functions, in the order of definition.
    pub closed spec fn spec_symbols(&self) -> Seq<SigView> {
        sig_views(self.symbols@)
    }

    /// The declared prototypes, in the order of declaration, with whether a
    /// definition followed.
    pub closed spec fn spec_prototypes(&self) -> Seq<(SigView, bool)> {
        proto_views(self.prototypes@)
    }

    /// The runtime declarations, in the order of registration.
    pub closed spec fn spec_runtime(&self) -> Seq<SigView> {
        sig_views(self.runtime_decls@)
    }

    pub closed spec fn spec_finalized(&self) -> bool {
        self.finalized
    }

    /// Every name is declared once in each table; no runtime declaration has
    /// the name of a defined function; a prototype is marked defined exactly
    /// when a function of its name is defined.
    pub open spec fn wf(&self) -> bool {
        &&& forall|i: int, j: int|
            0 <= i < j < self.spec_symbols().len() ==> self.spec_symbols()[i].0 != self.spec_symbols()[j].0
        &&& forall|i: int, j: int|
            0 <= i < j < self.spec_runtime().len() ==> self.spec_runtime()[i].0 != self.spec_runtime()[j].0
        &&& forall|i: int, j: int|
            0 <= i < j < self.spec_prototypes().len() ==> self.spec_prototypes()[i].0.0
                != self.spec_prototypes()[j].0.0
        &&& forall|i: int|
            0 <= i < self.spec_runtime().len() ==> sig_pos(self.spec_symbols(), #[trigger] self.spec_runtime()[i].0) < 0
        &&& forall|i: int|
            0 <= i < self.spec_prototypes().len() ==> ((#[trigger] self.spec_prototypes()[i]).1 <==> sig_pos(
                self.spec_symbols(),
                self.spec_prototypes()[i].0.0,
            ) >= 0)
    }

    /// Whether the name is taken by a runtime declaration or a definition.
    pub open spec fn name_taken(&self, name: Seq<char>) -> bool {
        sig_pos(self.spec_runtime(), name) >= 0 || sig_pos(self.spec_symbols(), name) >= 0
    }

    /// A new, open module of the given context, with the default target triple
    /// and data layout and no symbols.
    pub fn new(context: &LlvmContext, name: String) -> (m: LlvmModule)
        ensures
            m.wf(),
            m.spec_context_id() == context.spec_id(),
            m.spec_name() == name@,
            m.spec_triple() == DEFAULT_TARGET_TRIPLE@,
            m.spec_layout() == DEFAULT_DATA_LAYOUT@,
            m.spec_symbols().len() == 0,
            m.spec_prototypes().len() == 0,
            m.spec_runtime().len() == 0,
            !m.spec_finalized(),
    {
        LlvmModule {
            context_id: context.id(),
            name,
            target_triple: string_from(DEFAULT_TARGET_TRIPLE),
            data_layout: string_from(DEFAULT_DATA_LAYOUT),
            symbols: Vec::new(),
            prototypes: Vec::new(),
            runtime_decls: Vec::new(),
            finalized: false,
        }
    }

    pub fn name(&self) -> (r: &str)
        ensures
            r@ == self.spec_name(),
    {
        self.name.as_str()
    }

    pub fn target_triple(&self) -> (r: &str)
        ensures
            r@ == self.spec_triple(),
    {
        self.target_triple.as_str()
    }

    /// Sets the target triple, unless the module is finalized.
    pub fn set_target_triple(&mut self, triple: String)
        ensures
            final(self).spec_triple() == if old(self).spec_finalized() {
                old(self).spec_triple()
            } else {
                triple@
            },
            final(self).spec_layout() == old(self).spec_layout(),
            final(self).spec_name() == old(self).spec_name(),
            final(self).spec_context_id() == old(self).spec_context_id(),
            final(self).spec_symbols() == old(self).spec_symbols(),
            final(self).spec_prototypes() == old(self).spec_prototypes(),
            final(self).spec_runtime() == old(self).spec_runtime(),
            final(self).spec_finalized() == old(self).spec_finalized(),
    {
        if !self.finalized {
            self.target_triple = triple;
        }
    }

    pub fn data_layout(&self) -> (r: &str)
        ensures
            r@ == self.spec_layout(),
    {
        self.data_layout.as_str()
    }

    /// Sets the data layout, unless the module is finalized.
    pub fn set_data_layout(&mut self, layout: String)
        ensures
            final(self).spec_layout() == if old(self).spec_finalized() {
                old(self).spec_layout()
            } else {
                layout@
            },
            final(self).spec_triple() == old(self).spec_triple(),
            final(self).spec_name() == old(self).spec_name(),
            final(self).spec_context_id() == old(self).spec_context_id(),
            final(self).spec_symbols() == old(self).spec_symbols(),
            final(self).spec_prototypes() == old(self).spec_prototypes(),
            final(self).spec_runtime() == old(self).spec_runtime(),
            final(self).spec_finalized() == old(self).spec_finalized(),
    {
        if !self.finalized {
            self.data_layout = layout;
        }
    }

    fn find_symbol(&self, name: &str) -> (r: Option<usize>)
        ensures
            match r {
                Some(i) => i as int == sig_pos(self.spec_symbols(), name@) && i < self.symbols@.len(),
                None => sig_pos(self.spec_symbols(), name@) == -1,
            },
    {
        let ghost es = self.spec_symbols();
        let mut i = self.symbols.len();
        assert(es.take(i as int) =~= es);
        while i > 0
            invariant
                0 <= i <= es.len(),
                es == self.spec_symbols(),
                es.len() == self.symbols@.len(),
                sig_pos(es, name@) == sig_pos(es.take(i as int), name@),
            decreases i,
        {
            assert(es.take(i as int).last() == es[i - 1]);
            if str_equal(self.symbols[i - 1].0.as_str(), name) {
                return Some(i - 1);
            }
            assert(es.take(i as int).drop_last() == es.take(i - 1));
            i = i - 1;
        }
        None
    }

    fn find_runtime(&self, name: &str) -> (r: Option<usize>)
        ensures
            match r {
                Some(i) => i as int == sig_pos(self.spec_runtime(), name@) && i < self.runtime_decls@.len(),
                None => sig_pos(self.spec_runtime(), name@) == -1,
            },
    {
        let ghost es = self.spec_runtime();
        let mut i = self.runtime_decls.len();
        assert(es.take(i as int) =~= es);
        while i > 0
            invariant
                0 <= i <= es.len(),
                es == self.spec_runtime(),
                es.len() == self.runtime_decls@.len(),
                sig_pos(es, name@) == sig_pos(es.take(i as int), name@),
            decreases i,
        {
            assert(es.take(i as int).last() == es[i - 1]);
            if str_equal(self.runtime_decls[i - 1].0.as_str(), name) {
                return Some(i - 1);
            }
            assert(es.take(i as int).drop_last() == es.take(i - 1));
            i = i - 1;
        }
        None
    }

    fn find_prototype(&self, name: &str) -> (r: Option<usize>)
        ensures
            match r {
                Some(i) => i as int == proto_index(self.spec_prototypes(), name@) && i < self.prototypes@.len(),
                None => proto_index(self.spec_prototypes(), name@) == -1,
            },
    {
        let ghost ps = self.spec_prototypes();
        let mut i = self.prototypes.len();
        assert(ps.take(i as int) =~= ps);
        while i > 0
            invariant
                0 <= i <= ps.len(),
                ps == self.spec_prototypes(),
                ps.len() == self.prototypes@.len(),
                proto_index(ps, name@) == proto_index(ps.take(i as int), name@),
            decreases i,
        {
            assert(ps.take(i as int).last() == ps[i - 1]);
            if str_equal(self.prototypes[i - 1].0.as_str(), name) {
                return Some(i - 1);
            }
            assert(ps.take(i as int).drop_last() == ps.take(i - 1));
            i = i - 1;
        }
        None
    }

    /// Defines a function, as `define_symbol` does; refused when the module
    /// is finalized.
    pub fn register_symbol(&mut self, name: String, return_type: String, param_types: Vec<String>) -> (r: Result<
        (),
        String,
    >)
        requires
            old(self).wf(),
        ensures
            final(self).wf(),
            define_outcome(*old(self), *final(self), name@, return_type@, strs(param_types@), r),
    {
        if self.finalized {
            return Err(string_from("Module is finalized; cannot register new symbols"));
        }
        self.define_symbol(name, return_type, param_types)
    }

    /// Declares the prototype of a function defined elsewhere.
    ///
    /// Refused when the module is finalized, when the name is a runtime
    /// declaration or a defined function, or when a prototype of that name
    /// has another signature; declaring the same prototype again changes
    /// nothing.
    pub fn declare_symbol(&mut self, name: String, return_type: String, param_types: Vec<String>) -> (r: Result<
        (),
        String,
    >)
        requires
            old(self).wf(),
        ensures
            final(self).wf(),
            declare_outcome(*old(self), *final(self), name@, return_type@, strs(param_types@), r),
    {
        if self.finalized {
            return Err(string_from("Module is finalized; cannot register new symbols"));
        }
        if self.find_runtime(name.as_str()).is_some() || self.find_symbol(name.as_str()).is_some() {
            return Err(message_with("Symbol '", name.as_str(), "' already exists in module"));
        }
        match self.find_prototype(name.as_str()) {
            Some(i) => {
                if !str_equal(self.prototypes[i].1.as_str(), return_type.as_str()) || !same_strings(
                    &self.prototypes[i].2,
                    &param_types,
                ) {
                    return Err(message_with("Conflicting prototype for symbol '", name.as_str(), "'"));
                }
                Ok(())
            },
            None => {
                let ghost old_ps = self.spec_prototypes();
                let ghost sig = (name@, return_type@, strs(param_types@));
                self.prototypes.push((name, return_type, param_types, false));
                proof {
                    let ps = self.spec_prototypes();
                    assert(ps == old_ps.push((sig, false)));
                    lemma_proto_index(old_ps, sig.0);
                    assert forall|i: int, j: int| 0 <= i < j < ps.len() implies ps[i].0.0 != ps[j].0.0 by {
                        if j < old_ps.len() {
                            assert(ps[i] == old_ps[i] && ps[j] == old_ps[j]);
                        } else {
                            assert(ps[i] == old_ps[i]);
                        }
                    }
                    assert forall|i: int| 0 <= i < ps.len() implies ((#[trigger] ps[i]).1 <==> sig_pos(
                        self.spec_symbols(),
                        ps[i].0.0,
                    ) >= 0) by {
                        if i < old_ps.len() {
                            assert(ps[i] == old_ps[i]);
                        }
                    }
                }
                Ok(())
            },
        }
    }

    /// Defines a function.
    ///
    /// Refused when the module is finalized, when the name is a runtime
    /// declaration or already defined, or when a prototype of that name has
    /// another signature; a matching prototype is marked defined.
    pub fn define_symbol(&mut self, name: String, return_type: String, param_types: Vec<String>) -> (r: Result<
        (),
        String,
    >)
        requires
            old(self).wf(),
        ensures
            final(self).wf(),
            define_outcome(*old(self), *final(self), name@, return_type@, strs(param_types@), r),
    {
        if self.finalized {
            return Err(string_from("Module is finalized; cannot register new symbols"));
        }
        if self.find_runtime(name.as_str()).is_some() {
            return Err(message_with("Symbol '", name.as_str(), "' conflicts with runtime declaration"));
        }
        if self.find_symbol(name.as_str()).is_some() {
            return Err(message_with("Symbol '", name.as_str(), "' already defined in module"));
        }
        let ghost old_ps = self.spec_prototypes();
        let ghost old_syms = self.spec_symbols();
        let ghost sig = (name@, return_type@, strs(param_types@));
        proof {
            lemma_proto_index(old_ps, name@);
            lemma_sig_pos(old_syms, name@);
            lemma_sig_pos(self.spec_runtime(), name@);
        }
        match self.find_prototype(name.as_str()) {
            Some(i) => {
                if !str_equal(self.prototypes[i].1.as_str(), return_type.as_str()) || !same_strings(
                    &self.prototypes[i].2,
                    &param_types,
                ) {
                    return Err(message_with("Conflicting definition for symbol '", name.as_str(), "'"));
                }
                let entry = (self.prototypes[i].0.clone(), self.prototypes[i].1.clone(), copy_strings(&self.prototypes[i].2), true);
                self.prototypes.set(i, entry);
                assert(self.spec_prototypes() == old_ps.update(i as int, (old_ps[i as int].0, true)));
            },
            None => {},
        }
        let ghost mid_ps = self.spec_prototypes();
        self.symbols.push((name, return_type, param_types));
        proof {
            let syms = self.spec_symbols();
            let ps = self.spec_prototypes();
            assert(syms == old_syms.push(sig));
            assert(syms.drop_last() == old_syms);
            assert forall|i: int, j: int| 0 <= i < j < syms.len() implies syms[i].0 != syms[j].0 by {
                if j < old_syms.len() {
                    assert(syms[i] == old_syms[i] && syms[j] == old_syms[j]);
                } else {
                    assert(syms[i] == old_syms[i]);
                }
            }
            assert forall|n: Seq<char>| n != sig.0 implies #[trigger] sig_pos(syms, n) == sig_pos(old_syms, n) by {}
            assert(sig_pos(syms, sig.0) == old_syms.len());
            assert forall|i: int| 0 <= i < self.spec_runtime().len() implies sig_pos(
                syms,
                #[trigger] self.spec_runtime()[i].0,
            ) < 0 by {
                assert(self.spec_runtime()[i].0 != sig.0);
                assert(sig_pos(syms, self.spec_runtime()[i].0) == sig_pos(old_syms, self.spec_runtime()[i].0));
            }
            assert forall|i: int| 0 <= i < ps.len() implies ((#[trigger] ps[i]).1 <==> sig_pos(
                syms,
                ps[i].0.0,
            ) >= 0) by {
                if ps[i].0.0 == sig.0 {
                    assert(proto_index(old_ps, sig.0) >= 0);
                    lemma_proto_index(old_ps, sig.0);
                    assert(i == proto_index(old_ps, sig.0));
                } else {
                    assert(sig_pos(syms, ps[i].0.0) == sig_pos(old_syms, ps[i].0.0));
                    assert(ps[i] == old_ps[i]);
                }
            }
        }
        Ok(())
    }

    /// Registers a function that the runtime provides.
    ///
    /// Refused when the module is finalized, or when the name is a runtime
    /// declaration or a defined function.
    pub fn register_runtime_decl(&mut self, name: String, return_type: String, param_types: Vec<String>) -> (r:
        Result<(), String>)
        requires
            old(self).wf(),
        ensures
            final(self).wf(),
            runtime_outcome(*old(self), *final(self), name@, return_type@, strs(param_types@), r),
    {
        if self.finalized {
            return Err(string_from("Module is finalized; cannot register new runtime declarations"));
        }
        if self.find_runtime(name.as_str()).is_some() || self.find_symbol(name.as_str()).is_some() {
            return Err(message_with("Symbol '", name.as_str(), "' already exists in module"));
        }
        let ghost old_rt = self.spec_runtime();
        let ghost before = *self;
        let ghost sig = (name@, return_type@, strs(param_types@));
        proof {
            lemma_sig_pos(old_rt, name@);
        }
        self.runtime_decls.push((name, return_type, param_types));
        proof {
            assert(self.spec_symbols() == before.spec_symbols());
            assert(self.spec_prototypes() == before.spec_prototypes());
            let rt = self.spec_runtime();
            assert(rt == old_rt.push(sig));
            assert forall|i: int, j: int| 0 <= i < j < rt.len() implies rt[i].0 != rt[j].0 by {
                if j < old_rt.len() {
                    assert(rt[i] == old_rt[i] && rt[j] == old_rt[j]);
                } else {
                    assert(rt[i] == old_rt[i]);
                }
            }
            assert forall|i: int| 0 <= i < rt.len() implies sig_pos(
                self.spec_symbols(),
                #[trigger] rt[i].0,
            ) < 0 by {
                if i < old_rt.len() {
                    assert(rt[i] == old_rt[i]);
                }
            }
        }
        Ok(())
    }

    /// The runtime declarations, in the order of registration.
    pub fn runtime_decls(&self) -> (r: &Vec<(String, String, Vec<String>)>)
        ensures
            sig_views(r@) == self.spec_runtime(),
    {
        &self.runtime_decls
    }

    /// The prototypes, in the order of declaration, with whether each is defined.
    pub fn prototypes(&self) -> (r: &Vec<(String, String, Vec<String>, bool)>)
        ensures
            proto_views(r@) == self.spec_prototypes(),
    {
        &self.prototypes
    }

    /// Registers the runtime functions that lowering relies on:
    /// `print_number`, `print_string`, `print_bool`, `hulk_alloc`, `hulk_free`
    /// and `hulk_strlen` (those that cannot be registered are left out).
    pub fn add_default_runtime_decls(&mut self)
        requires
            old(self).wf(),
        ensures
            final(self).wf(),
            final(self).spec_symbols() == old(self).spec_symbols(),
            final(self).spec_prototypes() == old(self).spec_prototypes(),
            final(self).spec_finalized() == old(self).spec_finalized(),
            final(self).spec_name() == old(self).spec_name(),
            final(self).spec_context_id() == old(self).spec_context_id(),
            final(self).spec_triple() == old(self).spec_triple(),
            final(self).spec_layout() == old(self).spec_layout(),
            old(self).spec_finalized() ==> final(self).spec_runtime() == old(self).spec_runtime(),
            !old(self).spec_finalized() ==> final(self).spec_runtime() == defaults_added(
                old(self).spec_symbols(),
                old(self).spec_runtime(),
                6,
            ),
            old(self).spec_runtime().len() == 0 && old(self).spec_symbols().len() == 0 && !old(self).spec_finalized()
                ==> final(self).spec_runtime() == default_runtime(),
    {
        let ghost sym = old(self).spec_symbols();
        let ghost rt0 = old(self).spec_runtime();
        let ghost fin = old(self).spec_finalized();
        proof {
            reveal_strlit("double");
            reveal_strlit("hulk_alloc");
            reveal_strlit("hulk_free");
            reveal_strlit("hulk_strlen");
            reveal_strlit("i1");
            reveal_strlit("i64");
            reveal_strlit("print_bool");
            reveal_strlit("print_number");
            reveal_strlit("print_string");
            reveal_strlit("ptr");
            reveal_strlit("void");
        }
        proof {
            lemma_default_names_distinct();
        }
        let ghost fresh = old(self).spec_runtime().len() == 0 && old(self).spec_symbols().len() == 0
            && !old(self).spec_finalized();
        let mut p0: Vec<String> = Vec::new();
        p0.push(string_from("double"));
        let ghost before0 = self.spec_runtime();
        let _ = self.register_runtime_decl(string_from("print_number"), string_from("double"), p0);
        proof {
            assert(strs(p0@) =~= seq!["double"@]);
            assert(default_runtime()[0] == ("print_number"@, "double"@, seq!["double"@]));
            assert(defaults_added(sym, rt0, 0) == rt0);
            assert(before0 == rt0);
            assert(!fin ==> self.spec_runtime() == defaults_added(sym, rt0, 1));
            assert(fin ==> self.spec_runtime() == rt0);
            if fresh {
                assert(strs(p0@) == seq!["double"@]);
                assert(before0 =~= default_runtime().take(0));
                assert forall|i: int| 0 <= i < before0.len() implies before0[i].0 != "print_number"@ by {}
                lemma_sig_pos(before0, "print_number"@);
                lemma_sig_pos(self.spec_symbols(), "print_number"@);
                assert(self.spec_runtime() =~= default_runtime().take(1));
            }
        }
        let mut p1: Vec<String> = Vec::new();
        p1.push(string_from("ptr"));
        let ghost before1 = self.spec_runtime();
        let _ = self.register_runtime_decl(string_from("print_string"), string_from("ptr"), p1);
        proof {
            assert(strs(p1@) =~= seq!["ptr"@]);
            assert(default_runtime()[1] == ("print_string"@, "ptr"@, seq!["ptr"@]));
            assert(!fin ==> self.spec_runtime() == defaults_added(sym, rt0, 2));
            assert(fin ==> self.spec_runtime() == rt0);
            if fresh {
                assert(strs(p1@) == seq!["ptr"@]);
                assert(before1 =~= default_runtime().take(1));
                assert forall|i: int| 0 <= i < before1.len() implies before1[i].0 != "print_string"@ by {}
                lemma_sig_pos(before1, "print_string"@);
                lemma_sig_pos(self.spec_symbols(), "print_string"@);
                assert(self.spec_runtime() =~= default_runtime().take(2));
            }
        }
        let mut p2: Vec<String> = Vec::new();
        p2.push(string_from("i1"));
        let ghost before2 = self.spec_runtime();
        let _ = self.register_runtime_decl(string_from("print_bool"), string_from("i1"), p2);
        proof {
            assert(strs(p2@) =~= seq!["i1"@]);
            assert(default_runtime()[2] == ("print_bool"@, "i1"@, seq!["i1"@]));
            assert(!fin ==> self.spec_runtime() == defaults_added(sym, rt0, 3));
            assert(fin ==> self.spec_runtime() == rt0);
            if fresh {
                assert(strs(p2@) == seq!["i1"@]);
                assert(before2 =~= default_runtime().take(2));
                assert forall|i: int| 0 <= i < before2.len() implies before2[i].0 != "print_bool"@ by {}
                lemma_sig_pos(before2, "print_bool"@);
                lemma_sig_pos(self.spec_symbols(), "print_bool"@);
                assert(self.spec_runtime() =~= default_runtime().take(3));
            }
        }
        let mut p3: Vec<String> = Vec::new();
        p3.push(string_from("i64"));
        let ghost before3 = self.spec_runtime();
        let _ = self.register_runtime_decl(string_from("hulk_alloc"), string_from("ptr"), p3);
        proof {
            assert(strs(p3@) =~= seq!["i64"@]);
            assert(default_runtime()[3] == ("hulk_alloc"@, "ptr"@, seq!["i64"@]));
            assert(!fin ==> self.spec_runtime() == defaults_added(sym, rt0, 4));
            assert(fin ==> self.spec_runtime() == rt0);
            if fresh {
                assert(strs(p3@) == seq!["i64"@]);
                assert(before3 =~= default_runtime().take(3));
                assert forall|i: int| 0 <= i < before3.len() implies before3[i].0 != "hulk_alloc"@ by {}
                lemma_sig_pos(before3, "hulk_alloc"@);
                lemma_sig_pos(self.spec_symbols(), "hulk_alloc"@);
                assert(self.spec_runtime() =~= default_runtime().take(4));
            }
        }
        let mut p4: Vec<String> = Vec::new();
        p4.push(string_from("ptr"));
        let ghost before4 = self.spec_runtime();
        let _ = self.register_runtime_decl(string_from("hulk_free"), string_from("void"), p4);
        proof {
            assert(strs(p4@) =~= seq!["ptr"@]);
            assert(default_runtime()[4] == ("hulk_free"@, "void"@, seq!["ptr"@]));
            assert(!fin ==> self.spec_runtime() == defaults_added(sym, rt0, 5));
            assert(fin ==> self.spec_runtime() == rt0);
            if fresh {
                assert(strs(p4@) == seq!["ptr"@]);
                assert(before4 =~= default_runtime().take(4));
                assert forall|i: int| 0 <= i < before4.len() implies before4[i].0 != "hulk_free"@ by {}
                lemma_sig_pos(before4, "hulk_free"@);
                lemma_sig_pos(self.spec_symbols(), "hulk_free"@);
                assert(self.spec_runtime() =~= default_runtime().take(5));
            }
        }
        let mut p5: Vec<String> = Vec::new();
        p5.push(string_from("ptr"));
        let ghost before5 = self.spec_runtime();
        let _ = self.register_runtime_decl(string_from("hulk_strlen"), string_from("i64"), p5);
        proof {
            assert(strs(p5@) =~= seq!["ptr"@]);
            assert(default_runtime()[5] == ("hulk_strlen"@, "i64"@, seq!["ptr"@]));
            assert(!fin ==> self.spec_runtime() == defaults_added(sym, rt0, 6));
            assert(fin ==> self.spec_runtime() == rt0);
            if fresh {
                assert(strs(p5@) == seq!["ptr"@]);
                assert(before5 =~= default_runtime().take(5));
                assert forall|i: int| 0 <= i < before5.len() implies before5[i].0 != "hulk_strlen"@ by {}
                lemma_sig_pos(before5, "hulk_strlen"@);
                lemma_sig_pos(self.spec_symbols(), "hulk_strlen"@);
                assert(self.spec_runtime() =~= default_runtime().take(6));
            }
        }
        proof {
            if fresh {
                assert(default_runtime().take(6) =~= default_runtime());
            }
        }
    }

    /// The defined function named `name`: its return type and parameter types.
    pub fn lookup_symbol(&self, name: &str) -> (r: Option<(&str, &[String])>)
        ensures
            match r {
                Some((ret, params)) => sig_pos(self.spec_symbols(), name@) >= 0 && ret@ == self.spec_symbols()[sig_pos(
                    self.spec_symbols(),
                    name@,
                )].1 && strs(params@) == self.spec_symbols()[sig_pos(self.spec_symbols(), name@)].2,
                None => sig_pos(self.spec_symbols(), name@) == -1,
            },
    {
        match self.find_symbol(name) {
            Some(i) => Some((self.symbols[i].1.as_str(), self.symbols[i].2.as_slice())),
            None => None,
        }
    }

    /// The defined functions, in the order of definition.
    pub fn symbols(&self) -> (r: &Vec<(String, String, Vec<String>)>)
        ensures
            sig_views(r@) == self.spec_symbols(),
    {
        &self.symbols
    }

    /// Closes the module to new symbols and settings.
    pub fn finalize(&mut self)
        requires
            old(self).wf(),
        ensures
            final(self).wf(),
            final(self).spec_finalized(),
            final(self).spec_symbols() == old(self).spec_symbols(),
            final(self).spec_prototypes() == old(self).spec_prototypes(),
            final(self).spec_runtime() == old(self).spec_runtime(),
            final(self).spec_name() == old(self).spec_name(),
            final(self).spec_triple() == old(self).spec_triple(),
            final(self).spec_layout() == old(self).spec_layout(),
            final(self).spec_context_id() == old(self).spec_context_id(),
    {
        let ghost before = *self;
        self.finalized = true;
        assert(self.spec_symbols() == before.spec_symbols());
        assert(self.spec_prototypes() == before.spec_prototypes());
        assert(self.spec_runtime() == before.spec_runtime());
    }

    pub fn is_finalized(&self) -> (r: bool)
        ensures
            r == self.spec_finalized(),
    {
        self.finalized
    }

    /// Refused with `Module context mismatch` unless the module was made in
    /// `context`.
    pub fn verify_context(&self, context: &LlvmContext) -> (r: Result<(), String>)
        ensures
            match r {
                Ok(_) => self.spec_context_id() == context.spec_id(),
                Err(m) => self.spec_context_id() != context.spec_id() && m@ == "Module context mismatch"@,
            },
    {
        if self.context_id != context.id() {
            return Err(string_from("Module context mismatch"));
        }
        Ok(())
    }
}

/// The runtime functions that `add_default_runtime_decls` registers in a new module.
pub open spec fn default_runtime() -> Seq<SigView> {
    seq![
        ("print_number"@, "double"@, seq!["double"@]),
        ("print_string"@, "ptr"@, seq!["ptr"@]),
        ("print_bool"@, "i1"@, seq!["i1"@]),
        ("hulk_alloc"@, "ptr"@, seq!["i64"@]),
        ("hulk_free"@, "void"@, seq!["ptr"@]),
        ("hulk_strlen"@, "i64"@, seq!["ptr"@]),
    ]
}

/// The runtime declarations `rt` with `d` added, unless its name is taken
/// by a runtime declaration or by one of the defined functions `symbols`.
pub open spec fn add_default(symbols: Seq<SigView>, rt: Seq<SigView>, d: SigView) -> Seq<SigView> {
    if sig_pos(rt, d.0) >= 0 || sig_pos(symbols, d.0) >= 0 {
        rt
    } else {
        rt.push(d)
    }
}

/// The runtime declarations `rt` with the first `k` default runtime
/// functions added in order, each unless its name is taken.
pub open spec fn defaults_added(symbols: Seq<SigView>, rt: Seq<SigView>, k: nat) -> Seq<SigView>
    decreases k,
{
    if k == 0 {
        rt
    } else {
        add_default(symbols, defaults_added(symbols, rt, (k - 1) as nat), default_runtime()[k - 1])
    }
}

/// The runtime functions that `add_default_runtime_decls` registers have
/// distinct names.
proof fn lemma_default_names_distinct()
    ensures
        forall|i: int, j: int| 0 <= i < j < 6 ==> default_runtime()[i].0 != default_runtime()[j].0,
{
    reveal_strlit("double");
    reveal_strlit("hulk_alloc");
    reveal_strlit("hulk_free");
    reveal_strlit("hulk_strlen");
    reveal_strlit("i1");
    reveal_strlit("i64");
    reveal_strlit("print_bool");
    reveal_strlit("print_number");
    reveal_strlit("print_string");
    reveal_strlit("ptr");
    reveal_strlit("void");
    let d = default_runtime();
    assert(d[0].0 == "print_number"@);
    assert(d[1].0 == "print_string"@);
    assert(d[2].0 == "print_bool"@);
    assert(d[3].0 == "hulk_alloc"@);
    assert(d[4].0 == "hulk_free"@);
    assert(d[5].0 == "hulk_strlen"@);
    assert("print_number"@[6] != "print_string"@[6]);
    assert("print_bool"@[0] != "hulk_alloc"@[0]);
    assert forall|i: int, j: int| 0 <= i < j < 6 implies d[i].0 != d[j].0 by {
        assert(i == 0 || i == 1 || i == 2 || i == 3 || i == 4);
        assert(j == 1 || j == 2 || j == 3 || j == 4 || j == 5);
    }
}

/// The module is unchanged.
pub open spec fn unchanged(a: LlvmModule, b: LlvmModule) -> bool {
    &&& b.spec_symbols() == a.spec_symbols()
    &&& b.spec_prototypes() == a.spec_prototypes()
    &&& b.spec_runtime() == a.spec_runtime()
    &&& b.spec_finalized() == a.spec_finalized()
    &&& b.spec_name() == a.spec_name()
    &&& b.spec_triple() == a.spec_triple()
    &&& b.spec_layout() == a.spec_layout()
    &&& b.spec_context_id() == a.spec_context_id()
}

/// The module is unchanged but for its tables.
pub open spec fn same_settings(a: LlvmModule, b: LlvmModule) -> bool {
    &&& b.spec_finalized() == a.spec_finalized()
    &&& b.spec_name() == a.spec_name()
    &&& b.spec_triple() == a.spec_triple()
    &&& b.spec_layout() == a.spec_layout()
    &&& b.spec_context_id() == a.spec_context_id()
}

/// What defining `(name, ret, params)` in `a` gives: `b` after, `r` the result.
pub open spec fn define_outcome(
    a: LlvmModule,
    b: LlvmModule,
    name: Seq<char>,
    ret: Seq<char>,
    params: Seq<Seq<char>>,
    r: Result<(), String>,
) -> bool {
    let pi = proto_index(a.spec_prototypes(), name);
    if a.spec_finalized() {
        unchanged(a, b) && (r matches Err(m) && m@ == finalized_message())
    } else if sig_pos(a.spec_runtime(), name) >= 0 {
        unchanged(a, b) && (r matches Err(m) && m@ == quoted("Symbol '"@, name, "' conflicts with runtime declaration"@))
    } else if sig_pos(a.spec_symbols(), name) >= 0 {
        unchanged(a, b) && (r matches Err(m) && m@ == quoted("Symbol '"@, name, "' already defined in module"@))
    } else if pi >= 0 && (a.spec_prototypes()[pi].0.1 != ret || a.spec_prototypes()[pi].0.2 != params) {
        unchanged(a, b) && (r matches Err(m) && m@ == quoted("Conflicting definition for symbol '"@, name, "'"@))
    } else {
        &&& r is Ok
        &&& same_settings(a, b)
        &&& b.spec_runtime() == a.spec_runtime()
        &&& b.spec_symbols() == a.spec_symbols().push((name, ret, params))
        &&& b.spec_prototypes() == if pi >= 0 {
            a.spec_prototypes().update(pi, (a.spec_prototypes()[pi].0, true))
        } else {
            a.spec_prototypes()
        }
    }
}

/// What declaring the prototype `(name, ret, params)` in `a` gives.
pub open spec fn declare_outcome(
    a: LlvmModule,
    b: LlvmModule,
    name: Seq<char>,
    ret: Seq<char>,
    params: Seq<Seq<char>>,
    r: Result<(), String>,
) -> bool {
    let pi = proto_index(a.spec_prototypes(), name);
    if a.spec_finalized() {
        unchanged(a, b) && (r matches Err(m) && m@ == finalized_message())
    } else if a.name_taken(name) {
        unchanged(a, b) && (r matches Err(m) && m@ == quoted("Symbol '"@, name, "' already exists in module"@))
    } else if pi >= 0 {
        unchanged(a, b) && if a.spec_prototypes()[pi].0.1 != ret || a.spec_prototypes()[pi].0.2 != params {
            r matches Err(m) && m@ == quoted("Conflicting prototype for symbol '"@, name, "'"@)
        } else {
            r is Ok
        }
    } else {
        &&& r is Ok
        &&& same_settings(a, b)
        &&& b.spec_runtime() == a.spec_runtime()
        &&& b.spec_symbols() == a.spec_symbols()
        &&& b.spec_prototypes() == a.spec_prototypes().push(((name, ret, params), false))
    }
}

/// What registering the runtime function `(name, ret, params)` in `a` gives.
pub open spec fn runtime_outcome(
    a: LlvmModule,
    b: LlvmModule,
    name: Seq<char>,
    ret: Seq<char>,
    params: Seq<Seq<char>>,
    r: Result<(), String>,
) -> bool {
    if a.spec_finalized() {
        unchanged(a, b) && (r matches Err(m) && m@ == "Module is finalized; cannot register new runtime declarations"@)
    } else if a.name_taken(name) {
        unchanged(a, b) && (r matches Err(m) && m@ == quoted("Symbol '"@, name, "' already exists in module"@))
    } else {
        &&& r is Ok
        &&& same_settings(a, b)
        &&& b.spec_symbols() == a.spec_symbols()
        &&& b.spec_prototypes() == a.spec_prototypes()
        &&& b.spec_runtime() == a.spec_runtime().push((name, ret, params))
    }
}


/// The text of a finished function: `define {}@NAME(...) {`, the instructions
/// one per line, and `}`.
pub open spec fn function_text(name: Seq<char>, instructions: Seq<Seq<char>>) -> Seq<char> {
    "define {}@"@ + name + "(...) {\n"@ + joined(instructions, "\n"@) + "\n}\n"@
}

/// Accumulates the instructions of the function being built in a module.
#[derive(Debug)]
pub struct LlvmBuilder {
    module: LlvmModule,
    current_function: Option<String>,
    current_block: Option<String>,
    instructions: Vec<String>,
}

impl LlvmBuilder {
    pub closed spec fn spec_module(&self) -> LlvmModule {
        self.module
    }

    pub closed spec fn spec_function(&self) -> Option<Seq<char>> {
        match self.current_function {
            Some(f) => Some(f@),
            None => None,
        }
    }

    pub closed spec fn spec_block(&self) -> Option<Seq<char>> {
        match self.current_block {
            Some(b) => Some(b@),
            None => None,
        }
    }

    pub closed spec fn spec_instructions(&self) -> Seq<Seq<char>> {
        strs(self.instructions@)
    }

    /// A builder with no function in progress.
    pub fn new(module: LlvmModule) -> (b: LlvmBuilder)
        ensures
            b.spec_module() == module,
            b.spec_function() is None,
            b.spec_block() is None,
            b.spec_instructions().len() == 0,
    {
        LlvmBuilder { module, current_function: None, current_block: None, instructions: Vec::new() }
    }

    pub fn module(&self) -> (r: &LlvmModule)
        ensures
            *r == self.spec_module(),
    {
        &self.module
    }

    pub fn module_mut(&mut self) -> (r: &mut LlvmModule)
        ensures
            *r == old(self).spec_module(),
            final(self).spec_module() == *final(r),
            final(self).spec_function() == old(self).spec_function(),
            final(self).spec_block() == old(self).spec_block(),
            final(self).spec_instructions() == old(self).spec_instructions(),
    {
        &mut self.module
    }

    /// Starts the function `name`, defining it in the module.
    ///
    /// Refused when a function is in progress, or when the module refuses the
    /// definition (its message is returned); the builder is then unchanged.
    pub fn begin_function(&mut self, name: String, return_type: String, param_types: Vec<String>) -> (r: Result<
        (),
        String,
    >)
        requires
            old(self).spec_module().wf(),
        ensures
            final(self).spec_module().wf(),
            if old(self).spec_function() is Some {
                (r matches Err(m) && m@ == "Cannot begin a function while another is in progress"@)
                    && final(self).spec_module() == old(self).spec_module()
                    && final(self).spec_function() == old(self).spec_function()
                    && final(self).spec_block() == old(self).spec_block()
                    && final(self).spec_instructions() == old(self).spec_instructions()
            } else {
                &&& define_outcome(old(self).spec_module(), final(self).spec_module(), name@, return_type@, strs(param_types@), r)
                &&& r is Ok ==> final(self).spec_function() == Some(name@) && final(self).spec_block() is None
                    && final(self).spec_instructions().len() == 0
                &&& r is Err ==> final(self).spec_function() == old(self).spec_function()
                    && final(self).spec_block() == old(self).spec_block()
                    && final(self).spec_instructions() == old(self).spec_instructions()
            },
    {
        if self.current_function.is_some() {
            return Err(string_from("Cannot begin a function while another is in progress"));
        }
        let registered = self.module.register_symbol(name.clone(), return_type, param_types);
        match registered {
            Err(e) => {
                return Err(e);
            },
            Ok(_) => {},
        }
        self.current_function = Some(name);
        self.current_block = None;
        self.instructions = Vec::new();
        assert(self.spec_instructions() =~= Seq::<Seq<char>>::empty());
        Ok(())
    }

    /// Ends the function in progress and gives its text (see `function_text`).
    ///
    /// Refused when no function is in progress.
    pub fn end_function(&mut self) -> (r: Result<String, String>)
        ensures
            final(self).spec_module() == old(self).spec_module(),
            match old(self).spec_function() {
                None => (r matches Err(m) && m@ == "No function in progress"@)
                    && final(self).spec_function() is None
                    && final(self).spec_block() == old(self).spec_block()
                    && final(self).spec_instructions() == old(self).spec_instructions(),
                Some(f) => (r matches Ok(t) && t@ == function_text(f, old(self).spec_instructions()))
                    && final(self).spec_function() is None
                    && final(self).spec_block() is None
                    && final(self).spec_instructions().len() == 0,
            },
    {
        let name = match &self.current_function {
            None => {
                return Err(string_from("No function in progress"));
            },
            Some(f) => f.clone(),
        };
        let body = join_strings(&self.instructions, "\n");
        self.current_function = None;
        self.instructions = Vec::new();
        self.current_block = None;
        assert(self.spec_instructions() =~= Seq::<Seq<char>>::empty());
        let mut text = string_from("define {}@");
        push_str(&mut text, name.as_str());
        push_str(&mut text, "(...) {\n");
        push_str(&mut text, body.as_str());
        push_str(&mut text, "\n}\n");
        Ok(text)
    }

    /// Starts the block `label` in the function in progress.
    ///
    /// Refused when no function is in progress.
    pub fn begin_block(&mut self, label: String) -> (r: Result<(), String>)
        ensures
            final(self).spec_module() == old(self).spec_module(),
            final(self).spec_function() == old(self).spec_function(),
            final(self).spec_instructions() == old(self).spec_instructions(),
            if old(self).spec_function() is None {
                (r matches Err(m) && m@ == "Cannot begin a block outside a function"@)
                    && final(self).spec_block() == old(self).spec_block()
            } else {
                r is Ok && final(self).spec_block() == Some(label@)
            },
    {
        if self.current_function.is_none() {
            return Err(string_from("Cannot begin a block outside a function"));
        }
        self.current_block = Some(label);
        Ok(())
    }

    /// Appends an instruction to the function in progress.
    ///
    /// Refused when no block was begun.
    pub fn emit_instruction(&mut self, instruction: String) -> (r: Result<(), String>)
        ensures
            final(self).spec_module() == old(self).spec_module(),
            final(self).spec_function() == old(self).spec_function(),
            final(self).spec_block() == old(self).spec_block(),
            if old(self).spec_block() is None {
                (r matches Err(m) && m@ == "Cannot emit instruction outside a block"@)
                    && final(self).spec_instructions() == old(self).spec_instructions()
            } else {
                r is Ok && final(self).spec_instructions() == old(self).spec_instructions().push(instruction@)
            },
    {
        if self.current_block.is_none() {
            return Err(string_from("Cannot emit instruction outside a block"));
        }
        self.instructions.push(instruction);
        Ok(())
    }

    pub fn current_function(&self) -> (r: Option<&str>)
        ensures
            match r {
                Some(f) => self.spec_function() == Some(f@),
                None => self.spec_function() is None,
            },
    {
        match &self.current_function {
            Some(f) => Some(f.as_str()),
            None => None,
        }
    }

    pub fn current_block(&self) -> (r: Option<&str>)
        ensures
            match r {
                Some(b) => self.spec_block() == Some(b@),
                None => self.spec_block() is None,
            },
    {
        match &self.current_block {
            Some(b) => Some(b.as_str()),
            None => None,
        }
    }

    /// Gives back the module, finalized.
    ///
    /// Refused when a function is in progress.
    pub fn finish(self) -> (r: Result<LlvmModule, String>)
        requires
            self.spec_module().wf(),
        ensures
            match r {
                Ok(m) => self.spec_function() is None && m.wf() && m.spec_finalized()
                    && m.spec_symbols() == self.spec_module().spec_symbols()
                    && m.spec_prototypes() == self.spec_module().spec_prototypes()
                    && m.spec_runtime() == self.spec_module().spec_runtime()
                    && m.spec_name() == self.spec_module().spec_name()
                    && m.spec_triple() == self.spec_module().spec_triple()
                    && m.spec_layout() == self.spec_module().spec_layout()
                    && m.spec_context_id() == self.spec_module().spec_context_id(),
                Err(e) => self.spec_function() is Some
                    && e@ == "Cannot finish builder while a function is in progress"@,
            },
    {
        if self.current_function.is_some() {
            return Err(string_from("Cannot finish builder while a function is in progress"));
        }
        let mut module = self.module;
        module.finalize();
        Ok(module)
    }
}

/// A finalized module refuses every registration and keeps its settings.
pub proof fn law_finalized_module_is_frozen(
    a: LlvmModule,
    b: LlvmModule,
    name: Seq<char>,
    ret: Seq<char>,
    params: Seq<Seq<char>>,
    r: Result<(), String>,
)
    requires
        a.spec_finalized(),
        define_outcome(a, b, name, ret, params, r) || declare_outcome(a, b, name, ret, params, r)
            || runtime_outcome(a, b, name, ret, params, r),
    ensures
        r is Err,
        unchanged(a, b),
{
}

/// After a definition succeeds, looking the name up finds the new signature.
pub proof fn law_defined_symbol_is_found(
    a: LlvmModule,
    b: LlvmModule,
    name: Seq<char>,
    ret: Seq<char>,
    params: Seq<Seq<char>>,
)
    requires
        define_outcome(a, b, name, ret, params, Ok(())),
    ensures
        sig_pos(b.spec_symbols(), name) >= 0,
        b.spec_symbols()[sig_pos(b.spec_symbols(), name)] == (name, ret, params),
{
    assert(b.spec_symbols().drop_last() == a.spec_symbols());
}

} // verus!
