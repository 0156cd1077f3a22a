use vstd::prelude::*;

use crate::codegen::context::{
    proto_index, sig_pos, CodegenContext, LlvmBuilder, LlvmContext, LlvmModule,
};
use crate::codegen::error::{CodegenError, CodegenResult};
use crate::ir::{IRFunction, IRInstructionKind, IRModule};
use crate::text::{push_str, str_equal, string_from, usize_to_string};

pub use crate::codegen::text_backend::LlvmTextBackend;

verus! {

/// Whether a call of `callee` with `nargs` arguments agrees with the module:
/// a defined function with that many parameters, else a prototype with that
/// many, else a runtime declaration.
pub open spec fn call_agrees(m: LlvmModule, callee: Seq<char>, nargs: int) -> bool {
    if sig_pos(m.spec_symbols(), callee) >= 0 {
        m.spec_symbols()[sig_pos(m.spec_symbols(), callee)].2.len() == nargs
    } else if proto_index(m.spec_prototypes(), callee) >= 0 {
        m.spec_prototypes()[proto_index(m.spec_prototypes(), callee)].0.2.len() == nargs
    } else {
        sig_pos(m.spec_runtime(), callee) >= 0
    }
}

/// Every call in the functions of `ir` agrees with the module.
pub open spec fn calls_agree(m: LlvmModule, ir: IRModule) -> bool {
    forall|f: int, b: int, i: int|
        0 <= f < ir.functions@.len() && 0 <= b < ir.functions@[f].blocks@.len() && 0 <= i
            < ir.functions@[f].blocks@[b].instructions@.len() ==> match (
        #[trigger] ir.functions@[f].blocks@[b].instructions@[i]).kind {
            IRInstructionKind::Call { callee, arguments, .. } => call_agrees(m, callee@, arguments@.len() as int),
            _ => true,
        }
}

/// Owns the LLVM context and checks that modules belong to it.
#[derive(Debug)]
pub struct LlvmLifecycle {
    context: LlvmContext,
}

impl LlvmLifecycle {
    pub closed spec fn spec_context_id(&self) -> u64 {
        self.context.spec_id()
    }

    /// A lifecycle with the context of identifier `context_id`.
    pub fn new(context_id: u64) -> (l: LlvmLifecycle)
        ensures
            l.spec_context_id() == context_id,
    {
        LlvmLifecycle { context: LlvmContext::new(context_id) }
    }

    pub fn context(&self) -> (r: &LlvmContext)
        ensures
            r.spec_id() == self.spec_context_id(),
    {
        &self.context
    }

    /// A new module of this context, with the default runtime declarations.
    pub fn create_module(&self, name: String) -> (r: CodegenResult<LlvmModule>)
        ensures
            r matches Ok(m) && m.wf() && m.spec_context_id() == self.spec_context_id() && m.spec_name() == name@
                && m.spec_symbols().len() == 0 && m.spec_prototypes().len() == 0 && !m.spec_finalized()
                && m.spec_runtime() == crate::codegen::context::default_runtime(),
    {
        let mut m = LlvmModule::new(&self.context, name);
        m.add_default_runtime_decls();
        Ok(m)
    }

    /// A builder for `module`; refused when the module belongs to another context.
    pub fn create_builder(&self, module: LlvmModule) -> (r: CodegenResult<LlvmBuilder>)
        ensures
            match r {
                Ok(b) => module.spec_context_id() == self.spec_context_id() && b.spec_module() == module
                    && b.spec_function() is None && b.spec_block() is None,
                Err(e) => module.spec_context_id() != self.spec_context_id() && (e matches CodegenError::BackendFailure {
                    message,
                } && message@ == "Module context mismatch"@),
            },
    {
        match module.verify_context(&self.context) {
            Err(e) => Err(CodegenError::BackendFailure { message: e }),
            Ok(_) => Ok(LlvmBuilder::new(module)),
        }
    }

    /// Refused when the module belongs to another context, or defines no function.
    pub fn validate_module(&self, module: &LlvmModule) -> (r: CodegenResult<()>)
        ensures
            match r {
                Ok(_) => module.spec_context_id() == self.spec_context_id() && module.spec_symbols().len() > 0,
                Err(e) => if module.spec_context_id() != self.spec_context_id() {
                    e matches CodegenError::BackendFailure { message } && message@ == "Module context mismatch"@
                } else {
                    module.spec_symbols().len() == 0 && (e matches CodegenError::InvalidModule { module: n, message }
                        && n@ == module.spec_name() && message@
                        == "module has no symbols; at least one function expected"@)
                },
            },
    {
        match module.verify_context(&self.context) {
            Err(e) => {
                return Err(CodegenError::BackendFailure { message: e });
            },
            Ok(_) => {},
        }
        if module.symbols().len() == 0 {
            return Err(CodegenError::InvalidModule {
                module: string_from(module.name()),
                message: string_from("module has no symbols; at least one function expected"),
            });
        }
        Ok(())
    }

    /// As `validate_module`, and also refused when a call in `ir_module`
    /// disagrees with the module (see `calls_agree`).
    pub fn validate_full_module(&self, llvm_module: &LlvmModule, ir_module: &IRModule) -> (r: CodegenResult<()>)
        requires
            llvm_module.wf(),
        ensures
            r is Ok <==> (llvm_module.spec_context_id() == self.spec_context_id() && llvm_module.spec_symbols().len()
                > 0 && calls_agree(*llvm_module, *ir_module)),
            r matches Err(e) ==> if llvm_module.spec_context_id() != self.spec_context_id() {
                e matches CodegenError::BackendFailure { message } && message@ == "Module context mismatch"@
            } else {
                e matches CodegenError::InvalidModule { module: n, message } && n@ == llvm_module.spec_name() && (
                llvm_module.spec_symbols().len() == 0 ==> message@
                    == "module has no symbols; at least one function expected"@)
            },
    {
        match self.validate_module(llvm_module) {
            Err(e) => {
                return Err(e);
            },
            Ok(_) => {},
        }
        let mut f: usize = 0;
        while f < ir_module.functions.len()
            invariant
                llvm_module.wf(),
                llvm_module.spec_context_id() == self.spec_context_id(),
                llvm_module.spec_symbols().len() > 0,
                0 <= f <= ir_module.functions@.len(),
                forall|ff: int, b: int, i: int|
                    0 <= ff < f && 0 <= b < ir_module.functions@[ff].blocks@.len() && 0 <= i
                        < ir_module.functions@[ff].blocks@[b].instructions@.len() ==> match (
                    #[trigger] ir_module.functions@[ff].blocks@[b].instructions@[i]).kind {
                        IRInstructionKind::Call { callee, arguments, .. } => call_agrees(
                            *llvm_module,
                            callee@,
                            arguments@.len() as int,
                        ),
                        _ => true,
                    },
            decreases ir_module.functions@.len() - f,
        {
            let func = &ir_module.functions[f];
            let mut b: usize = 0;
            while b < func.blocks.len()
                invariant
                    llvm_module.wf(),
                    llvm_module.spec_context_id() == self.spec_context_id(),
                    llvm_module.spec_symbols().len() > 0,
                    0 <= f < ir_module.functions@.len(),
                    *func == ir_module.functions@[f as int],
                    0 <= b <= func.blocks@.len(),
                    forall|ff: int, bb: int, i: int|
                        0 <= ff < f && 0 <= bb < ir_module.functions@[ff].blocks@.len() && 0 <= i
                            < ir_module.functions@[ff].blocks@[bb].instructions@.len() ==> match (
                        #[trigger] ir_module.functions@[ff].blocks@[bb].instructions@[i]).kind {
                            IRInstructionKind::Call { callee, arguments, .. } => call_agrees(
                                *llvm_module,
                                callee@,
                                arguments@.len() as int,
                            ),
                            _ => true,
                        },
                    forall|bb: int, i: int|
                        0 <= bb < b && 0 <= i < func.blocks@[bb].instructions@.len() ==> match (
                        #[trigger] func.blocks@[bb].instructions@[i]).kind {
                            IRInstructionKind::Call { callee, arguments, .. } => call_agrees(
                                *llvm_module,
                                callee@,
                                arguments@.len() as int,
                            ),
                            _ => true,
                        },
                decreases func.blocks@.len() - b,
            {
                let block = &func.blocks[b];
                let mut i: usize = 0;
                while i < block.instructions.len()
                    invariant
                        llvm_module.wf(),
                        llvm_module.spec_context_id() == self.spec_context_id(),
                        llvm_module.spec_symbols().len() > 0,
                        0 <= f < ir_module.functions@.len(),
                        *func == ir_module.functions@[f as int],
                        0 <= b < func.blocks@.len(),
                        *block == func.blocks@[b as int],
                        0 <= i <= block.instructions@.len(),
                        forall|ff: int, bb: int, ii: int|
                            0 <= ff < f && 0 <= bb < ir_module.functions@[ff].blocks@.len() && 0 <= ii
                                < ir_module.functions@[ff].blocks@[bb].instructions@.len() ==> match (
                            #[trigger] ir_module.functions@[ff].blocks@[bb].instructions@[ii]).kind {
                                IRInstructionKind::Call { callee, arguments, .. } => call_agrees(
                                    *llvm_module,
                                    callee@,
                                    arguments@.len() as int,
                                ),
                                _ => true,
                            },
                        forall|bb: int, ii: int|
                            0 <= bb < b && 0 <= ii < func.blocks@[bb].instructions@.len() ==> match (
                            #[trigger] func.blocks@[bb].instructions@[ii]).kind {
                                IRInstructionKind::Call { callee, arguments, .. } => call_agrees(
                                    *llvm_module,
                                    callee@,
                                    arguments@.len() as int,
                                ),
                                _ => true,
                            },
                        forall|ii: int|
                            0 <= ii < i ==> match (#[trigger] block.instructions@[ii]).kind {
                                IRInstructionKind::Call { callee, arguments, .. } => call_agrees(
                                    *llvm_module,
                                    callee@,
                                    arguments@.len() as int,
                                ),
                                _ => true,
                            },
                    decreases block.instructions@.len() - i,
                {
                    match &block.instructions[i].kind {
                        IRInstructionKind::Call { callee, arguments, .. } => {
                            match check_call(llvm_module, callee.as_str(), arguments.len()) {
                                Err(e) => {
                                    return Err(e);
                                },
                                Ok(_) => {},
                            }
                        },
                        _ => {},
                    }
                    i = i + 1;
                }
                proof {
                    assert forall|bb: int, ii: int|
                        0 <= bb < b + 1 && 0 <= ii < func.blocks@[bb].instructions@.len() implies match (
                        #[trigger] func.blocks@[bb].instructions@[ii]).kind {
                            IRInstructionKind::Call { callee, arguments, .. } => call_agrees(
                                *llvm_module,
                                callee@,
                                arguments@.len() as int,
                            ),
                            _ => true,
                        } by {
                        if bb == b {
                            assert(block.instructions@[ii] == func.blocks@[bb].instructions@[ii]);
                        }
                    }
                }
                b = b + 1;
            }
            proof {
                assert forall|ff: int, bb: int, ii: int|
                    0 <= ff < f + 1 && 0 <= bb < ir_module.functions@[ff].blocks@.len() && 0 <= ii
                        < ir_module.functions@[ff].blocks@[bb].instructions@.len() implies match (
                    #[trigger] ir_module.functions@[ff].blocks@[bb].instructions@[ii]).kind {
                        IRInstructionKind::Call { callee, arguments, .. } => call_agrees(
                            *llvm_module,
                            callee@,
                            arguments@.len() as int,
                        ),
                        _ => true,
                    } by {
                    if ff == f {
                        assert(ir_module.functions@[ff].blocks@[bb] == func.blocks@[bb]);
                    }
                }
            }
            f = f + 1;
        }
        Ok(())
    }
}

/// Checks one call against the module.
fn check_call(m: &LlvmModule, callee: &str, nargs: usize) -> (r: CodegenResult<()>)
    requires
        m.wf(),
    ensures
        r is Ok <==> call_agrees(*m, callee@, nargs as int),
        r matches Err(e) ==> e matches CodegenError::InvalidModule { module, .. } && module@ == m.spec_name(),
{
    match m.lookup_symbol(callee) {
        Some((_, params)) => {
            if params.len() != nargs {
                let mut message = string_from("Call to '");
                push_str(&mut message, callee);
                push_str(&mut message, "' has ");
                let a = usize_to_string(nargs);
                push_str(&mut message, a.as_str());
                push_str(&mut message, " args but definition has ");
                let p = usize_to_string(params.len());
                push_str(&mut message, p.as_str());
                push_str(&mut message, " parameters");
                return Err(CodegenError::InvalidModule { module: string_from(m.name()), message });
            }
            Ok(())
        },
        None => {
            let protos = m.prototypes();
            let mut k = protos.len();
            let ghost ps = m.spec_prototypes();
            assert(ps.take(k as int) =~= ps);
            while k > 0
                invariant
                    m.wf(),
                    0 <= k <= ps.len(),
                    ps == m.spec_prototypes(),
                    sig_pos(m.spec_symbols(), callee@) == -1,
                    crate::codegen::context::proto_views(protos@) == ps,
                    proto_index(ps, callee@) == proto_index(ps.take(k as int), callee@),
                decreases k,
            {
                assert(ps.take(k as int).last() == ps[k - 1]);
                if str_equal(protos[k - 1].0.as_str(), callee) {
                    assert(crate::text::strs(protos@[k - 1].2@).len() == protos@[k - 1].2@.len());
                    if protos[k - 1].2.len() != nargs {
                        let mut message = string_from("Call to '");
                        push_str(&mut message, callee);
                        push_str(&mut message, "' has ");
                        let a = usize_to_string(nargs);
                        push_str(&mut message, a.as_str());
                        push_str(&mut message, " args but prototype has ");
                        let p = usize_to_string(protos[k - 1].2.len());
                        push_str(&mut message, p.as_str());
                        push_str(&mut message, " parameters");
                        return Err(CodegenError::InvalidModule { module: string_from(m.name()), message });
                    }
                    return Ok(());
                }
                assert(ps.take(k as int).drop_last() == ps.take(k - 1));
                k = k - 1;
            }
            assert(ps.take(0) =~= Seq::<(crate::codegen::context::SigView, bool)>::empty());
            let runtime = m.runtime_decls();
            let mut j = runtime.len();
            let ghost rs = m.spec_runtime();
            assert(rs.take(j as int) =~= rs);
            while j > 0
                invariant
                    0 <= j <= rs.len(),
                    rs == m.spec_runtime(),
                    sig_pos(m.spec_symbols(), callee@) == -1,
                    proto_index(m.spec_prototypes(), callee@) == -1,
                    crate::codegen::context::sig_views(runtime@) == rs,
                    sig_pos(rs, callee@) == sig_pos(rs.take(j as int), callee@),
                decreases j,
            {
                assert(rs.take(j as int).last() == rs[j - 1]);
                if str_equal(runtime[j - 1].0.as_str(), callee) {
                    return Ok(());
                }
                assert(rs.take(j as int).drop_last() == rs.take(j - 1));
                j = j - 1;
            }
            let mut message = string_from("Call to unknown symbol '");
            push_str(&mut message, callee);
            push_str(&mut message, "'");
            Err(CodegenError::InvalidModule { module: string_from(m.name()), message })
        },
    }
}

} // verus!
