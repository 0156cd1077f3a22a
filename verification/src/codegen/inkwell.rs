use vstd::prelude::*;

use crate::codegen::artifact::CodegenArtifact;
use crate::codegen::backend::CodegenBackend;
use crate::codegen::context::CodegenContext;
use crate::codegen::error::{CodegenError, CodegenResult};
use crate::ir::IRModule;
use crate::text::string_from;

verus! {

/// The backend that would drive LLVM through its library bindings; this
/// build has none, so it refuses every module.
#[derive(Debug)]
pub struct LlvmInkwellBackend {}

impl LlvmInkwellBackend {
    pub fn new() -> (b: LlvmInkwellBackend) {
        LlvmInkwellBackend {}
    }
}

impl CodegenBackend for LlvmInkwellBackend {
    fn backend_name(&self) -> (r: &'static str)
        ensures
            r@ == "llvm-inkwell (disabled)"@,
    {
        "llvm-inkwell (disabled)"
    }

    fn emit_module(&self, _module: &IRModule, _context: &CodegenContext) -> (r: CodegenResult<CodegenArtifact>)
        ensures
            r matches Err(CodegenError::BackendFailure { message })
                && message@ == "inkwell backend is not enabled; build with feature 'llvm-verify'"@,
    {
        Err(CodegenError::BackendFailure {
            message: string_from("inkwell backend is not enabled; build with feature 'llvm-verify'"),
        })
    }
}

} // verus!
