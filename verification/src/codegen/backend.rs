use vstd::prelude::*;

use crate::codegen::artifact::CodegenArtifact;
use crate::codegen::context::CodegenContext;
use crate::codegen::error::CodegenResult;
use crate::ir::IRModule;

verus! {

/// A code generator: it turns a module of the intermediate representation
/// into an artifact.
pub trait CodegenBackend {
    fn backend_name(&self) -> &'static str;

    fn emit_module(&self, module: &IRModule, context: &CodegenContext) -> CodegenResult<CodegenArtifact>;
}

} // verus!
