use vstd::prelude::*;

pub mod artifact;
pub mod backend;
pub mod context;
pub mod error;
pub mod inkwell;

pub use artifact::{CodegenArtifact, CodegenOutput};
pub use backend::CodegenBackend;
pub use context::{CodegenContext, CodegenTarget, LlvmBuilder, LlvmContext, LlvmModule};
pub use error::{CodegenError, CodegenResult};
pub use inkwell::LlvmInkwellBackend;
pub mod llvm;
pub mod text_backend;
pub use llvm::LlvmLifecycle;
pub use text_backend::LlvmTextBackend;
