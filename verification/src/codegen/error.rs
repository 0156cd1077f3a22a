use vstd::prelude::*;

use crate::text::{push_str, string_from};

verus! {

/// Why code generation failed.
#[derive(Debug, Clone, PartialEq, Eq)]
pub enum CodegenError {
    BackendFailure { message: String },
    InvalidModule { module: String, message: String },
    UnsupportedInstruction { function: String, block: String, message: String },
}

pub type CodegenResult<T> = Result<T, CodegenError>;

/// How an error is shown.
pub open spec fn codegen_error_text(e: CodegenError) -> Seq<char> {
    match e {
        CodegenError::BackendFailure { message } => message@,
        CodegenError::InvalidModule { module, message } => "invalid module '"@ + module@ + "': "@ + message@,
        CodegenError::UnsupportedInstruction { function, block, message } => "unsupported instruction in function '"@
            + function@ + "' block '"@ + block@ + "': "@ + message@,
    }
}

impl CodegenError {
    /// The error as shown to the user (see `codegen_error_text`).
    pub fn render(&self) -> (r: String)
        ensures
            r@ == codegen_error_text(*self),
    {
        match self {
            CodegenError::BackendFailure { message } => message.clone(),
            CodegenError::InvalidModule { module, message } => {
                let mut r = string_from("invalid module '");
                push_str(&mut r, module.as_str());
                push_str(&mut r, "': ");
                push_str(&mut r, message.as_str());
                r
            },
            CodegenError::UnsupportedInstruction { function, block, message } => {
                let mut r = string_from("unsupported instruction in function '");
                push_str(&mut r, function.as_str());
                push_str(&mut r, "' block '");
                push_str(&mut r, block.as_str());
                push_str(&mut r, "': ");
                push_str(&mut r, message.as_str());
                r
            },
        }
    }
}

} // verus!
