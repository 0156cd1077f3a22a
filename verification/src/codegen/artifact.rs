use vstd::prelude::*;

use crate::codegen::context::CodegenTarget;

verus! {

/// What code generation produced: text or bytes.
#[derive(Debug, Clone, PartialEq, Eq)]
pub enum CodegenOutput {
    Text(String),
    Binary(Vec<u8>),
}

/// The output of code generation, with the target it was made for.
#[derive(Debug, Clone, PartialEq, Eq)]
pub struct CodegenArtifact {
    pub target: CodegenTarget,
    pub output: CodegenOutput,
}

impl CodegenArtifact {
    pub fn text(target: CodegenTarget, text: String) -> (a: CodegenArtifact)
        ensures
            a.target == target,
            a.output matches CodegenOutput::Text(t) && t@ == text@,
    {
        CodegenArtifact { target, output: CodegenOutput::Text(text) }
    }

    pub fn binary(target: CodegenTarget, bytes: Vec<u8>) -> (a: CodegenArtifact)
        ensures
            a.target == target,
            a.output matches CodegenOutput::Binary(b) && b@ == bytes@,
    {
        CodegenArtifact { target, output: CodegenOutput::Binary(bytes) }
    }

    /// The text, for a text artifact.
    pub fn as_text(&self) -> (r: Option<&str>)
        ensures
            match self.output {
                CodegenOutput::Text(t) => r matches Some(x) && x@ == t@,
                CodegenOutput::Binary(_) => r is None,
            },
    {
        match &self.output {
            CodegenOutput::Text(text) => Some(text.as_str()),
            CodegenOutput::Binary(_) => None,
        }
    }
}

} // verus!
