use vstd::prelude::*;

pub mod cli;
pub mod codegen;
pub mod errors;
pub mod execution;
pub mod ir;
pub mod span;
pub mod text;
pub mod lexer;
pub mod parser;
pub mod pipeline;
pub mod semantic;

pub use cli::{CliCommand, CliConfig, CompilationMode, InputSource};
pub use pipeline::{CompilationPipeline, PipelineReport, PipelineStage};
