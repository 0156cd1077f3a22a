use hulk_compiler::errors::CompilationError;
use hulk_compiler::pipeline::{CompilationPipeline, PipelineStage};

#[test]
fn module_name_from_file_names() {
    assert_eq!(CompilationPipeline::new("1".to_string(), "<inline>".to_string()).module_name(), "inline");
    assert_eq!(CompilationPipeline::new("1".to_string(), "  <inline> ".to_string()).module_name(), "inline");
    assert_eq!(CompilationPipeline::new("1".to_string(), "dir/my-prog.hulk".to_string()).module_name(), "my_prog");
    assert_eq!(CompilationPipeline::new("1".to_string(), "".to_string()).module_name(), "lowered");
    assert_eq!(CompilationPipeline::new("1".to_string(), "a.b.c".to_string()).module_name(), "a_b");
}

#[test]
fn lex_stage_gives_tokens_or_the_first_error() {
    let pipeline = CompilationPipeline::new("1 + 2".to_string(), "<test>".to_string());
    let tokens = pipeline.lex().unwrap();
    assert_eq!(tokens.len(), 4);
    let bad = CompilationPipeline::new("1 $ 2".to_string(), "<test>".to_string());
    match bad.lex() {
        Err(CompilationError::Lexer { message, span }) => {
            assert!(message.starts_with("Invalid character"));
            assert_eq!(span.start_column, 3);
        }
        _ => panic!("expected a lexical error"),
    }
}

#[test]
fn stage_labels() {
    assert_eq!(PipelineStage::Lex.label(), "lex");
    assert_eq!(PipelineStage::Codegen.label(), "codegen");
}

#[test]
fn runs_lex_stage() {
    let pipeline = CompilationPipeline::new("1 + 2".to_string(), "<test>".to_string());
    let report = pipeline.run_to(PipelineStage::Lex).unwrap();

    assert_eq!(report.stage, PipelineStage::Lex);
    assert!(!report.tokens.is_empty());
    assert!(report.program.is_none());
}

#[test]
fn runs_parse_stage() {
    let pipeline = CompilationPipeline::new("1 + 2".to_string(), "<test>".to_string());
    let report = pipeline.run_to(PipelineStage::Parse).unwrap();

    assert_eq!(report.stage, PipelineStage::Parse);
    assert!(report.program.is_some());
}

#[test]
fn runs_semantic_stage() {
    let pipeline = CompilationPipeline::new("1 + 2".to_string(), "<test>".to_string());
    let report = pipeline.run_to(PipelineStage::Semantic).unwrap();

    assert_eq!(report.stage, PipelineStage::Semantic);
    assert!(report.program.is_some());
    assert!(report.ir.is_none());
}

#[test]
fn ir_stage_is_refused_without_lowering() {
    let pipeline = CompilationPipeline::new("1 + 2".to_string(), "<test>".to_string());
    match pipeline.run_to(PipelineStage::Ir) {
        Err(CompilationError::Internal { message }) => {
            assert_eq!(message, "IR lowering is not available in this build")
        }
        other => panic!("unexpected {:?}", other.map(|r| r.stage)),
    }
}

#[test]
fn stage_errors_come_from_the_failing_stage() {
    let pipeline = CompilationPipeline::new("1 +".to_string(), "<test>".to_string());
    assert!(matches!(
        pipeline.run_to(PipelineStage::Parse),
        Err(CompilationError::Parser { .. })
    ));
    let pipeline = CompilationPipeline::new("x + 1".to_string(), "<test>".to_string());
    assert!(matches!(
        pipeline.run_to(PipelineStage::Semantic),
        Err(CompilationError::Semantic { .. })
    ));
    assert!(pipeline.run_to(PipelineStage::Parse).is_ok());
    let pipeline = CompilationPipeline::new("1 $".to_string(), "<test>".to_string());
    assert!(matches!(
        pipeline.run_to(PipelineStage::Lex),
        Err(CompilationError::Lexer { .. })
    ));
}

#[test]
fn codegen_reports_backend_error_without_feature() {
    let pipeline = CompilationPipeline::new("1 + 2".to_string(), "prog.hulk".to_string());
    let module = hulk_compiler::ir::IRModule::new("m".to_string());
    match pipeline.codegen(&module) {
        Err(CompilationError::Internal { message }) => assert!(message.contains("llvm-verify")),
        _ => panic!("expected the backend error"),
    }
}
