use hulk_compiler::cli::{usage, CliCommand, CompilationMode, InputSource};
use hulk_compiler::errors::CompilationError;
use hulk_compiler::pipeline::PipelineStage;

#[test]
fn parses_help_flag() {
    let command = CliCommand::parse_args(vec!["--help".to_string()]).unwrap();
    assert!(matches!(command, CliCommand::Help));
}

#[test]
fn parses_file_and_mode() {
    let command = CliCommand::parse_args(vec!["--parse".to_string(), "programa.hulk".to_string()]).unwrap();

    match command {
        CliCommand::Run(config) => {
            assert_eq!(config.mode, CompilationMode::Parse);
            assert!(matches!(config.input, InputSource::File(_)));
        }
        CliCommand::Help => panic!("se esperaba una corrida, no ayuda"),
    }
}

#[test]
fn parses_inline_source() {
    let command = CliCommand::parse_args(vec!["--source".to_string(), "1 + 2".to_string()]).unwrap();

    match command {
        CliCommand::Run(config) => {
            assert_eq!(config.mode, CompilationMode::Semantic);
            assert!(matches!(config.input, InputSource::Inline(_)));
        }
        CliCommand::Help => panic!("se esperaba una corrida, no ayuda"),
    }
}

#[test]
fn parses_ir_mode() {
    let command = CliCommand::parse_args(vec!["--ir".to_string(), "programa.hulk".to_string()]).unwrap();

    match command {
        CliCommand::Run(config) => {
            assert_eq!(config.mode, CompilationMode::Ir);
            assert!(matches!(config.input, InputSource::File(_)));
        }
        CliCommand::Help => panic!("se esperaba una corrida, no ayuda"),
    }
}

#[test]
fn parses_codegen_mode_and_output() {
    let command = CliCommand::parse_args(vec![
        "--codegen".to_string(),
        "-o".to_string(),
        "out.ll".to_string(),
        "programa.hulk".to_string(),
    ])
    .unwrap();

    match command {
        CliCommand::Run(config) => {
            assert_eq!(config.mode, CompilationMode::Codegen);
            assert_eq!(config.output.as_deref(), Some("out.ll"));
        }
        CliCommand::Help => panic!("se esperaba una corrida, no ayuda"),
    }
}

#[test]
fn missing_input_is_refused() {
    let result = CliCommand::parse_args(vec!["--lex".to_string()]);
    match result {
        Err(CompilationError::Internal { message }) => {
            assert_eq!(message, "debes pasar un archivo o usar --source")
        }
        _ => panic!("expected an internal error"),
    }
}

#[test]
fn unknown_option_is_refused() {
    let result = CliCommand::parse_args(vec!["--fast".to_string(), "a.hulk".to_string()]);
    match result {
        Err(CompilationError::Internal { message }) => assert_eq!(message, "opción desconocida: --fast"),
        _ => panic!("expected an internal error"),
    }
}

#[test]
fn output_flag_needs_a_path() {
    let result = CliCommand::parse_args(vec!["a.hulk".to_string(), "--output".to_string()]);
    match result {
        Err(CompilationError::Internal { message }) => assert_eq!(message, "falta la ruta después de --output"),
        _ => panic!("expected an internal error"),
    }
}

#[test]
fn source_flag_needs_text() {
    let result = CliCommand::parse_args(vec!["--source".to_string()]);
    match result {
        Err(CompilationError::Internal { message }) => assert_eq!(message, "falta el texto después de --source"),
        _ => panic!("expected an internal error"),
    }
}

#[test]
fn help_wins_even_after_other_flags() {
    let command = CliCommand::parse_args(vec!["--ir".to_string(), "-h".to_string(), "--bogus".to_string()]).unwrap();
    assert!(matches!(command, CliCommand::Help));
}

#[test]
fn last_input_and_mode_win() {
    let command = CliCommand::parse_args(vec![
        "--lex".to_string(),
        "a.hulk".to_string(),
        "--run".to_string(),
        "b.hulk".to_string(),
    ])
    .unwrap();
    match command {
        CliCommand::Run(config) => {
            assert_eq!(config.mode, CompilationMode::Run);
            assert_eq!(config.input, InputSource::File("b.hulk".to_string()));
            assert_eq!(config.output, None);
        }
        CliCommand::Help => panic!("expected a run"),
    }
}

#[test]
fn modes_map_to_stages_and_labels() {
    assert_eq!(CompilationMode::Run.as_stage(), PipelineStage::Codegen);
    assert_eq!(CompilationMode::Lex.as_stage(), PipelineStage::Lex);
    assert_eq!(CompilationMode::Semantic.label(), "semantic");
    assert_eq!(CompilationMode::Run.label(), "run");
    assert!(usage().starts_with("Hulk Compiler"));
}
