use vstd::prelude::*;

use crate::errors::{CompilationError, CompileResult};
use crate::pipeline::PipelineStage;
use crate::text::{push_str, str_equal, string_from};

verus! {

/// How far the compiler goes.
#[derive(Debug, Clone, Copy, PartialEq, Eq)]
pub enum CompilationMode {
    Lex,
    Parse,
    Semantic,
    Ir,
    Codegen,
    Run,
}

impl CompilationMode {
    /// The last pipeline stage of the mode (running the program stops the
    /// pipeline after code generation).
    pub fn as_stage(self) -> (r: PipelineStage)
        ensures
            r == match self {
                CompilationMode::Lex => PipelineStage::Lex,
                CompilationMode::Parse => PipelineStage::Parse,
                CompilationMode::Semantic => PipelineStage::Semantic,
                CompilationMode::Ir => PipelineStage::Ir,
                CompilationMode::Codegen => PipelineStage::Codegen,
                CompilationMode::Run => PipelineStage::Codegen,
            },
    {
        match self {
            CompilationMode::Lex => PipelineStage::Lex,
            CompilationMode::Parse => PipelineStage::Parse,
            CompilationMode::Semantic => PipelineStage::Semantic,
            CompilationMode::Ir => PipelineStage::Ir,
            CompilationMode::Codegen => PipelineStage::Codegen,
            CompilationMode::Run => PipelineStage::Codegen,
        }
    }

    pub fn label(self) -> (r: &'static str)
        ensures
            r@ == mode_label(self),
    {
        match self {
            CompilationMode::Lex => "lex",
            CompilationMode::Parse => "parse",
            CompilationMode::Semantic => "semantic",
            CompilationMode::Ir => "ir",
            CompilationMode::Codegen => "codegen",
            CompilationMode::Run => "run",
        }
    }
}

pub open spec fn mode_label(m: CompilationMode) -> Seq<char> {
    match m {
        CompilationMode::Lex => "lex"@,
        CompilationMode::Parse => "parse"@,
        CompilationMode::Semantic => "semantic"@,
        CompilationMode::Ir => "ir"@,
        CompilationMode::Codegen => "codegen"@,
        CompilationMode::Run => "run"@,
    }
}

/// Where the program comes from: a file path, or the text itself.
#[derive(Debug, Clone, PartialEq, Eq)]
pub enum InputSource {
    File(String),
    Inline(String),
}

/// What a run is asked to do.
#[derive(Debug, Clone, PartialEq, Eq)]
pub struct CliConfig {
    pub input: InputSource,
    pub mode: CompilationMode,
    pub output: Option<String>,
}

#[derive(Debug, Clone, PartialEq, Eq)]
pub enum CliCommand {
    Help,
    Run(CliConfig),
}

/// What parsing the arguments gives, as plain values.
pub enum CliOutcome {
    Help,
    Run { mode: CompilationMode, from_file: bool, input: Seq<char>, output: Option<Seq<char>> },
    Failed(Seq<char>),
}

/// The outcome of the result of `parse_args`.
pub open spec fn outcome_of(r: CompileResult<CliCommand>) -> CliOutcome {
    match r {
        Ok(CliCommand::Help) => CliOutcome::Help,
        Ok(CliCommand::Run(c)) => CliOutcome::Run {
            mode: c.mode,
            from_file: c.input is File,
            input: match c.input {
                InputSource::File(p) => p@,
                InputSource::Inline(s) => s@,
            },
            output: match c.output {
                Some(o) => Some(o@),
                None => None,
            },
        },
        Err(CompilationError::Internal { message }) => CliOutcome::Failed(message@),
        Err(_) => CliOutcome::Failed(Seq::empty()),
    }
}

/// The mode a flag selects, if it is a mode flag.
pub open spec fn mode_flag(a: Seq<char>) -> Option<CompilationMode> {
    if a == "--lex"@ {
        Some(CompilationMode::Lex)
    } else if a == "--parse"@ {
        Some(CompilationMode::Parse)
    } else if a == "--semantic"@ {
        Some(CompilationMode::Semantic)
    } else if a == "--ir"@ {
        Some(CompilationMode::Ir)
    } else if a == "--codegen"@ {
        Some(CompilationMode::Codegen)
    } else if a == "--run"@ {
        Some(CompilationMode::Run)
    } else {
        None
    }
}

/// Parsing the arguments from `i` on, with the mode, input (`true` for a
/// file) and output chosen so far: help stops at once; a mode flag picks the
/// mode; `-o`/`--output` and `--source` take the next argument; another
/// argument that starts with `-` is refused; any other is the input file.
/// At the end an input is required.
pub open spec fn parse_from(
    args: Seq<Seq<char>>,
    i: int,
    mode: CompilationMode,
    input: Option<(bool, Seq<char>)>,
    output: Option<Seq<char>>,
) -> CliOutcome
    decreases args.len() - i,
{
    if i < 0 || i >= args.len() {
        match input {
            Some((from_file, text)) => CliOutcome::Run { mode, from_file, input: text, output },
            None => CliOutcome::Failed("debes pasar un archivo o usar --source"@),
        }
    } else {
        let a = args[i];
        if a == "-h"@ || a == "--help"@ {
            CliOutcome::Help
        } else if mode_flag(a) is Some {
            parse_from(args, i + 1, mode_flag(a).unwrap(), input, output)
        } else if a == "-o"@ || a == "--output"@ {
            if i + 1 < args.len() {
                parse_from(args, i + 2, mode, input, Some(args[i + 1]))
            } else {
                CliOutcome::Failed("falta la ruta después de --output"@)
            }
        } else if a == "--source"@ {
            if i + 1 < args.len() {
                parse_from(args, i + 2, mode, Some((false, args[i + 1])), output)
            } else {
                CliOutcome::Failed("falta el texto después de --source"@)
            }
        } else if a.len() > 0 && a[0] == '-' {
            CliOutcome::Failed("opción desconocida: "@ + a)
        } else {
            parse_from(args, i + 1, mode, Some((true, a)), output)
        }
    }
}

/// The help text.
pub fn usage() -> (r: &'static str)
    ensures
        r@ == usage_text(),
{
    "Hulk Compiler\n\nUso:\n  hulk-compiler [--lex|--parse|--semantic|--ir|--codegen|--run] [--output <archivo>] <archivo>\n  hulk-compiler --source \"codigo fuente\" [--lex|--parse|--semantic|--ir|--codegen|--run] [--output <archivo>]\n\nOpciones:\n  --lex         Ejecuta solo lexer\n  --parse       Ejecuta lexer + parser\n  --semantic    Ejecuta lexer + parser + semantica\n  --ir          Ejecuta lexer + parser + semantica + IR\n  --codegen     Ejecuta lexer + parser + semantica + IR + codegen LLVM\n  --run         Ejecuta lexer + parser + semantica + IR + codegen LLVM + ensamblado + link + ejecucion\n  --output, -o  Archivo de salida para --codegen; para --run es la ruta del ejecutable final\n  --source      Usa codigo inline en lugar de archivo\n  -h, --help    Muestra esta ayuda"
}

pub open spec fn usage_text() -> Seq<char> {
    "Hulk Compiler\n\nUso:\n  hulk-compiler [--lex|--parse|--semantic|--ir|--codegen|--run] [--output <archivo>] <archivo>\n  hulk-compiler --source \"codigo fuente\" [--lex|--parse|--semantic|--ir|--codegen|--run] [--output <archivo>]\n\nOpciones:\n  --lex         Ejecuta solo lexer\n  --parse       Ejecuta lexer + parser\n  --semantic    Ejecuta lexer + parser + semantica\n  --ir          Ejecuta lexer + parser + semantica + IR\n  --codegen     Ejecuta lexer + parser + semantica + IR + codegen LLVM\n  --run         Ejecuta lexer + parser + semantica + IR + codegen LLVM + ensamblado + link + ejecucion\n  --output, -o  Archivo de salida para --codegen; para --run es la ruta del ejecutable final\n  --source      Usa codigo inline en lugar de archivo\n  -h, --help    Muestra esta ayuda"@
}

/// The characters of each argument.
pub open spec fn arg_views(args: Seq<String>) -> Seq<Seq<char>> {
    args.map_values(|a: String| a@)
}

/// The mode a flag selects.
fn mode_of_flag(a: &str) -> (r: Option<CompilationMode>)
    ensures
        r == mode_flag(a@),
{
    if str_equal(a, "--lex") {
        Some(CompilationMode::Lex)
    } else if str_equal(a, "--parse") {
        Some(CompilationMode::Parse)
    } else if str_equal(a, "--semantic") {
        Some(CompilationMode::Semantic)
    } else if str_equal(a, "--ir") {
        Some(CompilationMode::Ir)
    } else if str_equal(a, "--codegen") {
        Some(CompilationMode::Codegen)
    } else if str_equal(a, "--run") {
        Some(CompilationMode::Run)
    } else {
        None
    }
}

impl CliCommand {
    /// Parses the command-line arguments (without the program name); see
    /// `parse_from`. The default mode is `Semantic`.
    pub fn parse_args(args: Vec<String>) -> (r: CompileResult<CliCommand>)
        ensures
            outcome_of(r) == parse_from(arg_views(args@), 0, CompilationMode::Semantic, None, None),
    {
        let ghost av = arg_views(args@);
        let mut mode = CompilationMode::Semantic;
        let mut input: Option<InputSource> = None;
        let mut output: Option<String> = None;
        let mut i: usize = 0;
        while i < args.len()
            invariant
                av == arg_views(args@),
                0 <= i <= args@.len(),
                parse_from(av, 0, CompilationMode::Semantic, None, None) == parse_from(
                    av,
                    i as int,
                    mode,
                    match input {
                        Some(InputSource::File(p)) => Some((true, p@)),
                        Some(InputSource::Inline(s)) => Some((false, s@)),
                        None => None,
                    },
                    match output {
                        Some(o) => Some(o@),
                        None => None,
                    },
                ),
            decreases args@.len() - i,
        {
            let arg = args[i].as_str();
            assert(av[i as int] == arg@);
            if str_equal(arg, "-h") || str_equal(arg, "--help") {
                return Ok(CliCommand::Help);
            }
            match mode_of_flag(arg) {
                Some(m) => {
                    mode = m;
                    i = i + 1;
                },
                None => {
                    if str_equal(arg, "-o") || str_equal(arg, "--output") {
                        if i + 1 < args.len() {
                            assert(av[i + 1] == args@[i + 1]@);
                            output = Some(args[i + 1].clone());
                            i = i + 2;
                        } else {
                            return Err(CompilationError::internal(string_from("falta la ruta después de --output")));
                        }
                    } else if str_equal(arg, "--source") {
                        if i + 1 < args.len() {
                            assert(av[i + 1] == args@[i + 1]@);
                            input = Some(InputSource::Inline(args[i + 1].clone()));
                            i = i + 2;
                        } else {
                            return Err(CompilationError::internal(string_from("falta el texto después de --source")));
                        }
                    } else if starts_with_dash(arg) {
                        let mut message = string_from("opción desconocida: ");
                        push_str(&mut message, arg);
                        return Err(CompilationError::internal(message));
                    } else {
                        input = Some(InputSource::File(string_from(arg)));
                        i = i + 1;
                    }
                },
            }
        }
        match input {
            Some(input) => Ok(CliCommand::Run(CliConfig { input, mode, output })),
            None => Err(CompilationError::internal(string_from("debes pasar un archivo o usar --source"))),
        }
    }
}

/// Whether the text starts with `-`.
fn starts_with_dash(a: &str) -> (r: bool)
    ensures
        r == (a@.len() > 0 && a@[0] == '-'),
{
    let cs = crate::text::chars_of(a);
    cs.len() > 0 && cs[0] == '-'
}

} // verus!
