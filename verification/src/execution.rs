use vstd::prelude::*;

use crate::cli::{CliConfig, InputSource};
use crate::text::string_from;

verus! {

/// What `Path::is_absolute` gives for the path written `p`.
pub uninterp spec fn path_is_absolute(p: Seq<char>) -> bool;

/// What `Path::join` gives for the paths written `base` and `p`, as text.
pub uninterp spec fn path_joined(base: Seq<char>, p: Seq<char>) -> Seq<char>;

/// What `Path::with_extension` gives for the path written `p` and the
/// extension `ext`, as text.
pub uninterp spec fn path_with_extension(p: Seq<char>, ext: Seq<char>) -> Seq<char>;

/// Whether the path `p` is absolute (`Path::is_absolute`). The contract names
/// the result.
#[verifier::external_body]
fn is_absolute(p: &str) -> (r: bool)
    ensures
        r == path_is_absolute(p@),
{
    std::path::Path::new(p).is_absolute()
}

/// `p` joined to `base` (`Path::join`), as text. The contract names the
/// result.
#[verifier::external_body]
fn join(base: &str, p: &str) -> (r: String)
    ensures
        r@ == path_joined(base@, p@),
{
    std::path::Path::new(base).join(p).to_string_lossy().into_owned()
}

/// `p` with its extension replaced by `ext`, or added
/// (`Path::with_extension`), as text. The contract names the result. An
/// extension with a path separator makes `Path::with_extension` panic, so
/// it is left out.
#[verifier::external_body]
fn with_extension(p: &str, ext: &str) -> (r: String)
    requires
        forall|i: int| 0 <= i < ext@.len() ==> ext@[i] != '/' && ext@[i] != '\\',
    ensures
        r@ == path_with_extension(p@, ext@),
{
    std::path::Path::new(p).with_extension(ext).to_string_lossy().into_owned()
}

/// The files of a native build: the LLVM IR, the bitcode and the executable.
#[derive(Debug, Clone, PartialEq, Eq)]
pub struct NativeRunPaths {
    pub llvm_ir: String,
    pub bitcode: String,
    pub executable: String,
}

/// The executable a run builds: the output asked for, else `output`, taken
/// from `current_dir` when it is not absolute.
pub open spec fn executable_path(output: Option<Seq<char>>, current_dir: Seq<char>) -> Seq<char> {
    let p = match output {
        Some(o) => o,
        None => "output"@,
    };
    if path_is_absolute(p) {
        p
    } else {
        path_joined(current_dir, p)
    }
}

/// The files of a native build for `config`, from the working directory
/// `current_dir`: the executable (see `executable_path`), and beside it the
/// LLVM IR (extension `ll`) and the bitcode (extension `bc`).
pub fn default_run_paths(config: &CliConfig, current_dir: &str) -> (r: NativeRunPaths)
    ensures
        ({
            let exe = executable_path(
                match config.output {
                    Some(o) => Some(o@),
                    None => None,
                },
                current_dir@,
            );
            &&& r.executable@ == exe
            &&& r.llvm_ir@ == path_with_extension(exe, "ll"@)
            &&& r.bitcode@ == path_with_extension(exe, "bc"@)
        }),
{
    let requested = match &config.output {
        Some(o) => o.clone(),
        None => string_from("output"),
    };
    let executable = if is_absolute(requested.as_str()) {
        requested
    } else {
        join(current_dir, requested.as_str())
    };
    proof {
        reveal_strlit("ll");
        reveal_strlit("bc");
    }
    let llvm_ir = with_extension(executable.as_str(), "ll");
    let bitcode = with_extension(executable.as_str(), "bc");
    NativeRunPaths { llvm_ir, bitcode, executable }
}

/// Where `--codegen` writes the LLVM IR: the input file with extension `ll`,
/// or `output.ll` for inline source.
pub fn default_codegen_path(config: &CliConfig) -> (r: String)
    ensures
        match config.input {
            InputSource::File(p) => r@ == path_with_extension(p@, "ll"@),
            InputSource::Inline(_) => r@ == "output.ll"@,
        },
{
    proof {
        reveal_strlit("ll");
    }
    match &config.input {
        InputSource::File(path) => with_extension(path.as_str(), "ll"),
        InputSource::Inline(_) => string_from("output.ll"),
    }
}

} // verus!
