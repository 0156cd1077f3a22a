use vstd::prelude::*;

use crate::codegen::{CodegenArtifact, CodegenBackend, CodegenContext, CodegenTarget, LlvmInkwellBackend};
use crate::errors::{CompilationError, CompileResult, SemanticError};
use crate::ir::{run_ssa_renaming, IRModule};
use crate::lexer::spec::law_tokenize_ends_with_one_eof;
use crate::parser::{ends_with_eof, program_run, Parser, Program};
use crate::semantic::SemanticAnalyzer;
use crate::lexer::spec::tokenize;
use crate::lexer::token::{tag_invalid, TokenView};
use crate::lexer::{Lexer, Token};
use crate::span::Span;
use crate::text::{chars_of, push_char, str_equal, string_from, string_from_seq};

verus! {

/// A stage of the compiler, in order.
#[derive(Debug, Clone, Copy, PartialEq, Eq)]
pub enum PipelineStage {
    Lex,
    Parse,
    Semantic,
    Ir,
    Codegen,
}

impl PipelineStage {
    pub fn label(self) -> (r: &'static str)
        ensures
            r@ == match self {
                PipelineStage::Lex => "lex"@,
                PipelineStage::Parse => "parse"@,
                PipelineStage::Semantic => "semantic"@,
                PipelineStage::Ir => "ir"@,
                PipelineStage::Codegen => "codegen"@,
            },
    {
        match self {
            PipelineStage::Lex => "lex",
            PipelineStage::Parse => "parse",
            PipelineStage::Semantic => "semantic",
            PipelineStage::Ir => "ir",
            PipelineStage::Codegen => "codegen",
        }
    }
}

/// Whether `c` has the Unicode White_Space property, which is what
/// `char::is_whitespace` tests: tab, line feed, vertical tab, form feed,
/// carriage return, space, next line, no-break space, ogham space mark, the
/// spaces from en quad to hair space, line and paragraph separators, narrow
/// no-break space, medium mathematical space and ideographic space.
pub open spec fn char_is_whitespace(c: char) -> bool {
    let u = c as u32;
    ||| 0x9 <= u <= 0xD
    ||| u == 0x20
    ||| u == 0x85
    ||| u == 0xA0
    ||| u == 0x1680
    ||| 0x2000 <= u <= 0x200A
    ||| u == 0x2028
    ||| u == 0x2029
    ||| u == 0x202F
    ||| u == 0x205F
    ||| u == 0x3000
}

/// Whether `c` is white space (see `char_is_whitespace`).
fn is_whitespace(c: char) -> (r: bool)
    ensures
        r == char_is_whitespace(c),
{
    let u = c as u32;
    (0x9 <= u && u <= 0xD) || u == 0x20 || u == 0x85 || u == 0xA0 || u == 0x1680 || (0x2000 <= u && u <= 0x200A)
        || u == 0x2028 || u == 0x2029 || u == 0x202F || u == 0x205F || u == 0x3000
}

/// What `Path::file_stem` gives for the path written `p`, when it is valid text.
pub uninterp spec fn path_file_stem(p: Seq<char>) -> Option<Seq<char>>;

/// The stem of the last component of the path `p` (`Path::file_stem`), when
/// there is one and it is valid text. The contract names the result and says
/// nothing more of it.
#[verifier::external_body]
fn file_stem(p: &str) -> (r: Option<String>)
    ensures
        match r {
            Some(s) => path_file_stem(p@) == Some(s@),
            None => path_file_stem(p@) is None,
        },
{
    match std::path::Path::new(p).file_stem() {
        Some(stem) => match stem.to_str() {
            Some(text) => Some(text.to_string()),
            None => None,
        },
        None => None,
    }
}

/// `s` without the white space at both ends.
pub open spec fn trimmed(s: Seq<char>) -> Seq<char>
    decreases s.len(),
{
    if s.len() > 0 && char_is_whitespace(s[0]) {
        trimmed(s.drop_first())
    } else if s.len() > 0 && char_is_whitespace(s.last()) {
        trimmed(s.drop_last())
    } else {
        s
    }
}

/// A character that may stand in a module name: an ASCII letter or digit, or `_`.
pub open spec fn module_char(c: char) -> bool {
    ('a' <= c <= 'z') || ('A' <= c <= 'Z') || ('0' <= c <= '9') || c == '_'
}

/// Each character that may not stand in a module name replaced by `_`.
pub open spec fn sanitized(s: Seq<char>) -> Seq<char> {
    s.map_values(|c: char| if module_char(c) { c } else { '_' })
}

/// The name of the module compiled from `file_name`: `inline` for inline
/// source, else the file's stem with each character that may not stand in a
/// name replaced by `_`, or `lowered` when that leaves nothing.
pub open spec fn module_name_of(file_name: Seq<char>) -> Seq<char> {
    let raw = trimmed(file_name);
    if raw == "<inline>"@ {
        "inline"@
    } else {
        let candidate = match path_file_stem(raw) {
            Some(stem) => stem,
            None => "lowered"@,
        };
        if candidate.len() == 0 {
            "lowered"@
        } else {
            sanitized(candidate)
        }
    }
}

/// The first token of `ts` whose kind is invalid, as its index, or -1.
pub open spec fn first_invalid(ts: Seq<TokenView>) -> int
    decreases ts.len(),
{
    if ts.len() == 0 {
        -1
    } else if ts[0].1.0 == tag_invalid() {
        0
    } else {
        let r = first_invalid(ts.drop_first());
        if r < 0 {
            -1
        } else {
            r + 1
        }
    }
}

/// What running the compiler up to a stage produced.
#[derive(Debug)]
pub struct PipelineReport {
    pub stage: PipelineStage,
    pub tokens: Vec<Token>,
    pub program: Option<Program>,
    pub ir: Option<IRModule>,
    pub codegen: Option<CodegenArtifact>,
}

/// What parsing the tokens `toks` gives: a fresh parser over them parses a
/// program `p`, ending at `b`; the result is `p` when no syntax error was
/// found, else the first syntax error found, where it was found.
pub open spec fn parse_outcome(toks: Seq<TokenView>, r: CompileResult<Program>) -> bool {
    exists|a: Parser, b: Parser, p: Program|
        #![trigger program_run(a, b, p)]
        {
            &&& a.toks() == toks
            &&& a.pos() == 0
            &&& a.diags().len() == 0
            &&& program_run(a, b, p)
            &&& b.diags().len() == 0 ==> r == Ok::<Program, CompilationError>(p)
            &&& b.diags().len() > 0 ==> r == Err::<Program, CompilationError>(
                CompilationError::Parser { error: b.diags()[0].error, span: b.diags()[0].span },
            )
        }
}

/// What checking `program` gives: the result of `analyze` on a fresh
/// analyzer, its error as a semantic error.
pub open spec fn semantic_outcome(program: Program, r: CompileResult<()>) -> bool {
    exists|a0: SemanticAnalyzer, a1: SemanticAnalyzer, x: Result<(), SemanticError>|
        #![trigger SemanticAnalyzer::analysis(a0, program, a1, x)]
        a0.starts_fresh() && SemanticAnalyzer::analysis(a0, program, a1, x) && match x {
            Ok(_) => r is Ok,
            Err(e) => r == Err::<(), CompilationError>(CompilationError::Semantic { error: e }),
        }
}

/// The message of the error the IR stage gives: this build has no lowering
/// from the syntax tree to the intermediate representation.
pub open spec fn no_lowering_message() -> Seq<char> {
    "IR lowering is not available in this build"@
}

/// The compiler, for one source.
#[derive(Debug, Clone)]
pub struct CompilationPipeline {
    source: String,
    file_name: String,
}

impl CompilationPipeline {
    pub closed spec fn spec_source(&self) -> Seq<char> {
        self.source@
    }

    pub closed spec fn spec_file_name(&self) -> Seq<char> {
        self.file_name@
    }

    pub fn new(source: String, file_name: String) -> (p: CompilationPipeline)
        ensures
            p.spec_source() == source@,
            p.spec_file_name() == file_name@,
    {
        CompilationPipeline { source, file_name }
    }

    /// The name of the module (see `module_name_of`).
    pub fn module_name(&self) -> (r: String)
        ensures
            r@ == module_name_of(self.spec_file_name()),
    {
        let raw = trim(self.file_name.as_str());
        if str_equal(raw.as_str(), "<inline>") {
            return string_from("inline");
        }
        let candidate = match file_stem(raw.as_str()) {
            Some(stem) => stem,
            None => string_from("lowered"),
        };
        let cs = chars_of(candidate.as_str());
        if cs.len() == 0 {
            return string_from("lowered");
        }
        let mut out = String::new();
        let mut k: usize = 0;
        while k < cs.len()
            invariant
                0 <= k <= cs@.len(),
                out@ == sanitized(cs@.take(k as int)),
            decreases cs@.len() - k,
        {
            let c = cs[k];
            let keep = ('a' <= c && c <= 'z') || ('A' <= c && c <= 'Z') || ('0' <= c && c <= '9') || c == '_';
            if keep {
                push_char(&mut out, c);
            } else {
                push_char(&mut out, '_');
            }
            assert(sanitized(cs@.take(k + 1)) =~= sanitized(cs@.take(k as int)).push(out@.last()));
            k = k + 1;
        }
        assert(cs@.take(k as int) =~= cs@);
        out
    }

    /// The tokens of the source, up to the end-of-file token; refused at the
    /// first invalid token, whose text is the message.
    pub fn lex(&self) -> (r: CompileResult<Vec<Token>>)
        requires
            self.spec_source().len() < usize::MAX,
        ensures
            ({
                let all = tokenize(self.spec_source(), self.spec_file_name(), (0int, 1int, 1int));
                let k = first_invalid(all);
                match r {
                    Ok(ts) => k == -1 && ts@.map_values(|t: Token| t@) == all,
                    Err(e) => 0 <= k < all.len() && (e matches CompilationError::Lexer { message, span }
                        && message@ == all[k].0 && span@ == all[k].2),
                }
            }),
    {
        let mut lexer = Lexer::new(self.source.clone(), self.file_name.clone());
        let tokens = lexer.tokenize();
        let ghost all = tokens@.map_values(|t: Token| t@);
        let mut i: usize = 0;
        while i < tokens.len()
            invariant
                0 <= i <= tokens@.len(),
                all == tokens@.map_values(|t: Token| t@),
                all == tokenize(self.spec_source(), self.spec_file_name(), (0int, 1int, 1int)),
                forall|j: int| 0 <= j < i ==> all[j].1.0 != tag_invalid(),
            decreases tokens@.len() - i,
        {
            assert(all[i as int] == tokens@[i as int]@);
            if tokens[i].token_type.tag() == 55 {
                proof {
                    lemma_first_invalid(all, i as int);
                }
                return Err(CompilationError::lexer(tokens[i].lexeme.clone(), tokens[i].span.copy_exact()));
            }
            i = i + 1;
        }
        proof {
            lemma_first_invalid_none(all);
        }
        Ok(tokens)
    }
}

impl CompilationPipeline {
    /// Parses the tokens of a program; refused with the first syntax error
    /// found, at the span where it was found.
    pub fn parse(&self, tokens: Vec<Token>) -> (r: CompileResult<Program>)
        requires
            ends_with_eof(tokens@.map_values(|t: Token| t@)),
        ensures
            r matches Err(e) ==> e is Parser,
            parse_outcome(tokens@.map_values(|t: Token| t@), r),
    {
        let mut parser = Parser::new(tokens);
        let ghost a = parser;
        let (program, errors) = parser.parse_program_with_errors();
        let ghost b = choose|b: Parser| program_run(a, b, program) && errors@ == b.diags();
        let ghost p = program;
        if errors.len() > 0 {
            let mut errors = errors;
            let diagnostic = errors.remove(0);
            let r = Err(CompilationError::parser(diagnostic.error, diagnostic.span));
            assert(program_run(a, b, p));
            return r;
        }
        assert(program_run(a, b, p));
        Ok(program)
    }

    /// Checks a program with a fresh analyzer; refused with the error the
    /// analyzer gives.
    pub fn semantic(&self, program: &Program) -> (r: CompileResult<()>)
        ensures
            r matches Err(e) ==> e is Semantic,
            semantic_outcome(*program, r),
    {
        let mut analyzer = SemanticAnalyzer::new();
        let ghost a0 = analyzer;
        let result = analyzer.analyze(program);
        let ghost a1 = analyzer;
        assert(SemanticAnalyzer::analysis(a0, *program, a1, result));
        match result {
            Ok(()) => Ok(()),
            Err(e) => Err(CompilationError::semantic(e)),
        }
    }

    /// Lowers a program to the intermediate representation. This build has
    /// no lowering, so it is always refused.
    pub fn ir(&self, _program: &Program) -> (r: CompileResult<IRModule>)
        ensures
            r matches Err(CompilationError::Internal { message }) && message@ == no_lowering_message(),
    {
        Err(CompilationError::internal(string_from("IR lowering is not available in this build")))
    }

    /// Generates code for a module with the library-bindings backend and LLVM
    /// IR as target; that backend is disabled in this build, so this is
    /// refused with its error, as text.
    pub fn codegen(&self, ir: &IRModule) -> (r: CompileResult<CodegenArtifact>)
        ensures
            r matches Err(CompilationError::Internal { message })
                && message@ == "inkwell backend is not enabled; build with feature 'llvm-verify'"@,
    {
        let backend = LlvmInkwellBackend::new();
        let context = CodegenContext::new(self.module_name(), CodegenTarget::LlvmIr);
        match backend.emit_module(ir, &context) {
            Ok(artifact) => Ok(artifact),
            Err(error) => Err(CompilationError::internal(error.render())),
        }
    }

    /// Runs the stages up to `stage`, in order, and reports what they made;
    /// the first stage that fails gives the error.
    pub fn run_to(&self, stage: PipelineStage) -> (r: CompileResult<PipelineReport>)
        requires
            self.spec_source().len() < usize::MAX,
        ensures
            ({
                let all = tokenize(self.spec_source(), self.spec_file_name(), (0int, 1int, 1int));
                let k = first_invalid(all);
                if k >= 0 {
                    r matches Err(e) && e is Lexer
                } else {
                    &&& r matches Ok(rep) ==> {
                        &&& rep.stage == stage
                        &&& rep.tokens@.map_values(|t: Token| t@) == all
                        &&& (stage is Lex <==> rep.program is None)
                        &&& rep.ir is None
                        &&& rep.codegen is None
                    }
                    &&& (stage is Lex ==> r is Ok)
                    &&& (stage is Ir || stage is Codegen) ==> (r matches Err(e) && (e is Parser || e is Semantic
                        || (e matches CompilationError::Internal { message } && message@ == no_lowering_message())))
                    &&& r matches Err(e) ==> (e is Parser || e is Semantic || e is Internal)
                    &&& !(stage is Lex) ==> exists|pr: CompileResult<Program>|
                        #![trigger parse_outcome(all, pr)]
                        parse_outcome(all, pr) && match pr {
                            Err(e) => r == Err::<PipelineReport, CompilationError>(e),
                            Ok(p) => if stage is Parse {
                                r matches Ok(rep) && rep.program == Some(p)
                            } else {
                                exists|sr: CompileResult<()>|
                                    #![trigger semantic_outcome(p, sr)]
                                    semantic_outcome(p, sr) && match sr {
                                        Err(e) => r == Err::<PipelineReport, CompilationError>(e),
                                        Ok(_) => if stage is Semantic {
                                            r matches Ok(rep) && rep.program == Some(p)
                                        } else {
                                            r matches Err(CompilationError::Internal { message }) && message@
                                                == no_lowering_message()
                                        },
                                    }
                            },
                        }
                }
            }),
    {
        let tokens = match self.lex() {
            Ok(t) => t,
            Err(e) => {
                return Err(e);
            },
        };
        match stage {
            PipelineStage::Lex => {
                return Ok(PipelineReport { stage, tokens, program: None, ir: None, codegen: None });
            },
            _ => {},
        }
        proof {
            law_tokenize_ends_with_one_eof(self.spec_source(), self.spec_file_name(), (0int, 1int, 1int));
        }
        let copies = copy_tokens(&tokens);
        let parsed = self.parse(copies);
        let ghost pr = parsed;
        let program = match parsed {
            Ok(p) => p,
            Err(e) => {
                return Err(e);
            },
        };
        match stage {
            PipelineStage::Parse => {
                return Ok(PipelineReport { stage, tokens, program: Some(program), ir: None, codegen: None });
            },
            _ => {},
        }
        let checked = self.semantic(&program);
        let ghost sr = checked;
        match checked {
            Ok(()) => {},
            Err(e) => {
                return Err(e);
            },
        }
        match stage {
            PipelineStage::Semantic => {
                return Ok(PipelineReport { stage, tokens, program: Some(program), ir: None, codegen: None });
            },
            _ => {},
        }
        match self.ir(&program) {
            Ok(ir) => {
                let mut ir = ir;
                run_ssa_renaming(&mut ir);
                match stage {
                    PipelineStage::Ir => {
                        return Ok(PipelineReport { stage, tokens, program: Some(program), ir: Some(ir), codegen: None });
                    },
                    _ => {},
                }
                let codegen = match self.codegen(&ir) {
                    Ok(c) => c,
                    Err(e) => {
                        return Err(e);
                    },
                };
                Ok(PipelineReport { stage, tokens, program: Some(program), ir: Some(ir), codegen: Some(codegen) })
            },
            Err(e) => Err(e),
        }
    }
}

/// A copy of a list of tokens, equal to it token by token.
fn copy_tokens(ts: &Vec<Token>) -> (r: Vec<Token>)
    ensures
        r@.map_values(|t: Token| t@) == ts@.map_values(|t: Token| t@),
{
    let mut r: Vec<Token> = Vec::new();
    let mut i: usize = 0;
    while i < ts.len()
        invariant
            0 <= i <= ts@.len(),
            r@.map_values(|t: Token| t@) == ts@.take(i as int).map_values(|t: Token| t@),
        decreases ts@.len() - i,
    {
        r.push(ts[i].copy());
        assert(ts@.take(i + 1).map_values(|t: Token| t@) =~= ts@.take(i as int).map_values(|t: Token| t@).push(
            ts@[i as int]@,
        ));
        i = i + 1;
    }
    assert(ts@.take(i as int) =~= ts@);
    r
}

proof fn lemma_first_invalid(ts: Seq<TokenView>, i: int)
    requires
        0 <= i < ts.len(),
        ts[i].1.0 == tag_invalid(),
        forall|j: int| 0 <= j < i ==> ts[j].1.0 != tag_invalid(),
    ensures
        first_invalid(ts) == i,
    decreases i,
{
    if i > 0 {
        lemma_first_invalid(ts.drop_first(), i - 1);
    }
}

proof fn lemma_first_invalid_none(ts: Seq<TokenView>)
    requires
        forall|j: int| 0 <= j < ts.len() ==> ts[j].1.0 != tag_invalid(),
    ensures
        first_invalid(ts) == -1,
    decreases ts.len(),
{
    if ts.len() > 0 {
        lemma_first_invalid_none(ts.drop_first());
    }
}

/// `s` without the white space at both ends (`str::trim`, written here).
pub(crate) fn trim(s: &str) -> (r: String)
    ensures
        r@ == trimmed(s@),
{
    let cs = chars_of(s);
    let mut lo: usize = 0;
    let mut hi: usize = cs.len();
    assert(cs@.subrange(0, cs@.len() as int) =~= cs@);
    while lo < hi && is_whitespace(cs[lo])
        invariant
            0 <= lo <= hi <= cs@.len(),
            hi == cs@.len(),
            trimmed(s@) == trimmed(cs@.subrange(lo as int, hi as int)),
            cs@ == s@,
        decreases hi - lo,
    {
        assert(cs@.subrange(lo as int, hi as int).drop_first() =~= cs@.subrange(lo + 1, hi as int));
        lo = lo + 1;
    }
    while lo < hi && is_whitespace(cs[hi - 1])
        invariant
            0 <= lo <= hi <= cs@.len(),
            trimmed(s@) == trimmed(cs@.subrange(lo as int, hi as int)),
            lo < hi ==> !char_is_whitespace(cs@[lo as int]),
            cs@ == s@,
        decreases hi - lo,
    {
        let ghost sub = cs@.subrange(lo as int, hi as int);
        assert(sub[0] == cs@[lo as int]);
        assert(sub.last() == cs@[hi - 1]);
        assert(sub.drop_last() =~= cs@.subrange(lo as int, hi - 1));
        hi = hi - 1;
    }
    let ghost sub = cs@.subrange(lo as int, hi as int);
    if lo < hi {
        assert(sub[0] == cs@[lo as int]);
        assert(sub.last() == cs@[hi - 1]);
    }
    let mut out = String::new();
    let mut k = lo;
    while k < hi
        invariant
            lo <= k <= hi <= cs@.len(),
            out@ == cs@.subrange(lo as int, k as int),
        decreases hi - k,
    {
        push_char(&mut out, cs[k]);
        assert(cs@.subrange(lo as int, k + 1) =~= cs@.subrange(lo as int, k as int).push(cs@[k as int]));
        k = k + 1;
    }
    out
}

} // verus!
