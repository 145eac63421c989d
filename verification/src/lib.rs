//! Peps: an emoji-first programming language.
//!
//! The crate is organised by compiler layer: `frontend` turns source text into
//! tokens and a syntax tree, `middle_end` checks declarations and types,
//! `backend` emits stack bytecode, and `runtime` executes that bytecode.
//! Float arithmetic is supplied by the caller of the runners (see
//! [`runtime::float`]).

use vstd::prelude::*;

pub mod backend;
pub mod browser;
pub mod common;
pub mod frontend;
pub mod middle_end;
pub mod runtime;

pub use backend::{bytecode, compiler};
pub use common::{diagnostic, source};
pub use frontend::{ast, lexer, parser, token};
pub use middle_end::{semantic, symbol_table, types};
pub use runtime::vm;

pub use ast::{BinaryOp, ConversionKind, Expr, ForSource, InputKind, Program, Stmt, UnaryOp};
pub use browser::{run_source_for_browser, IdeDiagnostic, RunRequest, RunResponse};
pub use bytecode::{Instruction, Value};
pub use diagnostic::Diagnostic;
pub use runtime::float::{FloatOperation, FloatReply, FloatRequest};
pub use runtime::value::RuntimeValue;
pub use source::Span;
pub use token::{Token, TokenKind};
pub use types::Type;
pub use vm::{ExecutionLimit, RunError, IDE_STEP_LIMIT, INPUT_REQUIRED_PREFIX};

use crate::backend::compiler::transfers_within;
use crate::backend::emission::{code_view, compiled};
use crate::common::graphemes::{byte_len, extended_graphemes};
use crate::frontend::ast::stmts_view;
use crate::frontend::grammar;
use crate::frontend::lexer::{diagnostics_match, lex_result, tokens_match};
use crate::frontend::parser::reports;
use crate::middle_end::reports::program_reports;
use crate::middle_end::semantic::diags_view;
use crate::middle_end::typing::{program_accepted, program_emoji, program_symbols};
use crate::runtime::float::hosts;
use crate::runtime::vm::runs_as;

verus! {

/// The tokens of `source` are `tokens`, and the grammar recognises `program` in them.
pub open spec fn parses_to(source: Seq<char>, tokens: Seq<Token>, program: Program) -> bool {
    &&& lex_result(extended_graphemes(source)) matches Ok(views) && tokens_match(tokens, views)
    &&& grammar::program(tokens) matches Ok((stmts, span)) && stmts == stmts_view(program.statements@)
        && span == program.span
}

/// `emoji` holds exactly the spans of the names of `program` that are read as
/// emoji literals.
pub open spec fn emoji_spans(program: Program, emoji: Seq<(usize, usize)>) -> bool {
    forall|p: (usize, usize)| #[trigger] emoji.contains(p) <==> program_emoji(program.statements@).contains(p)
}

/// The checked program `program`, with the spans `emoji` of its names taken as
/// emoji literals, compiles to `code`.
pub open spec fn compiles_to(program: Program, emoji: Seq<(usize, usize)>, code: Seq<Instruction>) -> bool {
    compiled(program.statements@, program_symbols(program.statements@), emoji) == Some(code_view(code))
}

/// `code` compiles `source`: the tokens of `source` form a program that the
/// grammar recognises and the checker accepts, `code` is what the compiler
/// emits for that program, and every jump and call of `code` continues
/// within it.
pub open spec fn compiled_from(source: Seq<char>, code: Seq<Instruction>) -> bool {
    &&& exists|tokens: Seq<Token>, program: Program, emoji: Seq<(usize, usize)>|
        #![trigger parses_to(source, tokens, program), compiles_to(program, emoji, code)]
        parses_to(source, tokens, program) && program_accepted(program.statements@) && emoji_spans(program, emoji)
            && compiles_to(program, emoji, code)
    &&& transfers_within(code)
}

/// `r` is a result that running the compilation of `source` under `limit`
/// with queued `inputs` may give, the caller's float arithmetic answering as
/// `host` allows.
pub open spec fn source_runs_as(
    source: Seq<char>,
    limit: ExecutionLimit,
    inputs: Seq<String>,
    host: spec_fn(FloatRequest, FloatReply) -> bool,
    r: Result<Vec<String>, RunError>,
) -> bool {
    exists|code: Seq<Instruction>| #![trigger compiled_from(source, code)] compiled_from(source, code) && runs_as(code, limit, inputs, host, r)
}

/// The tokens of `source` are `tokens`, and the grammar stops on them with `error`.
pub open spec fn syntax_error_in(source: Seq<char>, tokens: Seq<Token>, error: grammar::SyntaxError) -> bool {
    &&& lex_result(extended_graphemes(source)) matches Ok(views) && tokens_match(tokens, views)
    &&& grammar::program(tokens) matches Err(e) && e == error
}

/// `ds` are the diagnostics with which compiling `source` fails: the lexer's
/// errors; or the grammar's first error; or the checker's diagnostics for a
/// program it refuses, each rule's message and span in program order; or the one diagnostic for a checked program that does
/// not compile.
pub open spec fn compile_refused(source: Seq<char>, ds: Seq<Diagnostic>) -> bool {
    ||| lex_result(extended_graphemes(source)) matches Err(es) && diagnostics_match(ds, es)
    ||| exists|tokens: Seq<Token>, e: grammar::SyntaxError|
        #![trigger syntax_error_in(source, tokens, e)]
        syntax_error_in(source, tokens, e) && ds.len() == 1 && reports(ds[0], e)
    ||| exists|tokens: Seq<Token>, program: Program|
        #![trigger parses_to(source, tokens, program)]
        parses_to(source, tokens, program) && (
            (!program_accepted(program.statements@) && ds.len() > 0 && diags_view(ds) == program_reports(program.statements@))
            || (program_accepted(program.statements@) && ds.len() == 1 && exists|emoji: Seq<(usize, usize)>|
                emoji_spans(program, emoji) && compiled(program.statements@, program_symbols(program.statements@), emoji) is None))
}

/// Compile Peps source text into bytecode instructions.
///
/// Lexing errors are reported all together, exactly as the lexer finds them;
/// otherwise the first parse error, or every semantic error, is reported.
pub fn compile_source(source: &str) -> (r: Result<Vec<Instruction>, Vec<Diagnostic>>)
    requires
        byte_len(source@) < usize::MAX,
    ensures
        r matches Err(ds) ==> ds@.len() > 0,
        lex_result(extended_graphemes(source@)) matches Err(es) ==> (r matches Err(ds) && diagnostics_match(ds@, es)),
        r matches Ok(code) ==> compiled_from(source@, code@),
        r matches Err(ds) ==> compile_refused(source@, ds@),
        r matches Err(ds) ==> (lex_result(extended_graphemes(source@)) is Err || (exists|tokens: Seq<Token>, e: grammar::SyntaxError|
            #![trigger syntax_error_in(source@, tokens, e)]
            syntax_error_in(source@, tokens, e) && ds@.len() == 1 && reports(ds@[0], e))
            || (exists|tokens: Seq<Token>, program: Program|
                #![trigger parses_to(source@, tokens, program)]
                parses_to(source@, tokens, program) && ((!program_accepted(program.statements@)
                    && diags_view(ds@) == program_reports(program.statements@)) || (ds@.len() == 1
                    && exists|emoji: Seq<(usize, usize)>| emoji_spans(program, emoji)
                        && compiled(program.statements@, program_symbols(program.statements@), emoji) is None)))),
{
    let tokens = lexer::lex(source)?;
    let ghost token_seq = tokens@;
    proof {
        let views = lex_result(extended_graphemes(source@))->Ok_0;
        assert(tokens@.len() == views.len());
        assert(tokens@.last().view() == views.last());
    }
    let program = match parser::parse(tokens) {
        Ok(program) => program,
        Err(ds) => {
            proof {
                let e = grammar::program(token_seq)->Err_0;
                assert(syntax_error_in(source@, token_seq, e));
                assert(compile_refused(source@, ds@));
            }
            return Err(ds);
        },
    };
    let ghost parsed = program;
    let checked = match semantic::check(program) {
        Ok(checked) => checked,
        Err(ds) => {
            proof {
                assert(parses_to(source@, token_seq, parsed));
                assert(compile_refused(source@, ds@));
            }
            return Err(ds);
        },
    };
    let ghost emoji = checked.emoji_literals@;
    let result = compiler::compile(checked);
    proof {
        assert(parses_to(source@, token_seq, parsed));
        if result is Ok {
            assert(emoji_spans(parsed, emoji));
            assert(compiles_to(parsed, emoji, result->Ok_0@));
            assert(compiled_from(source@, result->Ok_0@));
        } else {
            assert(emoji_spans(parsed, emoji));
            assert(compiled(parsed.statements@, program_symbols(parsed.statements@), emoji) is None);
            assert(compile_refused(source@, result->Err_0@));
        }
    }
    result
}

/// The run error of a program that did not compile: no output, the compiler's diagnostics.
fn not_compiled(diagnostics: Vec<Diagnostic>) -> (e: RunError)
    ensures
        e.output@.len() == 0,
        e.diagnostics@ == diagnostics@,
{
    RunError { output: Vec::new(), diagnostics }
}

/// Compile and run Peps source text, returning the printed output lines.
pub fn run_source<F: Fn(FloatRequest) -> FloatReply>(source: &str, float_ops: &F) -> (r: Result<Vec<String>, RunError>)
    requires
        byte_len(source@) < usize::MAX,
        forall|q: FloatRequest| float_ops.requires((q,)),
    ensures
        r matches Err(e) ==> e.diagnostics@.len() > 0,
        lex_result(extended_graphemes(source@)) matches Err(es) ==> (r matches Err(e) && e.output@.len() == 0
            && diagnostics_match(e.diagnostics@, es)),
        r is Ok ==> source_runs_as(source@, ExecutionLimit::Unlimited, Seq::empty(), hosts(float_ops), r),
        r matches Err(e) ==> (e.output@.len() == 0 && compile_refused(source@, e.diagnostics@)) || source_runs_as(source@, ExecutionLimit::Unlimited, Seq::empty(), hosts(float_ops), r),
{
    let bytecode = match compile_source(source) {
        Ok(bytecode) => bytecode,
        Err(diagnostics) => {
            return Err(not_compiled(diagnostics));
        },
    };
    let result = vm::execute(bytecode.as_slice(), float_ops);
    proof {
        assert(compiled_from(source@, bytecode@));
    }
    result
}

/// Compile and run Peps source using input lines supplied in source order.
pub fn run_source_with_inputs<F: Fn(FloatRequest) -> FloatReply>(
    source: &str,
    inputs: Vec<String>,
    float_ops: &F,
) -> (r: Result<Vec<String>, RunError>)
    requires
        byte_len(source@) < usize::MAX,
        forall|q: FloatRequest| float_ops.requires((q,)),
    ensures
        r matches Err(e) ==> e.diagnostics@.len() > 0,
        lex_result(extended_graphemes(source@)) matches Err(es) ==> (r matches Err(e) && e.output@.len() == 0
            && diagnostics_match(e.diagnostics@, es)),
        r is Ok ==> source_runs_as(source@, ExecutionLimit::Unlimited, inputs@, hosts(float_ops), r),
        r matches Err(e) ==> (e.output@.len() == 0 && compile_refused(source@, e.diagnostics@)) || source_runs_as(source@, ExecutionLimit::Unlimited, inputs@, hosts(float_ops), r),
{
    let bytecode = match compile_source(source) {
        Ok(bytecode) => bytecode,
        Err(diagnostics) => {
            return Err(not_compiled(diagnostics));
        },
    };
    let result = vm::execute_with_inputs(bytecode.as_slice(), inputs, float_ops);
    proof {
        assert(compiled_from(source@, bytecode@));
    }
    result
}

/// Compile and run Peps source with a caller-provided instruction step limit.
pub fn run_source_with_step_limit<F: Fn(FloatRequest) -> FloatReply>(
    source: &str,
    step_limit: usize,
    float_ops: &F,
) -> (r: Result<Vec<String>, RunError>)
    requires
        byte_len(source@) < usize::MAX,
        forall|q: FloatRequest| float_ops.requires((q,)),
    ensures
        r matches Err(e) ==> e.diagnostics@.len() > 0,
        lex_result(extended_graphemes(source@)) matches Err(es) ==> (r matches Err(e) && e.output@.len() == 0
            && diagnostics_match(e.diagnostics@, es)),
        r is Ok ==> source_runs_as(source@, ExecutionLimit::Steps(step_limit), Seq::empty(), hosts(float_ops), r),
        r matches Err(e) ==> (e.output@.len() == 0 && compile_refused(source@, e.diagnostics@)) || source_runs_as(source@, ExecutionLimit::Steps(step_limit), Seq::empty(), hosts(float_ops), r),
{
    let bytecode = match compile_source(source) {
        Ok(bytecode) => bytecode,
        Err(diagnostics) => {
            return Err(not_compiled(diagnostics));
        },
    };
    let result = vm::execute_with_step_limit(bytecode.as_slice(), step_limit, float_ops);
    proof {
        assert(compiled_from(source@, bytecode@));
    }
    result
}

/// Compile and run Peps source with queued inputs and a step limit.
pub fn run_source_with_inputs_and_step_limit<F: Fn(FloatRequest) -> FloatReply>(
    source: &str,
    inputs: Vec<String>,
    step_limit: usize,
    float_ops: &F,
) -> (r: Result<Vec<String>, RunError>)
    requires
        byte_len(source@) < usize::MAX,
        forall|q: FloatRequest| float_ops.requires((q,)),
    ensures
        r matches Err(e) ==> e.diagnostics@.len() > 0,
        lex_result(extended_graphemes(source@)) matches Err(es) ==> (r matches Err(e) && e.output@.len() == 0
            && diagnostics_match(e.diagnostics@, es)),
        r is Ok ==> source_runs_as(source@, ExecutionLimit::Steps(step_limit), inputs@, hosts(float_ops), r),
        r matches Err(e) ==> (e.output@.len() == 0 && compile_refused(source@, e.diagnostics@)) || source_runs_as(source@, ExecutionLimit::Steps(step_limit), inputs@, hosts(float_ops), r),
{
    let bytecode = match compile_source(source) {
        Ok(bytecode) => bytecode,
        Err(diagnostics) => {
            return Err(not_compiled(diagnostics));
        },
    };
    let result = vm::execute_with_inputs_and_limit(bytecode.as_slice(), inputs, ExecutionLimit::Steps(step_limit), float_ops);
    proof {
        assert(compiled_from(source@, bytecode@));
    }
    result
}

} // verus!
