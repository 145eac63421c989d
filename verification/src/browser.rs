//! Shared response model for browser-hosted Peps execution.

use vstd::prelude::*;

use crate::common::diagnostic::Diagnostic;
use crate::common::graphemes::byte_len;
use crate::common::text::chars_of;
use crate::runtime::float::{FloatReply, FloatRequest};
use crate::runtime::vm::{ExecutionLimit, RunError, IDE_STEP_LIMIT, INPUT_REQUIRED_PREFIX};

verus! {

/// Result returned to the browser IDE (serialised to JSON by the server).
#[derive(Debug, PartialEq, Eq)]
pub struct RunResponse {
    /// Whether compilation and execution completed successfully.
    pub ok: bool,
    /// Lines printed by the program before success or failure.
    pub output: Vec<String>,
    /// Compiler or runtime diagnostics formatted for the IDE.
    pub diagnostics: Vec<IdeDiagnostic>,
    /// Input type requested when the queued terminal input has been exhausted.
    pub input_request: Option<String>,
}

/// Diagnostic shape consumed by the browser IDE.
#[derive(Debug, PartialEq, Eq)]
pub struct IdeDiagnostic {
    /// Human-readable diagnostic message.
    pub message: String,
    /// One-based source line, when a source span is available.
    pub line: Option<usize>,
    /// One-based source column, when a source span is available.
    pub column: Option<usize>,
    /// Byte offset where the diagnostic span starts.
    pub start: Option<usize>,
    /// Byte offset where the diagnostic span ends.
    pub end: Option<usize>,
}

/// The request body the browser IDE sends to run source code.
#[derive(Debug, PartialEq, Eq)]
pub struct RunRequest {
    /// Source code to compile and execute.
    pub source: String,
}

/// Whether an IDE diagnostic carries a diagnostic's message and location.
pub open spec fn ide_diagnostic_of(d: Diagnostic, i: IdeDiagnostic) -> bool {
    &&& i.message@ == d.message@
    &&& match d.span {
        Some(s) => i.line == Some(s.line) && i.column == Some(s.column) && i.start == Some(s.start)
            && i.end == Some(s.end),
        None => i.line is None && i.column is None && i.start is None && i.end is None,
    }
}

/// The text after `prefix`, when `text` starts with it.
pub open spec fn after_prefix(text: Seq<char>, prefix: Seq<char>) -> Option<Seq<char>> {
    if prefix.len() <= text.len() && text.subrange(0, prefix.len() as int) == prefix {
        Some(text.subrange(prefix.len() as int, text.len() as int))
    } else {
        None
    }
}

/// The response to a run's result: success with its output; or a failure whose
/// first diagnostic asks for input, reported as that input request; or a
/// failure with its diagnostics.
pub open spec fn response_matches(result: Result<Vec<String>, RunError>, response: RunResponse) -> bool {
    match result {
        Ok(output) => response.ok && response.output@ == output@ && response.diagnostics@.len() == 0
            && response.input_request is None,
        Err(error) => {
            let request = if error.diagnostics@.len() > 0 {
                after_prefix(error.diagnostics@[0].message@, "input required: "@)
            } else {
                None
            };
            &&& !response.ok
            &&& response.output@ == error.output@
            &&& match request {
                Some(kind) => response.input_request matches Some(k) && k@ == kind
                    && response.diagnostics@.len() == 0,
                None => response.input_request is None && response.diagnostics@.len() == error.diagnostics@.len()
                    && forall|i: int| 0 <= i < error.diagnostics@.len()
                        ==> ide_diagnostic_of(error.diagnostics@[i], #[trigger] response.diagnostics@[i]),
            }
        },
    }
}

impl IdeDiagnostic {
    /// The IDE form of a diagnostic.
    pub fn from_diagnostic(diagnostic: &Diagnostic) -> (r: IdeDiagnostic)
        ensures
            ide_diagnostic_of(*diagnostic, r),
    {
        match diagnostic.span {
            Some(span) => IdeDiagnostic {
                message: diagnostic.message.clone(),
                line: Some(span.line),
                column: Some(span.column),
                start: Some(span.start),
                end: Some(span.end),
            },
            None => IdeDiagnostic {
                message: diagnostic.message.clone(),
                line: None,
                column: None,
                start: None,
                end: None,
            },
        }
    }
}

/// The text after `prefix`, when `text` starts with it (`str::strip_prefix`).
fn strip_prefix(text: &str, prefix: &str) -> (r: Option<String>)
    ensures
        match r {
            Some(rest) => after_prefix(text@, prefix@) == Some(rest@),
            None => after_prefix(text@, prefix@) is None,
        },
{
    let t = chars_of(text);
    let p = chars_of(prefix);
    if p.len() > t.len() {
        return None;
    }
    let mut i: usize = 0;
    while i < p.len()
        invariant
            t@ == text@,
            p@ == prefix@,
            p@.len() <= t@.len(),
            0 <= i <= p@.len(),
            forall|j: int| 0 <= j < i ==> t@[j] == p@[j],
        decreases p@.len() - i,
    {
        if t[i] != p[i] {
            proof {
                assert(text@.subrange(0, prefix@.len() as int)[i as int] != prefix@[i as int]);
            }
            return None;
        }
        i = i + 1;
    }
    proof {
        assert(text@.subrange(0, prefix@.len() as int) =~= prefix@);
    }
    let mut rest = String::new();
    let mut k: usize = p.len();
    while k < t.len()
        invariant
            t@ == text@,
            p@ == prefix@,
            p@.len() <= k <= t@.len(),
            rest@ == text@.subrange(p@.len() as int, k as int),
        decreases t@.len() - k,
    {
        crate::common::text::push_char(&mut rest, t[k]);
        proof {
            assert(text@.subrange(p@.len() as int, k + 1) =~= text@.subrange(p@.len() as int, k as int).push(t@[k as int]));
        }
        k = k + 1;
    }
    Some(rest)
}

/// The browser response for a run's result.
pub fn browser_response(result: Result<Vec<String>, RunError>) -> (r: RunResponse)
    ensures
        response_matches(result, r),
{
    match result {
        Ok(output) => RunResponse { ok: true, output, diagnostics: Vec::new(), input_request: None },
        Err(error) => {
            let input_request = if error.diagnostics.len() > 0 {
                strip_prefix(error.diagnostics[0].message.as_str(), INPUT_REQUIRED_PREFIX)
            } else {
                None
            };
            proof {
                reveal_strlit("input required: ");
            }
            let diagnostics = if input_request.is_some() {
                Vec::new()
            } else {
                let mut converted: Vec<IdeDiagnostic> = Vec::new();
                let mut i: usize = 0;
                while i < error.diagnostics.len()
                    invariant
                        0 <= i <= error.diagnostics@.len(),
                        converted@.len() == i,
                        forall|j: int| 0 <= j < i ==> ide_diagnostic_of(error.diagnostics@[j], #[trigger] converted@[j]),
                    decreases error.diagnostics@.len() - i,
                {
                    converted.push(IdeDiagnostic::from_diagnostic(&error.diagnostics[i]));
                    i = i + 1;
                }
                converted
            };
            RunResponse { ok: false, output: error.output, diagnostics, input_request }
        },
    }
}

/// Compile and run browser-submitted source with the IDE safety limit.
pub fn run_source_for_browser<F: Fn(FloatRequest) -> FloatReply>(source: &str, inputs: &[String], float_ops: &F) -> (r: RunResponse)
    requires
        byte_len(source@) < usize::MAX,
        forall|q: FloatRequest| float_ops.requires((q,)),
    ensures
        !r.ok ==> r.diagnostics@.len() > 0 || r.input_request is Some,
        exists|result: Result<Vec<String>, RunError>| #[trigger] response_matches(result, r) && (
            (result matches Err(e) && e.output@.len() == 0 && crate::compile_refused(source@, e.diagnostics@))
            || crate::source_runs_as(source@, ExecutionLimit::Steps(IDE_STEP_LIMIT), inputs@, crate::runtime::float::hosts(float_ops), result)),
{
    let mut queued: Vec<String> = Vec::new();
    let mut i: usize = 0;
    while i < inputs.len()
        invariant
            0 <= i <= inputs@.len(),
            queued@ == inputs@.subrange(0, i as int),
        decreases inputs@.len() - i,
    {
        queued.push(inputs[i].clone());
        proof {
            assert(inputs@.subrange(0, i + 1) =~= inputs@.subrange(0, i as int).push(inputs@[i as int]));
        }
        i = i + 1;
    }
    proof {
        assert(inputs@.subrange(0, inputs@.len() as int) =~= inputs@);
    }
    let result = crate::run_source_with_inputs_and_step_limit(source, queued, IDE_STEP_LIMIT, float_ops);
    let ghost outcome = result;
    let r = browser_response(result);
    proof {
        assert(response_matches(outcome, r));
    }
    r
}

} // verus!
