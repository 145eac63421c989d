//! Human-readable compiler and runtime diagnostics.

use vstd::prelude::*;

use crate::common::source::Span;
use crate::common::text::{decimal, owned, push_decimal, push_str};

verus! {

/// A compiler or runtime error message with an optional source location.
#[derive(Debug, Clone, PartialEq, Eq)]
pub struct Diagnostic {
    /// Human-readable message.
    pub message: String,
    /// Source location the message refers to, when known.
    pub span: Option<Span>,
}

/// The text `format` produces: `error: <message>`, followed, when the diagnostic
/// has a span, by a second line ` --> <file>:<line>:<column>` where the file is
/// `path` or `<source>` when no path is given.
pub open spec fn formatted(message: Seq<char>, span: Option<Span>, path: Option<Seq<char>>) -> Seq<char> {
    let head = "error: "@ + message;
    match span {
        None => head,
        Some(s) => {
            let file = match path {
                Some(p) => p,
                None => "<source>"@,
            };
            head + "\n --> "@ + file + ":"@ + decimal(s.line as nat) + ":"@ + decimal(s.column as nat)
        },
    }
}

impl Diagnostic {
    /// Creates a diagnostic without a source span.
    pub fn new(message: &str) -> (d: Diagnostic)
        ensures
            d.message@ == message@,
            d.span.is_none(),
    {
        Diagnostic { message: owned(message), span: None }
    }

    /// Creates a diagnostic attached to a source span.
    pub fn at(message: &str, span: Span) -> (d: Diagnostic)
        ensures
            d.message@ == message@,
            d.span == Some(span),
    {
        Diagnostic { message: owned(message), span: Some(span) }
    }

    /// Formats the diagnostic as a human-readable error message.
    ///
    /// If a span is available, the output includes the source path, line, and column.
    /// When no path is provided, `"<source>"` is used.
    pub fn format(&self, path: Option<&str>) -> (out: String)
        ensures
            out@ == formatted(self.message@, self.span, match path {
                Some(p) => Some(p@),
                None => None,
            }),
    {
        let mut out = owned("error: ");
        push_str(&mut out, self.message.as_str());
        match self.span {
            None => {},
            Some(span) => {
                push_str(&mut out, "\n --> ");
                match path {
                    Some(p) => push_str(&mut out, p),
                    None => push_str(&mut out, "<source>"),
                }
                push_str(&mut out, ":");
                push_decimal(&mut out, span.line);
                push_str(&mut out, ":");
                push_decimal(&mut out, span.column);
            },
        }
        out
    }
}

} // verus!
