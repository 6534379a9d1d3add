//! Diagnostics shared by the parser, AST validation and the serializer.
use vstd::prelude::*;

use crate::span::Span;

verus! {

/// How severe a [`Diagnostic`] is.
#[derive(Clone, Copy, Debug, PartialEq, Eq, Structural)]
#[non_exhaustive]
pub enum DiagnosticSeverity {
    Warning,
    Error,
}

/// What a [`Diagnostic`] reports.
#[derive(Clone, Copy, Debug, PartialEq, Eq, Structural)]
#[non_exhaustive]
pub enum DiagnosticCode {
    InvalidDirectiveName,
    UnclosedDirectiveContainer,
    InvalidMdx,
    StrictParse,
    /// AST validation failure (an invalid or unsupported node shape), the single
    /// code used by `Document::validate` and by serialize pre-validation.
    InvalidDocument,
}

/// A single diagnostic across every domain — parser, AST validation, and the
/// serialize pre-validation that wraps it. `span` is optional because a
/// hand-built AST node may carry no source location.
#[derive(Clone, Debug, PartialEq, Eq)]
pub struct Diagnostic {
    pub severity: DiagnosticSeverity,
    pub code: DiagnosticCode,
    pub span: Option<Span>,
    pub message: String,
}

impl Diagnostic {
    /// A parser diagnostic, which always carries a source span.
    pub fn new(severity: DiagnosticSeverity, code: DiagnosticCode, span: Span, message: &str) -> (r:
        Self)
        ensures
            r.severity == severity,
            r.code == code,
            r.span == Some(span),
            r.message@ == message@,
    {
        Diagnostic { severity, code, span: Some(span), message: message.to_owned() }
    }

    /// An AST-validation diagnostic (`Error` severity, `InvalidDocument` code),
    /// whose span is optional because a hand-built node may lack one.
    pub fn invalid(span: Option<Span>, message: &str) -> (r: Self)
        ensures
            r.severity == DiagnosticSeverity::Error,
            r.code == DiagnosticCode::InvalidDocument,
            r.span == span,
            r.message@ == message@,
    {
        Diagnostic {
            severity: DiagnosticSeverity::Error,
            code: DiagnosticCode::InvalidDocument,
            span,
            message: message.to_owned(),
        }
    }
}

} // verus!
