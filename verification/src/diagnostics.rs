//! Source locations and the diagnostics the type pass reports.
use vstd::prelude::*;

use crate::text::lit;

verus! {

/// A half-open byte range `[start, end)` in a named source file.
#[derive(Clone, Debug, PartialEq, Eq)]
pub struct SourceSpan {
    pub file: String,
    pub start: usize,
    pub end: usize,
}

/// The model of a [`SourceSpan`].
pub struct SpanView {
    pub file: Seq<char>,
    pub start: usize,
    pub end: usize,
}

impl View for SourceSpan {
    type V = SpanView;

    open spec fn view(&self) -> SpanView {
        SpanView { file: self.file@, start: self.start, end: self.end }
    }
}

pub open spec fn span_views(v: Seq<SourceSpan>) -> Seq<SpanView> {
    v.map_values(|s: SourceSpan| s@)
}

impl SourceSpan {
    /// A span of `file` from `start` to `end`.
    pub fn new(file: &str, start: usize, end: usize) -> (s: SourceSpan)
        ensures
            s.file@ == file@,
            s.start == start,
            s.end == end,
    {
        SourceSpan { file: lit(file), start, end }
    }

    /// An identical copy.
    pub fn duplicate(&self) -> (s: SourceSpan)
        ensures
            s@ == self@,
    {
        SourceSpan { file: self.file.clone(), start: self.start, end: self.end }
    }
}

/// How serious a diagnostic is.
#[derive(Clone, Copy, Debug, PartialEq, Eq)]
pub enum Severity {
    Error,
    Warning,
    Suggestion,
}

/// A three-part teaching diagnostic: what happened, what to do instead, and why.
#[derive(Clone, Debug, PartialEq, Eq)]
pub struct Diagnostic {
    pub severity: Severity,
    pub span: SourceSpan,
    pub what: String,
    pub what_instead: String,
    pub why: String,
    /// Secondary locations, each with its label (such as a first definition).
    pub related: Vec<(SourceSpan, String)>,
}

/// The model of a [`Diagnostic`].
pub struct DiagnosticView {
    pub severity: Severity,
    pub span: SpanView,
    pub what: Seq<char>,
    pub what_instead: Seq<char>,
    pub why: Seq<char>,
    pub related: Seq<(SpanView, Seq<char>)>,
}

impl View for Diagnostic {
    type V = DiagnosticView;

    open spec fn view(&self) -> DiagnosticView {
        DiagnosticView {
            severity: self.severity,
            span: self.span@,
            what: self.what@,
            what_instead: self.what_instead@,
            why: self.why@,
            related: self.related@.map_values(|r: (SourceSpan, String)| (r.0@, r.1@)),
        }
    }
}

/// The models of a list of diagnostics.
pub open spec fn diag_views(v: Seq<Diagnostic>) -> Seq<DiagnosticView> {
    v.map_values(|d: Diagnostic| d@)
}

/// The model of an error diagnostic.
pub open spec fn error_view(span: SpanView, what: Seq<char>, what_instead: Seq<char>, why: Seq<char>) -> DiagnosticView {
    DiagnosticView { severity: Severity::Error, span, what, what_instead, why, related: Seq::empty() }
}

impl Diagnostic {
    /// An error diagnostic.
    pub fn error(span: SourceSpan, what: String, what_instead: String, why: String) -> (d: Diagnostic)
        ensures
            d.severity == Severity::Error,
            d.span == span,
            d.what == what,
            d.what_instead == what_instead,
            d.why == why,
            d@ == error_view(span@, what@, what_instead@, why@),
    {
        let d = Diagnostic { severity: Severity::Error, span, what, what_instead, why, related: Vec::new() };
        proof {
            assert(d@.related =~= Seq::<(SpanView, Seq<char>)>::empty());
        }
        d
    }

    /// The diagnostic with one more related location and its label.
    pub fn with_related(self, span: SourceSpan, label: String) -> (d: Diagnostic)
        ensures
            d@ == (DiagnosticView { related: self@.related.push((span@, label@)), ..self@ }),
    {
        let ghost before = self@;
        let ghost sv = span@;
        let ghost lv = label@;
        let mut d = self;
        d.related.push((span, label));
        proof {
            assert(d@.related =~= before.related.push((sv, lv)));
        }
        d
    }
}

} // verus!
