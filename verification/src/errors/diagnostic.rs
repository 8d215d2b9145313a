//! Diagnostics: a message with an optional location, notes and suggestions.

use vstd::prelude::*;
use super::Span;
use crate::text::string_of;

verus! {

#[derive(Debug, Clone, Copy, PartialEq, Eq, Structural)]
pub enum DiagnosticLevel {
    Error,
    Warning,
    Info,
    Help,
}

/// A suggestion for fixing an error.
#[derive(Debug)]
pub struct Suggestion {
    pub message: String,
    pub replacement: Option<String>,
    pub span: Option<Span>,
}

/// A diagnostic message with source location.
#[derive(Debug)]
pub struct Diagnostic {
    pub level: DiagnosticLevel,
    pub message: String,
    pub span: Option<Span>,
    pub notes: Vec<String>,
    pub suggestions: Vec<Suggestion>,
    /// Number of lines to show before and after the error.
    pub context_lines: usize,
}

/// The value a suggestion stands for.
pub ghost struct SuggestionView {
    pub message: Seq<char>,
    pub replacement: Option<Seq<char>>,
    pub span: Option<Span>,
}

/// The value a diagnostic stands for.
pub ghost struct DiagnosticView {
    pub level: DiagnosticLevel,
    pub message: Seq<char>,
    pub span: Option<Span>,
    pub notes: Seq<Seq<char>>,
    pub suggestions: Seq<SuggestionView>,
    pub context_lines: nat,
}

pub open spec fn opt_string_view(o: Option<String>) -> Option<Seq<char>> {
    match o {
        Some(s) => Some(s@),
        None => None,
    }
}

impl View for Suggestion {
    type V = SuggestionView;

    open spec fn view(&self) -> SuggestionView {
        SuggestionView {
            message: self.message@,
            replacement: opt_string_view(self.replacement),
            span: self.span,
        }
    }
}

impl View for Diagnostic {
    type V = DiagnosticView;

    open spec fn view(&self) -> DiagnosticView {
        DiagnosticView {
            level: self.level,
            message: self.message@,
            span: self.span,
            notes: self.notes@.map_values(|n: String| n@),
            suggestions: self.suggestions@.map_values(|s: Suggestion| s@),
            context_lines: self.context_lines as nat,
        }
    }
}

/// A fresh error-level diagnostic: no span, notes or suggestions, and two
/// lines of context.
pub open spec fn error_view(message: Seq<char>) -> DiagnosticView {
    DiagnosticView {
        level: DiagnosticLevel::Error,
        message,
        span: None,
        notes: Seq::empty(),
        suggestions: Seq::empty(),
        context_lines: 2,
    }
}

pub open spec fn with_span_view(d: DiagnosticView, span: Span) -> DiagnosticView {
    DiagnosticView { span: Some(span), ..d }
}

pub open spec fn with_note_view(d: DiagnosticView, note: Seq<char>) -> DiagnosticView {
    DiagnosticView { notes: d.notes.push(note), ..d }
}

/// A suggestion takes the span the diagnostic has when it is added.
pub open spec fn with_suggestion_view(
    d: DiagnosticView,
    message: Seq<char>,
    replacement: Option<Seq<char>>,
) -> DiagnosticView {
    DiagnosticView {
        suggestions: d.suggestions.push(SuggestionView { message, replacement, span: d.span }),
        ..d
    }
}

pub open spec fn with_context_lines_view(d: DiagnosticView, lines: nat) -> DiagnosticView {
    DiagnosticView { context_lines: lines, ..d }
}

impl Diagnostic {
    /// An error-level diagnostic with `message`.
    pub fn error(message: &str) -> (d: Self)
        ensures
            d@ == error_view(message@),
    {
        Self::error_owned(string_of(message))
    }

    /// An error-level diagnostic that takes ownership of `message`.
    pub fn error_owned(message: String) -> (d: Self)
        ensures
            d@ == error_view(message@),
    {
        let d = Diagnostic {
            level: DiagnosticLevel::Error,
            message,
            span: None,
            notes: Vec::new(),
            suggestions: Vec::new(),
            context_lines: 2,
        };
        assert(d@.notes =~= Seq::<Seq<char>>::empty());
        assert(d@.suggestions =~= Seq::<SuggestionView>::empty());
        d
    }

    pub fn with_span(self, span: Span) -> (d: Self)
        ensures
            d@ == with_span_view(self@, span),
    {
        let mut d = self;
        d.span = Some(span);
        d
    }

    pub fn with_note(self, note: &str) -> (d: Self)
        ensures
            d@ == with_note_view(self@, note@),
    {
        self.with_note_owned(string_of(note))
    }

    pub fn with_note_owned(self, note: String) -> (d: Self)
        ensures
            d@ == with_note_view(self@, note@),
    {
        let mut d = self;
        let ghost before = d.notes@;
        d.notes.push(note);
        assert(d.notes@.map_values(|n: String| n@) =~= before.map_values(|n: String| n@).push(
            note@,
        ));
        d
    }

    pub fn with_suggestion(self, message: &str, replacement: Option<String>) -> (d: Self)
        ensures
            d@ == with_suggestion_view(self@, message@, opt_string_view(replacement)),
    {
        self.with_suggestion_owned(string_of(message), replacement)
    }

    pub fn with_suggestion_owned(self, message: String, replacement: Option<String>) -> (d: Self)
        ensures
            d@ == with_suggestion_view(self@, message@, opt_string_view(replacement)),
    {
        let mut d = self;
        let ghost before = d.suggestions@;
        let s = Suggestion { message, replacement, span: d.span };
        d.suggestions.push(s);
        assert(d.suggestions@.map_values(|x: Suggestion| x@) =~= before.map_values(
            |x: Suggestion| x@,
        ).push(s@));
        d
    }

    pub fn with_context_lines(self, lines: usize) -> (d: Self)
        ensures
            d@ == with_context_lines_view(self@, lines as nat),
    {
        let mut d = self;
        d.context_lines = lines;
        d
    }
}

} // verus!
