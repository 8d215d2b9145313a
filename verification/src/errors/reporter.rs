//! Error reporting: ready-made diagnostics for common mistakes, and the
//! measurements the terminal reporter makes on source text.

use vstd::prelude::*;
use super::{Diagnostic, DiagnosticLevel, Span, Suggestion};
use super::diagnostic::{
    error_view, with_context_lines_view, with_note_view, with_span_view, with_suggestion_view,
    DiagnosticView, SuggestionView,
};
use crate::text::{
    chars_of, char_is_alphanumeric, char_is_whitespace, decimal, is_alphanumeric,
    is_white_space, push_str, push_usize, string_of, repeat_seq, lines_seq, char_at_byte, byte_len,
};
use super::plural_s;

verus! {

/// The source of one file, as the reporter quotes it.
pub struct ErrorReporter {
    pub source_file: String,
    pub source_content: String,
}

/// The length of the token at the start of `text`: the run of alphanumeric
/// characters and underscores after any leading white space, or 1 when the
/// first other character is a symbol, or 0 when there is none.
pub open spec fn token_length(text: Seq<char>, len: nat) -> nat
    decreases text.len(),
{
    if text.len() == 0 {
        len
    } else {
        let ch = text[0];
        if is_alphanumeric(ch) || ch == '_' {
            token_length(text.drop_first(), len + 1)
        } else if len > 0 {
            len
        } else if !is_white_space(ch) {
            1
        } else {
            token_length(text.drop_first(), len)
        }
    }
}

impl ErrorReporter {
    /// A reporter for `source_content`, which was read from `source_file`.
    pub fn from_source(source_file: String, source_content: String) -> (r: Self)
        ensures
            r.source_file == source_file,
            r.source_content == source_content,
    {
        ErrorReporter { source_file, source_content }
    }

    /// Estimate the length of the token at the beginning of `text`.
    pub fn estimate_token_length(&self, text: &str) -> (n: usize)
        ensures
            n == token_length(text@, 0),
    {
        let cs = chars_of(text);
        let mut len: usize = 0;
        let mut i: usize = 0;
        assert(text@.skip(0) == text@);
        while i < cs.len()
            invariant
                i <= cs.len(),
                cs@ == text@,
                len <= i,
                token_length(text@, 0) == token_length(text@.skip(i as int), len as nat),
            decreases cs.len() - i,
        {
            let ch = cs[i];
            proof {
                assert(text@.skip(i as int)[0] == ch);
                assert(text@.skip(i as int).drop_first() == text@.skip(i + 1));
            }
            if char_is_alphanumeric(ch) || ch == '_' {
                len = len + 1;
            } else if len > 0 {
                return len;
            } else if !char_is_whitespace(ch) {
                return 1;
            }
            i = i + 1;
        }
        assert(text@.skip(i as int).len() == 0);
        len
    }
}

/// Helper to create common diagnostics.
pub struct DiagnosticBuilder;

pub open spec fn type_mismatch_view(expected: Seq<char>, found: Seq<char>, span: Span) -> DiagnosticView {
    with_context_lines_view(
        with_note_view(
            with_span_view(
                error_view("type mismatch: expected "@ + expected + ", found "@ + found),
                span,
            ),
            "types must match exactly"@,
        ),
        2,
    )
}

pub open spec fn undefined_variable_view(name: Seq<char>, span: Span) -> DiagnosticView {
    with_context_lines_view(
        with_suggestion_view(
            with_note_view(
                with_span_view(error_view("undefined variable: "@ + name), span),
                "variables must be declared before use"@,
            ),
            "did you mean to declare it? Try: let "@ + name + " = ...;"@,
            None,
        ),
        3,
    )
}

pub open spec fn missing_semicolon_view(span: Span) -> DiagnosticView {
    with_suggestion_view(
        with_note_view(
            with_span_view(error_view("expected ';' after statement"@), span),
            "each statement must end with a semicolon"@,
        ),
        "add a semicolon at the end of this line"@,
        Some(";"@),
    )
}

/// The message says "argument" only when one is expected, and always
/// "were provided".
pub open spec fn wrong_arg_count_view(func: Seq<char>, expected: nat, found: nat, span: Span) -> DiagnosticView {
    let message = "function '"@ + func + "' expects "@ + decimal(expected) + (if expected == 1 {
        " argument"@
    } else {
        " arguments"@
    }) + ", but "@ + decimal(found) + " were provided"@;
    let d = with_context_lines_view(
        with_note_view(
            with_span_view(error_view(message), span),
            "function signature: "@ + func + "(...)"@,
        ),
        2,
    );
    if found < expected {
        with_suggestion_view(
            d,
            "add "@ + decimal((expected - found) as nat) + " more argument"@ + plural_s(
                (expected - found) as nat,
            ),
            None,
        )
    } else {
        with_suggestion_view(
            d,
            "remove "@ + decimal((found - expected) as nat) + " argument"@ + plural_s(
                (found - expected) as nat,
            ),
            None,
        )
    }
}

fn push_plural(s: &mut String, n: usize)
    ensures
        final(s)@ == old(s)@ + plural_s(n as nat),
{
    if n != 1 {
        push_str(s, "s");
    } else {
        assert(old(s)@ + plural_s(n as nat) == old(s)@);
    }
}

impl DiagnosticBuilder {
    pub fn type_mismatch(expected: &str, found: &str, span: Span) -> (d: Diagnostic)
        ensures
            d@ == type_mismatch_view(expected@, found@, span),
    {
        let mut msg = string_of("type mismatch: expected ");
        push_str(&mut msg, expected);
        push_str(&mut msg, ", found ");
        push_str(&mut msg, found);
        Diagnostic::error_owned(msg).with_span(span).with_note(
            "types must match exactly",
        ).with_context_lines(2)
    }

    pub fn undefined_variable(name: &str, span: Span) -> (d: Diagnostic)
        ensures
            d@ == undefined_variable_view(name@, span),
    {
        let mut msg = string_of("undefined variable: ");
        push_str(&mut msg, name);
        let mut advice = string_of("did you mean to declare it? Try: let ");
        push_str(&mut advice, name);
        push_str(&mut advice, " = ...;");
        Diagnostic::error_owned(msg).with_span(span).with_note(
            "variables must be declared before use",
        ).with_suggestion_owned(advice, None).with_context_lines(3)
    }

    pub fn missing_semicolon(span: Span) -> (d: Diagnostic)
        ensures
            d@ == missing_semicolon_view(span),
    {
        Diagnostic::error("expected ';' after statement").with_span(span).with_note(
            "each statement must end with a semicolon",
        ).with_suggestion("add a semicolon at the end of this line", Some(string_of(";")))
    }

    pub fn wrong_arg_count(func: &str, expected: usize, found: usize, span: Span) -> (d: Diagnostic)
        ensures
            d@ == wrong_arg_count_view(func@, expected as nat, found as nat, span),
    {
        let mut msg = string_of("function '");
        push_str(&mut msg, func);
        push_str(&mut msg, "' expects ");
        push_usize(&mut msg, expected);
        push_str(&mut msg, if expected == 1 { " argument" } else { " arguments" });
        push_str(&mut msg, ", but ");
        push_usize(&mut msg, found);
        push_str(&mut msg, " were provided");
        let mut note = string_of("function signature: ");
        push_str(&mut note, func);
        push_str(&mut note, "(...)");
        let diag = Diagnostic::error_owned(msg).with_span(span).with_note_owned(
            note,
        ).with_context_lines(2);
        if found < expected {
            let mut advice = string_of("add ");
            push_usize(&mut advice, expected - found);
            push_str(&mut advice, " more argument");
            push_plural(&mut advice, expected - found);
            diag.with_suggestion_owned(advice, None)
        } else {
            let mut advice = string_of("remove ");
            push_usize(&mut advice, found - expected);
            push_str(&mut advice, " argument");
            push_plural(&mut advice, found - expected);
            diag.with_suggestion_owned(advice, None)
        }
    }
}

// ---------------------------------------------------------------------------
// The terminal report, as text
// ---------------------------------------------------------------------------

pub const LOCATION_HEAD: &'static str = "\x1b[1;34m  --> \x1b[0m";

pub const GUTTER: &'static str = "\x1b[1;34m |\x1b[0m\n";

pub const ROW_HEAD: &'static str = "\x1b[1;34m";

pub const ROW_MID: &'static str = " |\x1b[0m ";

pub const MARK_MID: &'static str = " \x1b[1;34m|\x1b[0m ";

pub const CARET: &'static str = "\x1b[1;31m^";

pub const RESET_LINE: &'static str = "\x1b[0m\n";

pub const CONTEXT_HEAD: &'static str = "\x1b[2;34m";

pub const CONTEXT_MID: &'static str = " |\x1b[0m\x1b[2m ";

pub const NOTE_HEAD: &'static str = "\x1b[1;36m  = note:\x1b[0m ";

pub const HELP_HEAD: &'static str = "\x1b[1;32m  = help:\x1b[0m ";

pub const FIX_HEAD: &'static str = "\x1b[1;32m         Suggested fix:\x1b[0m\n";

pub const FIX_LINE: &'static str = "\x1b[32m         ";

/// `n - 1`, or 0.
pub open spec fn minus_one(n: usize) -> nat {
    if n >= 1 {
        (n - 1) as nat
    } else {
        0
    }
}

/// `s` right-aligned in a field `w` characters wide.
pub open spec fn right_aligned(s: Seq<char>, w: nat) -> Seq<char> {
    if s.len() < w {
        repeat_seq(" "@, (w - s.len()) as nat) + s
    } else {
        s
    }
}

/// What lines up a marker under column `n + 1` of `text`: a tab for each tab
/// before it and a space for every other character.
pub open spec fn pad_to_column(text: Seq<char>, n: nat) -> Seq<char>
    decreases text.len(),
{
    if n == 0 || text.len() == 0 {
        Seq::empty()
    } else {
        seq![
            if text[0] == '\t' {
                '\t'
            } else {
                ' '
            },
        ] + pad_to_column(text.drop_first(), (n - 1) as nat)
    }
}

/// How many characters the marker under an error spans: the span's byte
/// length, or else the length of the token at the error's column, at least 1.
pub open spec fn marker_len(text: Seq<char>, span: Span) -> nat {
    if span.end > span.start {
        (span.end - span.start) as nat
    } else {
        match char_at_byte(text, minus_one(span.column) as int) {
            Some(k) => {
                let t = token_length(text.skip(k), 0);
                if t >= 1 {
                    t
                } else {
                    1
                }
            },
            None => 1,
        }
    }
}

/// One row of a snippet: the error's line with its marker underneath, or a
/// dimmed context line.
pub open spec fn snippet_row(lines: Seq<Seq<char>>, l: nat, span: Span, w: nat) -> Seq<char> {
    let text = lines[l - 1];
    let number = right_aligned(decimal(l), w);
    if l == span.line {
        ROW_HEAD@ + number + ROW_MID@ + text + "\n"@ + repeat_seq(" "@, w) + MARK_MID@
            + pad_to_column(text, minus_one(span.column)) + CARET@ + repeat_seq(
            "~"@,
            (marker_len(text, span) - 1) as nat,
        ) + RESET_LINE@
    } else {
        CONTEXT_HEAD@ + number + CONTEXT_MID@ + text + RESET_LINE@
    }
}

/// The rows for lines `from` through `to`.
pub open spec fn snippet_rows(lines: Seq<Seq<char>>, from: nat, to: nat, span: Span, w: nat) -> Seq<
    char,
>
    decreases to + 1 - from,
{
    if from > to || to == 0 {
        Seq::empty()
    } else {
        snippet_rows(lines, from, (to - 1) as nat, span, w) + snippet_row(lines, to, span, w)
    }
}

/// The source location and the lines around it, `context` lines on either
/// side, with the error's line marked.
pub open spec fn snippet(file: Seq<char>, lines: Seq<Seq<char>>, span: Span, context: nat) -> Seq<
    char,
> {
    let head = LOCATION_HEAD@ + file + ":"@ + decimal(span.line as nat) + ":"@ + decimal(
        span.column as nat,
    ) + "\n"@;
    if span.line == 0 || span.line > lines.len() {
        head
    } else {
        let from: nat = if span.line > context + 1 {
            (span.line - context) as nat
        } else {
            1
        };
        let to: nat = if span.line + context < lines.len() {
            (span.line + context) as nat
        } else {
            lines.len()
        };
        let w = decimal(to).len();
        let gutter = repeat_seq(" "@, w) + GUTTER@;
        head + gutter + snippet_rows(lines, from, to, span, w) + gutter
    }
}

/// Rendering a snippet does not slice the error's line inside a character.
pub open spec fn snippet_fits(lines: Seq<Seq<char>>, span: Span, context: nat) -> bool {
    &&& span.line + context <= usize::MAX
    &&& 1 <= span.line <= lines.len() && span.end <= span.start ==> char_at_byte(
        lines[span.line - 1],
        minus_one(span.column) as int,
    ) is Some
}

/// A suggestion: its message, then, when it has a replacement and a span on
/// a line of the source, that line with the replacement spliced in.
pub open spec fn suggestion_text(lines: Seq<Seq<char>>, s: SuggestionView) -> Seq<char> {
    let head = HELP_HEAD@ + s.message + "\n"@;
    match (s.replacement, s.span) {
        (Some(r), Some(sp)) => if 1 <= sp.line <= lines.len() {
            let line = lines[sp.line - 1];
            let before = if sp.column > 1 {
                line.take(char_at_byte(line, (sp.column - 1) as int)->0)
            } else {
                Seq::empty()
            };
            let after = if sp.end < byte_len(line) {
                line.skip(char_at_byte(line, sp.end as int)->0)
            } else {
                Seq::empty()
            };
            head + FIX_HEAD@ + FIX_LINE@ + before + r + after + RESET_LINE@
        } else {
            head
        },
        _ => head,
    }
}

/// Splicing a suggestion's replacement does not slice its line inside a
/// character.
pub open spec fn suggestion_fits(lines: Seq<Seq<char>>, s: SuggestionView) -> bool {
    match (s.replacement, s.span) {
        (Some(_), Some(sp)) => 1 <= sp.line <= lines.len() ==> {
            let line = lines[sp.line - 1];
            &&& sp.column > 1 ==> char_at_byte(line, (sp.column - 1) as int) is Some
            &&& sp.end < byte_len(line) ==> char_at_byte(line, sp.end as int) is Some
        },
        _ => true,
    }
}

/// The color code and name of a level in the report's header.
pub open spec fn level_label(level: DiagnosticLevel) -> (Seq<char>, Seq<char>) {
    match level {
        DiagnosticLevel::Error => ("31"@, "error"@),
        DiagnosticLevel::Warning => ("33"@, "warning"@),
        DiagnosticLevel::Info => ("36"@, "info"@),
        DiagnosticLevel::Help => ("32"@, "help"@),
    }
}

pub open spec fn notes_text(notes: Seq<Seq<char>>) -> Seq<char>
    decreases notes.len(),
{
    if notes.len() == 0 {
        Seq::empty()
    } else {
        notes_text(notes.drop_last()) + NOTE_HEAD@ + notes.last() + "\n"@
    }
}

pub open spec fn suggestions_text(lines: Seq<Seq<char>>, ss: Seq<SuggestionView>) -> Seq<char>
    decreases ss.len(),
{
    if ss.len() == 0 {
        Seq::empty()
    } else {
        suggestions_text(lines, ss.drop_last()) + suggestion_text(lines, ss.last())
    }
}

/// Everything the terminal report of a diagnostic writes: the level and
/// message, the source snippet when there is a span, the notes, the
/// suggestions, and a blank line.
pub open spec fn report_text(file: Seq<char>, content: Seq<char>, d: DiagnosticView) -> Seq<char> {
    let lines = lines_seq(content);
    let (color, name) = level_label(d.level);
    "\x1b[1;"@ + color + "m"@ + name + "\x1b[0m\x1b[1m: "@ + d.message + "\x1b[0m\n"@ + (match d.span {
        Some(sp) => snippet(file, lines, sp, d.context_lines),
        None => Seq::empty(),
    }) + notes_text(d.notes) + suggestions_text(lines, d.suggestions) + "\n"@
}

/// The report can be rendered without slicing the source inside a
/// character.
pub open spec fn report_fits(content: Seq<char>, d: DiagnosticView) -> bool {
    let lines = lines_seq(content);
    &&& d.span matches Some(sp) ==> snippet_fits(lines, sp, d.context_lines)
    &&& forall|i: int| 0 <= i < d.suggestions.len() ==> suggestion_fits(lines, #[trigger] d.suggestions[i])
}

fn push_right_aligned(out: &mut String, n: usize, w: usize)
    ensures
        final(out)@ == old(out)@ + right_aligned(decimal(n as nat), w as nat),
{
    let d = crate::text::usize_to_string(n);
    let dl = chars_of(d.as_str()).len();
    if dl < w {
        crate::text::push_repeat(out, " ", w - dl);
    }
    push_str(out, d.as_str());
}

fn push_pad(out: &mut String, text: &Vec<char>, n: usize)
    ensures
        final(out)@ == old(out)@ + pad_to_column(text@, n as nat),
{
    let mut i: usize = 0;
    assert(text@.skip(0) == text@);
    while i < n && i < text.len()
        invariant
            i <= n,
            i <= text.len(),
            old(out)@ + pad_to_column(text@, n as nat) == out@ + pad_to_column(
                text@.skip(i as int),
                (n - i) as nat,
            ),
        decreases text.len() - i,
    {
        let c = if text[i] == '\t' {
            '\t'
        } else {
            ' '
        };
        let ghost before = out@;
        assert(text@.skip(i as int)[0] == text@[i as int]);
        assert(text@.skip(i as int).drop_first() == text@.skip(i + 1));
        crate::text::push_char(out, c);
        i = i + 1;
        assert(before + (seq![c] + pad_to_column(text@.skip(i as int), (n - i) as nat)) == out@
            + pad_to_column(text@.skip(i as int), (n - i) as nat));
    }
    assert(pad_to_column(text@.skip(i as int), (n - i) as nat) == Seq::<char>::empty());
    assert(out@ + Seq::<char>::empty() == out@);
}

impl ErrorReporter {
    /// The number of marker characters under an error on `text`.
    fn marker_length(&self, text: &Vec<char>, span: Span) -> (r: usize)
        requires
            span.end <= span.start ==> char_at_byte(text@, minus_one(span.column) as int) is Some,
        ensures
            r == marker_len(text@, span),
            r >= 1,
    {
        if span.end > span.start {
            span.end - span.start
        } else {
            let col = if span.column >= 1 {
                span.column - 1
            } else {
                0
            };
            match crate::text::char_index_at_byte(text, col) {
                Some(k) => {
                    let rest = crate::text::slice_string(text, k, text.len());
                    assert(text@.subrange(k as int, text.len() as int) == text@.skip(k as int));
                    let t = self.estimate_token_length(rest.as_str());
                    if t >= 1 {
                        t
                    } else {
                        1
                    }
                },
                None => 1,
            }
        }
    }

    fn push_snippet_row(&self, out: &mut String, lines: &Vec<String>, l: usize, span: Span, w: usize)
        requires
            1 <= l <= lines.len(),
            l == span.line && span.end <= span.start ==> char_at_byte(
                lines@[l - 1]@,
                minus_one(span.column) as int,
            ) is Some,
        ensures
            final(out)@ == old(out)@ + snippet_row(
                lines@.map_values(|x: String| x@),
                l as nat,
                span,
                w as nat,
            ),
    {
        let ghost views = lines@.map_values(|x: String| x@);
        let text = lines[l - 1].as_str();
        let ghost start = out@;
        if l == span.line {
            push_str(out, ROW_HEAD);
            push_right_aligned(out, l, w);
            push_str(out, ROW_MID);
            push_str(out, text);
            push_str(out, "\n");
            crate::text::push_repeat(out, " ", w);
            push_str(out, MARK_MID);
            let tcs = chars_of(text);
            let col = if span.column >= 1 {
                span.column - 1
            } else {
                0
            };
            push_pad(out, &tcs, col);
            push_str(out, CARET);
            let m = self.marker_length(&tcs, span);
            crate::text::push_repeat(out, "~", m - 1);
            push_str(out, RESET_LINE);
            assert(out@ =~= start + snippet_row(views, l as nat, span, w as nat));
        } else {
            push_str(out, CONTEXT_HEAD);
            push_right_aligned(out, l, w);
            push_str(out, CONTEXT_MID);
            push_str(out, text);
            push_str(out, RESET_LINE);
            assert(out@ =~= start + snippet_row(views, l as nat, span, w as nat));
        }
    }

    /// The location of `span` and the source lines around it, `context_lines`
    /// on either side, with the error's line marked.
    fn source_snippet_with_context(&self, lines: &Vec<String>, span: Span, context_lines: usize) -> (r:
        String)
        requires
            snippet_fits(lines@.map_values(|x: String| x@), span, context_lines as nat),
        ensures
            r@ == snippet(
                self.source_file@,
                lines@.map_values(|x: String| x@),
                span,
                context_lines as nat,
            ),
    {
        let ghost views = lines@.map_values(|x: String| x@);
        let mut out = string_of(LOCATION_HEAD);
        push_str(&mut out, self.source_file.as_str());
        push_str(&mut out, ":");
        push_usize(&mut out, span.line);
        push_str(&mut out, ":");
        push_usize(&mut out, span.column);
        push_str(&mut out, "\n");
        if span.line == 0 || span.line > lines.len() {
            return out;
        }
        let from: usize = if span.line > context_lines + 1 {
            span.line - context_lines
        } else {
            1
        };
        let to: usize = if span.line + context_lines < lines.len() {
            span.line + context_lines
        } else {
            lines.len()
        };
        let w = chars_of(crate::text::usize_to_string(to).as_str()).len();
        let ghost head = out@;
        crate::text::push_repeat(&mut out, " ", w);
        push_str(&mut out, GUTTER);
        let ghost with_gutter = out@;
        let mut l: usize = from;
        assert(snippet_rows(views, from as nat, (from - 1) as nat, span, w as nat)
            == Seq::<char>::empty());
        loop
            invariant_except_break
                out@ == with_gutter + snippet_rows(views, from as nat, (l - 1) as nat, span, w as nat),
            invariant
                1 <= from <= l <= to,
                to <= lines.len(),
                views == lines@.map_values(|x: String| x@),
                snippet_fits(views, span, context_lines as nat),
            ensures
                out@ == with_gutter + snippet_rows(views, from as nat, to as nat, span, w as nat),
            decreases to - l,
        {
            self.push_snippet_row(&mut out, lines, l, span, w);
            if l == to {
                break;
            }
            l = l + 1;
        }
        crate::text::push_repeat(&mut out, " ", w);
        push_str(&mut out, GUTTER);
        out
    }

    /// A suggestion's help line, and the fixed source line when it has a
    /// replacement and a span on a line of the source.
    fn suggestion_text(&self, lines: &Vec<String>, suggestion: &Suggestion) -> (r: String)
        requires
            suggestion_fits(lines@.map_values(|x: String| x@), suggestion@),
        ensures
            r@ == suggestion_text(lines@.map_values(|x: String| x@), suggestion@),
    {
        let ghost views = lines@.map_values(|x: String| x@);
        let mut out = string_of(HELP_HEAD);
        push_str(&mut out, suggestion.message.as_str());
        push_str(&mut out, "\n");
        match (&suggestion.replacement, suggestion.span) {
            (Some(replacement), Some(span)) => {
                if span.line > 0 && span.line <= lines.len() {
                    let line = lines[span.line - 1].as_str();
                    let lcs = chars_of(line);
                    let mut fixed = String::new();
                    if span.column > 1 {
                        match crate::text::char_index_at_byte(&lcs, span.column - 1) {
                            Some(k) => {
                                let before = crate::text::slice_string(&lcs, 0, k);
                                assert(lcs@.subrange(0, k as int) == lcs@.take(k as int));
                                push_str(&mut fixed, before.as_str());
                            },
                            None => {},
                        }
                    }
                    push_str(&mut fixed, replacement.as_str());
                    if span.end < crate::text::str_byte_len(line) {
                        match crate::text::char_index_at_byte(&lcs, span.end) {
                            Some(k) => {
                                let after = crate::text::slice_string(&lcs, k, lcs.len());
                                assert(lcs@.subrange(k as int, lcs.len() as int) == lcs@.skip(
                                    k as int,
                                ));
                                push_str(&mut fixed, after.as_str());
                            },
                            None => {},
                        }
                    }
                    push_str(&mut out, FIX_HEAD);
                    push_str(&mut out, FIX_LINE);
                    push_str(&mut out, fixed.as_str());
                    push_str(&mut out, RESET_LINE);
                }
            },
            _ => {},
        }
        out
    }

    /// The location of `span` and the source lines around it, as the report
    /// shows them.
    pub fn snippet_text(&self, span: Span, context_lines: usize) -> (r: String)
        requires
            snippet_fits(lines_seq(self.source_content@), span, context_lines as nat),
        ensures
            r@ == snippet(self.source_file@, lines_seq(self.source_content@), span, context_lines as nat),
    {
        let lines = crate::text::lines_of(self.source_content.as_str());
        self.source_snippet_with_context(&lines, span, context_lines)
    }

    /// A suggestion as the report shows it.
    pub fn suggestion_help(&self, suggestion: &Suggestion) -> (r: String)
        requires
            suggestion_fits(lines_seq(self.source_content@), suggestion@),
        ensures
            r@ == suggestion_text(lines_seq(self.source_content@), suggestion@),
    {
        let lines = crate::text::lines_of(self.source_content.as_str());
        self.suggestion_text(&lines, suggestion)
    }

    fn suggestion_fits_in(lines: &Vec<String>, suggestion: &Suggestion) -> (r: bool)
        ensures
            r == suggestion_fits(lines@.map_values(|x: String| x@), suggestion@),
    {
        let ghost views = lines@.map_values(|x: String| x@);
        match (&suggestion.replacement, suggestion.span) {
            (Some(_), Some(sp)) => {
                if sp.line >= 1 && sp.line <= lines.len() {
                    let line = lines[sp.line - 1].as_str();
                    assert(line@ == views[sp.line - 1]);
                    let cs = chars_of(line);
                    let start_ok = if sp.column > 1 {
                        crate::text::char_index_at_byte(&cs, sp.column - 1).is_some()
                    } else {
                        true
                    };
                    let end_ok = if sp.end < crate::text::str_byte_len(line) {
                        crate::text::char_index_at_byte(&cs, sp.end).is_some()
                    } else {
                        true
                    };
                    start_ok && end_ok
                } else {
                    true
                }
            },
            _ => true,
        }
    }

    /// Whether the report of `diagnostic` slices the source only at character
    /// boundaries, and its context window stays within the line numbers: the
    /// condition under which it can be rendered.
    pub fn can_render(&self, diagnostic: &Diagnostic) -> (r: bool)
        ensures
            r == report_fits(self.source_content@, diagnostic@),
    {
        let lines = crate::text::lines_of(self.source_content.as_str());
        let ghost views = lines@.map_values(|x: String| x@);
        let ghost d = diagnostic@;
        let snippet_ok = match diagnostic.span {
            Some(span) => {
                if span.line > usize::MAX - diagnostic.context_lines {
                    false
                } else if span.line >= 1 && span.line <= lines.len() && span.end <= span.start {
                    let line = lines[span.line - 1].as_str();
                    assert(line@ == views[span.line - 1]);
                    let cs = chars_of(line);
                    let col = if span.column >= 1 {
                        span.column - 1
                    } else {
                        0
                    };
                    crate::text::char_index_at_byte(&cs, col).is_some()
                } else {
                    true
                }
            },
            None => true,
        };
        if !snippet_ok {
            return false;
        }
        let mut i: usize = 0;
        while i < diagnostic.suggestions.len()
            invariant
                i <= diagnostic.suggestions.len(),
                views == lines@.map_values(|x: String| x@),
                views == lines_seq(self.source_content@),
                d == diagnostic@,
                forall|k: int| 0 <= k < i ==> suggestion_fits(views, #[trigger] d.suggestions[k]),
            decreases diagnostic.suggestions.len() - i,
        {
            assert(d.suggestions[i as int] == diagnostic.suggestions@[i as int]@);
            if !Self::suggestion_fits_in(&lines, &diagnostic.suggestions[i]) {
                return false;
            }
            i = i + 1;
        }
        true
    }

    /// Everything the terminal report of `diagnostic` writes, in order.
    pub fn render_report(&self, diagnostic: &Diagnostic) -> (r: String)
        requires
            report_fits(self.source_content@, diagnostic@),
        ensures
            r@ == report_text(self.source_file@, self.source_content@, diagnostic@),
    {
        let lines = crate::text::lines_of(self.source_content.as_str());
        let ghost views = lines@.map_values(|x: String| x@);
        let (color, name) = match diagnostic.level {
            DiagnosticLevel::Error => ("31", "error"),
            DiagnosticLevel::Warning => ("33", "warning"),
            DiagnosticLevel::Info => ("36", "info"),
            DiagnosticLevel::Help => ("32", "help"),
        };
        let mut out = string_of("\x1b[1;");
        push_str(&mut out, color);
        push_str(&mut out, "m");
        push_str(&mut out, name);
        push_str(&mut out, "\x1b[0m\x1b[1m: ");
        push_str(&mut out, diagnostic.message.as_str());
        push_str(&mut out, "\x1b[0m\n");
        match diagnostic.span {
            Some(span) => {
                let snippet = self.source_snippet_with_context(&lines, span, diagnostic.context_lines);
                push_str(&mut out, snippet.as_str());
            },
            None => {},
        }
        let ghost notes = diagnostic@.notes;
        let ghost after_span = out@;
        let mut i: usize = 0;
        while i < diagnostic.notes.len()
            invariant
                i <= diagnostic.notes.len(),
                notes == diagnostic@.notes,
                out@ == after_span + notes_text(notes.take(i as int)),
            decreases diagnostic.notes.len() - i,
        {
            push_str(&mut out, NOTE_HEAD);
            push_str(&mut out, diagnostic.notes[i].as_str());
            push_str(&mut out, "\n");
            i = i + 1;
            proof {
                assert(notes.take(i as int).drop_last() == notes.take(i - 1));
                assert(notes.take(i as int).last() == notes[i - 1]);
            }
        }
        assert(notes.take(i as int) == notes);
        let ghost sugs = diagnostic@.suggestions;
        let ghost after_notes = out@;
        let mut j: usize = 0;
        while j < diagnostic.suggestions.len()
            invariant
                j <= diagnostic.suggestions.len(),
                sugs == diagnostic@.suggestions,
                views == lines_seq(self.source_content@),
                views == lines@.map_values(|x: String| x@),
                report_fits(self.source_content@, diagnostic@),
                out@ == after_notes + suggestions_text(views, sugs.take(j as int)),
            decreases diagnostic.suggestions.len() - j,
        {
            assert(sugs[j as int] == diagnostic.suggestions@[j as int]@);
            let t = self.suggestion_text(&lines, &diagnostic.suggestions[j]);
            push_str(&mut out, t.as_str());
            j = j + 1;
            proof {
                assert(sugs.take(j as int).drop_last() == sugs.take(j - 1));
                assert(sugs.take(j as int).last() == sugs[j - 1]);
            }
        }
        assert(sugs.take(j as int) == sugs);
        push_str(&mut out, "\n");
        out
    }
}

} // verus!
