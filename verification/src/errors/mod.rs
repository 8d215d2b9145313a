//! Error handling for the Palladium compiler: compile errors, their
//! messages, and the diagnostics built from them.

pub mod codes;
pub mod delimiters;
pub mod diagnostic;
pub mod pretty;
pub mod reporter;
pub mod suggestions;

pub use diagnostic::{Diagnostic, DiagnosticLevel, Suggestion};

use vstd::prelude::*;
use crate::text::{
    decimal, join_seq, join_strings, push_char, push_str, push_usize, str_eq, string_of,
};
use diagnostic::{
    error_view, opt_string_view, with_context_lines_view, with_note_view, with_span_view,
    with_suggestion_view, DiagnosticView,
};

verus! {

/// Source location information.
#[derive(Debug, Clone, Copy, PartialEq, Eq, Structural)]
pub struct Span {
    pub start: usize,
    pub end: usize,
    pub line: usize,
    pub column: usize,
}

impl Span {
    pub fn new(start: usize, end: usize, line: usize, column: usize) -> (s: Self)
        ensures
            s.start == start,
            s.end == end,
            s.line == line,
            s.column == column,
    {
        Span { start, end, line, column }
    }

    /// The span that points nowhere: every coordinate is zero.
    pub fn dummy() -> (s: Self)
        ensures
            s.start == 0,
            s.end == 0,
            s.line == 0,
            s.column == 0,
    {
        Span { start: 0, end: 0, line: 0, column: 0 }
    }

    /// The smallest span covering both: the earlier start, the later end, the
    /// earlier line, and the column of whichever span starts on that line.
    pub fn extend_to(&self, other: &Span) -> (s: Self)
        ensures
            s.start == if self.start <= other.start { self.start } else { other.start },
            s.end == if self.end >= other.end { self.end } else { other.end },
            s.line == if self.line <= other.line { self.line } else { other.line },
            s.column == if self.line < other.line {
                self.column
            } else if self.column <= other.column {
                self.column
            } else {
                other.column
            },
    {
        Span {
            start: if self.start <= other.start { self.start } else { other.start },
            end: if self.end >= other.end { self.end } else { other.end },
            line: if self.line <= other.line { self.line } else { other.line },
            column: if self.line < other.line {
                self.column
            } else if self.column <= other.column {
                self.column
            } else {
                other.column
            },
        }
    }
}


/// Everything that can stop a compilation.
#[derive(Debug)]
pub enum CompileError {
    // Lexer errors
    UnexpectedChar { ch: char, line: usize, col: usize, span: Option<Span> },
    UnterminatedString { line: usize, span: Option<Span> },
    // Parser errors
    UnexpectedToken { expected: String, found: String, span: Option<Span> },
    SyntaxError { message: String, span: Option<Span> },
    // Type errors
    TypeMismatch { expected: String, found: String, span: Option<Span> },
    UndefinedVariable { name: String, span: Option<Span> },
    UndefinedFunction { name: String, span: Option<Span> },
    ArgumentCountMismatch { name: String, expected: usize, found: usize, span: Option<Span> },
    /// A built-in that is described but cannot be called.
    UnsupportedBuiltin { name: String, reason: String, span: Option<Span> },
    // Codegen errors
    CodegenError { message: String },
    /// A construct the parser accepts but that the selected backend cannot
    /// lower: how it is written, what would go wrong if the compiler pretended,
    /// and what the programmer can do instead.
    Unimplemented {
        construct: String,
        consequence: String,
        workaround: String,
        span: Option<Span>,
    },
    /// An I/O failure, carried as the text the operating system gave for it.
    IoError(String),
    Generic(String),
    MissingSemicolon { span: Option<Span> },
    InvalidFunctionSignature { message: String, span: Option<Span> },
    // Borrow checker errors
    BorrowChecker { message: String, span: Option<Span> },
    UseOfMovedValue { name: String, span: Option<Span> },
    UseOfUninitializedValue { name: String, span: Option<Span> },
    CannotMoveOutOfBorrowedContent { span: Option<Span> },
    // Unsafe operation errors
    UnsafeOperation { operation: String, span: Span },
    ConflictingBorrows { message: String, span: Option<Span> },
    LifetimeError { message: String, span: Option<Span> },
    // Pattern matching errors
    NonExhaustiveMatch { missing_patterns: Vec<String>, span: Option<Span> },
    UnreachablePattern { patterns: Vec<String>, span: Option<Span> },
}

pub type Result<T> = core::result::Result<T, CompileError>;

pub open spec fn strings_view(v: Vec<String>) -> Seq<Seq<char>> {
    v@.map_values(|s: String| s@)
}

/// The one-line text of an error, as it is displayed.
pub open spec fn error_text(e: CompileError) -> Seq<char> {
    match e {
        CompileError::UnexpectedChar { ch, line, col, .. } => "Unexpected character '"@ + seq![ch]
            + "' at line "@ + decimal(line as nat) + ", column "@ + decimal(col as nat),
        CompileError::UnterminatedString { line, .. } => "Unterminated string literal at line "@
            + decimal(line as nat),
        CompileError::UnexpectedToken { expected, found, .. } => "Unexpected token: expected "@
            + expected@ + ", found "@ + found@,
        CompileError::SyntaxError { message, .. } => "Syntax error: "@ + message@,
        CompileError::TypeMismatch { expected, found, .. } => "Type mismatch: expected "@
            + expected@ + ", found "@ + found@,
        CompileError::UndefinedVariable { name, .. } => "Undefined variable: "@ + name@,
        CompileError::UndefinedFunction { name, .. } => "Undefined function: "@ + name@,
        CompileError::ArgumentCountMismatch { name, expected, found, .. } => "Function "@ + name@
            + " expects "@ + decimal(expected as nat) + " arguments, but "@ + decimal(
            found as nat,
        ) + " were provided"@,
        CompileError::UnsupportedBuiltin { name, reason, .. } => "Built-in "@ + name@
            + " is registered but not callable: "@ + reason@,
        CompileError::CodegenError { message } => "Code generation failed: "@ + message@,
        CompileError::Unimplemented { construct, .. } => construct@ + " is not implemented"@,
        CompileError::IoError(text) => "IO error: "@ + text@,
        CompileError::Generic(text) => text@,
        CompileError::MissingSemicolon { .. } => "Missing semicolon after statement"@,
        CompileError::InvalidFunctionSignature { .. } => "Invalid function signature"@,
        CompileError::BorrowChecker { message, .. } => "Borrow checker error: "@ + message@,
        CompileError::UseOfMovedValue { name, .. } => "Use of moved value: "@ + name@,
        CompileError::UseOfUninitializedValue { name, .. } => "Use of uninitialized value: "@
            + name@,
        CompileError::CannotMoveOutOfBorrowedContent { .. } =>
            "Cannot move out of borrowed content"@,
        CompileError::UnsafeOperation { operation, .. } => "Unsafe operation '"@ + operation@
            + "' requires unsafe block"@,
        CompileError::ConflictingBorrows { message, .. } => "Conflicting borrows: "@ + message@,
        CompileError::LifetimeError { message, .. } => "Lifetime error: "@ + message@,
        CompileError::NonExhaustiveMatch { missing_patterns, .. } =>
            "Non-exhaustive match: missing patterns "@ + join_seq(
                strings_view(missing_patterns),
                ", "@,
            ),
        CompileError::UnreachablePattern { patterns, .. } => "Unreachable pattern: "@ + join_seq(
            strings_view(patterns),
            ", "@,
        ),
    }
}

pub const QUESTION_CONSTRUCT: &'static str = "the `?` operator";

pub const QUESTION_CONSEQUENCE: &'static str =
    "code generation has no lowering of `?` onto the enum representation it emits, and would instead produce C for a `struct Result { int is_ok; union … }` layout that no enum is ever generated as";

pub const QUESTION_WORKAROUND: &'static str =
    "there is no error-propagation operator; return the value and dispatch on it with `match`. Only non-generic enums are compiled, so declare a concrete one such as `enum Result { Ok(i64), Err(i64) }` — `Result<T, E>` will not compile";

pub const ASYNC_RETURN_CONSTRUCT: &'static str = "a `return` with a value inside an `async fn`";

pub const ASYNC_RETURN_CONSEQUENCE: &'static str =
    "the body is emitted into a poll function that returns only an `int` readiness flag, so there is nowhere to put the value: it would be evaluated and discarded, and for a non-unit output the emitted C does not compile at all";

pub const ASYNC_RETURN_WORKAROUND: &'static str =
    "make the function ordinary (`fn`) and return the value directly. There is no async runtime, so a future's result has nowhere to live and nothing to deliver it";

pub const ASYNC_MAIN_CONSTRUCT: &'static str = "`async fn main`";

pub const ASYNC_MAIN_CONSEQUENCE: &'static str =
    "the entry point would be emitted as `main_Future main()` rather than `int main(int, char**)`, with the body inside a `main_poll` function that nothing calls — so the program links, runs, exits 0 and does nothing";

pub const ASYNC_MAIN_WORKAROUND: &'static str =
    "make `main` an ordinary function: `fn main() { … }`. There is no async runtime to drive a future returned from the entry point, so nothing else can give it its meaning";

pub const AWAIT_CONSTRUCT: &'static str = "`.await`";

pub const AWAIT_CONSEQUENCE: &'static str =
    "there is no async runtime, and code generation would emit a call to a `poll` member that no generated C struct has";

pub const AWAIT_WORKAROUND: &'static str =
    "nothing can be awaited; write the computation as an ordinary synchronous call. If a function is declared `-> Future<T>`, change it to `-> T` — deleting `.await` on its own leaves a Future where a value is required";

pub const TAIL_WORKAROUND: &'static str =
    "give every path a value — add the missing `else`/arm with its own tail expression, as in `if n <= 1 { n } else { n * 2 }` — or drop tail position entirely and write explicit returns, as in `if n <= 1 { return n; } return n * 2;`";

/// The refusal record for an unimplemented construct.
pub open spec fn is_refusal(
    e: CompileError,
    construct: Seq<char>,
    consequence: Seq<char>,
    workaround: Seq<char>,
    span: Option<Span>,
) -> bool {
    e matches CompileError::Unimplemented { construct: c, consequence: q, workaround: w, span: s }
        && c@ == construct && q@ == consequence && w@ == workaround && s == span
}

/// "`a`, `b`, `c`": every offender's name in backquotes, comma-separated.
pub open spec fn quoted_names(offenders: Seq<(String, Span)>) -> Seq<char> {
    join_seq(offenders.map_values(|o: (String, Span)| "`"@ + o.0@ + "`"@), ", "@)
}

/// The refusal for imported offenders is the refusal for the first of them,
/// with the offenders' names appended to what is refused: same consequence,
/// same workaround, same span.
pub proof fn lemma_imported_refusal_extends_local(
    local: CompileError,
    imported: CompileError,
    offenders: Seq<(String, Span)>,
)
    requires
        offenders.len() > 0,
        is_refusal(
            local,
            ASYNC_RETURN_CONSTRUCT@,
            ASYNC_RETURN_CONSEQUENCE@,
            ASYNC_RETURN_WORKAROUND@,
            Some(offenders[0].1),
        ),
        is_refusal(
            imported,
            ASYNC_RETURN_CONSTRUCT@ + " (imported: "@ + quoted_names(offenders) + ")"@,
            ASYNC_RETURN_CONSEQUENCE@,
            ASYNC_RETURN_WORKAROUND@,
            Some(offenders[0].1),
        ),
    ensures
        local matches CompileError::Unimplemented { construct: c1, consequence: q1, workaround: w1, span: s1 }
            && imported matches CompileError::Unimplemented {
            construct: c2,
            consequence: q2,
            workaround: w2,
            span: s2,
        } && q1@ == q2@ && w1@ == w2@ && s1 == s2 && c1@.len() <= c2@.len() && c2@.subrange(
            0,
            c1@.len() as int,
        ) == c1@,
{
    if let CompileError::Unimplemented { construct: c1, .. } = local {
        if let CompileError::Unimplemented { construct: c2, .. } = imported {
            let tail = " (imported: "@ + quoted_names(offenders) + ")"@;
            assert(c2@ == c1@ + tail);
            assert(c2@.subrange(0, c1@.len() as int) =~= c1@);
        }
    }
}

fn refusal(construct: String, consequence: &str, workaround: &str, span: Span) -> (e: CompileError)
    ensures
        is_refusal(e, construct@, consequence@, workaround@, Some(span)),
{
    CompileError::Unimplemented {
        construct,
        consequence: string_of(consequence),
        workaround: string_of(workaround),
        span: Some(span),
    }
}

impl CompileError {
    /// `?` parses, but nothing lowers it.
    pub fn question_unimplemented(span: Span) -> (e: Self)
        ensures
            is_refusal(e, QUESTION_CONSTRUCT@, QUESTION_CONSEQUENCE@, QUESTION_WORKAROUND@, Some(span)),
    {
        refusal(string_of(QUESTION_CONSTRUCT), QUESTION_CONSEQUENCE, QUESTION_WORKAROUND, span)
    }

    /// A value-carrying `return` inside an `async fn` has nowhere to put its
    /// value.
    pub fn async_value_return_unimplemented(span: Span) -> (e: Self)
        ensures
            is_refusal(
                e,
                ASYNC_RETURN_CONSTRUCT@,
                ASYNC_RETURN_CONSEQUENCE@,
                ASYNC_RETURN_WORKAROUND@,
                Some(span),
            ),
    {
        refusal(
            string_of(ASYNC_RETURN_CONSTRUCT),
            ASYNC_RETURN_CONSEQUENCE,
            ASYNC_RETURN_WORKAROUND,
            span,
        )
    }

    /// The same refusal for a set of offending imported declarations: the span
    /// points at the first, and the construct names every one, in the order
    /// given.
    pub fn async_value_return_unimplemented_in_imports(offenders: &[(String, Span)]) -> (e: Self)
        requires
            offenders@.len() > 0,
        ensures
            is_refusal(
                e,
                ASYNC_RETURN_CONSTRUCT@ + " (imported: "@ + quoted_names(offenders@) + ")"@,
                ASYNC_RETURN_CONSEQUENCE@,
                ASYNC_RETURN_WORKAROUND@,
                Some(offenders@[0].1),
            ),
    {
        let mut quoted: Vec<String> = Vec::new();
        let mut i: usize = 0;
        while i < offenders.len()
            invariant
                i <= offenders@.len(),
                quoted@.map_values(|q: String| q@) == offenders@.take(i as int).map_values(
                    |o: (String, Span)| "`"@ + o.0@ + "`"@,
                ),
            decreases offenders@.len() - i,
        {
            let mut q = string_of("`");
            push_str(&mut q, offenders[i].0.as_str());
            push_str(&mut q, "`");
            let ghost before = quoted@;
            quoted.push(q);
            i = i + 1;
            proof {
                assert(quoted@.map_values(|q: String| q@) =~= before.map_values(|q: String| q@).push(
                    q@,
                ));
                assert(offenders@.take(i as int).map_values(|o: (String, Span)| "`"@ + o.0@ + "`"@)
                    =~= offenders@.take(i - 1).map_values(|o: (String, Span)| "`"@ + o.0@ + "`"@).push(
                    "`"@ + offenders@[i - 1].0@ + "`"@,
                ));
            }
        }
        assert(offenders@.take(offenders@.len() as int) == offenders@);
        let names = join_strings(&quoted, ", ");
        let mut construct = string_of(ASYNC_RETURN_CONSTRUCT);
        push_str(&mut construct, " (imported: ");
        push_str(&mut construct, names.as_str());
        push_str(&mut construct, ")");
        refusal(construct, ASYNC_RETURN_CONSEQUENCE, ASYNC_RETURN_WORKAROUND, offenders[0].1)
    }

    /// `async fn main` compiles to an entry point nothing can call.
    pub fn async_main_unimplemented(span: Span) -> (e: Self)
        ensures
            is_refusal(
                e,
                ASYNC_MAIN_CONSTRUCT@,
                ASYNC_MAIN_CONSEQUENCE@,
                ASYNC_MAIN_WORKAROUND@,
                Some(span),
            ),
    {
        refusal(string_of(ASYNC_MAIN_CONSTRUCT), ASYNC_MAIN_CONSEQUENCE, ASYNC_MAIN_WORKAROUND, span)
    }

    /// `.await` parses, but nothing lowers it.
    pub fn await_unimplemented(span: Span) -> (e: Self)
        ensures
            is_refusal(e, AWAIT_CONSTRUCT@, AWAIT_CONSEQUENCE@, AWAIT_WORKAROUND@, Some(span)),
    {
        refusal(string_of(AWAIT_CONSTRUCT), AWAIT_CONSEQUENCE, AWAIT_WORKAROUND, span)
    }

    /// A function body ends in an `if`/`match` (`keyword`) that produces a
    /// value on some paths and nothing on the path `missing` describes.
    pub fn tail_value_not_on_every_path(keyword: &str, missing: &str, span: Span) -> (e: Self)
        ensures
            is_refusal(
                e,
                "a tail `"@ + keyword@ + "` that produces a value on some paths but not all"@,
                "the tail expression in a branch is the function's return value, but "@ + missing@
                    + " has no value to return; code generation would emit a non-void function that falls off its end and yields whatever happens to be in the return register"@,
                TAIL_WORKAROUND@,
                Some(span),
            ),
    {
        let mut construct = string_of("a tail `");
        push_str(&mut construct, keyword);
        push_str(&mut construct, "` that produces a value on some paths but not all");
        let mut consequence = string_of(
            "the tail expression in a branch is the function's return value, but ",
        );
        push_str(&mut consequence, missing);
        push_str(
            &mut consequence,
            " has no value to return; code generation would emit a non-void function that falls off its end and yields whatever happens to be in the return register",
        );
        CompileError::Unimplemented {
            construct,
            consequence,
            workaround: string_of(TAIL_WORKAROUND),
            span: Some(span),
        }
    }

    /// The error's one-line text: what the error displays as.
    pub fn to_string(&self) -> (r: String)
        ensures
            r@ == error_text(*self),
    {
        match self {
            CompileError::UnexpectedChar { ch, line, col, .. } => {
                let mut s = string_of("Unexpected character '");
                push_char(&mut s, *ch);
                push_str(&mut s, "' at line ");
                push_usize(&mut s, *line);
                push_str(&mut s, ", column ");
                push_usize(&mut s, *col);
                s
            },
            CompileError::UnterminatedString { line, .. } => {
                let mut s = string_of("Unterminated string literal at line ");
                push_usize(&mut s, *line);
                s
            },
            CompileError::UnexpectedToken { expected, found, .. } => {
                let mut s = string_of("Unexpected token: expected ");
                push_str(&mut s, expected.as_str());
                push_str(&mut s, ", found ");
                push_str(&mut s, found.as_str());
                s
            },
            CompileError::SyntaxError { message, .. } => {
                let mut s = string_of("Syntax error: ");
                push_str(&mut s, message.as_str());
                s
            },
            CompileError::TypeMismatch { expected, found, .. } => {
                let mut s = string_of("Type mismatch: expected ");
                push_str(&mut s, expected.as_str());
                push_str(&mut s, ", found ");
                push_str(&mut s, found.as_str());
                s
            },
            CompileError::UndefinedVariable { name, .. } => {
                let mut s = string_of("Undefined variable: ");
                push_str(&mut s, name.as_str());
                s
            },
            CompileError::UndefinedFunction { name, .. } => {
                let mut s = string_of("Undefined function: ");
                push_str(&mut s, name.as_str());
                s
            },
            CompileError::ArgumentCountMismatch { name, expected, found, .. } => {
                let mut s = string_of("Function ");
                push_str(&mut s, name.as_str());
                push_str(&mut s, " expects ");
                push_usize(&mut s, *expected);
                push_str(&mut s, " arguments, but ");
                push_usize(&mut s, *found);
                push_str(&mut s, " were provided");
                s
            },
            CompileError::UnsupportedBuiltin { name, reason, .. } => {
                let mut s = string_of("Built-in ");
                push_str(&mut s, name.as_str());
                push_str(&mut s, " is registered but not callable: ");
                push_str(&mut s, reason.as_str());
                s
            },
            CompileError::CodegenError { message } => {
                let mut s = string_of("Code generation failed: ");
                push_str(&mut s, message.as_str());
                s
            },
            CompileError::Unimplemented { construct, .. } => {
                let mut s = string_of(construct.as_str());
                push_str(&mut s, " is not implemented");
                s
            },
            CompileError::IoError(text) => {
                let mut s = string_of("IO error: ");
                push_str(&mut s, text.as_str());
                s
            },
            CompileError::Generic(text) => string_of(text.as_str()),
            CompileError::MissingSemicolon { .. } => string_of("Missing semicolon after statement"),
            CompileError::InvalidFunctionSignature { .. } => string_of("Invalid function signature"),
            CompileError::BorrowChecker { message, .. } => {
                let mut s = string_of("Borrow checker error: ");
                push_str(&mut s, message.as_str());
                s
            },
            CompileError::UseOfMovedValue { name, .. } => {
                let mut s = string_of("Use of moved value: ");
                push_str(&mut s, name.as_str());
                s
            },
            CompileError::UseOfUninitializedValue { name, .. } => {
                let mut s = string_of("Use of uninitialized value: ");
                push_str(&mut s, name.as_str());
                s
            },
            CompileError::CannotMoveOutOfBorrowedContent { .. } => string_of(
                "Cannot move out of borrowed content",
            ),
            CompileError::UnsafeOperation { operation, .. } => {
                let mut s = string_of("Unsafe operation '");
                push_str(&mut s, operation.as_str());
                push_str(&mut s, "' requires unsafe block");
                s
            },
            CompileError::ConflictingBorrows { message, .. } => {
                let mut s = string_of("Conflicting borrows: ");
                push_str(&mut s, message.as_str());
                s
            },
            CompileError::LifetimeError { message, .. } => {
                let mut s = string_of("Lifetime error: ");
                push_str(&mut s, message.as_str());
                s
            },
            CompileError::NonExhaustiveMatch { missing_patterns, .. } => {
                let mut s = string_of("Non-exhaustive match: missing patterns ");
                let joined = join_strings(missing_patterns, ", ");
                push_str(&mut s, joined.as_str());
                s
            },
            CompileError::UnreachablePattern { patterns, .. } => {
                let mut s = string_of("Unreachable pattern: ");
                let joined = join_strings(patterns, ", ");
                push_str(&mut s, joined.as_str());
                s
            },
        }
    }
}


pub open spec fn plural_s(n: nat) -> Seq<char> {
    if n == 1 {
        Seq::empty()
    } else {
        "s"@
    }
}

pub open spec fn type_mismatch_advice(expected: Seq<char>, found: Seq<char>) -> Option<Seq<char>> {
    if expected == "int"@ && found == "string"@ {
        Some("Convert the string to an integer using parse_int()"@)
    } else if expected == "string"@ && found == "int"@ {
        Some("Convert the integer to a string using to_string()"@)
    } else if expected == "bool"@ {
        Some("Use 'true' or 'false' for boolean values"@)
    } else {
        None
    }
}

pub open spec fn opt_advice(d: DiagnosticView, advice: Option<Seq<char>>) -> DiagnosticView {
    match advice {
        Some(a) => with_suggestion_view(d, a, None),
        None => d,
    }
}

pub open spec fn span_or(s: Option<Span>, default: Span) -> Span {
    match s {
        Some(x) => x,
        None => default,
    }
}

pub open spec fn dummy_span() -> Span {
    Span { start: 0, end: 0, line: 0, column: 0 }
}

/// The diagnostic an error is reported as.
pub open spec fn diagnostic_of(e: CompileError) -> DiagnosticView {
    match e {
        CompileError::UnexpectedChar { ch, line, col, span } => with_suggestion_view(
            with_note_view(
                with_span_view(
                    error_view(error_text(e)),
                    span_or(span, Span { start: 0, end: 1, line, column: col }),
                ),
                "Palladium only allows ASCII letters, numbers, and common symbols"@,
            ),
            "Remove or replace this character with a valid one"@,
            None,
        ),
        CompileError::UnterminatedString { line, span } => with_suggestion_view(
            with_note_view(
                with_span_view(
                    error_view(error_text(e)),
                    span_or(span, Span { start: 0, end: 0, line, column: 1 }),
                ),
                "Strings must be closed with a matching quote"@,
            ),
            "Add a closing quote (\") to end the string"@,
            Some("\""@),
        ),
        CompileError::UnexpectedToken { expected, found, span } => with_suggestion_view(
            with_note_view(
                with_span_view(
                    error_view("Expected "@ + expected@ + ", but found "@ + found@),
                    span_or(span, dummy_span()),
                ),
                "The syntax requires a specific token here"@,
            ),
            "Replace '"@ + found@ + "' with '"@ + expected@ + "'"@,
            Some(expected@),
        ),
        CompileError::SyntaxError { message, span } => with_note_view(
            with_span_view(error_view(message@), span_or(span, dummy_span())),
            "Check the language syntax rules"@,
        ),
        CompileError::TypeMismatch { expected, found, span } => opt_advice(
            with_note_view(
                with_span_view(error_view(error_text(e)), span_or(span, dummy_span())),
                "Types must match exactly in Palladium"@,
            ),
            type_mismatch_advice(expected@, found@),
        ),
        CompileError::UndefinedVariable { name, span } => with_context_lines_view(
            with_suggestion_view(
                with_note_view(
                    with_span_view(error_view(error_text(e)), span_or(span, dummy_span())),
                    "Variables must be declared before use"@,
                ),
                "Did you mean to declare it? Try: let "@ + name@ + " = ...;"@,
                None,
            ),
            3,
        ),
        CompileError::UndefinedFunction { name, span } => {
            let d = with_note_view(
                with_span_view(error_view(error_text(e)), span_or(span, dummy_span())),
                "Functions must be defined before they are called"@,
            );
            if name@ == "print"@ {
                with_suggestion_view(
                    d,
                    "Did you mean 'println'? The print function is called 'println' in Palladium"@,
                    Some("println"@),
                )
            } else if name@ == "printf"@ {
                with_suggestion_view(
                    d,
                    "Palladium uses 'println' instead of 'printf'"@,
                    Some("println"@),
                )
            } else {
                with_suggestion_view(
                    d,
                    "Define the function first: fn "@ + name@ + "() { ... }"@,
                    None,
                )
            }
        },
        CompileError::ArgumentCountMismatch { name, expected, found, span } => {
            let d = with_span_view(
                error_view(
                    "Function '"@ + name@ + "' expects "@ + decimal(expected as nat) + " argument"@
                        + plural_s(expected as nat) + ", but "@ + decimal(found as nat) + (if found
                        == 1 {
                        " was"@
                    } else {
                        " were"@
                    }) + " provided"@,
                ),
                span_or(span, dummy_span()),
            );
            if found < expected {
                with_suggestion_view(
                    d,
                    "Add "@ + decimal((expected - found) as nat) + " more argument"@ + plural_s(
                        (expected - found) as nat,
                    ),
                    None,
                )
            } else {
                with_suggestion_view(
                    d,
                    "Remove "@ + decimal((found - expected) as nat) + " argument"@ + plural_s(
                        (found - expected) as nat,
                    ),
                    None,
                )
            }
        },
        CompileError::MissingSemicolon { span } => with_suggestion_view(
            with_note_view(
                with_span_view(
                    error_view("Missing semicolon after statement"@),
                    span_or(span, dummy_span()),
                ),
                "Every statement in Palladium must end with a semicolon"@,
            ),
            "Add a semicolon (;) at the end of this line"@,
            Some(";"@),
        ),
        CompileError::InvalidFunctionSignature { message, span } => with_suggestion_view(
            with_note_view(
                with_span_view(
                    error_view("Invalid function signature: "@ + message@),
                    span_or(span, dummy_span()),
                ),
                "Function signatures must follow the pattern: fn name(param: Type) -> ReturnType"@,
            ),
            "Example: fn add(x: int, y: int) -> int { return x + y; }"@,
            None,
        ),
        CompileError::NonExhaustiveMatch { missing_patterns, span } => {
            let d = with_note_view(
                with_span_view(
                    error_view("Non-exhaustive match expression"@),
                    span_or(span, dummy_span()),
                ),
                "All possible patterns must be covered in a match expression"@,
            );
            let pats = strings_view(missing_patterns);
            if pats.len() == 1 {
                with_suggestion_view(d, "Add a pattern for: "@ + pats[0], None)
            } else if pats.len() <= 3 {
                with_suggestion_view(d, "Add patterns for: "@ + join_seq(pats, ", "@), None)
            } else {
                with_suggestion_view(
                    d,
                    "Add remaining patterns or use a wildcard pattern (_) to match all other cases"@,
                    None,
                )
            }
        },
        CompileError::UnreachablePattern { span, .. } => with_suggestion_view(
            with_note_view(
                with_span_view(
                    error_view("Unreachable pattern detected"@),
                    span_or(span, dummy_span()),
                ),
                "This pattern can never be matched because previous patterns cover all cases"@,
            ),
            "Remove this pattern or reorder the patterns"@,
            None,
        ),
        CompileError::Unimplemented { construct, consequence, workaround, span } => {
            let d = with_context_lines_view(
                with_suggestion_view(
                    with_note_view(
                        error_view(construct@ + " is not implemented"@),
                        consequence@,
                    ),
                    workaround@,
                    None,
                ),
                1,
            );
            match span {
                Some(s) => with_span_view(d, s),
                None => d,
            }
        },
        _ => error_view(error_text(e)),
    }
}

fn span_or_exec(s: Option<Span>, default: Span) -> (r: Span)
    ensures
        r == span_or(s, default),
{
    match s {
        Some(x) => x,
        None => default,
    }
}

fn push_plural_s(s: &mut String, n: usize)
    ensures
        final(s)@ == old(s)@ + plural_s(n as nat),
{
    if n != 1 {
        push_str(s, "s");
    } else {
        assert(old(s)@ + plural_s(n as nat) == old(s)@);
    }
}

impl CompileError {
    /// Convert this error into a diagnostic with suggestions.
    pub fn to_diagnostic(&self) -> (d: Diagnostic)
        ensures
            d@ == diagnostic_of(*self),
    {
        match self {
            CompileError::UnexpectedChar { ch, line, col, span } => Diagnostic::error_owned(
                self.to_string(),
            ).with_span(span_or_exec(*span, Span::new(0, 1, *line, *col))).with_note(
                "Palladium only allows ASCII letters, numbers, and common symbols",
            ).with_suggestion("Remove or replace this character with a valid one", None),
            CompileError::UnterminatedString { line, span } => Diagnostic::error_owned(
                self.to_string(),
            ).with_span(span_or_exec(*span, Span::new(0, 0, *line, 1))).with_note(
                "Strings must be closed with a matching quote",
            ).with_suggestion("Add a closing quote (\") to end the string", Some(string_of("\""))),
            CompileError::UnexpectedToken { expected, found, span } => {
                let mut msg = string_of("Expected ");
                push_str(&mut msg, expected.as_str());
                push_str(&mut msg, ", but found ");
                push_str(&mut msg, found.as_str());
                let mut advice = string_of("Replace '");
                push_str(&mut advice, found.as_str());
                push_str(&mut advice, "' with '");
                push_str(&mut advice, expected.as_str());
                push_str(&mut advice, "'");
                Diagnostic::error_owned(msg).with_span(span_or_exec(*span, Span::dummy())).with_note(
                    "The syntax requires a specific token here",
                ).with_suggestion_owned(advice, Some(expected.clone()))
            },
            CompileError::SyntaxError { message, span } => Diagnostic::error_owned(
                message.clone(),
            ).with_span(span_or_exec(*span, Span::dummy())).with_note(
                "Check the language syntax rules",
            ),
            CompileError::TypeMismatch { expected, found, span } => {
                let diag = Diagnostic::error_owned(self.to_string()).with_span(
                    span_or_exec(*span, Span::dummy()),
                ).with_note("Types must match exactly in Palladium");
                let e = expected.as_str();
                let f = found.as_str();
                if str_eq(e, "int") && str_eq(f, "string") {
                    diag.with_suggestion("Convert the string to an integer using parse_int()", None)
                } else if str_eq(e, "string") && str_eq(f, "int") {
                    diag.with_suggestion("Convert the integer to a string using to_string()", None)
                } else if str_eq(e, "bool") {
                    diag.with_suggestion("Use 'true' or 'false' for boolean values", None)
                } else {
                    diag
                }
            },
            CompileError::UndefinedVariable { name, span } => {
                let mut advice = string_of("Did you mean to declare it? Try: let ");
                push_str(&mut advice, name.as_str());
                push_str(&mut advice, " = ...;");
                Diagnostic::error_owned(self.to_string()).with_span(
                    span_or_exec(*span, Span::dummy()),
                ).with_note("Variables must be declared before use").with_suggestion_owned(
                    advice,
                    None,
                ).with_context_lines(3)
            },
            CompileError::UndefinedFunction { name, span } => {
                let diag = Diagnostic::error_owned(self.to_string()).with_span(
                    span_or_exec(*span, Span::dummy()),
                ).with_note("Functions must be defined before they are called");
                if str_eq(name.as_str(), "print") {
                    diag.with_suggestion(
                        "Did you mean 'println'? The print function is called 'println' in Palladium",
                        Some(string_of("println")),
                    )
                } else if str_eq(name.as_str(), "printf") {
                    diag.with_suggestion(
                        "Palladium uses 'println' instead of 'printf'",
                        Some(string_of("println")),
                    )
                } else {
                    let mut advice = string_of("Define the function first: fn ");
                    push_str(&mut advice, name.as_str());
                    push_str(&mut advice, "() { ... }");
                    diag.with_suggestion_owned(advice, None)
                }
            },
            CompileError::ArgumentCountMismatch { name, expected, found, span } => {
                let mut msg = string_of("Function '");
                push_str(&mut msg, name.as_str());
                push_str(&mut msg, "' expects ");
                push_usize(&mut msg, *expected);
                push_str(&mut msg, " argument");
                push_plural_s(&mut msg, *expected);
                push_str(&mut msg, ", but ");
                push_usize(&mut msg, *found);
                push_str(&mut msg, if *found == 1 { " was" } else { " were" });
                push_str(&mut msg, " provided");
                let diag = Diagnostic::error_owned(msg).with_span(
                    span_or_exec(*span, Span::dummy()),
                );
                if *found < *expected {
                    let mut advice = string_of("Add ");
                    push_usize(&mut advice, *expected - *found);
                    push_str(&mut advice, " more argument");
                    push_plural_s(&mut advice, *expected - *found);
                    diag.with_suggestion_owned(advice, None)
                } else {
                    let mut advice = string_of("Remove ");
                    push_usize(&mut advice, *found - *expected);
                    push_str(&mut advice, " argument");
                    push_plural_s(&mut advice, *found - *expected);
                    diag.with_suggestion_owned(advice, None)
                }
            },
            CompileError::MissingSemicolon { span } => Diagnostic::error(
                "Missing semicolon after statement",
            ).with_span(span_or_exec(*span, Span::dummy())).with_note(
                "Every statement in Palladium must end with a semicolon",
            ).with_suggestion("Add a semicolon (;) at the end of this line", Some(string_of(";"))),
            CompileError::InvalidFunctionSignature { message, span } => {
                let mut msg = string_of("Invalid function signature: ");
                push_str(&mut msg, message.as_str());
                Diagnostic::error_owned(msg).with_span(span_or_exec(*span, Span::dummy())).with_note(
                    "Function signatures must follow the pattern: fn name(param: Type) -> ReturnType",
                ).with_suggestion("Example: fn add(x: int, y: int) -> int { return x + y; }", None)
            },
            CompileError::NonExhaustiveMatch { missing_patterns, span } => {
                let diag = Diagnostic::error("Non-exhaustive match expression").with_span(
                    span_or_exec(*span, Span::dummy()),
                ).with_note("All possible patterns must be covered in a match expression");
                if missing_patterns.len() == 1 {
                    let mut advice = string_of("Add a pattern for: ");
                    push_str(&mut advice, missing_patterns[0].as_str());
                    diag.with_suggestion_owned(advice, None)
                } else if missing_patterns.len() <= 3 {
                    let mut advice = string_of("Add patterns for: ");
                    let joined = join_strings(missing_patterns, ", ");
                    push_str(&mut advice, joined.as_str());
                    diag.with_suggestion_owned(advice, None)
                } else {
                    diag.with_suggestion(
                        "Add remaining patterns or use a wildcard pattern (_) to match all other cases",
                        None,
                    )
                }
            },
            CompileError::UnreachablePattern { span, .. } => Diagnostic::error(
                "Unreachable pattern detected",
            ).with_span(span_or_exec(*span, Span::dummy())).with_note(
                "This pattern can never be matched because previous patterns cover all cases",
            ).with_suggestion("Remove this pattern or reorder the patterns", None),
            CompileError::Unimplemented { construct, consequence, workaround, span } => {
                let mut msg = string_of(construct.as_str());
                push_str(&mut msg, " is not implemented");
                let diag = Diagnostic::error_owned(msg).with_note_owned(
                    consequence.clone(),
                ).with_suggestion_owned(workaround.clone(), None).with_context_lines(1);
                // Only claim a location when there is one.
                match span {
                    Some(s) => diag.with_span(*s),
                    None => diag,
                }
            },
            _ => Diagnostic::error_owned(self.to_string()),
        }
    }
}

// ---------------------------------------------------------------------------
// Conversion from I/O errors
// ---------------------------------------------------------------------------

#[verifier::external_type_specification]
#[verifier::external_body]
pub struct ExIoError(std::io::Error);

/// The display text of an `io::Error` (its `Display` impl, through
/// `ToString`). What it says depends on where the error came from, the
/// operating system's message among others, so nothing is promised of it.
#[verifier::external_body]
fn io_error_text(e: &std::io::Error) -> String {
    e.to_string()
}

impl From<std::io::Error> for CompileError {
    /// An I/O failure, carried as its message.
    fn from(e: std::io::Error) -> (r: Self)
        ensures
            r is IoError,
    {
        CompileError::IoError(io_error_text(&e))
    }
}

impl vstd::std_specs::convert::FromSpecImpl<std::io::Error> for CompileError {
    open spec fn obeys_from_spec() -> bool {
        false
    }

    open spec fn from_spec(v: std::io::Error) -> Self {
        vstd::pervasive::arbitrary()
    }
}

} // verus!
