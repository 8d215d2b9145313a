//! How a compile-and-run ended, and what it reports.

use vstd::prelude::*;
use crate::errors::CompileError;
use crate::text::{push_str, signed_decimal, string_of};

verus! {

/// Why a run did not end with a program that ran successfully: the front
/// end refused the source, the link stage refused (or could not reach) the
/// C, or the program itself ran and failed.
#[derive(Debug)]
pub enum RunOutcome {
    /// The front end, or any non-link step, refused.
    Compile(CompileError),
    /// The link stage, by the exit code it maps to and its message.
    Link { exit_code: i32, message: String },
    /// The program was built, started, and failed.
    Child {
        /// `None` when the child was killed rather than exiting.
        code: Option<i32>,
        /// The signal that killed it, where the platform reports one.
        signal: Option<i32>,
    },
}

/// The exit code a run reports: 1 for a refused source, the link stage's own
/// code, and for a failed program its exit code, or 128 plus the signal that
/// killed it.
pub open spec fn outcome_exit_code(o: RunOutcome) -> int {
    match o {
        RunOutcome::Compile(_) => 1,
        RunOutcome::Link { exit_code, .. } => exit_code as int,
        RunOutcome::Child { code, signal } => match code {
            Some(c) => c as int,
            None => 128 + match signal {
                Some(s) => s as int,
                None => 0,
            },
        },
    }
}

/// How a child that did not succeed ended, after `prefix`: its exit code,
/// the signal that killed it, or neither.
pub open spec fn child_text(code: Option<i32>, signal: Option<i32>) -> Seq<char> {
    match (code, signal) {
        (Some(c), _) => "exited with code "@ + signed_decimal(c as int),
        (None, Some(s)) => "was killed by signal "@ + signed_decimal(s as int),
        (None, None) => "terminated abnormally"@,
    }
}

/// How a child ended, for the line above the verdict.
pub fn describe_child_status(code: Option<i32>, signal: Option<i32>) -> (r: String)
    ensures
        r@ == child_text(code, signal),
{
    match (code, signal) {
        (Some(c), _) => {
            let mut out = string_of("exited with code ");
            crate::text::push_i64(&mut out, c as i64);
            out
        },
        (None, Some(s)) => {
            let mut out = string_of("was killed by signal ");
            crate::text::push_i64(&mut out, s as i64);
            out
        },
        (None, None) => string_of("terminated abnormally"),
    }
}

impl RunOutcome {
    /// A signal number 128 plus which still fits an exit code.
    pub open spec fn reportable(&self) -> bool {
        match *self {
            RunOutcome::Child { code: None, signal: Some(s) } => s <= i32::MAX - 128,
            _ => true,
        }
    }

    /// The process exit code the run reports.
    pub fn exit_code(&self) -> (r: i32)
        requires
            self.reportable(),
        ensures
            r as int == outcome_exit_code(*self),
    {
        match self {
            RunOutcome::Compile(_) => 1,
            RunOutcome::Link { exit_code, .. } => *exit_code,
            RunOutcome::Child { code, signal } => match code {
                Some(c) => *c,
                None => 128 + match signal {
                    Some(s) => *s,
                    None => 0,
                },
            },
        }
    }

    /// Collapse into a compile error, for callers that only have one: a
    /// refusal is itself, a link failure its message, a failed program a
    /// sentence about how it ended.
    pub fn into_compile_error(self) -> (r: CompileError)
        ensures
            match self {
                RunOutcome::Compile(e) => r == e,
                RunOutcome::Link { message, .. } => r matches CompileError::Generic(t) && t
                    == message,
                RunOutcome::Child { code, signal } => r matches CompileError::Generic(t) && t@
                    == "program "@ + child_text(code, signal),
            },
    {
        match self {
            RunOutcome::Compile(e) => e,
            RunOutcome::Link { message, .. } => CompileError::Generic(message),
            RunOutcome::Child { code, signal } => {
                let mut text = string_of("program ");
                let rest = describe_child_status(code, signal);
                push_str(&mut text, rest.as_str());
                CompileError::Generic(text)
            },
        }
    }
}

} // verus!
