//! Stable diagnostic codes.
//!
//! A `PD####` names a semantic rejection condition, not the sentence the
//! compiler currently says. The association between a code and its condition
//! is permanent, a retired number is never reused, and numbers carry no
//! arithmetic meaning.

use vstd::prelude::*;
use crate::text::{decimal, push_str, push_u64, string_of};

verus! {

/// A stable diagnostic code.
#[derive(Debug, Clone, Copy, PartialEq, Eq, Structural, Hash)]
pub enum DiagnosticCode {
    /// PD0002: a top-level initialiser has no value in the target's arithmetic.
    ConstInitialiserHasNoValue,
    /// PD0003: a cast among the numeric primitives and `bool`, or between
    /// `char` and `i64`.
    CastRelation,
    /// PD0008: a non-integer literal is not representable in a macro token
    /// stream.
    NonIntegerLiteralInMacroTokenStream,
    /// PD0020: a top-level initialiser has to be a constant expression.
    TopLevelInitialiserMustBeConstant,
    /// PD0049: `macro_rules!` is not this language's macro system.
    MacroRulesIsNotThisMacroSystem,
    /// PD0066: a function that declares a return type must produce a value on
    /// every path.
    ReturnValueOnEveryPath,
    /// PD0067: macro expansion is a single pass.
    SinglePassExpansion,
    /// PD0068: a macro body may substitute only its own parameters.
    MacroBodySubstitutesOwnParameters,
    /// PD0069: a parameter named in a macro body must be written `$name`.
    MacroParameterNeedsDollar,
    /// PD0074: a multi-character operator may not appear in a macro body or
    /// argument.
    MultiCharacterOperatorInMacroTokenStream,
    /// PD0077: a `\` in a literal must be followed by a known escape.
    UnknownEscapeSpelling,
    /// PD0078: a `/*` must be closed.
    UnterminatedBlockComment,
}

pub open spec fn code_number(c: DiagnosticCode) -> u16 {
    match c {
        DiagnosticCode::ConstInitialiserHasNoValue => 2,
        DiagnosticCode::CastRelation => 3,
        DiagnosticCode::NonIntegerLiteralInMacroTokenStream => 8,
        DiagnosticCode::TopLevelInitialiserMustBeConstant => 20,
        DiagnosticCode::MacroRulesIsNotThisMacroSystem => 49,
        DiagnosticCode::ReturnValueOnEveryPath => 66,
        DiagnosticCode::SinglePassExpansion => 67,
        DiagnosticCode::MacroBodySubstitutesOwnParameters => 68,
        DiagnosticCode::MacroParameterNeedsDollar => 69,
        DiagnosticCode::MultiCharacterOperatorInMacroTokenStream => 74,
        DiagnosticCode::UnknownEscapeSpelling => 77,
        DiagnosticCode::UnterminatedBlockComment => 78,
    }
}

pub open spec fn code_name(c: DiagnosticCode) -> Seq<char> {
    match c {
        DiagnosticCode::ConstInitialiserHasNoValue => "const_initialiser_has_no_value"@,
        DiagnosticCode::CastRelation => "cast_relation"@,
        DiagnosticCode::NonIntegerLiteralInMacroTokenStream =>
            "non_integer_literal_in_macro_token_stream"@,
        DiagnosticCode::TopLevelInitialiserMustBeConstant =>
            "top_level_initialiser_must_be_constant"@,
        DiagnosticCode::MacroRulesIsNotThisMacroSystem => "macro_rules_is_not_this_macro_system"@,
        DiagnosticCode::ReturnValueOnEveryPath => "return_value_on_every_path"@,
        DiagnosticCode::SinglePassExpansion => "single_pass_expansion"@,
        DiagnosticCode::MacroBodySubstitutesOwnParameters =>
            "macro_body_substitutes_own_parameters"@,
        DiagnosticCode::MacroParameterNeedsDollar => "macro_parameter_needs_dollar"@,
        DiagnosticCode::MultiCharacterOperatorInMacroTokenStream =>
            "multi_character_operator_in_macro_token_stream"@,
        DiagnosticCode::UnknownEscapeSpelling => "unknown_escape_spelling"@,
        DiagnosticCode::UnterminatedBlockComment => "unterminated_block_comment"@,
    }
}

/// The numbers retired by merges; none may be allocated again.
pub open spec fn is_tombstoned(n: u16) -> bool {
    n == 25 || n == 47 || n == 51 || n == 61 || n == 65 || n == 73
}

/// `n` written with at least four digits, zero-padded on the left.
pub open spec fn four_digits(n: nat) -> Seq<char> {
    if n < 10 {
        "000"@ + decimal(n)
    } else if n < 100 {
        "00"@ + decimal(n)
    } else if n < 1000 {
        "0"@ + decimal(n)
    } else {
        decimal(n)
    }
}

/// The wire spelling of a code: `PD` then its number in four digits.
pub open spec fn wire_text(c: DiagnosticCode) -> Seq<char> {
    "PD"@ + four_digits(code_number(c) as nat)
}

impl DiagnosticCode {
    /// Every code this compiler can emit today, in allocation order.
    pub const ALL: [DiagnosticCode; 12] = [
        DiagnosticCode::ConstInitialiserHasNoValue,
        DiagnosticCode::CastRelation,
        DiagnosticCode::NonIntegerLiteralInMacroTokenStream,
        DiagnosticCode::TopLevelInitialiserMustBeConstant,
        DiagnosticCode::MacroRulesIsNotThisMacroSystem,
        DiagnosticCode::ReturnValueOnEveryPath,
        DiagnosticCode::SinglePassExpansion,
        DiagnosticCode::MacroBodySubstitutesOwnParameters,
        DiagnosticCode::MacroParameterNeedsDollar,
        DiagnosticCode::MultiCharacterOperatorInMacroTokenStream,
        DiagnosticCode::UnknownEscapeSpelling,
        DiagnosticCode::UnterminatedBlockComment,
    ];

    /// The retired numbers, each with the condition it named before its
    /// merge.
    pub const TOMBSTONES: [(u16, &'static str); 6] = [
        (25, "nested array inner length, `the field ...` caller spelling"),
        (47, "argument type, const-generic callee spelling"),
        (51, "`macro_rules!`, invocation position spelling"),
        (61, "receiver write-through, `&self` detail spelling"),
        (65, "loop/break value agreement, break-side spelling"),
        (73, "single-pass expansion, macro-argument position spelling"),
    ];

    /// The allocated number. `PD0002` is 2.
    pub fn number(self) -> (n: u16)
        ensures
            n == code_number(self),
    {
        match self {
            DiagnosticCode::ConstInitialiserHasNoValue => 2,
            DiagnosticCode::CastRelation => 3,
            DiagnosticCode::NonIntegerLiteralInMacroTokenStream => 8,
            DiagnosticCode::TopLevelInitialiserMustBeConstant => 20,
            DiagnosticCode::MacroRulesIsNotThisMacroSystem => 49,
            DiagnosticCode::ReturnValueOnEveryPath => 66,
            DiagnosticCode::SinglePassExpansion => 67,
            DiagnosticCode::MacroBodySubstitutesOwnParameters => 68,
            DiagnosticCode::MacroParameterNeedsDollar => 69,
            DiagnosticCode::MultiCharacterOperatorInMacroTokenStream => 74,
            DiagnosticCode::UnknownEscapeSpelling => 77,
            DiagnosticCode::UnterminatedBlockComment => 78,
        }
    }

    /// The registry's symbolic name. The number is the identity; the name is
    /// for humans and for grep.
    pub fn symbolic_name(self) -> (s: &'static str)
        ensures
            s@ == code_name(self),
    {
        match self {
            DiagnosticCode::ConstInitialiserHasNoValue => "const_initialiser_has_no_value",
            DiagnosticCode::CastRelation => "cast_relation",
            DiagnosticCode::NonIntegerLiteralInMacroTokenStream =>
                "non_integer_literal_in_macro_token_stream",
            DiagnosticCode::TopLevelInitialiserMustBeConstant =>
                "top_level_initialiser_must_be_constant",
            DiagnosticCode::MacroRulesIsNotThisMacroSystem =>
                "macro_rules_is_not_this_macro_system",
            DiagnosticCode::ReturnValueOnEveryPath => "return_value_on_every_path",
            DiagnosticCode::SinglePassExpansion => "single_pass_expansion",
            DiagnosticCode::MacroBodySubstitutesOwnParameters =>
                "macro_body_substitutes_own_parameters",
            DiagnosticCode::MacroParameterNeedsDollar => "macro_parameter_needs_dollar",
            DiagnosticCode::MultiCharacterOperatorInMacroTokenStream =>
                "multi_character_operator_in_macro_token_stream",
            DiagnosticCode::UnknownEscapeSpelling => "unknown_escape_spelling",
            DiagnosticCode::UnterminatedBlockComment => "unterminated_block_comment",
        }
    }

    /// The wire spelling, and the only one: `PD` then exactly four digits.
    pub fn to_string(&self) -> (s: String)
        ensures
            s@ == wire_text(*self),
    {
        let n = self.number();
        let mut s = string_of("PD");
        if n < 10 {
            push_str(&mut s, "000");
        } else if n < 100 {
            push_str(&mut s, "00");
        } else if n < 1000 {
            push_str(&mut s, "0");
        }
        push_u64(&mut s, n as u64);
        s
    }
}

/// Two different codes never share a number: the number is the identity.
pub proof fn lemma_numbers_are_unique(a: DiagnosticCode, b: DiagnosticCode)
    ensures
        a != b ==> code_number(a) != code_number(b),
{
}

/// Two different codes never share a symbolic name.
pub proof fn lemma_names_are_unique(a: DiagnosticCode, b: DiagnosticCode)
    ensures
        a != b ==> code_name(a) != code_name(b),
{
    reveal_strlit("const_initialiser_has_no_value");
    reveal_strlit("cast_relation");
    reveal_strlit("non_integer_literal_in_macro_token_stream");
    reveal_strlit("top_level_initialiser_must_be_constant");
    reveal_strlit("macro_rules_is_not_this_macro_system");
    reveal_strlit("return_value_on_every_path");
    reveal_strlit("single_pass_expansion");
    reveal_strlit("macro_body_substitutes_own_parameters");
    reveal_strlit("macro_parameter_needs_dollar");
    reveal_strlit("multi_character_operator_in_macro_token_stream");
    reveal_strlit("unknown_escape_spelling");
    reveal_strlit("unterminated_block_comment");
    if a != b && code_name(a) == code_name(b) {
        assert(code_name(a).len() == code_name(b).len());
        assert(code_name(a)[0] == code_name(b)[0]);
        assert(code_name(a)[1] == code_name(b)[1]);
        assert(code_name(a)[3] == code_name(b)[3]);
        assert(code_name(a)[5] == code_name(b)[5]);
        assert(code_name(a)[9] == code_name(b)[9]);
        assert(code_name(a)[14] == code_name(b)[14]);
    }
}

/// No code that can be emitted reuses a retired number.
pub proof fn lemma_no_code_is_tombstoned(c: DiagnosticCode)
    ensures
        !is_tombstoned(code_number(c)),
{
}

/// Every wire spelling is `PD` followed by exactly four digits.
pub proof fn lemma_wire_spelling_has_six_characters(c: DiagnosticCode)
    ensures
        wire_text(c).len() == 6,
{
    reveal_strlit("PD");
    reveal_strlit("000");
    reveal_strlit("00");
    let n = code_number(c) as nat;
    if n >= 10 {
        assert(decimal(n / 10).len() == 1);
    }
}

} // verus!
