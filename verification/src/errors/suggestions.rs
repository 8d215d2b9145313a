//! Common error patterns and suggestions for Palladium.

use vstd::prelude::*;
use crate::errors::pretty::{count_char, lemma_count_concat};
use crate::text::{
    all_ascii, ascii_lowercase, chars_of, contains_seq, lowercase_of, push_char, push_str, starts_with_seq, str_contains, str_eq,
    str_starts_with, string_of, to_lowercase, trim_start, trim_start_seq,
};

verus! {

// ---------------------------------------------------------------------------
// Edit distance
// ---------------------------------------------------------------------------

pub open spec fn min_nat(x: nat, y: nat) -> nat {
    if x <= y {
        x
    } else {
        y
    }
}

pub open spec fn max_nat(x: nat, y: nat) -> nat {
    if x >= y {
        x
    } else {
        y
    }
}

/// Levenshtein distance: the fewest single-character deletions, insertions
/// and substitutions that turn `a` into `b`.
pub open spec fn lev(a: Seq<char>, b: Seq<char>) -> nat
    decreases a.len() + b.len(),
{
    if a.len() == 0 {
        b.len()
    } else if b.len() == 0 {
        a.len()
    } else {
        let deletion = lev(a.drop_last(), b) + 1;
        let insertion = lev(a, b.drop_last()) + 1;
        let substitution = lev(a.drop_last(), b.drop_last()) + if a.last() == b.last() {
            0nat
        } else {
            1nat
        };
        min_nat(min_nat(deletion, insertion), substitution)
    }
}

pub proof fn lemma_lev_bounded(a: Seq<char>, b: Seq<char>)
    ensures
        lev(a, b) <= max_nat(a.len(), b.len()),
    decreases a.len() + b.len(),
{
    if a.len() > 0 && b.len() > 0 {
        lemma_lev_bounded(a.drop_last(), b.drop_last());
    }
}

/// A string is at distance zero from itself, and from no other string.
pub proof fn lemma_lev_zero_iff_equal(a: Seq<char>, b: Seq<char>)
    ensures
        (lev(a, b) == 0) == (a == b),
    decreases a.len() + b.len(),
{
    if a.len() > 0 && b.len() > 0 {
        lemma_lev_zero_iff_equal(a.drop_last(), b.drop_last());
        if a == b {
            assert(a.drop_last() == b.drop_last());
        } else if lev(a, b) == 0 {
            assert(a.drop_last() == b.drop_last());
            assert(a =~= a.drop_last().push(a.last()));
            assert(b =~= b.drop_last().push(b.last()));
        }
    } else if a.len() == 0 && b.len() == 0 {
        assert(a =~= b);
    }
}

/// The distance does not depend on which string is the source.
pub proof fn lemma_lev_symmetric(a: Seq<char>, b: Seq<char>)
    ensures
        lev(a, b) == lev(b, a),
    decreases a.len() + b.len(),
{
    if a.len() > 0 && b.len() > 0 {
        lemma_lev_symmetric(a.drop_last(), b);
        lemma_lev_symmetric(a, b.drop_last());
        lemma_lev_symmetric(a.drop_last(), b.drop_last());
    }
}

// ---------------------------------------------------------------------------
// Messages
// ---------------------------------------------------------------------------

pub const MSG_PLUS_PLUS: &'static str =
    "Palladium doesn't have ++ operator. Use 'x = x + 1' or 'x += 1' instead";

pub const MSG_MINUS_MINUS: &'static str =
    "Palladium doesn't have -- operator. Use 'x = x - 1' or 'x -= 1' instead";

pub const MSG_ASSIGN_COMPARE: &'static str =
    "Make sure you're using '=' for assignment and '==' for comparison";

pub const MSG_INCLUDE: &'static str =
    "Palladium uses 'import' instead of '#include'. Example: import std.io;";

pub const MSG_MALLOC: &'static str =
    "Palladium has automatic memory management. You don't need malloc/free";

pub const MSG_INT_TO_STRING: &'static str = "Use int_to_string() to convert int to string";

pub const MSG_STRING_TO_INT: &'static str = "Use parse_int() to convert string to int";

pub const MSG_FLOAT_TO_INT: &'static str = "Use to_int() to convert float to int";

pub const MSG_INT_TO_FLOAT: &'static str = "Use to_float() to convert int to float";

pub const MSG_BOOL_TO_STRING: &'static str = "Use to_string() to convert bool to string";

pub const MSG_STRING_TO_BOOL: &'static str = "Use parse_bool() to convert string to bool";

pub const IMPORT_IO: &'static str = "import std.io;";

pub const IMPORT_MATH: &'static str = "import std.math;";

pub const IMPORT_STRING: &'static str = "import std.string;";

pub const IMPORT_COLLECTIONS: &'static str = "import std.collections;";

pub const MSG_PRINTF: &'static str =
    "Palladium uses string interpolation instead of printf-style formatting. Example: println(\"x = {}\", x);";

pub const MSG_NULL: &'static str =
    "Palladium uses Option types instead of null. Use 'Option<T>' and 'Some(value)' or 'None'";

pub const MSG_VAR: &'static str = "Palladium uses 'let' for variables and 'let mut' for mutable variables";

pub const MSG_CONST: &'static str = "In Palladium, 'const' should be used at the top level for constants";

pub const MSG_CLASS: &'static str = "Palladium uses 'struct' for data types. Classes are not supported yet";

pub const MSG_SWITCH: &'static str = "Palladium uses 'match' expressions instead of switch statements";

pub const MSG_DO_WHILE: &'static str =
    "Palladium doesn't have do-while loops. Use 'loop { ... if condition { break; } }'";

// ---------------------------------------------------------------------------
// Specifications of the engine
// ---------------------------------------------------------------------------

/// Index of the first candidate equal to `name` once both are lowercased.
pub open spec fn first_case_insensitive(name: Seq<char>, cands: Seq<Seq<char>>) -> Option<int>
    decreases cands.len(),
{
    if cands.len() == 0 {
        None
    } else if lowercase_of(cands[0]) == lowercase_of(name) {
        Some(0)
    } else {
        match first_case_insensitive(name, cands.drop_first()) {
            Some(i) => Some(i + 1),
            None => None,
        }
    }
}

/// Index of the first candidate with the smallest edit distance to `name`
/// among those within `limit` of it.
pub open spec fn closest_within(name: Seq<char>, cands: Seq<Seq<char>>, limit: nat) -> Option<int>
    decreases cands.len(),
{
    if cands.len() == 0 {
        None
    } else {
        let prev = closest_within(name, cands.drop_last(), limit);
        let d = lev(name, cands.last());
        if d <= limit && (prev matches Some(p) ==> d < lev(name, cands[p])) {
            Some(cands.len() - 1)
        } else {
            prev
        }
    }
}

/// The suggestion for a misspelled `name`: a case-insensitive match first,
/// otherwise the closest candidate within a third of the name's byte length
/// plus one.
pub open spec fn similar_name(name: &str, cands: Seq<Seq<char>>) -> Option<Seq<char>> {
    match first_case_insensitive(name@, cands) {
        Some(i) => Some(cands[i]),
        None => match closest_within(name@, cands, (name.len() / 3 + 1) as nat) {
            Some(i) => Some(cands[i]),
            None => None,
        },
    }
}

pub open spec fn fancy_quote(c: char) -> bool {
    c == '\u{201C}' || c == '\u{201D}' || c == '\u{2018}' || c == '\u{2019}' || c == '`' || c
        == '\u{00B4}'
}

pub open spec fn ascii_quote(c: char) -> Option<char> {
    if c == '\u{201C}' || c == '\u{201D}' {
        Some('"')
    } else if c == '\u{2018}' || c == '\u{2019}' || c == '`' || c == '\u{00B4}' {
        Some('\'')
    } else {
        None
    }
}

pub open spec fn c_style_advice(code: Seq<char>) -> Option<Seq<char>> {
    if contains_seq(code, "++"@) {
        Some(MSG_PLUS_PLUS@)
    } else if contains_seq(code, "--"@) {
        Some(MSG_MINUS_MINUS@)
    } else if contains_seq(code, "=="@) && contains_seq(code, "="@) {
        Some(MSG_ASSIGN_COMPARE@)
    } else if starts_with_seq(code, "#include"@) {
        Some(MSG_INCLUDE@)
    } else if contains_seq(code, "malloc"@) || contains_seq(code, "free"@) {
        Some(MSG_MALLOC@)
    } else {
        None
    }
}

pub open spec fn is_int_name(t: Seq<char>) -> bool {
    t == "int"@ || t == "i64"@
}

/// The conversion advice for lowercased type names `from` and `to`.
pub open spec fn conversion_advice(from: Seq<char>, to: Seq<char>) -> Option<Seq<char>> {
    if is_int_name(from) && to == "string"@ {
        Some(MSG_INT_TO_STRING@)
    } else if from == "string"@ && is_int_name(to) {
        Some(MSG_STRING_TO_INT@)
    } else if from == "float"@ && is_int_name(to) {
        Some(MSG_FLOAT_TO_INT@)
    } else if is_int_name(from) && to == "float"@ {
        Some(MSG_INT_TO_FLOAT@)
    } else if from == "bool"@ && to == "string"@ {
        Some(MSG_BOOL_TO_STRING@)
    } else if from == "string"@ && to == "bool"@ {
        Some(MSG_STRING_TO_BOOL@)
    } else {
        None
    }
}

pub open spec fn import_advice(f: Seq<char>) -> Option<Seq<char>> {
    if f == "println"@ || f == "print"@ || f == "readln"@ {
        Some(IMPORT_IO@)
    } else if f == "sqrt"@ || f == "pow"@ || f == "abs"@ || f == "sin"@ || f == "cos"@ {
        Some(IMPORT_MATH@)
    } else if f == "len"@ || f == "substr"@ || f == "concat"@ {
        Some(IMPORT_STRING@)
    } else if f == "Vec"@ || f == "HashMap"@ || f == "Set"@ {
        Some(IMPORT_COLLECTIONS@)
    } else {
        None
    }
}

pub open spec fn closer_of(open: char) -> char {
    if open == '(' {
        ')'
    } else if open == '[' {
        ']'
    } else if open == '{' {
        '}'
    } else {
        open
    }
}

/// `"<head>: expected '<closer of open>' to match '<open>'"`.
pub open spec fn mismatch_message(head: Seq<char>, open: char) -> Seq<char> {
    head + ": expected '"@ + seq![closer_of(open)] + "' to match '"@ + seq![open] + "'"@
}

/// The verdict of the delimiter scan on `s[i..]`, given the still-open
/// delimiters `stack` (innermost last).
pub open spec fn delimiter_scan(s: Seq<char>, i: int, stack: Seq<char>) -> Option<Seq<char>>
    decreases s.len() - i,
{
    if i >= s.len() || i < 0 {
        if stack.len() > 0 {
            Some(
                "Unclosed delimiter '"@ + seq![stack.last()] + "', expected '"@ + seq![
                    closer_of(stack.last()),
                ] + "'"@,
            )
        } else {
            None
        }
    } else {
        let ch = s[i];
        if ch == '(' || ch == '[' || ch == '{' {
            delimiter_scan(s, i + 1, stack.push(ch))
        } else if ch == ')' || ch == ']' || ch == '}' {
            let want = if ch == ')' {
                '('
            } else if ch == ']' {
                '['
            } else {
                '{'
            };
            if stack.len() == 0 {
                Some(
                    if ch == ')' {
                        "Unmatched closing parenthesis ')'"@
                    } else if ch == ']' {
                        "Unmatched closing bracket ']'"@
                    } else {
                        "Unmatched closing brace '}'"@
                    },
                )
            } else if stack.last() != want {
                Some(
                    mismatch_message(
                        if ch == ')' {
                            "Mismatched parentheses"@
                        } else if ch == ']' {
                            "Mismatched brackets"@
                        } else {
                            "Mismatched braces"@
                        },
                        stack.last(),
                    ),
                )
            } else {
                delimiter_scan(s, i + 1, stack.drop_last())
            }
        } else {
            delimiter_scan(s, i + 1, stack)
        }
    }
}

/// A pair of matching delimiters.
pub open spec fn delimiter_pair(open: char, close: char) -> bool {
    (open == '(' && close == ')') || (open == '[' && close == ']') || (open == '{' && close
        == '}')
}

proof fn lemma_count_cons(x: char, t: Seq<char>, c: char)
    ensures
        count_char(seq![x] + t, c) == count_char(t, c) + if x == c {
            1nat
        } else {
            0nat
        },
{
    lemma_count_concat(seq![x], t, c);
    assert(seq![x].drop_last() == Seq::<char>::empty());
    assert(seq![x].last() == x);
    assert(count_char(Seq::<char>::empty(), c) == 0);
}

/// What the scan of `s[i..]` accepts, given the open delimiters `stack`, closes
/// every delimiter it opens: of each kind, the openers still on the stack and
/// those yet to come are as many as the closers yet to come.
proof fn lemma_scan_balances_counts(s: Seq<char>, i: int, stack: Seq<char>, open: char, close: char)
    requires
        0 <= i <= s.len(),
        delimiter_pair(open, close),
        delimiter_scan(s, i, stack) is None,
    ensures
        count_char(s.skip(i), open) + count_char(stack, open) == count_char(s.skip(i), close),
    decreases s.len() - i,
{
    if i == s.len() {
        assert(s.skip(i) =~= Seq::<char>::empty());
    } else {
        let ch = s[i];
        assert(s.skip(i) =~= seq![ch] + s.skip(i + 1));
        lemma_count_cons(ch, s.skip(i + 1), open);
        lemma_count_cons(ch, s.skip(i + 1), close);
        if ch == '(' || ch == '[' || ch == '{' {
            lemma_scan_balances_counts(s, i + 1, stack.push(ch), open, close);
            assert(stack.push(ch).drop_last() == stack);
        } else if ch == ')' || ch == ']' || ch == '}' {
            lemma_scan_balances_counts(s, i + 1, stack.drop_last(), open, close);
            assert(stack.drop_last().push(stack.last()) == stack);
            assert(count_char(stack, open) == count_char(stack.drop_last(), open) + if stack.last()
                == open {
                1nat
            } else {
                0nat
            });
        } else {
            lemma_scan_balances_counts(s, i + 1, stack, open, close);
        }
    }
}

/// Code the delimiter check accepts closes every parenthesis, bracket and
/// brace it opens: of each kind there are as many closers as openers.
pub proof fn lemma_accepted_code_balances_each_kind(code: Seq<char>, open: char, close: char)
    requires
        delimiter_pair(open, close),
        delimiter_scan(code, 0, Seq::empty()) is None,
    ensures
        count_char(code, open) == count_char(code, close),
{
    lemma_scan_balances_counts(code, 0, Seq::empty(), open, close);
    assert(code.skip(0) == code);
    assert(count_char(Seq::<char>::empty(), open) == 0);
}

/// The advice list for a fragment of beginner code, in check order.
pub open spec fn beginner_advice(code: Seq<char>) -> Seq<Seq<char>> {
    let a0 = Seq::<Seq<char>>::empty();
    let a1 = if contains_seq(code, "%d"@) || contains_seq(code, "%s"@) || contains_seq(
        code,
        "%f"@,
    ) {
        a0.push(MSG_PRINTF@)
    } else {
        a0
    };
    let a2 = if contains_seq(code, "null"@) || contains_seq(code, "nil"@) || contains_seq(
        code,
        "NULL"@,
    ) {
        a1.push(MSG_NULL@)
    } else {
        a1
    };
    let a3 = if contains_seq(code, "var "@) {
        a2.push(MSG_VAR@)
    } else {
        a2
    };
    let a4 = if contains_seq(code, "const "@) && !starts_with_seq(trim_start_seq(code), "const"@) {
        a3.push(MSG_CONST@)
    } else {
        a3
    };
    let a5 = if contains_seq(code, "class "@) {
        a4.push(MSG_CLASS@)
    } else {
        a4
    };
    let a6 = if contains_seq(code, "switch"@) {
        a5.push(MSG_SWITCH@)
    } else {
        a5
    };
    if contains_seq(code, "do {"@) || contains_seq(code, "do{"@) {
        a6.push(MSG_DO_WHILE@)
    } else {
        a6
    }
}

/// Every piece of beginner advice, in the order it is given.
pub open spec fn all_advice() -> Seq<Seq<char>> {
    seq![MSG_PRINTF@, MSG_NULL@, MSG_VAR@, MSG_CONST@, MSG_CLASS@, MSG_SWITCH@, MSG_DO_WHILE@]
}

/// For each piece of advice in `all_advice`, whether it applies to `code`.
pub open spec fn advice_applies(code: Seq<char>) -> Seq<bool> {
    seq![
        contains_seq(code, "%d"@) || contains_seq(code, "%s"@) || contains_seq(code, "%f"@),
        contains_seq(code, "null"@) || contains_seq(code, "nil"@) || contains_seq(code, "NULL"@),
        contains_seq(code, "var "@),
        contains_seq(code, "const "@) && !starts_with_seq(trim_start_seq(code), "const"@),
        contains_seq(code, "class "@),
        contains_seq(code, "switch"@),
        contains_seq(code, "do {"@) || contains_seq(code, "do{"@),
    ]
}

/// The items of `items` whose flag is set, in their order.
pub open spec fn kept<T>(items: Seq<T>, flags: Seq<bool>) -> Seq<T>
    decreases flags.len(),
{
    if flags.len() == 0 || items.len() == 0 {
        Seq::empty()
    } else {
        let before = kept(items.drop_last(), flags.drop_last());
        if flags.last() {
            before.push(items.last())
        } else {
            before
        }
    }
}

proof fn lemma_kept_len<T>(items: Seq<T>, flags: Seq<bool>)
    ensures
        kept(items, flags).len() <= flags.len(),
    decreases flags.len(),
{
    if flags.len() > 0 && items.len() > 0 {
        lemma_kept_len(items.drop_last(), flags.drop_last());
    }
}

/// Beginner advice is the fixed list of messages filtered by which of them
/// apply: each message at most once, always in the same order, so never more
/// than seven.
pub proof fn lemma_beginner_advice_in_fixed_order(code: Seq<char>)
    ensures
        beginner_advice(code) == kept(all_advice(), advice_applies(code)),
        beginner_advice(code).len() <= 7,
{
    let m = all_advice();
    let f = advice_applies(code);
    reveal_with_fuel(kept, 8);
    assert(m.drop_last().drop_last().drop_last().drop_last().drop_last().drop_last().drop_last().len()
        == 0);
    assert(kept(m, f) =~= beginner_advice(code));
    lemma_kept_len(m, f);
}

// ---------------------------------------------------------------------------
// The engine
// ---------------------------------------------------------------------------

/// Provides suggestions based on error patterns.
pub struct SuggestionEngine;

impl SuggestionEngine {
    /// Suggest a similar identifier for a typo: an exact case-insensitive match
    /// first, otherwise the nearest candidate by edit distance, if it is within
    /// a third of the name's length plus one.
    pub fn suggest_similar_name(name: &str, available: &[String]) -> (r: Option<String>)
        ensures
            r matches Some(s) ==> similar_name(name, available@.map_values(|c: String| c@))
                == Some(s@),
            r is None ==> similar_name(name, available@.map_values(|c: String| c@)) is None,
    {
        let ghost cands = available@.map_values(|c: String| c@);
        let name_lower = to_lowercase(name);

        let mut i: usize = 0;
        while i < available.len()
            invariant
                i <= available.len(),
                cands == available@.map_values(|c: String| c@),
                name_lower@ == lowercase_of(name@),
                forall|k: int| 0 <= k < i ==> lowercase_of(#[trigger] cands[k]) != lowercase_of(
                    name@,
                ),
            decreases available.len() - i,
        {
            let lower = to_lowercase(available[i].as_str());
            if lower == name_lower {
                proof {
                    lemma_first_case_insensitive_is_first(name@, cands, i as int);
                }
                return Some(available[i].clone());
            }
            i = i + 1;
        }
        proof {
            lemma_first_case_insensitive_none(name@, cands);
        }

        let limit: usize = name.len() / 3 + 1;
        let mut best_match: Option<usize> = None;
        let mut best_distance: usize = usize::MAX;
        let mut j: usize = 0;
        while j < available.len()
            invariant
                j <= available.len(),
                cands == available@.map_values(|c: String| c@),
                limit == name.len() / 3 + 1,
                best_match == (match closest_within(name@, cands.take(j as int), limit as nat) {
                    Some(p) => Some(p as usize),
                    None => None::<usize>,
                }),
                best_match matches Some(p) ==> p < j && best_distance == lev(name@, cands[p as int]),
                best_match is None ==> best_distance == usize::MAX,
            decreases available.len() - j,
        {
            let distance = Self::edit_distance(name, available[j].as_str());
            proof {
                assert(cands.take(j + 1).drop_last() == cands.take(j as int));
                assert(cands.take(j + 1).last() == cands[j as int]);
                if let Some(p) = closest_within(name@, cands.take(j as int), limit as nat) {
                    lemma_closest_within_bounds(name@, cands.take(j as int), limit as nat);
                    assert(cands.take(j + 1)[p] == cands[p]);
                    assert(cands.take(j as int)[p] == cands[p]);
                }
            }
            if distance < best_distance && distance <= limit {
                best_distance = distance;
                best_match = Some(j);
            }
            j = j + 1;
        }
        assert(cands.take(available.len() as int) == cands);
        proof {
            lemma_closest_within_bounds(name@, cands, limit as nat);
        }
        match best_match {
            Some(p) => Some(available[p].clone()),
            None => None,
        }
    }

    /// Levenshtein edit distance between two strings.
    pub fn edit_distance(a: &str, b: &str) -> (d: usize)
        ensures
            d == lev(a@, b@),
    {
        let a_chars = chars_of(a);
        let b_chars = chars_of(b);
        let a_len = a_chars.len();
        let b_len = b_chars.len();

        if a_len == 0 {
            return b_len;
        }
        if b_len == 0 {
            return a_len;
        }

        // Row `i` holds the distances from the first `i` characters of `a` to
        // every prefix of `b`.
        let mut prev: Vec<usize> = Vec::new();
        let mut j: usize = 0;
        while j <= b_len
            invariant
                j <= b_len + 1,
                b_len == b@.len(),
                b_len <= isize::MAX,
                a_chars@ == a@,
                prev@.len() == j,
                forall|k: int| 0 <= k < j ==> prev@[k] == lev(a@.take(0), b@.take(k)),
            decreases b_len + 1 - j,
        {
            proof {
                assert(a@.take(0).len() == 0);
            }
            prev.push(j);
            j = j + 1;
        }

        let mut i: usize = 1;
        while i <= a_len
            invariant
                1 <= i <= a_len + 1,
                a_len == a@.len(),
                b_len == b@.len(),
                a_len <= isize::MAX,
                b_len <= isize::MAX,
                a_chars@ == a@,
                b_chars@ == b@,
                prev@.len() == b_len + 1,
                forall|k: int| 0 <= k <= b_len ==> prev@[k] == lev(a@.take(i - 1), b@.take(k)),
            decreases a_len + 1 - i,
        {
            let ghost ai = a@.take(i as int);
            proof {
                assert(ai.drop_last() == a@.take(i - 1));
                assert(ai.last() == a@[i - 1]);
                assert(b@.take(0).len() == 0);
            }
            let mut cur: Vec<usize> = Vec::new();
            cur.push(i);
            let mut j: usize = 1;
            while j <= b_len
                invariant
                    1 <= i <= a_len,
                    1 <= j <= b_len + 1,
                    a_len == a@.len(),
                    b_len == b@.len(),
                    a_len <= isize::MAX,
                    b_len <= isize::MAX,
                    a_chars@ == a@,
                    b_chars@ == b@,
                    ai == a@.take(i as int),
                    ai.drop_last() == a@.take(i - 1),
                    ai.last() == a@[i - 1],
                    prev@.len() == b_len + 1,
                    forall|k: int| 0 <= k <= b_len ==> prev@[k] == lev(a@.take(i - 1), b@.take(k)),
                    cur@.len() == j,
                    forall|k: int| 0 <= k < j ==> cur@[k] == lev(ai, b@.take(k)),
                decreases b_len + 1 - j,
            {
                let ghost bj = b@.take(j as int);
                proof {
                    assert(bj.drop_last() == b@.take(j - 1));
                    assert(bj.last() == b@[j - 1]);
                    lemma_lev_bounded(a@.take(i - 1), b@.take(j as int));
                    lemma_lev_bounded(ai, b@.take(j - 1));
                    lemma_lev_bounded(a@.take(i - 1), b@.take(j - 1));
                }
                let cost: usize = if a_chars[i - 1] == b_chars[j - 1] {
                    0
                } else {
                    1
                };
                let deletion = prev[j] + 1;
                let insertion = cur[j - 1] + 1;
                let substitution = prev[j - 1] + cost;
                let m1 = if deletion <= insertion {
                    deletion
                } else {
                    insertion
                };
                let m = if m1 <= substitution {
                    m1
                } else {
                    substitution
                };
                cur.push(m);
                j = j + 1;
            }
            prev = cur;
            i = i + 1;
        }
        assert(a@.take(a_len as int) == a@);
        assert(b@.take(b_len as int) == b@);
        prev[b_len]
    }

    /// Whether a character looks like a quote that should be ASCII.
    pub fn is_fancy_quote(ch: char) -> (r: bool)
        ensures
            r == fancy_quote(ch),
    {
        ch == '\u{201C}' || ch == '\u{201D}' || ch == '\u{2018}' || ch == '\u{2019}' || ch == '`'
            || ch == '\u{00B4}'
    }

    /// The ASCII quote a fancy quote stands for.
    pub fn suggest_ascii_quote(ch: char) -> (r: Option<char>)
        ensures
            r == ascii_quote(ch),
    {
        if ch == '\u{201C}' || ch == '\u{201D}' {
            Some('"')
        } else if ch == '\u{2018}' || ch == '\u{2019}' || ch == '`' || ch == '\u{00B4}' {
            Some('\'')
        } else {
            None
        }
    }

    /// Advice for common C-style habits.
    pub fn suggest_for_c_style_mistake(code: &str) -> (r: Option<String>)
        ensures
            r matches Some(s) ==> c_style_advice(code@) == Some(s@),
            r is None ==> c_style_advice(code@) is None,
    {
        if str_contains(code, "++") {
            Some(string_of(MSG_PLUS_PLUS))
        } else if str_contains(code, "--") {
            Some(string_of(MSG_MINUS_MINUS))
        } else if str_contains(code, "==") && str_contains(code, "=") {
            Some(string_of(MSG_ASSIGN_COMPARE))
        } else if str_starts_with(code, "#include") {
            Some(string_of(MSG_INCLUDE))
        } else if str_contains(code, "malloc") || str_contains(code, "free") {
            Some(string_of(MSG_MALLOC))
        } else {
            None
        }
    }

    /// Advice for converting between two types, by case-insensitive name.
    pub fn suggest_type_conversion(from_type: &str, to_type: &str) -> (r: Option<String>)
        ensures
            r matches Some(s) ==> conversion_advice(lowercase_of(from_type@), lowercase_of(to_type@))
                == Some(s@),
            r is None ==> conversion_advice(lowercase_of(from_type@), lowercase_of(to_type@)) is None,
            all_ascii(from_type@) && all_ascii(to_type@) ==> (r matches Some(s) ==> conversion_advice(
                ascii_lowercase(from_type@),
                ascii_lowercase(to_type@),
            ) == Some(s@)) && (r is None ==> conversion_advice(
                ascii_lowercase(from_type@),
                ascii_lowercase(to_type@),
            ) is None),
    {
        let from = to_lowercase(from_type);
        let to = to_lowercase(to_type);
        let f = from.as_str();
        let t = to.as_str();
        let from_int = str_eq(f, "int") || str_eq(f, "i64");
        let to_int = str_eq(t, "int") || str_eq(t, "i64");
        if from_int && str_eq(t, "string") {
            Some(string_of(MSG_INT_TO_STRING))
        } else if str_eq(f, "string") && to_int {
            Some(string_of(MSG_STRING_TO_INT))
        } else if str_eq(f, "float") && to_int {
            Some(string_of(MSG_FLOAT_TO_INT))
        } else if from_int && str_eq(t, "float") {
            Some(string_of(MSG_INT_TO_FLOAT))
        } else if str_eq(f, "bool") && str_eq(t, "string") {
            Some(string_of(MSG_BOOL_TO_STRING))
        } else if str_eq(f, "string") && str_eq(t, "bool") {
            Some(string_of(MSG_STRING_TO_BOOL))
        } else {
            None
        }
    }

    /// The import that brings a standard function into scope.
    pub fn suggest_import_for_function(func_name: &str) -> (r: Option<String>)
        ensures
            r matches Some(s) ==> import_advice(func_name@) == Some(s@),
            r is None ==> import_advice(func_name@) is None,
    {
        let f = func_name;
        if str_eq(f, "println") || str_eq(f, "print") || str_eq(f, "readln") {
            Some(string_of(IMPORT_IO))
        } else if str_eq(f, "sqrt") || str_eq(f, "pow") || str_eq(f, "abs") || str_eq(f, "sin")
            || str_eq(f, "cos") {
            Some(string_of(IMPORT_MATH))
        } else if str_eq(f, "len") || str_eq(f, "substr") || str_eq(f, "concat") {
            Some(string_of(IMPORT_STRING))
        } else if str_eq(f, "Vec") || str_eq(f, "HashMap") || str_eq(f, "Set") {
            Some(string_of(IMPORT_COLLECTIONS))
        } else {
            None
        }
    }

    /// Check that parentheses, brackets and braces are balanced, and name the
    /// first problem found.
    pub fn check_balanced_delimiters(code: &str) -> (r: Option<String>)
        ensures
            r matches Some(s) ==> delimiter_scan(code@, 0, Seq::empty()) == Some(s@),
            r is None ==> delimiter_scan(code@, 0, Seq::empty()) is None,
    {
        let cs = chars_of(code);
        let mut stack: Vec<char> = Vec::new();
        let mut i: usize = 0;
        while i < cs.len()
            invariant
                i <= cs.len(),
                cs@ == code@,
                delimiter_scan(code@, i as int, stack@) == delimiter_scan(
                    code@,
                    0,
                    Seq::empty(),
                ),
            decreases cs.len() - i,
        {
            let ch = cs[i];
            if ch == '(' || ch == '[' || ch == '{' {
                stack.push(ch);
            } else if ch == ')' || ch == ']' || ch == '}' {
                let want = if ch == ')' {
                    '('
                } else if ch == ']' {
                    '['
                } else {
                    '{'
                };
                match stack.pop() {
                    Some(open) => {
                        if open != want {
                            let mut msg = string_of(
                                if ch == ')' {
                                    "Mismatched parentheses"
                                } else if ch == ']' {
                                    "Mismatched brackets"
                                } else {
                                    "Mismatched braces"
                                },
                            );
                            push_str(&mut msg, ": expected '");
                            push_char(&mut msg, Self::matching_delimiter(open));
                            push_str(&mut msg, "' to match '");
                            push_char(&mut msg, open);
                            push_str(&mut msg, "'");
                            return Some(msg);
                        }
                    },
                    None => {
                        return Some(
                            string_of(
                                if ch == ')' {
                                    "Unmatched closing parenthesis ')'"
                                } else if ch == ']' {
                                    "Unmatched closing bracket ']'"
                                } else {
                                    "Unmatched closing brace '}'"
                                },
                            ),
                        );
                    },
                }
            }
            i = i + 1;
        }
        match stack.pop() {
            Some(open) => {
                let mut msg = string_of("Unclosed delimiter '");
                push_char(&mut msg, open);
                push_str(&mut msg, "', expected '");
                push_char(&mut msg, Self::matching_delimiter(open));
                push_str(&mut msg, "'");
                Some(msg)
            },
            None => None,
        }
    }

    /// The delimiter that closes `open` (and `open` itself for any other
    /// character).
    pub fn matching_delimiter(open: char) -> (r: char)
        ensures
            r == closer_of(open),
    {
        if open == '(' {
            ')'
        } else if open == '[' {
            ']'
        } else if open == '{' {
            '}'
        } else {
            open
        }
    }
}

proof fn lemma_first_case_insensitive_is_first(name: Seq<char>, cands: Seq<Seq<char>>, i: int)
    requires
        0 <= i < cands.len(),
        lowercase_of(cands[i]) == lowercase_of(name),
        forall|k: int| 0 <= k < i ==> lowercase_of(#[trigger] cands[k]) != lowercase_of(name),
    ensures
        first_case_insensitive(name, cands) == Some(i),
    decreases cands.len(),
{
    if i > 0 {
        let rest = cands.drop_first();
        assert forall|k: int| 0 <= k < i - 1 implies lowercase_of(#[trigger] rest[k])
            != lowercase_of(name) by {
            assert(rest[k] == cands[k + 1]);
        }
        lemma_first_case_insensitive_is_first(name, rest, i - 1);
    }
}

proof fn lemma_first_case_insensitive_none(name: Seq<char>, cands: Seq<Seq<char>>)
    requires
        forall|k: int| 0 <= k < cands.len() ==> lowercase_of(#[trigger] cands[k]) != lowercase_of(
            name,
        ),
    ensures
        first_case_insensitive(name, cands) is None,
    decreases cands.len(),
{
    if cands.len() > 0 {
        let rest = cands.drop_first();
        assert forall|k: int| 0 <= k < rest.len() implies lowercase_of(#[trigger] rest[k])
            != lowercase_of(name) by {
            assert(rest[k] == cands[k + 1]);
        }
        lemma_first_case_insensitive_none(name, rest);
    }
}

proof fn lemma_closest_within_bounds(name: Seq<char>, cands: Seq<Seq<char>>, limit: nat)
    ensures
        closest_within(name, cands, limit) matches Some(p) ==> 0 <= p < cands.len() && lev(
            name,
            cands[p],
        ) <= limit,
    decreases cands.len(),
{
    if cands.len() > 0 {
        lemma_closest_within_bounds(name, cands.drop_last(), limit);
    }
}

/// The nearest-candidate search picks, among the candidates within `limit`
/// of `name`, one at the smallest edit distance, and the first such; it
/// finds none exactly when no candidate is within `limit`.
pub proof fn lemma_closest_within_is_first_nearest(name: Seq<char>, cands: Seq<Seq<char>>, limit: nat)
    ensures
        match closest_within(name, cands, limit) {
            Some(p) => {
                &&& 0 <= p < cands.len()
                &&& lev(name, cands[p]) <= limit
                &&& forall|j: int| 0 <= j < cands.len() && lev(name, #[trigger] cands[j]) <= limit
                    ==> lev(name, cands[p]) <= lev(name, cands[j])
                &&& forall|j: int| 0 <= j < p ==> lev(name, #[trigger] cands[j]) > limit || lev(
                    name,
                    cands[j],
                ) > lev(name, cands[p])
            },
            None => forall|j: int| 0 <= j < cands.len() ==> lev(name, #[trigger] cands[j]) > limit,
        },
    decreases cands.len(),
{
    if cands.len() > 0 {
        let init = cands.drop_last();
        let n = cands.len() - 1;
        lemma_closest_within_is_first_nearest(name, init, limit);
        let prev = closest_within(name, init, limit);
        let d = lev(name, cands[n]);
        assert(cands.last() == cands[n]);
        match closest_within(name, cands, limit) {
            Some(p) => {
                if p == n {
                    assert forall|j: int| 0 <= j < cands.len() && lev(name, #[trigger] cands[j])
                        <= limit implies d <= lev(name, cands[j]) by {
                        if j < n {
                            assert(init[j] == cands[j]);
                        }
                    }
                    assert forall|j: int| 0 <= j < p implies lev(name, #[trigger] cands[j]) > limit
                        || lev(name, cands[j]) > d by {
                        assert(init[j] == cands[j]);
                    }
                } else {
                    assert(prev == Some(p));
                    assert(init[p] == cands[p]);
                    assert forall|j: int| 0 <= j < cands.len() && lev(name, #[trigger] cands[j])
                        <= limit implies lev(name, cands[p]) <= lev(name, cands[j]) by {
                        if j < n {
                            assert(init[j] == cands[j]);
                        }
                    }
                    assert forall|j: int| 0 <= j < p implies lev(name, #[trigger] cands[j]) > limit
                        || lev(name, cands[j]) > lev(name, cands[p]) by {
                        assert(init[j] == cands[j]);
                    }
                }
            },
            None => {
                assert forall|j: int| 0 <= j < cands.len() implies lev(name, #[trigger] cands[j])
                    > limit by {
                    if j < n {
                        assert(init[j] == cands[j]);
                    }
                }
            },
        }
    }
}

/// The rule by which a misspelled name is matched: the first candidate equal
/// to it ignoring case, if there is one; otherwise, of the candidates within
/// a third of the name's byte length plus one edits of it, the first at the
/// smallest distance; otherwise nothing.
#[verifier::rlimit(30)]
pub proof fn lemma_similar_name_rule(name: &str, cands: Seq<Seq<char>>)
    ensures
        forall|i: int| 0 <= i < cands.len() && lowercase_of(#[trigger] cands[i]) == lowercase_of(name@)
            ==> exists|k: int| 0 <= k <= i && similar_name(name, cands) == Some(cands[k])
                && lowercase_of(cands[k]) == lowercase_of(name@) && forall|m: int| 0 <= m < k
                ==> lowercase_of(#[trigger] cands[m]) != lowercase_of(name@),
        (forall|i: int| 0 <= i < cands.len() ==> lowercase_of(#[trigger] cands[i]) != lowercase_of(
            name@,
        )) ==> match similar_name(name, cands) {
            Some(c) => exists|k: int| {
                &&& 0 <= k < cands.len()
                &&& c == cands[k]
                &&& lev(name@, c) <= name.len() / 3 + 1
                &&& forall|j: int| 0 <= j < cands.len() && lev(name@, #[trigger] cands[j]) <= name.len()
                    / 3 + 1 ==> lev(name@, c) <= lev(name@, cands[j])
                &&& forall|j: int| 0 <= j < k ==> lev(name@, #[trigger] cands[j]) > name.len() / 3
                    + 1 || lev(name@, cands[j]) > lev(name@, c)
            },
            None => forall|j: int| 0 <= j < cands.len() ==> lev(name@, #[trigger] cands[j]) > name.len()
                / 3 + 1,
        },
{
    let limit = (name.len() / 3 + 1) as nat;
    lemma_closest_within_is_first_nearest(name@, cands, limit);
    lemma_first_case_insensitive_found(name@, cands);
    match first_case_insensitive(name@, cands) {
        Some(k) => {
            assert(similar_name(name, cands) == Some(cands[k]));
            assert forall|i: int| 0 <= i < cands.len() && lowercase_of(#[trigger] cands[i])
                == lowercase_of(name@) implies exists|k2: int| 0 <= k2 <= i && similar_name(
                name,
                cands,
            ) == Some(cands[k2]) && lowercase_of(cands[k2]) == lowercase_of(name@) && forall|m: int|
                0 <= m < k2 ==> lowercase_of(#[trigger] cands[m]) != lowercase_of(name@) by {
                if i < k {
                    assert(lowercase_of(cands[i]) != lowercase_of(name@));
                }
                assert(0 <= k <= i);
            }
        },
        None => {
            match closest_within(name@, cands, limit) {
                Some(p) => {
                    assert(similar_name(name, cands) == Some(cands[p]));
                },
                None => {},
            }
        },
    }
}

/// The first case-insensitive match is a match, comes no later than any
/// other, and nothing before it matches.
proof fn lemma_first_case_insensitive_found(name: Seq<char>, cands: Seq<Seq<char>>)
    ensures
        match first_case_insensitive(name, cands) {
            Some(k) => 0 <= k < cands.len() && lowercase_of(cands[k]) == lowercase_of(name)
                && forall|m: int| 0 <= m < k ==> lowercase_of(#[trigger] cands[m]) != lowercase_of(name),
            None => forall|m: int| 0 <= m < cands.len() ==> lowercase_of(#[trigger] cands[m])
                != lowercase_of(name),
        },
    decreases cands.len(),
{
    if cands.len() > 0 {
        let rest = cands.drop_first();
        lemma_first_case_insensitive_found(name, rest);
        assert forall|m: int| 0 <= m < rest.len() implies #[trigger] rest[m] == cands[m + 1] by {}
        if lowercase_of(cands[0]) != lowercase_of(name) {
            assert forall|m: int| 0 < m < cands.len() implies cands[m] == rest[m - 1] by {}
        }
    }
}

/// Common patterns that beginners might use incorrectly.
pub struct BeginnerPatterns;

impl BeginnerPatterns {
    /// Every piece of advice that applies to `code`, in a fixed order.
    pub fn check_pattern(code: &str) -> (r: Vec<String>)
        ensures
            r@.map_values(|s: String| s@) == beginner_advice(code@),
    {
        let mut suggestions: Vec<String> = Vec::new();
        let ghost a0 = Seq::<Seq<char>>::empty();

        if str_contains(code, "%d") || str_contains(code, "%s") || str_contains(code, "%f") {
            suggestions.push(string_of(MSG_PRINTF));
        }
        if str_contains(code, "null") || str_contains(code, "nil") || str_contains(code, "NULL") {
            suggestions.push(string_of(MSG_NULL));
        }
        if str_contains(code, "var ") {
            suggestions.push(string_of(MSG_VAR));
        }
        if str_contains(code, "const ") {
            let trimmed = trim_start(code);
            if !str_starts_with(trimmed.as_str(), "const") {
                suggestions.push(string_of(MSG_CONST));
            }
        }
        if str_contains(code, "class ") {
            suggestions.push(string_of(MSG_CLASS));
        }
        if str_contains(code, "switch") {
            suggestions.push(string_of(MSG_SWITCH));
        }
        if str_contains(code, "do {") || str_contains(code, "do{") {
            suggestions.push(string_of(MSG_DO_WHILE));
        }
        assert(suggestions@.map_values(|s: String| s@) =~= beginner_advice(code@));
        suggestions
    }
}

} // verus!
