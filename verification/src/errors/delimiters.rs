//! What it means for parentheses, brackets and braces to be balanced and
//! properly nested, and that the delimiter check decides exactly that.

use vstd::prelude::*;
use super::suggestions::{closer_of, delimiter_scan, mismatch_message};

verus! {

pub open spec fn is_opener(c: char) -> bool {
    c == '(' || c == '[' || c == '{'
}

pub open spec fn is_closer(c: char) -> bool {
    c == ')' || c == ']' || c == '}'
}

/// The parentheses, brackets and braces of `s`, in order.
pub open spec fn delimiters_of(s: Seq<char>) -> Seq<char>
    decreases s.len(),
{
    if s.len() == 0 {
        Seq::empty()
    } else if is_opener(s[0]) || is_closer(s[0]) {
        seq![s[0]] + delimiters_of(s.drop_first())
    } else {
        delimiters_of(s.drop_first())
    }
}

/// A properly nested word of delimiters: empty, or an opener, a properly
/// nested word, the opener's own closer, and another properly nested word.
pub open spec fn nested(w: Seq<char>) -> bool
    decreases w.len(),
{
    if w.len() == 0 {
        true
    } else {
        is_opener(w[0]) && exists|k: int|
            1 <= k < w.len() && #[trigger] w[k] == closer_of(w[0]) && nested(w.subrange(1, k))
                && nested(w.subrange(k + 1, w.len() as int))
    }
}

/// Every character is an opener.
pub open spec fn all_openers(st: Seq<char>) -> bool {
    forall|i: int| 0 <= i < st.len() ==> is_opener(#[trigger] st[i])
}

/// Every character is a delimiter.
pub open spec fn all_delimiters(w: Seq<char>) -> bool {
    forall|i: int| 0 <= i < w.len() ==> is_opener(#[trigger] w[i]) || is_closer(w[i])
}

/// The stack discipline over `w` from the open delimiters `st`: an opener is
/// pushed, a closer must close the innermost open delimiter, anything else
/// is skipped, and nothing may be left open at the end.
pub open spec fn stack_accepts(w: Seq<char>, st: Seq<char>) -> bool
    decreases w.len(),
{
    if w.len() == 0 {
        st.len() == 0
    } else if is_opener(w[0]) {
        stack_accepts(w.drop_first(), st.push(w[0]))
    } else if is_closer(w[0]) {
        st.len() > 0 && closer_of(st.last()) == w[0] && stack_accepts(w.drop_first(), st.drop_last())
    } else {
        stack_accepts(w.drop_first(), st)
    }
}

proof fn lemma_nested_starts_with_opener(w: Seq<char>)
    requires
        nested(w),
        w.len() > 0,
    ensures
        is_opener(w[0]),
{
}

proof fn lemma_nested_ends_with_closer(w: Seq<char>)
    requires
        nested(w),
        w.len() > 0,
    ensures
        is_closer(w.last()),
    decreases w.len(),
{
    let k = choose|k: int|
        1 <= k < w.len() && #[trigger] w[k] == closer_of(w[0]) && nested(w.subrange(1, k))
            && nested(w.subrange(k + 1, w.len() as int));
    let b = w.subrange(k + 1, w.len() as int);
    if b.len() == 0 {
        assert(w.last() == w[k]);
    } else {
        lemma_nested_ends_with_closer(b);
        assert(w.last() == b.last());
    }
}

/// In a properly nested word an opener directly followed by a closer is
/// closed by it, and the word without the pair is properly nested.
proof fn lemma_nested_cancel(x: Seq<char>, p: int)
    requires
        nested(x),
        0 <= p,
        p + 1 < x.len(),
        is_opener(x[p]),
        is_closer(x[p + 1]),
    ensures
        x[p + 1] == closer_of(x[p]),
        nested(x.subrange(0, p) + x.subrange(p + 2, x.len() as int)),
    decreases x.len(),
{
    let n = x.len() as int;
    let k = choose|k: int|
        1 <= k < x.len() && #[trigger] x[k] == closer_of(x[0]) && nested(x.subrange(1, k))
            && nested(x.subrange(k + 1, x.len() as int));
    let a = x.subrange(1, k);
    let b = x.subrange(k + 1, n);
    let y = x.subrange(0, p) + x.subrange(p + 2, n);
    if p == 0 {
        if k > 1 {
            assert(a[0] == x[1]);
            lemma_nested_starts_with_opener(a);
        }
        assert(y =~= b);
    } else if p + 1 < k {
        assert(a[p - 1] == x[p]);
        assert(a[p] == x[p + 1]);
        lemma_nested_cancel(a, p - 1);
        let a2 = a.subrange(0, p - 1) + a.subrange(p + 1, a.len() as int);
        assert(y[0] == x[0]);
        assert(y[k - 2] == x[k]);
        assert(y.subrange(1, k - 2) =~= a2);
        assert(y.subrange(k - 1, y.len() as int) =~= b);
    } else if p + 1 == k {
        lemma_nested_ends_with_closer(a);
        assert(a.last() == x[p]);
    } else if p == k {
    } else {
        let q = p - k - 1;
        assert(b[q] == x[p]);
        assert(b[q + 1] == x[p + 1]);
        lemma_nested_cancel(b, q);
        let b2 = b.subrange(0, q) + b.subrange(q + 2, b.len() as int);
        assert(y[0] == x[0]);
        assert(y[k] == x[k]);
        assert(y.subrange(1, k) =~= a);
        assert(y.subrange(k + 1, y.len() as int) =~= b2);
    }
}

/// Putting an opener and its closer side by side anywhere in a properly
/// nested word keeps it properly nested.
proof fn lemma_nested_insert(x: Seq<char>, q: int, o: char)
    requires
        nested(x),
        0 <= q <= x.len(),
        is_opener(o),
    ensures
        nested(x.subrange(0, q) + seq![o, closer_of(o)] + x.subrange(q, x.len() as int)),
    decreases x.len(),
{
    let n = x.len() as int;
    let pair = seq![o, closer_of(o)];
    let y = x.subrange(0, q) + pair + x.subrange(q, n);
    if q == 0 {
        assert(y[0] == o);
        assert(y[1] == closer_of(o));
        assert(y.subrange(1, 1) =~= Seq::<char>::empty());
        assert(nested(y.subrange(1, 1)));
        assert(y.subrange(2, y.len() as int) =~= x);
        assert(nested(y.subrange(2, y.len() as int)));
        assert(is_opener(y[0]));
        assert(nested(y));
    } else {
        let k = choose|k: int|
            1 <= k < x.len() && #[trigger] x[k] == closer_of(x[0]) && nested(x.subrange(1, k))
                && nested(x.subrange(k + 1, x.len() as int));
        let a = x.subrange(1, k);
        let b = x.subrange(k + 1, n);
        if q <= k {
            lemma_nested_insert(a, q - 1, o);
            let a2 = a.subrange(0, q - 1) + pair + a.subrange(q - 1, a.len() as int);
            assert(y[0] == x[0]);
            assert(y[k + 2] == x[k]);
            assert(y.subrange(1, k + 2) =~= a2);
            assert(y.subrange(k + 3, y.len() as int) =~= b);
            assert(nested(y));
        } else {
            lemma_nested_insert(b, q - k - 1, o);
            let b2 = b.subrange(0, q - k - 1) + pair + b.subrange(q - k - 1, b.len() as int);
            assert(y[0] == x[0]);
            assert(y[k] == x[k]);
            assert(y.subrange(1, k) =~= a);
            assert(y.subrange(k + 1, y.len() as int) =~= b2);
            assert(nested(y));
        }
    }
}

/// The stack discipline accepts `w` from the open delimiters `st` exactly
/// when `st` followed by `w` is properly nested.
proof fn lemma_stack_accepts_nested(w: Seq<char>, st: Seq<char>)
    requires
        all_openers(st),
        all_delimiters(w),
    ensures
        stack_accepts(w, st) == nested(st + w),
    decreases w.len(),
{
    if w.len() == 0 {
        assert(st + w =~= st);
        if st.len() > 0 {
            if nested(st) {
                lemma_nested_ends_with_closer(st);
                assert(is_opener(st[st.len() - 1]));
            }
        }
    } else {
        let c = w[0];
        let rest = w.drop_first();
        assert forall|i: int| 0 <= i < rest.len() implies is_opener(#[trigger] rest[i]) || is_closer(
            rest[i],
        ) by {
            assert(rest[i] == w[i + 1]);
        }
        if is_opener(c) {
            let st2 = st.push(c);
            assert forall|i: int| 0 <= i < st2.len() implies is_opener(#[trigger] st2[i]) by {
                if i < st.len() {
                    assert(st2[i] == st[i]);
                }
            }
            lemma_stack_accepts_nested(rest, st2);
            assert(st2 + rest =~= st + w);
        } else {
            assert(is_closer(c));
            let x = st + w;
            if st.len() == 0 {
                assert(x =~= w);
                if nested(x) {
                    lemma_nested_starts_with_opener(x);
                }
            } else {
                let st2 = st.drop_last();
                assert forall|i: int| 0 <= i < st2.len() implies is_opener(#[trigger] st2[i]) by {
                    assert(st2[i] == st[i]);
                }
                lemma_stack_accepts_nested(rest, st2);
                let p = st.len() - 1;
                let y = st2 + rest;
                assert(x[p] == st.last());
                assert(x[p + 1] == c);
                assert(is_opener(st[p]));
                assert(x.subrange(0, p) + x.subrange(p + 2, x.len() as int) =~= y);
                if nested(x) {
                    lemma_nested_cancel(x, p);
                }
                if stack_accepts(w, st) {
                    lemma_nested_insert(y, p, st.last());
                    assert(y.subrange(0, p) + seq![st.last(), closer_of(st.last())] + y.subrange(
                        p,
                        y.len() as int,
                    ) =~= x);
                }
            }
        }
    }
}

/// The delimiter scan of `s[i..]` from the open delimiters `stack` finds
/// nothing wrong exactly when the stack discipline accepts it.
proof fn lemma_scan_is_stack_discipline(s: Seq<char>, i: int, stack: Seq<char>)
    requires
        0 <= i <= s.len(),
        all_openers(stack),
    ensures
        (delimiter_scan(s, i, stack) is None) == stack_accepts(s.skip(i), stack),
    decreases s.len() - i,
{
    if i < s.len() {
        let ch = s[i];
        assert(s.skip(i)[0] == ch);
        assert(s.skip(i).drop_first() =~= s.skip(i + 1));
        if is_opener(ch) {
            let st2 = stack.push(ch);
            assert forall|j: int| 0 <= j < st2.len() implies is_opener(#[trigger] st2[j]) by {
                if j < stack.len() {
                    assert(st2[j] == stack[j]);
                }
            }
            lemma_scan_is_stack_discipline(s, i + 1, st2);
        } else if is_closer(ch) {
            if stack.len() > 0 {
                let st2 = stack.drop_last();
                assert forall|j: int| 0 <= j < st2.len() implies is_opener(#[trigger] st2[j]) by {
                    assert(st2[j] == stack[j]);
                }
                assert(is_opener(stack[stack.len() - 1]));
                lemma_scan_is_stack_discipline(s, i + 1, st2);
            }
        } else {
            lemma_scan_is_stack_discipline(s, i + 1, stack);
        }
    } else {
        assert(s.skip(i).len() == 0);
    }
}

/// Skipping everything but delimiters changes nothing for the stack
/// discipline.
proof fn lemma_stack_accepts_delimiters_only(s: Seq<char>, stack: Seq<char>)
    ensures
        stack_accepts(s, stack) == stack_accepts(delimiters_of(s), stack),
        all_delimiters(delimiters_of(s)),
    decreases s.len(),
{
    if s.len() > 0 {
        let rest = s.drop_first();
        lemma_stack_accepts_delimiters_only(rest, stack);
        lemma_stack_accepts_delimiters_only(rest, stack.push(s[0]));
        if stack.len() > 0 {
            lemma_stack_accepts_delimiters_only(rest, stack.drop_last());
        }
        if is_opener(s[0]) || is_closer(s[0]) {
            let d = seq![s[0]] + delimiters_of(rest);
            assert(d[0] == s[0]);
            assert(d.drop_first() =~= delimiters_of(rest));
            assert forall|i: int| 0 <= i < d.len() implies is_opener(#[trigger] d[i]) || is_closer(d[i]) by {
                if i > 0 {
                    assert(d[i] == delimiters_of(rest)[i - 1]);
                }
            }
        }
    }
}

/// The delimiter check finds nothing wrong exactly when the parentheses,
/// brackets and braces of the code are balanced and properly nested.
pub proof fn lemma_delimiter_check_decides_nesting(code: Seq<char>)
    ensures
        (delimiter_scan(code, 0, Seq::empty()) is None) == nested(delimiters_of(code)),
{
    lemma_scan_is_stack_discipline(code, 0, Seq::empty());
    assert(code.skip(0) =~= code);
    lemma_stack_accepts_delimiters_only(code, Seq::empty());
    lemma_stack_accepts_nested(delimiters_of(code), Seq::empty());
    assert(Seq::<char>::empty() + delimiters_of(code) =~= delimiters_of(code));
}

/// The three kinds of fault the delimiter check names.
pub open spec fn names_a_fault(m: Seq<char>) -> bool {
    ||| m == "Unmatched closing parenthesis ')'"@
    ||| m == "Unmatched closing bracket ']'"@
    ||| m == "Unmatched closing brace '}'"@
    ||| (exists|head: Seq<char>, open: char| (head == "Mismatched parentheses"@ || head
        == "Mismatched brackets"@ || head == "Mismatched braces"@) && m == mismatch_message(
        head,
        open,
    ))
    ||| (exists|open: char| m == "Unclosed delimiter '"@ + seq![open] + "', expected '"@ + seq![
        closer_of(open),
    ] + "'"@)
}

/// Whatever the delimiter check reports is one of its three faults: a
/// closer with nothing open, a closer of the wrong kind, or an opener left
/// open at the end, the innermost.
pub proof fn lemma_delimiter_faults(s: Seq<char>, i: int, stack: Seq<char>)
    requires
        0 <= i <= s.len(),
    ensures
        delimiter_scan(s, i, stack) matches Some(m) ==> names_a_fault(m),
    decreases s.len() - i,
{
    if i < s.len() {
        let ch = s[i];
        if ch == '(' || ch == '[' || ch == '{' {
            lemma_delimiter_faults(s, i + 1, stack.push(ch));
        } else if ch == ')' || ch == ']' || ch == '}' {
            if stack.len() > 0 {
                let want = if ch == ')' {
                    '('
                } else if ch == ']' {
                    '['
                } else {
                    '{'
                };
                if stack.last() != want {
                    let head = if ch == ')' {
                        "Mismatched parentheses"@
                    } else if ch == ']' {
                        "Mismatched brackets"@
                    } else {
                        "Mismatched braces"@
                    };
                    assert(delimiter_scan(s, i, stack) == Some(mismatch_message(head, stack.last())));
                } else {
                    lemma_delimiter_faults(s, i + 1, stack.drop_last());
                }
            }
        } else {
            lemma_delimiter_faults(s, i + 1, stack);
        }
    } else if stack.len() > 0 {
        let open = stack.last();
        assert(delimiter_scan(s, i, stack) == Some(
            "Unclosed delimiter '"@ + seq![open] + "', expected '"@ + seq![closer_of(open)] + "'"@,
        ));
    }
}

/// The opener a closer closes.
pub open spec fn opener_of(close: char) -> char {
    if close == ')' {
        '('
    } else if close == ']' {
        '['
    } else {
        '{'
    }
}

/// The delimiters still open after reading `code[..j]` left to right, or
/// `None` when a closer before `j` met nothing open or an opener of another
/// kind.
pub open spec fn open_before(code: Seq<char>, j: int) -> Option<Seq<char>>
    decreases j,
{
    if j <= 0 {
        Some(Seq::empty())
    } else {
        match open_before(code, j - 1) {
            None => None,
            Some(st) => {
                let ch = code[j - 1];
                if is_opener(ch) {
                    Some(st.push(ch))
                } else if is_closer(ch) {
                    if st.len() > 0 && st.last() == opener_of(ch) {
                        Some(st.drop_last())
                    } else {
                        None
                    }
                } else {
                    Some(st)
                }
            }
        }
    }
}

proof fn lemma_scan_resumes(code: Seq<char>, j: int)
    requires
        0 <= j <= code.len(),
        open_before(code, j) is Some,
    ensures
        delimiter_scan(code, 0, Seq::empty()) == delimiter_scan(code, j, open_before(code, j)->0),
    decreases j,
{
    if j > 0 {
        lemma_scan_resumes(code, j - 1);
    }
}

/// Which fault the delimiter check reports, and where: reading left to
/// right with nothing wrong before position `j`, a closer at `j` with
/// nothing open is unmatched, one of the wrong kind is a mismatch against
/// the innermost open delimiter, and at the end the innermost delimiter
/// still open is unclosed; with nothing open at the end there is no fault.
pub proof fn lemma_delimiter_fault_positions(code: Seq<char>, j: int)
    requires
        0 <= j <= code.len(),
        open_before(code, j) is Some,
    ensures
        ({
            let st = open_before(code, j)->0;
            let r = delimiter_scan(code, 0, Seq::empty());
            &&& (j < code.len() && st.len() == 0 && code[j] == ')') ==> r == Some(
                "Unmatched closing parenthesis ')'"@,
            )
            &&& (j < code.len() && st.len() == 0 && code[j] == ']') ==> r == Some(
                "Unmatched closing bracket ']'"@,
            )
            &&& (j < code.len() && st.len() == 0 && code[j] == '}') ==> r == Some(
                "Unmatched closing brace '}'"@,
            )
            &&& (j < code.len() && st.len() > 0 && is_closer(code[j]) && st.last() != opener_of(
                code[j],
            )) ==> r == Some(
                mismatch_message(
                    if code[j] == ')' {
                        "Mismatched parentheses"@
                    } else if code[j] == ']' {
                        "Mismatched brackets"@
                    } else {
                        "Mismatched braces"@
                    },
                    st.last(),
                ),
            )
            &&& (j == code.len() && st.len() > 0) ==> r == Some(
                "Unclosed delimiter '"@ + seq![st.last()] + "', expected '"@ + seq![
                    closer_of(st.last()),
                ] + "'"@,
            )
            &&& (j == code.len() && st.len() == 0) ==> r is None
        }),
{
    lemma_scan_resumes(code, j);
}

} // verus!
