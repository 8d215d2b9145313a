//! Text building blocks shared by the diagnostics and the C backend:
//! decimal rendering, searching, splitting into lines, joining.

use vstd::prelude::*;

verus! {

// ---------------------------------------------------------------------------
// Specifications
// ---------------------------------------------------------------------------

/// The ASCII digit for `d` (`0 <= d < 10`).
pub open spec fn digit_char(d: nat) -> char {
    (48 + d) as char
}

/// The decimal spelling of a natural number, without sign or padding.
pub open spec fn decimal(n: nat) -> Seq<char>
    decreases n,
{
    if n < 10 {
        seq![digit_char(n)]
    } else {
        decimal(n / 10).push(digit_char(n % 10))
    }
}

/// The decimal spelling of an integer, with a leading `-` when negative.
pub open spec fn signed_decimal(v: int) -> Seq<char> {
    if v < 0 {
        seq!['-'] + decimal((-v) as nat)
    } else {
        decimal(v as nat)
    }
}

/// `needle` occurs in `hay` at position `i`.
pub open spec fn occurs_at(hay: Seq<char>, needle: Seq<char>, i: int) -> bool {
    0 <= i && i + needle.len() <= hay.len() && hay.subrange(i, i + needle.len()) == needle
}

/// `needle` occurs somewhere in `hay` (the empty sequence occurs everywhere).
pub open spec fn contains_seq(hay: Seq<char>, needle: Seq<char>) -> bool {
    exists|i: int| occurs_at(hay, needle, i)
}

/// `hay` begins with `prefix`.
pub open spec fn starts_with_seq(hay: Seq<char>, prefix: Seq<char>) -> bool {
    occurs_at(hay, prefix, 0)
}

/// Unicode `White_Space`, the property `char::is_whitespace` tests.
pub open spec fn is_white_space(c: char) -> bool {
    let v = c as u32;
    (0x09 <= v && v <= 0x0d) || v == 0x20 || v == 0x85 || v == 0xa0 || v == 0x1680 || (0x2000
        <= v && v <= 0x200a) || v == 0x2028 || v == 0x2029 || v == 0x202f || v == 0x205f || v
        == 0x3000
}

/// Number of leading white-space characters of `s`.
pub open spec fn leading_white(s: Seq<char>) -> nat
    decreases s.len(),
{
    if s.len() > 0 && is_white_space(s[0]) {
        1 + leading_white(s.drop_first())
    } else {
        0
    }
}

/// `s` with its leading white space removed.
pub open spec fn trim_start_seq(s: Seq<char>) -> Seq<char> {
    s.skip(leading_white(s) as int)
}

/// `s` repeated `n` times.
pub open spec fn repeat_seq(s: Seq<char>, n: nat) -> Seq<char>
    decreases n,
{
    if n == 0 {
        Seq::empty()
    } else {
        repeat_seq(s, (n - 1) as nat) + s
    }
}

/// The pieces of `parts` joined with `sep` between neighbours.
pub open spec fn join_seq(parts: Seq<Seq<char>>, sep: Seq<char>) -> Seq<char>
    decreases parts.len(),
{
    if parts.len() == 0 {
        Seq::empty()
    } else if parts.len() == 1 {
        parts[0]
    } else {
        join_seq(parts.drop_last(), sep) + sep + parts.last()
    }
}

/// Position of the first `'\n'` in `s`, if any.
pub open spec fn first_newline(s: Seq<char>) -> Option<int>
    decreases s.len(),
{
    if s.len() == 0 {
        None
    } else if s[0] == '\n' {
        Some(0)
    } else {
        match first_newline(s.drop_first()) {
            Some(i) => Some(i + 1),
            None => None,
        }
    }
}

/// A line as `str::lines` yields it: a trailing `'\r'` is part of the line
/// terminator, not of the line.
pub open spec fn strip_cr(line: Seq<char>) -> Seq<char> {
    if line.len() > 0 && line.last() == '\r' {
        line.drop_last()
    } else {
        line
    }
}

/// The lines of `s` as `str::lines` yields them: split at `'\n'`, each line
/// without its terminator (`"\n"` or `"\r\n"`), and no empty line after a
/// final terminator.
pub open spec fn lines_seq(s: Seq<char>) -> Seq<Seq<char>>
    decreases s.len(),
{
    if s.len() == 0 {
        Seq::empty()
    } else {
        match first_newline(s) {
            Some(i) => {
                proof {
                    lemma_first_newline_bounds(s);
                }
                seq![strip_cr(s.take(i))] + lines_seq(s.skip(i + 1))
            },
            None => seq![strip_cr(s)],
        }
    }
}

pub proof fn lemma_first_newline_bounds(s: Seq<char>)
    ensures
        first_newline(s) matches Some(i) ==> 0 <= i < s.len() && s[i] == '\n',
        first_newline(s) is None ==> forall|k: int| 0 <= k < s.len() ==> s[k] != '\n',
        forall|k: int|
            0 <= k < s.len() && (first_newline(s) matches Some(i) ==> k < i) ==> s[k] != '\n',
    decreases s.len(),
{
    if s.len() > 0 {
        lemma_first_newline_bounds(s.drop_first());
        assert forall|k: int| 1 <= k < s.len() implies s[k] == s.drop_first()[k - 1] by {}
    }
}

// ---------------------------------------------------------------------------
// Trusted calls into std
// ---------------------------------------------------------------------------

/// `String::push`: appends one character.
#[verifier::external_body]
pub(crate) fn push_char(s: &mut String, c: char)
    ensures
        final(s)@ == old(s)@.push(c),
{
    s.push(c);
}

/// `str::chars` collected: the characters of `s`, in order. A `str` holds at
/// most `isize::MAX` bytes and every character takes at least one.
#[verifier::external_body]
pub(crate) fn chars_of(s: &str) -> (v: Vec<char>)
    ensures
        v@ == s@,
        v@.len() <= isize::MAX,
{
    s.chars().collect()
}

/// The number of bytes of `s`'s UTF-8 encoding, which is what `str::len`
/// counts.
pub open spec fn byte_len(s: Seq<char>) -> nat {
    vstd::utf8::encode_utf8(s).len()
}

/// `str::len`: the byte length. A `str` never holds more than `isize::MAX`
/// bytes.
#[verifier::external_body]
pub(crate) fn str_byte_len(s: &str) -> (n: usize)
    ensures
        n == byte_len(s@),
        n <= isize::MAX,
{
    s.len()
}

/// Whether `needle` occurs in `hay` at position `i`, character by character.
pub fn matches_at(hay: &Vec<char>, needle: &Vec<char>, i: usize) -> (r: bool)
    ensures
        r == occurs_at(hay@, needle@, i as int),
{
    if i > hay.len() || needle.len() > hay.len() - i {
        return false;
    }
    let mut k: usize = 0;
    while k < needle.len()
        invariant
            k <= needle.len(),
            i + needle.len() <= hay.len(),
            forall|j: int| 0 <= j < k ==> hay@[i + j] == needle@[j],
        decreases needle.len() - k,
    {
        if hay[i + k] != needle[k] {
            assert(hay@.subrange(i as int, i + needle.len())[k as int] != needle@[k as int]);
            return false;
        }
        k = k + 1;
    }
    assert(hay@.subrange(i as int, i + needle.len()) =~= needle@);
    true
}

/// `str == str`: equal exactly when the character sequences are equal.
pub(crate) fn str_eq(a: &str, b: &str) -> (r: bool)
    ensures
        r == (a@ == b@),
{
    let x = chars_of(a);
    let y = chars_of(b);
    if x.len() != y.len() {
        return false;
    }
    let r = matches_at(&x, &y, 0);
    assert(x@.subrange(0, y@.len() as int) =~= x@);
    r
}

/// `str::contains` with a string pattern: whether `needle` is a substring.
pub(crate) fn str_contains(hay: &str, needle: &str) -> (r: bool)
    ensures
        r == contains_seq(hay@, needle@),
{
    let h = chars_of(hay);
    let n = chars_of(needle);
    if n.len() > h.len() {
        assert forall|i: int| !occurs_at(hay@, needle@, i) by {}
        return false;
    }
    let last = h.len() - n.len();
    let mut i: usize = 0;
    while i <= last
        invariant
            h@ == hay@,
            n@ == needle@,
            last == h.len() - n.len(),
            h.len() <= isize::MAX,
            i <= last + 1,
            forall|j: int| 0 <= j < i ==> !occurs_at(hay@, needle@, j),
        decreases last + 1 - i,
    {
        if matches_at(&h, &n, i) {
            return true;
        }
        i = i + 1;
    }
    assert forall|j: int| !occurs_at(hay@, needle@, j) by {
        if 0 <= j < i {
        }
    }
    false
}

/// `str::starts_with` with a string pattern.
pub(crate) fn str_starts_with(hay: &str, prefix: &str) -> (r: bool)
    ensures
        r == starts_with_seq(hay@, prefix@),
{
    let h = chars_of(hay);
    let p = chars_of(prefix);
    matches_at(&h, &p, 0)
}

/// What `str::to_lowercase` returns for a string: the Unicode lowercase
/// mapping, which this crate does not restate.
pub uninterp spec fn lowercase_of(s: Seq<char>) -> Seq<char>;

/// Whether every character of `s` is ASCII.
pub open spec fn all_ascii(s: Seq<char>) -> bool {
    forall|i: int| 0 <= i < s.len() ==> (#[trigger] s[i] as u32) < 0x80
}

/// An ASCII upper-case letter as its lower-case letter; any other character
/// unchanged.
pub open spec fn ascii_lower_char(c: char) -> char {
    if 'A' <= c <= 'Z' {
        ((c as u32) + 32) as char
    } else {
        c
    }
}

/// `s` with each ASCII upper-case letter lowered.
pub open spec fn ascii_lowercase(s: Seq<char>) -> Seq<char> {
    s.map_values(|c: char| ascii_lower_char(c))
}

/// `str::to_lowercase`. Its result is named rather than restated in full: the
/// mapping is Unicode's `Lowercase` derivation and is a function of the input
/// alone. On ASCII text Unicode lowercasing is ASCII lowercasing, letter for
/// letter, and that much is stated.
#[verifier::external_body]
pub(crate) fn to_lowercase(s: &str) -> (r: String)
    ensures
        r@ == lowercase_of(s@),
        all_ascii(s@) ==> r@ == ascii_lowercase(s@),
{
    s.to_lowercase()
}

/// What `char::is_alphanumeric` answers: Unicode `Alphabetic` or `Numeric`.
pub uninterp spec fn is_alphanumeric(c: char) -> bool;

/// `char::is_alphanumeric`. Named rather than restated; an ASCII letter or
/// digit is alphanumeric and ASCII punctuation and white space are not, as its
/// documentation shows.
#[verifier::external_body]
pub(crate) fn char_is_alphanumeric(c: char) -> (r: bool)
    ensures
        r == is_alphanumeric(c),
        ('a' <= c <= 'z' || 'A' <= c <= 'Z' || '0' <= c <= '9') ==> r,
        (c as u32) < 0x80 && !('a' <= c <= 'z' || 'A' <= c <= 'Z' || '0' <= c <= '9') ==> !r,
{
    c.is_alphanumeric()
}

/// Lowering ASCII case twice is lowering it once, and ASCII stays ASCII.
pub proof fn lemma_ascii_lowercase_idempotent(s: Seq<char>)
    requires
        all_ascii(s),
    ensures
        all_ascii(ascii_lowercase(s)),
        ascii_lowercase(ascii_lowercase(s)) == ascii_lowercase(s),
{
    let l = ascii_lowercase(s);
    assert forall|i: int| 0 <= i < l.len() implies (#[trigger] l[i] as u32) < 0x80 by {
        assert(l[i] == ascii_lower_char(s[i]));
    }
    assert(ascii_lowercase(l) =~= l);
}

// ---------------------------------------------------------------------------
// Verified helpers
// ---------------------------------------------------------------------------

/// `char::is_whitespace`, written out: the Unicode `White_Space` list.
pub fn char_is_whitespace(c: char) -> (r: bool)
    ensures
        r == is_white_space(c),
{
    let v = c as u32;
    (0x09 <= v && v <= 0x0d) || v == 0x20 || v == 0x85 || v == 0xa0 || v == 0x1680 || (0x2000
        <= v && v <= 0x200a) || v == 0x2028 || v == 0x2029 || v == 0x202f || v == 0x205f || v
        == 0x3000
}

/// A `String` holding `s`.
pub fn string_of(s: &str) -> (r: String)
    ensures
        r@ == s@,
{
    String::from_str(s)
}

/// Append `t` to `s`.
pub fn push_str(s: &mut String, t: &str)
    ensures
        final(s)@ == old(s)@ + t@,
{
    s.append(t);
}

/// Append every character of `t` to `s`.
pub fn push_chars(s: &mut String, t: &Vec<char>)
    ensures
        final(s)@ == old(s)@ + t@,
{
    let mut i: usize = 0;
    while i < t.len()
        invariant
            i <= t.len(),
            s@ == old(s)@ + t@.take(i as int),
        decreases t.len() - i,
    {
        push_char(s, t[i]);
        i = i + 1;
        assert(t@.take(i as int) == t@.take((i - 1) as int).push(t@[i - 1]));
    }
    assert(t@.take(t.len() as int) == t@);
}

/// Append the decimal spelling of `n`.
pub fn push_u64(s: &mut String, n: u64)
    ensures
        final(s)@ == old(s)@ + decimal(n as nat),
    decreases n,
{
    if n >= 10 {
        push_u64(s, n / 10);
    }
    let d = (n % 10) as u8;
    let c = (48u8 + d) as char;
    assert(c == digit_char((n % 10) as nat));
    push_char(s, c);
}

/// Append the decimal spelling of `n`.
pub fn push_usize(s: &mut String, n: usize)
    ensures
        final(s)@ == old(s)@ + decimal(n as nat),
{
    push_u64(s, n as u64);
}

/// Append the decimal spelling of `v`, with a `-` when negative.
pub fn push_i64(s: &mut String, v: i64)
    ensures
        final(s)@ == old(s)@ + signed_decimal(v as int),
{
    if v < 0 {
        push_char(s, '-');
        let m: u64 = (0i128 - v as i128) as u64;
        push_u64(s, m);
        assert(old(s)@ + signed_decimal(v as int) == old(s)@.push('-') + decimal(m as nat));
    } else {
        push_u64(s, v as u64);
    }
}

/// The decimal spelling of `n`.
pub fn usize_to_string(n: usize) -> (r: String)
    ensures
        r@ == decimal(n as nat),
{
    let mut s = String::new();
    push_usize(&mut s, n);
    s
}

/// Append `t` to `s`, `n` times.
pub fn push_repeat(s: &mut String, t: &str, n: usize)
    ensures
        final(s)@ == old(s)@ + repeat_seq(t@, n as nat),
{
    let mut i: usize = 0;
    while i < n
        invariant
            i <= n,
            s@ == old(s)@ + repeat_seq(t@, i as nat),
        decreases n - i,
    {
        push_str(s, t);
        i = i + 1;
    }
}

/// `str::trim_start`: the string without its leading white space.
pub fn trim_start(s: &str) -> (r: String)
    ensures
        r@ == trim_start_seq(s@),
{
    let cs = chars_of(s);
    let mut i: usize = 0;
    assert(s@.skip(0) == s@);
    while i < cs.len() && char_is_whitespace(cs[i])
        invariant
            i <= cs.len(),
            cs@ == s@,
            leading_white(s@) == i + leading_white(s@.skip(i as int)),
        decreases cs.len() - i,
    {
        assert(s@.skip(i as int).drop_first() == s@.skip(i + 1));
        i = i + 1;
    }
    let mut out = String::new();
    let mut j: usize = i;
    while j < cs.len()
        invariant
            i <= j <= cs.len(),
            cs@ == s@,
            out@ == s@.subrange(i as int, j as int),
        decreases cs.len() - j,
    {
        push_char(&mut out, cs[j]);
        j = j + 1;
        assert(s@.subrange(i as int, j as int) == s@.subrange(i as int, j - 1).push(s@[j - 1]));
    }
    assert(leading_white(s@.skip(i as int)) == 0);
    out
}

/// The characters `cs[from..to]` as a `String`.
pub fn slice_string(cs: &Vec<char>, from: usize, to: usize) -> (r: String)
    requires
        from <= to <= cs.len(),
    ensures
        r@ == cs@.subrange(from as int, to as int),
{
    let mut out = String::new();
    let mut j: usize = from;
    while j < to
        invariant
            from <= j <= to <= cs.len(),
            out@ == cs@.subrange(from as int, j as int),
        decreases to - j,
    {
        push_char(&mut out, cs[j]);
        j = j + 1;
        assert(cs@.subrange(from as int, j as int) == cs@.subrange(from as int, j - 1).push(
            cs@[j - 1],
        ));
    }
    out
}

/// `str::lines`, collected.
pub fn lines_of(s: &str) -> (r: Vec<String>)
    ensures
        r@.map_values(|l: String| l@) == lines_seq(s@),
{
    let cs = chars_of(s);
    let mut out: Vec<String> = Vec::new();
    let mut start: usize = 0;
    assert(s@.skip(0) == s@);
    assert(out@.map_values(|l: String| l@) + lines_seq(s@) == lines_seq(s@));
    while start < cs.len()
        invariant
            start <= cs.len(),
            cs@ == s@,
            out@.map_values(|l: String| l@) + lines_seq(s@.skip(start as int)) == lines_seq(
                s@,
            ),
        decreases cs.len() - start,
    {
        let ghost rest = s@.skip(start as int);
        proof {
            lemma_first_newline_bounds(rest);
        }
        let mut end: usize = start;
        while end < cs.len() && cs[end] != '\n'
            invariant
                start <= end <= cs.len(),
                cs@ == s@,
                rest == s@.skip(start as int),
                forall|k: int| start <= k < end ==> s@[k] != '\n',
            decreases cs.len() - end,
        {
            end = end + 1;
        }
        let mut stop = end;
        if stop > start && cs[stop - 1] == '\r' {
            stop = stop - 1;
        }
        let line = slice_string(&cs, start, stop);
        proof {
            let whole = s@.subrange(start as int, end as int);
            if end > start && s@[end - 1] == '\r' {
                assert(whole.last() == '\r');
                assert(whole.drop_last() == s@.subrange(start as int, stop as int));
            }
            assert(line@ == strip_cr(whole));
        }
        let ghost old_out = out@;
        if end < cs.len() {
            proof {
                assert(first_newline(rest) == Some((end - start) as int)) by {
                    assert(rest[end - start] == '\n');
                    if let Some(i) = first_newline(rest) {
                        if i < end - start {
                            assert(s@[start + i] == '\n');
                        }
                    }
                }
                assert(rest.take((end - start) as int) == s@.subrange(start as int, end as int));
                assert(rest.skip((end - start) + 1) == s@.skip(end + 1));
                assert(lines_seq(rest) == seq![line@] + lines_seq(s@.skip(end + 1)));
            }
            out.push(line);
            start = end + 1;
        } else {
            proof {
                assert(first_newline(rest) is None) by {
                    if let Some(i) = first_newline(rest) {
                        assert(s@[start + i] == '\n');
                    }
                }
                assert(rest == s@.subrange(start as int, end as int));
                assert(s@.skip(end as int).len() == 0);
                assert(lines_seq(rest) == seq![line@]);
                assert(lines_seq(s@.skip(end as int)) == Seq::<Seq<char>>::empty());
            }
            out.push(line);
            start = end;
        }
        proof {
            assert(out@.map_values(|l: String| l@) == old_out.map_values(|l: String| l@).push(
                line@,
            ));
            assert(old_out.map_values(|l: String| l@).push(line@) + lines_seq(
                s@.skip(start as int),
            ) == old_out.map_values(|l: String| l@) + (seq![line@] + lines_seq(
                s@.skip(start as int),
            )));
        }
    }
    proof {
        assert(s@.skip(start as int).len() == 0);
        assert(lines_seq(s@.skip(start as int)) == Seq::<Seq<char>>::empty());
        assert(out@.map_values(|l: String| l@) + Seq::<Seq<char>>::empty() == out@.map_values(
            |l: String| l@,
        ));
    }
    out
}

/// The strings of `parts` joined with `sep`.
pub fn join_strings(parts: &Vec<String>, sep: &str) -> (r: String)
    ensures
        r@ == join_seq(parts@.map_values(|p: String| p@), sep@),
{
    let ghost views = parts@.map_values(|p: String| p@);
    let mut out = String::new();
    let mut i: usize = 0;
    while i < parts.len()
        invariant
            i <= parts.len(),
            views == parts@.map_values(|p: String| p@),
            out@ == join_seq(views.take(i as int), sep@),
        decreases parts.len() - i,
    {
        if i > 0 {
            push_str(&mut out, sep);
        }
        push_str(&mut out, parts[i].as_str());
        i = i + 1;
        proof {
            assert(views.take(i as int).drop_last() == views.take(i - 1));
            if i == 1 {
                assert(views.take(1) == seq![views[0]]);
            }
        }
    }
    assert(views.take(parts.len() as int) == views);
    out
}

// ---------------------------------------------------------------------------
// Byte positions
// ---------------------------------------------------------------------------

/// The number of bytes `c` takes in UTF-8.
pub open spec fn utf8_len(c: char) -> nat {
    if (c as u32) < 0x80 {
        1
    } else if (c as u32) < 0x800 {
        2
    } else if (c as u32) < 0x10000 {
        3
    } else {
        4
    }
}

/// The index of the character that starts at byte `b` of `s`'s UTF-8
/// encoding (`s.len()` for the end), or `None` when `b` falls inside a
/// character or past the end: where slicing a `str` at `b` would panic.
pub open spec fn char_at_byte(s: Seq<char>, b: int) -> Option<int>
    decreases s.len(),
{
    if b == 0 {
        Some(0)
    } else if b < 0 || s.len() == 0 || b < utf8_len(s[0]) {
        None
    } else {
        match char_at_byte(s.drop_first(), b - utf8_len(s[0])) {
            Some(k) => Some(k + 1),
            None => None,
        }
    }
}

pub proof fn lemma_char_at_byte_bounds(s: Seq<char>, b: int)
    ensures
        char_at_byte(s, b) matches Some(k) ==> 0 <= k <= s.len(),
    decreases s.len(),
{
    if b != 0 && !(b < 0 || s.len() == 0 || b < utf8_len(s[0])) {
        lemma_char_at_byte_bounds(s.drop_first(), b - utf8_len(s[0]));
    }
}

/// The character index at byte `b` of `cs`, if a character starts there.
pub fn char_index_at_byte(cs: &Vec<char>, b: usize) -> (r: Option<usize>)
    ensures
        r matches Some(i) ==> i <= cs.len() && char_at_byte(cs@, b as int) == Some(i as int),
        r is None ==> char_at_byte(cs@, b as int) is None,
{
    let mut k: usize = 0;
    let mut rest: usize = b;
    proof {
        lemma_char_at_byte_bounds(cs@, b as int);
        assert(cs@.skip(0) == cs@);
    }
    while rest > 0
        invariant
            k <= cs.len(),
            char_at_byte(cs@, b as int) == match char_at_byte(cs@.skip(k as int), rest as int) {
                Some(j) => Some(j + k),
                None => None,
            },
        decreases rest,
    {
        if k >= cs.len() {
            assert(cs@.skip(k as int).len() == 0);
            return None;
        }
        let c = cs[k];
        let v = c as u32;
        let w: usize = if v < 0x80 {
            1
        } else if v < 0x800 {
            2
        } else if v < 0x10000 {
            3
        } else {
            4
        };
        assert(cs@.skip(k as int)[0] == c);
        if rest < w {
            return None;
        }
        assert(cs@.skip(k as int).drop_first() == cs@.skip(k + 1));
        rest = rest - w;
        k = k + 1;
    }
    proof {
        lemma_char_at_byte_bounds(cs@, b as int);
    }
    Some(k)
}

} // verus!
