//! The scanner: what the next token is, where it is, and what stops it.
//!
//! Positions are kept as character indices; spans report byte offsets into
//! the UTF-8 source, and lines and columns (both 1-based) counted in
//! characters.

use vstd::prelude::*;
use super::token::{escape_char, escape_of, escape_spellings, spelling, unescape, unescaped, LexError, Token};
use crate::errors::{CompileError, Result, Span};
use crate::text::{chars_of, push_char, push_str, slice_string, str_byte_len, str_eq, string_of};

verus! {

/// What the scanner reports its failures as.
pub type LexerError = CompileError;

// ---------------------------------------------------------------------------
// Character classes
// ---------------------------------------------------------------------------

/// The characters skipped between tokens: space, tab, newline, form feed.
pub open spec fn is_skip_space(c: char) -> bool {
    c == ' ' || c == '\t' || c == '\n' || c == '\x0c'
}

pub open spec fn is_digit(c: char) -> bool {
    '0' <= c && c <= '9'
}

pub open spec fn is_ident_start(c: char) -> bool {
    ('a' <= c && c <= 'z') || ('A' <= c && c <= 'Z') || c == '_'
}

pub open spec fn is_ident_continue(c: char) -> bool {
    is_ident_start(c) || is_digit(c)
}

// ---------------------------------------------------------------------------
// Comments and white space
// ---------------------------------------------------------------------------

/// Where the scanner is while skipping: between tokens, inside a line
/// comment, or inside block comments nested `depth` deep, the outermost of
/// which opened at `start`.
pub ghost enum Mode {
    Normal,
    Line,
    Block { depth: nat, start: int },
}

/// The outcome of skipping: the next token starts at `At`, or a block
/// comment opened at `Unterminated` is never closed.
pub ghost enum Trivia {
    At(int),
    Unterminated(int),
}

/// Skip white space and comments from `i`. A line comment runs to the end
/// of its line; block comments nest, and each `*/` closes the innermost.
pub open spec fn skip_from(cs: Seq<char>, i: int, mode: Mode) -> Trivia
    decreases cs.len() - i,
{
    if i >= cs.len() {
        match mode {
            Mode::Block { start, .. } => Trivia::Unterminated(start),
            _ => Trivia::At(i),
        }
    } else {
        match mode {
            Mode::Normal => if is_skip_space(cs[i]) {
                skip_from(cs, i + 1, Mode::Normal)
            } else if cs[i] == '/' && i + 1 < cs.len() && cs[i + 1] == '/' {
                skip_from(cs, i + 2, Mode::Line)
            } else if cs[i] == '/' && i + 1 < cs.len() && cs[i + 1] == '*' {
                skip_from(cs, i + 2, Mode::Block { depth: 1, start: i })
            } else {
                Trivia::At(i)
            },
            Mode::Line => if cs[i] == '\n' {
                skip_from(cs, i + 1, Mode::Normal)
            } else {
                skip_from(cs, i + 1, Mode::Line)
            },
            Mode::Block { depth, start } => if cs[i] == '/' && i + 1 < cs.len() && cs[i + 1]
                == '*' {
                skip_from(cs, i + 2, Mode::Block { depth: depth + 1, start })
            } else if cs[i] == '*' && i + 1 < cs.len() && cs[i + 1] == '/' {
                if depth <= 1 {
                    skip_from(cs, i + 2, Mode::Normal)
                } else {
                    skip_from(cs, i + 2, Mode::Block { depth: (depth - 1) as nat, start })
                }
            } else {
                skip_from(cs, i + 1, Mode::Block { depth, start })
            },
        }
    }
}

// ---------------------------------------------------------------------------
// Lexemes
// ---------------------------------------------------------------------------

/// Where a string literal whose body starts at `k` ends (just past its
/// closing quote). A backslash takes the next character with it, unless
/// that is a line break or the end of the text.
pub open spec fn string_end(cs: Seq<char>, k: int) -> Option<int>
    decreases cs.len() - k,
{
    if k < 0 || k >= cs.len() {
        None
    } else if cs[k] == '"' {
        Some(k + 1)
    } else if cs[k] == '\\' {
        if k + 1 < cs.len() && cs[k + 1] != '\n' {
            string_end(cs, k + 2)
        } else {
            None
        }
    } else {
        string_end(cs, k + 1)
    }
}

/// The end of the run of characters satisfying `ident` (identifier
/// characters) or, otherwise, digits, from `k`.
pub open spec fn run_end(cs: Seq<char>, k: int, ident: bool) -> int
    decreases cs.len() - k,
{
    if 0 <= k < cs.len() && (if ident {
        is_ident_continue(cs[k])
    } else {
        is_digit(cs[k])
    }) {
        run_end(cs, k + 1, ident)
    } else {
        k
    }
}

/// The value of a run of decimal digits.
pub open spec fn digits_value(s: Seq<char>) -> int
    decreases s.len(),
{
    if s.len() == 0 {
        0
    } else {
        digits_value(s.drop_last()) * 10 + (s.last() as int - 48)
    }
}

/// The keyword spelled `s`, if it is one (`_` counts).
pub open spec fn keyword(s: Seq<char>) -> Option<Token> {
    if s == "fn"@ {
        Some(Token::Fn)
    } else if s == "let"@ {
        Some(Token::Let)
    } else if s == "mut"@ {
        Some(Token::Mut)
    } else if s == "if"@ {
        Some(Token::If)
    } else if s == "else"@ {
        Some(Token::Else)
    } else if s == "while"@ {
        Some(Token::While)
    } else if s == "return"@ {
        Some(Token::Return)
    } else if s == "true"@ {
        Some(Token::True)
    } else if s == "false"@ {
        Some(Token::False)
    } else if s == "for"@ {
        Some(Token::For)
    } else if s == "in"@ {
        Some(Token::In)
    } else if s == "break"@ {
        Some(Token::Break)
    } else if s == "continue"@ {
        Some(Token::Continue)
    } else if s == "struct"@ {
        Some(Token::Struct)
    } else if s == "enum"@ {
        Some(Token::Enum)
    } else if s == "trait"@ {
        Some(Token::Trait)
    } else if s == "impl"@ {
        Some(Token::Impl)
    } else if s == "match"@ {
        Some(Token::Match)
    } else if s == "import"@ {
        Some(Token::Import)
    } else if s == "pub"@ {
        Some(Token::Pub)
    } else if s == "as"@ {
        Some(Token::As)
    } else if s == "Self"@ {
        Some(Token::SelfType)
    } else if s == "self"@ {
        Some(Token::SelfParam)
    } else if s == "type"@ {
        Some(Token::Type)
    } else if s == "const"@ {
        Some(Token::Const)
    } else if s == "unsafe"@ {
        Some(Token::Unsafe)
    } else if s == "async"@ {
        Some(Token::Async)
    } else if s == "await"@ {
        Some(Token::Await)
    } else if s == "macro"@ {
        Some(Token::Macro)
    } else if s == "_"@ {
        Some(Token::Underscore)
    } else {
        None
    }
}

/// The operator or delimiter at `j`, longest first, with its length.
pub open spec fn punct(cs: Seq<char>, j: int) -> Option<(Token, int)> {
    let c = cs[j];
    let d = if j + 1 < cs.len() {
        cs[j + 1]
    } else {
        ' '
    };
    if c == '-' && d == '>' {
        Some((Token::Arrow, 2))
    } else if c == '=' && d == '=' {
        Some((Token::EqEq, 2))
    } else if c == '=' && d == '>' {
        Some((Token::FatArrow, 2))
    } else if c == '!' && d == '=' {
        Some((Token::Ne, 2))
    } else if c == '<' && d == '=' {
        Some((Token::Le, 2))
    } else if c == '>' && d == '=' {
        Some((Token::Ge, 2))
    } else if c == '&' && d == '&' {
        Some((Token::AndAnd, 2))
    } else if c == '|' && d == '|' {
        Some((Token::OrOr, 2))
    } else if c == '.' && d == '.' {
        Some((Token::DotDot, 2))
    } else if c == ':' && d == ':' {
        Some((Token::DoubleColon, 2))
    } else if c == '#' && d == '!' {
        Some((Token::HashBang, 2))
    } else if c == '+' {
        Some((Token::Plus, 1))
    } else if c == '-' {
        Some((Token::Minus, 1))
    } else if c == '*' {
        Some((Token::Star, 1))
    } else if c == '&' {
        Some((Token::Ampersand, 1))
    } else if c == '/' {
        Some((Token::Slash, 1))
    } else if c == '%' {
        Some((Token::Percent, 1))
    } else if c == '=' {
        Some((Token::Eq, 1))
    } else if c == '!' {
        Some((Token::Not, 1))
    } else if c == '<' {
        Some((Token::Lt, 1))
    } else if c == '>' {
        Some((Token::Gt, 1))
    } else if c == '(' {
        Some((Token::LeftParen, 1))
    } else if c == ')' {
        Some((Token::RightParen, 1))
    } else if c == '{' {
        Some((Token::LeftBrace, 1))
    } else if c == '}' {
        Some((Token::RightBrace, 1))
    } else if c == '[' {
        Some((Token::LeftBracket, 1))
    } else if c == ']' {
        Some((Token::RightBracket, 1))
    } else if c == ';' {
        Some((Token::Semicolon, 1))
    } else if c == ',' {
        Some((Token::Comma, 1))
    } else if c == ':' {
        Some((Token::Colon, 1))
    } else if c == '.' {
        Some((Token::Dot, 1))
    } else if c == '#' {
        Some((Token::Hash, 1))
    } else if c == '$' {
        Some((Token::Dollar, 1))
    } else if c == '|' {
        Some((Token::Pipe, 1))
    } else if c == '?' {
        Some((Token::Question, 1))
    } else {
        None
    }
}

/// A token as the contracts describe it: the literal tokens by their
/// values, every other token as itself.
pub ghost enum TokenView {
    Str(Seq<char>),
    Chr(char),
    Flt(Seq<char>),
    Int(int),
    Ident(Seq<char>),
    Fixed(Token),
}

/// `t` is the token `v` describes.
pub open spec fn denotes(t: Token, v: TokenView) -> bool {
    match v {
        TokenView::Str(s) => t matches Token::String(x) && x@ == s,
        TokenView::Chr(c) => t == Token::Char(c),
        TokenView::Flt(s) => t matches Token::Float(x) && x@ == s,
        TokenView::Int(n) => t matches Token::Integer(x) && x as int == n,
        TokenView::Ident(s) => t matches Token::Identifier(x) && x@ == s,
        TokenView::Fixed(f) => t == f,
    }
}

/// The lexeme starting at `j`: a token ending at the given index, or a
/// failure whose span ends there.
pub ghost enum Lexeme {
    Tok(TokenView, int),
    Fail(LexError, int),
}

/// A number at `j`, with its optional sign: a float when a `.` and a digit
/// follow the digits, otherwise an integer, which fails when its value is
/// not a 64-bit signed integer.
pub open spec fn number(cs: Seq<char>, j: int) -> Lexeme {
    let neg = cs[j] == '-';
    let d0 = if neg {
        j + 1
    } else {
        j
    };
    let e = run_end(cs, d0, false);
    if e + 1 < cs.len() && cs[e] == '.' && is_digit(cs[e + 1]) {
        let f = run_end(cs, e + 1, false);
        Lexeme::Tok(TokenView::Flt(cs.subrange(j, f)), f)
    } else {
        let v = digits_value(cs.subrange(d0, e));
        let value = if neg {
            -v
        } else {
            v
        };
        if i64::MIN <= value <= i64::MAX {
            Lexeme::Tok(TokenView::Int(value), e)
        } else {
            Lexeme::Fail(LexError::UnexpectedChar, e)
        }
    }
}

/// A char literal at `j` (one character, or a backslash and an escape,
/// between quotes), or else a lone single quote.
pub open spec fn char_literal(cs: Seq<char>, j: int) -> Lexeme {
    if j + 2 < cs.len() && cs[j + 1] != '\'' && cs[j + 1] != '\\' && cs[j + 2] == '\'' {
        Lexeme::Tok(TokenView::Chr(cs[j + 1]), j + 3)
    } else if j + 3 < cs.len() && cs[j + 1] == '\\' && cs[j + 2] != '\n' && cs[j + 3] == '\'' {
        match escape_of(cs[j + 2]) {
            Some(v) => Lexeme::Tok(TokenView::Chr(v), j + 4),
            None => Lexeme::Fail(LexError::UnknownEscape(cs[j + 2]), j + 4),
        }
    } else {
        Lexeme::Tok(TokenView::Fixed(Token::SingleQuote), j + 1)
    }
}

/// The lexeme at `j`, which is not white space or a comment: the longest
/// token that starts there, a keyword over an identifier of the same
/// spelling.
pub open spec fn lexeme(cs: Seq<char>, j: int) -> Lexeme {
    let c = cs[j];
    if c == '"' {
        match string_end(cs, j + 1) {
            None => Lexeme::Fail(LexError::UnexpectedChar, j + 1),
            Some(e) => match unescaped(cs.subrange(j + 1, e - 1)) {
                Ok(v) => Lexeme::Tok(TokenView::Str(v), e),
                Err(x) => Lexeme::Fail(x, e),
            },
        }
    } else if c == '\'' {
        char_literal(cs, j)
    } else if is_digit(c) || (c == '-' && j + 1 < cs.len() && is_digit(cs[j + 1])) {
        number(cs, j)
    } else if is_ident_start(c) {
        let e = run_end(cs, j + 1, true);
        let text = cs.subrange(j, e);
        match keyword(text) {
            Some(t) => Lexeme::Tok(TokenView::Fixed(t), e),
            None => Lexeme::Tok(TokenView::Ident(text), e),
        }
    } else {
        match punct(cs, j) {
            Some((t, n)) => Lexeme::Tok(TokenView::Fixed(t), j + n),
            None => Lexeme::Fail(LexError::UnexpectedChar, j + 1),
        }
    }
}

/// One step of the scanner from `i`: the end of the text, a token between
/// two character indices, or a failure over two character indices.
pub ghost enum Step {
    End(int),
    Tok(TokenView, int, int),
    Fail(LexError, int, int),
}

/// The scanner's next step from `i`: skip white space and comments, then
/// take a lexeme. An unclosed block comment fails over its `/*`.
pub open spec fn scan(cs: Seq<char>, i: int) -> Step {
    match skip_from(cs, i, Mode::Normal) {
        Trivia::Unterminated(s) => Step::Fail(LexError::UnterminatedBlockComment, s, s + 2),
        Trivia::At(j) => if j >= cs.len() {
            Step::End(j)
        } else {
            match lexeme(cs, j) {
                Lexeme::Tok(v, e) => Step::Tok(v, j, e),
                Lexeme::Fail(x, e) => Step::Fail(x, j, e),
            }
        },
    }
}

// ---------------------------------------------------------------------------
// Positions
// ---------------------------------------------------------------------------

/// The number of bytes `c` takes in UTF-8.
pub open spec fn utf8_width(c: char) -> nat {
    if (c as u32) < 0x80 {
        1
    } else if (c as u32) < 0x800 {
        2
    } else if (c as u32) < 0x10000 {
        3
    } else {
        4
    }
}

/// The byte offset of the character at index `k`.
pub open spec fn byte_at(cs: Seq<char>, k: int) -> nat {
    vstd::utf8::encode_utf8(cs.take(k)).len()
}

/// The 1-based line at the end of `s`.
pub open spec fn line_of(s: Seq<char>) -> nat
    decreases s.len(),
{
    if s.len() == 0 {
        1
    } else if s.last() == '\n' {
        line_of(s.drop_last()) + 1
    } else {
        line_of(s.drop_last())
    }
}

/// The 1-based column, in characters, at the end of `s`.
pub open spec fn col_of(s: Seq<char>) -> nat
    decreases s.len(),
{
    if s.len() == 0 {
        1
    } else if s.last() == '\n' {
        1
    } else {
        col_of(s.drop_last()) + 1
    }
}

/// The span of the characters from `s` to `e`, located at `s`.
pub open spec fn span_of(cs: Seq<char>, s: int, e: int) -> Span {
    Span {
        start: byte_at(cs, s) as usize,
        end: byte_at(cs, e) as usize,
        line: line_of(cs.take(s)) as usize,
        column: col_of(cs.take(s)) as usize,
    }
}

pub const UNTERMINATED_COMMENT: &'static str = "Unterminated block comment: no `*/` closes this `/*`";

pub const UNKNOWN_ESCAPE_HEAD: &'static str = "Unknown escape sequence '\\";

pub const UNKNOWN_ESCAPE_TAIL: &'static str = "'; the escapes are ";

pub const EMPTY_CHAR: &'static str = "Empty char literal";

/// The escape set as a diagnostic lists it: `\n, \t, \r, \", \\, \0, \'`.
pub open spec fn escape_list() -> Seq<char> {
    crate::text::join_seq(
        super::token::escape_keys().map_values(|k: char| seq!['\\', k]),
        ", "@,
    )
}

/// `err` is how a lexical failure over the characters from `s` to `e` is
/// reported. An unexpected character is named, with a span of exactly that
/// character; the others are syntax errors over at least one byte.
pub open spec fn reports_failure(err: CompileError, cs: Seq<char>, x: LexError, s: int, e: int) -> bool {
    let line = line_of(cs.take(s)) as usize;
    let col = col_of(cs.take(s)) as usize;
    let start = byte_at(cs, s);
    let here = Span {
        start: start as usize,
        end: (if byte_at(cs, e) > start + 1 {
            byte_at(cs, e)
        } else {
            start + 1
        }) as usize,
        line,
        column: col,
    };
    match x {
        LexError::UnexpectedChar => err == CompileError::UnexpectedChar {
            ch: cs[s],
            line,
            col,
            span: Some(span_of(cs, s, s + 1)),
        },
        LexError::UnterminatedBlockComment => err matches CompileError::SyntaxError {
            message,
            span,
        } && message@ == UNTERMINATED_COMMENT@ && span == Some(here),
        LexError::UnknownEscape(c) => err matches CompileError::SyntaxError { message, span }
            && message@ == UNKNOWN_ESCAPE_HEAD@ + seq![c] + UNKNOWN_ESCAPE_TAIL@ + escape_list()
            && span == Some(here),
        LexError::EmptyCharLiteral => err matches CompileError::SyntaxError { message, span }
            && message@ == EMPTY_CHAR@ && span == Some(here),
    }
}

// ---------------------------------------------------------------------------
// Facts about byte offsets
// ---------------------------------------------------------------------------

proof fn lemma_encode_push(s: Seq<char>, c: char)
    ensures
        vstd::utf8::encode_utf8(s.push(c)) == vstd::utf8::encode_utf8(s) + vstd::utf8::encode_scalar(
            c as u32,
        ),
    decreases s.len(),
{
    if s.len() == 0 {
        assert(s.push(c) == seq![c]);
        assert(seq![c].drop_first() == Seq::<char>::empty());
        assert(vstd::utf8::encode_utf8(Seq::<char>::empty()) == Seq::<u8>::empty());
        assert(vstd::utf8::encode_scalar(c as u32) + Seq::<u8>::empty() == vstd::utf8::encode_scalar(
            c as u32,
        ));
    } else {
        lemma_encode_push(s.drop_first(), c);
        assert(s.push(c).drop_first() == s.drop_first().push(c));
        assert(s.push(c)[0] == s[0]);
        let a = vstd::utf8::encode_scalar(s[0] as u32);
        let b = vstd::utf8::encode_utf8(s.drop_first());
        let d = vstd::utf8::encode_scalar(c as u32);
        assert(a + (b + d) == (a + b) + d);
    }
}

proof fn lemma_scalar_width(c: char)
    ensures
        vstd::utf8::encode_scalar(c as u32).len() == utf8_width(c),
{
    vstd::utf8::char_is_scalar(c);
}

/// The offset of the next character is this one's plus its width.
proof fn lemma_byte_at_step(cs: Seq<char>, k: int)
    requires
        0 <= k < cs.len(),
    ensures
        byte_at(cs, k + 1) == byte_at(cs, k) + utf8_width(cs[k]),
{
    assert(cs.take(k + 1) == cs.take(k).push(cs[k]));
    lemma_encode_push(cs.take(k), cs[k]);
    lemma_scalar_width(cs[k]);
}

/// Offsets grow with the index.
proof fn lemma_byte_at_monotonic(cs: Seq<char>, k: int, m: int)
    requires
        0 <= k <= m <= cs.len(),
    ensures
        byte_at(cs, k) <= byte_at(cs, m),
    decreases m - k,
{
    if k < m {
        lemma_byte_at_step(cs, m - 1);
        lemma_byte_at_monotonic(cs, k, m - 1);
    }
}

// ---------------------------------------------------------------------------
// Scanning, executable
// ---------------------------------------------------------------------------

/// The UTF-8 width of `c`.
fn width_of(c: char) -> (r: usize)
    ensures
        r == utf8_width(c),
{
    let v = c as u32;
    if v < 0x80 {
        1
    } else if v < 0x800 {
        2
    } else if v < 0x10000 {
        3
    } else {
        4
    }
}

/// The byte offset of index `to`, from the offset `off` of index `from`.
fn advance_offset(cs: &Vec<char>, from: usize, off: usize, to: usize) -> (r: usize)
    requires
        from <= to <= cs.len(),
        off == byte_at(cs@, from as int),
        byte_at(cs@, cs.len() as int) <= isize::MAX,
    ensures
        r == byte_at(cs@, to as int),
{
    let mut k = from;
    let mut o = off;
    while k < to
        invariant
            from <= k <= to <= cs.len(),
            o == byte_at(cs@, k as int),
            byte_at(cs@, cs.len() as int) <= isize::MAX,
        decreases to - k,
    {
        proof {
            lemma_byte_at_step(cs@, k as int);
            lemma_byte_at_monotonic(cs@, k + 1, cs.len() as int);
        }
        o = o + width_of(cs[k]);
        k = k + 1;
    }
    o
}

/// Skip white space and comments from `i`: the index of the next lexeme,
/// or the index of a `/*` that is never closed.
fn skip_trivia(cs: &Vec<char>, i: usize) -> (r: core::result::Result<usize, usize>)
    requires
        i <= cs.len(),
    ensures
        match skip_from(cs@, i as int, Mode::Normal) {
            Trivia::At(j) => r == Ok::<usize, usize>(j as usize) && i <= j <= cs.len(),
            Trivia::Unterminated(s) => r == Err::<usize, usize>(s as usize) && i <= s && s + 2
                <= cs.len(),
        },
{
    // 0: between tokens, 1: in a line comment, 2: in block comments.
    let mut kind: u8 = 0;
    let mut depth: usize = 0;
    let mut start: usize = 0;
    let mut k = i;
    while k < cs.len()
        invariant
            i <= k <= cs.len(),
            kind <= 2,
            kind == 2 ==> 1 <= depth <= k && i <= start && start + 2 <= k,
            skip_from(cs@, i as int, Mode::Normal) == skip_from(
                cs@,
                k as int,
                if kind == 0 {
                    Mode::Normal
                } else if kind == 1 {
                    Mode::Line
                } else {
                    Mode::Block { depth: depth as nat, start: start as int }
                },
            ),
        decreases cs.len() - k,
    {
        let c = cs[k];
        let next_is = |d: char| -> (b: bool)
            ensures
                b == (k + 1 < cs.len() && cs@[k + 1] == d),
            { k + 1 < cs.len() && cs[k + 1] == d };
        if kind == 0 {
            if c == ' ' || c == '\t' || c == '\n' || c == '\x0c' {
                k = k + 1;
            } else if c == '/' && next_is('/') {
                kind = 1;
                k = k + 2;
            } else if c == '/' && next_is('*') {
                kind = 2;
                depth = 1;
                start = k;
                k = k + 2;
            } else {
                return Ok(k);
            }
        } else if kind == 1 {
            if c == '\n' {
                kind = 0;
            }
            k = k + 1;
        } else {
            if c == '/' && next_is('*') {
                depth = depth + 1;
                k = k + 2;
            } else if c == '*' && next_is('/') {
                if depth <= 1 {
                    kind = 0;
                    depth = 0;
                } else {
                    depth = depth - 1;
                }
                k = k + 2;
            } else {
                k = k + 1;
            }
        }
    }
    if kind == 2 {
        Err(start)
    } else {
        Ok(k)
    }
}

/// Where a string literal whose body starts at `k` ends.
fn find_string_end(cs: &Vec<char>, k: usize) -> (r: Option<usize>)
    requires
        k <= cs.len(),
    ensures
        match string_end(cs@, k as int) {
            Some(e) => r == Some(e as usize) && k < e <= cs.len(),
            None => r is None,
        },
{
    let mut p = k;
    while p < cs.len()
        invariant
            k <= p <= cs.len(),
            string_end(cs@, k as int) == string_end(cs@, p as int),
        decreases cs.len() - p,
    {
        if cs[p] == '"' {
            return Some(p + 1);
        } else if cs[p] == '\\' {
            if p + 1 < cs.len() && cs[p + 1] != '\n' {
                p = p + 2;
            } else {
                return None;
            }
        } else {
            p = p + 1;
        }
    }
    None
}

/// The end of the run of identifier characters (or digits) from `k`.
fn find_run_end(cs: &Vec<char>, k: usize, ident: bool) -> (r: usize)
    requires
        k <= cs.len(),
    ensures
        r == run_end(cs@, k as int, ident),
        k <= r <= cs.len(),
        k < cs.len() && (if ident {
            is_ident_continue(cs@[k as int])
        } else {
            is_digit(cs@[k as int])
        }) ==> r > k,
        forall|i: int| k <= i < r ==> (if ident {
            is_ident_continue(#[trigger] cs@[i])
        } else {
            is_digit(cs@[i])
        }),
{
    let mut p = k;
    while p < cs.len() && run_continues(cs[p], ident)
        invariant
            k <= p <= cs.len(),
            run_end(cs@, k as int, ident) == run_end(cs@, p as int, ident),
            forall|i: int| k <= i < p ==> (if ident {
                is_ident_continue(#[trigger] cs@[i])
            } else {
                is_digit(cs@[i])
            }),
        decreases cs.len() - p,
    {
        p = p + 1;
    }
    p
}

/// Whether `c` continues a run of identifier characters (or digits).
fn run_continues(c: char, ident: bool) -> (r: bool)
    ensures
        r == (if ident {
            is_ident_continue(c)
        } else {
            is_digit(c)
        }),
{
    if ident {
        ('a' <= c && c <= 'z') || ('A' <= c && c <= 'Z') || c == '_' || ('0' <= c && c <= '9')
    } else {
        '0' <= c && c <= '9'
    }
}

/// 2^63, the magnitude of the most negative 64-bit integer.
pub open spec fn magnitude_limit() -> int {
    0x8000_0000_0000_0000
}

proof fn lemma_digits_value_nonneg(s: Seq<char>)
    requires
        forall|i: int| 0 <= i < s.len() ==> is_digit(#[trigger] s[i]),
    ensures
        digits_value(s) >= 0,
    decreases s.len(),
{
    if s.len() > 0 {
        lemma_digits_value_nonneg(s.drop_last());
    }
}

/// The value of the digits `cs[from..to]` as a signed 64-bit integer, with
/// the sign `neg`, if it is one.
fn parse_digits(cs: &Vec<char>, from: usize, to: usize, neg: bool) -> (r: Option<i64>)
    requires
        from <= to <= cs.len(),
        forall|i: int| from <= i < to ==> is_digit(#[trigger] cs@[i]),
    ensures
        ({
            let v = digits_value(cs@.subrange(from as int, to as int));
            let value = if neg {
                -v
            } else {
                v
            };
            if i64::MIN <= value <= i64::MAX {
                r == Some(value as i64)
            } else {
                r is None
            }
        }),
{
    let mut acc: u128 = 0;
    let mut over = false;
    let mut p = from;
    while p < to
        invariant
            from <= p <= to <= cs.len(),
            forall|i: int| from <= i < to ==> is_digit(#[trigger] cs@[i]),
            digits_value(cs@.subrange(from as int, p as int)) >= 0,
            over <==> digits_value(cs@.subrange(from as int, p as int)) > magnitude_limit(),
            !over ==> acc == digits_value(cs@.subrange(from as int, p as int)),
        decreases to - p,
    {
        let ghost prev = cs@.subrange(from as int, p as int);
        assert(cs@.subrange(from as int, p + 1).drop_last() == prev);
        assert(cs@.subrange(from as int, p + 1).last() == cs@[p as int]);
        assert(is_digit(cs@[p as int]));
        let d = (cs[p] as u32 - 48) as u128;
        if !over {
            let next = acc * 10 + d;
            if next > 0x8000_0000_0000_0000u128 {
                over = true;
            } else {
                acc = next;
            }
        }
        p = p + 1;
    }
    if over {
        return None;
    }
    if neg {
        if acc <= 0x8000_0000_0000_0000u128 {
            let v: i128 = 0i128 - (acc as i128);
            Some(v as i64)
        } else {
            None
        }
    } else {
        if acc <= 0x7fff_ffff_ffff_ffffu128 {
            Some(acc as i64)
        } else {
            None
        }
    }
}

/// The keyword spelled `text`, if it is one.
fn keyword_of(text: &str) -> (r: Option<Token>)
    ensures
        r == keyword(text@),
{
    if str_eq(text, "fn") {
        Some(Token::Fn)
    } else if str_eq(text, "let") {
        Some(Token::Let)
    } else if str_eq(text, "mut") {
        Some(Token::Mut)
    } else if str_eq(text, "if") {
        Some(Token::If)
    } else if str_eq(text, "else") {
        Some(Token::Else)
    } else if str_eq(text, "while") {
        Some(Token::While)
    } else if str_eq(text, "return") {
        Some(Token::Return)
    } else if str_eq(text, "true") {
        Some(Token::True)
    } else if str_eq(text, "false") {
        Some(Token::False)
    } else if str_eq(text, "for") {
        Some(Token::For)
    } else if str_eq(text, "in") {
        Some(Token::In)
    } else if str_eq(text, "break") {
        Some(Token::Break)
    } else if str_eq(text, "continue") {
        Some(Token::Continue)
    } else if str_eq(text, "struct") {
        Some(Token::Struct)
    } else if str_eq(text, "enum") {
        Some(Token::Enum)
    } else if str_eq(text, "trait") {
        Some(Token::Trait)
    } else if str_eq(text, "impl") {
        Some(Token::Impl)
    } else if str_eq(text, "match") {
        Some(Token::Match)
    } else if str_eq(text, "import") {
        Some(Token::Import)
    } else if str_eq(text, "pub") {
        Some(Token::Pub)
    } else if str_eq(text, "as") {
        Some(Token::As)
    } else if str_eq(text, "Self") {
        Some(Token::SelfType)
    } else if str_eq(text, "self") {
        Some(Token::SelfParam)
    } else if str_eq(text, "type") {
        Some(Token::Type)
    } else if str_eq(text, "const") {
        Some(Token::Const)
    } else if str_eq(text, "unsafe") {
        Some(Token::Unsafe)
    } else if str_eq(text, "async") {
        Some(Token::Async)
    } else if str_eq(text, "await") {
        Some(Token::Await)
    } else if str_eq(text, "macro") {
        Some(Token::Macro)
    } else if str_eq(text, "_") {
        Some(Token::Underscore)
    } else {
        None
    }
}

/// The operator or delimiter at `j`, with its length.
fn punct_at(cs: &Vec<char>, j: usize) -> (r: Option<(Token, usize)>)
    requires
        j < cs.len(),
    ensures
        match punct(cs@, j as int) {
            Some((t, n)) => r == Some((t, n as usize)),
            None => r is None,
        },
{
    let c = cs[j];
    let d = if j + 1 < cs.len() {
        cs[j + 1]
    } else {
        ' '
    };
    if c == '-' && d == '>' {
        Some((Token::Arrow, 2))
    } else if c == '=' && d == '=' {
        Some((Token::EqEq, 2))
    } else if c == '=' && d == '>' {
        Some((Token::FatArrow, 2))
    } else if c == '!' && d == '=' {
        Some((Token::Ne, 2))
    } else if c == '<' && d == '=' {
        Some((Token::Le, 2))
    } else if c == '>' && d == '=' {
        Some((Token::Ge, 2))
    } else if c == '&' && d == '&' {
        Some((Token::AndAnd, 2))
    } else if c == '|' && d == '|' {
        Some((Token::OrOr, 2))
    } else if c == '.' && d == '.' {
        Some((Token::DotDot, 2))
    } else if c == ':' && d == ':' {
        Some((Token::DoubleColon, 2))
    } else if c == '#' && d == '!' {
        Some((Token::HashBang, 2))
    } else if c == '+' {
        Some((Token::Plus, 1))
    } else if c == '-' {
        Some((Token::Minus, 1))
    } else if c == '*' {
        Some((Token::Star, 1))
    } else if c == '&' {
        Some((Token::Ampersand, 1))
    } else if c == '/' {
        Some((Token::Slash, 1))
    } else if c == '%' {
        Some((Token::Percent, 1))
    } else if c == '=' {
        Some((Token::Eq, 1))
    } else if c == '!' {
        Some((Token::Not, 1))
    } else if c == '<' {
        Some((Token::Lt, 1))
    } else if c == '>' {
        Some((Token::Gt, 1))
    } else if c == '(' {
        Some((Token::LeftParen, 1))
    } else if c == ')' {
        Some((Token::RightParen, 1))
    } else if c == '{' {
        Some((Token::LeftBrace, 1))
    } else if c == '}' {
        Some((Token::RightBrace, 1))
    } else if c == '[' {
        Some((Token::LeftBracket, 1))
    } else if c == ']' {
        Some((Token::RightBracket, 1))
    } else if c == ';' {
        Some((Token::Semicolon, 1))
    } else if c == ',' {
        Some((Token::Comma, 1))
    } else if c == ':' {
        Some((Token::Colon, 1))
    } else if c == '.' {
        Some((Token::Dot, 1))
    } else if c == '#' {
        Some((Token::Hash, 1))
    } else if c == '$' {
        Some((Token::Dollar, 1))
    } else if c == '|' {
        Some((Token::Pipe, 1))
    } else if c == '?' {
        Some((Token::Question, 1))
    } else {
        None
    }
}

/// The lexeme at `j`: the token and where it ends, or the failure and where
/// its span ends.
fn lexeme_at(cs: &Vec<char>, j: usize) -> (r: (core::result::Result<Token, LexError>, usize))
    requires
        j < cs.len(),
    ensures
        j < r.1 <= cs.len(),
        match lexeme(cs@, j as int) {
            Lexeme::Tok(v, e) => r.0 matches Ok(t) && denotes(t, v) && r.1 == e,
            Lexeme::Fail(x, e) => r.0 == Err::<Token, LexError>(x) && r.1 == e,
        },
{
    let c = cs[j];
    if c == '"' {
        match find_string_end(cs, j + 1) {
            None => (Err(LexError::UnexpectedChar), j + 1),
            Some(e) => {
                let body = slice_string(cs, j + 1, e - 1);
                match unescape(body.as_str()) {
                    Ok(v) => (Ok(Token::String(v)), e),
                    Err(x) => (Err(x), e),
                }
            },
        }
    } else if c == '\'' {
        if cs.len() - j > 2 && cs[j + 1] != '\'' && cs[j + 1] != '\\' && cs[j + 2] == '\'' {
            (Ok(Token::Char(cs[j + 1])), j + 3)
        } else if cs.len() - j > 3 && cs[j + 1] == '\\' && cs[j + 2] != '\n' && cs[j + 3]
            == '\'' {
            match escape_char(cs[j + 2]) {
                Some(v) => (Ok(Token::Char(v)), j + 4),
                None => (Err(LexError::UnknownEscape(cs[j + 2])), j + 4),
            }
        } else {
            (Ok(Token::SingleQuote), j + 1)
        }
    } else if ('0' <= c && c <= '9') || (c == '-' && j + 1 < cs.len() && '0' <= cs[j + 1]
        && cs[j + 1] <= '9') {
        let neg = c == '-';
        let d0 = if neg {
            j + 1
        } else {
            j
        };
        let e = find_run_end(cs, d0, false);
        if cs.len() - e > 1 && cs[e] == '.' && '0' <= cs[e + 1] && cs[e + 1] <= '9' {
            let f = find_run_end(cs, e + 1, false);
            (Ok(Token::Float(slice_string(cs, j, f))), f)
        } else {
            match parse_digits(cs, d0, e, neg) {
                Some(v) => (Ok(Token::Integer(v)), e),
                None => (Err(LexError::UnexpectedChar), e),
            }
        }
    } else if ('a' <= c && c <= 'z') || ('A' <= c && c <= 'Z') || c == '_' {
        let e = find_run_end(cs, j + 1, true);
        let text = slice_string(cs, j, e);
        match keyword_of(text.as_str()) {
            Some(t) => (Ok(t), e),
            None => (Ok(Token::Identifier(text)), e),
        }
    } else {
        match punct_at(cs, j) {
            Some((t, n)) => (Ok(t), j + n),
            None => (Err(LexError::UnexpectedChar), j + 1),
        }
    }
}

// ---------------------------------------------------------------------------
// The lexer
// ---------------------------------------------------------------------------

/// Every token from `i` on, in order, with the failure that ended the run if
/// one did.
pub open spec fn tokens_from(cs: Seq<char>, i: int) -> (
    Seq<(TokenView, int, int)>,
    Option<(LexError, int, int)>,
)
    decreases cs.len() - i,
{
    match scan(cs, i) {
        Step::End(_) => (Seq::empty(), None),
        Step::Tok(v, s, e) => if i < e <= cs.len() {
            let rest = tokens_from(cs, e);
            (seq![(v, s, e)] + rest.0, rest.1)
        } else {
            (Seq::empty(), None)
        },
        Step::Fail(x, s, e) => (Seq::empty(), Some((x, s, e))),
    }
}

/// A lexer over one source text.
pub struct Lexer {
    chars: Vec<char>,
    /// Index of the next character to read.
    pos: usize,
    /// Byte offset of that character.
    offset: usize,
}

impl Lexer {
    /// The characters of the source.
    pub closed spec fn text(&self) -> Seq<char> {
        self.chars@
    }

    /// The index of the next character to read.
    pub closed spec fn position(&self) -> int {
        self.pos as int
    }

    pub closed spec fn well_formed(&self) -> bool {
        &&& self.pos <= self.chars.len() <= isize::MAX
        &&& self.offset == byte_at(self.chars@, self.pos as int)
        &&& byte_at(self.chars@, self.chars.len() as int) <= isize::MAX
    }

    /// A lexer at the start of `source`.
    pub fn new(source: &str) -> (l: Self)
        ensures
            l.well_formed(),
            l.text() == source@,
            l.position() == 0,
    {
        let chars = chars_of(source);
        let n = str_byte_len(source);
        proof {
            assert(chars@.take(chars.len() as int) == chars@);
            assert(chars@.take(0) == Seq::<char>::empty());
            assert(vstd::utf8::encode_utf8(Seq::<char>::empty()) == Seq::<u8>::empty());
        }
        Lexer { chars, pos: 0, offset: 0 }
    }

    /// Line and column (both 1-based) of the character at index `k`; the
    /// column counts characters, as a reader does.
    fn position_at(&self, k: usize) -> (r: (usize, usize))
        requires
            k <= self.chars.len(),
            self.chars.len() <= isize::MAX,
        ensures
            r.0 == line_of(self.chars@.take(k as int)),
            r.1 == col_of(self.chars@.take(k as int)),
    {
        let mut line: usize = 1;
        let mut col: usize = 1;
        let mut i: usize = 0;
        while i < k
            invariant
                i <= k <= self.chars.len() <= isize::MAX,
                line == line_of(self.chars@.take(i as int)),
                col == col_of(self.chars@.take(i as int)),
                line <= i + 1,
                col <= i + 1,
            decreases k - i,
        {
            assert(self.chars@.take(i + 1).drop_last() == self.chars@.take(i as int));
            assert(self.chars@.take(i + 1).last() == self.chars@[i as int]);
            if self.chars[i] == '\n' {
                line = line + 1;
                col = 1;
            } else {
                col = col + 1;
            }
            i = i + 1;
        }
        (line, col)
    }

    /// The next token and its span, `None` at the end of the source, or the
    /// lexical error that stops it.
    pub fn next_token(&mut self) -> (r: Result<Option<(Token, Span)>>)
        requires
            old(self).well_formed(),
        ensures
            final(self).well_formed(),
            final(self).text() == old(self).text(),
            match scan(old(self).text(), old(self).position()) {
                Step::End(j) => r matches Ok(None) && final(self).position() == j,
                Step::Tok(v, s, e) => r matches Ok(Some((t, span))) && denotes(t, v) && span
                    == span_of(old(self).text(), s, e) && final(self).position() == e,
                Step::Fail(x, s, e) => r matches Err(err) && reports_failure(
                    err,
                    old(self).text(),
                    x,
                    s,
                    e,
                ) && final(self).position() == e,
            },
            r matches Ok(Some(_)) || r is Err ==> final(self).position() > old(self).position(),
    {
        let ghost cs = self.chars@;
        proof {
            lemma_byte_at_monotonic(cs, 0, self.chars.len() as int);
        }
        match skip_trivia(&self.chars, self.pos) {
            Err(start) => {
                proof {
                    lemma_byte_at_monotonic(cs, start as int, cs.len() as int);
                }
                let start_off = advance_offset(&self.chars, self.pos, self.offset, start);
                let end_off = advance_offset(&self.chars, start, start_off, start + 2);
                let (line, col) = self.position_at(start);
                self.pos = start + 2;
                self.offset = end_off;
                let end = if end_off > start_off + 1 {
                    end_off
                } else {
                    start_off + 1
                };
                let here = Span { start: start_off, end, line, column: col };
                Err(CompileError::SyntaxError { message: string_of(UNTERMINATED_COMMENT), span: Some(here) })
            },
            Ok(j) => {
                if j >= self.chars.len() {
                    let off = advance_offset(&self.chars, self.pos, self.offset, j);
                    self.pos = j;
                    self.offset = off;
                    return Ok(None);
                }
                let start_off = advance_offset(&self.chars, self.pos, self.offset, j);
                let (result, e) = lexeme_at(&self.chars, j);
                let end_off = advance_offset(&self.chars, j, start_off, e);
                let (line, col) = self.position_at(j);
                self.pos = e;
                self.offset = end_off;
                match result {
                    Ok(token) => Ok(Some((token, Span { start: start_off, end: end_off, line, column: col }))),
                    Err(x) => {
                        proof {
                            lemma_byte_at_monotonic(cs, j as int, cs.len() as int);
                        }
                        let end = if end_off > start_off + 1 {
                            end_off
                        } else {
                            start_off + 1
                        };
                        let here = Span { start: start_off, end, line, column: col };
                        match x {
                            LexError::UnexpectedChar => {
                                let ch = self.chars[j];
                                proof {
                                    lemma_byte_at_step(cs, j as int);
                                    lemma_byte_at_monotonic(cs, j + 1, cs.len() as int);
                                }
                                let ch_end = start_off + width_of(ch);
                                Err(CompileError::UnexpectedChar {
                                    ch,
                                    line,
                                    col,
                                    span: Some(Span { start: start_off, end: ch_end, line, column: col }),
                                })
                            },
                            LexError::UnterminatedBlockComment => Err(CompileError::SyntaxError {
                                message: string_of(UNTERMINATED_COMMENT),
                                span: Some(here),
                            }),
                            LexError::UnknownEscape(c) => {
                                let mut message = string_of(UNKNOWN_ESCAPE_HEAD);
                                push_char(&mut message, c);
                                push_str(&mut message, UNKNOWN_ESCAPE_TAIL);
                                let spellings = escape_spellings();
                                proof {
                                    assert(spellings@.map_values(|p: String| p@)
                                        =~= super::token::escape_keys().map_values(
                                        |k: char| seq!['\\', k],
                                    ));
                                }
                                let list = crate::text::join_strings(&spellings, ", ");
                                assert(list@ == escape_list());
                                push_str(&mut message, list.as_str());
                                assert(message@ =~= UNKNOWN_ESCAPE_HEAD@ + seq![c]
                                    + UNKNOWN_ESCAPE_TAIL@ + escape_list());
                                Err(CompileError::SyntaxError { message, span: Some(here) })
                            },
                            LexError::EmptyCharLiteral => Err(CompileError::SyntaxError {
                                message: string_of(EMPTY_CHAR),
                                span: Some(here),
                            }),
                        }
                    },
                }
            },
        }
    }

    /// The next token, without consuming it.
    pub fn peek(&mut self) -> (r: Result<Option<Token>>)
        requires
            old(self).well_formed(),
        ensures
            final(self).well_formed(),
            final(self).text() == old(self).text(),
            final(self).position() == old(self).position(),
            match scan(old(self).text(), old(self).position()) {
                Step::End(_) => r matches Ok(None),
                Step::Tok(v, _, _) => r matches Ok(Some(t)) && denotes(t, v),
                Step::Fail(x, s, e) => r matches Err(err) && reports_failure(
                    err,
                    old(self).text(),
                    x,
                    s,
                    e,
                ),
            },
    {
        let saved_pos = self.pos;
        let saved_offset = self.offset;
        let result = self.next_token();
        self.pos = saved_pos;
        self.offset = saved_offset;
        match result {
            Ok(Some((token, _))) => Ok(Some(token)),
            Ok(None) => Ok(None),
            Err(e) => Err(e),
        }
    }

    /// The next token, or `None` at the end of the source or at a lexical
    /// error.
    pub fn next(&mut self) -> (r: Option<Token>)
        requires
            old(self).well_formed(),
        ensures
            final(self).well_formed(),
            final(self).text() == old(self).text(),
            match scan(old(self).text(), old(self).position()) {
                Step::Tok(v, _, e) => r matches Some(t) && denotes(t, v) && final(self).position()
                    == e,
                Step::End(j) => r is None && final(self).position() == j,
                Step::Fail(_, _, e) => r is None && final(self).position() == e,
            },
    {
        match self.next_token() {
            Ok(Some((token, _))) => Some(token),
            _ => None,
        }
    }

    /// Consume every remaining token; the first lexical error stops it.
    pub fn collect_tokens(&mut self) -> (r: Result<Vec<(Token, Span)>>)
        requires
            old(self).well_formed(),
        ensures
            final(self).well_formed(),
            final(self).text() == old(self).text(),
            ({
                let cs = old(self).text();
                let (toks, failure) = tokens_from(cs, old(self).position());
                match failure {
                    None => r matches Ok(v) && v@.len() == toks.len() && forall|k: int|
                        0 <= k < toks.len() ==> denotes(#[trigger] v@[k].0, toks[k].0) && v@[k].1
                            == span_of(cs, toks[k].1, toks[k].2),
                    Some((x, s, e)) => r matches Err(err) && reports_failure(err, cs, x, s, e),
                }
            }),
    {
        let ghost cs = self.chars@;
        let ghost start = self.pos as int;
        let mut tokens: Vec<(Token, Span)> = Vec::new();
        let ghost mut seen: Seq<(TokenView, int, int)> = Seq::empty();
        loop
            invariant
                self.well_formed(),
                self.text() == cs,
                cs == old(self).text(),
                start == old(self).position(),
                tokens@.len() == seen.len(),
                forall|k: int|
                    0 <= k < seen.len() ==> denotes(#[trigger] tokens@[k].0, seen[k].0)
                        && tokens@[k].1 == span_of(cs, seen[k].1, seen[k].2),
                tokens_from(cs, start) == (seen + tokens_from(cs, self.position()).0, tokens_from(
                    cs,
                    self.position(),
                ).1),
            decreases cs.len() - self.position(),
        {
            let ghost before = self.pos as int;
            match self.next_token() {
                Ok(None) => {
                    assert(tokens_from(cs, before).0 == Seq::<(TokenView, int, int)>::empty());
                    assert(seen + Seq::<(TokenView, int, int)>::empty() == seen);
                    return Ok(tokens);
                },
                Ok(Some(entry)) => {
                    let ghost step = scan(cs, before);
                    proof {
                        let (v, s, e) = (step->Tok_0, step->Tok_1, step->Tok_2);
                        assert(tokens_from(cs, before) == (seq![(v, s, e)] + tokens_from(cs, e).0, tokens_from(cs, e).1));
                        assert(seen + (seq![(v, s, e)] + tokens_from(cs, e).0) == seen.push((v, s, e)) + tokens_from(cs, e).0);
                        seen = seen.push((v, s, e));
                    }
                    tokens.push(entry);
                },
                Err(err) => {
                    return Err(err);
                },
            }
        }
    }
}

// ---------------------------------------------------------------------------
// Laws
// ---------------------------------------------------------------------------

proof fn lemma_skip_from_forward(cs: Seq<char>, i: int, mode: Mode)
    requires
        0 <= i,
    ensures
        match skip_from(cs, i, mode) {
            Trivia::At(j) => i <= j && (i <= cs.len() ==> j <= cs.len()),
            Trivia::Unterminated(_) => true,
        },
    decreases cs.len() - i,
{
    if i < cs.len() {
        match mode {
            Mode::Normal => {
                if is_skip_space(cs[i]) {
                    lemma_skip_from_forward(cs, i + 1, Mode::Normal);
                } else if cs[i] == '/' && i + 1 < cs.len() && cs[i + 1] == '/' {
                    lemma_skip_from_forward(cs, i + 2, Mode::Line);
                } else if cs[i] == '/' && i + 1 < cs.len() && cs[i + 1] == '*' {
                    lemma_skip_from_forward(cs, i + 2, Mode::Block { depth: 1, start: i });
                }
            },
            Mode::Line => {
                if cs[i] == '\n' {
                    lemma_skip_from_forward(cs, i + 1, Mode::Normal);
                } else {
                    lemma_skip_from_forward(cs, i + 1, Mode::Line);
                }
            },
            Mode::Block { depth, start } => {
                if cs[i] == '/' && i + 1 < cs.len() && cs[i + 1] == '*' {
                    lemma_skip_from_forward(cs, i + 2, Mode::Block { depth: depth + 1, start });
                } else if cs[i] == '*' && i + 1 < cs.len() && cs[i + 1] == '/' {
                    if depth <= 1 {
                        lemma_skip_from_forward(cs, i + 2, Mode::Normal);
                    } else {
                        lemma_skip_from_forward(
                            cs,
                            i + 2,
                            Mode::Block { depth: (depth - 1) as nat, start },
                        );
                    }
                } else {
                    lemma_skip_from_forward(cs, i + 1, Mode::Block { depth, start });
                }
            },
        }
    }
}

/// The tokens of a text come in source order and never overlap: each one
/// starts at or after the end of the one before, and every one ends after it
/// starts and within the text.
pub proof fn lemma_tokens_in_order(cs: Seq<char>, i: int)
    requires
        0 <= i <= cs.len(),
    ensures
        ({
            let toks = tokens_from(cs, i).0;
            &&& forall|k: int| 0 <= k < toks.len() ==> i <= #[trigger] toks[k].1 < toks[k].2 <= cs.len()
            &&& forall|k: int| 0 <= k < toks.len() - 1 ==> #[trigger] toks[k].2 <= toks[k + 1].1
        }),
    decreases cs.len() - i,
{
    lemma_skip_from_forward(cs, i, Mode::Normal);
    match scan(cs, i) {
        Step::Tok(v, s, e) => {
            if i < e <= cs.len() {
                lemma_tokens_in_order(cs, e);
                let rest = tokens_from(cs, e).0;
                let toks = seq![(v, s, e)] + rest;
                assert(tokens_from(cs, i).0 == toks);
                assert forall|k: int| 0 <= k < toks.len() implies i <= #[trigger] toks[k].1
                    < toks[k].2 <= cs.len() by {
                    if k > 0 {
                        assert(toks[k] == rest[k - 1]);
                    } else {
                        lemma_lexeme_advances(cs, s);
                    }
                }
                assert forall|k: int| 0 <= k < toks.len() - 1 implies #[trigger] toks[k].2
                    <= toks[k + 1].1 by {
                    assert(toks[k + 1] == rest[k]);
                    if k > 0 {
                        assert(toks[k] == rest[k - 1]);
                    }
                }
            }
        },
        _ => {},
    }
}

proof fn lemma_run_end_bounds(cs: Seq<char>, k: int, ident: bool)
    requires
        0 <= k <= cs.len(),
    ensures
        k <= run_end(cs, k, ident) <= cs.len(),
    decreases cs.len() - k,
{
    if k < cs.len() && (if ident {
        is_ident_continue(cs[k])
    } else {
        is_digit(cs[k])
    }) {
        lemma_run_end_bounds(cs, k + 1, ident);
    }
}

proof fn lemma_string_end_bounds(cs: Seq<char>, k: int)
    requires
        0 <= k,
    ensures
        string_end(cs, k) matches Some(e) ==> k < e <= cs.len(),
    decreases cs.len() - k,
{
    if 0 <= k < cs.len() && cs[k] != '"' {
        if cs[k] == '\\' {
            if k + 1 < cs.len() && cs[k + 1] != '\n' {
                lemma_string_end_bounds(cs, k + 2);
            }
        } else {
            lemma_string_end_bounds(cs, k + 1);
        }
    }
}

proof fn lemma_lexeme_advances(cs: Seq<char>, j: int)
    requires
        0 <= j < cs.len(),
    ensures
        match lexeme(cs, j) {
            Lexeme::Tok(_, e) => j < e <= cs.len(),
            Lexeme::Fail(_, e) => j < e <= cs.len(),
        },
{
    lemma_string_end_bounds(cs, j + 1);
    lemma_run_end_bounds(cs, j + 1, true);
    let d0 = if cs[j] == '-' {
        j + 1
    } else {
        j
    };
    if d0 <= cs.len() {
        lemma_run_end_bounds(cs, d0, false);
        let e = run_end(cs, d0, false);
        if e + 1 <= cs.len() {
            lemma_run_end_bounds(cs, e + 1, false);
        }
    }
}

/// A string literal body with no backslash in it is its own value.
pub proof fn lemma_plain_body_is_its_value(cs: Seq<char>)
    requires
        !cs.contains('\\'),
    ensures
        unescaped(cs) == Ok::<Seq<char>, LexError>(cs),
    decreases cs.len(),
{
    if cs.len() > 0 {
        assert(cs[0] != '\\');
        assert(!cs.drop_first().contains('\\')) by {
            if cs.drop_first().contains('\\') {
                let k = choose|k: int| 0 <= k < cs.drop_first().len() && cs.drop_first()[k] == '\\';
                assert(cs[k + 1] == '\\');
            }
        }
        lemma_plain_body_is_its_value(cs.drop_first());
        assert(seq![cs[0]] + cs.drop_first() == cs);
        assert(unescaped(cs) == Ok::<Seq<char>, LexError>(seq![cs[0]] + cs.drop_first()));
    } else {
        assert(cs == Seq::<char>::empty());
    }
}

/// An escape outside the table is refused, never passed through: a body
/// holding a backslash and anything else than `n t r " \ 0 '` does not
/// unescape.
pub proof fn lemma_unknown_escape_is_refused(c: char)
    requires
        escape_of(c) is None,
    ensures
        unescaped(seq!['\\', c]) == Err::<Seq<char>, LexError>(LexError::UnknownEscape(c)),
{
}

proof fn lemma_keyword_spelled(text: Seq<char>)
    ensures
        keyword(text) matches Some(t) ==> text == spelling(t),
{
}

proof fn lemma_punct_spelled(cs: Seq<char>, j: int)
    requires
        0 <= j < cs.len(),
    ensures
        punct(cs, j) matches Some((t, n)) ==> j + n <= cs.len() && cs.subrange(j, j + n)
            == spelling(t),
{
    reveal_strlit("->");
    reveal_strlit("==");
    reveal_strlit("=>");
    reveal_strlit("!=");
    reveal_strlit("<=");
    reveal_strlit(">=");
    reveal_strlit("&&");
    reveal_strlit("||");
    reveal_strlit("..");
    reveal_strlit("::");
    reveal_strlit("#!");
    reveal_strlit("+");
    reveal_strlit("-");
    reveal_strlit("*");
    reveal_strlit("&");
    reveal_strlit("/");
    reveal_strlit("%");
    reveal_strlit("=");
    reveal_strlit("!");
    reveal_strlit("<");
    reveal_strlit(">");
    reveal_strlit("(");
    reveal_strlit(")");
    reveal_strlit("{");
    reveal_strlit("}");
    reveal_strlit("[");
    reveal_strlit("]");
    reveal_strlit(";");
    reveal_strlit(",");
    reveal_strlit(":");
    reveal_strlit(".");
    reveal_strlit("#");
    reveal_strlit("$");
    reveal_strlit("|");
    reveal_strlit("?");
    reveal_strlit("'");
    let c = cs[j];
    if let Some((_, n)) = punct(cs, j) {
        if n == 2 {
            assert(j + 1 < cs.len());
            assert(cs.subrange(j, j + 2) == seq![c, cs[j + 1]]);
        } else {
            assert(cs.subrange(j, j + 1) == seq![c]);
        }
    }
}

/// A keyword, operator or delimiter the scanner reports is spelled in the
/// source exactly as the token is written: the characters it covers are the
/// token's spelling.
pub proof fn lemma_fixed_tokens_are_spelled(cs: Seq<char>, i: int)
    requires
        0 <= i <= cs.len(),
    ensures
        scan(cs, i) matches Step::Tok(TokenView::Fixed(t), s, e) ==> 0 <= s && e <= cs.len()
            && cs.subrange(s, e) == spelling(t),
{
    lemma_skip_from_forward(cs, i, Mode::Normal);
    if let Step::Tok(v, j, e) = scan(cs, i) {
        lemma_lexeme_advances(cs, j);
        lemma_punct_spelled(cs, j);
        reveal_strlit("'");
        let c = cs[j];
        if is_ident_start(c) && c != '"' && c != '\'' && !is_digit(c) {
            lemma_keyword_spelled(cs.subrange(j, run_end(cs, j + 1, true)));
        }
        if c == '\'' {
            assert(cs.subrange(j, j + 1) == seq!['\'']);
        }
    }
}


/// A token whose fixed spelling starts the way an identifier does: a keyword.
pub open spec fn is_keyword_token(t: Token) -> bool {
    spelling(t).len() > 0 && is_ident_start(spelling(t)[0])
}

proof fn lemma_keyword_spellings_are_words(t: Token)
    requires
        is_keyword_token(t),
    ensures
        keyword(spelling(t)) == Some(t),
        forall|k: int| 0 <= k < spelling(t).len() ==> is_ident_continue(#[trigger] spelling(t)[k]),
{
    reveal_strlit("fn");
    reveal_strlit("let");
    reveal_strlit("mut");
    reveal_strlit("if");
    reveal_strlit("else");
    reveal_strlit("while");
    reveal_strlit("return");
    reveal_strlit("true");
    reveal_strlit("false");
    reveal_strlit("for");
    reveal_strlit("in");
    reveal_strlit("break");
    reveal_strlit("continue");
    reveal_strlit("struct");
    reveal_strlit("enum");
    reveal_strlit("trait");
    reveal_strlit("impl");
    reveal_strlit("match");
    reveal_strlit("import");
    reveal_strlit("pub");
    reveal_strlit("as");
    reveal_strlit("Self");
    reveal_strlit("self");
    reveal_strlit("type");
    reveal_strlit("const");
    reveal_strlit("unsafe");
    reveal_strlit("async");
    reveal_strlit("await");
    reveal_strlit("macro");
    reveal_strlit("_");
    reveal_strlit("+");
    reveal_strlit("-");
    reveal_strlit("*");
    reveal_strlit("&");
    reveal_strlit("/");
    reveal_strlit("%");
    reveal_strlit("=");
    reveal_strlit("==");
    reveal_strlit("!=");
    reveal_strlit("!");
    reveal_strlit("<");
    reveal_strlit(">");
    reveal_strlit("<=");
    reveal_strlit(">=");
    reveal_strlit("&&");
    reveal_strlit("||");
    reveal_strlit("(");
    reveal_strlit(")");
    reveal_strlit("{");
    reveal_strlit("}");
    reveal_strlit("[");
    reveal_strlit("]");
    reveal_strlit(";");
    reveal_strlit(",");
    reveal_strlit(":");
    reveal_strlit(".");
    reveal_strlit("..");
    reveal_strlit("->");
    reveal_strlit("::");
    reveal_strlit("=>");
    reveal_strlit("'");
    reveal_strlit("?");
    reveal_strlit("#");
    reveal_strlit("#!");
    reveal_strlit("$");
    reveal_strlit("|");
    match t {
        Token::Fn => {
            assert(keyword(spelling(t)) == Some(t));
        },
        Token::Let => {
            assert(keyword(spelling(t)) == Some(t));
        },
        Token::Mut => {
            assert(keyword(spelling(t)) == Some(t));
        },
        Token::If => {
            assert(keyword(spelling(t)) == Some(t));
        },
        Token::Else => {
            assert(keyword(spelling(t)) == Some(t));
        },
        Token::While => {
            assert(keyword(spelling(t)) == Some(t));
        },
        Token::Return => {
            assert(keyword(spelling(t)) == Some(t));
        },
        Token::True => {
            assert(keyword(spelling(t)) == Some(t));
        },
        Token::False => {
            assert(keyword(spelling(t)) == Some(t));
        },
        Token::For => {
            assert(keyword(spelling(t)) == Some(t));
        },
        Token::In => {
            assert("in"@[1] != "if"@[1]);
            assert(keyword(spelling(t)) == Some(t));
        },
        Token::Break => {
            assert(keyword(spelling(t)) == Some(t));
        },
        Token::Continue => {
            assert(keyword(spelling(t)) == Some(t));
        },
        Token::Struct => {
            assert(keyword(spelling(t)) == Some(t));
        },
        Token::Enum => {
            assert("enum"@[1] != "else"@[1]);
            assert(keyword(spelling(t)) == Some(t));
        },
        Token::Trait => {
            assert(keyword(spelling(t)) == Some(t));
        },
        Token::Impl => {
            assert(keyword(spelling(t)) == Some(t));
        },
        Token::Match => {
            assert(keyword(spelling(t)) == Some(t));
        },
        Token::Import => {
            assert(keyword(spelling(t)) == Some(t));
        },
        Token::Pub => {
            assert(keyword(spelling(t)) == Some(t));
        },
        Token::As => {
            assert(keyword(spelling(t)) == Some(t));
        },
        Token::SelfType => {
            assert(keyword(spelling(t)) == Some(t));
        },
        Token::SelfParam => {
            assert(keyword(spelling(t)) == Some(t));
        },
        Token::Type => {
            assert("type"@[1] != "true"@[1]);
            assert(keyword(spelling(t)) == Some(t));
        },
        Token::Const => {
            assert(keyword(spelling(t)) == Some(t));
        },
        Token::Unsafe => {
            assert(keyword(spelling(t)) == Some(t));
        },
        Token::Async => {
            assert(keyword(spelling(t)) == Some(t));
        },
        Token::Await => {
            assert("await"@[1] != "async"@[1]);
            assert(keyword(spelling(t)) == Some(t));
        },
        Token::Macro => {
            assert("macro"@[2] != "match"@[2]);
            assert(keyword(spelling(t)) == Some(t));
        },
        Token::Underscore => {
            assert(keyword(spelling(t)) == Some(t));
        },
        _ => {},
    }
}

proof fn lemma_word_runs_to_the_end(w: Seq<char>, k: int)
    requires
        0 <= k <= w.len(),
        forall|i: int| k <= i < w.len() ==> is_ident_continue(#[trigger] w[i]),
    ensures
        run_end(w, k, true) == w.len(),
    decreases w.len() - k,
{
    if k < w.len() {
        lemma_word_runs_to_the_end(w, k + 1);
    }
}

/// Every keyword lexes as its keyword, never as an identifier: scanning
/// exactly the spelling of a token that is spelled like a word yields that
/// token, over the whole spelling; and `keyword` recognises exactly the
/// spellings of keyword tokens.
pub proof fn lemma_keywords_lex_as_keywords(t: Token, text: Seq<char>)
    ensures
        is_keyword_token(t) ==> keyword(spelling(t)) == Some(t),
        is_keyword_token(t) ==> scan(spelling(t), 0) == Step::Tok(
            TokenView::Fixed(t),
            0,
            spelling(t).len() as int,
        ),
        keyword(text) matches Some(k) ==> text == spelling(k) && is_keyword_token(k),
{
    if is_keyword_token(t) {
        let w = spelling(t);
        lemma_keyword_spellings_are_words(t);
        lemma_word_runs_to_the_end(w, 1);
        assert(w.subrange(0, w.len() as int) == w);
        assert(!is_skip_space(w[0]));
        assert(skip_from(w, 0, Mode::Normal) == Trivia::At(0));
    }
    lemma_keyword_spelled(text);
    if let Some(k) = keyword(text) {
        lemma_keyword_spellings_are_words_back(k, text);
    }
}

proof fn lemma_keyword_spellings_are_words_back(k: Token, text: Seq<char>)
    requires
        keyword(text) == Some(k),
    ensures
        is_keyword_token(k),
{
    reveal_strlit("fn");
    reveal_strlit("let");
    reveal_strlit("mut");
    reveal_strlit("if");
    reveal_strlit("else");
    reveal_strlit("while");
    reveal_strlit("return");
    reveal_strlit("true");
    reveal_strlit("false");
    reveal_strlit("for");
    reveal_strlit("in");
    reveal_strlit("break");
    reveal_strlit("continue");
    reveal_strlit("struct");
    reveal_strlit("enum");
    reveal_strlit("trait");
    reveal_strlit("impl");
    reveal_strlit("match");
    reveal_strlit("import");
    reveal_strlit("pub");
    reveal_strlit("as");
    reveal_strlit("Self");
    reveal_strlit("self");
    reveal_strlit("type");
    reveal_strlit("const");
    reveal_strlit("unsafe");
    reveal_strlit("async");
    reveal_strlit("await");
    reveal_strlit("macro");
    reveal_strlit("_");
}

} // verus!
