//! Tokens, the escape table, and how each token is named to a reader.

use vstd::prelude::*;
use crate::text::{chars_of, push_char, push_i64, push_str, signed_decimal, string_of};

verus! {

/// Why the lexer stopped, in the lexer's own vocabulary.
#[derive(Debug, Clone, Copy, PartialEq, Eq, Structural)]
pub enum LexError {
    /// Nothing in the token set starts here.
    UnexpectedChar,
    /// A `/*` that no `*/` closes at depth 0.
    UnterminatedBlockComment,
    /// `\` followed by something outside the escape set.
    UnknownEscape(char),
    /// `''`: a char literal with nothing in it.
    EmptyCharLiteral,
}

impl Default for LexError {
    fn default() -> (e: Self)
        ensures
            e == LexError::UnexpectedChar,
    {
        LexError::UnexpectedChar
    }
}

// ---------------------------------------------------------------------------
// Escapes
// ---------------------------------------------------------------------------

/// The character an escape stands for, given the character after the
/// backslash: `\n \t \r \" \\ \0 \'`, and nothing else.
pub open spec fn escape_of(c: char) -> Option<char> {
    if c == 'n' {
        Some('\n')
    } else if c == 't' {
        Some('\t')
    } else if c == 'r' {
        Some('\r')
    } else if c == '"' {
        Some('"')
    } else if c == '\\' {
        Some('\\')
    } else if c == '0' {
        Some('\0')
    } else if c == '\'' {
        Some('\'')
    } else {
        None
    }
}

/// The characters that may follow a backslash, in table order.
pub open spec fn escape_keys() -> Seq<char> {
    seq!['n', 't', 'r', '"', '\\', '0', '\'']
}

/// Resolve one escape character (the one after the backslash).
pub fn escape_char(c: char) -> (r: Option<char>)
    ensures
        r == escape_of(c),
{
    if c == 'n' {
        Some('\n')
    } else if c == 't' {
        Some('\t')
    } else if c == 'r' {
        Some('\r')
    } else if c == '"' {
        Some('"')
    } else if c == '\\' {
        Some('\\')
    } else if c == '0' {
        Some('\0')
    } else if c == '\'' {
        Some('\'')
    } else {
        None
    }
}

/// The escape set, spelled as source (`\n`, `\t`, ...), for a diagnostic to
/// list.
pub fn escape_spellings() -> (r: Vec<String>)
    ensures
        r@.len() == escape_keys().len(),
        forall|i: int| 0 <= i < r@.len() ==> #[trigger] r@[i]@ == seq!['\\', escape_keys()[i]],
{
    let keys: [char; 7] = ['n', 't', 'r', '"', '\\', '0', '\''];
    let mut out: Vec<String> = Vec::new();
    let mut i: usize = 0;
    while i < 7
        invariant
            i <= 7,
            keys@ == escape_keys(),
            out@.len() == i,
            forall|k: int| 0 <= k < i ==> #[trigger] out@[k]@ == seq!['\\', escape_keys()[k]],
        decreases 7 - i,
    {
        let mut s = String::new();
        push_char(&mut s, '\\');
        push_char(&mut s, keys[i]);
        out.push(s);
        i = i + 1;
    }
    out
}

/// The value of a string literal's body with its escapes resolved, or the
/// first unknown escape. A lone trailing backslash stands for itself.
pub open spec fn unescaped(cs: Seq<char>) -> Result<Seq<char>, LexError>
    decreases cs.len(),
{
    if cs.len() == 0 {
        Ok(Seq::empty())
    } else if cs[0] != '\\' {
        match unescaped(cs.drop_first()) {
            Ok(rest) => Ok(seq![cs[0]] + rest),
            Err(e) => Err(e),
        }
    } else {
        let e = if cs.len() > 1 {
            cs[1]
        } else {
            '\\'
        };
        match escape_of(e) {
            None => Err(LexError::UnknownEscape(e)),
            Some(v) => {
                let tail = if cs.len() > 1 {
                    cs.skip(2)
                } else {
                    Seq::empty()
                };
                match unescaped(tail) {
                    Ok(rest) => Ok(seq![v] + rest),
                    Err(x) => Err(x),
                }
            },
        }
    }
}

/// Unescape the body of a string literal.
pub fn unescape(body: &str) -> (r: core::result::Result<String, LexError>)
    ensures
        match unescaped(body@) {
            Ok(v) => r matches Ok(s) && s@ == v,
            Err(e) => r == Err::<String, LexError>(e),
        },
{
    let cs = chars_of(body);
    let mut out = String::new();
    let mut i: usize = 0;
    assert(cs@.skip(0) == cs@);
    while i < cs.len()
        invariant
            i <= cs.len(),
            cs@ == body@,
            unescaped(body@) == match unescaped(cs@.skip(i as int)) {
                Ok(rest) => Ok(out@ + rest),
                Err(e) => Err(e),
            },
        decreases cs.len() - i,
    {
        let ghost rest = cs@.skip(i as int);
        let ghost before = out@;
        assert(rest[0] == cs[i as int]);
        let c = cs[i];
        if c != '\\' {
            assert(rest.drop_first() == cs@.skip(i + 1));
            push_char(&mut out, c);
            i = i + 1;
            proof {
                match unescaped(cs@.skip(i as int)) {
                    Ok(r2) => assert(before + (seq![c] + r2) == out@ + r2),
                    Err(_) => {},
                }
            }
        } else {
            let e = if i + 1 < cs.len() {
                cs[i + 1]
            } else {
                '\\'
            };
            if i + 1 < cs.len() {
                assert(rest[1] == cs[i + 1]);
            }
            match escape_char(e) {
                Some(v) => {
                    let next = if i + 1 < cs.len() {
                        i + 2
                    } else {
                        i + 1
                    };
                    proof {
                        if i + 1 < cs.len() {
                            assert(rest.skip(2) == cs@.skip(next as int));
                        } else {
                            assert(cs@.skip(next as int) == Seq::<char>::empty());
                        }
                    }
                    push_char(&mut out, v);
                    i = next;
                    proof {
                        match unescaped(cs@.skip(i as int)) {
                            Ok(r2) => assert(before + (seq![v] + r2) == out@ + r2),
                            Err(_) => {},
                        }
                    }
                },
                None => {
                    return Err(LexError::UnknownEscape(e));
                },
            }
        }
    }
    assert(cs@.skip(i as int) == Seq::<char>::empty());
    assert(out@ + Seq::<char>::empty() == out@);
    Ok(out)
}

// ---------------------------------------------------------------------------
// Tokens
// ---------------------------------------------------------------------------

/// A token. A float literal carries its text as written, from which its
/// value is read where one is needed.
#[derive(Debug, PartialEq, Clone)]
pub enum Token {
    // Literals
    String(String),
    Char(char),
    Float(String),
    Integer(i64),
    Identifier(String),
    // Keywords
    Fn,
    Let,
    Mut,
    If,
    Else,
    While,
    Return,
    True,
    False,
    For,
    In,
    Break,
    Continue,
    Struct,
    Enum,
    Trait,
    Impl,
    Match,
    Import,
    Pub,
    As,
    SelfType,
    SelfParam,
    Type,
    Const,
    Unsafe,
    Async,
    Await,
    Macro,
    // Operators
    Plus,
    Minus,
    Star,
    Ampersand,
    Slash,
    Percent,
    Eq,
    EqEq,
    Ne,
    Not,
    Lt,
    Gt,
    Le,
    Ge,
    AndAnd,
    OrOr,
    // Delimiters
    LeftParen,
    RightParen,
    LeftBrace,
    RightBrace,
    LeftBracket,
    RightBracket,
    Semicolon,
    Comma,
    Colon,
    Dot,
    DotDot,
    Arrow,
    DoubleColon,
    Underscore,
    FatArrow,
    SingleQuote,
    Question,
    /// `#`, which exists only to open an attribute.
    Hash,
    /// `#!`, one token because the two are an inner attribute only when
    /// adjacent.
    HashBang,
    Dollar,
    Pipe,
    /// End of file marker (not produced by the lexer).
    Eof,
}

/// How a token with a fixed spelling is written in source.
pub open spec fn spelling(t: Token) -> Seq<char> {
    match t {
        Token::Fn => "fn"@,
        Token::Let => "let"@,
        Token::Mut => "mut"@,
        Token::If => "if"@,
        Token::Else => "else"@,
        Token::While => "while"@,
        Token::Return => "return"@,
        Token::True => "true"@,
        Token::False => "false"@,
        Token::For => "for"@,
        Token::In => "in"@,
        Token::Break => "break"@,
        Token::Continue => "continue"@,
        Token::Struct => "struct"@,
        Token::Enum => "enum"@,
        Token::Trait => "trait"@,
        Token::Impl => "impl"@,
        Token::Match => "match"@,
        Token::Import => "import"@,
        Token::Pub => "pub"@,
        Token::As => "as"@,
        Token::SelfType => "Self"@,
        Token::SelfParam => "self"@,
        Token::Type => "type"@,
        Token::Const => "const"@,
        Token::Unsafe => "unsafe"@,
        Token::Async => "async"@,
        Token::Await => "await"@,
        Token::Macro => "macro"@,
        Token::Plus => "+"@,
        Token::Minus => "-"@,
        Token::Star => "*"@,
        Token::Ampersand => "&"@,
        Token::Slash => "/"@,
        Token::Percent => "%"@,
        Token::Eq => "="@,
        Token::EqEq => "=="@,
        Token::Ne => "!="@,
        Token::Not => "!"@,
        Token::Lt => "<"@,
        Token::Gt => ">"@,
        Token::Le => "<="@,
        Token::Ge => ">="@,
        Token::AndAnd => "&&"@,
        Token::OrOr => "||"@,
        Token::LeftParen => "("@,
        Token::RightParen => ")"@,
        Token::LeftBrace => "{"@,
        Token::RightBrace => "}"@,
        Token::LeftBracket => "["@,
        Token::RightBracket => "]"@,
        Token::Semicolon => ";"@,
        Token::Comma => ","@,
        Token::Colon => ":"@,
        Token::Dot => "."@,
        Token::DotDot => ".."@,
        Token::Arrow => "->"@,
        Token::DoubleColon => "::"@,
        Token::Underscore => "_"@,
        Token::FatArrow => "=>"@,
        Token::SingleQuote => "'"@,
        Token::Question => "?"@,
        Token::Hash => "#"@,
        Token::HashBang => "#!"@,
        Token::Dollar => "$"@,
        Token::Pipe => "|"@,
        _ => Seq::empty(),
    }
}

/// How a token is named to a reader, in a diagnostic.
pub open spec fn token_text(t: Token) -> Seq<char> {
    match t {
        Token::String(s) => "string \""@ + s@ + "\""@,
        Token::Integer(n) => "integer "@ + signed_decimal(n as int),
        Token::Float(x) => "float "@ + x@,
        Token::Char(c) => "char '"@ + seq![c] + "'"@,
        Token::Identifier(name) => "identifier '"@ + name@ + "'"@,
        Token::SingleQuote => "'"@,
        Token::Eof => "EOF"@,
        _ => "'"@ + spelling(t) + "'"@,
    }
}

/// The tokens an expression can start with.
pub open spec fn starts_expr(t: Token) -> bool {
    match t {
        Token::String(_) | Token::Integer(_) | Token::Float(_) | Token::Char(_)
        | Token::Identifier(_) | Token::True | Token::False | Token::LeftParen | Token::Minus
        | Token::Not => true,
        _ => false,
    }
}

/// The tokens a statement can start with.
pub open spec fn starts_stmt(t: Token) -> bool {
    match t {
        Token::Let | Token::Return | Token::If | Token::While | Token::For | Token::Break
        | Token::Continue | Token::Match | Token::Unsafe => true,
        _ => starts_expr(t),
    }
}

impl Token {
    /// Whether this token can start an expression.
    pub fn can_start_expr(&self) -> (r: bool)
        ensures
            r == starts_expr(*self),
    {
        match self {
            Token::String(_) | Token::Integer(_) | Token::Float(_) | Token::Char(_)
            | Token::Identifier(_) | Token::True | Token::False | Token::LeftParen | Token::Minus
            | Token::Not => true,
            _ => false,
        }
    }

    /// Whether this token can start a statement.
    pub fn can_start_stmt(&self) -> (r: bool)
        ensures
            r == starts_stmt(*self),
    {
        match self {
            Token::Let | Token::Return | Token::If | Token::While | Token::For | Token::Break
            | Token::Continue | Token::Match | Token::Unsafe => true,
            _ => self.can_start_expr(),
        }
    }

    /// The fixed spelling of a keyword, operator or delimiter (empty for
    /// the literal tokens and `Eof`).
    pub fn spelling(&self) -> (r: &'static str)
        ensures
            r@ == spelling(*self),
    {
        match self {
            Token::Fn => "fn",
            Token::Let => "let",
            Token::Mut => "mut",
            Token::If => "if",
            Token::Else => "else",
            Token::While => "while",
            Token::Return => "return",
            Token::True => "true",
            Token::False => "false",
            Token::For => "for",
            Token::In => "in",
            Token::Break => "break",
            Token::Continue => "continue",
            Token::Struct => "struct",
            Token::Enum => "enum",
            Token::Trait => "trait",
            Token::Impl => "impl",
            Token::Match => "match",
            Token::Import => "import",
            Token::Pub => "pub",
            Token::As => "as",
            Token::SelfType => "Self",
            Token::SelfParam => "self",
            Token::Type => "type",
            Token::Const => "const",
            Token::Unsafe => "unsafe",
            Token::Async => "async",
            Token::Await => "await",
            Token::Macro => "macro",
            Token::Plus => "+",
            Token::Minus => "-",
            Token::Star => "*",
            Token::Ampersand => "&",
            Token::Slash => "/",
            Token::Percent => "%",
            Token::Eq => "=",
            Token::EqEq => "==",
            Token::Ne => "!=",
            Token::Not => "!",
            Token::Lt => "<",
            Token::Gt => ">",
            Token::Le => "<=",
            Token::Ge => ">=",
            Token::AndAnd => "&&",
            Token::OrOr => "||",
            Token::LeftParen => "(",
            Token::RightParen => ")",
            Token::LeftBrace => "{",
            Token::RightBrace => "}",
            Token::LeftBracket => "[",
            Token::RightBracket => "]",
            Token::Semicolon => ";",
            Token::Comma => ",",
            Token::Colon => ":",
            Token::Dot => ".",
            Token::DotDot => "..",
            Token::Arrow => "->",
            Token::DoubleColon => "::",
            Token::Underscore => "_",
            Token::FatArrow => "=>",
            Token::SingleQuote => "'",
            Token::Question => "?",
            Token::Hash => "#",
            Token::HashBang => "#!",
            Token::Dollar => "$",
            Token::Pipe => "|",
            _ => {
                proof {
                    reveal_strlit("");
                }
                ""
            },
        }
    }

    /// How the token is named to a reader: `'fn'`, `identifier 'x'`,
    /// `integer 42`, `EOF`.
    pub fn to_string(&self) -> (r: String)
        ensures
            r@ == token_text(*self),
    {
        match self {
            Token::String(s) => {
                let mut out = string_of("string \"");
                push_str(&mut out, s.as_str());
                push_str(&mut out, "\"");
                out
            },
            Token::Integer(n) => {
                let mut out = string_of("integer ");
                push_i64(&mut out, *n);
                out
            },
            Token::Float(x) => {
                let mut out = string_of("float ");
                push_str(&mut out, x.as_str());
                out
            },
            Token::Char(c) => {
                let mut out = string_of("char '");
                push_char(&mut out, *c);
                push_str(&mut out, "'");
                proof {
                    assert(out@ =~= "char '"@ + seq![*c] + "'"@);
                }
                out
            },
            Token::Identifier(name) => {
                let mut out = string_of("identifier '");
                push_str(&mut out, name.as_str());
                push_str(&mut out, "'");
                out
            },
            Token::SingleQuote => string_of("'"),
            Token::Eof => string_of("EOF"),
            _ => {
                let mut out = string_of("'");
                push_str(&mut out, self.spelling());
                push_str(&mut out, "'");
                out
            },
        }
    }
}

} // verus!
