use alan_von_palladium::errors::CompileError;
use alan_von_palladium::lexer::token::{escape_char, escape_spellings, unescape, LexError};
use alan_von_palladium::lexer::{Lexer, Token};

fn all_tokens(source: &str) -> Vec<Token> {
    let mut lexer = Lexer::new(source);
    lexer
        .collect_tokens()
        .unwrap()
        .into_iter()
        .map(|(token, _)| token)
        .collect()
}

#[test]
fn test_hello_world() {
    let source = r#"
        fn main() {
            print("Hello, World!");
        }
        "#;

    let tokens: Vec<Token> = all_tokens(source);

    assert!(!tokens.is_empty());
    assert_eq!(tokens[0], Token::Fn);
    assert_eq!(tokens[1], Token::Identifier("main".to_string()));
}

#[test]
fn test_basic_tokens() {
    let source = "fn main() { }";
    let mut lexer = Lexer::new(source);

    assert_eq!(lexer.next(), Some(Token::Fn));
    assert_eq!(lexer.next(), Some(Token::Identifier("main".to_string())));
    assert_eq!(lexer.next(), Some(Token::LeftParen));
    assert_eq!(lexer.next(), Some(Token::RightParen));
    assert_eq!(lexer.next(), Some(Token::LeftBrace));
    assert_eq!(lexer.next(), Some(Token::RightBrace));
    assert_eq!(lexer.next(), None);
}

#[test]
fn test_string_literal() {
    let source = r#"print("Hello, World!");"#;
    let mut lexer = Lexer::new(source);

    assert_eq!(lexer.next(), Some(Token::Identifier("print".to_string())));
    assert_eq!(lexer.next(), Some(Token::LeftParen));
    assert_eq!(
        lexer.next(),
        Some(Token::String("Hello, World!".to_string()))
    );
    assert_eq!(lexer.next(), Some(Token::RightParen));
    assert_eq!(lexer.next(), Some(Token::Semicolon));
}

#[test]
fn test_comments() {
    let source = r#"
        // This is a comment
        fn main() {
            /* Multi-line
               comment */
            print("Hi");
        }
        "#;
    let mut lexer = Lexer::new(source);

    assert_eq!(lexer.next(), Some(Token::Fn));
    assert_eq!(lexer.next(), Some(Token::Identifier("main".to_string())));
}

#[test]
fn test_position_tracking() {
    let source = "fn\nmain";
    let mut lexer = Lexer::new(source);

    let (token1, span1) = lexer.next_token().unwrap().unwrap();
    assert_eq!(token1, Token::Fn);
    assert_eq!(span1.line, 1);

    let (token2, span2) = lexer.next_token().unwrap().unwrap();
    assert_eq!(token2, Token::Identifier("main".to_string()));
    assert_eq!(span2.line, 2);
}

#[test]
fn test_string_lexing() {
    let mut lex = Lexer::new(r#""Hello, World!""#);
    assert_eq!(lex.next(), Some(Token::String("Hello, World!".to_string())));
}

#[test]
fn test_escaped_string() {
    let mut lex = Lexer::new(r#""Hello\nWorld\t!""#);
    assert_eq!(lex.next(), Some(Token::String("Hello\nWorld\t!".to_string())));
}

#[test]
fn test_integer() {
    let mut lex = Lexer::new("42 -17");
    assert_eq!(lex.next(), Some(Token::Integer(42)));
    assert_eq!(lex.next(), Some(Token::Integer(-17)));
}

#[test]
fn test_identifiers_and_keywords() {
    let mut lex = Lexer::new("fn main print");
    assert_eq!(lex.next(), Some(Token::Fn));
    assert_eq!(lex.next(), Some(Token::Identifier("main".to_string())));
    assert_eq!(lex.next(), Some(Token::Identifier("print".to_string())));
}

#[test]
fn test_loop_keywords() {
    let mut lex = Lexer::new("for in while break continue");
    assert_eq!(lex.next(), Some(Token::For));
    assert_eq!(lex.next(), Some(Token::In));
    assert_eq!(lex.next(), Some(Token::While));
    assert_eq!(lex.next(), Some(Token::Break));
    assert_eq!(lex.next(), Some(Token::Continue));
}

#[test]
fn test_struct_and_dot() {
    let mut lex = Lexer::new("struct Point { x: i32 } p.x");
    assert_eq!(lex.next(), Some(Token::Struct));
    assert_eq!(lex.next(), Some(Token::Identifier("Point".to_string())));
    assert_eq!(lex.next(), Some(Token::LeftBrace));
    assert_eq!(lex.next(), Some(Token::Identifier("x".to_string())));
    assert_eq!(lex.next(), Some(Token::Colon));
    assert_eq!(lex.next(), Some(Token::Identifier("i32".to_string())));
    assert_eq!(lex.next(), Some(Token::RightBrace));
    assert_eq!(lex.next(), Some(Token::Identifier("p".to_string())));
    assert_eq!(lex.next(), Some(Token::Dot));
    assert_eq!(lex.next(), Some(Token::Identifier("x".to_string())));
}

#[test]
fn test_enum_keywords() {
    let mut lex = Lexer::new("enum match Color::Red");
    assert_eq!(lex.next(), Some(Token::Enum));
    assert_eq!(lex.next(), Some(Token::Match));
    assert_eq!(lex.next(), Some(Token::Identifier("Color".to_string())));
    assert_eq!(lex.next(), Some(Token::DoubleColon));
    assert_eq!(lex.next(), Some(Token::Identifier("Red".to_string())));
}

#[test]
fn test_unsafe_keyword() {
    let mut lex = Lexer::new("unsafe { }");
    assert_eq!(lex.next(), Some(Token::Unsafe));
    assert_eq!(lex.next(), Some(Token::LeftBrace));
    assert_eq!(lex.next(), Some(Token::RightBrace));
}

#[test]
fn nested_block_comments_close_at_depth_zero() {
    assert_eq!(
        all_tokens("/* a /* b */ c */ x"),
        vec![Token::Identifier("x".to_string())]
    );
}

#[test]
fn an_unclosed_block_comment_is_an_error_at_its_opening() {
    let mut lexer = Lexer::new("x /* never closed");
    assert_eq!(lexer.next(), Some(Token::Identifier("x".to_string())));
    match lexer.next_token() {
        Err(CompileError::SyntaxError { message, span }) => {
            assert!(message.contains("Unterminated block comment"), "{}", message);
            let span = span.unwrap();
            assert_eq!((span.start, span.end, span.line, span.column), (2, 4, 1, 3));
        }
        other => panic!("expected an unterminated comment, got {:?}", other),
    }
}

#[test]
fn a_range_between_integers_is_not_a_float() {
    assert_eq!(
        all_tokens("1..5 2.5 -0.25"),
        vec![
            Token::Integer(1),
            Token::DotDot,
            Token::Integer(5),
            Token::Float("2.5".to_string()),
            Token::Float("-0.25".to_string()),
        ]
    );
}

#[test]
fn the_sign_belongs_to_the_number() {
    assert_eq!(
        all_tokens("x-1 x - 1 a->b"),
        vec![
            Token::Identifier("x".to_string()),
            Token::Integer(-1),
            Token::Identifier("x".to_string()),
            Token::Minus,
            Token::Integer(1),
            Token::Identifier("a".to_string()),
            Token::Arrow,
            Token::Identifier("b".to_string()),
        ]
    );
}

#[test]
fn char_literals_and_lifetime_ticks() {
    assert_eq!(
        all_tokens(r"'a' '\n' '\'' <'a>"),
        vec![
            Token::Char('a'),
            Token::Char('\n'),
            Token::Char('\''),
            Token::Lt,
            Token::SingleQuote,
            Token::Identifier("a".to_string()),
            Token::Gt,
        ]
    );
}

#[test]
fn longest_operators_win() {
    assert_eq!(
        all_tokens("== = => != ! <= < >= > && & || | :: : # #! $ ? _ _x"),
        vec![
            Token::EqEq,
            Token::Eq,
            Token::FatArrow,
            Token::Ne,
            Token::Not,
            Token::Le,
            Token::Lt,
            Token::Ge,
            Token::Gt,
            Token::AndAnd,
            Token::Ampersand,
            Token::OrOr,
            Token::Pipe,
            Token::DoubleColon,
            Token::Colon,
            Token::Hash,
            Token::HashBang,
            Token::Dollar,
            Token::Question,
            Token::Underscore,
            Token::Identifier("_x".to_string()),
        ]
    );
}

#[test]
fn an_unknown_escape_is_refused_not_passed_through() {
    assert_eq!(unescape(r"a\qb"), Err(LexError::UnknownEscape('q')));
    let mut lexer = Lexer::new(r#"  "bad \q""#);
    match lexer.next_token() {
        Err(CompileError::SyntaxError { message, span }) => {
            assert!(message.contains("'\\q'"), "{}", message);
            assert!(message.contains(r#"\n, \t, \r, \", \\, \0, \'"#), "{}", message);
            let span = span.unwrap();
            assert_eq!((span.start, span.end), (2, 10));
        }
        other => panic!("expected an unknown escape, got {:?}", other),
    }
}

#[test]
fn the_escape_table() {
    assert_eq!(escape_char('0'), Some('\0'));
    assert_eq!(escape_char('"'), Some('"'));
    assert_eq!(escape_char('q'), None);
    assert_eq!(
        escape_spellings(),
        vec!["\\n", "\\t", "\\r", "\\\"", "\\\\", "\\0", "\\'"]
    );
    assert_eq!(unescape(r#"null\0terminator"#), Ok("null\0terminator".to_string()));
}

#[test]
fn an_unexpected_character_is_reported_with_its_own_width() {
    let mut lexer = Lexer::new("é\n  €");
    let err = lexer.next_token().unwrap_err();
    assert_eq!(err.to_string(), "Unexpected character 'é' at line 1, column 1");
    let mut lexer = Lexer::new("é\n  € x");
    let _ = lexer.next_token();
    match lexer.next_token() {
        Err(CompileError::UnexpectedChar { ch, line, col, span }) => {
            assert_eq!((ch, line, col), ('€', 2, 3));
            let span = span.unwrap();
            assert_eq!((span.start, span.end), (5, 8));
        }
        other => panic!("expected an unexpected character, got {:?}", other),
    }
    assert_eq!(lexer.next(), Some(Token::Identifier("x".to_string())));
}

#[test]
fn spans_are_byte_offsets_and_columns_are_characters() {
    let mut lexer = Lexer::new("// é\n  \"한\" x");
    let (token, span) = lexer.next_token().unwrap().unwrap();
    assert_eq!(token, Token::String("한".to_string()));
    assert_eq!((span.start, span.end, span.line, span.column), (8, 13, 2, 3));
    let (token, span) = lexer.next_token().unwrap().unwrap();
    assert_eq!(token, Token::Identifier("x".to_string()));
    assert_eq!((span.start, span.end, span.line, span.column), (14, 15, 2, 7));
    assert!(lexer.next_token().unwrap().is_none());
}

#[test]
fn an_integer_out_of_range_is_not_a_token() {
    let mut lexer = Lexer::new("9223372036854775807 -9223372036854775808 9223372036854775808");
    assert_eq!(lexer.next(), Some(Token::Integer(i64::MAX)));
    assert_eq!(lexer.next(), Some(Token::Integer(i64::MIN)));
    assert!(matches!(
        lexer.next_token(),
        Err(CompileError::UnexpectedChar { ch: '9', .. })
    ));
}

#[test]
fn peek_does_not_consume() {
    let mut lexer = Lexer::new("let x");
    assert_eq!(lexer.peek().unwrap(), Some(Token::Let));
    assert_eq!(lexer.next(), Some(Token::Let));
    assert_eq!(lexer.peek().unwrap(), Some(Token::Identifier("x".to_string())));
    assert_eq!(lexer.next(), Some(Token::Identifier("x".to_string())));
    assert_eq!(lexer.peek().unwrap(), None);
}

#[test]
fn a_carriage_return_is_not_white_space() {
    let mut lexer = Lexer::new("a\r\nb");
    assert_eq!(lexer.next(), Some(Token::Identifier("a".to_string())));
    assert!(matches!(
        lexer.next_token(),
        Err(CompileError::UnexpectedChar { ch: '\r', .. })
    ));
}

#[test]
fn tokens_describe_themselves() {
    assert_eq!(Token::Fn.to_string(), "'fn'");
    assert_eq!(Token::LeftBrace.to_string(), "'{'");
    assert_eq!(Token::SingleQuote.to_string(), "'");
    assert_eq!(Token::Eof.to_string(), "EOF");
    assert_eq!(Token::Integer(-7).to_string(), "integer -7");
    assert_eq!(Token::Char('q').to_string(), "char 'q'");
    assert_eq!(Token::String("hi".to_string()).to_string(), "string \"hi\"");
    assert_eq!(Token::Identifier("x".to_string()).to_string(), "identifier 'x'");
    assert!(Token::Minus.can_start_expr());
    assert!(!Token::Let.can_start_expr());
    assert!(Token::Let.can_start_stmt());
    assert!(Token::Integer(1).can_start_stmt());
    assert!(!Token::Else.can_start_stmt());
}
