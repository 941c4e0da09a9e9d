use std::rc::Rc;

use compiler::error::Error;
use compiler::lexer::{keyword_of, operator, punctuation, Lexer, Token, TokenType};
use compiler::span::Str;

fn lexer(source: &str) -> Lexer {
    Lexer::new(Rc::from(source))
}

fn tokens(source: &str) -> Vec<Token> {
    let mut lex = lexer(source);
    let mut out = Vec::new();
    while let Some(tok) = lex.next_token().unwrap() {
        out.push(tok);
    }
    out
}

fn kinds(source: &str) -> Vec<TokenType> {
    tokens(source).iter().map(|t| t.kind).collect()
}

fn first_error(source: &str) -> Error {
    let mut lex = lexer(source);
    loop {
        match lex.next_token() {
            Ok(Some(_)) => {}
            Ok(None) => panic!("no error in {source:?}"),
            Err(e) => return e,
        }
    }
}

#[test]
fn brackets_and_punctuation() {
    assert_eq!(
        kinds("( ) [ ] { } : ; @ # ,"),
        vec![
            TokenType::LeftParen,
            TokenType::RightParen,
            TokenType::LeftBracket,
            TokenType::RightBracket,
            TokenType::LeftBrace,
            TokenType::RightBrace,
            TokenType::Colon,
            TokenType::Semicolon,
            TokenType::At,
            TokenType::Hashtag,
            TokenType::Comma,
        ]
    );
}

#[test]
fn single_operators() {
    assert_eq!(
        kinds("! & | ^ + - * / % = < >"),
        vec![
            TokenType::Bang,
            TokenType::And,
            TokenType::Pipe,
            TokenType::Caret,
            TokenType::Plus,
            TokenType::Minus,
            TokenType::Star,
            TokenType::Slash,
            TokenType::Percent,
            TokenType::Equal,
            TokenType::Less,
            TokenType::Greater,
        ]
    );
}

#[test]
fn compound_operators() {
    assert_eq!(
        kinds("!= &= |= ^= += -= *= /= %= == <= >= << >> ->"),
        vec![
            TokenType::BangEqual,
            TokenType::AndEqual,
            TokenType::PipeEqual,
            TokenType::CaretEqual,
            TokenType::PlusEqual,
            TokenType::MinusEqual,
            TokenType::StarEqual,
            TokenType::SlashEqual,
            TokenType::PercentEqual,
            TokenType::EqualEqual,
            TokenType::LessEqual,
            TokenType::GreaterEqual,
            TokenType::LessLess,
            TokenType::GreaterGreater,
            TokenType::Arrow,
        ]
    );
}

#[test]
fn compound_operators_are_greedy_once() {
    assert_eq!(
        kinds("<<= ==="),
        vec![
            TokenType::LessLess,
            TokenType::Equal,
            TokenType::EqualEqual,
            TokenType::Equal
        ]
    );
    assert_eq!(tokens("a<=b")[1], Token::new(TokenType::LessEqual, Str(1, 2)));
}

#[test]
fn dots() {
    assert_eq!(
        kinds(". .. ... ...."),
        vec![
            TokenType::Dot,
            TokenType::DotDot,
            TokenType::DotDotDot,
            TokenType::DotDotDot,
            TokenType::Dot,
        ]
    );
    assert_eq!(kinds("a.b"), vec![TokenType::Identifier, TokenType::Dot, TokenType::Identifier]);
    assert_eq!(tokens("."), vec![Token::new(TokenType::Dot, Str(0, 1))]);
    assert_eq!(tokens(".."), vec![Token::new(TokenType::DotDot, Str(0, 2))]);
    assert_eq!(tokens("..."), vec![Token::new(TokenType::DotDotDot, Str(0, 3))]);
}

#[test]
fn numbers() {
    assert_eq!(tokens("1"), vec![Token::new(TokenType::Integer, Str(0, 1))]);
    assert_eq!(tokens("1234 "), vec![Token::new(TokenType::Integer, Str(0, 4))]);
    assert_eq!(tokens("12.5"), vec![Token::new(TokenType::Float, Str(0, 4))]);
    assert_eq!(tokens(".5"), vec![Token::new(TokenType::Float, Str(0, 2))]);
    assert_eq!(tokens("7."), vec![Token::new(TokenType::Float, Str(0, 2))]);
    assert_eq!(
        tokens("1.a"),
        vec![
            Token::new(TokenType::Float, Str(0, 2)),
            Token::new(TokenType::Identifier, Str(2, 1))
        ]
    );
    assert_eq!(
        tokens("12ab"),
        vec![
            Token::new(TokenType::Integer, Str(0, 2)),
            Token::new(TokenType::Identifier, Str(2, 2))
        ]
    );
}

#[test]
fn malformed_float() {
    assert_eq!(first_error("1.2.3"), Error::InvalidFloat(Str(0, 4)));
    assert_eq!(first_error("  .5."), Error::InvalidFloat(Str(2, 3)));
    assert_eq!(first_error("x = 0..5"), Error::InvalidFloat(Str(4, 3)));
}

#[test]
fn strings() {
    assert_eq!(tokens("\"\""), vec![Token::new(TokenType::String, Str(0, 2))]);
    assert_eq!(tokens(" \"abc\" "), vec![Token::new(TokenType::String, Str(1, 5))]);
    assert_eq!(
        tokens(r#""a\"b\\c\n\t\r""#),
        vec![Token::new(TokenType::String, Str(0, 15))]
    );
    assert_eq!(tokens(r#""\x4F\xaf""#), vec![Token::new(TokenType::String, Str(0, 10))]);
    assert_eq!(tokens("\"h\u{e9}llo \u{1f600}\""), vec![Token::new(TokenType::String, Str(0, 13))]);
    assert_eq!(
        tokens("\"a\nb\" x"),
        vec![
            Token::new(TokenType::String, Str(0, 5)),
            Token::new(TokenType::Identifier, Str(6, 1))
        ]
    );
}

#[test]
fn unterminated_string() {
    assert_eq!(first_error("\"abc"), Error::UnexpectedEof);
    assert_eq!(first_error("\"abc\\"), Error::UnexpectedEof);
    assert_eq!(first_error("\"abc\\x"), Error::UnexpectedEof);
    assert_eq!(first_error("\"abc\\x1"), Error::UnexpectedEof);
    assert_eq!(first_error("\"abc\\\""), Error::UnexpectedEof);
}

#[test]
fn bad_escape() {
    assert_eq!(first_error("\"\\q\""), Error::InvalidEscapeSequence(Str(1, 1)));
    assert_eq!(first_error("x \"ab\\xg0\""), Error::InvalidEscapeSequence(Str(5, 3)));
    assert_eq!(first_error("\"\\x0g\""), Error::InvalidEscapeSequence(Str(1, 4)));
    assert_eq!(first_error("\"\\x\u{e9}\""), Error::InvalidEscapeSequence(Str(1, 4)));
    assert_eq!(first_error("\"\\xa\u{1f600}\""), Error::InvalidEscapeSequence(Str(1, 7)));
}

#[test]
fn invalid_token() {
    assert_eq!(first_error("$"), Error::InvalidToken(Str(0, 1)));
    assert_eq!(first_error("a ~ b"), Error::InvalidToken(Str(2, 1)));
    assert_eq!(first_error("a \u{e9}"), Error::InvalidToken(Str(2, 2)));
    assert_eq!(first_error("\u{20ac}"), Error::InvalidToken(Str(0, 3)));
    assert_eq!(first_error("\u{1f600}"), Error::InvalidToken(Str(0, 4)));
    assert_eq!(first_error("'a'"), Error::InvalidToken(Str(0, 1)));
}

#[test]
fn keywords_and_identifiers() {
    assert_eq!(
        kinds(
            "module import trait struct enum impl fun const var if else elseif for while in \
             return continue break and or"
        ),
        vec![
            TokenType::KwModule,
            TokenType::KwImport,
            TokenType::KwTrait,
            TokenType::KwStruct,
            TokenType::KwEnum,
            TokenType::KwImpl,
            TokenType::KwFun,
            TokenType::KwConst,
            TokenType::KwVar,
            TokenType::KwIf,
            TokenType::KwElse,
            TokenType::KwElseif,
            TokenType::KwFor,
            TokenType::KwWhile,
            TokenType::KwIn,
            TokenType::KwReturn,
            TokenType::KwContinue,
            TokenType::KwBreak,
            TokenType::KwAnd,
            TokenType::KwOr,
        ]
    );
    assert_eq!(
        kinds("modules Module _ _x x1 iff pub self Self elseif_"),
        vec![TokenType::Identifier; 10]
    );
    assert_eq!(tokens("  foo_1 "), vec![Token::new(TokenType::Identifier, Str(2, 5))]);
    // A word ends before the first character that is not ASCII.
    let mut lex = lexer("caf\u{e9}");
    assert_eq!(lex.next_token(), Ok(Some(Token::new(TokenType::Identifier, Str(0, 3)))));
    assert_eq!(lex.next_token(), Err(Error::InvalidToken(Str(3, 2))));
}

#[test]
fn keyword_table() {
    assert_eq!(keyword_of(b"xx while yy", 3, 8), Some(TokenType::KwWhile));
    assert_eq!(keyword_of(b"xx while yy", 3, 7), None);
    assert_eq!(keyword_of(b"xx while yy", 2, 8), None);
    assert_eq!(keyword_of(b"in", 0, 2), Some(TokenType::KwIn));
    assert_eq!(keyword_of(b"in", 0, 0), None);
    assert_eq!(keyword_of(b"pub", 0, 3), None);
}

#[test]
fn character_tables() {
    assert_eq!(punctuation('{'), Some(TokenType::LeftBrace));
    assert_eq!(punctuation('.'), None);
    assert_eq!(operator('-', Some('>')), Some((TokenType::Arrow, true)));
    assert_eq!(operator('-', Some('=')), Some((TokenType::MinusEqual, true)));
    assert_eq!(operator('-', Some('-')), Some((TokenType::Minus, false)));
    assert_eq!(operator('-', None), Some((TokenType::Minus, false)));
    assert_eq!(operator('>', Some('=')), Some((TokenType::GreaterEqual, true)));
    assert_eq!(operator('+', Some('>')), Some((TokenType::Plus, false)));
    assert_eq!(operator('a', Some('=')), None);
}

#[test]
fn comments_and_whitespace_yield_no_token() {
    assert_eq!(tokens(""), vec![]);
    assert_eq!(tokens("  \t\r\n "), vec![]);
    assert_eq!(tokens("// only a comment"), vec![]);
    assert_eq!(tokens("// one\n// two\n"), vec![]);
    assert_eq!(
        tokens("a // b\n c"),
        vec![
            Token::new(TokenType::Identifier, Str(0, 1)),
            Token::new(TokenType::Identifier, Str(8, 1))
        ]
    );
    assert_eq!(
        tokens("a / b /= c"),
        vec![
            Token::new(TokenType::Identifier, Str(0, 1)),
            Token::new(TokenType::Slash, Str(2, 1)),
            Token::new(TokenType::Identifier, Str(4, 1)),
            Token::new(TokenType::SlashEqual, Str(6, 2)),
            Token::new(TokenType::Identifier, Str(9, 1)),
        ]
    );
    assert_eq!(
        tokens("\u{a0}\u{2003}x\u{3000}// \u{e9}\n"),
        vec![Token::new(TokenType::Identifier, Str(5, 1))]
    );
}

#[test]
fn literal_spans_resolve_to_their_text() {
    let source = "x = 42 + 3.25 * \"q\\\"uote\" - name_2;";
    let lex = lexer(source);
    let texts: Vec<&str> = tokens(source)
        .iter()
        .filter(|t| {
            matches!(
                t.kind,
                TokenType::Integer | TokenType::Float | TokenType::String | TokenType::Identifier
            )
        })
        .map(|t| {
            assert!(lex.covers(t.slice));
            lex.slice(t.slice)
        })
        .collect();
    assert_eq!(texts, vec!["x", "42", "3.25", "\"q\\\"uote\"", "name_2"]);
}

#[test]
fn every_token_span_resolves_to_its_text() {
    let source = "fun f(*const T x) -> a.b { return x[0] <= .5 and !y; } // done";
    let lex = lexer(source);
    let texts: Vec<&str> = tokens(source).iter().map(|t| lex.slice(t.slice)).collect();
    assert_eq!(
        texts,
        vec![
            "fun", "f", "(", "*", "const", "T", "x", ")", "->", "a", ".", "b", "{", "return", "x",
            "[", "0", "]", "<=", ".5", "and", "!", "y", ";", "}"
        ]
    );
}

#[test]
fn sources_that_fit() {
    assert!(Lexer::fits(""));
    assert!(Lexer::fits("module a;"));
    assert!(Lexer::fits(&"x".repeat(70_000)));
}

#[test]
fn cursor_primitives() {
    let mut lex = lexer("a\u{e9} b");
    assert!(lex.has_next());
    assert_eq!(lex.peek(), Ok('a'));
    assert_eq!(lex.peek(), Ok('a'));
    assert_eq!(lex.next(), Ok('a'));
    assert!(!lex.maybe('x'));
    assert_eq!(lex.peek(), Ok('\u{e9}'));
    assert!(lex.maybe('\u{e9}'));
    lex.skip_whitespace();
    assert_eq!(lex.peek(), Ok('b'));
    lex.skip_whitespace();
    assert_eq!(lex.peek(), Ok('b'));
    lex.eat();
    assert!(!lex.has_next());
    assert_eq!(lex.peek(), Err(Error::UnexpectedEof));
    assert_eq!(lex.next(), Err(Error::UnexpectedEof));
    assert!(!lex.maybe('b'));
    lex.skip_whitespace();
    assert_eq!(lex.next_token(), Ok(None));
    assert_eq!(lex.next_token(), Ok(None));
}

#[test]
fn spans_and_the_buffer() {
    let lex = lexer("a\u{e9}b");
    assert!(lex.covers(Str(0, 0)));
    assert!(lex.covers(Str(0, 1)));
    assert!(lex.covers(Str(1, 2)));
    assert!(lex.covers(Str(0, 4)));
    assert!(lex.covers(Str(4, 0)));
    assert!(!lex.covers(Str(0, 2)));
    assert!(!lex.covers(Str(2, 1)));
    assert!(!lex.covers(Str(0, 5)));
    assert!(!lex.covers(Str(5, 0)));
    assert!(!lex.covers(Str(u32::MAX, u32::MAX)));
    assert_eq!(lex.slice(Str(1, 2)), "\u{e9}");
    assert_eq!(lex.slice(Str(0, 4)), "a\u{e9}b");
    assert_eq!(lex.slice(Str(4, 0)), "");
}

#[test]
fn error_text() {
    let source = "x = \"ab\\q\"";
    let lex = lexer(source);
    let err = first_error(source);
    assert_eq!(err, Error::InvalidEscapeSequence(Str(7, 1)));
    assert_eq!(err.slice(&lex), Some("\\"));
    assert_eq!(Error::UnexpectedEof.slice(&lex), None);
    assert_eq!(Error::UnexpectedExpression.slice(&lex), None);
    assert_eq!(Error::UnexpectedToken(Str(0, 1)).slice(&lex), Some("x"));
    assert_eq!(Error::InvalidFloat(Str(2, 1)).slice(&lex), Some("="));
    assert_eq!(Error::InvalidToken(Str(4, 3)).slice(&lex), Some("\"ab"));
    assert_eq!(Error::InvalidUnaryExpression(Str(0, 0)).slice(&lex), Some(""));
}

#[test]
fn operator_classes() {
    for kind in [
        TokenType::Bang,
        TokenType::And,
        TokenType::Plus,
        TokenType::Minus,
        TokenType::Star,
    ] {
        assert!(kind.is_unary_op());
    }
    for kind in [TokenType::Pipe, TokenType::Caret, TokenType::Slash, TokenType::KwAnd] {
        assert!(!kind.is_unary_op());
    }
    let ranked = [
        (TokenType::KwOr, 1),
        (TokenType::KwAnd, 2),
        (TokenType::Pipe, 3),
        (TokenType::Caret, 4),
        (TokenType::And, 5),
        (TokenType::EqualEqual, 6),
        (TokenType::BangEqual, 6),
        (TokenType::Less, 7),
        (TokenType::Greater, 7),
        (TokenType::LessEqual, 7),
        (TokenType::GreaterEqual, 7),
        (TokenType::LessLess, 8),
        (TokenType::GreaterGreater, 8),
        (TokenType::Plus, 9),
        (TokenType::Minus, 9),
        (TokenType::Star, 10),
        (TokenType::Slash, 10),
        (TokenType::Percent, 10),
    ];
    for (kind, level) in ranked {
        assert!(kind.is_binary_op());
        assert_eq!(kind.precedence(), level);
    }
    assert_eq!(ranked.len(), 18);
    for kind in [TokenType::Equal, TokenType::PlusEqual, TokenType::Dot, TokenType::Identifier] {
        assert!(!kind.is_binary_op());
    }
}
