use ein::lexer::{is_id_continue, is_id_start, lex, Lexer};
use ein::token::{LexError, Spanned, Token};

fn tokens(source: &str) -> Vec<Token> {
    lex(source).unwrap().into_iter().map(|s| s.token).collect()
}

fn number_value(t: &Token) -> f64 {
    match t {
        Token::Number(text) => text.parse().unwrap(),
        other => panic!("not a number: {:?}", other),
    }
}

fn ident(s: &str) -> Token {
    Token::Identifier(s.to_string())
}

#[test]
fn delimiters() {
    assert_eq!(
        tokens("{} [] ()"),
        vec![
            Token::OpenBrace,
            Token::CloseBrace,
            Token::OpenBracket,
            Token::CloseBracket,
            Token::OpenParen,
            Token::CloseParen,
        ]
    );
}

#[test]
fn delimiters_without_spaces() {
    assert_eq!(
        tokens("{}[]()"),
        vec![
            Token::OpenBrace,
            Token::CloseBrace,
            Token::OpenBracket,
            Token::CloseBracket,
            Token::OpenParen,
            Token::CloseParen,
        ]
    );
}

#[test]
fn operators() {
    assert_eq!(
        tokens(", . + - * / = == ! != > >= < <="),
        vec![
            Token::Comma,
            Token::Dot,
            Token::Plus,
            Token::Minus,
            Token::Star,
            Token::Slash,
            Token::Equal,
            Token::EqualEqual,
            Token::Not,
            Token::NotEqual,
            Token::Greater,
            Token::GreaterEqual,
            Token::Less,
            Token::LessEqual,
        ]
    );
}

#[test]
fn line_comment() {
    let t = tokens("123 // comment\n 123");
    assert_eq!(t.len(), 3);
    assert_eq!(number_value(&t[0]), 123.0);
    assert_eq!(t[1], Token::NewLine);
    assert_eq!(number_value(&t[2]), 123.0);
}

#[test]
fn comment_to_end_of_input() {
    let t = tokens("123 // c");
    assert_eq!(t.len(), 1);
    assert_eq!(number_value(&t[0]), 123.0);
}

#[test]
fn string() {
    assert_eq!(tokens("\"hello, world\""), vec![Token::String("hello, world".to_string())]);
}

#[test]
fn empty_and_unicode_strings() {
    assert_eq!(tokens("\"\""), vec![Token::String(String::new())]);
    let spans = lex("\"é\" x").unwrap();
    assert_eq!(spans[0], Spanned { start: 0, token: Token::String("é".to_string()), end: 4 });
    assert_eq!(spans[1], Spanned { start: 5, token: ident("x"), end: 6 });
}

#[test]
fn unterminated_string() {
    assert_eq!(lex("\"abc"), Err(LexError::UnterminatedString { start: 0 }));
    assert_eq!(lex("1 \"abc"), Err(LexError::UnterminatedString { start: 2 }));
}

#[test]
fn unexpected_character() {
    assert_eq!(lex("1 # 2"), Err(LexError::UnexpectedChar { ch: '#', pos: 2 }));
}

#[test]
fn integer() {
    let t = tokens("123");
    assert_eq!(t.len(), 1);
    assert_eq!(number_value(&t[0]), 123.0);
}

#[test]
fn decimal() {
    let t = tokens("123.45");
    assert_eq!(t.len(), 1);
    assert_eq!(number_value(&t[0]), 123.45);
}

#[test]
fn number_field_access() {
    let t = tokens("123.prop");
    assert_eq!(t.len(), 3);
    assert_eq!(number_value(&t[0]), 123.0);
    assert_eq!(t[1], Token::Dot);
    assert_eq!(t[2], ident("prop"));
}

#[test]
fn number_with_two_dots() {
    let t = tokens("1.5.2");
    assert_eq!(t.len(), 3);
    assert_eq!(number_value(&t[0]), 1.5);
    assert_eq!(t[1], Token::Dot);
    assert_eq!(number_value(&t[2]), 2.0);
}

#[test]
fn trailing_dot() {
    let t = tokens("7.");
    assert_eq!(t.len(), 2);
    assert_eq!(number_value(&t[0]), 7.0);
    assert_eq!(t[1], Token::Dot);
}

#[test]
fn identifiers() {
    assert_eq!(tokens("id"), vec![ident("id")]);
    assert_eq!(tokens("_id"), vec![ident("_id")]);
    assert_eq!(tokens("id123"), vec![ident("id123")]);
}

#[test]
fn keywords() {
    assert_eq!(tokens("and"), vec![Token::And]);
    assert_eq!(tokens("else"), vec![Token::Else]);
    assert_eq!(tokens("false"), vec![Token::False]);
    assert_eq!(tokens("fn"), vec![Token::Fn]);
    assert_eq!(tokens("for"), vec![Token::For]);
    assert_eq!(tokens("if"), vec![Token::If]);
    assert_eq!(tokens("nil"), vec![Token::Nil]);
    assert_eq!(tokens("or"), vec![Token::Or]);
    assert_eq!(tokens("print"), vec![Token::Print]);
    assert_eq!(tokens("return"), vec![Token::Return]);
    assert_eq!(tokens("this"), vec![Token::This]);
    assert_eq!(tokens("true"), vec![Token::True]);
    assert_eq!(tokens("let"), vec![Token::Let]);
    assert_eq!(tokens("while"), vec![Token::While]);
}

#[test]
fn keyword_prefixes_are_identifiers() {
    assert_eq!(tokens("andy"), vec![ident("andy")]);
    assert_eq!(tokens("lets"), vec![ident("lets")]);
    assert_eq!(tokens("whilE"), vec![ident("whilE")]);
}

#[test]
fn spans_are_byte_offsets() {
    let spans = lex("ab >= 12.5\n").unwrap();
    assert_eq!(spans[0], Spanned { start: 0, token: ident("ab"), end: 2 });
    assert_eq!(spans[1], Spanned { start: 3, token: Token::GreaterEqual, end: 5 });
    assert_eq!(spans[2], Spanned { start: 6, token: Token::Number("12.5".to_string()), end: 10 });
    assert_eq!(spans[3], Spanned { start: 10, token: Token::NewLine, end: 11 });
}

#[test]
fn lexing_twice_gives_the_same_tokens() {
    let src = "let x = 1 + 2.5 // sum\nprint x";
    assert_eq!(lex(src), lex(src));
}

#[test]
fn unicode_whitespace_is_skipped() {
    assert_eq!(tokens("1\u{a0}+\u{3000}2").len(), 3);
}

#[test]
fn cursor_yields_tokens_then_none() {
    let mut lexer = Lexer::new("a # b");
    assert_eq!(lexer.next_token(), Some(Ok(Spanned { start: 0, token: ident("a"), end: 1 })));
    assert_eq!(lexer.next_token(), Some(Err(LexError::UnexpectedChar { ch: '#', pos: 2 })));
    assert_eq!(lexer.next_token(), Some(Ok(Spanned { start: 4, token: ident("b"), end: 5 })));
    assert_eq!(lexer.next_token(), None);
    assert_eq!(lexer.next_token(), None);
}

#[test]
fn identifier_character_classes() {
    assert!(is_id_start('_'));
    assert!(is_id_start('q'));
    assert!(is_id_start('Q'));
    assert!(!is_id_start('7'));
    assert!(is_id_continue('7'));
    assert!(is_id_continue('_'));
    assert!(!is_id_continue('q'));
}

#[test]
fn empty_input() {
    assert_eq!(lex(""), Ok(vec![]));
    assert_eq!(lex("  \t "), Ok(vec![]));
}

#[test]
fn comment_between_numbers() {
    let t = tokens("123 // c\n123");
    assert_eq!(t.len(), 3);
    assert_eq!(number_value(&t[0]), 123.0);
    assert_eq!(t[1], Token::NewLine);
    assert_eq!(number_value(&t[2]), 123.0);
}

#[test]
fn white_space_set_edges() {
    assert_eq!(tokens("1\u{85}2\u{2029}3\r4").len(), 4);
    assert_eq!(lex("1\u{200b}2"), Err(LexError::UnexpectedChar { ch: '\u{200b}', pos: 1 }));
    assert_eq!(lex("@"), Err(LexError::UnexpectedChar { ch: '@', pos: 0 }));
}
