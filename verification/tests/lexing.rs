use mai::lexer::{LexingError, TokenLexer};
use mai::token::Token;

fn lex_all(src: &str) -> Vec<Token> {
    TokenLexer::new(src).tokens().expect("input lexes")
}

fn ident(s: &str) -> Token {
    Token::Ident(s.to_string())
}

fn num(s: &str) -> Token {
    Token::Number(s.to_string())
}

#[test]
fn two_character_operators_are_one_token() {
    assert_eq!(lex_all("a == b"), vec![ident("a"), Token::Eqq, ident("b")]);
    assert_eq!(lex_all("a != b"), vec![ident("a"), Token::Neq, ident("b")]);
    assert_eq!(lex_all("a <= b"), vec![ident("a"), Token::Leq, ident("b")]);
    assert_eq!(lex_all("a >= b"), vec![ident("a"), Token::Geq, ident("b")]);
}

#[test]
fn one_character_operators_leave_the_next_character_unconsumed() {
    assert_eq!(lex_all("=a"), vec![Token::Eq, ident("a")]);
    assert_eq!(lex_all("!a"), vec![Token::Bang, ident("a")]);
    assert_eq!(lex_all("<a"), vec![Token::Less, ident("a")]);
    assert_eq!(lex_all(">a"), vec![Token::Greater, ident("a")]);
}

#[test]
fn lexing_twice_yields_identical_tokens() {
    let src = "fun f(x) { return x + 1.5 * y; }";
    assert_eq!(lex_all(src), lex_all(src));
}

#[test]
fn keywords_map_to_dedicated_tokens() {
    assert_eq!(
        lex_all("var if else false true fun for while or and return wagmi variable"),
        vec![
            Token::Var,
            Token::If,
            Token::Else,
            Token::False,
            Token::True,
            Token::Fun,
            Token::For,
            Token::While,
            Token::Or,
            Token::And,
            Token::Return,
            Token::Wagmi,
            ident("variable"),
        ]
    );
}

#[test]
fn numeric_literals_take_digits_and_dots_greedily() {
    assert_eq!(
        lex_all("12 1.5 .5 1.2.3"),
        vec![num("12"), num("1.5"), num(".5"), num("1.2.3")]
    );
}

#[test]
fn unknown_character_stops_token_production() {
    let r = TokenLexer::new("a $ b").tokens();
    assert_eq!(r, Err(LexingError::UnknownToken('$')));
}

#[test]
fn end_of_input_is_signaled_repeatedly() {
    let mut lx = TokenLexer::new("x");
    assert_eq!(lx.lex(), Ok(ident("x")));
    assert_eq!(lx.lex(), Ok(Token::EOF));
    assert_eq!(lx.lex(), Ok(Token::EOF));
}

#[test]
fn function_declaration_token_sequence() {
    assert_eq!(
        lex_all("fun f(x) { return x + 1; }"),
        vec![
            Token::Fun,
            ident("f"),
            Token::LParen,
            ident("x"),
            Token::RParen,
            Token::LBrace,
            Token::Return,
            ident("x"),
            Token::Plus,
            num("1"),
            Token::Semicolon,
            Token::RBrace,
        ]
    );
}

#[test]
fn all_whitespace_code_points_are_skipped() {
    assert_eq!(
        lex_all("a\u{000C}b\u{00A0}c\u{2003}d"),
        vec![ident("a"), ident("b"), ident("c"), ident("d")]
    );
}
