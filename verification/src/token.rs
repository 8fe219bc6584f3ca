use vstd::prelude::*;

verus! {

/// A primitive syntax token.
///
/// Operator and punctuation kinds carry no payload; `Number` and `Ident`
/// carry the exact source substring; `EOF` is a sentinel emitted once the
/// input is exhausted and on every call thereafter.
#[derive(Debug)]
pub enum Token {
    // Assignment, equality and comparison operators.
    Eq,
    Neq,
    Eqq,
    Greater,
    Less,
    Geq,
    Leq,
    // Binary operators.
    Plus,
    Minus,
    Times,
    Div,
    // Unary operators.
    Bang,
    // Grouping and punctuation.
    LParen,
    RParen,
    Comma,
    Semicolon,
    LBrace,
    RBrace,
    // Keywords.
    If,
    Else,
    True,
    False,
    Var,
    Fun,
    For,
    While,
    Or,
    And,
    Return,
    Wagmi,
    // Literals and identifiers.
    Number(String),
    Ident(String),
    EOF,
}

/// The mathematical value of a [`Token`]: the same tag, with text payloads
/// abstracted to character sequences.
pub enum SpecToken {
    Eq,
    Neq,
    Eqq,
    Greater,
    Less,
    Geq,
    Leq,
    Plus,
    Minus,
    Times,
    Div,
    Bang,
    LParen,
    RParen,
    Comma,
    Semicolon,
    LBrace,
    RBrace,
    If,
    Else,
    True,
    False,
    Var,
    Fun,
    For,
    While,
    Or,
    And,
    Return,
    Wagmi,
    Number(Seq<char>),
    Ident(Seq<char>),
    EOF,
}

/// The view of a produced token sequence.
pub open spec fn toks_view(v: Seq<Token>) -> Seq<SpecToken> {
    v.map_values(|t: Token| t@)
}


/// Appending one token appends its value to the sequence view.
pub proof fn lemma_toks_view_push(v: Seq<Token>, t: Token)
    ensures
        toks_view(v.push(t)) == toks_view(v).push(t@),
{
    assert(toks_view(v.push(t)) =~= toks_view(v).push(t@));
}

impl View for Token {
    type V = SpecToken;

    open spec fn view(&self) -> SpecToken {
        match self {
            Token::Eq => SpecToken::Eq,
            Token::Neq => SpecToken::Neq,
            Token::Eqq => SpecToken::Eqq,
            Token::Greater => SpecToken::Greater,
            Token::Less => SpecToken::Less,
            Token::Geq => SpecToken::Geq,
            Token::Leq => SpecToken::Leq,
            Token::Plus => SpecToken::Plus,
            Token::Minus => SpecToken::Minus,
            Token::Times => SpecToken::Times,
            Token::Div => SpecToken::Div,
            Token::Bang => SpecToken::Bang,
            Token::LParen => SpecToken::LParen,
            Token::RParen => SpecToken::RParen,
            Token::Comma => SpecToken::Comma,
            Token::Semicolon => SpecToken::Semicolon,
            Token::LBrace => SpecToken::LBrace,
            Token::RBrace => SpecToken::RBrace,
            Token::If => SpecToken::If,
            Token::Else => SpecToken::Else,
            Token::True => SpecToken::True,
            Token::False => SpecToken::False,
            Token::Var => SpecToken::Var,
            Token::Fun => SpecToken::Fun,
            Token::For => SpecToken::For,
            Token::While => SpecToken::While,
            Token::Or => SpecToken::Or,
            Token::And => SpecToken::And,
            Token::Return => SpecToken::Return,
            Token::Wagmi => SpecToken::Wagmi,
            Token::Number(s) => SpecToken::Number(s@),
            Token::Ident(s) => SpecToken::Ident(s@),
            Token::EOF => SpecToken::EOF,
        }
    }
}

impl Clone for Token {
    /// A clone denotes the same token: it has the same view.
    fn clone(&self) -> (r: Token)
        ensures
            r@ == self@,
    {
        match self {
            Token::Eq => Token::Eq,
            Token::Neq => Token::Neq,
            Token::Eqq => Token::Eqq,
            Token::Greater => Token::Greater,
            Token::Less => Token::Less,
            Token::Geq => Token::Geq,
            Token::Leq => Token::Leq,
            Token::Plus => Token::Plus,
            Token::Minus => Token::Minus,
            Token::Times => Token::Times,
            Token::Div => Token::Div,
            Token::Bang => Token::Bang,
            Token::LParen => Token::LParen,
            Token::RParen => Token::RParen,
            Token::Comma => Token::Comma,
            Token::Semicolon => Token::Semicolon,
            Token::LBrace => Token::LBrace,
            Token::RBrace => Token::RBrace,
            Token::If => Token::If,
            Token::Else => Token::Else,
            Token::True => Token::True,
            Token::False => Token::False,
            Token::Var => Token::Var,
            Token::Fun => Token::Fun,
            Token::For => Token::For,
            Token::While => Token::While,
            Token::Or => Token::Or,
            Token::And => Token::And,
            Token::Return => Token::Return,
            Token::Wagmi => Token::Wagmi,
            Token::Number(s) => Token::Number(s.clone()),
            Token::Ident(s) => Token::Ident(s.clone()),
            Token::EOF => Token::EOF,
        }
    }
}

impl PartialEq for Token {
    /// Two tokens are equal when they have the same tag and, for `Number`
    /// and `Ident`, the same payload text.
    #[verifier::rlimit(100)]
    fn eq(&self, other: &Token) -> (r: bool)
        ensures
            r == (self@ == other@),
    {
        match (self, other) {
            (Token::Eq, Token::Eq) => true,
            (Token::Neq, Token::Neq) => true,
            (Token::Eqq, Token::Eqq) => true,
            (Token::Greater, Token::Greater) => true,
            (Token::Less, Token::Less) => true,
            (Token::Geq, Token::Geq) => true,
            (Token::Leq, Token::Leq) => true,
            (Token::Plus, Token::Plus) => true,
            (Token::Minus, Token::Minus) => true,
            (Token::Times, Token::Times) => true,
            (Token::Div, Token::Div) => true,
            (Token::Bang, Token::Bang) => true,
            (Token::LParen, Token::LParen) => true,
            (Token::RParen, Token::RParen) => true,
            (Token::Comma, Token::Comma) => true,
            (Token::Semicolon, Token::Semicolon) => true,
            (Token::LBrace, Token::LBrace) => true,
            (Token::RBrace, Token::RBrace) => true,
            (Token::If, Token::If) => true,
            (Token::Else, Token::Else) => true,
            (Token::True, Token::True) => true,
            (Token::False, Token::False) => true,
            (Token::Var, Token::Var) => true,
            (Token::Fun, Token::Fun) => true,
            (Token::For, Token::For) => true,
            (Token::While, Token::While) => true,
            (Token::Or, Token::Or) => true,
            (Token::And, Token::And) => true,
            (Token::Return, Token::Return) => true,
            (Token::Wagmi, Token::Wagmi) => true,
            (Token::Number(a), Token::Number(b)) => a.eq(b),
            (Token::Ident(a), Token::Ident(b)) => a.eq(b),
            (Token::EOF, Token::EOF) => true,
            _ => false,
        }
    }
}

impl vstd::std_specs::cmp::PartialEqSpecImpl for Token {
    open spec fn obeys_eq_spec() -> bool {
        true
    }

    open spec fn eq_spec(&self, other: &Token) -> bool {
        self@ == other@
    }
}

} // verus!
