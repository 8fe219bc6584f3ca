use vstd::prelude::*;
use vstd::string::StrSliceExecFns;

use crate::token::{toks_view, SpecToken, Token};

verus! {

/// A failure of the lexing stage: an unrecognized character was met.
/// Token production stops at that point; the lexer does not recover.
#[derive(Debug, PartialEq, Eq, Structural)]
pub enum LexingError {
    UnknownToken(char),
}

/// The result of one lexing step.
pub type LexResult = Result<Token, LexingError>;

// ---------------------------------------------------------------------------
// Character classes of the lexical grammar.
// ---------------------------------------------------------------------------

/// Whitespace that the lexer skips silently: the Unicode white-space code
/// points.
pub open spec fn is_ws(c: char) -> bool {
    let u = c as u32;
    ||| (0x9 <= u && u <= 0xD)
    ||| u == 0x20
    ||| u == 0x85
    ||| u == 0xA0
    ||| u == 0x1680
    ||| (0x2000 <= u && u <= 0x200A)
    ||| u == 0x2028
    ||| u == 0x2029
    ||| u == 0x202F
    ||| u == 0x205F
    ||| u == 0x3000
}

/// A decimal digit.
pub open spec fn is_digit(c: char) -> bool {
    '0' <= c && c <= '9'
}

/// A character that may continue a numeric literal: digits and `.` are
/// accepted greedily; well-formedness of the text is checked at lowering.
pub open spec fn is_num_char(c: char) -> bool {
    is_digit(c) || c == '.'
}

/// A character that may start an identifier: `[A-Za-z_]`.
pub open spec fn is_ident_start(c: char) -> bool {
    ('a' <= c && c <= 'z') || ('A' <= c && c <= 'Z') || c == '_'
}

/// A character that may continue an identifier: `[A-Za-z0-9_]`.
pub open spec fn is_ident_cont(c: char) -> bool {
    is_ident_start(c) || is_digit(c)
}

// ---------------------------------------------------------------------------
// The lexical grammar as a mathematical function of the input text.
// ---------------------------------------------------------------------------

/// The first position at or after `i` holding a non-whitespace character,
/// or the end of the input.
pub open spec fn skip_ws(s: Seq<char>, i: int) -> int
    decreases s.len() - i
        when 0 <= i <= s.len()
{
    if i == s.len() || !is_ws(s[i]) {
        i
    } else {
        skip_ws(s, i + 1)
    }
}

/// The first position at or after `i` that cannot continue a numeric literal.
pub open spec fn number_end(s: Seq<char>, i: int) -> int
    decreases s.len() - i
        when 0 <= i <= s.len()
{
    if i == s.len() || !is_num_char(s[i]) {
        i
    } else {
        number_end(s, i + 1)
    }
}

/// The first position at or after `i` that cannot continue an identifier.
pub open spec fn ident_end(s: Seq<char>, i: int) -> int
    decreases s.len() - i
        when 0 <= i <= s.len()
{
    if i == s.len() || !is_ident_cont(s[i]) {
        i
    } else {
        ident_end(s, i + 1)
    }
}

/// The keyword token for an exact spelling, if the spelling is one of the
/// reserved words of the language.
pub open spec fn keyword_of(w: Seq<char>) -> Option<SpecToken> {
    if w == "var"@ {
        Some(SpecToken::Var)
    } else if w == "if"@ {
        Some(SpecToken::If)
    } else if w == "else"@ {
        Some(SpecToken::Else)
    } else if w == "false"@ {
        Some(SpecToken::False)
    } else if w == "true"@ {
        Some(SpecToken::True)
    } else if w == "fun"@ {
        Some(SpecToken::Fun)
    } else if w == "for"@ {
        Some(SpecToken::For)
    } else if w == "while"@ {
        Some(SpecToken::While)
    } else if w == "or"@ {
        Some(SpecToken::Or)
    } else if w == "and"@ {
        Some(SpecToken::And)
    } else if w == "return"@ {
        Some(SpecToken::Return)
    } else if w == "wagmi"@ {
        Some(SpecToken::Wagmi)
    } else {
        None
    }
}

/// The token for a scanned word: a keyword where the spelling is reserved,
/// otherwise an identifier carrying the spelling.
pub open spec fn word_token(w: Seq<char>) -> SpecToken {
    match keyword_of(w) {
        Some(t) => t,
        None => SpecToken::Ident(w),
    }
}

/// One lexing step at position `i`: the token produced (or the offending
/// character) and the position just past what the step consumed.
///
/// Two-character operators are recognized by one-character lookahead: on
/// `!`, `=`, `<` or `>`, a following `=` is consumed and the two-character
/// token is produced; otherwise the one-character token is produced and the
/// following character is left unconsumed.
pub open spec fn spec_lex_step(s: Seq<char>, i: int) -> (Result<SpecToken, char>, int) {
    let j = skip_ws(s, i);
    if j == s.len() {
        (Ok(SpecToken::EOF), j)
    } else {
        let c = s[j];
        if c == '(' {
            (Ok(SpecToken::LParen), j + 1)
        } else if c == ')' {
            (Ok(SpecToken::RParen), j + 1)
        } else if c == ',' {
            (Ok(SpecToken::Comma), j + 1)
        } else if c == ';' {
            (Ok(SpecToken::Semicolon), j + 1)
        } else if c == '{' {
            (Ok(SpecToken::LBrace), j + 1)
        } else if c == '}' {
            (Ok(SpecToken::RBrace), j + 1)
        } else if is_num_char(c) {
            let e = number_end(s, j);
            (Ok(SpecToken::Number(s.subrange(j, e))), e)
        } else if is_ident_start(c) {
            let e = ident_end(s, j);
            (Ok(word_token(s.subrange(j, e))), e)
        } else if c == '+' {
            (Ok(SpecToken::Plus), j + 1)
        } else if c == '-' {
            (Ok(SpecToken::Minus), j + 1)
        } else if c == '*' {
            (Ok(SpecToken::Times), j + 1)
        } else if c == '/' {
            (Ok(SpecToken::Div), j + 1)
        } else if c == '!' {
            if j + 1 < s.len() && s[j + 1] == '=' {
                (Ok(SpecToken::Neq), j + 2)
            } else {
                (Ok(SpecToken::Bang), j + 1)
            }
        } else if c == '=' {
            if j + 1 < s.len() && s[j + 1] == '=' {
                (Ok(SpecToken::Eqq), j + 2)
            } else {
                (Ok(SpecToken::Eq), j + 1)
            }
        } else if c == '<' {
            if j + 1 < s.len() && s[j + 1] == '=' {
                (Ok(SpecToken::Leq), j + 2)
            } else {
                (Ok(SpecToken::Less), j + 1)
            }
        } else if c == '>' {
            if j + 1 < s.len() && s[j + 1] == '=' {
                (Ok(SpecToken::Geq), j + 2)
            } else {
                (Ok(SpecToken::Greater), j + 1)
            }
        } else {
            (Err(c), j + 1)
        }
    }
}

proof fn lemma_skip_ws_bounds(s: Seq<char>, i: int)
    requires
        0 <= i <= s.len(),
    ensures
        i <= skip_ws(s, i) <= s.len(),
        skip_ws(s, i) < s.len() ==> !is_ws(s[skip_ws(s, i)]),
    decreases s.len() - i,
{
    if i < s.len() && is_ws(s[i]) {
        lemma_skip_ws_bounds(s, i + 1);
    }
}

proof fn lemma_number_end_bounds(s: Seq<char>, i: int)
    requires
        0 <= i <= s.len(),
    ensures
        i <= number_end(s, i) <= s.len(),
    decreases s.len() - i,
{
    if i < s.len() && is_num_char(s[i]) {
        lemma_number_end_bounds(s, i + 1);
    }
}

proof fn lemma_ident_end_bounds(s: Seq<char>, i: int)
    requires
        0 <= i <= s.len(),
    ensures
        i <= ident_end(s, i) <= s.len(),
    decreases s.len() - i,
{
    if i < s.len() && is_ident_cont(s[i]) {
        lemma_ident_end_bounds(s, i + 1);
    }
}

/// Every lexing step stays inside the input, and every step that produces
/// a token other than the end sentinel, or that fails, consumes at least
/// one character.
proof fn lemma_step_bounds(s: Seq<char>, i: int)
    requires
        0 <= i <= s.len(),
    ensures
        ({
            let (r, j) = spec_lex_step(s, i);
            &&& i <= j <= s.len()
            &&& (r != Ok::<SpecToken, char>(SpecToken::EOF) ==> j > skip_ws(s, i) - 1 && j > i
                || j > i)
            &&& (r == Ok::<SpecToken, char>(SpecToken::EOF) ==> j == skip_ws(s, i))
            &&& (r != Ok::<SpecToken, char>(SpecToken::EOF) ==> j > i)
        }),
{
    lemma_skip_ws_bounds(s, i);
    let j = skip_ws(s, i);
    if j < s.len() {
        let c = s[j];
        if is_num_char(c) {
            lemma_number_end_bounds(s, j + 1);
            assert(number_end(s, j) == number_end(s, j + 1));
        } else if is_ident_start(c) {
            lemma_ident_end_bounds(s, j + 1);
            assert(ident_end(s, j) == ident_end(s, j + 1));
        }
    }
}

/// The token sequence of the input from position `i` on, excluding the end
/// sentinel, or the first offending character.
pub open spec fn spec_lex(s: Seq<char>, i: int) -> Result<Seq<SpecToken>, char>
    decreases s.len() - i
        when 0 <= i <= s.len()
        via spec_lex_decreases
{
    let (r, j) = spec_lex_step(s, i);
    match r {
        Err(c) => Err(c),
        Ok(t) => {
            if t == SpecToken::EOF {
                Ok(Seq::empty())
            } else {
                match spec_lex(s, j) {
                    Err(c) => Err(c),
                    Ok(rest) => Ok(seq![t] + rest),
                }
            }
        },
    }
}

#[via_fn]
proof fn spec_lex_decreases(s: Seq<char>, i: int) {
    lemma_step_bounds(s, i);
}

// ---------------------------------------------------------------------------
// The executable lexer.
// ---------------------------------------------------------------------------

/// Converts source text into a finite sequence of tokens.
///
/// `lex` produces the next token or fails on an unrecognized character;
/// after the input is exhausted it keeps producing the end sentinel and
/// never re-lexes.
#[derive(Clone, Copy)]
pub struct TokenLexer<'a> {
    input: &'a str,
    curr: usize,
}

impl<'a> TokenLexer<'a> {
    /// The lexer never moves its cursor outside the input.
    pub closed spec fn wf(&self) -> bool {
        self.curr <= self.input@.len()
    }

    /// The text being lexed.
    pub closed spec fn text(&self) -> Seq<char> {
        self.input@
    }

    /// The cursor: how many characters have been consumed.
    pub closed spec fn pos(&self) -> int {
        self.curr as int
    }

    /// A fresh lexer positioned at the start of the input.
    pub fn new(input: &'a str) -> (r: TokenLexer<'a>)
        ensures
            r.wf(),
            r.text() == input@,
            r.pos() == 0,
    {
        TokenLexer { input, curr: 0 }
    }

    /// Produces the next token, or the end sentinel once the input is
    /// exhausted, or fails on an unrecognized character, exactly as
    /// [`spec_lex_step`] describes.
    pub fn lex(&mut self) -> (r: LexResult)
        requires
            old(self).wf(),
        ensures
            final(self).wf(),
            final(self).text() == old(self).text(),
            ({
                let (sr, j) = spec_lex_step(old(self).text(), old(self).pos());
                &&& final(self).pos() == j
                &&& match (r, sr) {
                    (Ok(t), Ok(st)) => t@ == st,
                    (Err(LexingError::UnknownToken(c)), Err(sc)) => c == sc,
                    _ => false,
                }
            }),
    {
        let ghost s = self.input@;
        let ghost i0 = self.curr as int;
        let n = self.input.unicode_len();
        let mut curr = self.curr;

        // Skip whitespace.
        loop
            invariant
                i0 <= curr as int <= n as int,
                n as int == s.len(),
                s == self.input@,
                skip_ws(s, i0) == skip_ws(s, curr as int),
            ensures
                i0 <= curr as int <= n as int,
                skip_ws(s, i0) == curr as int,
            decreases n - curr,
        {
            if curr == n {
                break;
            }
            let c = self.input.get_char(curr);
            if !is_ws_char(c) {
                break;
            }
            curr = curr + 1;
        }

        if curr == n {
            self.curr = curr;
            return Ok(Token::EOF);
        }

        let start = curr;
        let c = self.input.get_char(curr);

        if c == '(' {
            self.curr = curr + 1;
            Ok(Token::LParen)
        } else if c == ')' {
            self.curr = curr + 1;
            Ok(Token::RParen)
        } else if c == ',' {
            self.curr = curr + 1;
            Ok(Token::Comma)
        } else if c == ';' {
            self.curr = curr + 1;
            Ok(Token::Semicolon)
        } else if c == '{' {
            self.curr = curr + 1;
            Ok(Token::LBrace)
        } else if c == '}' {
            self.curr = curr + 1;
            Ok(Token::RBrace)
        } else if is_num_char_exec(c) {
            curr = curr + 1;
            loop
                invariant
                    start < curr <= n,
                    n as int == s.len(),
                    s == self.input@,
                    number_end(s, start as int) == number_end(s, curr as int),
                ensures
                    start < curr <= n,
                    number_end(s, start as int) == curr as int,
                decreases n - curr,
            {
                if curr == n {
                    break;
                }
                let c2 = self.input.get_char(curr);
                if !is_num_char_exec(c2) {
                    break;
                }
                curr = curr + 1;
            }
            let text = self.input.substring_char(start, curr);
            self.curr = curr;
            Ok(Token::Number(text.to_owned()))
        } else if is_ident_start_exec(c) {
            curr = curr + 1;
            loop
                invariant
                    start < curr <= n,
                    n as int == s.len(),
                    s == self.input@,
                    ident_end(s, start as int) == ident_end(s, curr as int),
                ensures
                    start < curr <= n,
                    ident_end(s, start as int) == curr as int,
                decreases n - curr,
            {
                if curr == n {
                    break;
                }
                let c2 = self.input.get_char(curr);
                if !is_ident_cont_exec(c2) {
                    break;
                }
                curr = curr + 1;
            }
            let text = self.input.substring_char(start, curr);
            self.curr = curr;
            Ok(word_token_exec(text))
        } else if c == '+' {
            self.curr = curr + 1;
            Ok(Token::Plus)
        } else if c == '-' {
            self.curr = curr + 1;
            Ok(Token::Minus)
        } else if c == '*' {
            self.curr = curr + 1;
            Ok(Token::Times)
        } else if c == '/' {
            self.curr = curr + 1;
            Ok(Token::Div)
        } else if c == '!' {
            if curr + 1 < n && self.input.get_char(curr + 1) == '=' {
                self.curr = curr + 2;
                Ok(Token::Neq)
            } else {
                self.curr = curr + 1;
                Ok(Token::Bang)
            }
        } else if c == '=' {
            if curr + 1 < n && self.input.get_char(curr + 1) == '=' {
                self.curr = curr + 2;
                Ok(Token::Eqq)
            } else {
                self.curr = curr + 1;
                Ok(Token::Eq)
            }
        } else if c == '<' {
            if curr + 1 < n && self.input.get_char(curr + 1) == '=' {
                self.curr = curr + 2;
                Ok(Token::Leq)
            } else {
                self.curr = curr + 1;
                Ok(Token::Less)
            }
        } else if c == '>' {
            if curr + 1 < n && self.input.get_char(curr + 1) == '=' {
                self.curr = curr + 2;
                Ok(Token::Geq)
            } else {
                self.curr = curr + 1;
                Ok(Token::Greater)
            }
        } else {
            self.curr = curr + 1;
            Err(LexingError::UnknownToken(c))
        }
    }

    /// Lexes the whole input: the full token sequence in order, without the
    /// end sentinel, or the first unrecognized character.
    pub fn tokens(&mut self) -> (r: Result<Vec<Token>, LexingError>)
        requires
            old(self).wf(),
        ensures
            final(self).wf(),
            final(self).text() == old(self).text(),
            match (r, spec_lex(old(self).text(), old(self).pos())) {
                (Ok(v), Ok(ts)) => toks_view(v@) == ts,
                (Err(LexingError::UnknownToken(c)), Err(sc)) => c == sc,
                _ => false,
            },
    {
        let ghost s = self.input@;
        let ghost i0 = self.curr as int;
        let mut lx = *self;
        let mut acc: Vec<Token> = Vec::new();
        let mut err: Option<LexingError> = None;
        loop
            invariant_except_break
                err == Option::<LexingError>::None,
                ({
                    match spec_lex(s, lx.pos()) {
                        Ok(rest) => spec_lex(s, i0) == Ok::<Seq<SpecToken>, char>(
                            toks_view(acc@) + rest,
                        ),
                        Err(c) => spec_lex(s, i0) == Err::<Seq<SpecToken>, char>(c),
                    }
                }),
            invariant
                lx.wf(),
                lx.input@ == s,
                0 <= i0 <= s.len(),
            ensures
                lx.wf(),
                lx.input@ == s,
                match err {
                    None => spec_lex(s, i0) == Ok::<Seq<SpecToken>, char>(toks_view(acc@)),
                    Some(LexingError::UnknownToken(c)) => spec_lex(s, i0) == Err::<
                        Seq<SpecToken>,
                        char,
                    >(c),
                },
            decreases s.len() - lx.pos(),
        {
            let ghost i = lx.pos();
            proof {
                lemma_step_bounds(s, i);
            }
            match lx.lex() {
                Ok(t) => {
                    if let Token::EOF = t {
                        proof {
                            assert(spec_lex(s, i) == Ok::<Seq<SpecToken>, char>(
                                Seq::empty(),
                            ));
                            assert(toks_view(acc@) + Seq::<SpecToken>::empty() =~= toks_view(
                                acc@,
                            ));
                        }
                        break;
                    }
                    proof {
                        let (sr, j) = spec_lex_step(s, i);
                        assert(sr == Ok::<SpecToken, char>(t@));
                        assert(t@ != SpecToken::EOF);
                        if let Ok(rest) = spec_lex(s, j) {
                            assert(spec_lex(s, i) == Ok::<Seq<SpecToken>, char>(
                                seq![t@] + rest,
                            ));
                            assert(toks_view(acc@.push(t)) =~= toks_view(acc@) + seq![t@]);
                            assert(toks_view(acc@) + (seq![t@] + rest) =~= toks_view(
                                acc@.push(t),
                            ) + rest);
                        }
                    }
                    acc.push(t);
                },
                Err(e) => {
                    err = Some(e);
                    break;
                },
            }
        }
        *self = lx;
        match err {
            None => Ok(acc),
            Some(e) => Err(e),
        }
    }
}

// ---------------------------------------------------------------------------
// Executable character classification and keyword lookup.
// ---------------------------------------------------------------------------

fn is_ws_char(c: char) -> (r: bool)
    ensures
        r == is_ws(c),
{
    let u = c as u32;
    (0x9 <= u && u <= 0xD) || u == 0x20 || u == 0x85 || u == 0xA0 || u == 0x1680 || (0x2000 <= u
        && u <= 0x200A) || u == 0x2028 || u == 0x2029 || u == 0x202F || u == 0x205F || u == 0x3000
}

fn is_num_char_exec(c: char) -> (r: bool)
    ensures
        r == is_num_char(c),
{
    ('0' <= c && c <= '9') || c == '.'
}

fn is_ident_start_exec(c: char) -> (r: bool)
    ensures
        r == is_ident_start(c),
{
    ('a' <= c && c <= 'z') || ('A' <= c && c <= 'Z') || c == '_'
}

fn is_ident_cont_exec(c: char) -> (r: bool)
    ensures
        r == is_ident_cont(c),
{
    is_ident_start_exec(c) || ('0' <= c && c <= '9')
}

/// Character-by-character string equality.
fn str_eq(a: &str, b: &str) -> (r: bool)
    ensures
        r == (a@ == b@),
{
    let n = a.unicode_len();
    if n != b.unicode_len() {
        proof {
            assert(a@.len() != b@.len());
        }
        return false;
    }
    let mut i: usize = 0;
    while i < n
        invariant
            n == a@.len(),
            n == b@.len(),
            i <= n,
            forall|k: int| 0 <= k < i ==> a@[k] == b@[k],
        decreases n - i,
    {
        if a.get_char(i) != b.get_char(i) {
            return false;
        }
        i = i + 1;
    }
    proof {
        assert(a@ =~= b@);
    }
    true
}

/// The token for a scanned word: keywords map to their dedicated tokens,
/// every other spelling becomes an identifier.
fn word_token_exec(w: &str) -> (t: Token)
    ensures
        t@ == word_token(w@),
{
    proof {
        reveal_strlit("var");
        reveal_strlit("if");
        reveal_strlit("else");
        reveal_strlit("false");
        reveal_strlit("true");
        reveal_strlit("fun");
        reveal_strlit("for");
        reveal_strlit("while");
        reveal_strlit("or");
        reveal_strlit("and");
        reveal_strlit("return");
        reveal_strlit("wagmi");
    }
    if str_eq(w, "var") {
        Token::Var
    } else if str_eq(w, "if") {
        Token::If
    } else if str_eq(w, "else") {
        Token::Else
    } else if str_eq(w, "false") {
        Token::False
    } else if str_eq(w, "true") {
        Token::True
    } else if str_eq(w, "fun") {
        Token::Fun
    } else if str_eq(w, "for") {
        Token::For
    } else if str_eq(w, "while") {
        Token::While
    } else if str_eq(w, "or") {
        Token::Or
    } else if str_eq(w, "and") {
        Token::And
    } else if str_eq(w, "return") {
        Token::Return
    } else if str_eq(w, "wagmi") {
        Token::Wagmi
    } else {
        Token::Ident(w.to_owned())
    }
}

// ---------------------------------------------------------------------------
// Laws of the lexical grammar.
// ---------------------------------------------------------------------------

/// On `!`, `=`, `<` or `>` followed by `=`, one lexing step produces the
/// single two-character operator token and consumes both characters; followed
/// by anything else, it produces the one-character token and leaves the
/// following character unconsumed.
pub proof fn lemma_two_char_operator(s: Seq<char>, i: int)
    requires
        0 <= i < s.len(),
        !is_ws(s[i]),
        s[i] == '!' || s[i] == '=' || s[i] == '<' || s[i] == '>',
    ensures
        (i + 1 < s.len() && s[i + 1] == '=') ==> spec_lex_step(s, i) == (
            Ok::<SpecToken, char>(
                if s[i] == '!' {
                    SpecToken::Neq
                } else if s[i] == '=' {
                    SpecToken::Eqq
                } else if s[i] == '<' {
                    SpecToken::Leq
                } else {
                    SpecToken::Geq
                },
            ),
            i + 2,
        ),
        !(i + 1 < s.len() && s[i + 1] == '=') ==> spec_lex_step(s, i) == (
            Ok::<SpecToken, char>(
                if s[i] == '!' {
                    SpecToken::Bang
                } else if s[i] == '=' {
                    SpecToken::Eq
                } else if s[i] == '<' {
                    SpecToken::Less
                } else {
                    SpecToken::Greater
                },
            ),
            i + 1,
        ),
{
    assert(skip_ws(s, i) == i);
}

/// Lexing is a function of the input text alone: two runs over the same
/// text yield the same token sequence (or the same failure), so lexing an
/// input twice is a round trip through identical results.
pub proof fn lemma_lex_deterministic(s1: Seq<char>, s2: Seq<char>)
    requires
        s1 == s2,
    ensures
        spec_lex(s1, 0) == spec_lex(s2, 0),
{
}

} // verus!
