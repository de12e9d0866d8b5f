//! Lexical tokens: their kinds, the text they were read from and the line
//! they start on.
use vstd::prelude::*;

verus! {

/// Every lexical category of the language.
#[derive(Clone, Copy, PartialEq, Eq, Structural, Debug)]
pub enum TokenKind {
    And,
    Bang,
    BangEqual,
    Class,
    Comma,
    Dot,
    Else,
    Equal,
    EqualEqual,
    False,
    For,
    Fun,
    Greater,
    GreaterEqual,
    Identifier,
    If,
    LeftBracket,
    LeftBrace,
    LeftParen,
    Less,
    LessEqual,
    Nil,
    Number,
    Or,
    Minus,
    Plus,
    Print,
    Return,
    RightParen,
    RightBracket,
    RightBrace,
    Semicolon,
    Slash,
    Star,
    String,
    Super,
    This,
    True,
    Var,
    While,
}

/// The mathematical value of a token.
pub struct TokenView {
    pub kind: TokenKind,
    /// The exact source text of the token.
    pub lexeme: Seq<char>,
    /// The payload: the text between the quotes of a string, the digits of a
    /// number, and the lexeme itself for every other kind.
    pub literal: Seq<char>,
    /// The 1-based line of the token's first character.
    pub line: nat,
}

impl TokenView {
    /// The token invariant: an identifier is no keyword and a number is a
    /// well-formed literal, each carrying its lexeme as payload; a string's
    /// payload is the text between its quotes; and any other token's lexeme
    /// is the canonical spelling of its kind.
    pub open spec fn wf(self) -> bool {
        if self.kind == TokenKind::Identifier {
            self.literal == self.lexeme && keyword_kind(self.lexeme) is None
        } else if self.kind == TokenKind::Number {
            self.literal == self.lexeme && is_number_literal(self.lexeme)
        } else if self.kind == TokenKind::String {
            is_quoted(self.lexeme) && self.literal == self.lexeme.subrange(
                1,
                self.lexeme.len() - 1,
            )
        } else {
            &&& self.literal == self.lexeme
            &&& (symbol_kind(self.lexeme) == Some(self.kind) || keyword_kind(self.lexeme) == Some(
                self.kind,
            ))
        }
    }
}

/// A token read from source text.
#[derive(Debug)]
pub struct Token {
    kind: TokenKind,
    lexeme: String,
    literal: String,
    line: usize,
}

impl View for Token {
    type V = TokenView;

    closed spec fn view(&self) -> TokenView {
        TokenView {
            kind: self.kind,
            lexeme: self.lexeme@,
            literal: self.literal@,
            line: self.line as nat,
        }
    }
}

pub open spec fn is_digit(c: char) -> bool {
    '0' <= c && c <= '9'
}

/// The kind of an operator or punctuation lexeme, if it is one.
pub open spec fn symbol_kind(s: Seq<char>) -> Option<TokenKind> {
    if s.len() == 1 {
        match s[0] {
            '=' => Some(TokenKind::Equal),
            '!' => Some(TokenKind::Bang),
            '-' => Some(TokenKind::Minus),
            '+' => Some(TokenKind::Plus),
            ';' => Some(TokenKind::Semicolon),
            ',' => Some(TokenKind::Comma),
            '.' => Some(TokenKind::Dot),
            '<' => Some(TokenKind::Less),
            '>' => Some(TokenKind::Greater),
            '*' => Some(TokenKind::Star),
            '/' => Some(TokenKind::Slash),
            '{' => Some(TokenKind::LeftBrace),
            '}' => Some(TokenKind::RightBrace),
            '[' => Some(TokenKind::LeftBracket),
            ']' => Some(TokenKind::RightBracket),
            '(' => Some(TokenKind::LeftParen),
            ')' => Some(TokenKind::RightParen),
            _ => None,
        }
    } else if s.len() == 2 && s[1] == '=' {
        match s[0] {
            '=' => Some(TokenKind::EqualEqual),
            '!' => Some(TokenKind::BangEqual),
            '>' => Some(TokenKind::GreaterEqual),
            '<' => Some(TokenKind::LessEqual),
            _ => None,
        }
    } else {
        None
    }
}

/// The keyword spelled exactly by `s`, if any.
pub open spec fn keyword_kind(s: Seq<char>) -> Option<TokenKind> {
    if s == "and"@ {
        Some(TokenKind::And)
    } else if s == "class"@ {
        Some(TokenKind::Class)
    } else if s == "else"@ {
        Some(TokenKind::Else)
    } else if s == "false"@ {
        Some(TokenKind::False)
    } else if s == "for"@ {
        Some(TokenKind::For)
    } else if s == "fun"@ {
        Some(TokenKind::Fun)
    } else if s == "if"@ {
        Some(TokenKind::If)
    } else if s == "nil"@ {
        Some(TokenKind::Nil)
    } else if s == "or"@ {
        Some(TokenKind::Or)
    } else if s == "print"@ {
        Some(TokenKind::Print)
    } else if s == "return"@ {
        Some(TokenKind::Return)
    } else if s == "super"@ {
        Some(TokenKind::Super)
    } else if s == "this"@ {
        Some(TokenKind::This)
    } else if s == "true"@ {
        Some(TokenKind::True)
    } else if s == "var"@ {
        Some(TokenKind::Var)
    } else if s == "while"@ {
        Some(TokenKind::While)
    } else {
        None
    }
}

/// The number of ASCII digits at the start of `s`.
pub open spec fn digit_prefix(s: Seq<char>) -> nat
    decreases s.len(),
{
    if s.len() > 0 && is_digit(s[0]) {
        1 + digit_prefix(s.drop_first())
    } else {
        0
    }
}

/// One or more digits, optionally followed by a point and one or more digits.
pub open spec fn is_number_literal(s: Seq<char>) -> bool {
    let k = digit_prefix(s);
    &&& k >= 1
    &&& (k == s.len() || (s[k as int] == '.' && k + 1 < s.len() && digit_prefix(
        s.subrange(k as int + 1, s.len() as int),
    ) == s.len() - k - 1))
}

/// A string literal's lexeme: the text between two double quotes.
pub open spec fn is_quoted(s: Seq<char>) -> bool {
    &&& s.len() >= 2
    &&& s[0] == '"'
    &&& s[s.len() - 1] == '"'
}

pub open spec fn fixed_token(kind: TokenKind, lexeme: Seq<char>, line: nat) -> TokenView {
    TokenView { kind, lexeme, literal: lexeme, line }
}

/// The token that a word (an identifier or a keyword) reads as.
pub open spec fn word_token(lexeme: Seq<char>, line: nat) -> TokenView {
    match keyword_kind(lexeme) {
        Some(k) => fixed_token(k, lexeme, line),
        None => fixed_token(TokenKind::Identifier, lexeme, line),
    }
}

pub open spec fn string_token(lexeme: Seq<char>, line: nat) -> TokenView {
    TokenView {
        kind: TokenKind::String,
        lexeme,
        literal: lexeme.subrange(1, lexeme.len() - 1),
        line,
    }
}

/// Whether `a` and `b` hold the same characters.
fn same_text(a: &str, b: &str) -> (r: bool)
    ensures
        r == (a@ == b@),
{
    let n = a.unicode_len();
    if n != b.unicode_len() {
        return false;
    }
    let mut i: usize = 0;
    while i < n
        invariant
            n == a@.len(),
            n == b@.len(),
            i <= n,
            a@.subrange(0, i as int) == b@.subrange(0, i as int),
        decreases n - i,
    {
        if a.get_char(i) != b.get_char(i) {
            return false;
        }
        proof {
            assert(a@.subrange(0, i + 1) == a@.subrange(0, i as int).push(a@[i as int]));
            assert(b@.subrange(0, i + 1) == b@.subrange(0, i as int).push(b@[i as int]));
        }
        i = i + 1;
    }
    proof {
        assert(a@ == a@.subrange(0, n as int));
        assert(b@ == b@.subrange(0, n as int));
    }
    true
}

fn keyword_of(lexeme: &str) -> (r: Option<TokenKind>)
    ensures
        r == keyword_kind(lexeme@),
{
    if same_text(lexeme, "and") {
        Some(TokenKind::And)
    } else if same_text(lexeme, "class") {
        Some(TokenKind::Class)
    } else if same_text(lexeme, "else") {
        Some(TokenKind::Else)
    } else if same_text(lexeme, "false") {
        Some(TokenKind::False)
    } else if same_text(lexeme, "for") {
        Some(TokenKind::For)
    } else if same_text(lexeme, "fun") {
        Some(TokenKind::Fun)
    } else if same_text(lexeme, "if") {
        Some(TokenKind::If)
    } else if same_text(lexeme, "nil") {
        Some(TokenKind::Nil)
    } else if same_text(lexeme, "or") {
        Some(TokenKind::Or)
    } else if same_text(lexeme, "print") {
        Some(TokenKind::Print)
    } else if same_text(lexeme, "return") {
        Some(TokenKind::Return)
    } else if same_text(lexeme, "super") {
        Some(TokenKind::Super)
    } else if same_text(lexeme, "this") {
        Some(TokenKind::This)
    } else if same_text(lexeme, "true") {
        Some(TokenKind::True)
    } else if same_text(lexeme, "var") {
        Some(TokenKind::Var)
    } else if same_text(lexeme, "while") {
        Some(TokenKind::While)
    } else {
        None
    }
}

impl Clone for Token {
    fn clone(&self) -> (r: Token)
        ensures
            r@ == self@,
    {
        Token {
            kind: self.kind,
            lexeme: self.lexeme.clone(),
            literal: self.literal.clone(),
            line: self.line,
        }
    }
}

impl Token {
    /// The token of an operator or punctuation lexeme.
    pub fn get_token_from_symbol(lexeme: &str, line: usize) -> (r: Token)
        requires
            symbol_kind(lexeme@) is Some,
        ensures
            r@ == fixed_token(symbol_kind(lexeme@)->0, lexeme@, line as nat),
            r@.wf(),
    {
        let n = lexeme.unicode_len();
        let c = lexeme.get_char(0);
        let kind = if n == 1 {
            match c {
                '=' => TokenKind::Equal,
                '!' => TokenKind::Bang,
                '-' => TokenKind::Minus,
                '+' => TokenKind::Plus,
                ';' => TokenKind::Semicolon,
                ',' => TokenKind::Comma,
                '.' => TokenKind::Dot,
                '<' => TokenKind::Less,
                '>' => TokenKind::Greater,
                '*' => TokenKind::Star,
                '/' => TokenKind::Slash,
                '{' => TokenKind::LeftBrace,
                '}' => TokenKind::RightBrace,
                '[' => TokenKind::LeftBracket,
                ']' => TokenKind::RightBracket,
                '(' => TokenKind::LeftParen,
                _ => TokenKind::RightParen,
            }
        } else {
            match c {
                '=' => TokenKind::EqualEqual,
                '!' => TokenKind::BangEqual,
                '>' => TokenKind::GreaterEqual,
                _ => TokenKind::LessEqual,
            }
        };
        Token { kind, lexeme: lexeme.to_owned(), literal: lexeme.to_owned(), line }
    }

    /// The token of a word: a keyword when the word spells one, otherwise an
    /// identifier carrying the word as its literal.
    pub fn get_token_from_identifier(lexeme: &str, line: usize) -> (r: Token)
        ensures
            r@ == word_token(lexeme@, line as nat),
            r@.wf(),
    {
        let kind = match keyword_of(lexeme) {
            Some(k) => k,
            None => TokenKind::Identifier,
        };
        Token { kind, lexeme: lexeme.to_owned(), literal: lexeme.to_owned(), line }
    }

    /// The token of a number literal; its payload is the literal's digits.
    pub fn get_token_from_number(lexeme: &str, line: usize) -> (r: Token)
        requires
            is_number_literal(lexeme@),
        ensures
            r@ == fixed_token(TokenKind::Number, lexeme@, line as nat),
            r@.wf(),
    {
        Token { kind: TokenKind::Number, lexeme: lexeme.to_owned(), literal: lexeme.to_owned(), line }
    }

    /// The token of a string literal, given with its quotes; its payload is
    /// the text between them.
    pub fn get_token_from_string(lexeme: &str, line: usize) -> (r: Token)
        requires
            is_quoted(lexeme@),
        ensures
            r@ == string_token(lexeme@, line as nat),
            r@.wf(),
    {
        let n = lexeme.unicode_len();
        let inner = lexeme.substring_char(1, n - 1);
        Token { kind: TokenKind::String, lexeme: lexeme.to_owned(), literal: inner.to_owned(), line }
    }

    /// The lexeme, the literal and the line.
    pub fn get_info(&self) -> (r: (String, String, usize))
        ensures
            r.0@ == self@.lexeme,
            r.1@ == self@.literal,
            r.2 as nat == self@.line,
    {
        (self.lexeme.clone(), self.literal.clone(), self.line)
    }

    pub fn kind(&self) -> (r: TokenKind)
        ensures
            r == self@.kind,
    {
        self.kind
    }

    pub fn lexeme(&self) -> (r: &str)
        ensures
            r@ == self@.lexeme,
    {
        self.lexeme.as_str()
    }

    pub fn literal(&self) -> (r: &str)
        ensures
            r@ == self@.literal,
    {
        self.literal.as_str()
    }

    pub fn line(&self) -> (r: usize)
        ensures
            r == self@.line,
    {
        self.line
    }
}

} // verus!
