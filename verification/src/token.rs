//! The token model: what the scanner produces and the parser consumes.

use vstd::prelude::*;

verus! {

/// The kind of a token.
#[derive(Clone, Copy, Debug, PartialEq, Eq, Structural)]
pub enum TokenKind {
    LeftParen,
    RightParen,
    LeftBrace,
    RightBrace,
    Comma,
    Dot,
    Minus,
    Plus,
    Semicolon,
    Slash,
    Star,
    Bang,
    BangEqual,
    Equal,
    EqualEqual,
    Greater,
    GreaterEqual,
    Less,
    LessEqual,
    Identifier,
    String,
    Number,
    And,
    Class,
    Else,
    False,
    Fun,
    For,
    If,
    Nil,
    Or,
    Print,
    Return,
    Super,
    This,
    True,
    Var,
    While,
    Eof,
}

/// The payload of a token.
///
/// A number is held as the bit pattern of an IEEE-754 double.
#[derive(Debug)]
pub enum Literal {
    String(String),
    Number(u64),
    Identifier(String),
    Nil,
}

/// The mathematical model of a token's payload.
pub enum LiteralView {
    String(Seq<char>),
    Number(u64),
    Identifier(Seq<char>),
    Nil,
}

impl View for Literal {
    type V = LiteralView;

    open spec fn view(&self) -> LiteralView {
        match self {
            Literal::String(s) => LiteralView::String(s@),
            Literal::Number(n) => LiteralView::Number(*n),
            Literal::Identifier(s) => LiteralView::Identifier(s@),
            Literal::Nil => LiteralView::Nil,
        }
    }
}

impl Clone for Literal {
    fn clone(&self) -> (copy: Self)
        ensures
            copy == *self,
    {
        match self {
            Literal::String(s) => Literal::String(s.clone()),
            Literal::Number(n) => Literal::Number(*n),
            Literal::Identifier(s) => Literal::Identifier(s.clone()),
            Literal::Nil => Literal::Nil,
        }
    }
}

/// A lexeme of the source with its kind, its payload and the line it ends on.
#[derive(Debug)]
pub struct Token {
    pub kind: TokenKind,
    pub lexeme: String,
    pub literal: Literal,
    pub line: usize,
}

/// The mathematical model of a token.
pub struct TokenView {
    pub kind: TokenKind,
    pub lexeme: Seq<char>,
    pub literal: LiteralView,
    pub line: usize,
}

impl View for Token {
    type V = TokenView;

    open spec fn view(&self) -> TokenView {
        TokenView { kind: self.kind, lexeme: self.lexeme@, literal: self.literal@, line: self.line }
    }
}

impl Clone for Token {
    fn clone(&self) -> (copy: Self)
        ensures
            copy == *self,
    {
        Token {
            kind: self.kind,
            lexeme: self.lexeme.clone(),
            literal: self.literal.clone(),
            line: self.line,
        }
    }
}

impl Token {
    /// A token of kind `Number` or `String` carries a payload of that kind.
    pub open spec fn carries_value(&self) -> bool {
        &&& self.kind == TokenKind::Number ==> self.literal is Number
        &&& self.kind == TokenKind::String ==> self.literal is String
    }
}

/// The views of a sequence of tokens, in order.
pub open spec fn views(tokens: Seq<Token>) -> Seq<TokenView> {
    tokens.map_values(|t: Token| t@)
}

/// The reserved words of the language and the kinds they stand for.
pub open spec fn keyword_kind(text: Seq<char>) -> Option<TokenKind> {
    if text == "and"@ {
        Some(TokenKind::And)
    } else if text == "class"@ {
        Some(TokenKind::Class)
    } else if text == "else"@ {
        Some(TokenKind::Else)
    } else if text == "false"@ {
        Some(TokenKind::False)
    } else if text == "fun"@ {
        Some(TokenKind::Fun)
    } else if text == "for"@ {
        Some(TokenKind::For)
    } else if text == "if"@ {
        Some(TokenKind::If)
    } else if text == "nil"@ {
        Some(TokenKind::Nil)
    } else if text == "or"@ {
        Some(TokenKind::Or)
    } else if text == "print"@ {
        Some(TokenKind::Print)
    } else if text == "return"@ {
        Some(TokenKind::Return)
    } else if text == "super"@ {
        Some(TokenKind::Super)
    } else if text == "this"@ {
        Some(TokenKind::This)
    } else if text == "true"@ {
        Some(TokenKind::True)
    } else if text == "var"@ {
        Some(TokenKind::Var)
    } else if text == "while"@ {
        Some(TokenKind::While)
    } else {
        None
    }
}

/// Whether `text` spells `word`.
pub fn spells(text: &Vec<char>, word: &str) -> (same: bool)
    ensures
        same == (text@ == word@),
{
    let n = word.unicode_len();
    if text.len() != n {
        return false;
    }
    let mut i: usize = 0;
    while i < n
        invariant
            n == word@.len(),
            n == text@.len(),
            i <= n,
            text@.subrange(0, i as int) == word@.subrange(0, i as int),
        decreases n - i,
    {
        if text[i] != word.get_char(i) {
            return false;
        }
        assert(text@.subrange(0, i + 1) =~= text@.subrange(0, i as int).push(text@[i as int]));
        assert(word@.subrange(0, i + 1) =~= word@.subrange(0, i as int).push(word@[i as int]));
        i += 1;
    }
    assert(text@ =~= text@.subrange(0, n as int));
    assert(word@ =~= word@.subrange(0, n as int));
    true
}

/// Looks `text` up among the reserved words.
pub fn keyword(text: &Vec<char>) -> (kind: Option<TokenKind>)
    ensures
        kind == keyword_kind(text@),
{
    if spells(text, "and") {
        Some(TokenKind::And)
    } else if spells(text, "class") {
        Some(TokenKind::Class)
    } else if spells(text, "else") {
        Some(TokenKind::Else)
    } else if spells(text, "false") {
        Some(TokenKind::False)
    } else if spells(text, "fun") {
        Some(TokenKind::Fun)
    } else if spells(text, "for") {
        Some(TokenKind::For)
    } else if spells(text, "if") {
        Some(TokenKind::If)
    } else if spells(text, "nil") {
        Some(TokenKind::Nil)
    } else if spells(text, "or") {
        Some(TokenKind::Or)
    } else if spells(text, "print") {
        Some(TokenKind::Print)
    } else if spells(text, "return") {
        Some(TokenKind::Return)
    } else if spells(text, "super") {
        Some(TokenKind::Super)
    } else if spells(text, "this") {
        Some(TokenKind::This)
    } else if spells(text, "true") {
        Some(TokenKind::True)
    } else if spells(text, "var") {
        Some(TokenKind::Var)
    } else if spells(text, "while") {
        Some(TokenKind::While)
    } else {
        None
    }
}

} // verus!
