//! Expressions and the values they evaluate to.

use vstd::prelude::*;
use vstd::string::StringExecFns;
use crate::token::Token;

verus! {

/// The two truth values.
#[derive(Clone, Copy, Debug, PartialEq, Eq, Structural)]
pub enum LiteralBool {
    True,
    False,
}

/// A value of the language.
///
/// A number is held as the bit pattern of an IEEE-754 double.
#[derive(Debug)]
pub enum Literal {
    Number(u64),
    String(String),
    Boolean(LiteralBool),
    Identifier(String),
    Nil,
}

/// The mathematical model of a value.
pub enum LiteralView {
    Number(u64),
    String(Seq<char>),
    Boolean(LiteralBool),
    Identifier(Seq<char>),
    Nil,
}

impl View for Literal {
    type V = LiteralView;

    open spec fn view(&self) -> LiteralView {
        match self {
            Literal::Number(n) => LiteralView::Number(*n),
            Literal::String(s) => LiteralView::String(s@),
            Literal::Boolean(b) => LiteralView::Boolean(*b),
            Literal::Identifier(s) => LiteralView::Identifier(s@),
            Literal::Nil => LiteralView::Nil,
        }
    }
}

impl Clone for Literal {
    fn clone(&self) -> (copy: Self)
        ensures
            copy == *self,
    {
        match self {
            Literal::Number(n) => Literal::Number(*n),
            Literal::String(s) => Literal::String(s.clone()),
            Literal::Boolean(b) => Literal::Boolean(*b),
            Literal::Identifier(s) => Literal::Identifier(s.clone()),
            Literal::Nil => Literal::Nil,
        }
    }
}

impl From<bool> for Literal {
    fn from(value: bool) -> (literal: Self) {
        Literal::boolean(value)
    }
}

impl vstd::std_specs::convert::FromSpecImpl<bool> for Literal {
    open spec fn obeys_from_spec() -> bool {
        true
    }

    open spec fn from_spec(value: bool) -> Self {
        Literal::Boolean(
            if value {
                LiteralBool::True
            } else {
                LiteralBool::False
            },
        )
    }
}

impl From<String> for Literal {
    fn from(value: String) -> (literal: Self) {
        Literal::String(value)
    }
}

impl vstd::std_specs::convert::FromSpecImpl<String> for Literal {
    open spec fn obeys_from_spec() -> bool {
        true
    }

    open spec fn from_spec(value: String) -> Self {
        Literal::String(value)
    }
}

impl Literal {
    /// The value that stands for a truth value of the host.
    pub fn boolean(value: bool) -> (literal: Literal)
        ensures
            literal == Literal::Boolean(
                if value {
                    LiteralBool::True
                } else {
                    LiteralBool::False
                },
            ),
    {
        Literal::Boolean(
            if value {
                LiteralBool::True
            } else {
                LiteralBool::False
            },
        )
    }
}

/// A stretch of text, or a number that is still to be written out in decimal:
/// writing a double out is floating-point work, left to the caller.
#[derive(Debug)]
pub enum Piece {
    Text(String),
    Number(u64),
}

/// The mathematical model of a piece.
pub enum PieceView {
    Text(Seq<char>),
    Number(u64),
}

impl View for Piece {
    type V = PieceView;

    open spec fn view(&self) -> PieceView {
        match self {
            Piece::Text(s) => PieceView::Text(s@),
            Piece::Number(n) => PieceView::Number(*n),
        }
    }
}

/// What `print` writes for a value: a string as it is, without quotes.
pub open spec fn printable(value: LiteralView) -> PieceView {
    match value {
        LiteralView::Number(n) => PieceView::Number(n),
        LiteralView::String(s) => PieceView::Text(s),
        LiteralView::Boolean(LiteralBool::True) => PieceView::Text("true"@),
        LiteralView::Boolean(LiteralBool::False) => PieceView::Text("false"@),
        LiteralView::Identifier(s) => PieceView::Text(s),
        LiteralView::Nil => PieceView::Text("nil"@),
    }
}

impl LiteralBool {
    /// `true` or `false`.
    pub fn to_text(&self) -> (text: String)
        ensures
            text@ == printable(LiteralView::Boolean(*self))->Text_0,
    {
        match self {
            LiteralBool::True => String::from_str("true"),
            LiteralBool::False => String::from_str("false"),
        }
    }
}

impl Literal {
    /// What `print` writes for the value.
    pub fn printable(&self) -> (piece: Piece)
        ensures
            piece@ == printable(self@),
    {
        match self {
            Literal::Number(n) => Piece::Number(*n),
            Literal::String(s) => Piece::Text(s.clone()),
            Literal::Boolean(b) => Piece::Text(b.to_text()),
            Literal::Identifier(s) => Piece::Text(s.clone()),
            Literal::Nil => Piece::Text(String::from_str("nil")),
        }
    }
}

/// An expression. Every node owns its operands.
#[derive(Debug)]
pub enum Expr {
    Binary { left: Box<Expr>, operator: Token, right: Box<Expr> },
    Grouping { expression: Box<Expr> },
    Literal(Literal),
    Unary { operator: Token, right: Box<Expr> },
    Variable { name: Token },
    Assign { name: Token, value: Box<Expr> },
    Logical { left: Box<Expr>, operator: Token, right: Box<Expr> },
}

impl From<bool> for Expr {
    fn from(value: bool) -> (expr: Self) {
        Expr::Literal(Literal::boolean(value))
    }
}

impl vstd::std_specs::convert::FromSpecImpl<bool> for Expr {
    open spec fn obeys_from_spec() -> bool {
        true
    }

    open spec fn from_spec(value: bool) -> Self {
        Expr::Literal(
            Literal::Boolean(
                if value {
                    LiteralBool::True
                } else {
                    LiteralBool::False
                },
            ),
        )
    }
}

impl From<String> for Expr {
    fn from(value: String) -> (expr: Self) {
        Expr::Literal(Literal::String(value))
    }
}

impl vstd::std_specs::convert::FromSpecImpl<String> for Expr {
    open spec fn obeys_from_spec() -> bool {
        true
    }

    open spec fn from_spec(value: String) -> Self {
        Expr::Literal(Literal::String(value))
    }
}

impl Expr {
    pub fn literal(value: Literal) -> (expr: Self)
        ensures
            expr == Expr::Literal(value),
    {
        Expr::Literal(value)
    }

    pub fn binary(left: Expr, operator: Token, right: Expr) -> (expr: Self)
        ensures
            expr == (Expr::Binary { left: Box::new(left), operator, right: Box::new(right) }),
    {
        Expr::Binary { left: Box::new(left), operator, right: Box::new(right) }
    }

    pub fn grouping(expr: Expr) -> (group: Self)
        ensures
            group == (Expr::Grouping { expression: Box::new(expr) }),
    {
        Expr::Grouping { expression: Box::new(expr) }
    }

    pub fn unary(operator: Token, right: Expr) -> (expr: Self)
        ensures
            expr == (Expr::Unary { operator, right: Box::new(right) }),
    {
        Expr::Unary { operator, right: Box::new(right) }
    }
}

/// The models of a sequence of pieces, in order.
pub open spec fn piece_views(pieces: Seq<Piece>) -> Seq<PieceView> {
    pieces.map_values(|p: Piece| p@)
}

/// One piece of text.
pub open spec fn text(text: Seq<char>) -> Seq<PieceView> {
    seq![PieceView::Text(text)]
}

/// How a literal is written in the text of an expression: a string in
/// double quotes, the others as `print` writes them.
pub open spec fn literal_text(value: LiteralView) -> Seq<PieceView> {
    match value {
        LiteralView::String(s) => text("\""@ + s + "\""@),
        _ => seq![printable(value)],
    }
}

/// Adds a piece of text to `out`.
pub fn put_text(out: &mut Vec<Piece>, words: &str)
    ensures
        piece_views(final(out)@) == piece_views(old(out)@) + text(words@),
{
    let piece = Piece::Text(String::from_str(words));
    assert(piece_views(out@.push(piece)) =~= piece_views(out@) + text(words@));
    out.push(piece);
}

impl Literal {
    /// Adds the text of the literal to `out`.
    pub fn write(&self, out: &mut Vec<Piece>)
        ensures
            piece_views(final(out)@) == piece_views(old(out)@) + literal_text(self@),
    {
        let piece = match self {
            Literal::String(s) => {
                let mut quoted = String::from_str("\"");
                quoted.append(s.as_str());
                quoted.append("\"");
                Piece::Text(quoted)
            },
            _ => self.printable(),
        };
        assert(piece_views(out@.push(piece)) =~= piece_views(out@) + literal_text(self@));
        out.push(piece);
    }
}

impl Expr {
    /// The text of the expression, fully parenthesized and with operators
    /// first: `(operator operand ...)` for an operation, `(group expression)`
    /// for a parenthesized expression, a literal as it is written and a
    /// variable by its name.
    pub open spec fn text(&self) -> Seq<PieceView>
        decreases self,
    {
        match self {
            Expr::Binary { left, operator, right } => text("("@) + text(operator.lexeme@) + text(" "@)
                + left.text() + text(" "@) + right.text() + text(")"@),
            Expr::Grouping { expression } => text("(group "@) + expression.text() + text(")"@),
            Expr::Literal(literal) => literal_text(literal@),
            Expr::Unary { operator, right } => text("("@) + text(operator.lexeme@) + text(" "@) + right.text()
                + text(")"@),
            Expr::Variable { name } => text(name.lexeme@),
            Expr::Assign { name, value } => text("(= "@) + text(name.lexeme@) + text(" "@) + value.text() + text(
                ")"@,
            ),
            Expr::Logical { left, operator, right } => text("("@) + text(operator.lexeme@) + text(" "@)
                + left.text() + text(" "@) + right.text() + text(")"@),
        }
    }

    /// Adds the text of the expression to `out`.
    pub fn write(&self, out: &mut Vec<Piece>)
        ensures
            piece_views(final(out)@) == piece_views(old(out)@) + self.text(),
        decreases self,
    {
        let ghost before = piece_views(out@);
        match self {
            Expr::Binary { left, operator, right } => {
                put_text(out, "(");
                put_text(out, operator.lexeme.as_str());
                put_text(out, " ");
                left.write(out);
                put_text(out, " ");
                right.write(out);
                put_text(out, ")");
                assert(piece_views(out@) =~= before + self.text());
            },
            Expr::Grouping { expression } => {
                put_text(out, "(group ");
                expression.write(out);
                put_text(out, ")");
                assert(piece_views(out@) =~= before + self.text());
            },
            Expr::Literal(literal) => {
                literal.write(out);
            },
            Expr::Unary { operator, right } => {
                put_text(out, "(");
                put_text(out, operator.lexeme.as_str());
                put_text(out, " ");
                right.write(out);
                put_text(out, ")");
                assert(piece_views(out@) =~= before + self.text());
            },
            Expr::Variable { name } => {
                put_text(out, name.lexeme.as_str());
            },
            Expr::Assign { name, value } => {
                put_text(out, "(= ");
                put_text(out, name.lexeme.as_str());
                put_text(out, " ");
                value.write(out);
                put_text(out, ")");
                assert(piece_views(out@) =~= before + self.text());
            },
            Expr::Logical { left, operator, right } => {
                put_text(out, "(");
                put_text(out, operator.lexeme.as_str());
                put_text(out, " ");
                left.write(out);
                put_text(out, " ");
                right.write(out);
                put_text(out, ")");
                assert(piece_views(out@) =~= before + self.text());
            },
        }
    }

    /// The text of the expression.
    pub fn pieces(&self) -> (pieces: Vec<Piece>)
        ensures
            piece_views(pieces@) == self.text(),
    {
        let mut pieces: Vec<Piece> = Vec::new();
        assert(piece_views(pieces@) =~= Seq::empty());
        self.write(&mut pieces);
        assert(Seq::<PieceView>::empty() + self.text() =~= self.text());
        pieces
    }
}

} // verus!
