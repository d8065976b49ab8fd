//! Statements.

use vstd::prelude::*;
use crate::expr::{Expr, Piece, PieceView, piece_views, put_text, text};
use crate::token::Token;

verus! {

/// A statement. Every node owns its parts.
#[derive(Debug)]
pub enum Stmt {
    Expr(Expr),
    If { condition: Expr, then_branch: Box<Stmt>, else_branch: Option<Box<Stmt>> },
    Print(Expr),
    Var { name: Token, initializer: Expr },
    While { condition: Expr, body: Box<Stmt> },
    Block(Vec<Stmt>),
}

/// The mathematical model of a statement: a block is the sequence of its
/// statements' models.
pub enum StmtView {
    Expr(Expr),
    If { condition: Expr, then_branch: Box<StmtView>, else_branch: Option<Box<StmtView>> },
    Print(Expr),
    Var { name: Token, initializer: Expr },
    While { condition: Expr, body: Box<StmtView> },
    Block(Seq<StmtView>),
}

impl Stmt {
    /// The model of the statement.
    pub open spec fn model(&self) -> StmtView
        decreases self,
    {
        match self {
            Stmt::Expr(e) => StmtView::Expr(*e),
            Stmt::If { condition, then_branch, else_branch } => StmtView::If {
                condition: *condition,
                then_branch: Box::new(then_branch.model()),
                else_branch: match else_branch {
                    Some(s) => Some(Box::new(s.model())),
                    None => None,
                },
            },
            Stmt::Print(e) => StmtView::Print(*e),
            Stmt::Var { name, initializer } => StmtView::Var { name: *name, initializer: *initializer },
            Stmt::While { condition, body } => StmtView::While { condition: *condition, body: Box::new(body.model()) },
            Stmt::Block(statements) => StmtView::Block(
                Seq::new(
                    statements.len() as nat,
                    |i: int|
                        if 0 <= i < statements.len() {
                            statements[i].model()
                        } else {
                            StmtView::Block(Seq::empty())
                        },
                ),
            ),
        }
    }
}

impl View for Stmt {
    type V = StmtView;

    open spec fn view(&self) -> StmtView {
        self.model()
    }
}

/// The models of a sequence of statements, in order.
pub open spec fn stmt_views(statements: Seq<Stmt>) -> Seq<StmtView> {
    Seq::new(statements.len(), |i: int| statements[i]@)
}

impl StmtView {
    /// The text of the statement: expressions as they are written, and
    /// around them the words of the statement.
    pub open spec fn text(self) -> Seq<PieceView>
        decreases self,
    {
        match self {
            StmtView::Expr(e) => e.text(),
            StmtView::If { condition, then_branch, else_branch } => text("if "@) + condition.text() + text(
                " then "@,
            ) + then_branch.text() + text(" "@) + match else_branch {
                Some(branch) => text("else "@) + branch.text(),
                None => Seq::empty(),
            },
            StmtView::Print(e) => text("print "@) + e.text(),
            StmtView::Var { name, initializer } => text("var "@) + text(name.lexeme@) + text(" = "@)
                + initializer.text(),
            StmtView::While { condition, body } => text("while "@) + condition.text() + text(" "@) + body.text(),
            StmtView::Block(statements) => text("{ "@) + Self::texts(statements) + text("}"@),
        }
    }

    /// The texts of the statements of a block, each with a blank after it.
    pub open spec fn texts(statements: Seq<StmtView>) -> Seq<PieceView>
        decreases statements,
    {
        if statements.len() == 0 {
            Seq::empty()
        } else {
            Self::texts(statements.drop_last()) + statements.last().text() + text(" "@)
        }
    }
}

impl Stmt {
    /// Adds the text of the statement to `out`.
    pub fn write(&self, out: &mut Vec<Piece>)
        ensures
            piece_views(final(out)@) == piece_views(old(out)@) + self@.text(),
        decreases self,
    {
        let ghost before = piece_views(out@);
        match self {
            Stmt::Expr(e) => {
                e.write(out);
            },
            Stmt::If { condition, then_branch, else_branch } => {
                put_text(out, "if ");
                condition.write(out);
                put_text(out, " then ");
                then_branch.write(out);
                put_text(out, " ");
                match else_branch {
                    Some(branch) => {
                        put_text(out, "else ");
                        branch.write(out);
                    },
                    None => {},
                }
                assert(piece_views(out@) =~= before + self@.text());
            },
            Stmt::Print(e) => {
                put_text(out, "print ");
                e.write(out);
                assert(piece_views(out@) =~= before + self@.text());
            },
            Stmt::Var { name, initializer } => {
                put_text(out, "var ");
                put_text(out, name.lexeme.as_str());
                put_text(out, " = ");
                initializer.write(out);
                assert(piece_views(out@) =~= before + self@.text());
            },
            Stmt::While { condition, body } => {
                put_text(out, "while ");
                condition.write(out);
                put_text(out, " ");
                body.write(out);
                assert(piece_views(out@) =~= before + self@.text());
            },
            Stmt::Block(statements) => {
                put_text(out, "{ ");
                Self::write_all(statements, out);
                put_text(out, "}");
                proof {
                    assert(self@->Block_0 =~= stmt_views(statements@));
                    assert(piece_views(out@) =~= before + self@.text());
                }
            },
        }
    }

    /// Adds the texts of the statements of a block to `out`, each with a
    /// blank after it.
    fn write_all(statements: &Vec<Stmt>, out: &mut Vec<Piece>)
        ensures
            piece_views(final(out)@) == piece_views(old(out)@) + StmtView::texts(stmt_views(statements@)),
        decreases statements,
    {
        let ghost start = piece_views(out@);
        let mut i: usize = 0;
        assert(stmt_views(statements@).subrange(0, 0) =~= Seq::empty());
        assert(start + Seq::empty() =~= start);
        while i < statements.len()
            invariant
                i <= statements@.len(),
                piece_views(out@) == start + StmtView::texts(stmt_views(statements@).subrange(0, i as int)),
            decreases statements@.len() - i,
        {
            proof {
                vstd::std_specs::vec::axiom_vec_index_decreases(*statements, i as int);
            }
            statements[i].write(out);
            put_text(out, " ");
            proof {
                let upto = stmt_views(statements@).subrange(0, i + 1);
                assert(upto.drop_last() =~= stmt_views(statements@).subrange(0, i as int));
                assert(upto.last() == statements@[i as int]@);
                assert(piece_views(out@) =~= start + StmtView::texts(upto));
            }
            i += 1;
        }
        proof {
            assert(stmt_views(statements@).subrange(0, i as int) =~= stmt_views(statements@));
        }
    }

    /// The text of the statement.
    pub fn pieces(&self) -> (pieces: Vec<Piece>)
        ensures
            piece_views(pieces@) == self@.text(),
    {
        let mut pieces: Vec<Piece> = Vec::new();
        assert(piece_views(pieces@) =~= Seq::empty());
        self.write(&mut pieces);
        assert(Seq::<PieceView>::empty() + self@.text() =~= self@.text());
        pieces
    }
}

} // verus!
