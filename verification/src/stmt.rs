//! Statements, and the block that a parse returns.

use crate::expr::{Expr, ExprView};
use vstd::prelude::*;

verus! {

/// A statement.
#[derive(Debug, PartialEq)]
pub enum Stmt {
    /// An expression evaluated for its own sake.
    Expr(Expr),
    Print(Expr),
    /// Declares the name in the innermost scope, or overwrites it there.
    Assign(String, Expr),
    /// Changes the nearest existing binding of the name.
    Reassign(String, Expr),
    /// The condition, and the statements of the body.
    While(Expr, Vec<Stmt>),
    Block(Vec<Stmt>),
}

/// The mathematical model of a [`Stmt`].
pub enum StmtView {
    Expr(ExprView),
    Print(ExprView),
    Assign(Seq<char>, ExprView),
    Reassign(Seq<char>, ExprView),
    While(ExprView, Seq<StmtView>),
    Block(Seq<StmtView>),
}

impl Stmt {
    /// The mathematical model of the statement.
    pub open spec fn model(&self) -> StmtView
        decreases self,
    {
        match self {
            Stmt::Expr(e) => StmtView::Expr(e@),
            Stmt::Print(e) => StmtView::Print(e@),
            Stmt::Assign(name, e) => StmtView::Assign(name@, e@),
            Stmt::Reassign(name, e) => StmtView::Reassign(name@, e@),
            Stmt::While(cond, body) => StmtView::While(
                cond@,
                Seq::new(
                    body.len() as nat,
                    |i: int|
                        if 0 <= i < body.len() {
                            body[i].model()
                        } else {
                            StmtView::Block(Seq::empty())
                        },
                ),
            ),
            Stmt::Block(body) => StmtView::Block(
                Seq::new(
                    body.len() as nat,
                    |i: int|
                        if 0 <= i < body.len() {
                            body[i].model()
                        } else {
                            StmtView::Block(Seq::empty())
                        },
                ),
            ),
        }
    }
}

impl Stmt {
    /// The model of a loop is its condition and the models of its body's
    /// statements; the model of a block is the models of its statements.
    pub proof fn lemma_model_of_body(&self)
        ensures
            match self {
                Stmt::While(cond, body) => self@ == StmtView::While(cond@, stmt_views(body@)),
                Stmt::Block(body) => self@ == StmtView::Block(stmt_views(body@)),
                _ => true,
            },
    {
        match self {
            Stmt::While(cond, body) => {
                assert(self@->While_1 =~= stmt_views(body@));
            },
            Stmt::Block(body) => {
                assert(self@->Block_0 =~= stmt_views(body@));
            },
            _ => {},
        }
    }
}

impl View for Stmt {
    type V = StmtView;

    open spec fn view(&self) -> StmtView {
        self.model()
    }
}

/// The models of a run of statements.
pub open spec fn stmt_views(stmts: Seq<Stmt>) -> Seq<StmtView> {
    Seq::new(stmts.len(), |i: int| stmts[i]@)
}

/// A copy of a run of statements.
pub fn clone_stmts(stmts: &Vec<Stmt>) -> (r: Vec<Stmt>)
    ensures
        stmt_views(r@) == stmt_views(stmts@),
    decreases stmts,
{
    let mut r: Vec<Stmt> = Vec::new();
    let mut i: usize = 0;
    while i < stmts.len()
        invariant
            i <= stmts.len(),
            r@.len() == i,
            forall|j: int| 0 <= j < i ==> (#[trigger] r@[j])@ == stmts@[j]@,
        decreases stmts.len() - i,
    {
        let copy = stmts[i].clone();
        r.push(copy);
        i = i + 1;
    }
    assert(stmt_views(r@) =~= stmt_views(stmts@));
    r
}

impl Clone for Stmt {
    fn clone(&self) -> (r: Self)
        ensures
            r@ == self@,
        decreases self,
    {
        match self {
            Stmt::Expr(e) => Stmt::Expr(e.clone()),
            Stmt::Print(e) => Stmt::Print(e.clone()),
            Stmt::Assign(name, e) => Stmt::Assign(name.clone(), e.clone()),
            Stmt::Reassign(name, e) => Stmt::Reassign(name.clone(), e.clone()),
            Stmt::While(cond, body) => {
                let r = Stmt::While(cond.clone(), clone_stmts(body));
                proof {
                    r.lemma_model_of_body();
                    self.lemma_model_of_body();
                }
                r
            },
            Stmt::Block(body) => {
                let r = Stmt::Block(clone_stmts(body));
                proof {
                    r.lemma_model_of_body();
                    self.lemma_model_of_body();
                }
                r
            },
        }
    }
}

/// The statements of a program, in order.
#[derive(Debug, PartialEq)]
pub struct Block {
    pub stmts: Vec<Stmt>,
}

impl View for Block {
    type V = Seq<StmtView>;

    open spec fn view(&self) -> Seq<StmtView> {
        stmt_views(self.stmts@)
    }
}

impl Block {
    /// The block of the given statements.
    pub fn new(stmts: Vec<Stmt>) -> (block: Self)
        ensures
            block@ == stmt_views(stmts@),
    {
        Self { stmts }
    }
}

} // verus!
