//! Statement trees.

use vstd::prelude::*;
use crate::expr::Expr;
use crate::token::Token;

verus! {

/// A statement. A block owns its statements, in program order.
#[derive(Debug, PartialEq)]
pub enum Stmt {
    Expression { expr: Box<Expr> },
    Print { expr: Box<Expr> },
    Var { name: Token, initializer: Box<Expr> },
    Block { stmts: Vec<Stmt> },
}

/// A statement as a value of mathematics: what `Stmt` is, with a sequence in
/// place of the vector.
pub enum Tree {
    Expression { expr: Expr },
    Print { expr: Expr },
    Var { name: Token, initializer: Expr },
    Block { stmts: Seq<Tree> },
}

/// The trees of a sequence of statements, one for one.
pub open spec fn trees(stmts: Seq<Stmt>) -> Seq<Tree>
    decreases stmts,
{
    Seq::new(
        stmts.len(),
        |i: int|
            if 0 <= i < stmts.len() {
                stmts[i].view()
            } else {
                Tree::Block { stmts: Seq::empty() }
            },
    )
}

impl View for Stmt {
    type V = Tree;

    open spec fn view(&self) -> Tree
        decreases self,
    {
        match self {
            Stmt::Expression { expr } => Tree::Expression { expr: **expr },
            Stmt::Print { expr } => Tree::Print { expr: **expr },
            Stmt::Var { name, initializer } => Tree::Var {
                name: *name,
                initializer: **initializer,
            },
            Stmt::Block { stmts } => Tree::Block { stmts: trees(stmts@) },
        }
    }
}

impl Clone for Stmt {
    fn clone(&self) -> (r: Self)
        ensures
            r@ == self@,
        decreases *self,
    {
        match self {
            Stmt::Expression { expr } => Stmt::Expression { expr: Box::new(Expr::clone(expr)) },
            Stmt::Print { expr } => Stmt::Print { expr: Box::new(Expr::clone(expr)) },
            Stmt::Var { name, initializer } => Stmt::Var {
                name: name.clone(),
                initializer: Box::new(Expr::clone(initializer)),
            },
            Stmt::Block { stmts } => Stmt::Block { stmts: clone_all(stmts) },
        }
    }
}

/// Copies of the statements, one for one.
fn clone_all(stmts: &Vec<Stmt>) -> (r: Vec<Stmt>)
    ensures
        trees(r@) == trees(stmts@),
    decreases *stmts,
{
    let mut copies: Vec<Stmt> = Vec::new();
    let mut i: usize = 0;
    while i < stmts.len()
        invariant
            0 <= i <= stmts@.len(),
            copies@.len() == i,
            forall|k: int| 0 <= k < i ==> (#[trigger] copies@[k])@ == stmts@[k]@,
        decreases stmts@.len() - i,
    {
        copies.push(Stmt::clone(&stmts[i]));
        i += 1;
    }
    proof {
        assert(trees(copies@) =~= trees(stmts@));
    }
    copies
}

impl Stmt {
    /// Every expression of the statement is well formed.
    pub open spec fn well_formed(self) -> bool
        decreases self,
    {
        match self {
            Stmt::Expression { expr } => expr.well_formed(),
            Stmt::Print { expr } => expr.well_formed(),
            Stmt::Var { name, initializer } => initializer.well_formed(),
            Stmt::Block { stmts } => all_well_formed(stmts@),
        }
    }

    /// Whether the statement is well formed.
    pub fn is_well_formed(&self) -> (r: bool)
        ensures
            r == self.well_formed(),
        decreases *self,
    {
        match self {
            Stmt::Expression { expr } => expr.is_well_formed(),
            Stmt::Print { expr } => expr.is_well_formed(),
            Stmt::Var { name, initializer } => initializer.is_well_formed(),
            Stmt::Block { stmts } => are_well_formed(stmts),
        }
    }
}

/// Every statement of the sequence is well formed.
pub open spec fn all_well_formed(stmts: Seq<Stmt>) -> bool
    decreases stmts,
{
    forall|i: int| 0 <= i < stmts.len() ==> (#[trigger] stmts[i]).well_formed()
}

/// Whether every statement of a program is well formed.
pub fn are_well_formed(stmts: &Vec<Stmt>) -> (r: bool)
    ensures
        r == all_well_formed(stmts@),
    decreases *stmts,
{
    let mut i: usize = 0;
    while i < stmts.len()
        invariant
            0 <= i <= stmts@.len(),
            forall|k: int| 0 <= k < i ==> (#[trigger] stmts@[k]).well_formed(),
        decreases stmts@.len() - i,
    {
        if !stmts[i].is_well_formed() {
            return false;
        }
        i += 1;
    }
    true
}

} // verus!
