//! Runtime values and expression trees.

use vstd::prelude::*;
use crate::number::Number;
use crate::token::Token;
use crate::token_type::TokenType;

verus! {

/// A runtime value.
#[derive(Debug, PartialEq)]
pub enum Value {
    Nil,
    Boolean(bool),
    Number(Number),
    String(String),
}

impl Clone for Value {
    fn clone(&self) -> (r: Self)
        ensures
            r == *self,
    {
        match self {
            Value::Nil => Value::Nil,
            Value::Boolean(b) => Value::Boolean(*b),
            Value::Number(n) => Value::Number(*n),
            Value::String(s) => Value::String(s.clone()),
        }
    }
}

/// An expression. Each node owns its children.
#[allow(inconsistent_fields)]
#[derive(Debug, PartialEq)]
pub enum Expr {
    Assign { name: Token, value: Box<Expr> },
    Binary { left: Box<Expr>, operator: Token, right: Box<Expr> },
    Grouping { expression: Box<Expr> },
    Literal { value: Value },
    Unary { operator: Token, right: Box<Expr> },
    Variable { name: Token },
}

impl Clone for Expr {
    fn clone(&self) -> (r: Self)
        ensures
            r == *self,
        decreases *self,
    {
        match self {
            Expr::Assign { name, value } => Expr::Assign {
                name: name.clone(),
                value: Box::new(Expr::clone(value)),
            },
            Expr::Binary { left, operator, right } => Expr::Binary {
                left: Box::new(Expr::clone(left)),
                operator: operator.clone(),
                right: Box::new(Expr::clone(right)),
            },
            Expr::Grouping { expression } => Expr::Grouping {
                expression: Box::new(Expr::clone(expression)),
            },
            Expr::Literal { value } => Expr::Literal { value: value.clone() },
            Expr::Unary { operator, right } => Expr::Unary {
                operator: operator.clone(),
                right: Box::new(Expr::clone(right)),
            },
            Expr::Variable { name } => Expr::Variable { name: name.clone() },
        }
    }
}

impl From<bool> for Value {
    fn from(b: bool) -> (r: Value)
        ensures
            r == Value::Boolean(b),
    {
        Value::Boolean(b)
    }
}

impl vstd::std_specs::convert::FromSpecImpl<bool> for Value {
    open spec fn obeys_from_spec() -> bool {
        true
    }

    open spec fn from_spec(b: bool) -> Value {
        Value::Boolean(b)
    }
}

impl From<Number> for Value {
    fn from(n: Number) -> (r: Value)
        ensures
            r == Value::Number(n),
    {
        Value::Number(n)
    }
}

impl vstd::std_specs::convert::FromSpecImpl<Number> for Value {
    open spec fn obeys_from_spec() -> bool {
        true
    }

    open spec fn from_spec(n: Number) -> Value {
        Value::Number(n)
    }
}

impl From<String> for Value {
    fn from(s: String) -> (r: Value)
        ensures
            r == Value::String(s),
    {
        Value::String(s)
    }
}

impl vstd::std_specs::convert::FromSpecImpl<String> for Value {
    open spec fn obeys_from_spec() -> bool {
        true
    }

    open spec fn from_spec(s: String) -> Value {
        Value::String(s)
    }
}

/// An operation over expressions, one method for each shape of node.
///
/// `visits` says what a visit of a node may do to the visitor and give; each
/// method promises it for its own shape of node, and `Expr::accept` hands a
/// node to the method of its shape.
pub trait Visitor<T>: Sized {
    /// A visit of `expr` may take the visitor from `before` to `after` and
    /// give `result`.
    spec fn visits(before: Self, expr: Expr, after: Self, result: T) -> bool;

    fn visit_assignment(&mut self, name: &Token, value: &Expr) -> (r: T)
        ensures
            Self::visits(
                *old(self),
                Expr::Assign { name: *name, value: Box::new(*value) },
                *final(self),
                r,
            ),
    ;

    fn visit_binary(&mut self, left: &Expr, operator: &Token, right: &Expr) -> (r: T)
        ensures
            Self::visits(
                *old(self),
                Expr::Binary {
                    left: Box::new(*left),
                    operator: *operator,
                    right: Box::new(*right),
                },
                *final(self),
                r,
            ),
    ;

    fn visit_grouping(&mut self, expression: &Expr) -> (r: T)
        ensures
            Self::visits(
                *old(self),
                Expr::Grouping { expression: Box::new(*expression) },
                *final(self),
                r,
            ),
    ;

    fn visit_literal(&self, value: &Value) -> (r: T)
        ensures
            Self::visits(*self, Expr::Literal { value: *value }, *self, r),
    ;

    fn visit_unary(&mut self, operator: &Token, right: &Expr) -> (r: T)
        ensures
            Self::visits(
                *old(self),
                Expr::Unary { operator: *operator, right: Box::new(*right) },
                *final(self),
                r,
            ),
    ;

    fn visit_variable(&self, name: &Token) -> (r: T)
        ensures
            Self::visits(*self, Expr::Variable { name: *name }, *self, r),
    ;
}

impl Expr {
    /// Hands the node to the method of `visitor` for its shape.
    pub fn accept<T, V: Visitor<T>>(&self, visitor: &mut V) -> (r: T)
        ensures
            V::visits(*old(visitor), *self, *final(visitor), r),
    {
        match self {
            Expr::Assign { name, value } => visitor.visit_assignment(name, value),
            Expr::Binary { left, operator, right } => visitor.visit_binary(left, operator, right),
            Expr::Grouping { expression } => visitor.visit_grouping(expression),
            Expr::Literal { value } => visitor.visit_literal(value),
            Expr::Unary { operator, right } => visitor.visit_unary(operator, right),
            Expr::Variable { name } => visitor.visit_variable(name),
        }
    }

    /// The number of nodes of the tree.
    pub open spec fn size(self) -> nat
        decreases self,
    {
        match self {
            Expr::Assign { name, value } => 1 + value.size(),
            Expr::Binary { left, operator, right } => 1 + left.size() + right.size(),
            Expr::Grouping { expression } => 1 + expression.size(),
            Expr::Literal { value } => 1,
            Expr::Unary { operator, right } => 1 + right.size(),
            Expr::Variable { name } => 1,
        }
    }

    /// Every unary node of the tree carries `-` or `!`, the two unary
    /// operators there are.
    pub open spec fn well_formed(self) -> bool
        decreases self,
    {
        match self {
            Expr::Assign { name, value } => value.well_formed(),
            Expr::Binary { left, operator, right } => left.well_formed() && right.well_formed(),
            Expr::Grouping { expression } => expression.well_formed(),
            Expr::Literal { value } => true,
            Expr::Unary { operator, right } => (operator.type_ is Minus || operator.type_ is Bang)
                && right.well_formed(),
            Expr::Variable { name } => true,
        }
    }

    /// Whether the tree is well formed.
    pub fn is_well_formed(&self) -> (r: bool)
        ensures
            r == self.well_formed(),
        decreases *self,
    {
        match self {
            Expr::Assign { name, value } => value.is_well_formed(),
            Expr::Binary { left, operator, right } => left.is_well_formed()
                && right.is_well_formed(),
            Expr::Grouping { expression } => expression.is_well_formed(),
            Expr::Literal { value } => true,
            Expr::Unary { operator, right } => {
                let unary = match operator.type_ {
                    TokenType::Minus => true,
                    TokenType::Bang => true,
                    _ => false,
                };
                unary && right.is_well_formed()
            },
            Expr::Variable { name } => true,
        }
    }
}

impl Value {
    /// What `text` writes for a value: `nil`, `true` or `false`, the contents
    /// of a string as they are, and for a number whatever `format` gives.
    pub open spec fn written<F: Fn(Number) -> String>(self, format: F, text: String) -> bool {
        match self {
            Value::Nil => text@ == "nil"@,
            Value::Boolean(b) => text@ == (if b { "true"@ } else { "false"@ }),
            Value::Number(n) => format.ensures((n,), text),
            Value::String(s) => text@ == s@,
        }
    }

    /// The canonical text of a value. A number is written by `format`, which
    /// stands for the host's way of printing a double.
    pub fn text<F: Fn(Number) -> String>(&self, format: &F) -> (r: String)
        requires
            forall|n: Number| format.requires((n,)),
        ensures
            self.written(*format, r),
    {
        match self {
            Value::Nil => "nil".to_owned(),
            Value::Boolean(b) => if *b {
                "true".to_owned()
            } else {
                "false".to_owned()
            },
            Value::Number(n) => format(*n),
            Value::String(s) => s.clone(),
        }
    }
}

} // verus!
