//! The evaluator: the tree walk that computes what a program means.

use vstd::prelude::*;
use crate::environment::{lemma_holder, read, Chain, Environment};
use crate::error::{Expected, RuntimeError};
use crate::expr::{Expr, Value};
use crate::number::{Number, Operation};
use crate::semantics::{
    as_number, binary_outcome, binary_step, declares, discarded, evaluates, executes, halts,
    leaves, lifted, prints, runs, stores, total, truthy, values_equal,
};
use crate::stmt::{all_well_formed, Stmt};
use crate::token::Token;
use crate::token_type::TokenType;

verus! {

/// The interpreter's state: the chain of scopes, which lives on from one
/// program to the next, and the values printed so far.
pub struct Interpreter {
    environment: Environment,
    output: Vec<Value>,
}

impl Interpreter {
    /// The chain of scopes, the current scope first.
    pub closed spec fn scopes(self) -> Chain {
        self.environment.chain()
    }

    /// The values printed and not yet taken, the oldest first.
    pub closed spec fn printed(self) -> Seq<Value> {
        self.output@
    }

    /// An interpreter with one empty scope and nothing printed.
    pub fn new() -> (r: Interpreter)
        ensures
            r.scopes() == seq![Map::<Seq<char>, Value>::empty()],
            r.printed() == Seq::<Value>::empty(),
    {
        Interpreter { environment: Environment::new(), output: Vec::new() }
    }

    /// The values printed and not yet taken.
    pub fn output(&self) -> (r: &Vec<Value>)
        ensures
            r@ == self.printed(),
    {
        &self.output
    }

    /// Hands out the values printed so far and forgets them.
    pub fn take_output(&mut self) -> (r: Vec<Value>)
        ensures
            r@ == old(self).printed(),
            final(self).printed() == Seq::<Value>::empty(),
            final(self).scopes() == old(self).scopes(),
    {
        let mut taken: Vec<Value> = Vec::new();
        core::mem::swap(&mut self.output, &mut taken);
        taken
    }

    /// Reads a variable of the current chain.
    pub fn lookup(&self, name: &Token) -> (r: Result<Value, RuntimeError>)
        ensures
            r == read(self.scopes(), *name),
    {
        self.environment.get(name)
    }

    /// Whether a value counts as true: every value but `nil` and `false`.
    pub fn is_truthy(&self, val: &Value) -> (r: bool)
        ensures
            r == truthy(*val),
            r == !(*val is Nil || *val == Value::Boolean(false)),
    {
        match val {
            Value::Nil => false,
            Value::Boolean(b) => *b,
            Value::Number(_) => true,
            Value::String(_) => true,
        }
    }

    /// Whether two values are equal. Values of different kinds never are.
    pub fn is_equal(&self, a: &Value, b: &Value) -> (r: bool)
        ensures
            r == values_equal(*a, *b),
    {
        match a {
            Value::Nil => match b {
                Value::Nil => true,
                _ => false,
            },
            Value::Boolean(x) => match b {
                Value::Boolean(y) => *x == *y,
                _ => false,
            },
            Value::Number(x) => match b {
                Value::Number(y) => x.equals(*y),
                _ => false,
            },
            Value::String(x) => match b {
                Value::String(y) => x.eq(y),
                _ => false,
            },
        }
    }

    /// The operand as a number; any other value is a type mismatch of
    /// `operator`.
    pub fn numeric(&self, operator: &Token, operand: &Value, expected: Expected) -> (r: Result<
        Number,
        RuntimeError,
    >)
        ensures
            r == as_number(*operator, *operand, expected),
    {
        match operand {
            Value::Number(n) => Ok(*n),
            _ => Err(RuntimeError::TypeMismatch { operator: operator.clone(), expected }),
        }
    }

    /// Applies a binary operator to the values of its operands.
    pub fn apply_binary<F: Fn(Operation, Number, Number) -> Number>(
        &self,
        operator: &Token,
        lt: Value,
        rt: Value,
        unit: &F,
    ) -> (r: Result<Value, RuntimeError>)
        requires
            total(*unit),
        ensures
            binary_outcome(*unit, *operator, lt, rt, r),
    {
        match operator.type_ {
            TokenType::Greater => {
                let a = self.numeric(operator, &lt, Expected::Numbers)?;
                let b = self.numeric(operator, &rt, Expected::Numbers)?;
                Ok(Value::Boolean(a.greater(b)))
            },
            TokenType::GreaterEqual => {
                let a = self.numeric(operator, &lt, Expected::Numbers)?;
                let b = self.numeric(operator, &rt, Expected::Numbers)?;
                Ok(Value::Boolean(a.greater_equal(b)))
            },
            TokenType::Less => {
                let a = self.numeric(operator, &lt, Expected::Numbers)?;
                let b = self.numeric(operator, &rt, Expected::Numbers)?;
                Ok(Value::Boolean(a.less(b)))
            },
            TokenType::LessEqual => {
                let a = self.numeric(operator, &lt, Expected::Numbers)?;
                let b = self.numeric(operator, &rt, Expected::Numbers)?;
                Ok(Value::Boolean(a.less_equal(b)))
            },
            TokenType::Minus => {
                let a = self.numeric(operator, &lt, Expected::Numbers)?;
                let b = self.numeric(operator, &rt, Expected::Numbers)?;
                Ok(Value::Number(unit(Operation::Subtract, a, b)))
            },
            TokenType::Plus => match (lt, rt) {
                (Value::String(l), Value::String(r)) => Ok(Value::String(l.concat(r.as_str()))),
                (Value::Number(l), Value::Number(r)) => Ok(
                    Value::Number(unit(Operation::Add, l, r)),
                ),
                (_, _) => Err(
                    RuntimeError::TypeMismatch {
                        operator: operator.clone(),
                        expected: Expected::NumbersOrStrings,
                    },
                ),
            },
            TokenType::Slash => {
                let a = self.numeric(operator, &lt, Expected::Numbers)?;
                let b = self.numeric(operator, &rt, Expected::Numbers)?;
                Ok(Value::Number(unit(Operation::Divide, a, b)))
            },
            TokenType::Star => {
                let a = self.numeric(operator, &lt, Expected::Numbers)?;
                let b = self.numeric(operator, &rt, Expected::Numbers)?;
                Ok(Value::Number(unit(Operation::Multiply, a, b)))
            },
            TokenType::BangEqual => Ok(Value::Boolean(!self.is_equal(&lt, &rt))),
            TokenType::EqualEqual => Ok(Value::Boolean(self.is_equal(&lt, &rt))),
            _ => Ok(Value::Nil),
        }
    }

    /// Evaluates an expression in the current chain.
    pub fn evaluate<F: Fn(Operation, Number, Number) -> Number>(
        &mut self,
        expr: &Expr,
        unit: &F,
    ) -> (r: Result<Value, RuntimeError>)
        requires
            total(*unit),
            expr.well_formed(),
        ensures
            evaluates(*unit, old(self).scopes(), *expr, final(self).scopes(), r),
            final(self).scopes().len() == old(self).scopes().len(),
            final(self).printed() == old(self).printed(),
        decreases expr.size(), 1nat,
    {
        match expr {
            Expr::Assign { name, value } => self.visit_assignment(name, value, unit),
            Expr::Binary { left, operator, right } => self.visit_binary(
                left,
                operator,
                right,
                unit,
            ),
            Expr::Grouping { expression } => self.visit_grouping(expression, unit),
            Expr::Literal { value } => self.visit_literal(value),
            Expr::Unary { operator, right } => self.visit_unary(operator, right, unit),
            Expr::Variable { name } => self.visit_variable(name),
        }
    }

    /// An assignment evaluates its right-hand side, stores the value in the
    /// innermost scope that binds the name, and gives the value.
    pub fn visit_assignment<F: Fn(Operation, Number, Number) -> Number>(
        &mut self,
        name: &Token,
        value: &Expr,
        unit: &F,
    ) -> (r: Result<Value, RuntimeError>)
        requires
            total(*unit),
            value.well_formed(),
        ensures
            evaluates(
                *unit,
                old(self).scopes(),
                Expr::Assign { name: *name, value: Box::new(*value) },
                final(self).scopes(),
                r,
            ),
            final(self).scopes().len() == old(self).scopes().len(),
            final(self).printed() == old(self).printed(),
        decreases value.size() + 1, 0nat,
    {
        let inner = self.evaluate(value, unit);
        let ghost mid = self.scopes();
        let ghost seen = inner;
        let r = match inner {
            Err(e) => Err(e),
            Ok(val) => match self.environment.assign(name, val.clone()) {
                Ok(_) => Ok(val),
                Err(e) => Err(e),
            },
        };
        proof {
            lemma_holder(mid, name.lexeme@);
            assert(stores(mid, *name, seen, self.scopes(), r));
        }
        r
    }

    /// A literal gives its value.
    pub fn visit_literal(&self, val: &Value) -> (r: Result<Value, RuntimeError>)
        ensures
            r == Ok::<Value, RuntimeError>(*val),
    {
        Ok(val.clone())
    }

    /// A grouping gives what its inner expression gives.
    pub fn visit_grouping<F: Fn(Operation, Number, Number) -> Number>(
        &mut self,
        expression: &Expr,
        unit: &F,
    ) -> (r: Result<Value, RuntimeError>)
        requires
            total(*unit),
            expression.well_formed(),
        ensures
            evaluates(*unit, old(self).scopes(), *expression, final(self).scopes(), r),
            final(self).scopes().len() == old(self).scopes().len(),
            final(self).printed() == old(self).printed(),
        decreases expression.size() + 1, 0nat,
    {
        self.evaluate(expression, unit)
    }

    /// A binary expression evaluates its left operand, then its right one,
    /// and applies the operator to the two values.
    pub fn visit_binary<F: Fn(Operation, Number, Number) -> Number>(
        &mut self,
        left: &Expr,
        operator: &Token,
        right: &Expr,
        unit: &F,
    ) -> (r: Result<Value, RuntimeError>)
        requires
            total(*unit),
            left.well_formed(),
            right.well_formed(),
        ensures
            evaluates(
                *unit,
                old(self).scopes(),
                Expr::Binary {
                    left: Box::new(*left),
                    operator: *operator,
                    right: Box::new(*right),
                },
                final(self).scopes(),
                r,
            ),
            final(self).scopes().len() == old(self).scopes().len(),
            final(self).printed() == old(self).printed(),
        decreases left.size() + right.size() + 1, 0nat,
    {
        let first = self.evaluate(left, unit);
        let ghost mid = self.scopes();
        let ghost seen_first = first;
        let lt = match first {
            Err(e) => {
                proof {
                    assert(binary_step(
                        *unit,
                        *operator,
                        mid,
                        seen_first,
                        seen_first,
                        mid,
                        seen_first,
                    ));
                }
                return Err(e);
            },
            Ok(v) => v,
        };
        let second = self.evaluate(right, unit);
        let ghost seen_second = second;
        let r = match second {
            Err(e) => Err(e),
            Ok(rt) => self.apply_binary(operator, lt, rt, unit),
        };
        proof {
            assert(binary_step(*unit, *operator, mid, seen_first, seen_second, self.scopes(), r));
        }
        r
    }

    /// A unary expression evaluates its operand and applies the operator.
    pub fn visit_unary<F: Fn(Operation, Number, Number) -> Number>(
        &mut self,
        operator: &Token,
        expr: &Expr,
        unit: &F,
    ) -> (r: Result<Value, RuntimeError>)
        requires
            total(*unit),
            expr.well_formed(),
            operator.type_ is Minus || operator.type_ is Bang,
        ensures
            evaluates(
                *unit,
                old(self).scopes(),
                Expr::Unary { operator: *operator, right: Box::new(*expr) },
                final(self).scopes(),
                r,
            ),
            final(self).scopes().len() == old(self).scopes().len(),
            final(self).printed() == old(self).printed(),
        decreases expr.size() + 1, 0nat,
    {
        let inner = self.evaluate(expr, unit);
        let ghost seen = inner;
        let r = match inner {
            Err(e) => Err(e),
            Ok(right) => match operator.type_ {
                TokenType::Minus => match self.numeric(operator, &right, Expected::Number) {
                    Ok(n) => Ok(Value::Number(n.negate())),
                    Err(e) => Err(e),
                },
                _ => Ok(Value::Boolean(!self.is_truthy(&right))),
            },
        };
        proof {
            assert(r == lifted(*operator, seen));
        }
        r
    }

    /// A variable gives the value that the innermost scope binding it holds.
    pub fn visit_variable(&self, name: &Token) -> (r: Result<Value, RuntimeError>)
        ensures
            r == read(self.scopes(), *name),
    {
        self.environment.get(name)
    }

    /// Executes one statement.
    pub fn execute<F: Fn(Operation, Number, Number) -> Number>(
        &mut self,
        stmt: &Stmt,
        unit: &F,
    ) -> (r: Result<(), RuntimeError>)
        requires
            total(*unit),
            stmt.well_formed(),
        ensures
            executes(
                *unit,
                old(self).scopes(),
                old(self).printed(),
                *stmt,
                final(self).scopes(),
                final(self).printed(),
                r,
            ),
            final(self).scopes().len() == old(self).scopes().len(),
        decreases *stmt,
    {
        match stmt {
            Stmt::Expression { expr } => self.visit_expression(expr, unit),
            Stmt::Print { expr } => self.visit_print(expr, unit),
            Stmt::Var { name, initializer } => self.visit_var(name, initializer, unit),
            Stmt::Block { stmts } => self.visit_block(stmts, unit),
        }
    }

    /// A block runs its statements in a fresh scope inside the current one.
    /// The scope is given up when the block ends, also when it ends in a
    /// failure.
    pub fn visit_block<F: Fn(Operation, Number, Number) -> Number>(
        &mut self,
        stmts: &Vec<Stmt>,
        unit: &F,
    ) -> (r: Result<(), RuntimeError>)
        requires
            total(*unit),
            all_well_formed(stmts@),
        ensures
            executes(
                *unit,
                old(self).scopes(),
                old(self).printed(),
                Stmt::Block { stmts: *stmts },
                final(self).scopes(),
                final(self).printed(),
                r,
            ),
            final(self).scopes().len() == old(self).scopes().len(),
        decreases *stmts,
    {
        let ghost before = self.scopes();
        proof {
            self.environment.lemma_chain_not_empty();
        }
        let mut prev = Environment::new();
        core::mem::swap(&mut self.environment, &mut prev);
        self.environment = Environment::from(prev);
        let ghost entered = self.scopes();
        let r = self.run(stmts, unit);
        let ghost inner = self.scopes();
        let mut scope = Environment::new();
        core::mem::swap(&mut self.environment, &mut scope);
        match scope.into_enclosing() {
            Some(outer) => {
                self.environment = outer;
            },
            // The chain that the block ran in has the block's scope and, around it,
            // the scopes from before.
            None => {},
        }
        proof {
            assert(entered.len() == before.len() + 1);
            assert(inner.len() == entered.len());
            assert(leaves(inner, self.scopes()));
        }
        r
    }

    /// Runs statements in order in the current scope, up to the first
    /// failure.
    fn run<F: Fn(Operation, Number, Number) -> Number>(
        &mut self,
        stmts: &Vec<Stmt>,
        unit: &F,
    ) -> (r: Result<(), RuntimeError>)
        requires
            total(*unit),
            all_well_formed(stmts@),
        ensures
            runs(
                *unit,
                old(self).scopes(),
                old(self).printed(),
                stmts@,
                0,
                final(self).scopes(),
                final(self).printed(),
                r,
            ),
            final(self).scopes().len() == old(self).scopes().len(),
        decreases *stmts, 1nat,
    {
        let mut i: usize = 0;
        while i < stmts.len()
            invariant
                0 <= i <= stmts@.len(),
                total(*unit),
                all_well_formed(stmts@),
                self.scopes().len() == old(self).scopes().len(),
                forall|after: Chain, shown: Seq<Value>, outcome: Result<(), RuntimeError>|
                    runs(
                        *unit,
                        self.scopes(),
                        self.printed(),
                        stmts@,
                        i as int,
                        after,
                        shown,
                        outcome,
                    ) ==> #[trigger] runs(
                        *unit,
                        old(self).scopes(),
                        old(self).printed(),
                        stmts@,
                        0,
                        after,
                        shown,
                        outcome,
                    ),
            decreases stmts@.len() - i,
        {
            let ghost before = self.scopes();
            let ghost printed = self.printed();
            let first = self.execute(&stmts[i], unit);
            let ghost seen = first;
            match first {
                Err(e) => {
                    proof {
                        assert(halts(
                            Err::<(), RuntimeError>(e),
                            self.scopes(),
                            self.printed(),
                            self.scopes(),
                            self.printed(),
                            Err::<(), RuntimeError>(e),
                        ));
                        assert(runs(
                            *unit,
                            before,
                            printed,
                            stmts@,
                            i as int,
                            self.scopes(),
                            self.printed(),
                            Err::<(), RuntimeError>(e),
                        ));
                    }
                    return Err(e);
                },
                Ok(_) => {
                    proof {
                        let mid = self.scopes();
                        let between = self.printed();
                        assert forall|
                            after: Chain,
                            shown: Seq<Value>,
                            outcome: Result<(), RuntimeError>,
                        |
                            runs(
                                *unit,
                                mid,
                                between,
                                stmts@,
                                i + 1,
                                after,
                                shown,
                                outcome,
                            ) implies runs(
                            *unit,
                            before,
                            printed,
                            stmts@,
                            i as int,
                            after,
                            shown,
                            outcome,
                        ) by {
                            assert(halts(seen, mid, between, after, shown, outcome));
                        }
                    }
                },
            }
            i += 1;
        }
        Ok(())
    }

    /// A print statement evaluates its expression and adds the value to the
    /// output.
    pub fn visit_print<F: Fn(Operation, Number, Number) -> Number>(
        &mut self,
        expr: &Expr,
        unit: &F,
    ) -> (r: Result<(), RuntimeError>)
        requires
            total(*unit),
            expr.well_formed(),
        ensures
            executes(
                *unit,
                old(self).scopes(),
                old(self).printed(),
                Stmt::Print { expr: Box::new(*expr) },
                final(self).scopes(),
                final(self).printed(),
                r,
            ),
            final(self).scopes().len() == old(self).scopes().len(),
    {
        let ghost printed = self.printed();
        let val = self.evaluate(expr, unit);
        let ghost seen = val;
        let r = match val {
            Err(e) => Err(e),
            Ok(v) => {
                self.output.push(v);
                Ok(())
            },
        };
        proof {
            assert(prints(printed, seen, self.printed(), r));
        }
        r
    }

    /// An expression statement evaluates its expression and drops the value.
    pub fn visit_expression<F: Fn(Operation, Number, Number) -> Number>(
        &mut self,
        expr: &Expr,
        unit: &F,
    ) -> (r: Result<(), RuntimeError>)
        requires
            total(*unit),
            expr.well_formed(),
        ensures
            executes(
                *unit,
                old(self).scopes(),
                old(self).printed(),
                Stmt::Expression { expr: Box::new(*expr) },
                final(self).scopes(),
                final(self).printed(),
                r,
            ),
            final(self).scopes().len() == old(self).scopes().len(),
    {
        let val = self.evaluate(expr, unit);
        let ghost seen = val;
        let r = match val {
            Err(e) => Err(e),
            Ok(_) => Ok(()),
        };
        proof {
            assert(r == discarded(seen));
        }
        r
    }

    /// A declaration evaluates its initializer and binds the name in the
    /// current scope.
    pub fn visit_var<F: Fn(Operation, Number, Number) -> Number>(
        &mut self,
        name: &Token,
        initializer: &Expr,
        unit: &F,
    ) -> (r: Result<(), RuntimeError>)
        requires
            total(*unit),
            initializer.well_formed(),
        ensures
            executes(
                *unit,
                old(self).scopes(),
                old(self).printed(),
                Stmt::Var { name: *name, initializer: Box::new(*initializer) },
                final(self).scopes(),
                final(self).printed(),
                r,
            ),
            final(self).scopes().len() == old(self).scopes().len(),
    {
        let val = self.evaluate(initializer, unit);
        let ghost mid = self.scopes();
        let ghost seen = val;
        proof {
            self.environment.lemma_chain_not_empty();
        }
        let r = match val {
            Err(e) => Err(e),
            Ok(v) => {
                self.environment.define(name.lexeme.as_str(), v);
                Ok(())
            },
        };
        proof {
            assert(declares(mid, *name, seen, self.scopes(), r));
        }
        r
    }

    /// Runs a program: its statements in order, each seeing what the ones
    /// before it did. The first failure ends the run; what was printed and
    /// bound before it stays.
    pub fn interpret<F: Fn(Operation, Number, Number) -> Number>(
        &mut self,
        stmts: &Vec<Stmt>,
        unit: &F,
    ) -> (r: Result<(), RuntimeError>)
        requires
            total(*unit),
            all_well_formed(stmts@),
        ensures
            runs(
                *unit,
                old(self).scopes(),
                old(self).printed(),
                stmts@,
                0,
                final(self).scopes(),
                final(self).printed(),
                r,
            ),
            final(self).scopes().len() == old(self).scopes().len(),
    {
        self.run(stmts, unit)
    }
}

} // verus!
