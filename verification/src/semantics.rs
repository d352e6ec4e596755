//! What a program means.
//!
//! The meaning is stated as relations between the state before, the tree and
//! the state after. They are relations because the four arithmetic operations
//! are the caller's: `unit` stands for the host's floating-point unit, and a
//! result of it is whatever `unit` may return for the operands.

use vstd::prelude::*;
use crate::environment::{assigned, bound, declared, lemma_assignment_updates_holder, read, Chain};
use crate::error::{Expected, RuntimeError};
use crate::expr::{Expr, Value};
use crate::number::{Number, Operation};
use crate::stmt::Stmt;
use crate::token::Token;
use crate::token_type::TokenType;

verus! {

/// The unit accepts every request.
pub open spec fn total<F: Fn(Operation, Number, Number) -> Number>(unit: F) -> bool {
    forall|operation: Operation, a: Number, b: Number| #[trigger] unit.requires((operation, a, b))
}

/// `nil` and `false` are falsy, every other value is truthy.
pub open spec fn truthy(value: Value) -> bool {
    match value {
        Value::Nil => false,
        Value::Boolean(b) => b,
        Value::Number(_) => true,
        Value::String(_) => true,
    }
}

/// Equality of values. Values of different kinds are never equal; numbers
/// are compared as IEEE 754 compares them, strings by their text.
pub open spec fn values_equal(a: Value, b: Value) -> bool {
    match (a, b) {
        (Value::Nil, Value::Nil) => true,
        (Value::Boolean(x), Value::Boolean(y)) => x == y,
        (Value::Number(x), Value::Number(y)) => x.same(y),
        (Value::String(x), Value::String(y)) => x@ == y@,
        _ => false,
    }
}

/// The failure of an operator whose operands are of the wrong kind.
pub open spec fn mismatch(operator: Token, expected: Expected) -> RuntimeError {
    RuntimeError::TypeMismatch { operator, expected }
}

/// The operand as a number, or the failure of `operator`.
pub open spec fn as_number(operator: Token, operand: Value, expected: Expected) -> Result<
    Number,
    RuntimeError,
> {
    match operand {
        Value::Number(n) => Ok(n),
        _ => Err(mismatch(operator, expected)),
    }
}

/// The two operands, where both are numbers.
pub open spec fn numbers(left: Value, right: Value) -> Option<(Number, Number)> {
    match (left, right) {
        (Value::Number(a), Value::Number(b)) => Some((a, b)),
        _ => None,
    }
}

/// The kind is one of `>`, `>=`, `<`, `<=`.
pub open spec fn is_ordering(kind: TokenType) -> bool {
    kind is Greater || kind is GreaterEqual || kind is Less || kind is LessEqual
}

/// What an ordering operator says of two numbers.
pub open spec fn ordered(kind: TokenType, a: Number, b: Number) -> bool {
    match kind {
        TokenType::Greater => b.below(a),
        TokenType::GreaterEqual => b.at_most(a),
        TokenType::Less => a.below(b),
        _ => a.at_most(b),
    }
}

/// The arithmetic that an operator asks for, if it asks for any.
pub open spec fn operation_of(kind: TokenType) -> Option<Operation> {
    match kind {
        TokenType::Plus => Some(Operation::Add),
        TokenType::Minus => Some(Operation::Subtract),
        TokenType::Star => Some(Operation::Multiply),
        TokenType::Slash => Some(Operation::Divide),
        _ => None,
    }
}

/// What a unary operator makes of its operand. `-` wants a number and flips
/// its sign; `!` takes any value and gives the opposite of its truthiness.
pub open spec fn unary_outcome(operator: Token, operand: Value) -> Result<Value, RuntimeError>
    recommends
        operator.type_ is Minus || operator.type_ is Bang,
{
    if operator.type_ is Minus {
        match operand {
            Value::Number(n) => Ok(Value::Number(n.opposite())),
            _ => Err(mismatch(operator, Expected::Number)),
        }
    } else {
        Ok(Value::Boolean(!truthy(operand)))
    }
}

/// What a unary operator makes of the outcome of its operand: a failure
/// stays the failure it is.
pub open spec fn lifted(operator: Token, inner: Result<Value, RuntimeError>) -> Result<
    Value,
    RuntimeError,
> {
    match inner {
        Err(e) => Err(e),
        Ok(operand) => unary_outcome(operator, operand),
    }
}

/// `outcome` is what a binary operator may make of its two operands.
///
/// The ordering operators and `-`, `*`, `/` want two numbers. `+` wants two
/// numbers or two strings, and joins the strings. `==` and `!=` take any two
/// values and never fail. An arithmetic result is one that `unit` may return
/// for the operation and the operands. Any other token gives `nil`.
pub open spec fn binary_outcome<F: Fn(Operation, Number, Number) -> Number>(
    unit: F,
    operator: Token,
    left: Value,
    right: Value,
    outcome: Result<Value, RuntimeError>,
) -> bool {
    let kind = operator.type_;
    if is_ordering(kind) {
        outcome == (match numbers(left, right) {
            Some((a, b)) => Ok::<Value, RuntimeError>(Value::Boolean(ordered(kind, a, b))),
            None => Err::<Value, RuntimeError>(mismatch(operator, Expected::Numbers)),
        })
    } else if kind is Plus {
        match (left, right) {
            (Value::Number(a), Value::Number(b)) => outcome matches Ok(Value::Number(n))
                && unit.ensures((Operation::Add, a, b), n),
            (Value::String(a), Value::String(b)) => outcome matches Ok(Value::String(s)) && s@
                == a@ + b@,
            _ => outcome == Err::<Value, RuntimeError>(
                mismatch(operator, Expected::NumbersOrStrings),
            ),
        }
    } else if operation_of(kind) is Some {
        match numbers(left, right) {
            Some((a, b)) => outcome matches Ok(Value::Number(n)) && unit.ensures(
                (operation_of(kind)->0, a, b),
                n,
            ),
            None => outcome == Err::<Value, RuntimeError>(mismatch(operator, Expected::Numbers)),
        }
    } else if kind is EqualEqual {
        outcome == Ok::<Value, RuntimeError>(Value::Boolean(values_equal(left, right)))
    } else if kind is BangEqual {
        outcome == Ok::<Value, RuntimeError>(Value::Boolean(!values_equal(left, right)))
    } else {
        outcome == Ok::<Value, RuntimeError>(Value::Nil)
    }
}

/// What an assignment of `inner`, the outcome of its right-hand side, does to
/// the chain `mid` and gives: the value is stored in the innermost scope that
/// binds the name and is the result; an unbound name is a failure and
/// nothing is stored.
pub open spec fn stores(
    mid: Chain,
    name: Token,
    inner: Result<Value, RuntimeError>,
    after: Chain,
    outcome: Result<Value, RuntimeError>,
) -> bool {
    match inner {
        Err(e) => after == mid && outcome == Err::<Value, RuntimeError>(e),
        Ok(value) => after == assigned(mid, name.lexeme@, value) && outcome == (if bound(
            mid,
            name.lexeme@,
        ) {
            Ok::<Value, RuntimeError>(value)
        } else {
            Err::<Value, RuntimeError>(RuntimeError::UndefinedVariable { name })
        }),
    }
}

/// What a binary operator makes of the value `l` of its left operand and the
/// outcome `second` of its right one.
pub open spec fn combines<F: Fn(Operation, Number, Number) -> Number>(
    unit: F,
    operator: Token,
    l: Value,
    second: Result<Value, RuntimeError>,
    outcome: Result<Value, RuntimeError>,
) -> bool {
    match second {
        Err(e) => outcome == Err::<Value, RuntimeError>(e),
        Ok(r) => binary_outcome(unit, operator, l, r, outcome),
    }
}

/// How a binary expression ends, given the outcome `first` of its left
/// operand, which left the chain `mid`, and the outcome `second` of its right
/// operand: a failure on the left ends it there, with the chain as it is.
pub open spec fn binary_step<F: Fn(Operation, Number, Number) -> Number>(
    unit: F,
    operator: Token,
    mid: Chain,
    first: Result<Value, RuntimeError>,
    second: Result<Value, RuntimeError>,
    after: Chain,
    outcome: Result<Value, RuntimeError>,
) -> bool {
    match first {
        Err(e) => after == mid && outcome == Err::<Value, RuntimeError>(e),
        Ok(l) => combines(unit, operator, l, second, outcome),
    }
}

/// Evaluating `expr` in the chain `before` may leave the chain `after` and
/// give `outcome`.
///
/// Operands are evaluated from left to right, and the first failure ends the
/// evaluation. Only an assignment changes the chain.
pub open spec fn evaluates<F: Fn(Operation, Number, Number) -> Number>(
    unit: F,
    before: Chain,
    expr: Expr,
    after: Chain,
    outcome: Result<Value, RuntimeError>,
) -> bool
    decreases expr,
{
    match expr {
        Expr::Literal { value } => after == before && outcome == Ok::<Value, RuntimeError>(value),
        Expr::Grouping { expression } => evaluates(unit, before, *expression, after, outcome),
        Expr::Variable { name } => after == before && outcome == read(before, name),
        Expr::Assign { name, value } => exists|mid: Chain, inner: Result<Value, RuntimeError>|
            evaluates(unit, before, *value, mid, inner) && #[trigger] stores(
                mid,
                name,
                inner,
                after,
                outcome,
            ),
        Expr::Unary { operator, right } => exists|inner: Result<Value, RuntimeError>|
            evaluates(unit, before, *right, after, inner) && outcome == #[trigger] lifted(
                operator,
                inner,
            ),
        Expr::Binary { left, operator, right } => exists|
            mid: Chain,
            first: Result<Value, RuntimeError>,
            second: Result<Value, RuntimeError>,
        |
            evaluates(unit, before, *left, mid, first) && (first is Ok ==> evaluates(
                unit,
                mid,
                *right,
                after,
                second,
            )) && #[trigger] binary_step(unit, operator, mid, first, second, after, outcome),
    }
}

/// An expression statement drops the value and keeps the failure.
pub open spec fn discarded(value: Result<Value, RuntimeError>) -> Result<(), RuntimeError> {
    match value {
        Err(e) => Err(e),
        Ok(_) => Ok(()),
    }
}

/// A print statement adds the value to the output; a failure adds nothing.
pub open spec fn prints(
    printed: Seq<Value>,
    value: Result<Value, RuntimeError>,
    shown: Seq<Value>,
    outcome: Result<(), RuntimeError>,
) -> bool {
    match value {
        Err(e) => shown == printed && outcome == Err::<(), RuntimeError>(e),
        Ok(v) => shown == printed.push(v) && outcome == Ok::<(), RuntimeError>(()),
    }
}

/// A declaration binds the name to the value in the innermost scope of
/// `mid`; a failure binds nothing.
pub open spec fn declares(
    mid: Chain,
    name: Token,
    value: Result<Value, RuntimeError>,
    after: Chain,
    outcome: Result<(), RuntimeError>,
) -> bool {
    match value {
        Err(e) => after == mid && outcome == Err::<(), RuntimeError>(e),
        Ok(v) => after == declared(mid, name.lexeme@, v) && outcome == Ok::<(), RuntimeError>(()),
    }
}

/// The chain `after` is `inner` without its innermost scope.
pub open spec fn leaves(inner: Chain, after: Chain) -> bool {
    inner.len() > 0 && after == inner.drop_first()
}

/// A failure of a statement ends the run where the statement left it.
pub open spec fn halts(
    first: Result<(), RuntimeError>,
    mid: Chain,
    between: Seq<Value>,
    after: Chain,
    shown: Seq<Value>,
    outcome: Result<(), RuntimeError>,
) -> bool {
    match first {
        Err(e) => after == mid && shown == between && outcome == Err::<(), RuntimeError>(e),
        Ok(_) => true,
    }
}

/// Executing `stmt` with the chain `before` and the output `printed` may
/// leave the chain `after` and the output `shown`, and end as `outcome`.
///
/// A print statement adds its value to the output. A declaration binds its
/// name in the innermost scope. A block runs its statements in a fresh
/// innermost scope, which is gone when the block ends, however it ends.
pub open spec fn executes<F: Fn(Operation, Number, Number) -> Number>(
    unit: F,
    before: Chain,
    printed: Seq<Value>,
    stmt: Stmt,
    after: Chain,
    shown: Seq<Value>,
    outcome: Result<(), RuntimeError>,
) -> bool
    decreases stmt,
{
    match stmt {
        Stmt::Expression { expr } => shown == printed && exists|value: Result<Value, RuntimeError>|
            evaluates(unit, before, *expr, after, value) && outcome == #[trigger] discarded(value),
        Stmt::Print { expr } => exists|value: Result<Value, RuntimeError>|
            evaluates(unit, before, *expr, after, value) && #[trigger] prints(
                printed,
                value,
                shown,
                outcome,
            ),
        Stmt::Var { name, initializer } => shown == printed && exists|
            mid: Chain,
            value: Result<Value, RuntimeError>,
        |
            evaluates(unit, before, *initializer, mid, value) && #[trigger] declares(
                mid,
                name,
                value,
                after,
                outcome,
            ),
        Stmt::Block { stmts } => exists|inner: Chain|
            runs(
                unit,
                seq![Map::<Seq<char>, Value>::empty()] + before,
                printed,
                stmts@,
                0,
                inner,
                shown,
                outcome,
            ) && #[trigger] leaves(inner, after),
    }
}

/// Running the statements of `stmts` from index `from` on, in order, may
/// leave the chain `after` and the output `shown`, and end as `outcome`. The
/// first failure ends the run.
pub open spec fn runs<F: Fn(Operation, Number, Number) -> Number>(
    unit: F,
    before: Chain,
    printed: Seq<Value>,
    stmts: Seq<Stmt>,
    from: int,
    after: Chain,
    shown: Seq<Value>,
    outcome: Result<(), RuntimeError>,
) -> bool
    decreases stmts, stmts.len() - from,
{
    if 0 <= from < stmts.len() {
        exists|mid: Chain, between: Seq<Value>, first: Result<(), RuntimeError>|
            executes(unit, before, printed, stmts[from], mid, between, first) && (first is Ok
                ==> runs(unit, mid, between, stmts, from + 1, after, shown, outcome))
                && #[trigger] halts(first, mid, between, after, shown, outcome)
    } else {
        after == before && shown == printed && outcome == Ok::<(), RuntimeError>(())
    }
}

/// A value is falsy exactly when it is `nil` or `false`; every number, zero
/// too, and every string, the empty one too, is truthy.
pub proof fn lemma_truthiness(value: Value)
    ensures
        !truthy(value) <==> (value is Nil || value == Value::Boolean(false)),
        value is Number ==> truthy(value),
        value is String ==> truthy(value),
{
}

/// Values of different kinds are never equal, and equality does not depend
/// on the order of its operands.
pub proof fn lemma_equality_of_values(a: Value, b: Value)
    ensures
        (a is Nil) != (b is Nil) ==> !values_equal(a, b),
        (a is Boolean) != (b is Boolean) ==> !values_equal(a, b),
        (a is Number) != (b is Number) ==> !values_equal(a, b),
        (a is String) != (b is String) ==> !values_equal(a, b),
        values_equal(a, b) == values_equal(b, a),
{
}

/// `==` and `!=` never fail: whatever the operands, the outcome is a boolean,
/// and that of `!=` is the opposite of that of `==`.
pub proof fn lemma_equality_never_fails<F: Fn(Operation, Number, Number) -> Number>(
    unit: F,
    operator: Token,
    left: Value,
    right: Value,
    outcome: Result<Value, RuntimeError>,
)
    requires
        operator.type_ is EqualEqual || operator.type_ is BangEqual,
        binary_outcome(unit, operator, left, right, outcome),
    ensures
        outcome == Ok::<Value, RuntimeError>(
            Value::Boolean(values_equal(left, right) == (operator.type_ is EqualEqual)),
        ),
{
}

/// An arithmetic or ordering operator fails on operands of the wrong kinds,
/// and on no others: `+` takes two numbers or two strings, the others two
/// numbers. The failure is a type mismatch of the operator.
pub proof fn lemma_operands<F: Fn(Operation, Number, Number) -> Number>(
    unit: F,
    operator: Token,
    left: Value,
    right: Value,
    outcome: Result<Value, RuntimeError>,
)
    requires
        is_ordering(operator.type_) || operation_of(operator.type_) is Some,
        binary_outcome(unit, operator, left, right, outcome),
    ensures
        outcome is Ok <==> (left is Number && right is Number) || (operator.type_ is Plus
            && left is String && right is String),
        outcome matches Err(e) ==> e matches RuntimeError::TypeMismatch { operator: o, expected: _ }
            && o == operator,
{
}

/// The two chains have the same scopes by name: as many scopes, and in each
/// the same names bound.
pub open spec fn same_names(a: Chain, b: Chain) -> bool {
    a.len() == b.len() && forall|i: int| 0 <= i < a.len() ==> (#[trigger] a[i]).dom() == b[i].dom()
}

/// The chain `b` is `a` with some names added to its innermost scope: as
/// many scopes, in every other scope the same names bound, and in the
/// innermost every name that was bound before.
pub open spec fn grown(a: Chain, b: Chain) -> bool {
    &&& a.len() == b.len()
    &&& a.len() > 0 ==> a[0].dom().subset_of(b[0].dom())
    &&& forall|i: int| 0 < i < a.len() ==> (#[trigger] a[i]).dom() == b[i].dom()
}

/// Evaluating an expression binds nothing and unbinds nothing: the chain
/// has the same scopes by name afterwards.
pub proof fn lemma_evaluation_keeps_names<F: Fn(Operation, Number, Number) -> Number>(
    unit: F,
    before: Chain,
    expr: Expr,
    after: Chain,
    outcome: Result<Value, RuntimeError>,
)
    requires
        evaluates(unit, before, expr, after, outcome),
    ensures
        same_names(before, after),
    decreases expr,
{
    match expr {
        Expr::Literal { value } => {},
        Expr::Variable { name } => {},
        Expr::Grouping { expression } => {
            lemma_evaluation_keeps_names(unit, before, *expression, after, outcome);
        },
        Expr::Assign { name, value } => {
            let (mid, inner) = choose|mid: Chain, inner: Result<Value, RuntimeError>|
                evaluates(unit, before, *value, mid, inner) && #[trigger] stores(
                    mid,
                    name,
                    inner,
                    after,
                    outcome,
                );
            lemma_evaluation_keeps_names(unit, before, *value, mid, inner);
            if inner is Ok && bound(mid, name.lexeme@) {
                lemma_assignment_updates_holder(mid, name.lexeme@, inner->Ok_0);
            }
        },
        Expr::Unary { operator, right } => {
            let inner = choose|inner: Result<Value, RuntimeError>|
                evaluates(unit, before, *right, after, inner) && outcome == #[trigger] lifted(
                    operator,
                    inner,
                );
            lemma_evaluation_keeps_names(unit, before, *right, after, inner);
        },
        Expr::Binary { left, operator, right } => {
            let (mid, first, second) = choose|
                mid: Chain,
                first: Result<Value, RuntimeError>,
                second: Result<Value, RuntimeError>,
            |
                evaluates(unit, before, *left, mid, first) && (first is Ok ==> evaluates(
                    unit,
                    mid,
                    *right,
                    after,
                    second,
                )) && #[trigger] binary_step(unit, operator, mid, first, second, after, outcome);
            lemma_evaluation_keeps_names(unit, before, *left, mid, first);
            if first is Ok {
                lemma_evaluation_keeps_names(unit, mid, *right, after, second);
            }
        },
    }
}

/// Executing a statement can bind names in the current scope only: every
/// enclosing scope binds the names that it bound before, and the chain has
/// as many scopes as before.
pub proof fn lemma_execution_binds_in_current_scope<F: Fn(Operation, Number, Number) -> Number>(
    unit: F,
    before: Chain,
    printed: Seq<Value>,
    stmt: Stmt,
    after: Chain,
    shown: Seq<Value>,
    outcome: Result<(), RuntimeError>,
)
    requires
        before.len() > 0,
        executes(unit, before, printed, stmt, after, shown, outcome),
    ensures
        grown(before, after),
        stmt is Block ==> same_names(before, after),
    decreases stmt,
{
    match stmt {
        Stmt::Expression { expr } => {
            let value = choose|value: Result<Value, RuntimeError>|
                evaluates(unit, before, *expr, after, value) && outcome == #[trigger] discarded(
                    value,
                );
            lemma_evaluation_keeps_names(unit, before, *expr, after, value);
        },
        Stmt::Print { expr } => {
            let value = choose|value: Result<Value, RuntimeError>|
                evaluates(unit, before, *expr, after, value) && #[trigger] prints(
                    printed,
                    value,
                    shown,
                    outcome,
                );
            lemma_evaluation_keeps_names(unit, before, *expr, after, value);
        },
        Stmt::Var { name, initializer } => {
            let (mid, value) = choose|mid: Chain, value: Result<Value, RuntimeError>|
                evaluates(unit, before, *initializer, mid, value) && #[trigger] declares(
                    mid,
                    name,
                    value,
                    after,
                    outcome,
                );
            lemma_evaluation_keeps_names(unit, before, *initializer, mid, value);
        },
        Stmt::Block { stmts } => {
            let entered = seq![Map::<Seq<char>, Value>::empty()] + before;
            let inner = choose|inner: Chain|
                runs(unit, entered, printed, stmts@, 0, inner, shown, outcome) && #[trigger] leaves(
                    inner,
                    after,
                );
            lemma_run_binds_in_current_scope(
                unit,
                entered,
                printed,
                stmts@,
                0,
                inner,
                shown,
                outcome,
            );
            assert forall|i: int| 0 <= i < before.len() implies (#[trigger] before[i]).dom()
                == after[i].dom() by {
                assert(entered[i + 1] == before[i]);
                assert(after[i] == inner[i + 1]);
            }
        },
    }
}

/// Running statements can bind names in the current scope only.
pub proof fn lemma_run_binds_in_current_scope<F: Fn(Operation, Number, Number) -> Number>(
    unit: F,
    before: Chain,
    printed: Seq<Value>,
    stmts: Seq<Stmt>,
    from: int,
    after: Chain,
    shown: Seq<Value>,
    outcome: Result<(), RuntimeError>,
)
    requires
        before.len() > 0,
        runs(unit, before, printed, stmts, from, after, shown, outcome),
    ensures
        grown(before, after),
    decreases stmts, stmts.len() - from,
{
    if 0 <= from < stmts.len() {
        let (mid, between, first) = choose|
            mid: Chain,
            between: Seq<Value>,
            first: Result<(), RuntimeError>,
        |
            executes(unit, before, printed, stmts[from], mid, between, first) && (first is Ok
                ==> runs(unit, mid, between, stmts, from + 1, after, shown, outcome))
                && #[trigger] halts(first, mid, between, after, shown, outcome);
        lemma_execution_binds_in_current_scope(
            unit,
            before,
            printed,
            stmts[from],
            mid,
            between,
            first,
        );
        if first is Ok {
            lemma_run_binds_in_current_scope(
                unit,
                mid,
                between,
                stmts,
                from + 1,
                after,
                shown,
                outcome,
            );
        }
    }
}

/// What was printed stays printed: executing a statement only adds to the
/// output.
pub proof fn lemma_output_grows<F: Fn(Operation, Number, Number) -> Number>(
    unit: F,
    before: Chain,
    printed: Seq<Value>,
    stmts: Seq<Stmt>,
    from: int,
    after: Chain,
    shown: Seq<Value>,
    outcome: Result<(), RuntimeError>,
)
    requires
        runs(unit, before, printed, stmts, from, after, shown, outcome),
    ensures
        printed.is_prefix_of(shown),
    decreases stmts, stmts.len() - from,
{
    if 0 <= from < stmts.len() {
        let (mid, between, first) = choose|
            mid: Chain,
            between: Seq<Value>,
            first: Result<(), RuntimeError>,
        |
            executes(unit, before, printed, stmts[from], mid, between, first) && (first is Ok
                ==> runs(unit, mid, between, stmts, from + 1, after, shown, outcome))
                && #[trigger] halts(first, mid, between, after, shown, outcome);
        lemma_statement_output_grows(unit, before, printed, stmts[from], mid, between, first);
        if first is Ok {
            lemma_output_grows(unit, mid, between, stmts, from + 1, after, shown, outcome);
        }
    }
}

/// Executing one statement only adds to the output.
pub proof fn lemma_statement_output_grows<F: Fn(Operation, Number, Number) -> Number>(
    unit: F,
    before: Chain,
    printed: Seq<Value>,
    stmt: Stmt,
    after: Chain,
    shown: Seq<Value>,
    outcome: Result<(), RuntimeError>,
)
    requires
        executes(unit, before, printed, stmt, after, shown, outcome),
    ensures
        printed.is_prefix_of(shown),
    decreases stmt,
{
    match stmt {
        Stmt::Expression { expr } => {},
        Stmt::Print { expr } => {
            let value = choose|value: Result<Value, RuntimeError>|
                evaluates(unit, before, *expr, after, value) && #[trigger] prints(
                    printed,
                    value,
                    shown,
                    outcome,
                );
        },
        Stmt::Var { name, initializer } => {},
        Stmt::Block { stmts } => {
            let entered = seq![Map::<Seq<char>, Value>::empty()] + before;
            let inner = choose|inner: Chain|
                runs(unit, entered, printed, stmts@, 0, inner, shown, outcome) && #[trigger] leaves(
                    inner,
                    after,
                );
            lemma_output_grows(unit, entered, printed, stmts@, 0, inner, shown, outcome);
        },
    }
}

} // verus!
