//! Evaluation is as determined as the arithmetic unit.
//!
//! The meaning of a program is stated as a relation, because the results of
//! arithmetic are the unit's. Where the unit is a function, so is the
//! meaning: two runs from like states end in like states, with like outcomes
//! and like output. Strings are compared by their text.

use vstd::prelude::*;
use crate::environment::{
    assigned, bound, declared, holder, lemma_holder, lemma_holder_is, read, Chain, Scope,
};
use crate::error::RuntimeError;
use crate::expr::{Expr, Value};
use crate::semantics::{
    binary_outcome, binary_step, declares, discarded, evaluates, executes, halts, leaves,
    lemma_evaluation_keeps_names, lemma_execution_binds_in_current_scope,
    lemma_run_binds_in_current_scope, lifted, prints, runs, stores, truthy, values_equal,
};
use crate::number::{Number, Operation};
use crate::stmt::Stmt;
use crate::token::Token;

verus! {

/// The unit gives one result for one request.
pub open spec fn functional<F: Fn(Operation, Number, Number) -> Number>(unit: F) -> bool {
    forall|operation: Operation, a: Number, b: Number, r1: Number, r2: Number|
        #[trigger] unit.ensures((operation, a, b), r1) && #[trigger] unit.ensures(
            (operation, a, b),
            r2,
        ) ==> r1 == r2
}

/// The two values are of one kind and of one content: the same truth value,
/// the same bits, the same text.
pub open spec fn alike(a: Value, b: Value) -> bool {
    match (a, b) {
        (Value::Nil, Value::Nil) => true,
        (Value::Boolean(x), Value::Boolean(y)) => x == y,
        (Value::Number(x), Value::Number(y)) => x == y,
        (Value::String(x), Value::String(y)) => x@ == y@,
        _ => false,
    }
}

/// The two outcomes are the same failure, or like values.
pub open spec fn outcomes_alike(
    a: Result<Value, RuntimeError>,
    b: Result<Value, RuntimeError>,
) -> bool {
    match (a, b) {
        (Ok(x), Ok(y)) => alike(x, y),
        (Err(x), Err(y)) => x == y,
        _ => false,
    }
}

/// The two scopes bind the same names to like values.
pub open spec fn scopes_alike(a: Scope, b: Scope) -> bool {
    a.dom() == b.dom() && forall|name: Seq<char>|
        a.contains_key(name) ==> alike(#[trigger] a[name], b[name])
}

/// The two chains have like scopes, one for one.
pub open spec fn chains_alike(a: Chain, b: Chain) -> bool {
    a.len() == b.len() && forall|i: int| 0 <= i < a.len() ==> scopes_alike(#[trigger] a[i], b[i])
}

/// The two outputs hold like values, one for one.
pub open spec fn outputs_alike(a: Seq<Value>, b: Seq<Value>) -> bool {
    a.len() == b.len() && forall|i: int| 0 <= i < a.len() ==> alike(#[trigger] a[i], b[i])
}

/// Likeness is reflexive.
pub proof fn lemma_alike_itself(value: Value, chain: Chain, output: Seq<Value>)
    ensures
        alike(value, value),
        chains_alike(chain, chain),
        outputs_alike(output, output),
{
    assert forall|i: int| 0 <= i < chain.len() implies scopes_alike(
        #[trigger] chain[i],
        chain[i],
    ) by {
        let scope = chain[i];
        assert forall|name: Seq<char>| scope.contains_key(name) implies alike(
            #[trigger] scope[name],
            scope[name],
        ) by {
            lemma_alike_value(scope[name]);
        }
    }
    lemma_alike_value(value);
    assert forall|i: int| 0 <= i < output.len() implies alike(#[trigger] output[i], output[i]) by {
        lemma_alike_value(output[i]);
    }
}

/// A value is like itself.
pub proof fn lemma_alike_value(value: Value)
    ensures
        alike(value, value),
{
}

/// Like chains hold a name in the same scope.
pub proof fn lemma_holder_alike(a: Chain, b: Chain, name: Seq<char>)
    requires
        chains_alike(a, b),
    ensures
        holder(a, name) == holder(b, name),
        bound(a, name) == bound(b, name),
{
    lemma_holder(a, name);
    let at: int = holder(a, name);
    assert forall|i: int| 0 <= i < at implies !(#[trigger] b[i]).contains_key(name) by {
        assert(scopes_alike(a[i], b[i]));
        assert(!a[i].contains_key(name));
    }
    if at < a.len() {
        assert(scopes_alike(a[at], b[at]));
    }
    lemma_holder_is(b, name, at);
}

/// A read in like chains finds like values, or fails in both.
pub proof fn lemma_read_alike(a: Chain, b: Chain, name: Token)
    requires
        chains_alike(a, b),
    ensures
        outcomes_alike(read(a, name), read(b, name)),
{
    lemma_holder_alike(a, b, name.lexeme@);
    lemma_holder(a, name.lexeme@);
    if bound(a, name.lexeme@) {
        let at: int = holder(a, name.lexeme@);
        assert(scopes_alike(a[at], b[at]));
    }
}

/// An assignment of like values in like chains leaves like chains.
pub proof fn lemma_assigned_alike(a: Chain, b: Chain, name: Seq<char>, x: Value, y: Value)
    requires
        chains_alike(a, b),
        alike(x, y),
    ensures
        chains_alike(assigned(a, name, x), assigned(b, name, y)),
{
    lemma_holder_alike(a, b, name);
    lemma_holder(a, name);
    if bound(a, name) {
        let at: int = holder(a, name);
        let after_a = assigned(a, name, x);
        let after_b = assigned(b, name, y);
        assert forall|i: int| 0 <= i < after_a.len() implies scopes_alike(
            #[trigger] after_a[i],
            after_b[i],
        ) by {
            assert(scopes_alike(a[i], b[i]));
            if i == at {
                assert(after_a[i].dom() =~= after_b[i].dom());
            }
        }
    }
}

/// A declaration of like values in like chains leaves like chains.
pub proof fn lemma_declared_alike(a: Chain, b: Chain, name: Seq<char>, x: Value, y: Value)
    requires
        chains_alike(a, b),
        a.len() > 0,
        alike(x, y),
    ensures
        chains_alike(declared(a, name, x), declared(b, name, y)),
{
    let after_a = declared(a, name, x);
    let after_b = declared(b, name, y);
    assert forall|i: int| 0 <= i < after_a.len() implies scopes_alike(
        #[trigger] after_a[i],
        after_b[i],
    ) by {
        assert(scopes_alike(a[i], b[i]));
        if i == 0 {
            assert(after_a[i].dom() =~= after_b[i].dom());
        }
    }
}

/// Like values are equal to like values, and as truthy.
pub proof fn lemma_alike_values(a: Value, b: Value, x: Value, y: Value)
    requires
        alike(a, x),
        alike(b, y),
    ensures
        values_equal(a, b) == values_equal(x, y),
        truthy(a) == truthy(x),
{
}

/// A binary operator makes like outcomes of like operands, where the unit
/// is a function.
pub proof fn lemma_binary_alike<F: Fn(Operation, Number, Number) -> Number>(
    unit: F,
    operator: Token,
    l1: Value,
    r1: Value,
    o1: Result<Value, RuntimeError>,
    l2: Value,
    r2: Value,
    o2: Result<Value, RuntimeError>,
)
    requires
        functional(unit),
        alike(l1, l2),
        alike(r1, r2),
        binary_outcome(unit, operator, l1, r1, o1),
        binary_outcome(unit, operator, l2, r2, o2),
    ensures
        outcomes_alike(o1, o2),
{
    lemma_alike_values(l1, r1, l2, r2);
}

/// Where the unit is a function, evaluating an expression in like chains
/// leaves like chains and gives like outcomes.
pub proof fn lemma_evaluation_determined<F: Fn(Operation, Number, Number) -> Number>(
    unit: F,
    expr: Expr,
    b1: Chain,
    a1: Chain,
    o1: Result<Value, RuntimeError>,
    b2: Chain,
    a2: Chain,
    o2: Result<Value, RuntimeError>,
)
    requires
        functional(unit),
        chains_alike(b1, b2),
        evaluates(unit, b1, expr, a1, o1),
        evaluates(unit, b2, expr, a2, o2),
    ensures
        chains_alike(a1, a2),
        outcomes_alike(o1, o2),
    decreases expr,
{
    match expr {
        Expr::Literal { value } => {
            lemma_alike_value(value);
        },
        Expr::Variable { name } => {
            lemma_read_alike(b1, b2, name);
        },
        Expr::Grouping { expression } => {
            lemma_evaluation_determined(unit, *expression, b1, a1, o1, b2, a2, o2);
        },
        Expr::Assign { name, value } => {
            let (m1, i1) = choose|mid: Chain, inner: Result<Value, RuntimeError>|
                evaluates(unit, b1, *value, mid, inner) && #[trigger] stores(
                    mid,
                    name,
                    inner,
                    a1,
                    o1,
                );
            let (m2, i2) = choose|mid: Chain, inner: Result<Value, RuntimeError>|
                evaluates(unit, b2, *value, mid, inner) && #[trigger] stores(
                    mid,
                    name,
                    inner,
                    a2,
                    o2,
                );
            lemma_evaluation_determined(unit, *value, b1, m1, i1, b2, m2, i2);
            if i1 is Ok {
                lemma_holder_alike(m1, m2, name.lexeme@);
                lemma_assigned_alike(m1, m2, name.lexeme@, i1->Ok_0, i2->Ok_0);
            }
        },
        Expr::Unary { operator, right } => {
            let i1 = choose|inner: Result<Value, RuntimeError>|
                evaluates(unit, b1, *right, a1, inner) && o1 == #[trigger] lifted(operator, inner);
            let i2 = choose|inner: Result<Value, RuntimeError>|
                evaluates(unit, b2, *right, a2, inner) && o2 == #[trigger] lifted(operator, inner);
            lemma_evaluation_determined(unit, *right, b1, a1, i1, b2, a2, i2);
            if i1 is Ok {
                lemma_alike_values(i1->Ok_0, i1->Ok_0, i2->Ok_0, i2->Ok_0);
            }
        },
        Expr::Binary { left, operator, right } => {
            let (m1, f1, s1) = choose|
                mid: Chain,
                first: Result<Value, RuntimeError>,
                second: Result<Value, RuntimeError>,
            |
                evaluates(unit, b1, *left, mid, first) && (first is Ok ==> evaluates(
                    unit,
                    mid,
                    *right,
                    a1,
                    second,
                )) && #[trigger] binary_step(unit, operator, mid, first, second, a1, o1);
            let (m2, f2, s2) = choose|
                mid: Chain,
                first: Result<Value, RuntimeError>,
                second: Result<Value, RuntimeError>,
            |
                evaluates(unit, b2, *left, mid, first) && (first is Ok ==> evaluates(
                    unit,
                    mid,
                    *right,
                    a2,
                    second,
                )) && #[trigger] binary_step(unit, operator, mid, first, second, a2, o2);
            lemma_evaluation_determined(unit, *left, b1, m1, f1, b2, m2, f2);
            if f1 is Ok {
                lemma_evaluation_determined(unit, *right, m1, a1, s1, m2, a2, s2);
                if s1 is Ok {
                    lemma_binary_alike(
                        unit,
                        operator,
                        f1->Ok_0,
                        s1->Ok_0,
                        o1,
                        f2->Ok_0,
                        s2->Ok_0,
                        o2,
                    );
                }
            }
        },
    }
}

/// Where the unit is a function, executing a statement from like states
/// leaves like chains and like output, and ends the same way.
pub proof fn lemma_execution_determined<F: Fn(Operation, Number, Number) -> Number>(
    unit: F,
    stmt: Stmt,
    b1: Chain,
    printed1: Seq<Value>,
    a1: Chain,
    s1: Seq<Value>,
    o1: Result<(), RuntimeError>,
    b2: Chain,
    printed2: Seq<Value>,
    a2: Chain,
    s2: Seq<Value>,
    o2: Result<(), RuntimeError>,
)
    requires
        functional(unit),
        b1.len() > 0,
        chains_alike(b1, b2),
        outputs_alike(printed1, printed2),
        executes(unit, b1, printed1, stmt, a1, s1, o1),
        executes(unit, b2, printed2, stmt, a2, s2, o2),
    ensures
        chains_alike(a1, a2),
        outputs_alike(s1, s2),
        o1 == o2,
        a1.len() == b1.len(),
    decreases stmt,
{
    lemma_execution_binds_in_current_scope(unit, b1, printed1, stmt, a1, s1, o1);
    match stmt {
        Stmt::Expression { expr } => {
            let v1 = choose|value: Result<Value, RuntimeError>|
                evaluates(unit, b1, *expr, a1, value) && o1 == #[trigger] discarded(value);
            let v2 = choose|value: Result<Value, RuntimeError>|
                evaluates(unit, b2, *expr, a2, value) && o2 == #[trigger] discarded(value);
            lemma_evaluation_determined(unit, *expr, b1, a1, v1, b2, a2, v2);
        },
        Stmt::Print { expr } => {
            let v1 = choose|value: Result<Value, RuntimeError>|
                evaluates(unit, b1, *expr, a1, value) && #[trigger] prints(printed1, value, s1, o1);
            let v2 = choose|value: Result<Value, RuntimeError>|
                evaluates(unit, b2, *expr, a2, value) && #[trigger] prints(printed2, value, s2, o2);
            lemma_evaluation_determined(unit, *expr, b1, a1, v1, b2, a2, v2);
        },
        Stmt::Var { name, initializer } => {
            let (m1, v1) = choose|mid: Chain, value: Result<Value, RuntimeError>|
                evaluates(unit, b1, *initializer, mid, value) && #[trigger] declares(
                    mid,
                    name,
                    value,
                    a1,
                    o1,
                );
            let (m2, v2) = choose|mid: Chain, value: Result<Value, RuntimeError>|
                evaluates(unit, b2, *initializer, mid, value) && #[trigger] declares(
                    mid,
                    name,
                    value,
                    a2,
                    o2,
                );
            lemma_evaluation_determined(unit, *initializer, b1, m1, v1, b2, m2, v2);
            lemma_evaluation_keeps_names(unit, b1, *initializer, m1, v1);
            if v1 is Ok {
                lemma_declared_alike(m1, m2, name.lexeme@, v1->Ok_0, v2->Ok_0);
            }
        },
        Stmt::Block { stmts } => {
            let fresh = seq![Map::<Seq<char>, Value>::empty()];
            let i1 = choose|inner: Chain|
                runs(unit, fresh + b1, printed1, stmts@, 0, inner, s1, o1) && #[trigger] leaves(
                    inner,
                    a1,
                );
            let i2 = choose|inner: Chain|
                runs(unit, fresh + b2, printed2, stmts@, 0, inner, s2, o2) && #[trigger] leaves(
                    inner,
                    a2,
                );
            assert forall|i: int| 0 <= i < (fresh + b1).len() implies scopes_alike(
                #[trigger] (fresh + b1)[i],
                (fresh + b2)[i],
            ) by {
                if i > 0 {
                    assert(scopes_alike(b1[i - 1], b2[i - 1]));
                }
            }
            lemma_run_determined(
                unit,
                stmts@,
                0,
                fresh + b1,
                printed1,
                i1,
                s1,
                o1,
                fresh + b2,
                printed2,
                i2,
                s2,
                o2,
            );
            assert forall|i: int| 0 <= i < a1.len() implies scopes_alike(
                #[trigger] a1[i],
                a2[i],
            ) by {
                assert(scopes_alike(i1[i + 1], i2[i + 1]));
            }
        },
    }
}

/// Where the unit is a function, running statements from like states leaves
/// like chains and like output, and ends the same way.
pub proof fn lemma_run_determined<F: Fn(Operation, Number, Number) -> Number>(
    unit: F,
    stmts: Seq<Stmt>,
    from: int,
    b1: Chain,
    printed1: Seq<Value>,
    a1: Chain,
    s1: Seq<Value>,
    o1: Result<(), RuntimeError>,
    b2: Chain,
    printed2: Seq<Value>,
    a2: Chain,
    s2: Seq<Value>,
    o2: Result<(), RuntimeError>,
)
    requires
        functional(unit),
        b1.len() > 0,
        chains_alike(b1, b2),
        outputs_alike(printed1, printed2),
        runs(unit, b1, printed1, stmts, from, a1, s1, o1),
        runs(unit, b2, printed2, stmts, from, a2, s2, o2),
    ensures
        chains_alike(a1, a2),
        outputs_alike(s1, s2),
        o1 == o2,
        a1.len() == b1.len(),
    decreases stmts, stmts.len() - from,
{
    lemma_run_binds_in_current_scope(unit, b1, printed1, stmts, from, a1, s1, o1);
    if 0 <= from < stmts.len() {
        let (m1, t1, f1) = choose|mid: Chain, between: Seq<Value>, first: Result<(), RuntimeError>|
            executes(unit, b1, printed1, stmts[from], mid, between, first) && (first is Ok ==> runs(
                unit,
                mid,
                between,
                stmts,
                from + 1,
                a1,
                s1,
                o1,
            )) && #[trigger] halts(first, mid, between, a1, s1, o1);
        let (m2, t2, f2) = choose|mid: Chain, between: Seq<Value>, first: Result<(), RuntimeError>|
            executes(unit, b2, printed2, stmts[from], mid, between, first) && (first is Ok ==> runs(
                unit,
                mid,
                between,
                stmts,
                from + 1,
                a2,
                s2,
                o2,
            )) && #[trigger] halts(first, mid, between, a2, s2, o2);
        lemma_execution_determined(unit, stmts[from], b1, printed1, m1, t1, f1, b2, printed2, m2, t2, f2);
        if f1 is Ok {
            lemma_run_determined(unit, stmts, from + 1, m1, t1, a1, s1, o1, m2, t2, a2, s2, o2);
        }
    }
}

} // verus!
