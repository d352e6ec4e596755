//! Parse trees spell the tokens that they were parsed from.
//!
//! The grammar says how a parse proceeds. The laws here say what comes out
//! of it without reference to its steps: the tree is written with the very
//! tokens of the input, in order, and it groups them as precedence and
//! associativity demand.

use vstd::prelude::*;
use crate::expr::{Expr, Value};
use crate::grammar::{
    any_kind, at_end, binary_at, block_at, declaration_at, expression_at, fold_at, forward, is_kind,
    lemma_binary_advances, lemma_expression_advances, operators, primary_at, program_at,
    statement_at, terminated, terminated_expression, unary_at, var_declaration_at,
};
use crate::stmt::Tree;
use crate::token::Token;
use crate::token_type::TokenType;

verus! {

/// The kind of the token that a literal value is written with.
pub open spec fn literal_kind(value: Value) -> TokenType {
    match value {
        Value::Nil => TokenType::Nil,
        Value::Boolean(b) => if b {
            TokenType::True
        } else {
            TokenType::False
        },
        Value::Number(literal) => TokenType::Number { literal },
        Value::String(literal) => TokenType::STRING { literal },
    }
}

/// The kinds of the tokens that an expression is written with, in order.
pub open spec fn spelling(expr: Expr) -> Seq<TokenType>
    decreases expr,
{
    match expr {
        Expr::Literal { value } => seq![literal_kind(value)],
        Expr::Variable { name } => seq![name.type_],
        Expr::Grouping { expression } => seq![TokenType::LeftParen] + spelling(*expression) + seq![
            TokenType::RightParen,
        ],
        Expr::Unary { operator, right } => seq![operator.type_] + spelling(*right),
        Expr::Binary { left, operator, right } => spelling(*left) + seq![operator.type_] + spelling(
            *right,
        ),
        Expr::Assign { name, value } => seq![name.type_, TokenType::Equal] + spelling(*value),
    }
}

/// The kinds of the tokens from the index `from` up to the index `to`.
pub open spec fn kinds(tokens: Seq<Token>, from: int, to: int) -> Seq<TokenType> {
    Seq::new((to - from) as nat, |i: int| tokens[from + i].type_)
}

/// The precedence level of a binary operator, 0 for every other kind.
pub open spec fn level_of(kind: TokenType) -> nat {
    match kind {
        TokenType::Slash => 1,
        TokenType::Star => 1,
        TokenType::Minus => 2,
        TokenType::Plus => 2,
        TokenType::Greater => 3,
        TokenType::GreaterEqual => 3,
        TokenType::Less => 3,
        TokenType::LessEqual => 3,
        TokenType::BangEqual => 4,
        TokenType::EqualEqual => 4,
        _ => 0,
    }
}

/// The expression can stand where an expression of the precedence level
/// `level` is wanted, without parentheses around it: level 0 takes unary
/// and primary expressions, levels 1 to 4 also the binary expressions of
/// their own and of lower levels, level 5 everything.
///
/// In a binary expression the left operand can stand at the level of the
/// operator and the right operand at the level below: operators of one level
/// group to the left. The operand of a unary operator stands at level 0, the
/// value of an assignment at level 4, and within parentheses any expression
/// can stand.
pub open spec fn fits(expr: Expr, level: nat) -> bool
    decreases expr,
{
    match expr {
        Expr::Literal { value } => true,
        Expr::Variable { name } => true,
        Expr::Grouping { expression } => fits(*expression, 5),
        Expr::Unary { operator, right } => fits(*right, 0),
        Expr::Binary { left, operator, right } => {
            &&& 1 <= level_of(operator.type_) <= level
            &&& fits(*left, level_of(operator.type_))
            &&& fits(*right, (level_of(operator.type_) - 1) as nat)
        },
        Expr::Assign { name, value } => level >= 5 && fits(*value, 4),
    }
}

/// What can stand at a level can stand at every level above it.
pub proof fn lemma_fits_above(expr: Expr, level: nat, above: nat)
    requires
        fits(expr, level),
        level <= above,
    ensures
        fits(expr, above),
{
}

/// The kinds of two ranges of tokens, one after the other, are the kinds of
/// the whole range.
pub proof fn lemma_kinds_join(tokens: Seq<Token>, from: int, mid: int, to: int)
    requires
        from <= mid <= to,
    ensures
        kinds(tokens, from, to) == kinds(tokens, from, mid) + kinds(tokens, mid, to),
{
    assert(kinds(tokens, from, to) =~= kinds(tokens, from, mid) + kinds(tokens, mid, to));
}

/// The kinds of a range of one token.
pub proof fn lemma_kinds_one(tokens: Seq<Token>, at: int)
    ensures
        kinds(tokens, at, at + 1) == seq![tokens[at].type_],
{
    assert(kinds(tokens, at, at + 1) =~= seq![tokens[at].type_]);
}

/// A token of one of the operators of a level is a binary operator of that
/// level.
pub proof fn lemma_operator_level(tokens: Seq<Token>, pos: int, level: nat)
    requires
        1 <= level <= 4,
        any_kind(tokens, pos, operators(level)),
    ensures
        level_of(tokens[pos].type_) == level,
{
    let i: int = choose|i: int|
        0 <= i < operators(level).len() && is_kind(tokens, pos, #[trigger] operators(level)[i]);
    assert(tokens[pos].type_.same(operators(level)[i]));
}

/// A unary or binary expression that parses is written with the very
/// tokens that it was parsed from, and it respects precedence: it can stand
/// at the level of the rule that gave it.
pub proof fn lemma_binary_spells(tokens: Seq<Token>, pos: int, level: nat)
    requires
        terminated(tokens),
        0 <= pos < tokens.len(),
        level <= 4,
    ensures
        primary_at(tokens, pos) matches Ok((e, next)) ==> kinds(tokens, pos, next) == spelling(e)
            && fits(e, 0),
        unary_at(tokens, pos) matches Ok((e, next)) ==> kinds(tokens, pos, next) == spelling(e)
            && fits(e, 0),
        binary_at(tokens, pos, level) matches Ok((e, next)) ==> kinds(tokens, pos, next)
            == spelling(e) && fits(e, level),
    decreases tokens.len() - pos, level, 0nat,
{
    let last: int = tokens.len() - 1;
    assert(tokens[last].type_ is Eof);
    lemma_kinds_one(tokens, pos);
    lemma_binary_advances(tokens, pos, level);
    if pos < last {
        lemma_binary_spells(tokens, pos + 1, 0);
        lemma_expression_spells(tokens, pos + 1);
        lemma_binary_advances(tokens, pos + 1, 0);
        lemma_expression_advances(tokens, pos + 1);
    }
    match primary_at(tokens, pos) {
        Ok((e, next)) => {
            if tokens[pos].type_ is LeftParen {
                let (inner, close) = expression_at(tokens, pos + 1)->Ok_0;
                lemma_kinds_one(tokens, close);
                lemma_kinds_join(tokens, pos, pos + 1, close);
                lemma_kinds_join(tokens, pos, close, close + 1);
            }
        },
        Err(_) => {},
    }
    if any_kind(tokens, pos, seq![TokenType::Bang, TokenType::Minus]) {
        match unary_at(tokens, pos + 1) {
            Ok((right, next)) => {
                lemma_kinds_join(tokens, pos, pos + 1, next);
            },
            Err(_) => {},
        }
    }
    if level > 0 {
        lemma_binary_spells(tokens, pos, (level - 1) as nat);
        match forward(pos, tokens.len() as int, binary_at(tokens, pos, (level - 1) as nat)) {
            Ok((left, next)) => {
                lemma_fits_above(left, (level - 1) as nat, level);
                lemma_fold_spells(tokens, left, pos, next, level);
            },
            Err(_) => {},
        }
    }
}

/// A fold onto an expression that spells the tokens before it gives an
/// expression that spells the tokens up to its end, at the fold's level.
pub proof fn lemma_fold_spells(tokens: Seq<Token>, left: Expr, start: int, pos: int, level: nat)
    requires
        terminated(tokens),
        0 <= start <= pos < tokens.len(),
        1 <= level <= 4,
        kinds(tokens, start, pos) == spelling(left),
        fits(left, level),
    ensures
        fold_at(tokens, left, pos, level) matches Ok((e, next)) ==> kinds(tokens, start, next)
            == spelling(e) && fits(e, level),
    decreases tokens.len() - pos, level, 1nat,
{
    let last: int = tokens.len() - 1;
    assert(tokens[last].type_ is Eof);
    if any_kind(tokens, pos, operators(level)) {
        lemma_operator_level(tokens, pos, level);
        lemma_binary_spells(tokens, pos + 1, (level - 1) as nat);
        match forward(pos, tokens.len() as int, binary_at(tokens, pos + 1, (level - 1) as nat)) {
            Ok((right, next)) => {
                let joined = Expr::Binary {
                    left: Box::new(left),
                    operator: tokens[pos],
                    right: Box::new(right),
                };
                lemma_kinds_one(tokens, pos);
                lemma_kinds_join(tokens, start, pos, pos + 1);
                lemma_kinds_join(tokens, start, pos + 1, next);
                assert(spelling(joined) =~= kinds(tokens, start, next));
                lemma_fold_spells(tokens, joined, start, next, level);
            },
            Err(_) => {},
        }
    }
}

/// An expression that parses is written with the very tokens that it was
/// parsed from, and it respects precedence.
pub proof fn lemma_expression_spells(tokens: Seq<Token>, pos: int)
    requires
        terminated(tokens),
        0 <= pos < tokens.len(),
    ensures
        expression_at(tokens, pos) matches Ok((e, next)) ==> kinds(tokens, pos, next) == spelling(e)
            && fits(e, 5),
    decreases tokens.len() - pos, 5nat, 0nat,
{
    let last: int = tokens.len() - 1;
    assert(tokens[last].type_ is Eof);
    lemma_binary_spells(tokens, pos, 4);
    match forward(pos, tokens.len() as int, binary_at(tokens, pos, 4)) {
        Ok((target, next)) => {
            lemma_fits_above(target, 4, 5);
            if is_kind(tokens, next, TokenType::Equal) {
                lemma_binary_spells(tokens, next + 1, 4);
                lemma_binary_advances(tokens, next + 1, 4);
                match binary_at(tokens, next + 1, 4) {
                    Ok((value, after)) => {
                        if target is Variable {
                            lemma_kinds_one(tokens, next);
                            lemma_kinds_join(tokens, pos, next, next + 1);
                            lemma_kinds_join(tokens, pos, next + 1, after);
                            assert(spelling(target).len() == 1);
                            assert(kinds(tokens, pos, next).len() == next - pos);
                            let assign = Expr::Assign {
                                name: target->Variable_name,
                                value: Box::new(value),
                            };
                            assert(spelling(assign) =~= kinds(tokens, pos, after));
                        }
                    },
                    Err(_) => {},
                }
            }
        },
        Err(_) => {},
    }
}

/// The index `cut` stands within the kinds.
pub open spec fn cut_at(written: Seq<TokenType>, cut: int) -> bool {
    0 <= cut <= written.len()
}

/// The statement is written with tokens of the kinds `written`: its keyword
/// where it has one, its expression, and the `;` that ends it; a block with
/// `{`, its statements one after the other, and `}`. A variable that starts
/// as `nil` may be declared without an initializer.
pub open spec fn writes(tree: Tree, written: Seq<TokenType>) -> bool
    decreases tree,
{
    match tree {
        Tree::Expression { expr } => written == spelling(expr).push(TokenType::Semicolon),
        Tree::Print { expr } => written == seq![TokenType::Print] + spelling(expr).push(
            TokenType::Semicolon,
        ),
        Tree::Var { name, initializer } => {
            ||| written == seq![TokenType::Var, name.type_, TokenType::Equal] + spelling(
                initializer,
            ).push(TokenType::Semicolon)
            ||| initializer == (Expr::Literal { value: Value::Nil }) && written == seq![
                TokenType::Var,
                name.type_,
                TokenType::Semicolon,
            ]
        },
        Tree::Block { stmts } => {
            &&& written.len() >= 2
            &&& written.first() == TokenType::LeftBrace
            &&& written.last() == TokenType::RightBrace
            &&& writes_all(stmts, written.subrange(1, written.len() - 1))
        },
    }
}

/// The statements are written, one after the other, with tokens of the
/// kinds `written`.
pub open spec fn writes_all(stmts: Seq<Tree>, written: Seq<TokenType>) -> bool
    decreases stmts, stmts.len(),
{
    if stmts.len() == 0 {
        written.len() == 0
    } else {
        exists|cut: int| #[trigger]
            cut_at(written, cut) && writes_all(stmts.drop_last(), written.take(cut)) && writes(
                stmts.last(),
                written.skip(cut),
            )
    }
}

/// Statements written so far and one more written after them are written
/// with the kinds of both.
pub proof fn lemma_writes_one_more(
    tokens: Seq<Token>,
    start: int,
    pos: int,
    next: int,
    done: Seq<Tree>,
    stmt: Tree,
)
    requires
        0 <= start <= pos <= next,
        writes_all(done, kinds(tokens, start, pos)),
        writes(stmt, kinds(tokens, pos, next)),
    ensures
        writes_all(done.push(stmt), kinds(tokens, start, next)),
{
    let written = kinds(tokens, start, next);
    let cut: int = pos - start;
    assert(done.push(stmt).drop_last() =~= done);
    assert(written.take(cut) =~= kinds(tokens, start, pos));
    assert(written.skip(cut) =~= kinds(tokens, pos, next));
    assert(cut_at(written, cut));
}

/// An expression with its `;` that parses is written with the very tokens
/// that it was parsed from.
pub proof fn lemma_terminated_expression_spells(tokens: Seq<Token>, pos: int, message: Seq<char>)
    requires
        terminated(tokens),
        0 <= pos < tokens.len(),
    ensures
        terminated_expression(tokens, pos, message) matches Ok((expr, next)) ==> pos < next
            < tokens.len() && kinds(tokens, pos, next) == spelling(expr).push(
            TokenType::Semicolon,
        ),
{
    let last: int = tokens.len() - 1;
    assert(tokens[last].type_ is Eof);
    match terminated_expression(tokens, pos, message) {
        Ok((expr, next)) => {
            lemma_expression_spells(tokens, pos);
            lemma_expression_advances(tokens, pos);
            lemma_kinds_one(tokens, next - 1);
            lemma_kinds_join(tokens, pos, next - 1, next);
            assert(kinds(tokens, pos, next) =~= spelling(expr).push(TokenType::Semicolon));
        },
        Err(_) => {},
    }
}

/// A variable declaration that parses is written with the very tokens that
/// it was parsed from, `var` first.
pub proof fn lemma_var_declaration_spells(tokens: Seq<Token>, pos: int)
    requires
        terminated(tokens),
        0 <= pos < tokens.len() - 1,
        is_kind(tokens, pos, TokenType::Var),
    ensures
        var_declaration_at(tokens, pos + 1) matches Ok((tree, next)) ==> pos < next < tokens.len()
            && writes(tree, kinds(tokens, pos, next)),
{
    let last: int = tokens.len() - 1;
    assert(tokens[last].type_ is Eof);
    let name: int = pos + 1;
    match var_declaration_at(tokens, name) {
        Ok((tree, next)) => {
            lemma_kinds_one(tokens, pos);
            lemma_kinds_one(tokens, name);
            lemma_kinds_one(tokens, name + 1);
            lemma_kinds_join(tokens, pos, name, name + 1);
            lemma_kinds_join(tokens, pos, name + 1, name + 2);
            if is_kind(tokens, name + 1, TokenType::Equal) {
                lemma_terminated_expression_spells(
                    tokens,
                    name + 2,
                    "Expect ';' after variable declaration"@,
                );
                lemma_kinds_join(tokens, pos, name + 2, next);
                assert(kinds(tokens, pos, name + 2) =~= seq![
                    TokenType::Var,
                    tokens[name].type_,
                    TokenType::Equal,
                ]);
            } else {
                assert(kinds(tokens, pos, next) =~= seq![
                    TokenType::Var,
                    tokens[name].type_,
                    TokenType::Semicolon,
                ]);
            }
        },
        Err(_) => {},
    }
}

/// A print statement that parses is written with the very tokens that it
/// was parsed from, `print` first.
pub proof fn lemma_print_spells(tokens: Seq<Token>, pos: int)
    requires
        terminated(tokens),
        0 <= pos < tokens.len() - 1,
        is_kind(tokens, pos, TokenType::Print),
    ensures
        terminated_expression(tokens, pos + 1, "Expect ';' after value."@) matches Ok(
            (expr, next),
        ) ==> writes(Tree::Print { expr }, kinds(tokens, pos, next)),
{
    match terminated_expression(tokens, pos + 1, "Expect ';' after value."@) {
        Ok((expr, next)) => {
            lemma_terminated_expression_spells(tokens, pos + 1, "Expect ';' after value."@);
            lemma_kinds_one(tokens, pos);
            lemma_kinds_join(tokens, pos, pos + 1, next);
        },
        Err(_) => {},
    }
}

/// A declaration or a statement that parses is written with the very tokens
/// that it was parsed from.
pub proof fn lemma_statement_spells(tokens: Seq<Token>, pos: int)
    requires
        terminated(tokens),
        0 <= pos < tokens.len(),
    ensures
        declaration_at(tokens, pos) matches Ok((tree, next)) ==> writes(
            tree,
            kinds(tokens, pos, next),
        ),
        statement_at(tokens, pos) matches Ok((tree, next)) ==> writes(tree, kinds(tokens, pos, next)),
    decreases tokens.len() - pos, 2nat,
{
    let last: int = tokens.len() - 1;
    assert(tokens[last].type_ is Eof);
    if is_kind(tokens, pos, TokenType::Var) {
        lemma_var_declaration_spells(tokens, pos);
    }
    if is_kind(tokens, pos, TokenType::Print) {
        lemma_print_spells(tokens, pos);
    } else if is_kind(tokens, pos, TokenType::LeftBrace) {
        lemma_block_statement_spells(tokens, pos);
    } else {
        lemma_terminated_expression_spells(tokens, pos, "Expect ';' after value."@);
    }
}

/// A block that parses is written with the very tokens that it was parsed
/// from, `{` first and `}` last.
pub proof fn lemma_block_statement_spells(tokens: Seq<Token>, pos: int)
    requires
        terminated(tokens),
        0 <= pos < tokens.len() - 1,
        is_kind(tokens, pos, TokenType::LeftBrace),
    ensures
        block_at(tokens, pos + 1, Seq::empty()) matches Ok((stmts, next)) ==> writes(
            Tree::Block { stmts },
            kinds(tokens, pos, next),
        ),
    decreases tokens.len() - pos, 1nat,
{
    match block_at(tokens, pos + 1, Seq::empty()) {
        Ok((stmts, next)) => {
            assert(kinds(tokens, pos + 1, pos + 1) =~= Seq::<TokenType>::empty());
            lemma_block_spells(tokens, pos + 1, pos + 1, Seq::empty());
            let written = kinds(tokens, pos, next);
            assert(written.subrange(1, written.len() - 1) =~= kinds(tokens, pos + 1, next - 1));
        },
        Err(_) => {},
    }
}

/// The rest of a block that parses, after statements that are written with
/// the tokens from `start` up to `pos`, gives statements that are written
/// with the tokens from `start` up to the `}` that closes the block.
pub proof fn lemma_block_spells(tokens: Seq<Token>, start: int, pos: int, done: Seq<Tree>)
    requires
        terminated(tokens),
        0 <= start <= pos < tokens.len(),
        writes_all(done, kinds(tokens, start, pos)),
    ensures
        block_at(tokens, pos, done) matches Ok((all, next)) ==> pos < next < tokens.len()
            && tokens[next - 1].type_ == TokenType::RightBrace && writes_all(
            all,
            kinds(tokens, start, next - 1),
        ),
    decreases tokens.len() - pos, 3nat,
{
    let last: int = tokens.len() - 1;
    assert(tokens[last].type_ is Eof);
    if !(is_kind(tokens, pos, TokenType::RightBrace) || at_end(tokens, pos)) {
        match forward(pos, tokens.len() as int, declaration_at(tokens, pos)) {
            Ok((stmt, next)) => {
                lemma_statement_spells(tokens, pos);
                lemma_writes_one_more(tokens, start, pos, next, done, stmt);
                lemma_block_spells(tokens, start, next, done.push(stmt));
            },
            Err(_) => {},
        }
    }
}

/// The rest of a program that parses, after statements that are written
/// with the tokens from `start` up to `pos`, gives statements that are
/// written with the tokens from `start` up to the end of the input.
pub proof fn lemma_program_spells(tokens: Seq<Token>, start: int, pos: int, done: Seq<Tree>)
    requires
        terminated(tokens),
        0 <= start <= pos < tokens.len(),
        writes_all(done, kinds(tokens, start, pos)),
    ensures
        program_at(tokens, pos, done) matches Ok(all) ==> exists|end: int|
            pos <= end < tokens.len() && #[trigger] at_end(tokens, end) && writes_all(
                all,
                kinds(tokens, start, end),
            ),
    decreases tokens.len() - pos,
{
    if at_end(tokens, pos) {
    } else {
        match forward(pos, tokens.len() as int, declaration_at(tokens, pos)) {
            Ok((stmt, next)) => {
                lemma_statement_spells(tokens, pos);
                lemma_writes_one_more(tokens, start, pos, next, done, stmt);
                lemma_program_spells(tokens, start, next, done.push(stmt));
            },
            Err(_) => {},
        }
    }
}

/// A program that parses is written with the very tokens that stand before
/// the end of the input.
pub proof fn lemma_parsed_program_spells(tokens: Seq<Token>)
    requires
        terminated(tokens),
    ensures
        program_at(tokens, 0, Seq::empty()) matches Ok(all) ==> exists|end: int|
            0 <= end < tokens.len() && #[trigger] at_end(tokens, end) && writes_all(
                all,
                kinds(tokens, 0, end),
            ),
{
    lemma_program_spells(tokens, 0, 0, Seq::empty());
}

} // verus!
