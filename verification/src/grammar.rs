//! The grammar: what a sequence of tokens parses to.
//!
//! Each rule is a function from the tokens and an index to the tree that
//! starts there and the index after it, or to the failure that ends the
//! parse. Precedence, lowest first: assignment, equality, comparison,
//! addition, multiplication, unary, primary.

use vstd::prelude::*;
use crate::error::ParseError;
use crate::expr::{Expr, Value};
use crate::stmt::Tree;
use crate::token::Token;
use crate::token_type::TokenType;

verus! {

/// A parse failure as a value of mathematics.
pub struct Failure {
    pub message: Seq<char>,
    pub line: usize,
}

impl View for ParseError {
    type V = Failure;

    open spec fn view(&self) -> Failure {
        Failure { message: self.message@, line: self.line }
    }
}

/// What a rule gives: the tree and the index after it, or a failure.
pub type Parsed<T> = Result<(T, int), Failure>;

/// The tokens end in the end of the input.
pub open spec fn terminated(tokens: Seq<Token>) -> bool {
    tokens.len() > 0 && tokens.last().type_ is Eof
}

/// The token at `pos` is the end of the input.
pub open spec fn at_end(tokens: Seq<Token>, pos: int) -> bool {
    tokens[pos].type_ is Eof
}

/// The token at `pos` is of the kind `kind`, and is not the end of the input.
pub open spec fn is_kind(tokens: Seq<Token>, pos: int, kind: TokenType) -> bool {
    !at_end(tokens, pos) && tokens[pos].type_.same(kind)
}

/// The token at `pos` is of one of the kinds `kinds`.
pub open spec fn any_kind(tokens: Seq<Token>, pos: int, kinds: Seq<TokenType>) -> bool {
    exists|i: int| 0 <= i < kinds.len() && is_kind(tokens, pos, #[trigger] kinds[i])
}

/// A token of the kind `kind` is required at `pos`: the index after it, or
/// the failure that carries `message` and the line of the token that stands
/// there.
pub open spec fn expect(
    tokens: Seq<Token>,
    pos: int,
    kind: TokenType,
    message: Seq<char>,
) -> Result<int, Failure> {
    if is_kind(tokens, pos, kind) {
        Ok(pos + 1)
    } else {
        Err(Failure { message, line: tokens[pos].line })
    }
}

/// The result of a rule that started at `pos`, taken only where it ends
/// after `pos` and within the tokens, as every rule does.
pub open spec fn forward<T>(pos: int, limit: int, parsed: Parsed<T>) -> Parsed<T> {
    match parsed {
        Ok((tree, next)) => if pos < next < limit {
            parsed
        } else {
            Err(Failure { message: Seq::empty(), line: 0 })
        },
        Err(failure) => parsed,
    }
}

/// The operators of a precedence level of binary operators: 1 is
/// multiplication and division, 2 addition and subtraction, 3 comparison,
/// 4 equality.
pub open spec fn operators(level: nat) -> Seq<TokenType> {
    if level == 1 {
        seq![TokenType::Slash, TokenType::Star]
    } else if level == 2 {
        seq![TokenType::Minus, TokenType::Plus]
    } else if level == 3 {
        seq![TokenType::Greater, TokenType::GreaterEqual, TokenType::Less, TokenType::LessEqual]
    } else {
        seq![TokenType::BangEqual, TokenType::EqualEqual]
    }
}

/// A literal, a variable, or an expression in parentheses.
pub open spec fn primary_at(tokens: Seq<Token>, pos: int) -> Parsed<Expr>
    decreases tokens.len() - pos, 0nat, 0nat,
    when 0 <= pos < tokens.len()
{
    let token = tokens[pos];
    match token.type_ {
        TokenType::False => Ok((Expr::Literal { value: Value::Boolean(false) }, pos + 1)),
        TokenType::True => Ok((Expr::Literal { value: Value::Boolean(true) }, pos + 1)),
        TokenType::Nil => Ok((Expr::Literal { value: Value::Nil }, pos + 1)),
        TokenType::Number { literal } => Ok(
            (Expr::Literal { value: Value::Number(literal) }, pos + 1),
        ),
        TokenType::STRING { literal } => Ok(
            (Expr::Literal { value: Value::String(literal) }, pos + 1),
        ),
        TokenType::Identifier => Ok((Expr::Variable { name: token }, pos + 1)),
        TokenType::LeftParen => match expression_at(tokens, pos + 1) {
            Ok((inner, close)) => match expect(
                tokens,
                close,
                TokenType::RightParen,
                "Expect ')' after expression."@,
            ) {
                Ok(next) => Ok((Expr::Grouping { expression: Box::new(inner) }, next)),
                Err(failure) => Err(failure),
            },
            Err(failure) => Err(failure),
        },
        _ => Err(Failure { message: "Expect expression."@, line: token.line }),
    }
}

/// `!` or `-` before a unary expression, or a primary expression.
pub open spec fn unary_at(tokens: Seq<Token>, pos: int) -> Parsed<Expr>
    decreases tokens.len() - pos, 0nat, 1nat,
    when 0 <= pos < tokens.len()
{
    if any_kind(tokens, pos, seq![TokenType::Bang, TokenType::Minus]) {
        match unary_at(tokens, pos + 1) {
            Ok((right, next)) => Ok(
                (Expr::Unary { operator: tokens[pos], right: Box::new(right) }, next),
            ),
            Err(failure) => Err(failure),
        }
    } else {
        primary_at(tokens, pos)
    }
}

/// An expression of a precedence level of binary operators: an operand of
/// the next higher level, and after it as many operators of the level, each
/// with an operand of the next higher level, as there are. Level 0 is the
/// unary expressions.
pub open spec fn binary_at(tokens: Seq<Token>, pos: int, level: nat) -> Parsed<Expr>
    decreases tokens.len() - pos, level, 2nat,
    when 0 <= pos < tokens.len()
{
    if level == 0 {
        unary_at(tokens, pos)
    } else {
        match forward(pos, tokens.len() as int, binary_at(tokens, pos, (level - 1) as nat)) {
            Ok((left, next)) => fold_at(tokens, left, next, level),
            Err(failure) => Err(failure),
        }
    }
}

/// The operators of `level` from `pos` on, each with its right operand,
/// folded onto `left` from the left.
pub open spec fn fold_at(tokens: Seq<Token>, left: Expr, pos: int, level: nat) -> Parsed<Expr>
    decreases tokens.len() - pos, level, 3nat,
    when 0 <= pos < tokens.len() && level > 0
{
    if any_kind(tokens, pos, operators(level)) {
        match forward(pos, tokens.len() as int, binary_at(tokens, pos + 1, (level - 1) as nat)) {
            Ok((right, next)) => fold_at(
                tokens,
                Expr::Binary {
                    left: Box::new(left),
                    operator: tokens[pos],
                    right: Box::new(right),
                },
                next,
                level,
            ),
            Err(failure) => Err(failure),
        }
    } else {
        Ok((left, pos))
    }
}

/// An equality expression, and after `=` a second one, which is assigned to
/// the first. The first must then be a variable.
pub open spec fn assignment_at(tokens: Seq<Token>, pos: int) -> Parsed<Expr>
    decreases tokens.len() - pos, 5nat, 0nat,
    when 0 <= pos < tokens.len()
{
    match forward(pos, tokens.len() as int, binary_at(tokens, pos, 4)) {
        Ok((target, next)) => if is_kind(tokens, next, TokenType::Equal) {
            match binary_at(tokens, next + 1, 4) {
                Ok((value, after)) => match target {
                    Expr::Variable { name } => Ok(
                        (Expr::Assign { name, value: Box::new(value) }, after),
                    ),
                    _ => Err(
                        Failure { message: "Invalid assignment target."@, line: tokens[next].line },
                    ),
                },
                Err(failure) => Err(failure),
            }
        } else {
            Ok((target, next))
        },
        Err(failure) => Err(failure),
    }
}

/// An expression.
pub open spec fn expression_at(tokens: Seq<Token>, pos: int) -> Parsed<Expr>
    decreases tokens.len() - pos, 6nat, 0nat,
    when 0 <= pos < tokens.len()
{
    assignment_at(tokens, pos)
}

/// An expression and the `;` that ends its statement.
pub open spec fn terminated_expression(tokens: Seq<Token>, pos: int, message: Seq<char>) -> Parsed<
    Expr,
> {
    match forward(pos, tokens.len() as int, expression_at(tokens, pos)) {
        Ok((expr, end)) => match expect(tokens, end, TokenType::Semicolon, message) {
            Ok(next) => Ok((expr, next)),
            Err(failure) => Err(failure),
        },
        Err(failure) => Err(failure),
    }
}

/// The rest of a variable declaration after `var`: a name, an initializer
/// after `=` where there is one, and `;`. Without an initializer the variable
/// starts as `nil`.
pub open spec fn var_declaration_at(tokens: Seq<Token>, pos: int) -> Parsed<Tree> {
    match expect(tokens, pos, TokenType::Identifier, "Expect variable name"@) {
        Ok(next) => if is_kind(tokens, next, TokenType::Equal) {
            match terminated_expression(
                tokens,
                next + 1,
                "Expect ';' after variable declaration"@,
            ) {
                Ok((initializer, after)) => Ok(
                    (Tree::Var { name: tokens[pos], initializer }, after),
                ),
                Err(failure) => Err(failure),
            }
        } else {
            match expect(
                tokens,
                next,
                TokenType::Semicolon,
                "Expect ';' after variable declaration"@,
            ) {
                Ok(after) => Ok(
                    (
                        Tree::Var {
                            name: tokens[pos],
                            initializer: Expr::Literal { value: Value::Nil },
                        },
                        after,
                    ),
                ),
                Err(failure) => Err(failure),
            }
        },
        Err(failure) => Err(failure),
    }
}

/// A declaration: a variable declaration after `var`, or a statement.
pub open spec fn declaration_at(tokens: Seq<Token>, pos: int) -> Parsed<Tree>
    decreases tokens.len() - pos, 2nat,
    when 0 <= pos < tokens.len()
{
    if is_kind(tokens, pos, TokenType::Var) {
        var_declaration_at(tokens, pos + 1)
    } else {
        statement_at(tokens, pos)
    }
}

/// A statement: a print statement after `print`, a block after `{`, or an
/// expression statement.
pub open spec fn statement_at(tokens: Seq<Token>, pos: int) -> Parsed<Tree>
    decreases tokens.len() - pos, 1nat,
    when 0 <= pos < tokens.len()
{
    if is_kind(tokens, pos, TokenType::Print) {
        match terminated_expression(tokens, pos + 1, "Expect ';' after value."@) {
            Ok((expr, next)) => Ok((Tree::Print { expr }, next)),
            Err(failure) => Err(failure),
        }
    } else if is_kind(tokens, pos, TokenType::LeftBrace) {
        match block_at(tokens, pos + 1, Seq::empty()) {
            Ok((stmts, next)) => Ok((Tree::Block { stmts }, next)),
            Err(failure) => Err(failure),
        }
    } else {
        match terminated_expression(tokens, pos, "Expect ';' after value."@) {
            Ok((expr, next)) => Ok((Tree::Expression { expr }, next)),
            Err(failure) => Err(failure),
        }
    }
}

/// The rest of a block after the declarations `done`: declarations up to
/// the next `}` or the end of the input, and then the `}` that must close
/// the block.
pub open spec fn block_at(tokens: Seq<Token>, pos: int, done: Seq<Tree>) -> Parsed<Seq<Tree>>
    decreases tokens.len() - pos, 3nat,
    when 0 <= pos < tokens.len()
{
    if is_kind(tokens, pos, TokenType::RightBrace) || at_end(tokens, pos) {
        match expect(tokens, pos, TokenType::RightBrace, "Expect '}' after block."@) {
            Ok(next) => Ok((done, next)),
            Err(failure) => Err(failure),
        }
    } else {
        match forward(pos, tokens.len() as int, declaration_at(tokens, pos)) {
            Ok((stmt, next)) => block_at(tokens, next, done.push(stmt)),
            Err(failure) => Err(failure),
        }
    }
}

/// The rest of a program after the declarations `done`: declarations up to
/// the end of the input.
pub open spec fn program_at(tokens: Seq<Token>, pos: int, done: Seq<Tree>) -> Result<
    Seq<Tree>,
    Failure,
>
    decreases tokens.len() - pos,
    when 0 <= pos < tokens.len()
{
    if at_end(tokens, pos) {
        Ok(done)
    } else {
        match forward(pos, tokens.len() as int, declaration_at(tokens, pos)) {
            Ok((stmt, next)) => program_at(tokens, next, done.push(stmt)),
            Err(failure) => Err(failure),
        }
    }
}

/// A required token is never passed over: `expect` succeeds exactly where
/// the token of the wanted kind stands, and moves past that token alone; its
/// failure carries the message and the line of the token that stands there.
pub proof fn lemma_expect(tokens: Seq<Token>, pos: int, kind: TokenType, message: Seq<char>)
    ensures
        expect(tokens, pos, kind, message) is Ok <==> is_kind(tokens, pos, kind),
        expect(tokens, pos, kind, message) matches Ok(next) ==> next == pos + 1,
        expect(tokens, pos, kind, message) matches Err(failure) ==> failure == (Failure {
            message,
            line: tokens[pos].line,
        }),
{
}

/// A token of a kind without payload is of that very kind.
pub proof fn lemma_is_kind(tokens: Seq<Token>, pos: int, kind: TokenType)
    requires
        !(kind is STRING),
        !(kind is Number),
    ensures
        is_kind(tokens, pos, kind) ==> tokens[pos].type_ == kind && !(kind is Eof),
{
}

/// After `(` and an expression, `)` must follow: where it does, the primary
/// expression is the grouping and ends after the `)`; where it does not,
/// the parse fails on the line of the token that stands there.
pub proof fn lemma_grouping_needs_right_paren(tokens: Seq<Token>, pos: int)
    requires
        0 <= pos < tokens.len() - 1,
        tokens[pos].type_ is LeftParen,
        expression_at(tokens, pos + 1) is Ok,
    ensures
        ({
            let (inner, close) = expression_at(tokens, pos + 1)->Ok_0;
            primary_at(tokens, pos) == (if is_kind(tokens, close, TokenType::RightParen) {
                Ok::<(Expr, int), Failure>(
                    (Expr::Grouping { expression: Box::new(inner) }, close + 1),
                )
            } else {
                Err::<(Expr, int), Failure>(
                    Failure { message: "Expect ')' after expression."@, line: tokens[close].line },
                )
            })
        }),
{
}

/// After the expression of a statement, `;` must follow: where it does not,
/// the parse fails with the statement's message on the line of the token
/// that stands there.
pub proof fn lemma_statement_needs_semicolon(tokens: Seq<Token>, pos: int, message: Seq<char>)
    requires
        forward(pos, tokens.len() as int, expression_at(tokens, pos)) is Ok,
    ensures
        ({
            let (expr, end) = expression_at(tokens, pos)->Ok_0;
            terminated_expression(tokens, pos, message) == (if is_kind(
                tokens,
                end,
                TokenType::Semicolon,
            ) {
                Ok::<(Expr, int), Failure>((expr, end + 1))
            } else {
                Err::<(Expr, int), Failure>(Failure { message, line: tokens[end].line })
            })
        }),
{
}

/// A block that the input ends in is a failure.
pub proof fn lemma_block_needs_right_brace(tokens: Seq<Token>, pos: int, done: Seq<Tree>)
    requires
        0 <= pos < tokens.len(),
        at_end(tokens, pos),
    ensures
        block_at(tokens, pos, done) == Err::<(Seq<Tree>, int), Failure>(
            Failure { message: "Expect '}' after block."@, line: tokens[pos].line },
        ),
{
}

/// A block that parses ends in `}`.
pub proof fn lemma_block_is_closed(tokens: Seq<Token>, pos: int, done: Seq<Tree>)
    requires
        0 <= pos < tokens.len(),
        block_at(tokens, pos, done) is Ok,
    ensures
        ({
            let (stmts, next) = block_at(tokens, pos, done)->Ok_0;
            pos < next && tokens[next - 1].type_ is RightBrace
        }),
    decreases tokens.len() - pos,
{
    if !(is_kind(tokens, pos, TokenType::RightBrace) || at_end(tokens, pos)) {
        let (stmt, next) = forward(pos, tokens.len() as int, declaration_at(tokens, pos))->Ok_0;
        lemma_block_is_closed(tokens, next, done.push(stmt));
    }
}

/// A statement that parses ends in the token that closes it: a block in
/// `}`, every other statement and every variable declaration in `;`.
pub proof fn lemma_statement_is_closed(tokens: Seq<Token>, pos: int)
    requires
        terminated(tokens),
        0 <= pos < tokens.len(),
        declaration_at(tokens, pos) is Ok,
    ensures
        ({
            let (tree, next) = declaration_at(tokens, pos)->Ok_0;
            if tree is Block {
                tokens[next - 1].type_ is RightBrace
            } else {
                tokens[next - 1].type_ is Semicolon
            }
        }),
{
    let last: int = tokens.len() - 1;
    assert(tokens[last].type_ is Eof);
    if !is_kind(tokens, pos, TokenType::Var) && !is_kind(tokens, pos, TokenType::Print)
        && is_kind(tokens, pos, TokenType::LeftBrace) {
        lemma_block_is_closed(tokens, pos + 1, Seq::empty());
    }
}

/// A grouping that parses ends in `)`.
pub proof fn lemma_grouping_is_closed(tokens: Seq<Token>, pos: int)
    requires
        0 <= pos < tokens.len(),
        primary_at(tokens, pos) is Ok,
    ensures
        ({
            let (expr, next) = primary_at(tokens, pos)->Ok_0;
            expr is Grouping ==> tokens[pos].type_ is LeftParen && tokens[next - 1].type_
                is RightParen
        }),
{
}

/// Every rule of a unary or binary expression that succeeds on tokens that
/// end in the end of the input ends after its start and before the last
/// token.
pub proof fn lemma_binary_advances(tokens: Seq<Token>, pos: int, level: nat)
    requires
        terminated(tokens),
        0 <= pos < tokens.len(),
    ensures
        primary_at(tokens, pos) matches Ok((_, next)) ==> pos < next < tokens.len(),
        unary_at(tokens, pos) matches Ok((_, next)) ==> pos < next < tokens.len(),
        binary_at(tokens, pos, level) matches Ok((_, next)) ==> pos < next < tokens.len(),
    decreases tokens.len() - pos, level, 0nat,
{
    let last: int = tokens.len() - 1;
    assert(tokens[last].type_ is Eof);
    if pos < last {
        lemma_binary_advances(tokens, pos + 1, 0);
        lemma_expression_advances(tokens, pos + 1);
    }
    if level > 0 {
        lemma_binary_advances(tokens, pos, (level - 1) as nat);
        match forward(pos, tokens.len() as int, binary_at(tokens, pos, (level - 1) as nat)) {
            Ok((left, next)) => {
                lemma_fold_advances(tokens, left, next, level);
            },
            Err(_) => {},
        }
    }
}

/// Every expression that parses on tokens that end in the end of the input
/// ends after its start and before the last token.
pub proof fn lemma_expression_advances(tokens: Seq<Token>, pos: int)
    requires
        terminated(tokens),
        0 <= pos < tokens.len(),
    ensures
        assignment_at(tokens, pos) matches Ok((_, next)) ==> pos < next < tokens.len(),
        expression_at(tokens, pos) matches Ok((_, next)) ==> pos < next < tokens.len(),
    decreases tokens.len() - pos, 5nat, 0nat,
{
    let last: int = tokens.len() - 1;
    assert(tokens[last].type_ is Eof);
    lemma_binary_advances(tokens, pos, 4);
    match forward(pos, tokens.len() as int, binary_at(tokens, pos, 4)) {
        Ok((target, next)) => {
            if is_kind(tokens, next, TokenType::Equal) {
                lemma_binary_advances(tokens, next + 1, 4);
            }
        },
        Err(_) => {},
    }
}

/// A fold that succeeds ends at or after its start and before the last
/// token.
pub proof fn lemma_fold_advances(tokens: Seq<Token>, left: Expr, pos: int, level: nat)
    requires
        terminated(tokens),
        0 <= pos < tokens.len(),
        level > 0,
    ensures
        fold_at(tokens, left, pos, level) matches Ok((_, next)) ==> pos <= next < tokens.len(),
    decreases tokens.len() - pos, level, 1nat,
{
    if any_kind(tokens, pos, operators(level)) {
        match forward(pos, tokens.len() as int, binary_at(tokens, pos + 1, (level - 1) as nat)) {
            Ok((right, next)) => {
                lemma_fold_advances(
                    tokens,
                    Expr::Binary {
                        left: Box::new(left),
                        operator: tokens[pos],
                        right: Box::new(right),
                    },
                    next,
                    level,
                );
            },
            Err(_) => {},
        }
    }
}

/// Every statement rule that succeeds on tokens that end in the end of the
/// input ends after its start and before the last token.
pub proof fn lemma_statement_advances(tokens: Seq<Token>, pos: int)
    requires
        terminated(tokens),
        0 <= pos < tokens.len(),
    ensures
        declaration_at(tokens, pos) matches Ok((_, next)) ==> pos < next < tokens.len(),
        statement_at(tokens, pos) matches Ok((_, next)) ==> pos < next < tokens.len(),
{
    let last: int = tokens.len() - 1;
    assert(tokens[last].type_ is Eof);
    if is_kind(tokens, pos, TokenType::LeftBrace) {
        if block_at(tokens, pos + 1, Seq::empty()) is Ok {
            lemma_block_is_closed(tokens, pos + 1, Seq::empty());
            lemma_block_ends_within(tokens, pos + 1, Seq::empty());
        }
    }
}

/// A block that parses ends before the last token.
pub proof fn lemma_block_ends_within(tokens: Seq<Token>, pos: int, done: Seq<Tree>)
    requires
        terminated(tokens),
        0 <= pos < tokens.len(),
        block_at(tokens, pos, done) is Ok,
    ensures
        block_at(tokens, pos, done)->Ok_0.1 < tokens.len(),
    decreases tokens.len() - pos,
{
    let last: int = tokens.len() - 1;
    assert(tokens[last].type_ is Eof);
    if !(is_kind(tokens, pos, TokenType::RightBrace) || at_end(tokens, pos)) {
        let (stmt, next) = forward(pos, tokens.len() as int, declaration_at(tokens, pos))->Ok_0;
        lemma_block_ends_within(tokens, next, done.push(stmt));
    }
}

/// On tokens that end in the end of the input, taking a rule's result only
/// where it moved on takes it as it is.
pub proof fn lemma_forward_is_no_restriction(tokens: Seq<Token>, pos: int, level: nat)
    requires
        terminated(tokens),
        0 <= pos < tokens.len(),
    ensures
        forward(pos, tokens.len() as int, binary_at(tokens, pos, level)) == binary_at(
            tokens,
            pos,
            level,
        ),
        forward(pos, tokens.len() as int, expression_at(tokens, pos)) == expression_at(tokens, pos),
        forward(pos, tokens.len() as int, declaration_at(tokens, pos)) == declaration_at(
            tokens,
            pos,
        ),
{
    lemma_binary_advances(tokens, pos, level);
    lemma_expression_advances(tokens, pos);
    lemma_statement_advances(tokens, pos);
}

} // verus!
