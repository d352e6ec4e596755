//! The recursive-descent parser.

use vstd::prelude::*;
use crate::error::ParseError;
use crate::expr::{Expr, Value};
use crate::grammar::{
    any_kind, assignment_at, at_end, binary_at, block_at, declaration_at, expect, expression_at,
    fold_at, is_kind, primary_at, program_at, statement_at, terminated, terminated_expression,
    unary_at, var_declaration_at, Failure, Parsed,
};
use crate::stmt::{all_well_formed, trees, Stmt, Tree};
use crate::token::Token;
use crate::token_type::TokenType;

verus! {

/// `r` and the cursor are what the rule gave: on success the tree itself and
/// the index after it, on failure the failure.
pub open spec fn gives_expr(
    r: Result<Expr, ParseError>,
    cursor: int,
    parsed: Parsed<Expr>,
) -> bool {
    match parsed {
        Ok((tree, next)) => r == Ok::<Expr, ParseError>(tree) && cursor == next,
        Err(failure) => r matches Err(e) && e@ == failure,
    }
}

/// `r` and the cursor are what the rule gave: on success a statement with
/// the rule's tree and the index after it, on failure the failure.
pub open spec fn gives_stmt(
    r: Result<Stmt, ParseError>,
    cursor: int,
    parsed: Parsed<Tree>,
) -> bool {
    match parsed {
        Ok((tree, next)) => r matches Ok(stmt) && stmt@ == tree && cursor == next,
        Err(failure) => r matches Err(e) && e@ == failure,
    }
}

/// `r` is what the program rule gave: on success statements with the rule's
/// trees, on failure the failure.
pub open spec fn gives_program(
    r: Result<Vec<Stmt>, ParseError>,
    parsed: Result<Seq<Tree>, Failure>,
) -> bool {
    match parsed {
        Ok(all) => r matches Ok(stmts) && trees(stmts@) == all,
        Err(failure) => r matches Err(e) && e@ == failure,
    }
}

/// A parser: the tokens and a cursor into them.
pub struct Parser {
    pub tokens: Vec<Token>,
    current: usize,
}

impl Parser {
    /// The tokens that are parsed.
    pub closed spec fn input(self) -> Seq<Token> {
        self.tokens@
    }

    /// The index of the current token.
    pub closed spec fn position(self) -> int {
        self.current as int
    }

    /// The tokens end in the end of the input, and the cursor stands on one
    /// of them.
    pub open spec fn wf(self) -> bool {
        terminated(self.input()) && 0 <= self.position() < self.input().len()
    }

    /// The parser has moved on from `before` over the same tokens, never
    /// backwards.
    pub open spec fn follows(self, before: Parser) -> bool {
        self.wf() && self.input() == before.input() && self.position() >= before.position()
    }

    /// The parser has applied an expression rule that gave `parsed`. A tree
    /// that it gives is well formed and spans one token at least.
    pub open spec fn expr_done(
        self,
        before: Parser,
        r: Result<Expr, ParseError>,
        parsed: Parsed<Expr>,
    ) -> bool {
        &&& self.follows(before)
        &&& gives_expr(r, self.position(), parsed)
        &&& r matches Ok(e) ==> e.well_formed() && self.position() > before.position()
    }

    /// The parser has applied a statement rule that gave `parsed`. A
    /// statement that it gives is well formed and spans one token at least.
    pub open spec fn stmt_done(
        self,
        before: Parser,
        r: Result<Stmt, ParseError>,
        parsed: Parsed<Tree>,
    ) -> bool {
        &&& self.follows(before)
        &&& gives_stmt(r, self.position(), parsed)
        &&& r matches Ok(s) ==> s.well_formed() && self.position() > before.position()
    }

    /// A parser at the first of the tokens.
    pub fn new(tokens: Vec<Token>) -> (r: Parser)
        ensures
            r.input() == tokens@,
            r.position() == 0,
    {
        Parser { tokens, current: 0 }
    }

    /// Whether the tokens end in the end of the input, as `parse` needs them.
    pub fn is_terminated(&self) -> (r: bool)
        ensures
            r == terminated(self.input()),
    {
        let n: usize = self.tokens.len();
        n > 0 && match self.tokens[n - 1].type_ {
            TokenType::Eof => true,
            _ => false,
        }
    }

    /// Parses a program: declarations up to the end of the input. The first
    /// failure ends the parse.
    pub fn parse(&mut self) -> (r: Result<Vec<Stmt>, ParseError>)
        requires
            old(self).wf(),
        ensures
            final(self).follows(*old(self)),
            gives_program(r, program_at(old(self).input(), old(self).position(), Seq::empty())),
            r matches Ok(stmts) ==> all_well_formed(stmts@) && at_end(
                final(self).input(),
                final(self).position(),
            ),
    {
        let mut stmts: Vec<Stmt> = Vec::new();
        let ghost tokens = self.input();
        let ghost start = self.position();
        proof {
            assert(trees(stmts@) =~= Seq::<Tree>::empty());
        }
        while !self.is_at_end()
            invariant
                self.follows(*old(self)),
                tokens == self.input(),
                start == old(self).position(),
                0 <= start <= self.position(),
                all_well_formed(stmts@),
                program_at(tokens, self.position(), trees(stmts@)) == program_at(
                    tokens,
                    start,
                    Seq::empty(),
                ),
            decreases tokens.len() - self.position(),
        {
            let ghost done = trees(stmts@);
            match self.declaration() {
                Ok(stmt) => {
                    proof {
                        assert(trees(stmts@.push(stmt)) =~= done.push(stmt@));
                    }
                    stmts.push(stmt);
                },
                Err(e) => {
                    return Err(e);
                },
            }
        }
        Ok(stmts)
    }

    fn declaration(&mut self) -> (r: Result<Stmt, ParseError>)
        requires
            old(self).wf(),
        ensures
            final(self).stmt_done(
                *old(self),
                r,
                declaration_at(old(self).input(), old(self).position()),
            ),
        decreases old(self).input().len() - old(self).position(), 2nat,
    {
        proof {
            Self::lemma_single(self.input(), self.position(), TokenType::Var);
        }
        if self.mtch(vec![TokenType::Var]) {
            self.var_declaration()
        } else {
            self.statement()
        }
    }

    fn statement(&mut self) -> (r: Result<Stmt, ParseError>)
        requires
            old(self).wf(),
        ensures
            final(self).stmt_done(
                *old(self),
                r,
                statement_at(old(self).input(), old(self).position()),
            ),
        decreases old(self).input().len() - old(self).position(), 1nat,
    {
        proof {
            Self::lemma_single(self.input(), self.position(), TokenType::Print);
            Self::lemma_single(self.input(), self.position(), TokenType::LeftBrace);
        }
        if self.mtch(vec![TokenType::Print]) {
            self.print_statement()
        } else if self.mtch(vec![TokenType::LeftBrace]) {
            self.block_statement()
        } else {
            self.expression_statement()
        }
    }

    fn var_declaration(&mut self) -> (r: Result<Stmt, ParseError>)
        requires
            old(self).wf(),
        ensures
            final(self).follows(*old(self)),
            gives_stmt(
                r,
                final(self).position(),
                var_declaration_at(old(self).input(), old(self).position()),
            ),
            r matches Ok(s) ==> s.well_formed(),
    {
        let name = self.consume(&TokenType::Identifier, "Expect variable name")?;
        let mut initializer = Expr::Literal { value: Value::Nil };
        proof {
            Self::lemma_single(self.input(), self.position(), TokenType::Equal);
        }
        if self.mtch(vec![TokenType::Equal]) {
            initializer = self.expression()?;
        }
        self.consume(&TokenType::Semicolon, "Expect ';' after variable declaration")?;
        Ok(Stmt::Var { name, initializer: Box::new(initializer) })
    }

    fn print_statement(&mut self) -> (r: Result<Stmt, ParseError>)
        requires
            old(self).wf(),
        ensures
            final(self).follows(*old(self)),
            match terminated_expression(
                old(self).input(),
                old(self).position(),
                "Expect ';' after value."@,
            ) {
                Ok((expr, next)) => r matches Ok(s) && s@ == (Tree::Print { expr })
                    && final(self).position() == next,
                Err(failure) => r matches Err(e) && e@ == failure,
            },
            r matches Ok(s) ==> s.well_formed(),
    {
        let value = self.expression()?;
        self.consume(&TokenType::Semicolon, "Expect ';' after value.")?;
        Ok(Stmt::Print { expr: Box::new(value) })
    }

    fn block_statement(&mut self) -> (r: Result<Stmt, ParseError>)
        requires
            old(self).wf(),
        ensures
            final(self).follows(*old(self)),
            match block_at(old(self).input(), old(self).position(), Seq::empty()) {
                Ok((stmts, next)) => r matches Ok(s) && s@ == (Tree::Block { stmts })
                    && final(self).position() == next,
                Err(failure) => r matches Err(e) && e@ == failure,
            },
            r matches Ok(s) ==> s.well_formed(),
        decreases old(self).input().len() - old(self).position(), 3nat,
    {
        let mut stmts: Vec<Stmt> = Vec::new();
        let ghost tokens = self.input();
        let ghost start = self.position();
        proof {
            assert(trees(stmts@) =~= Seq::<Tree>::empty());
        }
        while !self.check(&TokenType::RightBrace) && !self.is_at_end()
            invariant
                self.follows(*old(self)),
                tokens == self.input(),
                start == old(self).position(),
                0 <= start <= self.position(),
                all_well_formed(stmts@),
                block_at(tokens, self.position(), trees(stmts@)) == block_at(
                    tokens,
                    start,
                    Seq::empty(),
                ),
            decreases tokens.len() - self.position(),
        {
            let ghost done = trees(stmts@);
            match self.declaration() {
                Ok(stmt) => {
                    proof {
                        assert(trees(stmts@.push(stmt)) =~= done.push(stmt@));
                    }
                    stmts.push(stmt);
                },
                Err(e) => {
                    return Err(e);
                },
            }
        }
        self.consume(&TokenType::RightBrace, "Expect '}' after block.")?;
        Ok(Stmt::Block { stmts })
    }

    fn expression_statement(&mut self) -> (r: Result<Stmt, ParseError>)
        requires
            old(self).wf(),
        ensures
            final(self).follows(*old(self)),
            match terminated_expression(
                old(self).input(),
                old(self).position(),
                "Expect ';' after value."@,
            ) {
                Ok((expr, next)) => r matches Ok(s) && s@ == (Tree::Expression { expr })
                    && final(self).position() == next,
                Err(failure) => r matches Err(e) && e@ == failure,
            },
            r matches Ok(s) ==> s.well_formed() && final(self).position() > old(self).position(),
    {
        let value = self.expression()?;
        self.consume(&TokenType::Semicolon, "Expect ';' after value.")?;
        Ok(Stmt::Expression { expr: Box::new(value) })
    }

    fn expression(&mut self) -> (r: Result<Expr, ParseError>)
        requires
            old(self).wf(),
        ensures
            final(self).expr_done(
                *old(self),
                r,
                expression_at(old(self).input(), old(self).position()),
            ),
        decreases old(self).input().len() - old(self).position(), 6nat, 0nat,
    {
        self.assignment()
    }

    fn assignment(&mut self) -> (r: Result<Expr, ParseError>)
        requires
            old(self).wf(),
        ensures
            final(self).expr_done(
                *old(self),
                r,
                assignment_at(old(self).input(), old(self).position()),
            ),
        decreases old(self).input().len() - old(self).position(), 5nat, 0nat,
    {
        let expr = self.equality()?;
        proof {
            Self::lemma_single(self.input(), self.position(), TokenType::Equal);
        }
        if self.mtch(vec![TokenType::Equal]) {
            let equals = self.previous();
            let value = self.equality()?;
            match expr {
                Expr::Variable { name } => Ok(Expr::Assign { name, value: Box::new(value) }),
                _ => Err(
                    ParseError {
                        message: "Invalid assignment target.".to_owned(),
                        line: equals.line,
                    },
                ),
            }
        } else {
            Ok(expr)
        }
    }

    fn equality(&mut self) -> (r: Result<Expr, ParseError>)
        requires
            old(self).wf(),
        ensures
            final(self).expr_done(
                *old(self),
                r,
                binary_at(old(self).input(), old(self).position(), 4),
            ),
        decreases old(self).input().len() - old(self).position(), 4nat, 2nat,
    {
        let ghost tokens = self.input();
        let ghost start = self.position();
        let mut expr = self.comparison()?;
        loop
            invariant
                self.follows(*old(self)),
                tokens == self.input(),
                start == old(self).position(),
                0 <= start < self.position(),
                expr.well_formed(),
                fold_at(tokens, expr, self.position(), 4) == binary_at(tokens, start, 4),
            decreases tokens.len() - self.position(),
        {
            if !self.mtch(vec![TokenType::BangEqual, TokenType::EqualEqual]) {
                return Ok(expr);
            }
            let operator = self.previous();
            let right = self.comparison()?;
            expr = Expr::Binary { left: Box::new(expr), operator, right: Box::new(right) };
        }
    }

    fn comparison(&mut self) -> (r: Result<Expr, ParseError>)
        requires
            old(self).wf(),
        ensures
            final(self).expr_done(
                *old(self),
                r,
                binary_at(old(self).input(), old(self).position(), 3),
            ),
        decreases old(self).input().len() - old(self).position(), 3nat, 2nat,
    {
        let ghost tokens = self.input();
        let ghost start = self.position();
        let mut expr = self.addition()?;
        loop
            invariant
                self.follows(*old(self)),
                tokens == self.input(),
                start == old(self).position(),
                0 <= start < self.position(),
                expr.well_formed(),
                fold_at(tokens, expr, self.position(), 3) == binary_at(tokens, start, 3),
            decreases tokens.len() - self.position(),
        {
            if !self.mtch(
                vec![
                    TokenType::Greater,
                    TokenType::GreaterEqual,
                    TokenType::Less,
                    TokenType::LessEqual,
                ],
            ) {
                return Ok(expr);
            }
            let operator: Token = self.previous();
            let right = self.addition()?;
            expr = Expr::Binary { left: Box::new(expr), operator, right: Box::new(right) };
        }
    }

    fn addition(&mut self) -> (r: Result<Expr, ParseError>)
        requires
            old(self).wf(),
        ensures
            final(self).expr_done(
                *old(self),
                r,
                binary_at(old(self).input(), old(self).position(), 2),
            ),
        decreases old(self).input().len() - old(self).position(), 2nat, 2nat,
    {
        let ghost tokens = self.input();
        let ghost start = self.position();
        let mut expr = self.multiplication()?;
        loop
            invariant
                self.follows(*old(self)),
                tokens == self.input(),
                start == old(self).position(),
                0 <= start < self.position(),
                expr.well_formed(),
                fold_at(tokens, expr, self.position(), 2) == binary_at(tokens, start, 2),
            decreases tokens.len() - self.position(),
        {
            if !self.mtch(vec![TokenType::Minus, TokenType::Plus]) {
                return Ok(expr);
            }
            let operator = self.previous();
            let right = self.multiplication()?;
            expr = Expr::Binary { left: Box::new(expr), operator, right: Box::new(right) };
        }
    }

    fn multiplication(&mut self) -> (r: Result<Expr, ParseError>)
        requires
            old(self).wf(),
        ensures
            final(self).expr_done(
                *old(self),
                r,
                binary_at(old(self).input(), old(self).position(), 1),
            ),
        decreases old(self).input().len() - old(self).position(), 1nat, 2nat,
    {
        let ghost tokens = self.input();
        let ghost start = self.position();
        proof {
            assert(binary_at(tokens, start, 0) == unary_at(tokens, start));
        }
        let mut expr = self.unary()?;
        loop
            invariant
                self.follows(*old(self)),
                tokens == self.input(),
                start == old(self).position(),
                0 <= start < self.position(),
                expr.well_formed(),
                fold_at(tokens, expr, self.position(), 1) == binary_at(tokens, start, 1),
            decreases tokens.len() - self.position(),
        {
            if !self.mtch(vec![TokenType::Slash, TokenType::Star]) {
                return Ok(expr);
            }
            let operator = self.previous();
            proof {
                assert(binary_at(tokens, self.position(), 0) == unary_at(tokens, self.position()));
            }
            let right = self.unary()?;
            expr = Expr::Binary { left: Box::new(expr), operator, right: Box::new(right) };
        }
    }

    fn unary(&mut self) -> (r: Result<Expr, ParseError>)
        requires
            old(self).wf(),
        ensures
            final(self).expr_done(
                *old(self),
                r,
                unary_at(old(self).input(), old(self).position()),
            ),
        decreases old(self).input().len() - old(self).position(), 0nat, 1nat,
    {
        if self.mtch(vec![TokenType::Bang, TokenType::Minus]) {
            let operator = self.previous();
            let right = self.unary()?;
            Ok(Expr::Unary { operator, right: Box::new(right) })
        } else {
            self.primary()
        }
    }

    fn primary(&mut self) -> (r: Result<Expr, ParseError>)
        requires
            old(self).wf(),
        ensures
            final(self).expr_done(
                *old(self),
                r,
                primary_at(old(self).input(), old(self).position()),
            ),
        decreases old(self).input().len() - old(self).position(), 0nat, 0nat,
    {
        let token = self.peek();
        match token.type_ {
            TokenType::False => {
                self.advance();
                Ok(Expr::Literal { value: Value::Boolean(false) })
            },
            TokenType::True => {
                self.advance();
                Ok(Expr::Literal { value: Value::Boolean(true) })
            },
            TokenType::Nil => {
                self.advance();
                Ok(Expr::Literal { value: Value::Nil })
            },
            TokenType::Number { literal } => {
                self.advance();
                Ok(Expr::Literal { value: Value::Number(literal) })
            },
            TokenType::STRING { literal } => {
                self.advance();
                Ok(Expr::Literal { value: Value::String(literal) })
            },
            TokenType::Identifier => {
                self.advance();
                Ok(Expr::Variable { name: token })
            },
            TokenType::LeftParen => {
                self.advance();
                let expr = self.expression()?;
                self.consume(&TokenType::RightParen, "Expect ')' after expression.")?;
                Ok(Expr::Grouping { expression: Box::new(expr) })
            },
            _ => Err(ParseError { message: "Expect expression.".to_owned(), line: token.line }),
        }
    }

    /// Requires a token of the kind `type_`: moves past it and gives it, or
    /// fails with `message` and the line of the token that stands there.
    pub fn consume(&mut self, type_: &TokenType, message: &str) -> (r: Result<Token, ParseError>)
        requires
            old(self).wf(),
        ensures
            final(self).follows(*old(self)),
            match expect(old(self).input(), old(self).position(), *type_, message@) {
                Ok(next) => r == Ok::<Token, ParseError>(old(self).input()[old(self).position()])
                    && final(self).position() == next,
                Err(failure) => r matches Err(e) && e@ == failure && final(self).position()
                    == old(self).position(),
            },
    {
        if self.check(type_) {
            Ok(self.advance())
        } else {
            Err(ParseError { message: message.to_owned(), line: self.tokens[self.current].line })
        }
    }

    /// Moves past the current token if it is of one of the kinds `types`.
    pub fn mtch(&mut self, types: Vec<TokenType>) -> (r: bool)
        requires
            old(self).wf(),
        ensures
            final(self).follows(*old(self)),
            r == any_kind(old(self).input(), old(self).position(), types@),
            final(self).position() == (if r {
                old(self).position() + 1
            } else {
                old(self).position()
            }),
    {
        let mut i: usize = 0;
        while i < types.len()
            invariant
                0 <= i <= types@.len(),
                self.wf(),
                *self == *old(self),
                forall|k: int|
                    0 <= k < i ==> !is_kind(self.input(), self.position(), #[trigger] types@[k]),
            decreases types@.len() - i,
        {
            if self.check(&types[i]) {
                self.advance();
                return true;
            }
            i += 1;
        }
        false
    }

    /// Whether the current token is of the kind `token_type`. The end of the
    /// input is of no kind.
    pub fn check(&self, token_type: &TokenType) -> (r: bool)
        requires
            self.wf(),
        ensures
            r == is_kind(self.input(), self.position(), *token_type),
    {
        if self.is_at_end() {
            return false;
        }
        self.tokens[self.current].type_.matches(token_type)
    }

    /// The token before the current one.
    pub fn previous(&self) -> (r: Token)
        requires
            self.wf(),
            self.position() > 0,
        ensures
            r == self.input()[self.position() - 1],
    {
        self.tokens[self.current - 1].clone()
    }

    /// The current token.
    pub fn peek(&self) -> (r: Token)
        requires
            self.wf(),
        ensures
            r == self.input()[self.position()],
    {
        self.tokens[self.current].clone()
    }

    /// Moves past the current token, unless it is the end of the input, and
    /// gives the token that was current.
    pub fn advance(&mut self) -> (r: Token)
        requires
            old(self).wf(),
        ensures
            final(self).follows(*old(self)),
            r == old(self).input()[old(self).position()],
            final(self).position() == (if at_end(old(self).input(), old(self).position()) {
                old(self).position()
            } else {
                old(self).position() + 1
            }),
    {
        let token = self.peek();
        let last: usize = self.tokens.len() - 1;
        if !self.is_at_end() && self.current < last {
            self.current += 1
        }
        token
    }

    /// Whether the current token is the end of the input.
    pub fn is_at_end(&self) -> (r: bool)
        requires
            self.wf(),
        ensures
            r == at_end(self.input(), self.position()),
    {
        match self.tokens[self.current].type_ {
            TokenType::Eof => true,
            _ => false,
        }
    }

    /// A token is of one of one kind exactly when it is of that kind.
    proof fn lemma_single(tokens: Seq<Token>, pos: int, kind: TokenType)
        ensures
            any_kind(tokens, pos, seq![kind]) == is_kind(tokens, pos, kind),
    {
        if is_kind(tokens, pos, kind) {
            assert(seq![kind][0] == kind);
        }
    }
}

} // verus!
