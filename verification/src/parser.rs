use vstd::prelude::*;
use std::rc::Rc;
use crate::ast::{
    AssignOperator, AssignStatement, Ast, BinaryExpression, BinaryOperator, CallExpression,
    ConditionalExpression, ContextDeclarator, Expression, ForStatement, FunctionDeclarator,
    Identifier, IfStatement, ImportStatement, Literal, LoopStatement, MemberExpression, Node,
    Program, ReturnStatement, ScopeDeclarator, SequenceExpression, Statement, ThrowStatement,
    UnaryExpression, UnaryOperator, VariableDeclarator, WhileStatement, WordExpression,
    WordOperator, YieldStatement,
};
use crate::grammar::{
    assign_parse, block_body_parse, body_parse, body_prefix_parse, braces_parse,
    bracketed_parse, fn_decl_parse, for_parse, if_parse, import_parse, named_body_parse,
    params_parse, params_rest_parse, program_parse, statement_parse, texts_of, var_decl_parse,
    while_parse, word_parse, await_parse, beside_rounds_parse, binary_parse,
    binary_rounds_parse, call_parse, comma_items_parse, comma_parse, delete_parse, dot_parse,
    dot_rounds_parse, eats, expr_parse, factor_parse, operand_parse, product_rounds_parse,
    seq_expr_parse, steps, term_parse, ternary_parse, ternary_rounds_parse,
};
use crate::lexer::Lexer;
use crate::parse_failure::{
    assign_fails, await_fails, binary_fails, block_body_fails, body_fails, braces_fails,
    bracketed_fails, call_fails, comma_fails, delete_fails, dot_fails, eat_fails, expr_fails,
    factor_fails, fn_decl_fails, for_fails, if_fails, import_fails, named_body_fails,
    operand_fails, params_fails, parse_fails, program_fails, seq_expr_fails, statement_fails,
    step_fails, term_fails, ternary_fails, var_decl_fails, while_fails, word_fails,
};
use crate::text::byte_of;
use vstd::string::StringSliceAdditionalSpecFns;
use vstd::utf8::encode_utf8;
use crate::semantics::{given, given2, given3, given4, given5};
use crate::report::Diagnostic;
use crate::token::{Token, TokenKind, TokenValue};

verus! {

/// Turns a source text into a syntax tree.
pub struct Parser<'a> {
    /// Path of the source file.
    path: &'a str,
    /// Source text.
    source: &'a str,
    lexer: Lexer<'a>,
    /// The token that the parser looks at.
    cur_token: Token,
    prev_token_end: usize,
}

/// The binary operator that a token of kind `kind` stands for at the precedence level
/// `level`; level 0 binds strongest.
pub open spec fn operator_at(level: nat, kind: TokenKind) -> Option<BinaryOperator> {
    if level == 0 {
        if kind == TokenKind::Caret {
            Some(BinaryOperator::Power)
        } else {
            None
        }
    } else if level == 1 {
        if kind == TokenKind::Star {
            Some(BinaryOperator::Multiply)
        } else if kind == TokenKind::Slash {
            Some(BinaryOperator::Divide)
        } else if kind == TokenKind::Modulo {
            Some(BinaryOperator::Modulo)
        } else {
            None
        }
    } else if level == 2 {
        if kind == TokenKind::Plus {
            Some(BinaryOperator::Add)
        } else if kind == TokenKind::Minus {
            Some(BinaryOperator::Substract)
        } else {
            None
        }
    } else if level == 3 {
        if kind == TokenKind::BitRightShift {
            Some(BinaryOperator::BitRightShift)
        } else if kind == TokenKind::BitLeftShift {
            Some(BinaryOperator::BitLeftShift)
        } else {
            None
        }
    } else if level == 4 {
        if kind == TokenKind::Ampersand {
            Some(BinaryOperator::BitAnd)
        } else {
            None
        }
    } else if level == 5 {
        if kind == TokenKind::BitXor {
            Some(BinaryOperator::BitXor)
        } else {
            None
        }
    } else if level == 6 {
        if kind == TokenKind::Pipe {
            Some(BinaryOperator::BitOr)
        } else {
            None
        }
    } else if level == 7 {
        if kind == TokenKind::Less {
            Some(BinaryOperator::Less)
        } else if kind == TokenKind::LessEqual {
            Some(BinaryOperator::LessEqual)
        } else if kind == TokenKind::Greater {
            Some(BinaryOperator::Greater)
        } else if kind == TokenKind::GreaterEqual {
            Some(BinaryOperator::GreaterEqual)
        } else if kind == TokenKind::Equal {
            Some(BinaryOperator::Equal)
        } else if kind == TokenKind::NotEqual {
            Some(BinaryOperator::NotEqual)
        } else {
            None
        }
    } else if level == 8 {
        if kind == TokenKind::AmpersandAmpersand {
            Some(BinaryOperator::And)
        } else if kind == TokenKind::Xor {
            Some(BinaryOperator::Xor)
        } else {
            None
        }
    } else if level == 9 {
        if kind == TokenKind::PipePipe {
            Some(BinaryOperator::Or)
        } else {
            None
        }
    } else if level == 10 {
        if kind == TokenKind::Range {
            Some(BinaryOperator::Range)
        } else {
            None
        }
    } else {
        None
    }
}

/// The unary operator that a token of kind `kind` stands for in front of an operand.
pub open spec fn unary_operator(kind: TokenKind) -> Option<UnaryOperator> {
    match kind {
        TokenKind::MinusMinus => Some(UnaryOperator::MinusMinus),
        TokenKind::Tilde => Some(UnaryOperator::BitNot),
        TokenKind::ExclamationMark => Some(UnaryOperator::Not),
        TokenKind::PlusPlus => Some(UnaryOperator::PlusPlus),
        TokenKind::Plus => Some(UnaryOperator::Plus),
        TokenKind::Minus => Some(UnaryOperator::Minus),
        _ => None,
    }
}

/// The assignment operator that a token of kind `kind` stands for.
pub open spec fn assign_operator(kind: TokenKind) -> Option<AssignOperator> {
    match kind {
        TokenKind::Assign => Some(AssignOperator::Assign),
        TokenKind::PlusAssign => Some(AssignOperator::PlusAssign),
        TokenKind::MinusAssign => Some(AssignOperator::MinusAssign),
        TokenKind::MultiplyAssign => Some(AssignOperator::MultiplyAssign),
        TokenKind::DivideAssign => Some(AssignOperator::DivideAssign),
        TokenKind::PowerAssign => Some(AssignOperator::PowerAssign),
        TokenKind::ModuloAssign => Some(AssignOperator::ModuloAssign),
        _ => None,
    }
}

/// Whether a token of the kind `kind` announces a statement of a kind of its own.
pub open spec fn matches_statement_keyword(kind: TokenKind) -> bool {
    kind == TokenKind::Let || kind == TokenKind::Function || kind == TokenKind::Async || kind
        == TokenKind::Scope || kind == TokenKind::Context || kind == TokenKind::If || kind
        == TokenKind::For || kind == TokenKind::While || kind == TokenKind::Loop || kind
        == TokenKind::Continue || kind == TokenKind::Break || kind == TokenKind::Throw || kind
        == TokenKind::Return || kind == TokenKind::Yield || kind == TokenKind::Import || kind
        == TokenKind::Block || kind == TokenKind::LAngle || kind == TokenKind::Mut
}

/// The binary operator of a token, at whatever level it binds.
pub fn kind_to_bin_op(level: usize, kind: TokenKind) -> (op: Option<BinaryOperator>)
    ensures
        op == operator_at(level as nat, kind),
{
    if level == 0 {
        match kind {
            TokenKind::Caret => Some(BinaryOperator::Power),
            _ => None,
        }
    } else if level == 1 {
        match kind {
            TokenKind::Star => Some(BinaryOperator::Multiply),
            TokenKind::Slash => Some(BinaryOperator::Divide),
            TokenKind::Modulo => Some(BinaryOperator::Modulo),
            _ => None,
        }
    } else if level == 2 {
        match kind {
            TokenKind::Plus => Some(BinaryOperator::Add),
            TokenKind::Minus => Some(BinaryOperator::Substract),
            _ => None,
        }
    } else if level == 3 {
        match kind {
            TokenKind::BitRightShift => Some(BinaryOperator::BitRightShift),
            TokenKind::BitLeftShift => Some(BinaryOperator::BitLeftShift),
            _ => None,
        }
    } else if level == 4 {
        match kind {
            TokenKind::Ampersand => Some(BinaryOperator::BitAnd),
            _ => None,
        }
    } else if level == 5 {
        match kind {
            TokenKind::BitXor => Some(BinaryOperator::BitXor),
            _ => None,
        }
    } else if level == 6 {
        match kind {
            TokenKind::Pipe => Some(BinaryOperator::BitOr),
            _ => None,
        }
    } else if level == 7 {
        match kind {
            TokenKind::Less => Some(BinaryOperator::Less),
            TokenKind::LessEqual => Some(BinaryOperator::LessEqual),
            TokenKind::Greater => Some(BinaryOperator::Greater),
            TokenKind::GreaterEqual => Some(BinaryOperator::GreaterEqual),
            TokenKind::Equal => Some(BinaryOperator::Equal),
            TokenKind::NotEqual => Some(BinaryOperator::NotEqual),
            _ => None,
        }
    } else if level == 8 {
        match kind {
            TokenKind::AmpersandAmpersand => Some(BinaryOperator::And),
            TokenKind::Xor => Some(BinaryOperator::Xor),
            _ => None,
        }
    } else if level == 9 {
        match kind {
            TokenKind::PipePipe => Some(BinaryOperator::Or),
            _ => None,
        }
    } else if level == 10 {
        match kind {
            TokenKind::Range => Some(BinaryOperator::Range),
            _ => None,
        }
    } else {
        None
    }
}

/// The unary operator of a token.
pub fn kind_to_un_op(kind: TokenKind) -> (op: Option<UnaryOperator>)
    ensures
        op == unary_operator(kind),
{
    match kind {
        TokenKind::MinusMinus => Some(UnaryOperator::MinusMinus),
        TokenKind::Tilde => Some(UnaryOperator::BitNot),
        TokenKind::ExclamationMark => Some(UnaryOperator::Not),
        TokenKind::PlusPlus => Some(UnaryOperator::PlusPlus),
        TokenKind::Plus => Some(UnaryOperator::Plus),
        TokenKind::Minus => Some(UnaryOperator::Minus),
        _ => None,
    }
}

/// The assignment operator of a token.
pub fn kind_to_assign_op(kind: TokenKind) -> (op: Option<AssignOperator>)
    ensures
        op == assign_operator(kind),
{
    match kind {
        TokenKind::Assign => Some(AssignOperator::Assign),
        TokenKind::PlusAssign => Some(AssignOperator::PlusAssign),
        TokenKind::MinusAssign => Some(AssignOperator::MinusAssign),
        TokenKind::MultiplyAssign => Some(AssignOperator::MultiplyAssign),
        TokenKind::DivideAssign => Some(AssignOperator::DivideAssign),
        TokenKind::PowerAssign => Some(AssignOperator::PowerAssign),
        TokenKind::ModuloAssign => Some(AssignOperator::ModuloAssign),
        _ => None,
    }
}

impl<'a> Parser<'a> {
    /// The characters of the source.
    pub closed spec fn text(&self) -> Seq<char> {
        self.source@
    }

    /// The path that the parser was made with.
    pub closed spec fn path(&self) -> Seq<char> {
        self.path@
    }

    /// The token that the parser looks at.
    pub closed spec fn current(&self) -> Token {
        self.cur_token
    }

    /// The index of the character from which the lexer of the parser reads on: the end of
    /// the token that the parser looks at.
    pub closed spec fn cursor(&self) -> nat {
        self.lexer.position()
    }

    pub closed spec fn wf(&self) -> bool {
        &&& self.lexer.wf()
        &&& self.lexer.text() == self.source@
        &&& self.lexer.path() == self.path@
        &&& !self.lexer.keeps_comments()
        &&& self.cur_token.start <= self.cur_token.end <= self.lexer.byte_position()
        &&& self.cur_token.kind == TokenKind::Eof ==> self.lexer.position()
            == self.lexer.text().len()
    }

    /// What is left to read: the characters behind the current token, and that token unless
    /// it is the end of the source.
    pub closed spec fn budget(&self) -> nat {
        (self.lexer.text().len() - self.lexer.position()) as nat + (if self.cur_token.kind
            == TokenKind::Eof {
            0nat
        } else {
            1nat
        })
    }

    /// `later` is this parser further on in the same source.
    pub open spec fn moves_on(&self, later: &Parser<'a>) -> bool {
        &&& later.wf()
        &&& later.text() == self.text()
        &&& later.path() == self.path()
        &&& later.budget() <= self.budget()
    }

    /// `d` speaks of the source of this parser.
    pub open spec fn reports(&self, d: Diagnostic) -> bool {
        d.path@ == self.path() && d.source@ == self.text()
    }

    /// A parser at the start of `source`.
    pub fn new(path: &'a str, source: &'a str) -> (parser: Parser<'a>)
        ensures
            parser.wf(),
            parser.text() == source@,
            parser.path() == path@,
            parser.current().kind == TokenKind::Start,
            parser.cursor() == 0,
    {
        Parser {
            path,
            source,
            lexer: Lexer::new(path, source),
            cur_token: Token::default(),
            prev_token_end: 0,
        }
    }

    /// Parses the whole source.
    pub fn parse(&mut self) -> (r: Result<Ast, Diagnostic>)
        requires
            old(self).wf(),
        ensures
            old(self).moves_on(final(self)),
            r is Err ==> program_fails(*old(self)),
            match r {
                Ok(ast) => program_parse(*old(self), *final(self), ast),
                Err(d) => old(self).reports(d),
            },
    {
        self.eat(TokenKind::Start)?;
        proof {
            assert(given(*self));
        }
        let ghost moved = *self;
        let program = self.program()?;
        proof {
            assert(given2(*self, program));
        }
        proof {
            assert(given(moved));
        }
        Ok(Ast { program })
    }

    fn program(&mut self) -> (r: Result<Program, Diagnostic>)
        requires
            old(self).wf(),
        ensures
            old(self).moves_on(final(self)),
            r is Err ==> body_fails(*old(self)),
            match r {
                Ok(program) => {
                    &&& program.node == Node {
                        start: 0,
                        end: byte_of(old(self).text(), old(self).text().len() as int) as usize,
                    }
                    &&& body_parse(*old(self), *final(self), program.body@)
                },
                Err(d) => old(self).reports(d),
            },
    {
        let end = self.source.as_bytes().len();
        proof {
            assert(self.source.spec_bytes() == encode_utf8(self.source@));
            assert(self.source@.len() == 0 ==> encode_utf8(self.source@).len() == 0);
        }
        let body = self.body()?;
        proof {
            assert(given2(*self, body@));
        }
        Ok(Program { node: Node { start: 0, end }, body })
    }

    /// The statements up to the end of the source or of the block.
    fn body(&mut self) -> (r: Result<Vec<Statement>, Diagnostic>)
        requires
            old(self).wf(),
        ensures
            old(self).moves_on(final(self)),
            r is Err ==> body_fails(*old(self)),
            match r {
                Ok(items) => body_parse(*old(self), *final(self), items@),
                Err(d) => old(self).reports(d),
            },
        decreases old(self).budget(), 90nat,
    {
        let mut body: Vec<Statement> = Vec::new();
        loop
            invariant
                old(self).moves_on(self),
                body_prefix_parse(*old(self), body@.len(), *self, body@),
            decreases self.budget(),
        {
            proof {
                assert(given3(body@.len(), *self, body@));
            }
            match self.cur_kind() {
                TokenKind::Eof | TokenKind::RAngle => {
                    return Ok(body);
                },
                _ => {
                    let ghost mid = *self;
                    let ghost so_far = body@;
                    let statement = self.statement()?;
                    proof {
                        assert(given2(*self, statement));
                    }
                    body.push(statement);
                    proof {
                        assert(body@.drop_last() == so_far);
                        assert(given(mid));
                    }
                },
            }
        }
    }

    #[verifier::rlimit(40)]
    fn statement(&mut self) -> (r: Result<Statement, Diagnostic>)
        requires
            old(self).wf(),
        ensures
            old(self).moves_on(final(self)),
            r is Err ==> statement_fails(*old(self)),
            match r {
                Ok(_) => final(self).budget() < old(self).budget(),
                Err(d) => old(self).reports(d),
            },
            r matches Ok(s) ==> statement_parse(*old(self), *final(self), s),
        decreases old(self).budget(), 80nat,
    {
        match self.cur_kind() {
            TokenKind::Let => self.var_decl(false),
            TokenKind::Function | TokenKind::Async => self.fn_decl(),
            TokenKind::Scope => self.scope_decl(),
            TokenKind::Context => self.context_decl(),
            TokenKind::If => self.if_stmt(),
            TokenKind::For => self.for_stmt(),
            TokenKind::While => self.while_stmt(),
            TokenKind::Loop => self.loop_stmt(),
            TokenKind::Continue => self.continue_stmt(),
            TokenKind::Break => self.break_stmt(),
            TokenKind::Throw => self.throw_stmt(),
            TokenKind::Return => self.return_stmt(),
            TokenKind::Yield => self.yield_stmt(),
            TokenKind::Import => self.import_statement(),
            TokenKind::Block => self.block_decl(),
            TokenKind::LAngle => Ok(Statement::BlockStatement(self.braces()?)),
            TokenKind::Mut => self.assign_statement(),
            _ => self.expr_stmt(),
        }
    }

    /// The statements between braces.
    fn braces(&mut self) -> (r: Result<Vec<Statement>, Diagnostic>)
        requires
            old(self).wf(),
        ensures
            old(self).moves_on(final(self)),
            r is Err ==> braces_fails(*old(self)),
            match r {
                Ok(_) => final(self).budget() < old(self).budget(),
                Err(d) => old(self).reports(d),
            },
            r matches Ok(items) ==> braces_parse(*old(self), *final(self), items@),
        decreases old(self).budget(), 10nat,
    {
        let start = self.cur_token.start;
        self.eat(TokenKind::LAngle)?;
        proof {
            assert(given(*self));
        }
        let ghost opened = *self;
        let body = self.body()?;
        proof {
            assert(given2(*self, body@));
        }
        let ghost closing = *self;
        self.eat_with_start(TokenKind::RAngle, start)?;
        proof {
            assert(given(*self));
        }
        proof {
            assert(given2(opened, closing));
        }
        Ok(body)
    }

    /// The statements of a body: those between braces, or the one statement that stands in
    /// their place.
    fn block_stmt(&mut self) -> (r: Result<Vec<Statement>, Diagnostic>)
        requires
            old(self).wf(),
        ensures
            old(self).moves_on(final(self)),
            r is Err ==> block_body_fails(*old(self)),
            match r {
                Ok(_) => final(self).budget() < old(self).budget(),
                Err(d) => old(self).reports(d),
            },
            r matches Ok(items) ==> block_body_parse(*old(self), *final(self), items@),
        decreases old(self).budget(), 85nat,
    {
        if self.cur_kind() == TokenKind::LAngle {
            self.braces()
        } else {
            let mut body: Vec<Statement> = Vec::new();
            let statement = self.statement()?;
            proof {
                assert(given2(*self, statement));
            }
            body.push(statement);
            Ok(body)
        }
    }

    #[verifier::rlimit(40)]
    fn import_statement(&mut self) -> (r: Result<Statement, Diagnostic>)
        requires
            old(self).wf(),
            old(self).current().kind != TokenKind::Eof,
        ensures
            old(self).moves_on(final(self)),
            r is Err ==> import_fails(*old(self)),
            match r {
                Ok(_) => final(self).budget() < old(self).budget(),
                Err(d) => old(self).reports(d),
            },
            r matches Ok(s) ==> import_parse(*old(self), *final(self), s),
    {
        let start = self.cur_token.start;
        self.advance()?;
        proof {
            assert(given(*self));
        }
        let ghost moved = *self;
        let name = match &self.cur_token.value {
            TokenValue::Str(s) => s.clone(),
            TokenValue::Identifier(s) => s.clone(),
            got => {
                let got_text = got.to_text();
                return Err(
                    self.report_expected(self.cur_token.start, "Identifier or String", got_text),
                );
            },
        };
        let source = Identifier {
            node: Node::new(self.cur_token.start, self.cur_token.end),
            name,
        };
        self.advance()?;
        proof {
            assert(given(*self));
        }
        let ghost after = *self;
        let as_name = match self.cur_kind() {
            TokenKind::As => {
                self.advance()?;
                proof {
                    assert(given(*self));
                }
                let ghost renamed = *self;
                let id = Identifier {
                    node: Node::new(self.cur_token.start, self.cur_token.end),
                    name: self.cur_token.value.to_text(),
                };
                self.eat(TokenKind::Identifier)?;
                proof {
                    assert(given(*self));
                }
                proof {
                    assert(given(renamed));
                }
                id
            },
            _ => Identifier { node: source.node, name: source.name.clone() },
        };
        let ghost closing = *self;
        self.eat(TokenKind::Semicolon)?;
        proof {
            assert(given(*self));
        }
        proof {
            assert(given3(moved, after, closing));
        }
        Ok(
            Statement::ImportStatement(
                ImportStatement { node: Node::new(start, self.cur_token.end), source, as_name },
            ),
        )
    }

    /// The keyword `keyword`, a name and a body.
    fn named_body(&mut self, keyword: TokenKind) -> (r: Result<(Node, String, Vec<Statement>), Diagnostic>)
        requires
            old(self).wf(),
        ensures
            old(self).moves_on(final(self)),
            r is Err ==> named_body_fails(*old(self), keyword),
            match r {
                Ok(_) => final(self).budget() < old(self).budget(),
                Err(d) => old(self).reports(d),
            },
            r matches Ok(found) ==> named_body_parse(
                *old(self),
                keyword,
                *final(self),
                found.0,
                found.1@,
                found.2@,
            ),
        decreases old(self).budget(), 70nat,
    {
        let start = self.cur_token.start;
        self.eat(keyword)?;
        proof {
            assert(given(*self));
        }
        let ghost moved = *self;
        let id = self.cur_token.value.to_text();
        self.eat(TokenKind::Identifier)?;
        proof {
            assert(given(*self));
        }
        let ghost named = *self;
        let body = self.block_stmt()?;
        proof {
            assert(given2(*self, body@));
        }
        proof {
            assert(given2(moved, named));
        }
        Ok((Node::new(start, self.cur_token.end), id, body))
    }

    fn scope_decl(&mut self) -> (r: Result<Statement, Diagnostic>)
        requires
            old(self).wf(),
            old(self).current().kind == TokenKind::Scope,
        ensures
            old(self).moves_on(final(self)),
            r is Err ==> statement_fails(*old(self)),
            match r {
                Ok(_) => final(self).budget() < old(self).budget(),
                Err(d) => old(self).reports(d),
            },
            r matches Ok(s) ==> statement_parse(*old(self), *final(self), s),
        decreases old(self).budget(), 71nat,
    {
        let (node, id, body) = self.named_body(TokenKind::Scope)?;
        Ok(Statement::ScopeDeclaration(ScopeDeclarator { node, id, body }))
    }

    fn context_decl(&mut self) -> (r: Result<Statement, Diagnostic>)
        requires
            old(self).wf(),
            old(self).current().kind == TokenKind::Context,
        ensures
            old(self).moves_on(final(self)),
            r is Err ==> statement_fails(*old(self)),
            match r {
                Ok(_) => final(self).budget() < old(self).budget(),
                Err(d) => old(self).reports(d),
            },
            r matches Ok(s) ==> statement_parse(*old(self), *final(self), s),
        decreases old(self).budget(), 71nat,
    {
        let (node, id, body) = self.named_body(TokenKind::Context)?;
        Ok(Statement::ContextDeclaration(ContextDeclarator { node, id, body }))
    }

    fn loop_stmt(&mut self) -> (r: Result<Statement, Diagnostic>)
        requires
            old(self).wf(),
            old(self).current().kind == TokenKind::Loop,
        ensures
            old(self).moves_on(final(self)),
            r is Err ==> statement_fails(*old(self)),
            match r {
                Ok(_) => final(self).budget() < old(self).budget(),
                Err(d) => old(self).reports(d),
            },
            r matches Ok(s) ==> statement_parse(*old(self), *final(self), s),
        decreases old(self).budget(), 70nat,
    {
        proof {
            reveal_with_fuel(statement_fails, 2);
        }
        let start = self.cur_token.start;
        self.eat(TokenKind::Loop)?;
        proof {
            assert(given(*self));
        }
        let ghost moved = *self;
        let body = self.block_stmt()?;
        proof {
            assert(given2(*self, body@));
        }
        proof {
            assert(given(moved));
        }
        Ok(
            Statement::LoopStatement(
                LoopStatement { node: Node::new(start, self.cur_token.end), body },
            ),
        )
    }

    /// An expression between round brackets.
    fn bracketed(&mut self) -> (r: Result<Expression, Diagnostic>)
        requires
            old(self).wf(),
        ensures
            old(self).moves_on(final(self)),
            r is Err ==> bracketed_fails(*old(self)),
            match r {
                Ok(_) => final(self).budget() < old(self).budget(),
                Err(d) => old(self).reports(d),
            },
            r matches Ok(e) ==> bracketed_parse(*old(self), *final(self), e),
        decreases old(self).budget(), 10nat,
    {
        let start = self.cur_token.start;
        self.eat(TokenKind::LParen)?;
        proof {
            assert(given(*self));
        }
        let ghost opened = *self;
        let test = self.expr()?;
        proof {
            assert(given2(*self, test));
        }
        let ghost closing = *self;
        self.eat_with_start(TokenKind::RParen, start)?;
        proof {
            assert(given(*self));
        }
        proof {
            assert(given2(opened, closing));
        }
        Ok(test)
    }

    fn while_stmt(&mut self) -> (r: Result<Statement, Diagnostic>)
        requires
            old(self).wf(),
        ensures
            old(self).moves_on(final(self)),
            r is Err ==> while_fails(*old(self)),
            match r {
                Ok(_) => final(self).budget() < old(self).budget(),
                Err(d) => old(self).reports(d),
            },
            r matches Ok(s) ==> while_parse(*old(self), *final(self), s),
        decreases old(self).budget(), 70nat,
    {
        let start = self.cur_token.start;
        self.eat(TokenKind::While)?;
        proof {
            assert(given(*self));
        }
        let ghost moved = *self;
        let test = self.bracketed()?;
        proof {
            assert(given2(*self, test));
        }
        let ghost tested = *self;
        let body = self.block_stmt()?;
        proof {
            assert(given2(*self, body@));
        }
        proof {
            assert(given2(moved, tested));
        }
        Ok(
            Statement::WhileStatement(
                WhileStatement { node: Node::new(start, self.cur_token.end), test, body },
            ),
        )
    }

    #[verifier::rlimit(40)]
    fn for_stmt(&mut self) -> (r: Result<Statement, Diagnostic>)
        requires
            old(self).wf(),
        ensures
            old(self).moves_on(final(self)),
            r is Err ==> for_fails(*old(self)),
            match r {
                Ok(_) => final(self).budget() < old(self).budget(),
                Err(d) => old(self).reports(d),
            },
            r matches Ok(s) ==> for_parse(*old(self), *final(self), s),
        decreases old(self).budget(), 70nat,
    {
        proof {
            reveal_with_fuel(for_fails, 2);
        }
        let start = self.cur_token.start;
        self.eat(TokenKind::For)?;
        proof {
            assert(given(*self));
        }
        let ghost moved = *self;
        self.eat(TokenKind::LParen)?;
        proof {
            assert(given(*self));
        }
        let ghost opened = *self;
        if self.cur_kind() == TokenKind::Eof {
            return Err(self.report_expected(start, "let", "EOF".to_owned()));
        }
        let init = self.var_decl(true)?;
        proof {
            assert(given2(*self, init));
        }
        let ghost declared = *self;
        let test = {
            let start = self.cur_token.start;
            let test = self.expr()?;
            proof {
                assert(given2(*self, test));
            }
            let ghost tested = *self;
            self.eat_with_start(TokenKind::Semicolon, start)?;
            proof {
                assert(given(*self));
            }
            proof {
                assert(given5(moved, opened, declared, tested, *self));
            }
            test
        };
        let update = {
            let start = self.cur_token.start;
            let update = self.expr()?;
            proof {
                assert(given2(*self, update));
            }
            let ghost updated = *self;
            self.eat_with_start(TokenKind::RParen, start)?;
            proof {
                assert(given(*self));
            }
            proof {
                assert(given2(updated, *self));
            }
            update
        };
        let body = self.block_stmt()?;
        proof {
            assert(given2(*self, body@));
        }
        Ok(
            Statement::ForStatement(
                Box::new(
                    ForStatement {
                        node: Node::new(start, self.cur_token.end),
                        init,
                        test,
                        update,
                        body,
                    },
                ),
            ),
        )
    }

    #[verifier::rlimit(40)]
    fn if_stmt(&mut self) -> (r: Result<Statement, Diagnostic>)
        requires
            old(self).wf(),
        ensures
            old(self).moves_on(final(self)),
            r is Err ==> if_fails(*old(self)),
            match r {
                Ok(_) => final(self).budget() < old(self).budget(),
                Err(d) => old(self).reports(d),
            },
            r matches Ok(s) ==> if_parse(*old(self), *final(self), s),
        decreases old(self).budget(), 70nat,
    {
        let start = self.cur_token.start;
        self.eat(TokenKind::If)?;
        proof {
            assert(given(*self));
        }
        let ghost moved = *self;
        let test = self.bracketed()?;
        proof {
            assert(given2(*self, test));
        }
        let ghost tested = *self;
        let consequent = self.block_stmt()?;
        proof {
            assert(given2(*self, consequent@));
        }
        let ghost done = *self;
        let mut alternate: Vec<Statement> = Vec::new();
        if self.cur_kind() == TokenKind::Else {
            self.advance()?;
            proof {
                assert(given(*self));
            }
            let ghost other = *self;
            alternate = self.block_stmt()?;
            proof {
                assert(given(other));
            }
        }
        proof {
            assert(given3(moved, tested, done));
        }
        Ok(
            Statement::IfStatement(
                IfStatement {
                    node: Node::new(start, self.cur_token.end),
                    test,
                    consequent,
                    alternate,
                },
            ),
        )
    }

    /// The argument of a statement that starts with the keyword `kind`, up to its semicolon.
    fn word_stmt(&mut self, kind: TokenKind) -> (r: Result<(Node, Expression), Diagnostic>)
        requires
            old(self).wf(),
            kind != TokenKind::Eof,
        ensures
            old(self).moves_on(final(self)),
            r is Err ==> word_fails(*old(self), kind),
            match r {
                Ok(_) => final(self).budget() < old(self).budget(),
                Err(d) => old(self).reports(d),
            },
            r matches Ok(found) ==> word_parse(*old(self), kind, *final(self), found.0, found.1),
        decreases old(self).budget(), 70nat,
    {
        let start = self.cur_token.start;
        self.eat(kind)?;
        proof {
            assert(given(*self));
        }
        let ghost moved = *self;
        let argument = self.expr()?;
        proof {
            assert(given2(*self, argument));
        }
        let ghost closing = *self;
        self.eat(TokenKind::Semicolon)?;
        proof {
            assert(given(*self));
        }
        proof {
            assert(given2(moved, closing));
        }
        Ok((Node::new(start, self.cur_token.end), argument))
    }

    fn return_stmt(&mut self) -> (r: Result<Statement, Diagnostic>)
        requires
            old(self).wf(),
            old(self).current().kind == TokenKind::Return,
        ensures
            old(self).moves_on(final(self)),
            r is Err ==> statement_fails(*old(self)),
            match r {
                Ok(_) => final(self).budget() < old(self).budget(),
                Err(d) => old(self).reports(d),
            },
            r matches Ok(s) ==> statement_parse(*old(self), *final(self), s),
        decreases old(self).budget(), 71nat,
    {
        let (node, argument) = self.word_stmt(TokenKind::Return)?;
        Ok(Statement::ReturnStatement(ReturnStatement { node, argument }))
    }

    fn yield_stmt(&mut self) -> (r: Result<Statement, Diagnostic>)
        requires
            old(self).wf(),
            old(self).current().kind == TokenKind::Yield,
        ensures
            old(self).moves_on(final(self)),
            r is Err ==> statement_fails(*old(self)),
            match r {
                Ok(_) => final(self).budget() < old(self).budget(),
                Err(d) => old(self).reports(d),
            },
            r matches Ok(s) ==> statement_parse(*old(self), *final(self), s),
        decreases old(self).budget(), 71nat,
    {
        let (node, argument) = self.word_stmt(TokenKind::Yield)?;
        Ok(Statement::YieldStatement(YieldStatement { node, argument }))
    }

    fn throw_stmt(&mut self) -> (r: Result<Statement, Diagnostic>)
        requires
            old(self).wf(),
            old(self).current().kind == TokenKind::Throw,
        ensures
            old(self).moves_on(final(self)),
            r is Err ==> statement_fails(*old(self)),
            match r {
                Ok(_) => final(self).budget() < old(self).budget(),
                Err(d) => old(self).reports(d),
            },
            r matches Ok(s) ==> statement_parse(*old(self), *final(self), s),
        decreases old(self).budget(), 71nat,
    {
        let (node, argument) = self.word_stmt(TokenKind::Throw)?;
        Ok(Statement::ThrowStatement(ThrowStatement { node, argument }))
    }

    fn block_decl(&mut self) -> (r: Result<Statement, Diagnostic>)
        requires
            old(self).wf(),
            old(self).current().kind == TokenKind::Block,
        ensures
            old(self).moves_on(final(self)),
            r is Err ==> statement_fails(*old(self)),
            match r {
                Ok(_) => final(self).budget() < old(self).budget(),
                Err(d) => old(self).reports(d),
            },
            r matches Ok(s) ==> statement_parse(*old(self), *final(self), s),
        decreases old(self).budget(), 70nat,
    {
        proof {
            reveal_with_fuel(statement_fails, 2);
        }
        self.eat(TokenKind::Block)?;
        proof {
            assert(given(*self));
        }
        let ghost moved = *self;
        let body = self.block_stmt()?;
        proof {
            assert(given2(*self, body@));
        }
        proof {
            assert(given(moved));
        }
        Ok(Statement::BlockStatement(body))
    }

    fn continue_stmt(&mut self) -> (r: Result<Statement, Diagnostic>)
        requires
            old(self).wf(),
            old(self).current().kind == TokenKind::Continue,
        ensures
            old(self).moves_on(final(self)),
            r is Err ==> statement_fails(*old(self)),
            match r {
                Ok(_) => final(self).budget() < old(self).budget(),
                Err(d) => old(self).reports(d),
            },
            r matches Ok(s) ==> statement_parse(*old(self), *final(self), s),
    {
        let start = self.cur_token.start;
        self.eat(TokenKind::Continue)?;
        proof {
            assert(given(*self));
        }
        let ghost moved = *self;
        let node = Node::new(start, self.cur_token.end);
        if self.cur_kind() == TokenKind::Semicolon {
            self.advance()?;
            proof {
                assert(given(*self));
            }
        }
        proof {
            assert(given(moved));
        }
        Ok(Statement::ContinueStatement(node))
    }

    fn break_stmt(&mut self) -> (r: Result<Statement, Diagnostic>)
        requires
            old(self).wf(),
            old(self).current().kind == TokenKind::Break,
        ensures
            old(self).moves_on(final(self)),
            r is Err ==> statement_fails(*old(self)),
            match r {
                Ok(_) => final(self).budget() < old(self).budget(),
                Err(d) => old(self).reports(d),
            },
            r matches Ok(s) ==> statement_parse(*old(self), *final(self), s),
    {
        let start = self.cur_token.start;
        self.eat(TokenKind::Break)?;
        proof {
            assert(given(*self));
        }
        let ghost moved = *self;
        let node = Node::new(start, self.cur_token.end);
        if self.cur_kind() == TokenKind::Semicolon {
            self.advance()?;
            proof {
                assert(given(*self));
            }
        }
        proof {
            assert(given(moved));
        }
        Ok(Statement::BreakStatement(node))
    }

    #[verifier::rlimit(40)]
    fn fn_decl(&mut self) -> (r: Result<Statement, Diagnostic>)
        requires
            old(self).wf(),
        ensures
            old(self).moves_on(final(self)),
            r is Err ==> fn_decl_fails(*old(self)),
            match r {
                Ok(_) => final(self).budget() < old(self).budget(),
                Err(d) => old(self).reports(d),
            },
            r matches Ok(s) ==> fn_decl_parse(*old(self), *final(self), s),
        decreases old(self).budget(), 70nat,
    {
        let start = self.cur_token.start;
        let is_async = if self.cur_kind() == TokenKind::Async {
            self.eat(TokenKind::Async)?;
            proof {
                assert(given(*self));
            }
            true
        } else {
            false
        };
        let ghost first = *self;
        proof {
            assert(given(first));
        }
        self.eat(TokenKind::Function)?;
        proof {
            assert(given(*self));
        }
        let ghost moved = *self;
        let id = self.cur_token.value.to_text();
        self.eat(TokenKind::Identifier)?;
        proof {
            assert(given(*self));
        }
        let ghost named = *self;
        let bracket = self.cur_token.start;
        self.eat(TokenKind::LSquare)?;
        proof {
            assert(given(*self));
        }
        let ghost opened = *self;
        let params = self.parse_params()?;
        proof {
            assert(given2(*self, texts_of(params@)));
        }
        let ghost listed = *self;
        self.eat_with_start(TokenKind::RSquare, bracket)?;
        proof {
            assert(given(*self));
        }
        let ghost closed = *self;
        let body = self.block_stmt()?;
        proof {
            assert(given2(*self, body@));
        }
        proof {
            assert(given(closed));
            assert(given5(first, moved, named, opened, listed));
        }
        Ok(
            Statement::FunctionDeclaration(
                Rc::new(
                    FunctionDeclarator {
                        node: Node::new(start, self.cur_token.end),
                        id,
                        params,
                        body,
                        is_async,
                    },
                ),
            ),
        )
    }

    /// The names of the parameters of a function, up to the closing bracket.
    fn parse_params(&mut self) -> (r: Result<Vec<String>, Diagnostic>)
        requires
            old(self).wf(),
        ensures
            old(self).moves_on(final(self)),
            r is Err ==> params_fails(*old(self)),
            match r {
                Ok(names) => params_parse(*old(self), *final(self), texts_of(names@)),
                Err(d) => old(self).reports(d),
            },
    {
        let mut params: Vec<String> = Vec::new();
        if self.cur_kind() == TokenKind::RSquare {
            return Ok(params);
        }
        params.push(self.cur_token.value.to_text());
        self.eat(TokenKind::Identifier)?;
        proof {
            assert(given(*self));
        }
        let ghost first = *self;
        let ghost mut n: nat = 0;
        while self.cur_kind() == TokenKind::Comma
            invariant
                old(self).moves_on(self),
                params@.len() == n + 1,
                texts_of(params@)[0] == old(self).current().value.text(),
                params_rest_parse(first, n, *self, texts_of(params@)),
                old(self).current().kind != TokenKind::RSquare,
                eats(*old(self), TokenKind::Identifier, first),
            decreases self.budget(),
        {
            proof {
                assert(given(first));
                assert(given3(n, *self, texts_of(params@)));
            }
            let ghost mid = *self;
            let ghost so_far = texts_of(params@);
            self.advance()?;
            proof {
                assert(given(*self));
            }
            let ghost moved = *self;
            params.push(self.cur_token.value.to_text());
            self.eat(TokenKind::Identifier)?;
            proof {
                assert(given(*self));
            }
            proof {
                n = n + 1;
                assert(texts_of(params@).drop_last() =~= so_far);
                assert(given2(mid, moved));
            }
        }
        proof {
            assert(given(first));
        }
        Ok(params)
    }

    /// A declaration of a variable, whose keyword the parser looks at.
    #[verifier::rlimit(40)]
    fn var_decl(&mut self, only_with_init: bool) -> (r: Result<Statement, Diagnostic>)
        requires
            old(self).wf(),
            old(self).current().kind != TokenKind::Eof,
        ensures
            old(self).moves_on(final(self)),
            r is Err ==> var_decl_fails(*old(self), only_with_init),
            match r {
                Ok(_) => final(self).budget() < old(self).budget(),
                Err(d) => old(self).reports(d),
            },
            r matches Ok(s) ==> var_decl_parse(*old(self), only_with_init, *final(self), s),
        decreases old(self).budget(), 70nat,
    {
        let start = self.cur_token.start;
        self.advance()?;
        proof {
            assert(given(*self));
        }
        let ghost moved = *self;
        let id = self.cur_token.value.to_text();
        self.eat(TokenKind::Identifier)?;
        proof {
            assert(given(*self));
        }
        let ghost named = *self;
        let mut is_formula = false;
        let init_start = self.cur_token.start;
        let init = match self.cur_kind() {
            TokenKind::Assign => {
                self.advance()?;
                proof {
                    assert(given(*self));
                }
                let ghost started = *self;
                let init = self.expr()?;
                proof {
                    assert(given2(*self, init));
                }
                proof {
                    assert(given(started));
                }
                init
            },
            TokenKind::FormulaAssign => {
                is_formula = true;
                self.advance()?;
                proof {
                    assert(given(*self));
                }
                let ghost started = *self;
                let init = self.expr()?;
                proof {
                    assert(given2(*self, init));
                }
                proof {
                    assert(given(started));
                }
                init
            },
            got => {
                if only_with_init {
                    return Err(
                        self.report_expected(
                            init_start,
                            "Assign or FormulaAssign",
                            got.to_text(),
                        ),
                    );
                }
                Expression::Empty(Node::new(init_start, self.cur_token.end))
            },
        };
        let ghost closing = *self;
        self.eat(TokenKind::Semicolon)?;
        proof {
            assert(given(*self));
        }
        proof {
            assert(given3(moved, named, closing));
        }
        Ok(
            Statement::VariableDeclaration(
                VariableDeclarator {
                    node: Node::new(start, self.cur_token.end),
                    id,
                    init: Rc::new(init),
                    is_formula,
                },
            ),
        )
    }

    /// An assignment to a variable: the keyword, the name, an assignment operator, the new
    /// value and a semicolon.
    #[verifier::rlimit(40)]
    fn assign_statement(&mut self) -> (r: Result<Statement, Diagnostic>)
        requires
            old(self).wf(),
        ensures
            old(self).moves_on(final(self)),
            r is Err ==> assign_fails(*old(self)),
            match r {
                Ok(_) => final(self).budget() < old(self).budget(),
                Err(d) => old(self).reports(d),
            },
            r matches Ok(s) ==> assign_parse(*old(self), *final(self), s),
        decreases old(self).budget(), 70nat,
    {
        let start = self.cur_token.start;
        self.eat(TokenKind::Mut)?;
        proof {
            assert(given(*self));
        }
        let ghost moved = *self;
        let name = self.cur_token.value.to_text();
        self.eat(TokenKind::Identifier)?;
        proof {
            assert(given(*self));
        }
        let ghost named = *self;
        let left = Identifier { node: Node::new(start, self.cur_token.end), name };
        match kind_to_assign_op(self.cur_kind()) {
            Some(operator) => {
                self.advance()?;
                proof {
                    assert(given(*self));
                }
                let ghost started = *self;
                let right = self.expr()?;
                proof {
                    assert(given2(*self, right));
                }
                let ghost closing = *self;
                self.eat(TokenKind::Semicolon)?;
                proof {
                    assert(given(*self));
                }
                proof {
                    assert(given4(moved, named, started, closing));
                }
                Ok(
                    Statement::AssignStatement(
                        AssignStatement {
                            node: Node::new(start, self.cur_token.end),
                            left,
                            right,
                            operator,
                        },
                    ),
                )
            },
            None => Err(
                self.report_expected(
                    start,
                    "= | += | -= | *= | /= | ^= | %=",
                    self.cur_kind().to_text(),
                ),
            ),
        }
    }

    fn expr_stmt(&mut self) -> (r: Result<Statement, Diagnostic>)
        requires
            old(self).wf(),
            !matches_statement_keyword(old(self).current().kind),
        ensures
            old(self).moves_on(final(self)),
            r is Err ==> statement_fails(*old(self)),
            match r {
                Ok(_) => final(self).budget() < old(self).budget(),
                Err(d) => old(self).reports(d),
            },
            r matches Ok(s) ==> statement_parse(*old(self), *final(self), s),
        decreases old(self).budget(), 70nat,
    {
        let expression = self.expr()?;
        proof {
            assert(given2(*self, expression));
        }
        let ghost closing = *self;
        self.eat(TokenKind::Semicolon)?;
        proof {
            assert(given(*self));
        }
        proof {
            assert(given(closing));
        }
        Ok(Statement::ExpressionStatement(expression))
    }

    /// A full expression.
    fn expr(&mut self) -> (r: Result<Expression, Diagnostic>)
        requires
            old(self).wf(),
        ensures
            old(self).moves_on(final(self)),
            r is Err ==> expr_fails(*old(self)),
            match r {
                Ok(_) => final(self).budget() < old(self).budget(),
                Err(d) => old(self).reports(d),
            },
            r matches Ok(e) ==> expr_parse(*old(self), *final(self), e),
        decreases old(self).budget(), 64nat,
    {
        self.comma(false)
    }

    /// Expressions with commas between them: a sequence, or the one expression itself where
    /// there is no comma and a sequence is not asked for.
    #[verifier::rlimit(30)]
    fn comma(&mut self, only_sequence: bool) -> (r: Result<Expression, Diagnostic>)
        requires
            old(self).wf(),
        ensures
            old(self).moves_on(final(self)),
            r is Err ==> comma_fails(*old(self), only_sequence),
            match r {
                Ok(e) => final(self).budget() < old(self).budget() && (only_sequence
                    ==> e is SequenceExpression),
                Err(d) => old(self).reports(d),
            },
            r matches Ok(e) ==> comma_parse(*old(self), only_sequence, *final(self), e),
        decreases old(self).budget(), 63nat,
    {
        let start = self.cur_token.start;
        let first = self.ternary()?;
        proof {
            assert(given2(*self, first));
        }
        let ghost mid = *self;
        let ghost head = first;
        if !only_sequence && self.cur_kind() != TokenKind::Comma {
            proof {
                assert(given2(mid, head));
            }
            return Ok(first);
        }
        let mut nodes: Vec<Expression> = Vec::new();
        nodes.push(first);
        let ghost mut n: nat = 0;
        while self.cur_kind() == TokenKind::Comma
            invariant
                old(self).moves_on(self),
                self.budget() < old(self).budget(),
                mid.budget() < old(self).budget(),
                self.budget() <= mid.budget(),
                nodes@.len() == n + 1,
                nodes@[0] == head,
                comma_items_parse(mid, n, *self, nodes@),
                ternary_parse(*old(self), mid, head),
            decreases self.budget(),
        {
            proof {
                assert(given2(mid, head));
                assert(given3(n, *self, nodes@));
            }
            let ghost before = *self;
            let ghost so_far = nodes@;
            self.advance()?;
            proof {
                assert(given(*self));
            }
            let ghost moved = *self;
            let next = self.ternary()?;
            proof {
                assert(given2(*self, next));
            }
            nodes.push(next);
            proof {
                n = n + 1;
                assert(nodes@.drop_last() == so_far);
                assert(given2(before, moved));
            }
        }
        let ghost items = nodes@;
        let e = self.sequence_expression(start, nodes);
        proof {
            assert(given(items));
            assert(given2(mid, head));
        }
        Ok(e)
    }

    /// A conditional expression, or what stands where its test would.
    #[verifier::rlimit(30)]
    fn ternary(&mut self) -> (r: Result<Expression, Diagnostic>)
        requires
            old(self).wf(),
        ensures
            old(self).moves_on(final(self)),
            r is Err ==> ternary_fails(*old(self)),
            match r {
                Ok(_) => final(self).budget() < old(self).budget(),
                Err(d) => old(self).reports(d),
            },
            r matches Ok(e) ==> ternary_parse(*old(self), *final(self), e),
        decreases old(self).budget(), 62nat,
    {
        let start = self.cur_token.start;
        let mut node = self.range()?;
        proof {
            assert(given2(*self, node));
        }
        let ghost mid = *self;
        let ghost first = node;
        let ghost mut n: nat = 0;
        while self.cur_kind() == TokenKind::Question
            invariant
                old(self).moves_on(self),
                self.budget() < old(self).budget(),
                mid.budget() < old(self).budget(),
                self.budget() <= mid.budget(),
                ternary_rounds_parse(mid, start, first, n, *self, node),
                binary_parse(*old(self), 10, mid, first),
                start == old(self).current().start,
            decreases self.budget(),
        {
            proof {
                assert(given2(mid, first));
                assert(given3(n, *self, node));
            }
            let ghost before = *self;
            let ghost test = node;
            self.advance()?;
            proof {
                assert(given(*self));
            }
            let ghost asked = *self;
            let consequent = self.range()?;
            proof {
                assert(given2(*self, consequent));
            }
            let ghost answered = *self;
            self.eat(TokenKind::Colon)?;
            proof {
                assert(given(*self));
            }
            let ghost chosen = *self;
            let alternate = self.expr()?;
            proof {
                assert(given2(*self, alternate));
            }
            let ghost consequent_seen = consequent;
            let ghost alternate_seen = alternate;
            node = self.conditional_expression(start, node, consequent, alternate);
            proof {
                n = n + 1;
                assert(given3(consequent_seen, chosen, alternate_seen));
                assert(given4(before, test, asked, answered));
            }
        }
        proof {
            assert(given3(mid, first, n));
        }
        Ok(node)
    }

    fn range(&mut self) -> (r: Result<Expression, Diagnostic>)
        requires
            old(self).wf(),
        ensures
            old(self).moves_on(final(self)),
            r is Err ==> binary_fails(*old(self), 10),
            match r {
                Ok(_) => final(self).budget() < old(self).budget(),
                Err(d) => old(self).reports(d),
            },
            r matches Ok(e) ==> binary_parse(*old(self), 10, *final(self), e),
        decreases old(self).budget(), 61nat,
    {
        self.binary_left_associative(10)
    }

    /// An operand of the operators of the level `level`.
    fn operand(&mut self, level: usize) -> (r: Result<Expression, Diagnostic>)
        requires
            old(self).wf(),
            level <= 10,
            level != 1,
        ensures
            old(self).moves_on(final(self)),
            r is Err ==> operand_fails(*old(self), level as nat),
            match r {
                Ok(_) => final(self).budget() < old(self).budget(),
                Err(d) => old(self).reports(d),
            },
            r matches Ok(e) ==> operand_parse(*old(self), level as nat, *final(self), e),
        decreases old(self).budget(), 30nat + 3 * level - 1,
    {
        if level == 0 {
            self.factor()
        } else {
            self.binary_left_associative(level - 1)
        }
    }

    /// Operands with operators of one level between them, grouped from the left. The levels,
    /// from the one that binds strongest: power, product, sum, shift, bitwise and, bitwise
    /// exclusive or, bitwise or, comparison, logical and, logical or, range.
    #[verifier::rlimit(30)]
    fn binary_left_associative(&mut self, level: usize) -> (r: Result<Expression, Diagnostic>)
        requires
            old(self).wf(),
            level <= 10,
        ensures
            old(self).moves_on(final(self)),
            r is Err ==> binary_fails(*old(self), level as nat),
            match r {
                Ok(_) => final(self).budget() < old(self).budget(),
                Err(d) => old(self).reports(d),
            },
            r matches Ok(e) ==> binary_parse(*old(self), level as nat, *final(self), e),
        decreases old(self).budget(), 30nat + 3 * level,
    {
        if level == 1 {
            return self.term();
        }
        let start = self.cur_token.start;
        let mut node = self.operand(level)?;
        proof {
            assert(given2(*self, node));
        }
        let ghost mid = *self;
        let ghost first = node;
        let ghost mut n: nat = 0;
        loop
            invariant
                old(self).moves_on(self),
                self.budget() < old(self).budget(),
                mid.budget() < old(self).budget(),
                self.budget() <= mid.budget(),
                level <= 10,
                level != 1,
                start == old(self).current().start,
                operand_parse(*old(self), level as nat, mid, first),
                binary_rounds_parse(mid, level as nat, start, first, n, *self, node),
            decreases self.budget(),
        {
            proof {
                assert(given2(mid, first));
                assert(given3(n, *self, node));
            }
            match kind_to_bin_op(level, self.cur_kind()) {
                Some(operator) => {
                    let ghost before = *self;
                    let ghost left = node;
                    self.advance()?;
                    proof {
                        assert(given(*self));
                    }
                    let ghost moved = *self;
                    let right = self.operand(level)?;
                    proof {
                        assert(given2(*self, right));
                    }
                    let ghost right_seen = right;
                    node = self.binary_expression(start, node, right, operator);
                    proof {
                        n = n + 1;
                        assert(given4(before, left, moved, right_seen));
                    }
                },
                None => {
                    proof {
                        assert(given3(mid, first, n));
                    }
                    return Ok(node);
                },
            }
        }
    }

    /// Products: factors that stand side by side are multiplied, and so are factors with a
    /// product operator between them.
    #[verifier::rlimit(40)]
    fn term(&mut self) -> (r: Result<Expression, Diagnostic>)
        requires
            old(self).wf(),
        ensures
            old(self).moves_on(final(self)),
            r is Err ==> term_fails(*old(self)),
            match r {
                Ok(_) => final(self).budget() < old(self).budget(),
                Err(d) => old(self).reports(d),
            },
            r matches Ok(e) ==> term_parse(*old(self), *final(self), e),
        decreases old(self).budget(), 32nat,
    {
        let start = self.cur_token.start;
        let mut expr = self.power()?;
        proof {
            assert(given2(*self, expr));
        }
        let ghost mid = *self;
        let ghost first = expr;
        let ghost mut n: nat = 0;
        while self.cur_kind() == TokenKind::Identifier || self.cur_kind() == TokenKind::LParen
            || self.cur_kind() == TokenKind::Number
            invariant
                old(self).moves_on(self),
                self.budget() < old(self).budget(),
                mid.budget() < old(self).budget(),
                self.budget() <= mid.budget(),
                beside_rounds_parse(mid, start, first, n, *self, expr),
                binary_parse(*old(self), 0, mid, first),
                start == old(self).current().start,
            decreases self.budget(),
        {
            proof {
                assert(given2(mid, first));
                assert(given3(n, *self, expr));
            }
            let ghost before = *self;
            let ghost left = expr;
            let right = self.power()?;
            proof {
                assert(given2(*self, right));
            }
            let ghost right_seen = right;
            expr = self.binary_expression(start, expr, right, BinaryOperator::Multiply);
            proof {
                n = n + 1;
                assert(given3(before, left, right_seen));
            }
        }
        let ghost beside = *self;
        let ghost product = expr;
        let ghost mut m: nat = 0;
        loop
            invariant
                old(self).moves_on(self),
                self.budget() < old(self).budget(),
                beside.budget() < old(self).budget(),
                self.budget() <= beside.budget(),
                mid.budget() < old(self).budget(),
                start == old(self).current().start,
                binary_parse(*old(self), 0, mid, first),
                beside_rounds_parse(mid, start, first, n, beside, product),
                !crate::grammar::starts_factor(beside.current().kind),
                product_rounds_parse(beside, start, product, m, *self, expr),
            decreases self.budget(),
        {
            proof {
                assert(given2(mid, first));
                assert(given3(n, beside, product));
                assert(given3(m, *self, expr));
            }
            match kind_to_bin_op(1, self.cur_kind()) {
                Some(operator) => {
                    let ghost before = *self;
                    let ghost left = expr;
                    self.advance()?;
                    proof {
                        assert(given(*self));
                    }
                    let ghost moved = *self;
                    let right = self.power()?;
                    proof {
                        assert(given2(*self, right));
                    }
                    let ghost right_seen = right;
                    expr = self.binary_expression(start, expr, right, operator);
                    proof {
                        m = m + 1;
                        assert(given4(before, left, moved, right_seen));
                    }
                },
                None => {
                    proof {
                        assert(given(m));
                        assert(given5(mid, first, n, beside, product));
                    }
                    return Ok(expr);
                },
            }
        }
    }

    fn power(&mut self) -> (r: Result<Expression, Diagnostic>)
        requires
            old(self).wf(),
        ensures
            old(self).moves_on(final(self)),
            r is Err ==> binary_fails(*old(self), 0),
            match r {
                Ok(_) => final(self).budget() < old(self).budget(),
                Err(d) => old(self).reports(d),
            },
            r matches Ok(e) ==> binary_parse(*old(self), 0, *final(self), e),
        decreases old(self).budget(), 31nat,
    {
        self.binary_left_associative(0)
    }

    /// A literal, an expression between round brackets, a sequence between square brackets, a
    /// unary operator with its operand, or a path of names and calls.
    #[verifier::rlimit(30)]
    fn factor(&mut self) -> (r: Result<Expression, Diagnostic>)
        requires
            old(self).wf(),
        ensures
            old(self).moves_on(final(self)),
            r is Err ==> factor_fails(*old(self)),
            match r {
                Ok(_) => final(self).budget() < old(self).budget(),
                Err(d) => old(self).reports(d),
            },
            r matches Ok(e) ==> factor_parse(*old(self), *final(self), e),
        decreases old(self).budget(), 23nat,
    {
        proof {
            reveal_with_fuel(factor_fails, 2);
        }
        let token = self.cur_token.duplicate();
        match token.kind {
            TokenKind::Number | TokenKind::Str => {
                self.advance()?;
                proof {
                    assert(given(*self));
                }
                Ok(
                    Expression::Literal(
                        Literal { node: Node::new(token.start, token.end), value: token.value },
                    ),
                )
            },
            TokenKind::True => {
                self.advance()?;
                proof {
                    assert(given(*self));
                }
                Ok(
                    Expression::Literal(
                        Literal {
                            node: Node::new(token.start, token.end),
                            value: TokenValue::Bool(true),
                        },
                    ),
                )
            },
            TokenKind::False => {
                self.advance()?;
                proof {
                    assert(given(*self));
                }
                Ok(
                    Expression::Literal(
                        Literal {
                            node: Node::new(token.start, token.end),
                            value: TokenValue::Bool(false),
                        },
                    ),
                )
            },
            TokenKind::NoneLiteral => {
                self.advance()?;
                proof {
                    assert(given(*self));
                }
                Ok(Expression::Empty(Node::new(token.start, token.end)))
            },
            TokenKind::LParen => {
                self.advance()?;
                proof {
                    assert(given(*self));
                }
                let ghost opened = *self;
                let node = self.expr()?;
                proof {
                    assert(given2(*self, node));
                }
                let ghost closing = *self;
                self.eat_with_start(TokenKind::RParen, token.start)?;
                proof {
                    assert(given(*self));
                }
                proof {
                    assert(given2(opened, closing));
                }
                Ok(node)
            },
            TokenKind::LSquare => self.read_seq_expr(token.start),
            _ => {
                match kind_to_un_op(token.kind) {
                    Some(operator) => {
                        self.advance()?;
                        proof {
                            assert(given(*self));
                        }
                        let ghost moved = *self;
                        let right = self.factor()?;
                        proof {
                            assert(given2(*self, right));
                        }
                        let ghost right_seen = right;
                        let e = self.unary_expression(token.start, operator, right);
                        proof {
                            assert(given2(moved, right_seen));
                        }
                        Ok(e)
                    },
                    None => self.await_expr(),
                }
            },
        }
    }

    /// A sequence between square brackets, whose opening bracket the parser looks at.
    fn read_seq_expr(&mut self, start: usize) -> (r: Result<Expression, Diagnostic>)
        requires
            old(self).wf(),
            old(self).current().kind == TokenKind::LSquare,
            start == old(self).current().start,
        ensures
            old(self).moves_on(final(self)),
            r is Err ==> seq_expr_fails(*old(self)),
            match r {
                Ok(_) => final(self).budget() < old(self).budget(),
                Err(d) => old(self).reports(d),
            },
            r matches Ok(e) ==> seq_expr_parse(*old(self), *final(self), e),
        decreases old(self).budget(), 22nat,
    {
        self.advance()?;
        proof {
            assert(given(*self));
        }
        let ghost opened = *self;
        if self.cur_kind() == TokenKind::RSquare {
            self.advance()?;
            proof {
                assert(given(*self));
            }
            let empty: Vec<Expression> = Vec::new();
            let e = self.sequence_expression(start, empty);
            proof {
                assert(given(opened));
            }
            return Ok(e);
        }
        let node = self.comma(true)?;
        proof {
            assert(given2(*self, node));
        }
        let ghost closing = *self;
        let ghost inner = node;
        self.eat_with_start(TokenKind::RSquare, start)?;
        proof {
            assert(given(*self));
        }
        let e = match node {
            Expression::SequenceExpression(seq_exp) => {
                let inner = *seq_exp;
                self.sequence_expression(start, inner.expressions)
            },
            other => {
                let mut one: Vec<Expression> = Vec::new();
                one.push(other);
                self.sequence_expression(start, one)
            },
        };
        proof {
            assert(given2(closing, inner));
            assert(given(opened));
        }
        Ok(e)
    }

    /// `await` in front of an expression, any number of times.
    fn await_expr(&mut self) -> (r: Result<Expression, Diagnostic>)
        requires
            old(self).wf(),
        ensures
            old(self).moves_on(final(self)),
            r is Err ==> await_fails(*old(self)),
            match r {
                Ok(_) => final(self).budget() < old(self).budget(),
                Err(d) => old(self).reports(d),
            },
            r matches Ok(e) ==> await_parse(*old(self), *final(self), e),
        decreases old(self).budget(), 22nat,
    {
        let start = self.cur_token.start;
        if self.cur_kind() == TokenKind::Await {
            self.advance()?;
            proof {
                assert(given(*self));
            }
            let ghost moved = *self;
            let argument = self.await_expr()?;
            proof {
                assert(given2(*self, argument));
            }
            let ghost argument_seen = argument;
            let e = self.word_expression(start, WordOperator::Await, argument);
            proof {
                assert(given2(moved, argument_seen));
            }
            Ok(e)
        } else {
            self.delete_expr()
        }
    }

    /// `delete` in front of an expression, any number of times.
    fn delete_expr(&mut self) -> (r: Result<Expression, Diagnostic>)
        requires
            old(self).wf(),
        ensures
            old(self).moves_on(final(self)),
            r is Err ==> delete_fails(*old(self)),
            match r {
                Ok(_) => final(self).budget() < old(self).budget(),
                Err(d) => old(self).reports(d),
            },
            r matches Ok(e) ==> delete_parse(*old(self), *final(self), e),
        decreases old(self).budget(), 21nat,
    {
        let start = self.cur_token.start;
        if self.cur_kind() == TokenKind::Delete {
            self.advance()?;
            proof {
                assert(given(*self));
            }
            let ghost moved = *self;
            let argument = self.delete_expr()?;
            proof {
                assert(given2(*self, argument));
            }
            let ghost argument_seen = argument;
            let e = self.word_expression(start, WordOperator::Delete, argument);
            proof {
                assert(given2(moved, argument_seen));
            }
            Ok(e)
        } else {
            self.dot()
        }
    }

    /// A path: names, calls and bracketed expressions with dots between them, grouped from
    /// the left.
    #[verifier::rlimit(30)]
    fn dot(&mut self) -> (r: Result<Expression, Diagnostic>)
        requires
            old(self).wf(),
        ensures
            old(self).moves_on(final(self)),
            r is Err ==> dot_fails(*old(self)),
            match r {
                Ok(_) => final(self).budget() < old(self).budget(),
                Err(d) => old(self).reports(d),
            },
            r matches Ok(e) ==> dot_parse(*old(self), *final(self), e),
        decreases old(self).budget(), 20nat,
    {
        let start = self.cur_token.start;
        let (first, bracketed) = self.call()?;
        proof {
            assert(given3(*self, first, bracketed));
        }
        let ghost mid = *self;
        let ghost head = first;
        let mut node = first;
        let ghost mut n: nat = 0;
        while self.cur_kind() == TokenKind::Dot
            invariant
                old(self).moves_on(self),
                self.budget() < old(self).budget(),
                mid.budget() < old(self).budget(),
                self.budget() <= mid.budget(),
                dot_rounds_parse(mid, start, head, n, *self, node),
                call_parse(*old(self), mid, head, bracketed),
                start == old(self).current().start,
            decreases self.budget(),
        {
            proof {
                assert(given3(mid, head, bracketed));
                assert(given3(n, *self, node));
            }
            let ghost before = *self;
            let ghost object = node;
            self.advance()?;
            proof {
                assert(given(*self));
            }
            let ghost moved = *self;
            let (right, is_expr) = self.call()?;
            proof {
                assert(given3(*self, right, is_expr));
            }
            let ghost property = right;
            node = self.member_expression(start, node, right, is_expr);
            proof {
                n = n + 1;
                assert(given(is_expr));
                assert(given4(before, object, moved, property));
            }
        }
        proof {
            assert(given4(mid, head, bracketed, n));
        }
        Ok(node)
    }

    /// A name, a call of a name with its arguments between square brackets, or an expression
    /// between square brackets; the flag tells the last from the others.
    #[verifier::rlimit(40)]
    fn call(&mut self) -> (r: Result<(Expression, bool), Diagnostic>)
        requires
            old(self).wf(),
        ensures
            old(self).moves_on(final(self)),
            r is Err ==> call_fails(*old(self)),
            match r {
                Ok(_) => final(self).budget() < old(self).budget(),
                Err(d) => old(self).reports(d),
            },
            r matches Ok(found) ==> call_parse(*old(self), *final(self), found.0, found.1),
        decreases old(self).budget(), 19nat,
    {
        proof {
            reveal_with_fuel(call_fails, 2);
        }
        let token = self.cur_token.duplicate();
        match token.kind {
            TokenKind::Identifier => {
                self.advance()?;
                proof {
                    assert(given(*self));
                }
                let ghost named = *self;
                let name = token.value.to_text();
                if self.cur_kind() != TokenKind::LSquare {
                    proof {
                        assert(given(named));
                    }
                    return Ok(
                        (
                            Expression::Identifier(
                                Identifier { node: Node::new(token.start, token.end), name },
                            ),
                            false,
                        ),
                    );
                }
                let sequence_start = self.cur_token.start;
                self.advance()?;
                proof {
                    assert(given(*self));
                }
                let ghost opened = *self;
                if self.cur_kind() == TokenKind::RSquare {
                    self.advance()?;
                    proof {
                        assert(given(*self));
                    }
                    let empty: Vec<Expression> = Vec::new();
                    let arguments = self.sequence_expression(sequence_start, empty);
                    let ghost arguments_seen = arguments;
                    let e = self.call_expression(sequence_start, name, arguments);
                    proof {
                        assert(given(arguments_seen));
                        assert(given(opened));
                        assert(given(named));
                    }
                    return Ok((e, false));
                }
                let node = self.expr()?;
                proof {
                    assert(given2(*self, node));
                }
                let ghost closing = *self;
                let ghost inner = node;
                self.eat_with_start(TokenKind::RSquare, token.start)?;
                proof {
                    assert(given(*self));
                }
                let arguments = match node {
                    Expression::SequenceExpression(seq_exp) => {
                        let inner = *seq_exp;
                        self.sequence_expression(sequence_start, inner.expressions)
                    },
                    other => {
                        let mut one: Vec<Expression> = Vec::new();
                        one.push(other);
                        self.sequence_expression(sequence_start, one)
                    },
                };
                let ghost arguments_seen = arguments;
                let e = self.call_expression(token.start, name, arguments);
                proof {
                    assert(given3(closing, inner, arguments_seen));
                    assert(given(opened));
                    assert(given(named));
                }
                Ok((e, false))
            },
            TokenKind::LSquare => {
                self.advance()?;
                proof {
                    assert(given(*self));
                }
                let ghost opened = *self;
                let node = self.expr()?;
                proof {
                    assert(given2(*self, node));
                }
                let ghost closing = *self;
                self.eat_with_start(TokenKind::RSquare, token.start)?;
                proof {
                    assert(given(*self));
                }
                proof {
                    assert(given2(opened, closing));
                }
                Ok((node, true))
            },
            got => Err(self.report_expected(token.start, "Identifier or [", got.to_text())),
        }
    }

    fn call_expression(&self, start: usize, callee: String, arguments: Expression) -> (e:
        Expression)
        ensures
            e == Expression::CallExpression(
                Box::new(
                    CallExpression {
                        node: Node { start, end: self.current().end },
                        callee,
                        arguments,
                    },
                ),
            ),
    {
        Expression::CallExpression(
            Box::new(
                CallExpression { node: Node::new(start, self.cur_token.end), callee, arguments },
            ),
        )
    }

    fn member_expression(
        &self,
        start: usize,
        object: Expression,
        property: Expression,
        is_expr: bool,
    ) -> (e: Expression)
        ensures
            e == Expression::MemberExpression(
                Box::new(
                    MemberExpression {
                        node: Node { start, end: self.current().end },
                        object,
                        property,
                        is_expr,
                    },
                ),
            ),
    {
        Expression::MemberExpression(
            Box::new(
                MemberExpression {
                    node: Node::new(start, self.cur_token.end),
                    object,
                    property,
                    is_expr,
                },
            ),
        )
    }

    fn sequence_expression(&self, start: usize, expressions: Vec<Expression>) -> (e: Expression)
        ensures
            e == Expression::SequenceExpression(
                Box::new(
                    SequenceExpression {
                        node: Node { start, end: self.current().end },
                        expressions,
                    },
                ),
            ),
    {
        Expression::SequenceExpression(
            Box::new(
                SequenceExpression { node: Node::new(start, self.cur_token.end), expressions },
            ),
        )
    }

    fn conditional_expression(
        &self,
        start: usize,
        test: Expression,
        consequent: Expression,
        alternate: Expression,
    ) -> (e: Expression)
        ensures
            e == Expression::ConditionalExpression(
                Box::new(
                    ConditionalExpression {
                        node: Node { start, end: self.current().end },
                        test,
                        consequent,
                        alternate,
                    },
                ),
            ),
    {
        Expression::ConditionalExpression(
            Box::new(
                ConditionalExpression {
                    node: Node::new(start, self.cur_token.end),
                    test,
                    consequent,
                    alternate,
                },
            ),
        )
    }

    fn binary_expression(
        &self,
        start: usize,
        left: Expression,
        right: Expression,
        operator: BinaryOperator,
    ) -> (e: Expression)
        ensures
            e == Expression::BinaryExpression(
                Box::new(
                    BinaryExpression {
                        node: Node { start, end: self.current().end },
                        left,
                        operator,
                        right,
                    },
                ),
            ),
    {
        Expression::BinaryExpression(
            Box::new(
                BinaryExpression {
                    node: Node::new(start, self.cur_token.end),
                    left,
                    operator,
                    right,
                },
            ),
        )
    }

    fn unary_expression(&self, start: usize, operator: UnaryOperator, right: Expression) -> (e:
        Expression)
        ensures
            e == Expression::UnaryExpression(
                Box::new(
                    UnaryExpression {
                        node: Node { start, end: self.current().end },
                        operator,
                        right,
                    },
                ),
            ),
    {
        Expression::UnaryExpression(
            Box::new(
                UnaryExpression { node: Node::new(start, self.cur_token.end), operator, right },
            ),
        )
    }

    fn word_expression(&self, start: usize, operator: WordOperator, argument: Expression) -> (e:
        Expression)
        ensures
            e == Expression::WordExpression(
                Box::new(
                    WordExpression {
                        node: Node { start, end: self.current().end },
                        argument,
                        operator,
                    },
                ),
            ),
    {
        Expression::WordExpression(
            Box::new(
                WordExpression { node: Node::new(start, self.cur_token.end), argument, operator },
            ),
        )
    }

    /// Moves past the current token if it is of kind `kind`; it is an error if it is not.
    fn eat(&mut self, kind: TokenKind) -> (r: Result<(), Diagnostic>)
        requires
            old(self).wf(),
        ensures
            old(self).moves_on(final(self)),
            r is Err ==> eat_fails(*old(self), kind),
            match r {
                Ok(()) => old(self).current().kind == kind && (kind != TokenKind::Eof ==> final(self).budget() < old(self).budget()),
                Err(d) => old(self).reports(d),
            },
            r is Ok ==> eats(*old(self), kind, *final(self)),
    {
        self.eat_with_start(kind, self.cur_token.start)
    }

    /// Moves past the current token if it is of kind `kind`; if it is not, the error speaks
    /// of the source from `start` on.
    fn eat_with_start(&mut self, kind: TokenKind, start: usize) -> (r: Result<(), Diagnostic>)
        requires
            old(self).wf(),
        ensures
            old(self).moves_on(final(self)),
            r is Err ==> eat_fails(*old(self), kind),
            match r {
                Ok(()) => old(self).current().kind == kind && (kind != TokenKind::Eof ==> final(self).budget() < old(self).budget()),
                Err(d) => old(self).reports(d),
            },
            r is Ok ==> eats(*old(self), kind, *final(self)),
    {
        if self.at(kind) {
            return self.advance();
        }
        let mut got = self.cur_kind().to_text();
        got.append(" ");
        got.append(self.cur_token.value.to_text().as_str());
        Err(self.report_expected(start, kind.as_str(), got))
    }

    /// The error that `expected` was looked for at the current token and `got` was found,
    /// which speaks of the source from `start` to the end of that token.
    fn report_expected(&self, start: usize, expected: &str, got: String) -> (d: Diagnostic)
        ensures
            self.reports(d),
            d.message@ == "Expected "@ + expected@ + " but got "@ + got@,
            d.start == start,
            d.end == self.current().end,
    {
        let mut message = "Expected ".to_owned();
        message.append(expected);
        message.append(" but got ");
        message.append(got.as_str());
        Diagnostic::new(self.path, self.source, message, start, self.cur_token.end)
    }

    /// Moves to the next token.
    fn advance(&mut self) -> (r: Result<(), Diagnostic>)
        requires
            old(self).wf(),
        ensures
            old(self).moves_on(final(self)),
            r is Err ==> step_fails(*old(self)),
            match r {
                Ok(()) => old(self).current().kind != TokenKind::Eof ==> final(self).budget()
                    < old(self).budget(),
                Err(d) => old(self).reports(d),
            },
            r is Ok ==> steps(*old(self), *final(self)),
    {
        self.prev_token_end = self.cur_token.end;
        match self.lexer.next_token() {
            Ok(token) => {
                self.cur_token = token;
                Ok(())
            },
            Err(d) => {
                // the place of the error becomes the current token, so that the parser stays
                // behind the lexer
                self.cur_token = Token {
                    kind: TokenKind::Unexpected,
                    start: d.start,
                    end: d.end,
                    value: TokenValue::Absent,
                };
                Err(d)
            },
        }
    }

    fn cur_kind(&self) -> (kind: TokenKind)
        ensures
            kind == self.current().kind,
    {
        self.cur_token.kind
    }

    /// Whether the current token is of kind `kind`.
    fn at(&self, kind: TokenKind) -> (b: bool)
        ensures
            b == (self.current().kind == kind),
    {
        self.cur_token.kind == kind
    }
}

/// Parses the text `source`, which was read from `path`.
pub fn parse_source(path: &str, source: &str) -> (r: Result<Ast, Diagnostic>)
    ensures
        match r {
            Ok(ast) => crate::grammar::parses_to(source@, ast),
            Err(d) => d.path@ == path@ && d.source@ == source@ && parse_fails(source@),
        },
{
    let mut parser = Parser::new(path, source);
    let ghost pre = parser;
    let r = parser.parse();
    proof {
        assert(given2(pre, parser));
        assert(given(pre));
    }
    r
}

} // verus!
