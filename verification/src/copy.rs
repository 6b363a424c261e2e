use vstd::prelude::*;
use crate::ast::{
    AssignStatement, Ast, BinaryExpression, CallExpression, ConditionalExpression,
    ContextDeclarator, Expression, ForStatement, Identifier, IfStatement, ImportStatement,
    Literal, LoopStatement, MemberExpression, Program, ReturnStatement, ScopeDeclarator,
    SequenceExpression, Statement, ThrowStatement, TryStatement, UnaryExpression,
    WhileStatement, WordExpression, YieldStatement,
};
use crate::render::{block_text, expression_text, expressions_text, statement_text};
use crate::value::share;

verus! {

impl Identifier {
    /// A copy of the identifier.
    pub fn duplicate(&self) -> (r: Identifier)
        ensures
            r == *self,
    {
        Identifier { node: self.node, name: self.name.clone() }
    }
}

impl Literal {
    /// A copy of the literal.
    pub fn duplicate(&self) -> (r: Literal)
        ensures
            r == *self,
    {
        Literal { node: self.node, value: self.value.duplicate() }
    }
}

impl Expression {
    /// A copy of the expression: a tree of its own that is written as this one is.
    pub fn duplicate(&self) -> (r: Expression)
        ensures
            expression_text(r) == expression_text(*self),
            r is Literal <==> self is Literal,
            self is Literal ==> r == *self,
            self is Identifier ==> r == *self,
            self is Empty ==> r == *self,
            r is BinaryExpression <==> self is BinaryExpression,
        decreases self,
    {
        match self {
            Expression::BinaryExpression(b) => Expression::BinaryExpression(
                Box::new(
                    BinaryExpression {
                        node: b.node,
                        left: b.left.duplicate(),
                        operator: b.operator,
                        right: b.right.duplicate(),
                    },
                ),
            ),
            Expression::UnaryExpression(u) => Expression::UnaryExpression(
                Box::new(
                    UnaryExpression {
                        node: u.node,
                        operator: u.operator,
                        right: u.right.duplicate(),
                    },
                ),
            ),
            Expression::ConditionalExpression(c) => Expression::ConditionalExpression(
                Box::new(
                    ConditionalExpression {
                        node: c.node,
                        test: c.test.duplicate(),
                        consequent: c.consequent.duplicate(),
                        alternate: c.alternate.duplicate(),
                    },
                ),
            ),
            Expression::CallExpression(c) => Expression::CallExpression(
                Box::new(
                    CallExpression {
                        node: c.node,
                        callee: c.callee.clone(),
                        arguments: c.arguments.duplicate(),
                    },
                ),
            ),
            Expression::MemberExpression(m) => Expression::MemberExpression(
                Box::new(
                    MemberExpression {
                        node: m.node,
                        object: m.object.duplicate(),
                        property: m.property.duplicate(),
                        is_expr: m.is_expr,
                    },
                ),
            ),
            Expression::SequenceExpression(s) => Expression::SequenceExpression(
                Box::new(
                    SequenceExpression {
                        node: s.node,
                        expressions: Expression::duplicate_all(&s.expressions),
                    },
                ),
            ),
            Expression::WordExpression(w) => Expression::WordExpression(
                Box::new(
                    WordExpression {
                        node: w.node,
                        argument: w.argument.duplicate(),
                        operator: w.operator,
                    },
                ),
            ),
            Expression::Literal(l) => Expression::Literal(l.duplicate()),
            Expression::Identifier(i) => Expression::Identifier(i.duplicate()),
            Expression::Empty(node) => Expression::Empty(*node),
        }
    }

    /// A copy of each of the expressions, in order.
    pub fn duplicate_all(items: &Vec<Expression>) -> (r: Vec<Expression>)
        ensures
            r@.len() == items@.len(),
            expressions_text(r@) == expressions_text(items@),
            forall|i: int|
                0 <= i < items@.len() ==> expression_text(#[trigger] r@[i]) == expression_text(
                    items@[i],
                ),
        decreases items,
    {
        let mut copy: Vec<Expression> = Vec::new();
        let mut i: usize = 0;
        while i < items.len()
            invariant
                i <= items@.len(),
                copy@.len() == i,
                expressions_text(copy@) == expressions_text(items@.take(i as int)),
                forall|j: int|
                    0 <= j < i ==> expression_text(#[trigger] copy@[j]) == expression_text(
                        items@[j],
                    ),
            decreases items@.len() - i,
        {
            assert(decreases_to!(*items => items[i as int]));
            let ghost before = copy@;
            copy.push(items[i].duplicate());
            i += 1;
            proof {
                assert(copy@.drop_last() == before);
                assert(items@.take(i as int).drop_last() == items@.take(i as int - 1));
                assert(items@.take(i as int).last() == items@[i as int - 1]);
            }
        }
        proof {
            assert(items@.take(items@.len() as int) == items@);
        }
        copy
    }
}

impl Statement {
    /// A copy of the statement: a tree of its own that is written as this one is. The
    /// declaration of a function and the initialiser of a variable are shared.
    pub fn duplicate(&self) -> (r: Statement)
        ensures
            statement_text(r) == statement_text(*self),
            r is ExpressionStatement <==> self is ExpressionStatement,
        decreases self,
    {
        match self {
            Statement::ExpressionStatement(e) => Statement::ExpressionStatement(e.duplicate()),
            Statement::ReturnStatement(s) => Statement::ReturnStatement(
                ReturnStatement { node: s.node, argument: s.argument.duplicate() },
            ),
            Statement::ThrowStatement(s) => Statement::ThrowStatement(
                ThrowStatement { node: s.node, argument: s.argument.duplicate() },
            ),
            Statement::ContinueStatement(node) => Statement::ContinueStatement(*node),
            Statement::BreakStatement(node) => Statement::BreakStatement(*node),
            Statement::YieldStatement(s) => Statement::YieldStatement(
                YieldStatement { node: s.node, argument: s.argument.duplicate() },
            ),
            Statement::VariableDeclaration(d) => Statement::VariableDeclaration(
                crate::ast::VariableDeclarator {
                    node: d.node,
                    id: d.id.clone(),
                    init: share(&d.init),
                    is_formula: d.is_formula,
                },
            ),
            Statement::FunctionDeclaration(f) => Statement::FunctionDeclaration(share(f)),
            Statement::ScopeDeclaration(d) => Statement::ScopeDeclaration(
                ScopeDeclarator {
                    node: d.node,
                    id: d.id.clone(),
                    body: Statement::duplicate_all(&d.body),
                },
            ),
            Statement::ContextDeclaration(d) => Statement::ContextDeclaration(
                ContextDeclarator {
                    node: d.node,
                    id: d.id.clone(),
                    body: Statement::duplicate_all(&d.body),
                },
            ),
            Statement::IfStatement(s) => Statement::IfStatement(
                IfStatement {
                    node: s.node,
                    test: s.test.duplicate(),
                    consequent: Statement::duplicate_all(&s.consequent),
                    alternate: Statement::duplicate_all(&s.alternate),
                },
            ),
            Statement::ForStatement(s) => Statement::ForStatement(
                Box::new(
                    ForStatement {
                        node: s.node,
                        init: s.init.duplicate(),
                        test: s.test.duplicate(),
                        update: s.update.duplicate(),
                        body: Statement::duplicate_all(&s.body),
                    },
                ),
            ),
            Statement::WhileStatement(s) => Statement::WhileStatement(
                WhileStatement {
                    node: s.node,
                    test: s.test.duplicate(),
                    body: Statement::duplicate_all(&s.body),
                },
            ),
            Statement::LoopStatement(s) => Statement::LoopStatement(
                LoopStatement { node: s.node, body: Statement::duplicate_all(&s.body) },
            ),
            Statement::TryStatement(s) => Statement::TryStatement(
                TryStatement {
                    node: s.node,
                    body: Statement::duplicate_all(&s.body),
                    handler: Statement::duplicate_all(&s.handler),
                    finalizer: Statement::duplicate_all(&s.finalizer),
                },
            ),
            Statement::BlockStatement(b) => Statement::BlockStatement(
                Statement::duplicate_all(b),
            ),
            Statement::AssignStatement(a) => Statement::AssignStatement(
                AssignStatement {
                    node: a.node,
                    left: a.left.duplicate(),
                    right: a.right.duplicate(),
                    operator: a.operator,
                },
            ),
            Statement::ImportStatement(i) => Statement::ImportStatement(
                ImportStatement {
                    node: i.node,
                    source: i.source.duplicate(),
                    as_name: i.as_name.duplicate(),
                },
            ),
        }
    }

    /// A copy of each of the statements, in order.
    pub fn duplicate_all(items: &Vec<Statement>) -> (r: Vec<Statement>)
        ensures
            r@.len() == items@.len(),
            block_text(r@) == block_text(items@),
        decreases items,
    {
        let mut copy: Vec<Statement> = Vec::new();
        let mut i: usize = 0;
        while i < items.len()
            invariant
                i <= items@.len(),
                copy@.len() == i,
                block_text(copy@) == block_text(items@.take(i as int)),
            decreases items@.len() - i,
        {
            assert(decreases_to!(*items => items[i as int]));
            let ghost before = copy@;
            copy.push(items[i].duplicate());
            i += 1;
            proof {
                assert(copy@.drop_last() == before);
                assert(items@.take(i as int).drop_last() == items@.take(i as int - 1));
                assert(items@.take(i as int).last() == items@[i as int - 1]);
            }
        }
        proof {
            assert(items@.take(items@.len() as int) == items@);
        }
        copy
    }
}

impl Program {
    /// A copy of the program.
    pub fn duplicate(&self) -> (r: Program)
        ensures
            r.node == self.node,
            block_text(r.body@) == block_text(self.body@),
    {
        Program { node: self.node, body: Statement::duplicate_all(&self.body) }
    }
}

impl Ast {
    /// A copy of the tree.
    pub fn duplicate(&self) -> (r: Ast)
        ensures
            r.program.node == self.program.node,
            block_text(r.program.body@) == block_text(self.program.body@),
    {
        Ast { program: self.program.duplicate() }
    }
}

} // verus!
