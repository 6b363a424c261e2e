use vstd::prelude::*;
use crate::ast::{Ast, BinaryExpression, BinaryOperator, Expression, Literal, Node, Program, Statement};
use crate::interpreter::{apply_binary, binary_outcome, literal_value};
use crate::render::{expression_text, statement_text};
use crate::token::TokenValue;
use crate::value::Value;

verus! {

/// Whether operations with `operator` are computed ahead of evaluation where both operands
/// are literals.
pub open spec fn foldable(operator: BinaryOperator) -> bool {
    operator == BinaryOperator::Add || operator == BinaryOperator::Substract || operator
        == BinaryOperator::Multiply || operator == BinaryOperator::Divide
}

/// `r` is the literal that stands for `operator` applied to the literals `a` and `b`: it
/// evaluates to what the operation on their values gives.
pub open spec fn folds(operator: BinaryOperator, a: TokenValue, b: TokenValue, r: TokenValue) -> bool {
    &&& literal_value(a) is Some
    &&& literal_value(b) is Some
    &&& literal_value(r) is Some
    &&& binary_outcome(
        operator,
        literal_value(a)->Some_0,
        literal_value(b)->Some_0,
        literal_value(r)->Some_0,
    )
}

/// `r` is what becomes of `operator` between the optimized operands `left` and `right`: one
/// literal where the operation can be computed ahead, and the operation itself otherwise.
pub open spec fn combined(
    node: Node,
    operator: BinaryOperator,
    left: Expression,
    right: Expression,
    r: Expression,
) -> bool {
    if foldable(operator) && left is Literal && right is Literal && literal_value(
        left->Literal_0.value,
    ) is Some && literal_value(right->Literal_0.value) is Some {
        &&& r is Literal
        &&& r->Literal_0.node == Node {
            start: left->Literal_0.node.start,
            end: right->Literal_0.node.end,
        }
        &&& folds(operator, left->Literal_0.value, right->Literal_0.value, r->Literal_0.value)
    } else {
        r == Expression::BinaryExpression(
            Box::new(BinaryExpression { node, left, operator, right }),
        )
    }
}

/// `left` and `right`, taken as the optimized operands of an operation.
pub open spec fn operands(left: Expression, right: Expression) -> bool {
    true
}

/// `r` is `e` optimized: the operations between literals are computed, from the innermost
/// outwards; what is no binary operation is copied as it is written.
pub open spec fn optimized(e: Expression, r: Expression) -> bool
    decreases e,
{
    match e {
        Expression::BinaryExpression(b) => exists|left: Expression, right: Expression|
            #![trigger operands(left, right)]
            operands(left, right) && optimized(b.left, left) && optimized(b.right, right)
                && combined(b.node, b.operator, left, right, r),
        _ => expression_text(r) == expression_text(e) && (e is Literal ==> r == e),
    }
}

/// `r` is `s` optimized: an expression statement holds the optimized expression, and any
/// other statement is copied as it is written.
pub open spec fn optimized_statement(s: Statement, r: Statement) -> bool {
    match s {
        Statement::ExpressionStatement(e) => r is ExpressionStatement && optimized(
            e,
            r->ExpressionStatement_0,
        ),
        _ => statement_text(r) == statement_text(s),
    }
}

proof fn lemma_optimized_binary(
    b: BinaryExpression,
    left: Expression,
    right: Expression,
    r: Expression,
)
    requires
        optimized(b.left, left),
        optimized(b.right, right),
        combined(b.node, b.operator, left, right, r),
    ensures
        optimized(Expression::BinaryExpression(Box::new(b)), r),
{
    assert(operands(left, right));
}

/// The value of a literal, for the operation to be computed on.
fn value_of(literal: &TokenValue) -> (r: Option<Value>)
    ensures
        r == literal_value(*literal),
{
    match literal {
        TokenValue::Absent => Some(Value::Nil),
        TokenValue::Number(n) => Some(Value::Number(*n)),
        TokenValue::Str(s) => Some(Value::Str(s.clone())),
        TokenValue::Bool(b) => Some(Value::Bool(*b)),
        TokenValue::Identifier(_) => None,
    }
}

/// The literal that evaluates to `value`, where there is one.
fn literal_of(value: Value) -> (r: Option<TokenValue>)
    ensures
        match r {
            Some(t) => literal_value(t) == Some(value),
            None => !(value is Nil || value is Number || value is Str || value is Bool),
        },
{
    match value {
        Value::Nil => Some(TokenValue::Absent),
        Value::Number(n) => Some(TokenValue::Number(n)),
        Value::Str(s) => Some(TokenValue::Str(s)),
        Value::Bool(b) => Some(TokenValue::Bool(b)),
        _ => None,
    }
}

/// The literal that stands for `operator` applied to the literals `a` and `b`.
pub fn fold(operator: BinaryOperator, a: &TokenValue, b: &TokenValue) -> (r: Option<TokenValue>)
    ensures
        match r {
            Some(t) => foldable(operator) && folds(operator, *a, *b, t),
            None => !foldable(operator) || literal_value(*a) is None || literal_value(*b) is None,
        },
{
    let foldable = match operator {
        BinaryOperator::Add | BinaryOperator::Substract | BinaryOperator::Multiply
        | BinaryOperator::Divide => true,
        _ => false,
    };
    if !foldable {
        return None;
    }
    match (value_of(a), value_of(b)) {
        (Some(x), Some(y)) => literal_of(apply_binary(operator, x, y)),
        _ => None,
    }
}

/// Optimizes an expression.
pub fn optim_expression(expression_stmt: &Expression) -> (r: Expression)
    ensures
        optimized(*expression_stmt, r),
    decreases expression_stmt, 1nat,
{
    match expression_stmt {
        Expression::BinaryExpression(binary_expression) => optim_binary_expression(
            binary_expression,
        ),
        _ => expression_stmt.duplicate(),
    }
}

/// Optimizes an operand.
pub fn optim_expression_sub(expression_stmt: &Expression) -> (r: Expression)
    ensures
        optimized(*expression_stmt, r),
    decreases expression_stmt, 2nat,
{
    optim_expression(expression_stmt)
}

/// Optimizes a binary operation: first its operands, then, where both have become literals
/// and the operator is one of `+ - * /`, the operation itself.
pub fn optim_binary_expression(binary_expression: &BinaryExpression) -> (r: Expression)
    ensures
        optimized(Expression::BinaryExpression(Box::new(*binary_expression)), r),
    decreases binary_expression, 0nat,
{
    let left = optim_expression_sub(&binary_expression.left);
    let right = optim_expression_sub(&binary_expression.right);
    let folded: Option<Literal> = match &left {
        Expression::Literal(a) => match &right {
            Expression::Literal(b) => match fold(binary_expression.operator, &a.value, &b.value) {
                Some(value) => Some(Literal { node: Node::new(a.node.start, b.node.end), value }),
                None => None,
            },
            _ => None,
        },
        _ => None,
    };
    proof {
        if left is Literal && right is Literal {
            assert(folded is Some <==> foldable(binary_expression.operator) && literal_value(
                left->Literal_0.value,
            ) is Some && literal_value(right->Literal_0.value) is Some);
        } else {
            assert(folded is None);
        }
    }
    match folded {
        Some(literal) => {
            let r = Expression::Literal(literal);
            proof {
                assert(combined(
                    binary_expression.node,
                    binary_expression.operator,
                    left,
                    right,
                    r,
                ));
                lemma_optimized_binary(*binary_expression, left, right, r);
            }
            r
        },
        None => {
            let ghost kept_left = left;
            let ghost kept_right = right;
            let r = Expression::BinaryExpression(
                Box::new(
                    BinaryExpression {
                        node: binary_expression.node,
                        left,
                        operator: binary_expression.operator,
                        right,
                    },
                ),
            );
            proof {
                assert(combined(
                    binary_expression.node,
                    binary_expression.operator,
                    kept_left,
                    kept_right,
                    r,
                ));
                lemma_optimized_binary(*binary_expression, kept_left, kept_right, r);
            }
            r
        },
    }
}

/// Optimizes the expression statements of a body.
fn optim_body(body: &Vec<Statement>) -> (r: Vec<Statement>)
    ensures
        r@.len() == body@.len(),
        forall|i: int|
            0 <= i < body@.len() ==> optimized_statement(body@[i], #[trigger] r@[i]),
{
    let mut new_body: Vec<Statement> = Vec::new();
    let mut i: usize = 0;
    while i < body.len()
        invariant
            i <= body@.len(),
            new_body@.len() == i,
            forall|j: int| 0 <= j < i ==> optimized_statement(body@[j], #[trigger] new_body@[j]),
        decreases body@.len() - i,
    {
        let statement = match &body[i] {
            Statement::ExpressionStatement(expression) => Statement::ExpressionStatement(
                optim_expression(expression),
            ),
            other => other.duplicate(),
        };
        new_body.push(statement);
        i += 1;
    }
    new_body
}

fn optim_program(program: &Program) -> (r: Program)
    ensures
        r.node == program.node,
        r.body@.len() == program.body@.len(),
        forall|i: int|
            0 <= i < program.body@.len() ==> optimized_statement(
                program.body@[i],
                #[trigger] r.body@[i],
            ),
{
    Program { node: program.node, body: optim_body(&program.body) }
}

/// Optimizes a program: in its expression statements, the operations between literals are
/// computed ahead of evaluation.
pub fn optimize(ast: &Ast) -> (r: Ast)
    ensures
        r.program.node == ast.program.node,
        r.program.body@.len() == ast.program.body@.len(),
        forall|i: int|
            0 <= i < ast.program.body@.len() ==> optimized_statement(
                ast.program.body@[i],
                #[trigger] r.program.body@[i],
            ),
{
    Ast { program: optim_program(&ast.program) }
}

/// Folding agrees with evaluation: the literal that an operation between literals folds to
/// has the value that the operation has when it is evaluated, a number or a boolean exactly
/// and a string letter by letter.
pub proof fn law_folding_agrees(
    operator: BinaryOperator,
    a: TokenValue,
    b: TokenValue,
    folded: TokenValue,
    evaluated: Value,
)
    requires
        foldable(operator),
        folds(operator, a, b, folded),
        binary_outcome(
            operator,
            literal_value(a)->Some_0,
            literal_value(b)->Some_0,
            evaluated,
        ),
    ensures
        match literal_value(folded)->Some_0 {
            Value::Str(s) => evaluated is Str && evaluated->Str_0@ == s@,
            other => evaluated == other,
        },
{
}

} // verus!
