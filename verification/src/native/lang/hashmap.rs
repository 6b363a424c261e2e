use vstd::prelude::*;
use std::rc::Rc;
use crate::ast::{
    Ast, BinaryExpression, BinaryOperator, CallExpression, Expression, FunctionDeclarator,
    Identifier, Literal, MemberExpression, Node, Program, ReturnStatement, SequenceExpression,
    Statement,
};
use crate::report::Diagnostic;
use crate::token::TokenValue;

verus! {

/// The methods of a map instance, written in the language itself: each hands the instance,
/// under the name `this`, to the native routine of the same name. `value` gives the tree
/// that this text parses to.
pub const METHODS: &'static str = "
            fn set[key, value] std.hashmap.set[this, key, value]; 
            fn get[key] return std.hashmap.get[this, key]; 
            fn del[key] std.hashmap.del[this, key];
            fn has[key] return std.hashmap.has[this, key];
            fn keys[] return std.hashmap.keys[this];
            fn values[] return std.hashmap.values[this];
            fn clear[] std.hashmap.clear[this];
            fn len[] return std.hashmap.len[this] - 9;
        ";

/// The names of the parameters of a method that takes `count` of them, and none of a method
/// that takes more than two.
pub open spec fn parameters(count: nat) -> Seq<Seq<char>> {
    if count == 1 {
        seq!["key"@]
    } else if count == 2 {
        seq!["key"@, "value"@]
    } else {
        Seq::empty()
    }
}

/// `e` is the name `text`.
pub open spec fn names(e: Expression, text: Seq<char>) -> bool {
    e is Identifier && e->Identifier_0.name@ == text
}

/// `e` is `std.hashmap.routine[this, ..]`, with the `count` parameters of the method behind
/// `this`.
pub open spec fn hands_on(e: Expression, routine: Seq<char>, count: nat) -> bool {
    &&& e is MemberExpression
    &&& !e->MemberExpression_0.is_expr
    &&& e->MemberExpression_0.object is MemberExpression
    &&& !e->MemberExpression_0.object->MemberExpression_0.is_expr
    &&& names(e->MemberExpression_0.object->MemberExpression_0.object, "std"@)
    &&& names(e->MemberExpression_0.object->MemberExpression_0.property, "hashmap"@)
    &&& e->MemberExpression_0.property is CallExpression
    &&& e->MemberExpression_0.property->CallExpression_0.callee@ == routine
    &&& e->MemberExpression_0.property->CallExpression_0.arguments is SequenceExpression
    &&& {
        let given =
            e->MemberExpression_0.property->CallExpression_0.arguments->SequenceExpression_0.expressions@;
        &&& given.len() == parameters(count).len() + 1
        &&& names(given[0], "this"@)
        &&& forall|i: int|
            0 <= i < parameters(count).len() ==> names(#[trigger] given[i + 1], parameters(count)[i])
    }
}

/// `s` declares the method `name` with `count` parameters, whose one statement hands the
/// instance and the parameters on to the native routine `name`: as a statement of its own,
/// or, where `returns` holds, as what the method returns, less `less` where that is not 0.
pub open spec fn is_method(s: Statement, name: Seq<char>, count: nat, returns: bool, less: i64) -> bool {
    &&& s is FunctionDeclaration
    &&& s->FunctionDeclaration_0.id@ == name
    &&& !s->FunctionDeclaration_0.is_async
    &&& s->FunctionDeclaration_0.params@.len() == parameters(count).len()
    &&& forall|i: int|
        0 <= i < parameters(count).len() ==> (#[trigger] s->FunctionDeclaration_0.params@[i])@
            == parameters(count)[i]
    &&& s->FunctionDeclaration_0.body@.len() == 1
    &&& {
        let only = s->FunctionDeclaration_0.body@[0];
        if !returns {
            only is ExpressionStatement && hands_on(only->ExpressionStatement_0, name, count)
        } else if less == 0 {
            only is ReturnStatement && hands_on(only->ReturnStatement_0.argument, name, count)
        } else {
            &&& only is ReturnStatement
            &&& only->ReturnStatement_0.argument is BinaryExpression
            &&& only->ReturnStatement_0.argument->BinaryExpression_0.operator
                == BinaryOperator::Substract
            &&& hands_on(only->ReturnStatement_0.argument->BinaryExpression_0.left, name, count)
            &&& only->ReturnStatement_0.argument->BinaryExpression_0.right is Literal
            &&& only->ReturnStatement_0.argument->BinaryExpression_0.right->Literal_0.value
                == TokenValue::Number(less)
        }
    }
}

/// `body` holds the eight methods of a map instance: `set`, `get`, `del`, `has`, `keys`,
/// `values`, `clear` and `len`. What `len` returns is the number of bindings less the nine
/// that every instance holds: the eight methods and `this`.
pub open spec fn is_methods(body: Seq<Statement>) -> bool {
    &&& body.len() == 8
    &&& is_method(body[0], "set"@, 2, false, 0)
    &&& is_method(body[1], "get"@, 1, true, 0)
    &&& is_method(body[2], "del"@, 1, false, 0)
    &&& is_method(body[3], "has"@, 1, true, 0)
    &&& is_method(body[4], "keys"@, 0, true, 0)
    &&& is_method(body[5], "values"@, 0, true, 0)
    &&& is_method(body[6], "clear"@, 0, false, 0)
    &&& is_method(body[7], "len"@, 0, true, 9)
}

/// The name `text` at `start..end`.
fn name_at(start: usize, end: usize, text: &str) -> (e: Expression)
    ensures
        names(e, text@),
        e->Identifier_0.node == (Node { start, end }),
{
    Expression::Identifier(Identifier { node: Node::new(start, end), name: text.to_owned() })
}

/// `std.hashmap.routine[this, ..]` with `std` at the offset `at`, the bracket at `bracket`,
/// and `end` as the end of the call.
fn routine_call(at: usize, routine: &str, count: usize, bracket: usize, end: usize) -> (e:
    Expression)
    requires
        at < 1000,
        bracket < 1000,
        count <= 2,
    ensures
        hands_on(e, routine@, count as nat),
{
    let mut given: Vec<Expression> = Vec::new();
    given.push(name_at(bracket + 1, bracket + 5, "this"));
    if count >= 1 {
        given.push(name_at(bracket + 7, bracket + 10, "key"));
    }
    if count >= 2 {
        given.push(name_at(bracket + 12, bracket + 17, "value"));
    }
    let arguments = Expression::SequenceExpression(
        Box::new(SequenceExpression { node: Node::new(bracket, end), expressions: given }),
    );
    let call = Expression::CallExpression(
        Box::new(
            CallExpression { node: Node::new(at + 12, end), callee: routine.to_owned(), arguments },
        ),
    );
    let library = Expression::MemberExpression(
        Box::new(
            MemberExpression {
                node: Node::new(at, at + 12),
                object: name_at(at, at + 3, "std"),
                property: name_at(at + 4, at + 11, "hashmap"),
                is_expr: false,
            },
        ),
    );
    Expression::MemberExpression(
        Box::new(
            MemberExpression { node: Node::new(at, end), object: library, property: call, is_expr: false },
        ),
    )
}

/// The method `name` at `node`, whose one statement starts at `at`. A statement that
/// returns starts with the word at `word`.
fn method(
    node: Node,
    name: &str,
    count: usize,
    word: Option<usize>,
    less: i64,
    at: usize,
    bracket: usize,
    end: usize,
) -> (s: Statement)
    requires
        at < 1000,
        bracket < 1000,
        end < 1000,
        count <= 2,
        less != 0 ==> word is Some,
    ensures
        is_method(s, name@, count as nat, word is Some, less),
{
    let mut params: Vec<String> = Vec::new();
    if count >= 1 {
        params.push("key".to_owned());
    }
    if count >= 2 {
        params.push("value".to_owned());
    }
    let call = routine_call(at, name, count, bracket, end);
    let only = match word {
        None => Statement::ExpressionStatement(call),
        Some(from) => {
            let argument = if less == 0 {
                call
            } else {
                Expression::BinaryExpression(
                    Box::new(
                        BinaryExpression {
                            node: Node::new(at, end + 3),
                            left: call,
                            operator: BinaryOperator::Substract,
                            right: Expression::Literal(
                                Literal {
                                    node: Node::new(end + 1, end + 2),
                                    value: TokenValue::Number(less),
                                },
                            ),
                        },
                    ),
                )
            };
            Statement::ReturnStatement(ReturnStatement { node: Node::new(from, node.end), argument })
        },
    };
    let mut body: Vec<Statement> = Vec::new();
    body.push(only);
    Statement::FunctionDeclaration(
        Rc::new(FunctionDeclarator { node, id: name.to_owned(), params, body, is_async: false }),
    )
}

/// The methods of a map instance, as the tree that their text parses to. Nothing is read or
/// parsed for it, so it is always there.
pub fn value() -> (r: Result<Ast, Diagnostic>)
    ensures
        r is Ok,
        is_methods(r->Ok_0.program.body@),
{
    let mut body: Vec<Statement> = Vec::new();
    body.push(method(Node::new(13, 82), "set", 2, None, 0, 32, 47, 66));
    body.push(method(Node::new(80, 142), "get", 1, Some(92), 0, 99, 114, 126));
    body.push(method(Node::new(140, 194), "del", 1, None, 0, 152, 167, 179));
    body.push(method(Node::new(192, 253), "has", 1, Some(204), 0, 211, 226, 238));
    body.push(method(Node::new(251, 306), "keys", 0, Some(261), 0, 268, 284, 291));
    body.push(method(Node::new(304, 363), "values", 0, Some(316), 0, 323, 341, 348));
    body.push(method(Node::new(361, 411), "clear", 0, None, 0, 372, 389, 396));
    body.push(method(Node::new(409, 460), "len", 0, Some(418), 9, 425, 440, 448));
    Ok(Ast { program: Program { node: Node::new(0, 460), body } })
}

} // verus!
