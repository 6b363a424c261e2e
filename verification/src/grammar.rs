use vstd::prelude::*;
use crate::ast::{
    AssignStatement, Ast, BinaryExpression, BinaryOperator, ConditionalExpression, Expression,
    Identifier, ImportStatement, Literal, MemberExpression, Node, Statement, UnaryExpression,
    WordExpression, WordOperator,
};
use crate::lexer::{in_chars, lexed, lexed_as, spans_bytes, token_matches};
use crate::text::{byte_of, char_of};
use crate::parser::{assign_operator, operator_at, unary_operator, Parser};
use crate::semantics::{given, given2, given3, given4, given5};
use crate::token::{TokenKind, TokenValue};

verus! {

/// `post` is `pre` moved on to the next token of the source, whose place the parser holds in
/// bytes.
pub open spec fn steps<'a>(pre: Parser<'a>, post: Parser<'a>) -> bool {
    &&& post.text() == pre.text()
    &&& post.path() == pre.path()
    &&& lexed(pre.text(), pre.cursor() as int, false) is Token
    &&& lexed_as(in_chars(pre.text(), post.current())) == lexed(
        pre.text(),
        pre.cursor() as int,
        false,
    )
    &&& token_matches(pre.text(), in_chars(pre.text(), post.current()))
    &&& post.cursor() == in_chars(pre.text(), post.current()).end
    &&& spans_bytes(
        pre.text(),
        post.current().start,
        post.current().end,
        char_of(pre.text(), post.current().start as int),
        char_of(pre.text(), post.current().end as int),
    )
}

/// `post` is `pre` moved past its current token, which is of the kind `kind`.
pub open spec fn eats<'a>(pre: Parser<'a>, kind: TokenKind, post: Parser<'a>) -> bool {
    pre.current().kind == kind && steps(pre, post)
}

/// The kind of the token that the parser looks at.
pub open spec fn kind_at<'a>(p: Parser<'a>) -> TokenKind {
    p.current().kind
}

/// `e` is the name `text`, at `node`.
pub open spec fn is_name(e: Identifier, node: Node, text: Seq<char>) -> bool {
    e.node == node && e.name@ == text
}

/// `e` is the sequence of `items`, at `node`.
pub open spec fn is_sequence(e: Expression, node: Node, items: Seq<Expression>) -> bool {
    &&& e is SequenceExpression
    &&& e->SequenceExpression_0.node == node
    &&& e->SequenceExpression_0.expressions@ == items
}

/// `e` is the call of `callee` with `arguments`, at `node`.
pub open spec fn is_call(e: Expression, node: Node, callee: Seq<char>, arguments: Expression) -> bool {
    &&& e is CallExpression
    &&& e->CallExpression_0.node == node
    &&& e->CallExpression_0.callee@ == callee
    &&& e->CallExpression_0.arguments == arguments
}

/// The binary operation of `operator` on `left` and `right`, at `start..end`.
pub open spec fn binary_node(
    start: usize,
    left: Expression,
    operator: BinaryOperator,
    right: Expression,
    end: usize,
) -> Expression {
    Expression::BinaryExpression(
        Box::new(BinaryExpression { node: Node { start, end }, left, operator, right }),
    )
}

/// The items of a sequence expression; any other expression is the one item of a sequence.
pub open spec fn items_of(e: Expression) -> Seq<Expression> {
    match e {
        Expression::SequenceExpression(s) => s.expressions@,
        other => seq![other],
    }
}

/// A full expression.
pub open spec fn expr_parse<'a>(pre: Parser<'a>, post: Parser<'a>, e: Expression) -> bool
    decreases pre.budget(), 64nat, 0nat,
{
    comma_parse(pre, false, post, e)
}

/// Expressions with commas between them: a sequence, or the one expression itself where
/// there is no comma and no sequence is asked for.
pub open spec fn comma_parse<'a>(
    pre: Parser<'a>,
    only_sequence: bool,
    post: Parser<'a>,
    e: Expression,
) -> bool
    decreases pre.budget(), 63nat, 0nat,
{
    exists|mid: Parser<'a>, first: Expression|
        #![trigger given2(mid, first)]
        given2(mid, first) && ternary_parse(pre, mid, first) && (if !only_sequence && kind_at(mid)
            != TokenKind::Comma {
            post == mid && e == first
        } else {
            mid.budget() < pre.budget() && exists|items: Seq<Expression>| #[trigger]
                given(items) && items.len() >= 1 && items[0] == first && comma_items_parse(
                    mid,
                    (items.len() - 1) as nat,
                    post,
                    items,
                ) && kind_at(post) != TokenKind::Comma && is_sequence(
                    e,
                    Node { start: pre.current().start, end: post.current().end },
                    items,
                )
        })
}

/// `n` more items of a sequence, each behind a comma; `items` holds the first item and them.
pub open spec fn comma_items_parse<'a>(
    pre: Parser<'a>,
    n: nat,
    post: Parser<'a>,
    items: Seq<Expression>,
) -> bool
    decreases pre.budget(), 100nat, n,
{
    if n == 0 {
        post == pre && items.len() == 1
    } else {
        &&& items.len() == n + 1
        &&& exists|mid: Parser<'a>, moved: Parser<'a>|
            #![trigger given2(mid, moved)]
            given2(mid, moved) && comma_items_parse(pre, (n - 1) as nat, mid, items.drop_last())
                && eats(mid, TokenKind::Comma, moved) && moved.budget() <= pre.budget()
                && ternary_parse(moved, post, items.last())
    }
}

/// A conditional expression, or what stands where its test would.
pub open spec fn ternary_parse<'a>(pre: Parser<'a>, post: Parser<'a>, e: Expression) -> bool
    decreases pre.budget(), 62nat, 0nat,
{
    exists|mid: Parser<'a>, first: Expression, n: nat|
        #![trigger given3(mid, first, n)]
        given3(mid, first, n) && binary_parse(pre, 10, mid, first) && mid.budget()
            < pre.budget() && ternary_rounds_parse(mid, pre.current().start, first, n, post, e)
            && kind_at(post) != TokenKind::Question
}

/// `n` times: a question mark, a consequent, a colon and an alternate turn the expression
/// read so far into the test of a conditional expression.
pub open spec fn ternary_rounds_parse<'a>(
    pre: Parser<'a>,
    start: usize,
    first: Expression,
    n: nat,
    post: Parser<'a>,
    e: Expression,
) -> bool
    decreases pre.budget(), 100nat, n,
{
    if n == 0 {
        post == pre && e == first
    } else {
        exists|mid: Parser<'a>, test: Expression, asked: Parser<'a>, answered: Parser<'a>|
            #![trigger given4(mid, test, asked, answered)]
            given4(mid, test, asked, answered) && ternary_rounds_parse(
                pre,
                start,
                first,
                (n - 1) as nat,
                mid,
                test,
            ) && eats(mid, TokenKind::Question, asked) && asked.budget() <= pre.budget()
                && exists|consequent: Expression, chosen: Parser<'a>, alternate: Expression|
                #![trigger given3(consequent, chosen, alternate)]
                given3(consequent, chosen, alternate) && binary_parse(
                    asked,
                    10,
                    answered,
                    consequent,
                ) && eats(answered, TokenKind::Colon, chosen) && chosen.budget() <= pre.budget()
                    && expr_parse(chosen, post, alternate) && e
                    == Expression::ConditionalExpression(
                    Box::new(
                        ConditionalExpression {
                            node: Node { start, end: post.current().end },
                            test,
                            consequent,
                            alternate,
                        },
                    ),
                )
    }
}

/// The rank of the level `level` of binary operators among the parts of the grammar.
pub open spec fn level_rank(level: nat) -> nat {
    30 + 3 * level
}

/// Operands with operators of the level `level` between them, grouped from the left. The
/// operands of the level of products are powers, with or without an operator between them.
pub open spec fn binary_parse<'a>(
    pre: Parser<'a>,
    level: nat,
    post: Parser<'a>,
    e: Expression,
) -> bool
    decreases pre.budget(), level_rank(level), 0nat,
{
    if level > 10 {
        false
    } else if level == 1 {
        term_parse(pre, post, e)
    } else {
        exists|mid: Parser<'a>, first: Expression, n: nat|
            #![trigger given3(mid, first, n)]
            given3(mid, first, n) && operand_parse(pre, level, mid, first) && mid.budget()
                < pre.budget() && binary_rounds_parse(
                mid,
                level,
                pre.current().start,
                first,
                n,
                post,
                e,
            ) && operator_at(level, kind_at(post)) is None
    }
}

/// An operand of the operators of the level `level`, which is not that of products: a
/// factor for powers, and an operation of the next stronger level otherwise.
pub open spec fn operand_parse<'a>(
    pre: Parser<'a>,
    level: nat,
    post: Parser<'a>,
    e: Expression,
) -> bool
    decreases pre.budget(), (level_rank(level) - 1) as nat, 0nat,
{
    if level == 0 {
        factor_parse(pre, post, e)
    } else if level <= 10 {
        binary_parse(pre, (level - 1) as nat, post, e)
    } else {
        false
    }
}

/// `n` times: an operator of the level `level` and an operand join the expression read so
/// far to a binary operation.
pub open spec fn binary_rounds_parse<'a>(
    pre: Parser<'a>,
    level: nat,
    start: usize,
    first: Expression,
    n: nat,
    post: Parser<'a>,
    e: Expression,
) -> bool
    decreases pre.budget(), 100nat, n,
{
    if n == 0 {
        post == pre && e == first
    } else {
        exists|mid: Parser<'a>, left: Expression, moved: Parser<'a>, right: Expression|
            #![trigger given4(mid, left, moved, right)]
            given4(mid, left, moved, right) && binary_rounds_parse(
                pre,
                level,
                start,
                first,
                (n - 1) as nat,
                mid,
                left,
            ) && operator_at(level, kind_at(mid)) is Some && steps(mid, moved) && moved.budget()
                <= pre.budget() && level != 1 && level <= 10 && operand_parse(
                moved,
                level,
                post,
                right,
            ) && e == binary_node(
                start,
                left,
                operator_at(level, kind_at(mid))->Some_0,
                right,
                post.current().end,
            )
    }
}

/// Whether a factor that stands side by side with the expression before it starts with a
/// token of the kind `kind`.
pub open spec fn starts_factor(kind: TokenKind) -> bool {
    kind == TokenKind::Identifier || kind == TokenKind::LParen || kind == TokenKind::Number
}

/// Products: powers that stand side by side are multiplied first, and then powers with a
/// product operator between them, grouped from the left.
pub open spec fn term_parse<'a>(pre: Parser<'a>, post: Parser<'a>, e: Expression) -> bool
    decreases pre.budget(), 32nat, 0nat,
{
    exists|mid: Parser<'a>, first: Expression, n: nat, beside: Parser<'a>, product: Expression|
        #![trigger given5(mid, first, n, beside, product)]
        given5(mid, first, n, beside, product) && binary_parse(pre, 0, mid, first)
            && mid.budget() < pre.budget() && beside_rounds_parse(
            mid,
            pre.current().start,
            first,
            n,
            beside,
            product,
        ) && !starts_factor(kind_at(beside)) && beside.budget() < pre.budget() && exists|m: nat|
         #[trigger]
            given(m) && product_rounds_parse(beside, pre.current().start, product, m, post, e)
                && operator_at(1, kind_at(post)) is None
}

/// `n` times: a power that stands beside the expression read so far is multiplied with it.
pub open spec fn beside_rounds_parse<'a>(
    pre: Parser<'a>,
    start: usize,
    first: Expression,
    n: nat,
    post: Parser<'a>,
    e: Expression,
) -> bool
    decreases pre.budget(), 100nat, n,
{
    if n == 0 {
        post == pre && e == first
    } else {
        exists|mid: Parser<'a>, left: Expression, right: Expression|
            #![trigger given3(mid, left, right)]
            given3(mid, left, right) && beside_rounds_parse(
                pre,
                start,
                first,
                (n - 1) as nat,
                mid,
                left,
            ) && starts_factor(kind_at(mid)) && mid.budget() <= pre.budget() && binary_parse(
                mid,
                0,
                post,
                right,
            ) && e == binary_node(start, left, BinaryOperator::Multiply, right, post.current().end)
    }
}

/// `n` times: a product operator and a power join the expression read so far to a binary
/// operation.
pub open spec fn product_rounds_parse<'a>(
    pre: Parser<'a>,
    start: usize,
    first: Expression,
    n: nat,
    post: Parser<'a>,
    e: Expression,
) -> bool
    decreases pre.budget(), 100nat, n,
{
    if n == 0 {
        post == pre && e == first
    } else {
        exists|mid: Parser<'a>, left: Expression, moved: Parser<'a>, right: Expression|
            #![trigger given4(mid, left, moved, right)]
            given4(mid, left, moved, right) && product_rounds_parse(
                pre,
                start,
                first,
                (n - 1) as nat,
                mid,
                left,
            ) && operator_at(1, kind_at(mid)) is Some && steps(mid, moved) && moved.budget()
                <= pre.budget() && binary_parse(moved, 0, post, right) && e == binary_node(
                start,
                left,
                operator_at(1, kind_at(mid))->Some_0,
                right,
                post.current().end,
            )
    }
}

/// A literal, an expression between round brackets, a sequence between square brackets, a
/// unary operator with its operand, or a path of names and calls.
pub open spec fn factor_parse<'a>(pre: Parser<'a>, post: Parser<'a>, e: Expression) -> bool
    decreases pre.budget(), 23nat, 0nat,
{
    let token = pre.current();
    let node = Node { start: token.start, end: token.end };
    match token.kind {
        TokenKind::Number | TokenKind::Str => steps(pre, post) && e == Expression::Literal(
            Literal { node, value: token.value },
        ),
        TokenKind::True => steps(pre, post) && e == Expression::Literal(
            Literal { node, value: TokenValue::Bool(true) },
        ),
        TokenKind::False => steps(pre, post) && e == Expression::Literal(
            Literal { node, value: TokenValue::Bool(false) },
        ),
        TokenKind::NoneLiteral => steps(pre, post) && e == Expression::Empty(node),
        TokenKind::LParen => exists|opened: Parser<'a>, closing: Parser<'a>|
            #![trigger given2(opened, closing)]
            given2(opened, closing) && steps(pre, opened) && opened.budget() < pre.budget()
                && expr_parse(opened, closing, e) && eats(closing, TokenKind::RParen, post),
        TokenKind::LSquare => seq_expr_parse(pre, post, e),
        _ => match unary_operator(token.kind) {
            Some(operator) => exists|moved: Parser<'a>, right: Expression|
                #![trigger given2(moved, right)]
                given2(moved, right) && steps(pre, moved) && moved.budget() < pre.budget()
                    && factor_parse(moved, post, right) && e == Expression::UnaryExpression(
                    Box::new(
                        UnaryExpression {
                            node: Node { start: token.start, end: post.current().end },
                            operator,
                            right,
                        },
                    ),
                ),
            None => await_parse(pre, post, e),
        },
    }
}

/// A sequence between square brackets, whose opening bracket the parser looks at.
pub open spec fn seq_expr_parse<'a>(pre: Parser<'a>, post: Parser<'a>, e: Expression) -> bool
    decreases pre.budget(), 22nat, 0nat,
{
    exists|opened: Parser<'a>| #[trigger]
        given(opened) && steps(pre, opened) && opened.budget() < pre.budget() && (if kind_at(
            opened,
        ) == TokenKind::RSquare {
            steps(opened, post) && is_sequence(
                e,
                Node { start: pre.current().start, end: post.current().end },
                Seq::empty(),
            )
        } else {
            exists|closing: Parser<'a>, inner: Expression|
                #![trigger given2(closing, inner)]
                given2(closing, inner) && comma_parse(opened, true, closing, inner) && eats(
                    closing,
                    TokenKind::RSquare,
                    post,
                ) && is_sequence(
                    e,
                    Node { start: pre.current().start, end: post.current().end },
                    items_of(inner),
                )
        })
}

/// The expression with the word `operator` in front of `argument`, at `start..end`.
pub open spec fn word_node(
    start: usize,
    operator: WordOperator,
    argument: Expression,
    end: usize,
) -> Expression {
    Expression::WordExpression(
        Box::new(WordExpression { node: Node { start, end }, argument, operator }),
    )
}

/// `await` in front of an expression, any number of times.
pub open spec fn await_parse<'a>(pre: Parser<'a>, post: Parser<'a>, e: Expression) -> bool
    decreases pre.budget(), 22nat, 0nat,
{
    if kind_at(pre) == TokenKind::Await {
        exists|moved: Parser<'a>, argument: Expression|
            #![trigger given2(moved, argument)]
            given2(moved, argument) && steps(pre, moved) && moved.budget() < pre.budget()
                && await_parse(moved, post, argument) && e == word_node(
                pre.current().start,
                WordOperator::Await,
                argument,
                post.current().end,
            )
    } else {
        delete_parse(pre, post, e)
    }
}

/// `delete` in front of an expression, any number of times.
pub open spec fn delete_parse<'a>(pre: Parser<'a>, post: Parser<'a>, e: Expression) -> bool
    decreases pre.budget(), 21nat, 0nat,
{
    if kind_at(pre) == TokenKind::Delete {
        exists|moved: Parser<'a>, argument: Expression|
            #![trigger given2(moved, argument)]
            given2(moved, argument) && steps(pre, moved) && moved.budget() < pre.budget()
                && delete_parse(moved, post, argument) && e == word_node(
                pre.current().start,
                WordOperator::Delete,
                argument,
                post.current().end,
            )
    } else {
        dot_parse(pre, post, e)
    }
}

/// A path: names, calls and bracketed expressions with dots between them, grouped from the
/// left.
pub open spec fn dot_parse<'a>(pre: Parser<'a>, post: Parser<'a>, e: Expression) -> bool
    decreases pre.budget(), 20nat, 0nat,
{
    exists|mid: Parser<'a>, first: Expression, bracketed: bool, n: nat|
        #![trigger given4(mid, first, bracketed, n)]
        given4(mid, first, bracketed, n) && call_parse(pre, mid, first, bracketed)
            && mid.budget() < pre.budget() && dot_rounds_parse(
            mid,
            pre.current().start,
            first,
            n,
            post,
            e,
        ) && kind_at(post) != TokenKind::Dot
}

/// `n` times: a dot and a name, a call or a bracketed expression make a member expression
/// of the expression read so far.
pub open spec fn dot_rounds_parse<'a>(
    pre: Parser<'a>,
    start: usize,
    first: Expression,
    n: nat,
    post: Parser<'a>,
    e: Expression,
) -> bool
    decreases pre.budget(), 100nat, n,
{
    if n == 0 {
        post == pre && e == first
    } else {
        exists|mid: Parser<'a>, object: Expression, moved: Parser<'a>, property: Expression|
            #![trigger given4(mid, object, moved, property)]
            given4(mid, object, moved, property) && dot_rounds_parse(
                pre,
                start,
                first,
                (n - 1) as nat,
                mid,
                object,
            ) && eats(mid, TokenKind::Dot, moved) && moved.budget() <= pre.budget() && exists|
                is_expr: bool,
            | #[trigger]
                given(is_expr) && call_parse(moved, post, property, is_expr) && e
                    == Expression::MemberExpression(
                    Box::new(
                        MemberExpression {
                            node: Node { start, end: post.current().end },
                            object,
                            property,
                            is_expr,
                        },
                    ),
                )
    }
}

/// A name, a call of a name with its arguments between square brackets, or an expression
/// between square brackets; `bracketed` tells the last from the others.
pub open spec fn call_parse<'a>(
    pre: Parser<'a>,
    post: Parser<'a>,
    e: Expression,
    bracketed: bool,
) -> bool
    decreases pre.budget(), 19nat, 0nat,
{
    let token = pre.current();
    match token.kind {
        TokenKind::Identifier => !bracketed && exists|named: Parser<'a>| #[trigger]
            given(named) && steps(pre, named) && named.budget() < pre.budget() && (if kind_at(
                named,
            ) != TokenKind::LSquare {
                post == named && e is Identifier && is_name(
                    e->Identifier_0,
                    Node { start: token.start, end: token.end },
                    token.value.text(),
                )
            } else {
                exists|opened: Parser<'a>| #[trigger]
                    given(opened) && steps(named, opened) && opened.budget() < pre.budget() && (
                    if kind_at(opened) == TokenKind::RSquare {
                        exists|arguments: Expression| #[trigger]
                            given(arguments) && steps(opened, post) && is_sequence(
                                arguments,
                                Node { start: named.current().start, end: post.current().end },
                                Seq::empty(),
                            ) && is_call(
                                e,
                                Node { start: named.current().start, end: post.current().end },
                                token.value.text(),
                                arguments,
                            )
                    } else {
                        exists|closing: Parser<'a>, inner: Expression, arguments: Expression|
                            #![trigger given3(closing, inner, arguments)]
                            given3(closing, inner, arguments) && expr_parse(
                                opened,
                                closing,
                                inner,
                            ) && eats(closing, TokenKind::RSquare, post) && is_sequence(
                                arguments,
                                Node { start: named.current().start, end: post.current().end },
                                items_of(inner),
                            ) && is_call(
                                e,
                                Node { start: token.start, end: post.current().end },
                                token.value.text(),
                                arguments,
                            )
                    })
            }),
        TokenKind::LSquare => bracketed && exists|opened: Parser<'a>, closing: Parser<'a>|
            #![trigger given2(opened, closing)]
            given2(opened, closing) && steps(pre, opened) && opened.budget() < pre.budget()
                && expr_parse(opened, closing, e) && eats(closing, TokenKind::RSquare, post),
        _ => false,
    }
}

/// The views of the strings of `names`.
pub open spec fn texts_of(names: Seq<String>) -> Seq<Seq<char>> {
    Seq::new(names.len(), |i: int| names[i]@)
}

/// The text of a token that is a string or a name, without quotes.
pub open spec fn raw_text(value: TokenValue) -> Option<Seq<char>> {
    match value {
        TokenValue::Str(s) => Some(s@),
        TokenValue::Identifier(s) => Some(s@),
        _ => None,
    }
}

/// An expression between round brackets.
pub open spec fn bracketed_parse<'a>(pre: Parser<'a>, post: Parser<'a>, e: Expression) -> bool
    decreases pre.budget(), 10nat, 0nat,
{
    exists|opened: Parser<'a>, closing: Parser<'a>|
        #![trigger given2(opened, closing)]
        given2(opened, closing) && eats(pre, TokenKind::LParen, opened) && opened.budget()
            < pre.budget() && expr_parse(opened, closing, e) && eats(
            closing,
            TokenKind::RParen,
            post,
        )
}

/// The statements between braces.
pub open spec fn braces_parse<'a>(pre: Parser<'a>, post: Parser<'a>, items: Seq<Statement>) -> bool
    decreases pre.budget(), 10nat, 0nat,
{
    exists|opened: Parser<'a>, closing: Parser<'a>|
        #![trigger given2(opened, closing)]
        given2(opened, closing) && eats(pre, TokenKind::LAngle, opened) && opened.budget()
            < pre.budget() && body_parse(opened, closing, items) && eats(
            closing,
            TokenKind::RAngle,
            post,
        )
}

/// The statements of a body: those between braces, or the one statement that stands in
/// their place.
pub open spec fn block_body_parse<'a>(pre: Parser<'a>, post: Parser<'a>, items: Seq<Statement>) -> bool
    decreases pre.budget(), 85nat, 0nat,
{
    if kind_at(pre) == TokenKind::LAngle {
        braces_parse(pre, post, items)
    } else {
        items.len() == 1 && statement_parse(pre, post, items[0])
    }
}

/// Whether a body ends in front of a token of the kind `kind`.
pub open spec fn ends_body(kind: TokenKind) -> bool {
    kind == TokenKind::Eof || kind == TokenKind::RAngle
}

/// The statements up to the end of the source or of the block.
pub open spec fn body_parse<'a>(pre: Parser<'a>, post: Parser<'a>, items: Seq<Statement>) -> bool
    decreases pre.budget(), 90nat, 0nat,
{
    body_prefix_parse(pre, items.len(), post, items) && ends_body(kind_at(post))
}

/// The first `n` statements of a body.
pub open spec fn body_prefix_parse<'a>(
    pre: Parser<'a>,
    n: nat,
    post: Parser<'a>,
    items: Seq<Statement>,
) -> bool
    decreases pre.budget(), 88nat, n,
{
    if n == 0 {
        post == pre && items.len() == 0
    } else {
        &&& items.len() == n
        &&& exists|mid: Parser<'a>| #[trigger]
            given(mid) && body_prefix_parse(pre, (n - 1) as nat, mid, items.drop_last())
                && !ends_body(kind_at(mid)) && mid.budget() <= pre.budget() && statement_parse(
                mid,
                post,
                items.last(),
            )
    }
}

/// A statement: what its first token announces, and an expression with a semicolon behind
/// it where the token announces nothing.
pub open spec fn statement_parse<'a>(pre: Parser<'a>, post: Parser<'a>, s: Statement) -> bool
    decreases pre.budget(), 80nat, 0nat,
{
    match kind_at(pre) {
        TokenKind::Let => var_decl_parse(pre, false, post, s),
        TokenKind::Function | TokenKind::Async => fn_decl_parse(pre, post, s),
        TokenKind::Scope => s is ScopeDeclaration && named_body_parse(
            pre,
            TokenKind::Scope,
            post,
            s->ScopeDeclaration_0.node,
            s->ScopeDeclaration_0.id@,
            s->ScopeDeclaration_0.body@,
        ),
        TokenKind::Context => s is ContextDeclaration && named_body_parse(
            pre,
            TokenKind::Context,
            post,
            s->ContextDeclaration_0.node,
            s->ContextDeclaration_0.id@,
            s->ContextDeclaration_0.body@,
        ),
        TokenKind::If => if_parse(pre, post, s),
        TokenKind::For => for_parse(pre, post, s),
        TokenKind::While => while_parse(pre, post, s),
        TokenKind::Loop => s is LoopStatement && s->LoopStatement_0.node == (Node {
            start: pre.current().start,
            end: post.current().end,
        }) && exists|moved: Parser<'a>| #[trigger]
            given(moved) && eats(pre, TokenKind::Loop, moved) && moved.budget() < pre.budget()
                && block_body_parse(moved, post, s->LoopStatement_0.body@),
        TokenKind::Continue => exists|moved: Parser<'a>| #[trigger]
            given(moved) && eats(pre, TokenKind::Continue, moved) && s
                == Statement::ContinueStatement(
                Node { start: pre.current().start, end: moved.current().end },
            ) && optional_semicolon(moved, post),
        TokenKind::Break => exists|moved: Parser<'a>| #[trigger]
            given(moved) && eats(pre, TokenKind::Break, moved) && s == Statement::BreakStatement(
                Node { start: pre.current().start, end: moved.current().end },
            ) && optional_semicolon(moved, post),
        TokenKind::Throw => s is ThrowStatement && word_parse(
            pre,
            TokenKind::Throw,
            post,
            s->ThrowStatement_0.node,
            s->ThrowStatement_0.argument,
        ),
        TokenKind::Return => s is ReturnStatement && word_parse(
            pre,
            TokenKind::Return,
            post,
            s->ReturnStatement_0.node,
            s->ReturnStatement_0.argument,
        ),
        TokenKind::Yield => s is YieldStatement && word_parse(
            pre,
            TokenKind::Yield,
            post,
            s->YieldStatement_0.node,
            s->YieldStatement_0.argument,
        ),
        TokenKind::Import => import_parse(pre, post, s),
        TokenKind::Block => s is BlockStatement && exists|moved: Parser<'a>| #[trigger]
            given(moved) && eats(pre, TokenKind::Block, moved) && moved.budget() < pre.budget()
                && block_body_parse(moved, post, s->BlockStatement_0@),
        TokenKind::LAngle => s is BlockStatement && braces_parse(pre, post, s->BlockStatement_0@),
        TokenKind::Mut => assign_parse(pre, post, s),
        _ => s is ExpressionStatement && exists|closing: Parser<'a>| #[trigger]
            given(closing) && expr_parse(pre, closing, s->ExpressionStatement_0) && eats(
                closing,
                TokenKind::Semicolon,
                post,
            ),
    }
}

/// A semicolon is passed over if one is there.
pub open spec fn optional_semicolon<'a>(pre: Parser<'a>, post: Parser<'a>) -> bool {
    if kind_at(pre) == TokenKind::Semicolon {
        steps(pre, post)
    } else {
        post == pre
    }
}

/// The keyword `keyword`, an expression and a semicolon.
pub open spec fn word_parse<'a>(
    pre: Parser<'a>,
    keyword: TokenKind,
    post: Parser<'a>,
    node: Node,
    argument: Expression,
) -> bool
    decreases pre.budget(), 70nat, 0nat,
{
    exists|moved: Parser<'a>, closing: Parser<'a>|
        #![trigger given2(moved, closing)]
        given2(moved, closing) && eats(pre, keyword, moved) && moved.budget() < pre.budget()
            && expr_parse(moved, closing, argument) && eats(closing, TokenKind::Semicolon, post)
            && node == (Node { start: pre.current().start, end: post.current().end })
}

/// The keyword `keyword`, a name and a body.
pub open spec fn named_body_parse<'a>(
    pre: Parser<'a>,
    keyword: TokenKind,
    post: Parser<'a>,
    node: Node,
    id: Seq<char>,
    items: Seq<Statement>,
) -> bool
    decreases pre.budget(), 70nat, 0nat,
{
    exists|moved: Parser<'a>, named: Parser<'a>|
        #![trigger given2(moved, named)]
        given2(moved, named) && eats(pre, keyword, moved) && id == moved.current().value.text()
            && eats(moved, TokenKind::Identifier, named) && named.budget() < pre.budget()
            && block_body_parse(named, post, items) && node == (Node {
            start: pre.current().start,
            end: post.current().end,
        })
}

/// `while`, a test between round brackets and a body.
pub open spec fn while_parse<'a>(pre: Parser<'a>, post: Parser<'a>, s: Statement) -> bool
    decreases pre.budget(), 70nat, 0nat,
{
    s is WhileStatement && exists|moved: Parser<'a>, tested: Parser<'a>|
        #![trigger given2(moved, tested)]
        given2(moved, tested) && eats(pre, TokenKind::While, moved) && moved.budget()
            < pre.budget() && bracketed_parse(moved, tested, s->WhileStatement_0.test)
            && tested.budget() < pre.budget() && block_body_parse(
            tested,
            post,
            s->WhileStatement_0.body@,
        ) && s->WhileStatement_0.node == (Node {
            start: pre.current().start,
            end: post.current().end,
        })
}

/// `if`, a test between round brackets, a body, and `else` with a body of its own where
/// there is one.
pub open spec fn if_parse<'a>(pre: Parser<'a>, post: Parser<'a>, s: Statement) -> bool
    decreases pre.budget(), 70nat, 0nat,
{
    s is IfStatement && exists|moved: Parser<'a>, tested: Parser<'a>, done: Parser<'a>|
        #![trigger given3(moved, tested, done)]
        given3(moved, tested, done) && eats(pre, TokenKind::If, moved) && moved.budget()
            < pre.budget() && bracketed_parse(moved, tested, s->IfStatement_0.test)
            && tested.budget() < pre.budget() && block_body_parse(
            tested,
            done,
            s->IfStatement_0.consequent@,
        ) && (if kind_at(done) == TokenKind::Else {
            exists|other: Parser<'a>| #[trigger]
                given(other) && steps(done, other) && other.budget() < pre.budget()
                    && block_body_parse(other, post, s->IfStatement_0.alternate@)
        } else {
            post == done && s->IfStatement_0.alternate@.len() == 0
        }) && s->IfStatement_0.node == (Node {
            start: pre.current().start,
            end: post.current().end,
        })
}

/// `for`, and between round brackets a declaration with its initialiser, a test with a
/// semicolon behind it and an update; then a body.
pub open spec fn for_parse<'a>(pre: Parser<'a>, post: Parser<'a>, s: Statement) -> bool
    decreases pre.budget(), 70nat, 0nat,
{
    s is ForStatement && exists|
        moved: Parser<'a>,
        opened: Parser<'a>,
        declared: Parser<'a>,
        tested: Parser<'a>,
        parted: Parser<'a>,
    |
        #![trigger given5(moved, opened, declared, tested, parted)]
        given5(moved, opened, declared, tested, parted) && eats(pre, TokenKind::For, moved)
            && eats(moved, TokenKind::LParen, opened) && opened.budget() < pre.budget()
            && kind_at(opened) != TokenKind::Eof && var_decl_parse(
            opened,
            true,
            declared,
            s->ForStatement_0.init,
        ) && declared.budget() < pre.budget() && expr_parse(
            declared,
            tested,
            s->ForStatement_0.test,
        ) && eats(tested, TokenKind::Semicolon, parted) && parted.budget() < pre.budget()
            && exists|updated: Parser<'a>, closed: Parser<'a>|
            #![trigger given2(updated, closed)]
            given2(updated, closed) && expr_parse(parted, updated, s->ForStatement_0.update)
                && eats(updated, TokenKind::RParen, closed) && closed.budget() < pre.budget()
                && block_body_parse(closed, post, s->ForStatement_0.body@)
                && s->ForStatement_0.node == (Node {
                start: pre.current().start,
                end: post.current().end,
            })
}

/// A declaration of a variable: a keyword, which is not looked at, a name, an initialiser
/// behind `=` or `:=` where there is one, and a semicolon. With `only_with_init` there has
/// to be an initialiser.
pub open spec fn var_decl_parse<'a>(
    pre: Parser<'a>,
    only_with_init: bool,
    post: Parser<'a>,
    s: Statement,
) -> bool
    decreases pre.budget(), 70nat, 0nat,
{
    s is VariableDeclaration && exists|
        moved: Parser<'a>,
        named: Parser<'a>,
        closing: Parser<'a>,
    |
        #![trigger given3(moved, named, closing)]
        given3(moved, named, closing) && steps(pre, moved) && s->VariableDeclaration_0.id@
            == moved.current().value.text() && eats(moved, TokenKind::Identifier, named) && (
        if kind_at(named) == TokenKind::Assign || kind_at(named) == TokenKind::FormulaAssign {
            exists|started: Parser<'a>| #[trigger]
                given(started) && steps(named, started) && started.budget() < pre.budget()
                    && expr_parse(started, closing, *s->VariableDeclaration_0.init)
                    && s->VariableDeclaration_0.is_formula == (kind_at(named)
                    == TokenKind::FormulaAssign)
        } else {
            !only_with_init && closing == named && *s->VariableDeclaration_0.init
                == Expression::Empty(
                Node { start: named.current().start, end: named.current().end },
            ) && !s->VariableDeclaration_0.is_formula
        }) && eats(closing, TokenKind::Semicolon, post) && s->VariableDeclaration_0.node
            == (Node { start: pre.current().start, end: post.current().end })
}

/// The names of the parameters of a function, with commas between them, up to the closing
/// bracket.
pub open spec fn params_parse<'a>(pre: Parser<'a>, post: Parser<'a>, names: Seq<Seq<char>>) -> bool {
    if kind_at(pre) == TokenKind::RSquare {
        post == pre && names.len() == 0
    } else {
        names.len() >= 1 && names[0] == pre.current().value.text() && exists|first: Parser<'a>|
         #[trigger]
            given(first) && eats(pre, TokenKind::Identifier, first) && params_rest_parse(
                first,
                (names.len() - 1) as nat,
                post,
                names,
            ) && kind_at(post) != TokenKind::Comma
    }
}

/// `n` more names of parameters, each behind a comma; `names` holds the first name and them.
pub open spec fn params_rest_parse<'a>(
    pre: Parser<'a>,
    n: nat,
    post: Parser<'a>,
    names: Seq<Seq<char>>,
) -> bool
    decreases n,
{
    if n == 0 {
        post == pre && names.len() == 1
    } else {
        &&& names.len() == n + 1
        &&& exists|mid: Parser<'a>, moved: Parser<'a>|
            #![trigger given2(mid, moved)]
            given2(mid, moved) && params_rest_parse(pre, (n - 1) as nat, mid, names.drop_last())
                && eats(mid, TokenKind::Comma, moved) && names.last()
                == moved.current().value.text() && eats(moved, TokenKind::Identifier, post)
    }
}

/// A declaration of a function: `async` where it is there, `fn`, a name, the parameters
/// between square brackets and a body.
pub open spec fn fn_decl_parse<'a>(pre: Parser<'a>, post: Parser<'a>, s: Statement) -> bool
    decreases pre.budget(), 70nat, 0nat,
{
    s is FunctionDeclaration && exists|
        first: Parser<'a>,
        moved: Parser<'a>,
        named: Parser<'a>,
        opened: Parser<'a>,
        listed: Parser<'a>,
    |
        #![trigger given5(first, moved, named, opened, listed)]
        given5(first, moved, named, opened, listed) && (if kind_at(pre) == TokenKind::Async {
            steps(pre, first)
        } else {
            first == pre
        }) && s->FunctionDeclaration_0.is_async == (kind_at(pre) == TokenKind::Async) && eats(
            first,
            TokenKind::Function,
            moved,
        ) && s->FunctionDeclaration_0.id@ == moved.current().value.text() && eats(
            moved,
            TokenKind::Identifier,
            named,
        ) && eats(named, TokenKind::LSquare, opened) && params_parse(
            opened,
            listed,
            texts_of(s->FunctionDeclaration_0.params@),
        ) && exists|closed: Parser<'a>| #[trigger]
            given(closed) && eats(listed, TokenKind::RSquare, closed) && closed.budget()
                < pre.budget() && block_body_parse(closed, post, s->FunctionDeclaration_0.body@)
                && s->FunctionDeclaration_0.node == (Node {
                start: pre.current().start,
                end: post.current().end,
            })
}

/// An assignment to a variable: the keyword, the name, an assignment operator, the new
/// value and a semicolon.
pub open spec fn assign_parse<'a>(pre: Parser<'a>, post: Parser<'a>, s: Statement) -> bool
    decreases pre.budget(), 70nat, 0nat,
{
    s is AssignStatement && exists|
        moved: Parser<'a>,
        named: Parser<'a>,
        started: Parser<'a>,
        closing: Parser<'a>,
    |
        #![trigger given4(moved, named, started, closing)]
        given4(moved, named, started, closing) && eats(pre, TokenKind::Mut, moved) && eats(
            moved,
            TokenKind::Identifier,
            named,
        ) && is_name(
            s->AssignStatement_0.left,
            Node { start: pre.current().start, end: named.current().end },
            moved.current().value.text(),
        ) && assign_operator(kind_at(named)) == Some(s->AssignStatement_0.operator) && steps(
            named,
            started,
        ) && started.budget() < pre.budget() && expr_parse(
            started,
            closing,
            s->AssignStatement_0.right,
        ) && eats(closing, TokenKind::Semicolon, post) && s->AssignStatement_0.node == (Node {
            start: pre.current().start,
            end: post.current().end,
        })
}

/// An import: the keyword, the file as a string or a name, `as` with a name where the
/// module is to go by another name, and a semicolon.
pub open spec fn import_parse<'a>(pre: Parser<'a>, post: Parser<'a>, s: Statement) -> bool {
    s is ImportStatement && exists|
        moved: Parser<'a>,
        after: Parser<'a>,
        closing: Parser<'a>,
    |
        #![trigger given3(moved, after, closing)]
        given3(moved, after, closing) && steps(pre, moved) && raw_text(moved.current().value)
            is Some && is_name(
            s->ImportStatement_0.source,
            Node { start: moved.current().start, end: moved.current().end },
            raw_text(moved.current().value)->Some_0,
        ) && steps(moved, after) && (if kind_at(after) == TokenKind::As {
            exists|renamed: Parser<'a>| #[trigger]
                given(renamed) && steps(after, renamed) && is_name(
                    s->ImportStatement_0.as_name,
                    Node { start: renamed.current().start, end: renamed.current().end },
                    renamed.current().value.text(),
                ) && eats(renamed, TokenKind::Identifier, closing)
        } else {
            closing == after && is_name(
                s->ImportStatement_0.as_name,
                s->ImportStatement_0.source.node,
                s->ImportStatement_0.source.name@,
            )
        }) && eats(closing, TokenKind::Semicolon, post) && s->ImportStatement_0.node == (Node {
            start: pre.current().start,
            end: post.current().end,
        })
}

/// A whole program: the statements from the start of the source to its end, or to a
/// closing brace that nothing opened.
pub open spec fn program_parse<'a>(pre: Parser<'a>, post: Parser<'a>, ast: Ast) -> bool {
    exists|moved: Parser<'a>| #[trigger]
        given(moved) && eats(pre, TokenKind::Start, moved) && body_parse(
            moved,
            post,
            ast.program.body@,
        ) && ast.program.node == (Node {
            start: 0,
            end: byte_of(pre.text(), pre.text().len() as int) as usize,
        })
}

/// `ast` is what the text `source` parses to.
pub open spec fn parses_to(source: Seq<char>, ast: Ast) -> bool {
    exists|pre: Parser, post: Parser|
        #![trigger given2(pre, post)]
        given2(pre, post) && pre.text() == source && pre.cursor() == 0 && pre.current().kind
            == TokenKind::Start && program_parse(pre, post, ast)
}

} // verus!
