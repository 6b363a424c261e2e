use vstd::prelude::*;
use crate::ast::{Expression, Statement};
use crate::grammar::{
    beside_rounds_parse, binary_parse, binary_rounds_parse, block_body_parse, body_parse,
    body_prefix_parse, bracketed_parse, call_parse, comma_items_parse, comma_parse,
    dot_rounds_parse, eats, ends_body, expr_parse, kind_at, operand_parse, params_parse,
    params_rest_parse, product_rounds_parse, raw_text, starts_factor, steps, ternary_rounds_parse,
    ternary_parse, var_decl_parse,
};
use crate::lexer::lexed;
use crate::parser::{assign_operator, operator_at, unary_operator, Parser};
use crate::semantics::{given, given2, given3};
use crate::token::TokenKind;

verus! {

/// The parser cannot move on to the next token: the characters behind the token that it
/// looks at make none.
pub open spec fn step_fails<'a>(pre: Parser<'a>) -> bool {
    lexed(pre.text(), pre.cursor() as int, false) is Failure
}

/// The parser cannot move past a token of the kind `kind`: it looks at a token of another
/// kind, or it cannot move on.
pub open spec fn eat_fails<'a>(pre: Parser<'a>, kind: TokenKind) -> bool {
    kind_at(pre) != kind || step_fails(pre)
}

/// No full expression can be read.
pub open spec fn expr_fails<'a>(pre: Parser<'a>) -> bool
    decreases pre.budget(), 64nat, 0nat,
{
    comma_fails(pre, false)
}

/// No expressions with commas between them can be read: the first fails, or one behind a
/// comma, after those before it have been read.
pub open spec fn comma_fails<'a>(pre: Parser<'a>, only_sequence: bool) -> bool
    decreases pre.budget(), 63nat, 0nat,
{
    ternary_fails(pre) || exists|mid: Parser<'a>, first: Expression|
        #![trigger given2(mid, first)]
        given2(mid, first) && ternary_parse(pre, mid, first) && mid.budget() < pre.budget()
            && exists|n: nat, at: Parser<'a>, items: Seq<Expression>|
            #![trigger given3(n, at, items)]
            given3(n, at, items) && comma_items_parse(mid, n, at, items) && kind_at(at)
                == TokenKind::Comma && at.budget() < pre.budget() && (step_fails(at) || exists|
                moved: Parser<'a>,
            | #[trigger]
                given(moved) && steps(at, moved) && moved.budget() < pre.budget()
                    && ternary_fails(moved))
}

/// No conditional expression can be read: what stands where its test would fails, or, after
/// some full rounds of question mark, consequent, colon and alternate, a part of the next.
pub open spec fn ternary_fails<'a>(pre: Parser<'a>) -> bool
    decreases pre.budget(), 62nat, 0nat,
{
    binary_fails(pre, 10) || exists|mid: Parser<'a>, first: Expression|
        #![trigger given2(mid, first)]
        given2(mid, first) && binary_parse(pre, 10, mid, first) && mid.budget() < pre.budget()
            && exists|n: nat, at: Parser<'a>, test: Expression|
            #![trigger given3(n, at, test)]
            given3(n, at, test) && ternary_rounds_parse(
                mid,
                pre.current().start,
                first,
                n,
                at,
                test,
            ) && kind_at(at) == TokenKind::Question && at.budget() < pre.budget() && (step_fails(
                at,
            ) || exists|asked: Parser<'a>| #[trigger]
                given(asked) && steps(at, asked) && asked.budget() < pre.budget() && (binary_fails(
                    asked,
                    10,
                ) || exists|answered: Parser<'a>, consequent: Expression|
                    #![trigger given2(answered, consequent)]
                    given2(answered, consequent) && binary_parse(asked, 10, answered, consequent)
                        && answered.budget() < pre.budget() && (eat_fails(
                        answered,
                        TokenKind::Colon,
                    ) || exists|chosen: Parser<'a>| #[trigger]
                        given(chosen) && eats(answered, TokenKind::Colon, chosen)
                            && chosen.budget() < pre.budget() && expr_fails(chosen))))
}

/// No operation of the level `level` can be read: its first operand fails, or, after some
/// operators with their operands, the next operator cannot be passed or its operand fails.
pub open spec fn binary_fails<'a>(pre: Parser<'a>, level: nat) -> bool
    decreases pre.budget(), crate::grammar::level_rank(level), 0nat,
{
    if level > 10 {
        true
    } else if level == 1 {
        term_fails(pre)
    } else {
        operand_fails(pre, level) || exists|mid: Parser<'a>, first: Expression|
            #![trigger given2(mid, first)]
            given2(mid, first) && operand_parse(pre, level, mid, first) && mid.budget()
                < pre.budget() && exists|n: nat, at: Parser<'a>, left: Expression|
                #![trigger given3(n, at, left)]
                given3(n, at, left) && binary_rounds_parse(
                    mid,
                    level,
                    pre.current().start,
                    first,
                    n,
                    at,
                    left,
                ) && operator_at(level, kind_at(at)) is Some && at.budget() < pre.budget() && (
                step_fails(at) || exists|moved: Parser<'a>| #[trigger]
                    given(moved) && steps(at, moved) && moved.budget() < pre.budget()
                        && operand_fails(moved, level))
    }
}

/// No operand of the operators of the level `level` can be read.
pub open spec fn operand_fails<'a>(pre: Parser<'a>, level: nat) -> bool
    decreases pre.budget(), (crate::grammar::level_rank(level) - 1) as nat, 0nat,
{
    if level == 0 {
        factor_fails(pre)
    } else if level <= 10 {
        binary_fails(pre, (level - 1) as nat)
    } else {
        true
    }
}

/// No product can be read: its first power fails, or one that stands beside what was read,
/// or, after some product operators with their powers, the next operator cannot be passed
/// or its power fails.
pub open spec fn term_fails<'a>(pre: Parser<'a>) -> bool
    decreases pre.budget(), 32nat, 0nat,
{
    binary_fails(pre, 0) || exists|mid: Parser<'a>, first: Expression|
        #![trigger given2(mid, first)]
        given2(mid, first) && binary_parse(pre, 0, mid, first) && mid.budget() < pre.budget()
            && exists|n: nat, beside: Parser<'a>, product: Expression|
            #![trigger given3(n, beside, product)]
            given3(n, beside, product) && beside_rounds_parse(
                mid,
                pre.current().start,
                first,
                n,
                beside,
                product,
            ) && beside.budget() < pre.budget() && (if starts_factor(kind_at(beside)) {
                binary_fails(beside, 0)
            } else {
                exists|m: nat, at: Parser<'a>, left: Expression|
                    #![trigger given3(m, at, left)]
                    given3(m, at, left) && product_rounds_parse(
                        beside,
                        pre.current().start,
                        product,
                        m,
                        at,
                        left,
                    ) && operator_at(1, kind_at(at)) is Some && at.budget() < pre.budget() && (
                    step_fails(at) || exists|moved: Parser<'a>| #[trigger]
                        given(moved) && steps(at, moved) && moved.budget() < pre.budget()
                            && binary_fails(moved, 0))
            })
}

/// What is left to read behind an opening bracket that the parser has passed cannot be
/// read: the expression fails, or the bracket of the kind `closer` is not there to close
/// it.
pub open spec fn closing_fails<'a>(pre: Parser<'a>, opened: Parser<'a>, closer: TokenKind) -> bool
    decreases pre.budget(), 18nat, 0nat,
{
    opened.budget() < pre.budget() && (expr_fails(opened) || exists|
        closing: Parser<'a>,
        inner: Expression,
    |
        #![trigger given2(closing, inner)]
        given2(closing, inner) && expr_parse(opened, closing, inner) && eat_fails(closing, closer))
}

/// No factor can be read.
pub open spec fn factor_fails<'a>(pre: Parser<'a>) -> bool
    decreases pre.budget(), 23nat, 0nat,
{
    match kind_at(pre) {
        TokenKind::Number | TokenKind::Str | TokenKind::True | TokenKind::False
        | TokenKind::NoneLiteral => step_fails(pre),
        TokenKind::LParen => step_fails(pre) || exists|opened: Parser<'a>| #[trigger]
            given(opened) && steps(pre, opened) && closing_fails(pre, opened, TokenKind::RParen),
        TokenKind::LSquare => seq_expr_fails(pre),
        _ => match unary_operator(kind_at(pre)) {
            Some(_) => step_fails(pre) || exists|moved: Parser<'a>| #[trigger]
                given(moved) && steps(pre, moved) && moved.budget() < pre.budget() && factor_fails(
                    moved,
                ),
            None => await_fails(pre),
        },
    }
}

/// No sequence between square brackets can be read.
pub open spec fn seq_expr_fails<'a>(pre: Parser<'a>) -> bool
    decreases pre.budget(), 22nat, 0nat,
{
    step_fails(pre) || exists|opened: Parser<'a>| #[trigger]
        given(opened) && steps(pre, opened) && opened.budget() < pre.budget() && (if kind_at(
            opened,
        ) == TokenKind::RSquare {
            step_fails(opened)
        } else {
            comma_fails(opened, true) || exists|closing: Parser<'a>, inner: Expression|
                #![trigger given2(closing, inner)]
                given2(closing, inner) && comma_parse(opened, true, closing, inner) && eat_fails(
                    closing,
                    TokenKind::RSquare,
                )
        })
}

/// No expression behind any number of `await` can be read.
pub open spec fn await_fails<'a>(pre: Parser<'a>) -> bool
    decreases pre.budget(), 22nat, 0nat,
{
    if kind_at(pre) == TokenKind::Await {
        step_fails(pre) || exists|moved: Parser<'a>| #[trigger]
            given(moved) && steps(pre, moved) && moved.budget() < pre.budget() && await_fails(
                moved,
            )
    } else {
        delete_fails(pre)
    }
}

/// No expression behind any number of `delete` can be read.
pub open spec fn delete_fails<'a>(pre: Parser<'a>) -> bool
    decreases pre.budget(), 21nat, 0nat,
{
    if kind_at(pre) == TokenKind::Delete {
        step_fails(pre) || exists|moved: Parser<'a>| #[trigger]
            given(moved) && steps(pre, moved) && moved.budget() < pre.budget() && delete_fails(
                moved,
            )
    } else {
        dot_fails(pre)
    }
}

/// No path can be read: its first part fails, or, after some dots with their parts, the
/// next dot cannot be passed or its part fails.
pub open spec fn dot_fails<'a>(pre: Parser<'a>) -> bool
    decreases pre.budget(), 20nat, 0nat,
{
    call_fails(pre) || exists|mid: Parser<'a>, first: Expression, bracketed: bool|
        #![trigger given3(mid, first, bracketed)]
        given3(mid, first, bracketed) && call_parse(pre, mid, first, bracketed) && mid.budget()
            < pre.budget() && exists|n: nat, at: Parser<'a>, object: Expression|
            #![trigger given3(n, at, object)]
            given3(n, at, object) && dot_rounds_parse(
                mid,
                pre.current().start,
                first,
                n,
                at,
                object,
            ) && kind_at(at) == TokenKind::Dot && at.budget() < pre.budget() && (step_fails(at)
                || exists|moved: Parser<'a>| #[trigger]
                given(moved) && steps(at, moved) && moved.budget() < pre.budget() && call_fails(
                    moved,
                ))
}

/// No name, call or expression between square brackets can be read: the parser looks at
/// neither a name nor an opening bracket, or it cannot move on, or the arguments or the
/// expression fail, or the closing bracket is not there.
pub open spec fn call_fails<'a>(pre: Parser<'a>) -> bool
    decreases pre.budget(), 19nat, 0nat,
{
    match kind_at(pre) {
        TokenKind::Identifier => step_fails(pre) || exists|named: Parser<'a>| #[trigger]
            given(named) && steps(pre, named) && named.budget() < pre.budget() && kind_at(named)
                == TokenKind::LSquare && (step_fails(named) || exists|opened: Parser<'a>|
                #[trigger]
                given(opened) && steps(named, opened) && (if kind_at(opened)
                    == TokenKind::RSquare {
                    step_fails(opened)
                } else {
                    closing_fails(pre, opened, TokenKind::RSquare)
                })),
        TokenKind::LSquare => step_fails(pre) || exists|opened: Parser<'a>| #[trigger]
            given(opened) && steps(pre, opened) && closing_fails(
                pre,
                opened,
                TokenKind::RSquare,
            ),
        _ => true,
    }
}

/// No statements between braces can be read.
pub open spec fn braces_fails<'a>(pre: Parser<'a>) -> bool
    decreases pre.budget(), 10nat, 0nat,
{
    eat_fails(pre, TokenKind::LAngle) || exists|opened: Parser<'a>| #[trigger]
        given(opened) && eats(pre, TokenKind::LAngle, opened) && opened.budget() < pre.budget()
            && (body_fails(opened) || exists|closing: Parser<'a>, items: Seq<Statement>|
            #![trigger given2(closing, items)]
            given2(closing, items) && body_parse(opened, closing, items) && eat_fails(
                closing,
                TokenKind::RAngle,
            ))
}

/// No expression between round brackets can be read.
pub open spec fn bracketed_fails<'a>(pre: Parser<'a>) -> bool
    decreases pre.budget(), 19nat, 0nat,
{
    eat_fails(pre, TokenKind::LParen) || exists|opened: Parser<'a>| #[trigger]
        given(opened) && eats(pre, TokenKind::LParen, opened) && closing_fails(
            pre,
            opened,
            TokenKind::RParen,
        )
}

/// No body can be read: neither statements between braces nor the one statement that
/// stands in their place.
pub open spec fn block_body_fails<'a>(pre: Parser<'a>) -> bool
    decreases pre.budget(), 85nat, 0nat,
{
    if kind_at(pre) == TokenKind::LAngle {
        braces_fails(pre)
    } else {
        statement_fails(pre)
    }
}

/// The statements up to the end of the source or of the block cannot be read: one of them
/// fails, after those before it have been read.
pub open spec fn body_fails<'a>(pre: Parser<'a>) -> bool
    decreases pre.budget(), 90nat, 0nat,
{
    exists|n: nat, at: Parser<'a>, items: Seq<Statement>|
        #![trigger given3(n, at, items)]
        given3(n, at, items) && body_prefix_parse(pre, n, at, items) && !ends_body(kind_at(at))
            && at.budget() <= pre.budget() && statement_fails(at)
}

/// What stands behind the start of a statement and ends with a semicolon cannot be read:
/// the expression fails, or the semicolon is not there.
pub open spec fn ending_fails<'a>(pre: Parser<'a>, started: Parser<'a>) -> bool
    decreases pre.budget(), 66nat, 0nat,
{
    started.budget() < pre.budget() && (expr_fails(started) || exists|
        closing: Parser<'a>,
        e: Expression,
    |
        #![trigger given2(closing, e)]
        given2(closing, e) && expr_parse(started, closing, e) && eat_fails(
            closing,
            TokenKind::Semicolon,
        ))
}

/// No statement can be read.
pub open spec fn statement_fails<'a>(pre: Parser<'a>) -> bool
    decreases pre.budget(), 80nat, 0nat,
{
    match kind_at(pre) {
        TokenKind::Let => var_decl_fails(pre, false),
        TokenKind::Function | TokenKind::Async => fn_decl_fails(pre),
        TokenKind::Scope => named_body_fails(pre, TokenKind::Scope),
        TokenKind::Context => named_body_fails(pre, TokenKind::Context),
        TokenKind::If => if_fails(pre),
        TokenKind::For => for_fails(pre),
        TokenKind::While => while_fails(pre),
        TokenKind::Loop => word_body_fails(pre, TokenKind::Loop),
        TokenKind::Continue => lone_word_fails(pre, TokenKind::Continue),
        TokenKind::Break => lone_word_fails(pre, TokenKind::Break),
        TokenKind::Throw => word_fails(pre, TokenKind::Throw),
        TokenKind::Return => word_fails(pre, TokenKind::Return),
        TokenKind::Yield => word_fails(pre, TokenKind::Yield),
        TokenKind::Import => import_fails(pre),
        TokenKind::Block => word_body_fails(pre, TokenKind::Block),
        TokenKind::LAngle => braces_fails(pre),
        TokenKind::Mut => assign_fails(pre),
        _ => expr_fails(pre) || exists|closing: Parser<'a>, e: Expression|
            #![trigger given2(closing, e)]
            given2(closing, e) && expr_parse(pre, closing, e) && eat_fails(
                closing,
                TokenKind::Semicolon,
            ),
    }
}

/// The keyword `keyword` with a body behind it cannot be read.
pub open spec fn word_body_fails<'a>(pre: Parser<'a>, keyword: TokenKind) -> bool
    decreases pre.budget(), 70nat, 0nat,
{
    eat_fails(pre, keyword) || exists|moved: Parser<'a>| #[trigger]
        given(moved) && eats(pre, keyword, moved) && moved.budget() < pre.budget()
            && block_body_fails(moved)
}

/// The keyword `keyword`, which stands alone or with a semicolon behind it, cannot be read.
pub open spec fn lone_word_fails<'a>(pre: Parser<'a>, keyword: TokenKind) -> bool {
    eat_fails(pre, keyword) || exists|moved: Parser<'a>| #[trigger]
        given(moved) && eats(pre, keyword, moved) && kind_at(moved) == TokenKind::Semicolon
            && step_fails(moved)
}

/// The keyword `keyword`, an expression and a semicolon cannot be read.
pub open spec fn word_fails<'a>(pre: Parser<'a>, keyword: TokenKind) -> bool
    decreases pre.budget(), 70nat, 0nat,
{
    eat_fails(pre, keyword) || exists|moved: Parser<'a>| #[trigger]
        given(moved) && eats(pre, keyword, moved) && ending_fails(pre, moved)
}

/// The keyword `keyword`, a name and a body cannot be read.
pub open spec fn named_body_fails<'a>(pre: Parser<'a>, keyword: TokenKind) -> bool
    decreases pre.budget(), 70nat, 0nat,
{
    eat_fails(pre, keyword) || exists|moved: Parser<'a>| #[trigger]
        given(moved) && eats(pre, keyword, moved) && (eat_fails(moved, TokenKind::Identifier)
            || exists|named: Parser<'a>| #[trigger]
            given(named) && eats(moved, TokenKind::Identifier, named) && named.budget()
                < pre.budget() && block_body_fails(named))
}

/// No `while` statement can be read.
pub open spec fn while_fails<'a>(pre: Parser<'a>) -> bool
    decreases pre.budget(), 70nat, 0nat,
{
    eat_fails(pre, TokenKind::While) || exists|moved: Parser<'a>| #[trigger]
        given(moved) && eats(pre, TokenKind::While, moved) && moved.budget() < pre.budget() && (
        bracketed_fails(moved) || exists|tested: Parser<'a>, test: Expression|
            #![trigger given2(tested, test)]
            given2(tested, test) && bracketed_parse(moved, tested, test) && tested.budget()
                < pre.budget() && block_body_fails(tested))
}

/// No `if` statement can be read.
pub open spec fn if_fails<'a>(pre: Parser<'a>) -> bool
    decreases pre.budget(), 70nat, 0nat,
{
    eat_fails(pre, TokenKind::If) || exists|moved: Parser<'a>| #[trigger]
        given(moved) && eats(pre, TokenKind::If, moved) && moved.budget() < pre.budget() && (
        bracketed_fails(moved) || exists|tested: Parser<'a>, test: Expression|
            #![trigger given2(tested, test)]
            given2(tested, test) && bracketed_parse(moved, tested, test) && tested.budget()
                < pre.budget() && (block_body_fails(tested) || exists|
                done: Parser<'a>,
                consequent: Seq<Statement>,
            |
                #![trigger given2(done, consequent)]
                given2(done, consequent) && block_body_parse(tested, done, consequent) && kind_at(
                    done,
                ) == TokenKind::Else && (step_fails(done) || exists|other: Parser<'a>|
                    #[trigger]
                    given(other) && steps(done, other) && other.budget() < pre.budget()
                        && block_body_fails(other))))
}

/// What stands behind the declaration of a `for` statement cannot be read: the test, its
/// semicolon, the update, the closing bracket or the body.
pub open spec fn for_rest_fails<'a>(pre: Parser<'a>, declared: Parser<'a>) -> bool
    decreases pre.budget(), 69nat, 0nat,
{
    declared.budget() < pre.budget() && (expr_fails(declared) || exists|
        tested: Parser<'a>,
        test: Expression,
    |
        #![trigger given2(tested, test)]
        given2(tested, test) && expr_parse(declared, tested, test) && (eat_fails(
            tested,
            TokenKind::Semicolon,
        ) || exists|parted: Parser<'a>| #[trigger]
            given(parted) && eats(tested, TokenKind::Semicolon, parted) && parted.budget()
                < pre.budget() && (expr_fails(parted) || exists|
                updated: Parser<'a>,
                update: Expression,
            |
                #![trigger given2(updated, update)]
                given2(updated, update) && expr_parse(parted, updated, update) && (eat_fails(
                    updated,
                    TokenKind::RParen,
                ) || exists|closed: Parser<'a>| #[trigger]
                    given(closed) && eats(updated, TokenKind::RParen, closed) && closed.budget()
                        < pre.budget() && block_body_fails(closed)))))
}

/// No `for` statement can be read.
pub open spec fn for_fails<'a>(pre: Parser<'a>) -> bool
    decreases pre.budget(), 70nat, 0nat,
{
    eat_fails(pre, TokenKind::For) || exists|moved: Parser<'a>| #[trigger]
        given(moved) && eats(pre, TokenKind::For, moved) && (eat_fails(moved, TokenKind::LParen)
            || exists|opened: Parser<'a>| #[trigger]
            given(opened) && eats(moved, TokenKind::LParen, opened) && opened.budget()
                < pre.budget() && (kind_at(opened) == TokenKind::Eof || var_decl_fails(
                opened,
                true,
            ) || exists|declared: Parser<'a>, init: Statement|
                #![trigger given2(declared, init)]
                given2(declared, init) && var_decl_parse(opened, true, declared, init)
                    && for_rest_fails(pre, declared)))
}

/// No declaration of a variable can be read.
pub open spec fn var_decl_fails<'a>(pre: Parser<'a>, only_with_init: bool) -> bool
    decreases pre.budget(), 68nat, 0nat,
{
    step_fails(pre) || exists|moved: Parser<'a>| #[trigger]
        given(moved) && steps(pre, moved) && (eat_fails(moved, TokenKind::Identifier) || exists|
            named: Parser<'a>,
        | #[trigger]
            given(named) && eats(moved, TokenKind::Identifier, named) && (if kind_at(named)
                == TokenKind::Assign || kind_at(named) == TokenKind::FormulaAssign {
                step_fails(named) || exists|started: Parser<'a>| #[trigger]
                    given(started) && steps(named, started) && ending_fails(pre, started)
            } else {
                only_with_init || eat_fails(named, TokenKind::Semicolon)
            }))
}

/// The names of the parameters of a function cannot be read.
pub open spec fn params_fails<'a>(pre: Parser<'a>) -> bool {
    kind_at(pre) != TokenKind::RSquare && (eat_fails(pre, TokenKind::Identifier) || exists|
        first: Parser<'a>,
    | #[trigger]
        given(first) && eats(pre, TokenKind::Identifier, first) && exists|
            n: nat,
            at: Parser<'a>,
            names: Seq<Seq<char>>,
        |
            #![trigger given3(n, at, names)]
            given3(n, at, names) && params_rest_parse(first, n, at, names) && kind_at(at)
                == TokenKind::Comma && (step_fails(at) || exists|moved: Parser<'a>| #[trigger]
                given(moved) && steps(at, moved) && eat_fails(moved, TokenKind::Identifier)))
}

/// No declaration of a function can be read.
pub open spec fn fn_decl_fails<'a>(pre: Parser<'a>) -> bool
    decreases pre.budget(), 70nat, 0nat,
{
    (kind_at(pre) == TokenKind::Async && step_fails(pre)) || exists|first: Parser<'a>| #[trigger]
        given(first) && (if kind_at(pre) == TokenKind::Async {
            steps(pre, first)
        } else {
            first == pre
        }) && (eat_fails(first, TokenKind::Function) || exists|moved: Parser<'a>| #[trigger]
            given(moved) && eats(first, TokenKind::Function, moved) && (eat_fails(
                moved,
                TokenKind::Identifier,
            ) || exists|named: Parser<'a>| #[trigger]
                given(named) && eats(moved, TokenKind::Identifier, named) && (eat_fails(
                    named,
                    TokenKind::LSquare,
                ) || exists|opened: Parser<'a>| #[trigger]
                    given(opened) && eats(named, TokenKind::LSquare, opened) && (params_fails(
                        opened,
                    ) || exists|listed: Parser<'a>, names: Seq<Seq<char>>|
                        #![trigger given2(listed, names)]
                        given2(listed, names) && params_parse(opened, listed, names) && (
                        eat_fails(listed, TokenKind::RSquare) || exists|closed: Parser<'a>|
                            #[trigger]
                            given(closed) && eats(listed, TokenKind::RSquare, closed)
                                && closed.budget() < pre.budget() && block_body_fails(closed))))))
}

/// No assignment can be read.
pub open spec fn assign_fails<'a>(pre: Parser<'a>) -> bool
    decreases pre.budget(), 70nat, 0nat,
{
    eat_fails(pre, TokenKind::Mut) || exists|moved: Parser<'a>| #[trigger]
        given(moved) && eats(pre, TokenKind::Mut, moved) && (eat_fails(
            moved,
            TokenKind::Identifier,
        ) || exists|named: Parser<'a>| #[trigger]
            given(named) && eats(moved, TokenKind::Identifier, named) && (assign_operator(
                kind_at(named),
            ) is None || step_fails(named) || exists|started: Parser<'a>| #[trigger]
                given(started) && steps(named, started) && ending_fails(pre, started)))
}

/// No import can be read.
pub open spec fn import_fails<'a>(pre: Parser<'a>) -> bool {
    step_fails(pre) || exists|moved: Parser<'a>| #[trigger]
        given(moved) && steps(pre, moved) && (raw_text(moved.current().value) is None
            || step_fails(moved) || exists|after: Parser<'a>| #[trigger]
            given(after) && steps(moved, after) && (if kind_at(after) == TokenKind::As {
                step_fails(after) || exists|renamed: Parser<'a>| #[trigger]
                    given(renamed) && steps(after, renamed) && (eat_fails(
                        renamed,
                        TokenKind::Identifier,
                    ) || exists|closing: Parser<'a>| #[trigger]
                        given(closing) && eats(renamed, TokenKind::Identifier, closing)
                            && eat_fails(closing, TokenKind::Semicolon))
            } else {
                eat_fails(after, TokenKind::Semicolon)
            }))
}

/// No program can be read by a parser in the state `pre`.
pub open spec fn program_fails<'a>(pre: Parser<'a>) -> bool {
    eat_fails(pre, TokenKind::Start) || exists|moved: Parser<'a>| #[trigger]
        given(moved) && eats(pre, TokenKind::Start, moved) && body_fails(moved)
}

/// The text `source` does not parse: a parser at its start comes to a place where the
/// characters make no token, or where the token is not one that the grammar allows there.
pub open spec fn parse_fails(source: Seq<char>) -> bool {
    exists|pre: Parser| #[trigger]
        given(pre) && pre.text() == source && pre.cursor() == 0 && pre.current().kind
            == TokenKind::Start && program_fails(pre)
}

/// Statements are read only where the body does not end at once.
proof fn lemma_a_body_starts<'a>(pre: Parser<'a>, n: nat, at: Parser<'a>, items: Seq<Statement>)
    requires
        body_prefix_parse(pre, n, at, items),
        n > 0,
    ensures
        !ends_body(kind_at(pre)),
    decreases n,
{
    let mid = choose|mid: Parser<'a>| #[trigger]
        given(mid) && body_prefix_parse(pre, (n - 1) as nat, mid, items.drop_last())
            && !ends_body(kind_at(mid)) && mid.budget() <= pre.budget()
            && crate::grammar::statement_parse(mid, at, items.last());
    if n > 1 {
        lemma_a_body_starts(pre, (n - 1) as nat, mid, items.drop_last());
    }
}

/// A body that ends at once, at the end of the source or at a closing brace, does not fail.
pub proof fn law_a_body_that_ends_at_once_does_not_fail<'a>(pre: Parser<'a>)
    requires
        ends_body(kind_at(pre)),
    ensures
        !body_fails(pre),
{
    assert forall|n: nat, at: Parser<'a>, items: Seq<Statement>|
        #![trigger given3(n, at, items)]
        body_prefix_parse(pre, n, at, items) implies ends_body(kind_at(at)) by {
        if n > 0 {
            lemma_a_body_starts(pre, n, at, items);
        }
    }
}

/// A text that holds no token, only blanks and comments if anything, parses.
pub proof fn law_a_text_without_tokens_parses(source: Seq<char>)
    requires
        lexed(source, 0, false) matches crate::lexer::Lexed::Token { kind, .. } && kind
            == TokenKind::Eof,
    ensures
        !parse_fails(source),
{
    assert forall|pre: Parser| #[trigger]
        given(pre) && pre.text() == source && pre.cursor() == 0 && pre.current().kind
            == TokenKind::Start implies !program_fails(pre) by {
        assert forall|moved: Parser| #[trigger]
            given(moved) && eats(pre, TokenKind::Start, moved) implies !body_fails(moved) by {
            law_a_body_that_ends_at_once_does_not_fail(moved);
        }
    }
}

} // verus!
