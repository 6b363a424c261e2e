use vstd::prelude::*;
use crate::ast::{
    AssignStatement, BinaryExpression, CallExpression, Expression, ForStatement, IfStatement,
    ImportStatement, Literal, LoopStatement, MemberExpression, Statement, UnaryExpression,
    WhileStatement,
};
use crate::interpreter::{initialized, path_of_module, Interpreter, Loaded};
use crate::native::conversions::value_at_hand;
use crate::native::hashmap::instance;
use crate::render::value_text;
use crate::semantics::{
    all_sem, binds_parameters, block_prefix_sem, block_sem, declares, enters_block, enters_scope,
    expression_sem, for_rounds_sem, given, given2, given3, given4, loop_rounds_sem,
    member_target_sem, module_at, native_scope_name, opens_file, prepares_module, spends_step,
    starts_declaration, statement_sem, variable_sem, while_rounds_sem,
};
use crate::value::{truthy, ControlFlow, NativeFunction, Value};
use crate::vault::Handle;

verus! {

/// Nothing can be bound in the innermost scope of `pre`: there is none, or its record is
/// gone.
pub open spec fn cannot_declare<'a>(pre: Interpreter<'a>) -> bool {
    match pre.store().current() {
        Some(h) => !pre.store().live(h),
        None => true,
    }
}

/// The declaration under way on top of `pre` cannot be ended.
pub open spec fn cannot_end_declaration<'a>(pre: Interpreter<'a>) -> bool {
    pre.store().declaration_refusal() is Some
}

/// The native scope that stands for values of the kind of `v`: the live scope that the
/// outermost scope binds to the name of that kind.
pub open spec fn native_scope_of<'a>(pre: Interpreter<'a>, v: Value) -> Option<Handle> {
    if pre.store().frames().len() > 0 && native_scope_name(v) is Some && pre.store().live(
        pre.store().frames()[0].handle,
    ) {
        match pre.store().scope(pre.store().frames()[0].handle).get(native_scope_name(v)->Some_0) {
            Some(Value::ScopeRef(h)) => if pre.store().live(h) {
                Some(h)
            } else {
                None
            },
            _ => None,
        }
    } else {
        None
    }
}

/// No scope can be found in which to look up a property of `object`: it is no handle, and
/// values of its kind have no native scope.
pub open spec fn target_fails<'a>(pre: Interpreter<'a>, object: Value) -> bool {
    !(object is ScopeRef) && native_scope_of(pre, object) is None
}

/// Evaluating the expression `e` in `pre`, nested no deeper than `depth`, fails: the nesting
/// is used up, or the expression is of a kind that is not evaluated, or a part of it fails
/// after the parts before it have been evaluated.
pub open spec fn expression_fails<'a>(pre: Interpreter<'a>, e: Expression, depth: nat) -> bool
    decreases depth, 0nat, 0nat,
{
    depth == 0 || match e {
        Expression::BinaryExpression(b) => binary_fails(pre, *b, (depth - 1) as nat),
        Expression::UnaryExpression(u) => unary_fails(pre, *u, (depth - 1) as nat),
        Expression::ConditionalExpression(c) => expression_fails(pre, c.test, (depth - 1) as nat)
            || exists|tested: Interpreter<'a>, test: Value|
            #![trigger given2(tested, test)]
            given2(tested, test) && expression_sem(pre, c.test, (depth - 1) as nat, tested, test)
                && expression_fails(
                tested,
                if truthy(test) {
                    c.consequent
                } else {
                    c.alternate
                },
                (depth - 1) as nat,
            ),
        Expression::CallExpression(c) => call_fails(pre, *c, (depth - 1) as nat),
        Expression::MemberExpression(m) => member_fails(pre, *m, (depth - 1) as nat),
        Expression::SequenceExpression(s) => all_fails(pre, s.expressions@, (depth - 1) as nat),
        Expression::WordExpression(_) => true,
        Expression::Literal(l) => literal_fails(pre, l, (depth - 1) as nat),
        Expression::Identifier(i) => variable_fails(pre, i.name@, (depth - 1) as nat),
        Expression::Empty(_) => false,
    }
}

/// Looking `name` up in `pre` fails: no scope on the stack binds it, or it is bound to a
/// formula whose evaluation fails.
pub open spec fn variable_fails<'a>(pre: Interpreter<'a>, name: Seq<char>, depth: nat) -> bool
    decreases depth, 0nat, 0nat,
{
    match pre.store().resolved(name) {
        Some(Value::Ast(formula)) => depth == 0 || expression_fails(
            pre,
            *formula,
            (depth - 1) as nat,
        ),
        Some(_) => false,
        None => true,
    }
}

/// A literal fails where it is a name whose lookup fails.
pub open spec fn literal_fails<'a>(pre: Interpreter<'a>, l: Literal, depth: nat) -> bool
    decreases depth, 0nat, 1nat,
{
    l.value is Identifier && variable_fails(pre, l.value->Identifier_0@, depth)
}

/// A unary expression fails where its operand does.
pub open spec fn unary_fails<'a>(pre: Interpreter<'a>, u: UnaryExpression, depth: nat) -> bool
    decreases depth, 0nat, 0nat,
{
    depth == 0 || expression_fails(pre, u.right, (depth - 1) as nat)
}

/// A binary expression fails where its left operand does, or its right operand after the
/// left one has been evaluated.
pub open spec fn binary_fails<'a>(pre: Interpreter<'a>, b: BinaryExpression, depth: nat) -> bool
    decreases depth, 0nat, 0nat,
{
    depth == 0 || expression_fails(pre, b.left, (depth - 1) as nat) || exists|
        mid: Interpreter<'a>,
        left: Value,
    |
        #![trigger given2(mid, left)]
        given2(mid, left) && expression_sem(pre, b.left, (depth - 1) as nat, mid, left)
            && expression_fails(mid, b.right, (depth - 1) as nat)
}

/// Evaluating `items` in order fails: at one of them, after those before it have been
/// evaluated.
pub open spec fn all_fails<'a>(pre: Interpreter<'a>, items: Seq<Expression>, depth: nat) -> bool
    decreases depth, 1nat, 0nat,
{
    exists|n: nat, mid: Interpreter<'a>, values: Seq<Value>|
        #![trigger given3(n, mid, values)]
        given3(n, mid, values) && n < items.len() && all_sem(pre, items, n, depth, mid, values)
            && (depth == 0 || expression_fails(mid, items[n as int], (depth - 1) as nat))
}

/// A member expression fails where its object does, where no scope is found for the object
/// or the scope is gone, or where the property fails in that scope.
pub open spec fn member_fails<'a>(pre: Interpreter<'a>, m: MemberExpression, depth: nat) -> bool
    decreases depth, 0nat, 0nat,
{
    depth == 0 || expression_fails(pre, m.object, (depth - 1) as nat) || exists|
        objected: Interpreter<'a>,
        object: Value,
    |
        #![trigger given2(objected, object)]
        given2(objected, object) && expression_sem(
            pre,
            m.object,
            (depth - 1) as nat,
            objected,
            object,
        ) && (target_fails(objected, object) || exists|targeted: Interpreter<'a>, h: Handle|
            #![trigger given2(targeted, h)]
            given2(targeted, h) && member_target_sem(objected, object, targeted, h) && (
            !targeted.store().live(h) || exists|entered: Interpreter<'a>| #[trigger]
                given(entered) && enters_scope(targeted, entered, h) && property_fails(
                    entered,
                    m,
                    (depth - 1) as nat,
                )))
}

/// Looking up or calling the property of a member expression in the innermost scope fails.
pub open spec fn property_fails<'a>(pre: Interpreter<'a>, m: MemberExpression, depth: nat) -> bool
    decreases depth, 0nat, 0nat,
{
    depth == 0 || match m.property {
        Expression::Identifier(id) => if m.is_expr {
            named_property_fails(pre, m.property, (depth - 1) as nat)
        } else {
            variable_fails(pre, id.name@, (depth - 1) as nat)
        },
        Expression::CallExpression(c) => call_fails(pre, *c, (depth - 1) as nat),
        _ => named_property_fails(pre, m.property, (depth - 1) as nat),
    }
}

/// A property in brackets fails where its expression does, or the lookup of the name that
/// its value gives.
pub open spec fn named_property_fails<'a>(
    pre: Interpreter<'a>,
    property: Expression,
    depth: nat,
) -> bool
    decreases depth, 0nat, 0nat,
{
    depth == 0 || expression_fails(pre, property, (depth - 1) as nat) || exists|
        mid: Interpreter<'a>,
        name: Value,
    |
        #![trigger given2(mid, name)]
        given2(mid, name) && expression_sem(pre, property, (depth - 1) as nat, mid, name)
            && variable_fails(mid, value_text(name), (depth - 1) as nat)
}

/// A call fails where the lookup of the callee does, where the arguments are no sequence or
/// one of them fails, where the callee is nothing that can be called or takes another
/// number of arguments, or where the native routine or the body of the function fails.
pub open spec fn call_fails<'a>(pre: Interpreter<'a>, c: CallExpression, depth: nat) -> bool
    decreases depth, 0nat, 0nat,
{
    depth == 0 || variable_fails(pre, c.callee@, (depth - 1) as nat) || exists|
        looked: Interpreter<'a>,
        callee: Value,
    |
        #![trigger given2(looked, callee)]
        given2(looked, callee) && variable_sem(pre, c.callee@, (depth - 1) as nat, looked, callee)
            && (!(c.arguments is SequenceExpression) || all_fails(
            looked,
            c.arguments->SequenceExpression_0.expressions@,
            (depth - 1) as nat,
        ) || exists|argued: Interpreter<'a>, args: Seq<Value>|
            #![trigger given2(argued, args)]
            given2(argued, args) && all_sem(
                looked,
                c.arguments->SequenceExpression_0.expressions@,
                c.arguments->SequenceExpression_0.expressions@.len(),
                (depth - 1) as nat,
                argued,
                args,
            ) && match callee {
                Value::NativeFunction(routine) => native_fails(
                    argued,
                    routine,
                    args,
                    (depth - 1) as nat,
                ),
                Value::Function(f) => f.params@.len() != args.len() || exists|
                    entered: Interpreter<'a>,
                    h: Handle,
                    bound: Interpreter<'a>,
                |
                    #![trigger given3(entered, h, bound)]
                    given3(entered, h, bound) && enters_block(argued, entered, h)
                        && binds_parameters(entered, f.params@, args, f.params@.len(), bound)
                        && block_fails(bound, f.body@, (depth - 1) as nat),
                _ => true,
            })
}

/// The native routine `routine` fails on the arguments `args`: their number is not what it
/// takes, no value is at hand or the first argument names no live scope, or, for a new map,
/// the set-up of the instance fails.
pub open spec fn native_fails<'a>(
    pre: Interpreter<'a>,
    routine: NativeFunction,
    args: Seq<Value>,
    depth: nat,
) -> bool
    decreases depth, 0nat, 1nat,
{
    match routine {
        NativeFunction::IOPrint => false,
        NativeFunction::IOPrintln => false,
        NativeFunction::ToString => !(args.len() == 0 && value_at_hand(&pre) is Some),
        NativeFunction::IsError => !(args.len() == 0 && value_at_hand(&pre) is Some),
        NativeFunction::HMNew => args.len() != 0 || map_new_fails(pre, depth),
        NativeFunction::HMSet => !(args.len() == 3 && instance(&pre, args) is Some),
        NativeFunction::HMGet => !(args.len() == 2 && instance(&pre, args) is Some),
        NativeFunction::HMDelete => !(args.len() == 2 && instance(&pre, args) is Some),
        NativeFunction::HMHas => !(args.len() == 2 && instance(&pre, args) is Some),
        NativeFunction::HMLen => !(args.len() == 1 && instance(&pre, args) is Some),
        NativeFunction::HMKeys => !(args.len() == 1 && instance(&pre, args) is Some),
        NativeFunction::HMValues => !(args.len() == 1 && instance(&pre, args) is Some),
        NativeFunction::HMClear => !(args.len() == 1 && instance(&pre, args) is Some),
    }
}

/// Making a new map instance fails: the methods of a map fail in the scope of the instance,
/// or no scope is there to own it.
pub open spec fn map_new_fails<'a>(pre: Interpreter<'a>, depth: nat) -> bool
    decreases depth, 0nat, 0nat,
{
    depth == 0 || exists|
        name: Seq<char>,
        h: Handle,
        started: Interpreter<'a>,
        bound: Interpreter<'a>,
    |
        #![trigger given4(name, h, started, bound)]
        given4(name, h, started, bound) && name.len() == 16 && starts_declaration(
            pre,
            started,
            h,
            name,
        ) && declares(started, bound, "this"@, Value::ScopeRef(h)) && (block_fails(
            bound,
            pre.library().hashmap.program.body@,
            (depth - 1) as nat,
        ) || exists|done: Interpreter<'a>, control: ControlFlow|
            #![trigger given2(done, control)]
            given2(done, control) && block_sem(
                bound,
                pre.library().hashmap.program.body@,
                (depth - 1) as nat,
                done,
                control,
            ) && cannot_end_declaration(done))
}

/// Evaluating the statements of `body` in order fails: at one of them, after those before
/// it have been evaluated and have asked to go on.
pub open spec fn block_fails<'a>(pre: Interpreter<'a>, body: Seq<Statement>, depth: nat) -> bool
    decreases depth, 1nat, 0nat,
{
    exists|n: nat, mid: Interpreter<'a>|
        #![trigger given2(n, mid)]
        given2(n, mid) && n < body.len() && block_prefix_sem(pre, body, n, depth, mid) && (depth
            == 0 || statement_fails(mid, body[n as int], (depth - 1) as nat))
}

/// Evaluating the statement `s` in `pre`, nested no deeper than `depth`, fails.
pub open spec fn statement_fails<'a>(pre: Interpreter<'a>, s: Statement, depth: nat) -> bool
    decreases depth, 0nat, 0nat,
{
    depth == 0 || match s {
        Statement::ExpressionStatement(e) => expression_fails(pre, e, (depth - 1) as nat),
        Statement::ReturnStatement(r) => expression_fails(pre, r.argument, (depth - 1) as nat),
        Statement::ThrowStatement(t) => expression_fails(pre, t.argument, (depth - 1) as nat),
        Statement::ContinueStatement(_) => false,
        Statement::BreakStatement(_) => false,
        Statement::YieldStatement(_) => true,
        Statement::VariableDeclaration(d) => if d.is_formula {
            cannot_declare(pre)
        } else {
            expression_fails(pre, *d.init, (depth - 1) as nat) || exists|
                mid: Interpreter<'a>,
                v: Value,
            |
                #![trigger given2(mid, v)]
                given2(mid, v) && expression_sem(pre, *d.init, (depth - 1) as nat, mid, v)
                    && cannot_declare(mid)
        },
        Statement::FunctionDeclaration(_) => cannot_declare(pre),
        Statement::ScopeDeclaration(d) => exists|started: Interpreter<'a>, h: Handle|
            #![trigger given2(started, h)]
            given2(started, h) && starts_declaration(pre, started, h, d.id@) && (block_fails(
                started,
                d.body@,
                (depth - 1) as nat,
            ) || exists|done: Interpreter<'a>, inner: ControlFlow|
                #![trigger given2(done, inner)]
                given2(done, inner) && block_sem(started, d.body@, (depth - 1) as nat, done, inner)
                    && cannot_end_declaration(done)),
        Statement::ContextDeclaration(d) => exists|
            started: Interpreter<'a>,
            h: Handle,
            bound: Interpreter<'a>,
        |
            #![trigger given3(started, h, bound)]
            given3(started, h, bound) && starts_declaration(pre, started, h, d.id@) && declares(
                started,
                bound,
                "this"@,
                Value::ScopeRef(h),
            ) && (block_fails(bound, d.body@, (depth - 1) as nat) || exists|
                done: Interpreter<'a>,
                inner: ControlFlow,
            |
                #![trigger given2(done, inner)]
                given2(done, inner) && block_sem(bound, d.body@, (depth - 1) as nat, done, inner)
                    && cannot_end_declaration(done)),
        Statement::IfStatement(i) => if_fails(pre, i, (depth - 1) as nat),
        Statement::ForStatement(f) => for_fails(pre, *f, (depth - 1) as nat),
        Statement::WhileStatement(w) => while_fails(pre, w, (depth - 1) as nat),
        Statement::LoopStatement(l) => loop_fails(pre, l, (depth - 1) as nat),
        Statement::TryStatement(_) => true,
        Statement::BlockStatement(b) => exists|entered: Interpreter<'a>, h: Handle|
            #![trigger given2(entered, h)]
            given2(entered, h) && enters_block(pre, entered, h) && block_fails(
                entered,
                b@,
                (depth - 1) as nat,
            ),
        Statement::AssignStatement(a) => assign_fails(pre, a, (depth - 1) as nat),
        Statement::ImportStatement(i) => import_fails(pre, i, (depth - 1) as nat),
    }
}

/// An `if` fails where its test does, or the branch that the test selects.
pub open spec fn if_fails<'a>(pre: Interpreter<'a>, i: IfStatement, depth: nat) -> bool
    decreases depth, 0nat, 0nat,
{
    depth == 0 || expression_fails(pre, i.test, (depth - 1) as nat) || exists|
        tested: Interpreter<'a>,
        test: Value,
    |
        #![trigger given2(tested, test)]
        given2(tested, test) && expression_sem(pre, i.test, (depth - 1) as nat, tested, test)
            && block_fails(
            tested,
            if truthy(test) {
                i.consequent@
            } else {
                i.alternate@
            },
            (depth - 1) as nat,
        )
}

/// An assignment fails where its right side does, or where no scope on the stack binds the
/// variable.
pub open spec fn assign_fails<'a>(pre: Interpreter<'a>, a: AssignStatement, depth: nat) -> bool
    decreases depth, 0nat, 0nat,
{
    depth == 0 || expression_fails(pre, a.right, (depth - 1) as nat) || exists|
        mid: Interpreter<'a>,
        right: Value,
    |
        #![trigger given2(mid, right)]
        given2(mid, right) && expression_sem(pre, a.right, (depth - 1) as nat, mid, right)
            && mid.store().resolved(a.left.name@) is None
}

/// A round of a `while` loop that starts in `pre` fails: the budget of rounds is used up,
/// or the test fails, or the body where the test holds.
pub open spec fn while_round_fails<'a>(pre: Interpreter<'a>, w: WhileStatement, depth: nat) -> bool
    decreases depth, 2nat, 0nat,
{
    pre.steps() == 0 || exists|spent: Interpreter<'a>| #[trigger]
        given(spent) && spends_step(pre, spent) && (expression_fails(spent, w.test, depth)
            || exists|tested: Interpreter<'a>, test: Value|
            #![trigger given2(tested, test)]
            given2(tested, test) && expression_sem(spent, w.test, depth, tested, test) && truthy(
                test,
            ) && block_fails(tested, w.body@, depth))
}

/// A `while` loop fails in one of its rounds, after the rounds before it.
pub open spec fn while_fails<'a>(pre: Interpreter<'a>, w: WhileStatement, depth: nat) -> bool
    decreases depth, 0nat, 0nat,
{
    depth == 0 || exists|entered: Interpreter<'a>, h: Handle, rounds: nat, before: Interpreter<'a>|
        #![trigger given4(entered, h, rounds, before)]
        given4(entered, h, rounds, before) && enters_block(pre, entered, h) && while_rounds_sem(
            entered,
            w,
            (depth - 1) as nat,
            rounds,
            before,
        ) && while_round_fails(before, w, (depth - 1) as nat)
}

/// A round of a `loop` that starts in `pre` fails: the budget of rounds is used up, or the
/// body fails.
pub open spec fn loop_round_fails<'a>(pre: Interpreter<'a>, l: LoopStatement, depth: nat) -> bool
    decreases depth, 2nat, 0nat,
{
    pre.steps() == 0 || exists|spent: Interpreter<'a>| #[trigger]
        given(spent) && spends_step(pre, spent) && block_fails(spent, l.body@, depth)
}

/// A `loop` fails in one of its rounds, after the rounds before it.
pub open spec fn loop_fails<'a>(pre: Interpreter<'a>, l: LoopStatement, depth: nat) -> bool
    decreases depth, 0nat, 0nat,
{
    depth == 0 || exists|entered: Interpreter<'a>, h: Handle, rounds: nat, before: Interpreter<'a>|
        #![trigger given4(entered, h, rounds, before)]
        given4(entered, h, rounds, before) && enters_block(pre, entered, h) && loop_rounds_sem(
            entered,
            l,
            (depth - 1) as nat,
            rounds,
            before,
        ) && loop_round_fails(before, l, (depth - 1) as nat)
}

/// A round of a `for` loop that starts in `pre` fails: the budget of rounds is used up, or
/// the test fails, or the body where the test holds, or the update after a body that asked
/// to go on or to continue.
pub open spec fn for_round_fails<'a>(pre: Interpreter<'a>, f: ForStatement, depth: nat) -> bool
    decreases depth, 2nat, 0nat,
{
    pre.steps() == 0 || exists|spent: Interpreter<'a>| #[trigger]
        given(spent) && spends_step(pre, spent) && (expression_fails(spent, f.test, depth)
            || exists|tested: Interpreter<'a>, test: Value|
            #![trigger given2(tested, test)]
            given2(tested, test) && expression_sem(spent, f.test, depth, tested, test) && truthy(
                test,
            ) && (block_fails(tested, f.body@, depth) || exists|
                bodied: Interpreter<'a>,
                round: ControlFlow,
            |
                #![trigger given2(bodied, round)]
                given2(bodied, round) && block_sem(tested, f.body@, depth, bodied, round) && (
                round is Normal || round is Continue) && expression_fails(
                    bodied,
                    f.update,
                    depth,
                )))
}

/// A `for` loop fails in its declaration, or in one of its rounds, after the rounds before
/// it.
pub open spec fn for_fails<'a>(pre: Interpreter<'a>, f: ForStatement, depth: nat) -> bool
    decreases depth, 0nat, 0nat,
{
    depth == 0 || exists|entered: Interpreter<'a>, h: Handle|
        #![trigger given2(entered, h)]
        given2(entered, h) && enters_block(pre, entered, h) && (statement_fails(
            entered,
            f.init,
            (depth - 1) as nat,
        ) || exists|started: Interpreter<'a>, first: ControlFlow, rounds: nat, before: Interpreter<'a>|
            #![trigger given4(started, first, rounds, before)]
            given4(started, first, rounds, before) && statement_sem(
                entered,
                f.init,
                (depth - 1) as nat,
                started,
                first,
            ) && for_rounds_sem(started, f, (depth - 1) as nat, rounds, before) && for_round_fails(
                before,
                f,
                (depth - 1) as nat,
            ))
}

/// An import fails where the file that it names was provided and does not parse, or where
/// the statements of the file fail in the scope of the module, or where no scope is there to
/// own the module. A file that was not provided or could not be read is no failure.
pub open spec fn import_fails<'a>(pre: Interpreter<'a>, i: ImportStatement, depth: nat) -> bool
    decreases depth, 0nat, 0nat,
{
    let path = path_of_module(pre.paths().last()@, i.source.name@);
    depth == 0 || match module_at(pre, path, 0) {
        Some(Loaded::Parsed { source, ast }) => exists|
            opened: Interpreter<'a>,
            started: Interpreter<'a>,
            h: Handle,
            prepared: Interpreter<'a>,
        |
            #![trigger given4(opened, started, h, prepared)]
            given4(opened, started, h, prepared) && opens_file(pre, opened, path, source)
                && starts_declaration(opened, started, h, i.as_name.name@) && prepares_module(
                started,
                prepared,
                path,
                i.as_name.name,
            ) && (block_fails(prepared, ast.program.body@, (depth - 1) as nat) || exists|
                done: Interpreter<'a>,
                control: ControlFlow,
            |
                #![trigger given2(done, control)]
                given2(done, control) && block_sem(
                    prepared,
                    ast.program.body@,
                    (depth - 1) as nat,
                    done,
                    control,
                ) && cannot_end_declaration(done)),
        Some(Loaded::Malformed(_)) => true,
        Some(Loaded::Unreadable(_)) => false,
        None => false,
    }
}

/// Running the program of `pre` fails: its statements fail in the vault as it is set up.
pub open spec fn run_fails<'a>(pre: Interpreter<'a>) -> bool {
    exists|ready: Interpreter<'a>| #[trigger]
        given(ready) && initialized(pre, ready) && block_fails(
            ready,
            pre.program().program.body@,
            pre.depth_limit(),
        )
}

/// A block without statements never fails, however little nesting is allowed.
pub proof fn law_an_empty_block_never_fails<'a>(pre: Interpreter<'a>, depth: nat)
    ensures
        !block_fails(pre, Seq::empty(), depth),
{
}

/// A number, a text, a truth value or `None` that is written out never fails where one
/// more level of nesting is allowed.
pub proof fn law_plain_literals_never_fail<'a>(pre: Interpreter<'a>, l: Literal, depth: nat)
    requires
        depth > 0,
        !(l.value is Identifier),
    ensures
        !expression_fails(pre, Expression::Literal(l), depth),
{
    reveal_with_fuel(expression_fails, 2);
}

/// A name that no scope on the stack binds fails, as an expression and as the callee of a
/// call.
pub proof fn law_unbound_names_fail<'a>(
    pre: Interpreter<'a>,
    id: crate::ast::Identifier,
    c: CallExpression,
    depth: nat,
)
    requires
        pre.store().resolved(id.name@) is None,
        c.callee@ == id.name@,
    ensures
        expression_fails(pre, Expression::Identifier(id), depth),
        call_fails(pre, c, depth),
{
    reveal_with_fuel(expression_fails, 2);
    reveal_with_fuel(call_fails, 2);
}

} // verus!
