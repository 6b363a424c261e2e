use vstd::prelude::*;
use crate::ast::{
    AssignStatement, BinaryExpression, CallExpression, Expression, ForStatement, IfStatement,
    ImportStatement, Literal, LoopStatement, MemberExpression, Statement, UnaryExpression,
    WhileStatement,
};
use crate::interpreter::{
    assign_outcome, binary_outcome, call_outcome, literal_value, path_of_module, unary_outcome,
    Interpreter, Loaded,
};
use crate::native::conversions::value_at_hand;
use crate::native::hashmap::{instance, is_method_name, own_keys, own_values};
use crate::native::io::shows;
use crate::render::value_text;
use crate::value::{clamp, truthy, ControlFlow, NativeFunction, Value};
use crate::vault::{FrameKind, Handle, Vault};

verus! {

/// Names a witness.
pub open spec fn given<A>(a: A) -> bool {
    true
}

/// Names two witnesses.
pub open spec fn given2<A, B>(a: A, b: B) -> bool {
    true
}

/// Names three witnesses.
pub open spec fn given3<A, B, C>(a: A, b: B, c: C) -> bool {
    true
}

/// Names four witnesses.
pub open spec fn given4<A, B, C, D>(a: A, b: B, c: C, d: D) -> bool {
    true
}

/// Names five witnesses.
pub open spec fn given5<A, B, C, D, E>(a: A, b: B, c: C, d: D, e: E) -> bool {
    true
}

/// `post` has the scope stack and the files of `pre`.
pub open spec fn same_stack<'a>(pre: Interpreter<'a>, post: Interpreter<'a>) -> bool {
    &&& post.store().frames() == pre.store().frames()
    &&& post.paths() == pre.paths()
    &&& post.sources() == pre.sources()
}

/// `post` differs from `pre` in its vault at most.
pub open spec fn only_scopes_change<'a>(pre: Interpreter<'a>, post: Interpreter<'a>) -> bool {
    &&& post.paths() == pre.paths()
    &&& post.sources() == pre.sources()
    &&& post.steps() == pre.steps()
    &&& post.depth_limit() == pre.depth_limit()
    &&& post.printed() == pre.printed()
    &&& post.failed_imports() == pre.failed_imports()
    &&& post.modules() == pre.modules()
    &&& post.library() == pre.library()
    &&& post.program() == pre.program()
}

/// `post` is `pre` with the new, empty block `h` entered.
pub open spec fn enters_block<'a>(pre: Interpreter<'a>, post: Interpreter<'a>, h: Handle) -> bool {
    &&& only_scopes_change(pre, post)
    &&& Vault::opened(&pre.store(), &post.store(), h, FrameKind::Block, Seq::empty())
}

/// `post` is `pre` with its innermost block exited, and deleted with what it owned.
pub open spec fn exits_block<'a>(pre: Interpreter<'a>, post: Interpreter<'a>) -> bool {
    &&& only_scopes_change(pre, post)
    &&& pre.store().frames().len() > 0
    &&& pre.store().frames().last().kind == FrameKind::Block
    &&& post.store().frames() == pre.store().frames().drop_last()
    &&& Vault::released(&pre.store(), &post.store(), pre.store().frames().last().handle)
}

/// `post` is `pre` with the declaration of the new, empty named scope `h` started.
pub open spec fn starts_declaration<'a>(
    pre: Interpreter<'a>,
    post: Interpreter<'a>,
    h: Handle,
    name: Seq<char>,
) -> bool {
    &&& only_scopes_change(pre, post)
    &&& Vault::opened(&pre.store(), &post.store(), h, FrameKind::Declaration, name)
}

/// `post` is `pre` with the declaration of the named scope `h` ended.
pub open spec fn ends_declaration<'a>(pre: Interpreter<'a>, post: Interpreter<'a>, h: Handle) -> bool {
    &&& only_scopes_change(pre, post)
    &&& Vault::adopted(&pre.store(), &post.store(), h)
}

/// `post` is `pre` with the named scope `h` entered.
pub open spec fn enters_scope<'a>(pre: Interpreter<'a>, post: Interpreter<'a>, h: Handle) -> bool {
    &&& only_scopes_change(pre, post)
    &&& Vault::entered(&pre.store(), &post.store(), h)
}

/// `post` is `pre` with the named scope that was entered last left.
pub open spec fn leaves_scope<'a>(pre: Interpreter<'a>, post: Interpreter<'a>) -> bool {
    &&& only_scopes_change(pre, post)
    &&& Vault::left(&pre.store(), &post.store())
    &&& pre.store().frames().last().kind == FrameKind::Entered
}

/// `post` is `pre` with `name` bound to `value` in the record `h`.
pub open spec fn binds<'a>(
    pre: Interpreter<'a>,
    post: Interpreter<'a>,
    h: Handle,
    name: Seq<char>,
    value: Value,
) -> bool {
    &&& only_scopes_change(pre, post)
    &&& Vault::rebound(&pre.store(), &post.store(), h)
    &&& forall|n: Seq<char>|
        #[trigger] post.store().scope(h).get(n) == (if n == name {
            Some(value)
        } else {
            pre.store().scope(h).get(n)
        })
}

/// `post` is `pre` with `name` bound to `value` in the innermost scope.
pub open spec fn declares<'a>(
    pre: Interpreter<'a>,
    post: Interpreter<'a>,
    name: Seq<char>,
    value: Value,
) -> bool {
    pre.store().current() is Some && binds(pre, post, pre.store().current()->Some_0, name, value)
}

/// `post` is `pre` without a binding of `name` in the record `h`.
pub open spec fn unbinds<'a>(
    pre: Interpreter<'a>,
    post: Interpreter<'a>,
    h: Handle,
    name: Seq<char>,
) -> bool {
    &&& only_scopes_change(pre, post)
    &&& Vault::rebound(&pre.store(), &post.store(), h)
    &&& forall|n: Seq<char>|
        #[trigger] post.store().scope(h).get(n) == (if n == name {
            None
        } else {
            pre.store().scope(h).get(n)
        })
}

/// `post` is `pre` with one round less in the budget of loops.
pub open spec fn spends_step<'a>(pre: Interpreter<'a>, post: Interpreter<'a>) -> bool {
    &&& pre.steps() > 0
    &&& post.steps() == pre.steps() - 1
    &&& post.store() == pre.store()
    &&& post.paths() == pre.paths()
    &&& post.sources() == pre.sources()
    &&& post.depth_limit() == pre.depth_limit()
    &&& post.printed() == pre.printed()
    &&& post.failed_imports() == pre.failed_imports()
    &&& post.modules() == pre.modules()
    &&& post.library() == pre.library()
    &&& post.program() == pre.program()
}

/// `post` is `pre` with `values` printed, and the line ended if `line` says so.
pub open spec fn prints<'a>(
    pre: Interpreter<'a>,
    post: Interpreter<'a>,
    values: Seq<Value>,
    line: bool,
) -> bool {
    let shown: int = (pre.printed().len() + 2 * values.len()) as int;
    &&& post.store() == pre.store()
    &&& post.paths() == pre.paths()
    &&& post.sources() == pre.sources()
    &&& post.steps() == pre.steps()
    &&& post.depth_limit() == pre.depth_limit()
    &&& post.failed_imports() == pre.failed_imports()
    &&& post.modules() == pre.modules()
    &&& post.library() == pre.library()
    &&& post.program() == pre.program()
    &&& post.printed().len() == shown + (if line {
        1int
    } else {
        0int
    })
    &&& post.printed().take(pre.printed().len() as int) == pre.printed()
    &&& shows(post.printed().subrange(pre.printed().len() as int, shown), values)
    &&& line ==> post.printed().last().text@ == "\n"@ && post.printed().last().tone
        == crate::interpreter::Tone::Plain
}

/// The name of the native scope that stands for values of the kind of `v`.
pub open spec fn native_scope_name(v: Value) -> Option<Seq<char>> {
    match v {
        Value::Sequence(_) => Some("&sequence"@),
        Value::Nil => Some("&none"@),
        Value::Number(_) => Some("&number"@),
        Value::Bool(_) => Some("&bool"@),
        Value::Str(_) => Some("&str"@),
        Value::Ast(_) => Some("&ast"@),
        Value::Error(_) => Some("&err"@),
        _ => None,
    }
}

/// The scope `h` in which the property of the object `object` is looked up: the scope that a
/// handle names; for another value the native scope of its kind, which the outermost scope
/// binds, with the value stored in it.
pub open spec fn member_target_sem<'a>(
    pre: Interpreter<'a>,
    object: Value,
    post: Interpreter<'a>,
    h: Handle,
) -> bool {
    match object {
        Value::ScopeRef(named) => post == pre && h == named,
        other => {
            let library = pre.store().frames()[0].handle;
            &&& native_scope_name(other) is Some
            &&& pre.store().frames().len() > 0
            &&& pre.store().live(library)
            &&& pre.store().scope(library).get(native_scope_name(other)->Some_0) == Some(
                Value::ScopeRef(h),
            )
            &&& binds(pre, post, h, "$value"@, other)
        },
    }
}

/// `post` is `pre` with each of the first `n` parameters bound to its argument, in order,
/// in the innermost scope.
pub open spec fn binds_parameters<'a>(
    pre: Interpreter<'a>,
    params: Seq<String>,
    args: Seq<Value>,
    n: nat,
    post: Interpreter<'a>,
) -> bool
    decreases n,
{
    if n == 0 {
        post == pre
    } else {
        &&& n <= params.len()
        &&& n <= args.len()
        &&& exists|mid: Interpreter<'a>| #[trigger]
            given(mid) && binds_parameters(pre, params, args, (n - 1) as nat, mid) && declares(
                mid,
                post,
                params[n - 1]@,
                args[n - 1],
            )
    }
}

/// The module that an import finds under `path`: the first that was provided under it.
pub open spec fn module_at<'a>(pre: Interpreter<'a>, path: Seq<char>, n: nat) -> Option<Loaded>
    decreases pre.modules().len() - n,
{
    if n >= pre.modules().len() {
        None
    } else if pre.modules()[n as int].path@ == path {
        Some(pre.modules()[n as int].contents)
    } else {
        module_at(pre, path, n + 1)
    }
}

/// Evaluating the expression `e` in `pre`, nested no deeper than `depth`, gives `v` and
/// leaves `post`.
pub open spec fn expression_sem<'a>(
    pre: Interpreter<'a>,
    e: Expression,
    depth: nat,
    post: Interpreter<'a>,
    v: Value,
) -> bool
    decreases depth, 0nat, 0nat,
{
    depth > 0 && same_stack(pre, post) && match e {
        Expression::BinaryExpression(b) => binary_sem(pre, *b, (depth - 1) as nat, post, v),
        Expression::UnaryExpression(u) => unary_sem(pre, *u, (depth - 1) as nat, post, v),
        Expression::ConditionalExpression(c) => exists|tested: Interpreter<'a>, test: Value|
            #![trigger given2(tested, test)]
            given2(tested, test) && expression_sem(pre, c.test, (depth - 1) as nat, tested, test)
                && expression_sem(
                tested,
                if truthy(test) {
                    c.consequent
                } else {
                    c.alternate
                },
                (depth - 1) as nat,
                post,
                v,
            ),
        Expression::CallExpression(c) => call_sem(pre, *c, (depth - 1) as nat, post, v),
        Expression::MemberExpression(m) => member_sem(pre, *m, (depth - 1) as nat, post, v),
        Expression::SequenceExpression(s) => v is Sequence && all_sem(
            pre,
            s.expressions@,
            s.expressions@.len(),
            (depth - 1) as nat,
            post,
            v->Sequence_0@,
        ),
        Expression::WordExpression(_) => false,
        Expression::Literal(l) => literal_sem(pre, l, (depth - 1) as nat, post, v),
        Expression::Identifier(i) => variable_sem(pre, i.name@, (depth - 1) as nat, post, v),
        Expression::Empty(_) => post == pre && v == Value::Nil,
    }
}

/// Looking `name` up in `pre` gives `v` and leaves `post`: the value bound to the name in the
/// innermost scope that binds it, and for a formula what it evaluates to now.
pub open spec fn variable_sem<'a>(
    pre: Interpreter<'a>,
    name: Seq<char>,
    depth: nat,
    post: Interpreter<'a>,
    v: Value,
) -> bool
    decreases depth, 0nat, 0nat,
{
    match pre.store().resolved(name) {
        Some(Value::Ast(formula)) => depth > 0 && expression_sem(
            pre,
            *formula,
            (depth - 1) as nat,
            post,
            v,
        ),
        Some(found) => post == pre && v == found,
        None => false,
    }
}

/// The value of a literal; a name is looked up.
pub open spec fn literal_sem<'a>(
    pre: Interpreter<'a>,
    l: Literal,
    depth: nat,
    post: Interpreter<'a>,
    v: Value,
) -> bool
    decreases depth, 0nat, 1nat,
{
    match literal_value(l.value) {
        Some(value) => post == pre && v == value,
        None => l.value is Identifier && variable_sem(pre, l.value->Identifier_0@, depth, post, v),
    }
}

/// The operand is evaluated and the operator applied.
pub open spec fn unary_sem<'a>(
    pre: Interpreter<'a>,
    u: UnaryExpression,
    depth: nat,
    post: Interpreter<'a>,
    v: Value,
) -> bool
    decreases depth, 0nat, 0nat,
{
    depth > 0 && exists|right: Value| #[trigger]
        given(right) && expression_sem(pre, u.right, (depth - 1) as nat, post, right)
            && unary_outcome(u.operator, right, v)
}

/// The left operand is evaluated, then the right one, and the operator applied.
pub open spec fn binary_sem<'a>(
    pre: Interpreter<'a>,
    b: BinaryExpression,
    depth: nat,
    post: Interpreter<'a>,
    v: Value,
) -> bool
    decreases depth, 0nat, 0nat,
{
    depth > 0 && exists|mid: Interpreter<'a>, left: Value, right: Value|
        #![trigger given3(mid, left, right)]
        given3(mid, left, right) && expression_sem(pre, b.left, (depth - 1) as nat, mid, left)
            && expression_sem(mid, b.right, (depth - 1) as nat, post, right) && binary_outcome(
            b.operator,
            left,
            right,
            v,
        )
}

/// The first `n` of `items` are evaluated in order, and give `values`.
pub open spec fn all_sem<'a>(
    pre: Interpreter<'a>,
    items: Seq<Expression>,
    n: nat,
    depth: nat,
    post: Interpreter<'a>,
    values: Seq<Value>,
) -> bool
    decreases depth, 0nat, n,
{
    if n == 0 {
        post == pre && values.len() == 0
    } else {
        &&& depth > 0
        &&& n <= items.len()
        &&& values.len() == n
        &&& exists|mid: Interpreter<'a>| #[trigger]
            given(mid) && all_sem(pre, items, (n - 1) as nat, depth, mid, values.drop_last())
                && expression_sem(mid, items[n - 1], (depth - 1) as nat, post, values.last())
    }
}

/// The object is evaluated, the scope that it names, or the native scope of its kind, is
/// entered, the property is looked up or called there, and the scope is left.
pub open spec fn member_sem<'a>(
    pre: Interpreter<'a>,
    m: MemberExpression,
    depth: nat,
    post: Interpreter<'a>,
    v: Value,
) -> bool
    decreases depth, 0nat, 0nat,
{
    depth > 0 && exists|
        objected: Interpreter<'a>,
        object: Value,
        targeted: Interpreter<'a>,
        h: Handle,
        entered: Interpreter<'a>,
    |
        #![trigger given5(objected, object, targeted, h, entered)]
        given5(objected, object, targeted, h, entered) && expression_sem(
            pre,
            m.object,
            (depth - 1) as nat,
            objected,
            object,
        ) && member_target_sem(objected, object, targeted, h) && enters_scope(
            targeted,
            entered,
            h,
        ) && exists|found: Interpreter<'a>| #[trigger]
            given(found) && property_sem(entered, m, (depth - 1) as nat, found, v)
                && leaves_scope(found, post)
}

/// The value of the property of a member expression in the innermost scope.
pub open spec fn property_sem<'a>(
    pre: Interpreter<'a>,
    m: MemberExpression,
    depth: nat,
    post: Interpreter<'a>,
    v: Value,
) -> bool
    decreases depth, 0nat, 0nat,
{
    depth > 0 && match m.property {
        Expression::Identifier(id) => if m.is_expr {
            named_property_sem(pre, m.property, (depth - 1) as nat, post, v)
        } else {
            variable_sem(pre, id.name@, (depth - 1) as nat, post, v)
        },
        Expression::CallExpression(c) => call_sem(pre, *c, (depth - 1) as nat, post, v),
        _ => named_property_sem(pre, m.property, (depth - 1) as nat, post, v),
    }
}

/// The property is evaluated, and the name that its value gives, as it is written, is looked
/// up.
pub open spec fn named_property_sem<'a>(
    pre: Interpreter<'a>,
    property: Expression,
    depth: nat,
    post: Interpreter<'a>,
    v: Value,
) -> bool
    decreases depth, 0nat, 0nat,
{
    depth > 0 && exists|mid: Interpreter<'a>, name: Value|
        #![trigger given2(mid, name)]
        given2(mid, name) && expression_sem(pre, property, (depth - 1) as nat, mid, name)
            && variable_sem(mid, value_text(name), (depth - 1) as nat, post, v)
}

/// The callee is looked up, the arguments are evaluated in order, and the callee is called.
pub open spec fn call_sem<'a>(
    pre: Interpreter<'a>,
    c: CallExpression,
    depth: nat,
    post: Interpreter<'a>,
    v: Value,
) -> bool
    decreases depth, 0nat, 0nat,
{
    depth > 0 && c.arguments is SequenceExpression && exists|
        looked: Interpreter<'a>,
        callee: Value,
        argued: Interpreter<'a>,
        args: Seq<Value>,
    |
        #![trigger given4(looked, callee, argued, args)]
        given4(looked, callee, argued, args) && variable_sem(
            pre,
            c.callee@,
            (depth - 1) as nat,
            looked,
            callee,
        ) && all_sem(
            looked,
            c.arguments->SequenceExpression_0.expressions@,
            c.arguments->SequenceExpression_0.expressions@.len(),
            (depth - 1) as nat,
            argued,
            args,
        ) && match callee {
            Value::NativeFunction(routine) => native_sem(
                argued,
                routine,
                args,
                (depth - 1) as nat,
                post,
                v,
            ),
            Value::Function(f) => f.params@.len() == args.len() && exists|
                entered: Interpreter<'a>,
                h: Handle,
                bound: Interpreter<'a>,
                done: Interpreter<'a>,
                control: ControlFlow,
            |
                #![trigger given5(entered, h, bound, done, control)]
                given5(entered, h, bound, done, control) && enters_block(argued, entered, h)
                    && binds_parameters(entered, f.params@, args, f.params@.len(), bound)
                    && block_sem(bound, f.body@, (depth - 1) as nat, done, control)
                    && exits_block(done, post) && call_outcome(control, v),
            _ => false,
        }
}

/// What the native routine `routine` does with the arguments `args`, and gives.
pub open spec fn native_sem<'a>(
    pre: Interpreter<'a>,
    routine: NativeFunction,
    args: Seq<Value>,
    depth: nat,
    post: Interpreter<'a>,
    v: Value,
) -> bool
    decreases depth, 0nat, 1nat,
{
    match routine {
        NativeFunction::IOPrint => prints(pre, post, args, false) && v == Value::Nil,
        NativeFunction::IOPrintln => prints(pre, post, args, true) && v == Value::Nil,
        NativeFunction::ToString => {
            &&& post == pre
            &&& args.len() == 0
            &&& value_at_hand(&pre) is Some
            &&& v is Str
            &&& v->Str_0@ == value_text(value_at_hand(&pre)->Some_0)
        },
        NativeFunction::IsError => {
            &&& post == pre
            &&& args.len() == 0
            &&& value_at_hand(&pre) is Some
            &&& v == Value::Bool(value_at_hand(&pre)->Some_0 is Error)
        },
        NativeFunction::HMNew => args.len() == 0 && map_new_sem(pre, depth, post, v),
        NativeFunction::HMSet => {
            &&& args.len() == 3
            &&& instance(&pre, args) is Some
            &&& binds(pre, post, args[0]->ScopeRef_0, value_text(args[1]), args[2])
            &&& v == Value::Nil
        },
        NativeFunction::HMGet => {
            &&& post == pre
            &&& args.len() == 2
            &&& instance(&pre, args) is Some
            &&& v == (match pre.store().scope(args[0]->ScopeRef_0).get(value_text(args[1])) {
                Some(stored) => stored,
                None => Value::Nil,
            })
        },
        NativeFunction::HMDelete => {
            &&& args.len() == 2
            &&& instance(&pre, args) is Some
            &&& unbinds(pre, post, args[0]->ScopeRef_0, value_text(args[1]))
            &&& v == Value::Nil
        },
        NativeFunction::HMHas => {
            &&& post == pre
            &&& args.len() == 2
            &&& instance(&pre, args) is Some
            &&& v == Value::Bool(
                pre.store().scope(args[0]->ScopeRef_0).get(value_text(args[1])) is Some,
            )
        },
        NativeFunction::HMLen => {
            &&& post == pre
            &&& args.len() == 1
            &&& instance(&pre, args) is Some
            &&& v == Value::Number(clamp(pre.store().scope(args[0]->ScopeRef_0).count() as int))
        },
        NativeFunction::HMKeys => {
            let wanted = own_keys(pre.store().scope(args[0]->ScopeRef_0).names());
            &&& post == pre
            &&& args.len() == 1
            &&& instance(&pre, args) is Some
            &&& v is Sequence
            &&& v->Sequence_0@.len() == wanted.len()
            &&& forall|i: int|
                0 <= i < wanted.len() ==> (#[trigger] v->Sequence_0@[i]) is Str
                    && v->Sequence_0@[i]->Str_0@ == wanted[i]
        },
        NativeFunction::HMValues => {
            &&& post == pre
            &&& args.len() == 1
            &&& instance(&pre, args) is Some
            &&& v is Sequence
            &&& v->Sequence_0@ == own_values(
                pre.store().scope(args[0]->ScopeRef_0).bound_values(),
            )
        },
        NativeFunction::HMClear => {
            let h = args[0]->ScopeRef_0;
            &&& args.len() == 1
            &&& instance(&pre, args) is Some
            &&& only_scopes_change(pre, post)
            &&& Vault::rebound(&pre.store(), &post.store(), h)
            &&& forall|n: Seq<char>|
                #[trigger] post.store().scope(h).get(n) == (if is_method_name(n) {
                    pre.store().scope(h).get(n)
                } else {
                    None
                })
            &&& v == Value::Nil
        },
    }
}

/// Whether `c` is an ASCII letter or digit.
pub open spec fn is_alphanumeric(c: char) -> bool {
    ('a' <= c <= 'z') || ('A' <= c <= 'Z') || ('0' <= c <= '9')
}

/// A new map instance: a named scope under some name of sixteen letters and digits, which
/// binds `this` to itself and then what the methods of a map, evaluated in it, declare; the
/// scope that the call is made in owns it.
pub open spec fn map_new_sem<'a>(
    pre: Interpreter<'a>,
    depth: nat,
    post: Interpreter<'a>,
    v: Value,
) -> bool
    decreases depth, 0nat, 0nat,
{
    depth > 0 && exists|
        name: Seq<char>,
        h: Handle,
        started: Interpreter<'a>,
        bound: Interpreter<'a>,
        done: Interpreter<'a>,
    |
        #![trigger given5(name, h, started, bound, done)]
        given5(name, h, started, bound, done) && name.len() == 16 && (forall|i: int|
            0 <= i < 16 ==> is_alphanumeric(#[trigger] name[i])) && starts_declaration(
            pre,
            started,
            h,
            name,
        ) && declares(started, bound, "this"@, Value::ScopeRef(h)) && (exists|
            control: ControlFlow,
        | #[trigger]
            given(control) && block_sem(
                bound,
                pre.library().hashmap.program.body@,
                (depth - 1) as nat,
                done,
                control,
            )) && ends_declaration(done, post, h) && v == Value::ScopeRef(h)
}

/// The first `n` statements of `body` are evaluated in order, and each asks to go on.
pub open spec fn block_prefix_sem<'a>(
    pre: Interpreter<'a>,
    body: Seq<Statement>,
    n: nat,
    depth: nat,
    post: Interpreter<'a>,
) -> bool
    decreases depth, 0nat, n,
{
    if n == 0 {
        post == pre
    } else {
        &&& depth > 0
        &&& n <= body.len()
        &&& exists|mid: Interpreter<'a>| #[trigger]
            given(mid) && block_prefix_sem(pre, body, (n - 1) as nat, depth, mid) && statement_sem(
                mid,
                body[n - 1],
                (depth - 1) as nat,
                post,
                ControlFlow::Normal,
            )
    }
}

/// The statements of `body` are evaluated in order, up to the first that asks for something
/// other than to go on; `control` is what that one asks for.
pub open spec fn block_sem<'a>(
    pre: Interpreter<'a>,
    body: Seq<Statement>,
    depth: nat,
    post: Interpreter<'a>,
    control: ControlFlow,
) -> bool
    decreases depth, 1nat, 0nat,
{
    if body.len() == 0 {
        post == pre && control is Normal
    } else {
        &&& depth > 0
        &&& same_stack(pre, post)
        &&& {
            ||| control is Normal && block_prefix_sem(pre, body, body.len(), depth, post)
            ||| !(control is Normal) && exists|n: nat, mid: Interpreter<'a>|
                #![trigger given2(n, mid)]
                given2(n, mid) && n < body.len() && block_prefix_sem(pre, body, n, depth, mid)
                    && statement_sem(mid, body[n as int], (depth - 1) as nat, post, control)
        }
    }
}

/// Evaluating the statement `s` in `pre`, nested no deeper than `depth`, leaves `post`, and
/// `control` is what the statement asks of the statements around it.
pub open spec fn statement_sem<'a>(
    pre: Interpreter<'a>,
    s: Statement,
    depth: nat,
    post: Interpreter<'a>,
    control: ControlFlow,
) -> bool
    decreases depth, 0nat, 0nat,
{
    depth > 0 && same_stack(pre, post) && match s {
        Statement::ExpressionStatement(e) => control is Normal && exists|v: Value| #[trigger]
            given(v) && expression_sem(pre, e, (depth - 1) as nat, post, v),
        Statement::ReturnStatement(r) => control is Return && expression_sem(
            pre,
            r.argument,
            (depth - 1) as nat,
            post,
            control->Return_0,
        ),
        Statement::ThrowStatement(t) => control is Throw && expression_sem(
            pre,
            t.argument,
            (depth - 1) as nat,
            post,
            control->Throw_0,
        ),
        Statement::ContinueStatement(_) => post == pre && control is Continue,
        Statement::BreakStatement(_) => post == pre && control is Break,
        Statement::YieldStatement(_) => false,
        Statement::VariableDeclaration(d) => control is Normal && (if d.is_formula {
            declares(pre, post, d.id@, Value::Ast(d.init))
        } else {
            exists|mid: Interpreter<'a>, v: Value|
                #![trigger given2(mid, v)]
                given2(mid, v) && expression_sem(pre, *d.init, (depth - 1) as nat, mid, v)
                    && declares(mid, post, d.id@, v)
        }),
        Statement::FunctionDeclaration(f) => control is Normal && declares(
            pre,
            post,
            f.id@,
            Value::Function(f),
        ),
        Statement::ScopeDeclaration(d) => control is Normal && exists|
            started: Interpreter<'a>,
            h: Handle,
            done: Interpreter<'a>,
            inner: ControlFlow,
        |
            #![trigger given4(started, h, done, inner)]
            given4(started, h, done, inner) && starts_declaration(pre, started, h, d.id@)
                && block_sem(started, d.body@, (depth - 1) as nat, done, inner)
                && ends_declaration(done, post, h),
        Statement::ContextDeclaration(d) => control is Normal && exists|
            started: Interpreter<'a>,
            h: Handle,
            bound: Interpreter<'a>,
            done: Interpreter<'a>,
            inner: ControlFlow,
        |
            #![trigger given5(started, h, bound, done, inner)]
            given5(started, h, bound, done, inner) && starts_declaration(pre, started, h, d.id@)
                && declares(started, bound, "this"@, Value::ScopeRef(h)) && block_sem(
                bound,
                d.body@,
                (depth - 1) as nat,
                done,
                inner,
            ) && ends_declaration(done, post, h),
        Statement::IfStatement(i) => if_sem(pre, i, (depth - 1) as nat, post, control),
        Statement::ForStatement(f) => for_sem(pre, *f, (depth - 1) as nat, post, control),
        Statement::WhileStatement(w) => while_sem(pre, w, (depth - 1) as nat, post, control),
        Statement::LoopStatement(l) => loop_sem(pre, l, (depth - 1) as nat, post, control),
        Statement::TryStatement(_) => false,
        Statement::BlockStatement(b) => exists|
            entered: Interpreter<'a>,
            h: Handle,
            done: Interpreter<'a>,
        |
            #![trigger given3(entered, h, done)]
            given3(entered, h, done) && enters_block(pre, entered, h) && block_sem(
                entered,
                b@,
                (depth - 1) as nat,
                done,
                control,
            ) && exits_block(done, post),
        Statement::AssignStatement(a) => control is Normal && assign_sem(
            pre,
            a,
            (depth - 1) as nat,
            post,
        ),
        Statement::ImportStatement(i) => control is Normal && import_sem(
            pre,
            i,
            (depth - 1) as nat,
            post,
        ),
    }
}

/// The branch that the truth of the test selects is evaluated.
pub open spec fn if_sem<'a>(
    pre: Interpreter<'a>,
    i: IfStatement,
    depth: nat,
    post: Interpreter<'a>,
    control: ControlFlow,
) -> bool
    decreases depth, 0nat, 0nat,
{
    depth > 0 && exists|tested: Interpreter<'a>, test: Value|
        #![trigger given2(tested, test)]
        given2(tested, test) && expression_sem(pre, i.test, (depth - 1) as nat, tested, test)
            && block_sem(
            tested,
            if truthy(test) {
                i.consequent@
            } else {
                i.alternate@
            },
            (depth - 1) as nat,
            post,
            control,
        )
}

/// The right side is evaluated, and the variable, in the innermost scope that binds it, gets
/// what the operator makes of its value and that of the right side.
pub open spec fn assign_sem<'a>(
    pre: Interpreter<'a>,
    a: AssignStatement,
    depth: nat,
    post: Interpreter<'a>,
) -> bool
    decreases depth, 0nat, 0nat,
{
    depth > 0 && exists|mid: Interpreter<'a>, right: Value, value: Value|
        #![trigger given3(mid, right, value)]
        given3(mid, right, value) && expression_sem(pre, a.right, (depth - 1) as nat, mid, right)
            && mid.store().resolved(a.left.name@) is Some && assign_outcome(
            a.operator,
            mid.store().resolved(a.left.name@)->Some_0,
            right,
            value,
        ) && binds(mid, post, mid.store().holder(a.left.name@)->Some_0, a.left.name@, value)
}

/// What a round of a loop asks for ends the loop, and `control` is what the loop then asks
/// of the statements around it.
pub open spec fn ends_loop(round: ControlFlow, control: ControlFlow) -> bool {
    match round {
        ControlFlow::Break => control is Normal,
        ControlFlow::Return(_) => control == round,
        ControlFlow::Throw(_) => control == round,
        _ => false,
    }
}

/// `rounds` full rounds of a `while` loop: in each, a round of the budget is spent, the test
/// holds, and the body asks to go on or to continue.
pub open spec fn while_rounds_sem<'a>(
    pre: Interpreter<'a>,
    w: WhileStatement,
    depth: nat,
    rounds: nat,
    post: Interpreter<'a>,
) -> bool
    decreases depth, 2nat, rounds,
{
    if rounds == 0 {
        post == pre
    } else {
        exists|
            before: Interpreter<'a>,
            spent: Interpreter<'a>,
            tested: Interpreter<'a>,
            test: Value,
            round: ControlFlow,
        |
            #![trigger given5(before, spent, tested, test, round)]
            given5(before, spent, tested, test, round) && while_rounds_sem(
                pre,
                w,
                depth,
                (rounds - 1) as nat,
                before,
            ) && spends_step(before, spent) && expression_sem(spent, w.test, depth, tested, test)
                && truthy(test) && block_sem(tested, w.body@, depth, post, round) && (
            round is Normal || round is Continue)
    }
}

/// A block is entered, the body is evaluated in it as long as the test holds, and the block
/// is exited.
pub open spec fn while_sem<'a>(
    pre: Interpreter<'a>,
    w: WhileStatement,
    depth: nat,
    post: Interpreter<'a>,
    control: ControlFlow,
) -> bool
    decreases depth, 0nat, 0nat,
{
    depth > 0 && exists|
        entered: Interpreter<'a>,
        h: Handle,
        rounds: nat,
        before: Interpreter<'a>,
        done: Interpreter<'a>,
    |
        #![trigger given5(entered, h, rounds, before, done)]
        given5(entered, h, rounds, before, done) && enters_block(pre, entered, h)
            && while_rounds_sem(entered, w, (depth - 1) as nat, rounds, before) && exists|
            spent: Interpreter<'a>,
            tested: Interpreter<'a>,
            test: Value,
        |
            #![trigger given3(spent, tested, test)]
            given3(spent, tested, test) && spends_step(before, spent) && expression_sem(
                spent,
                w.test,
                (depth - 1) as nat,
                tested,
                test,
            ) && (if truthy(test) {
                exists|round: ControlFlow| #[trigger]
                    given(round) && block_sem(tested, w.body@, (depth - 1) as nat, done, round)
                        && ends_loop(round, control)
            } else {
                done == tested && control is Normal
            }) && exits_block(done, post)
}

/// `rounds` full rounds of a `loop`: in each, a round of the budget is spent, and the body
/// asks to go on or to continue.
pub open spec fn loop_rounds_sem<'a>(
    pre: Interpreter<'a>,
    l: LoopStatement,
    depth: nat,
    rounds: nat,
    post: Interpreter<'a>,
) -> bool
    decreases depth, 2nat, rounds,
{
    if rounds == 0 {
        post == pre
    } else {
        exists|before: Interpreter<'a>, spent: Interpreter<'a>, round: ControlFlow|
            #![trigger given3(before, spent, round)]
            given3(before, spent, round) && loop_rounds_sem(
                pre,
                l,
                depth,
                (rounds - 1) as nat,
                before,
            ) && spends_step(before, spent) && block_sem(spent, l.body@, depth, post, round) && (
            round is Normal || round is Continue)
    }
}

/// A block is entered, the body is evaluated in it until it asks to stop, and the block is
/// exited.
pub open spec fn loop_sem<'a>(
    pre: Interpreter<'a>,
    l: LoopStatement,
    depth: nat,
    post: Interpreter<'a>,
    control: ControlFlow,
) -> bool
    decreases depth, 0nat, 0nat,
{
    depth > 0 && exists|
        entered: Interpreter<'a>,
        h: Handle,
        rounds: nat,
        before: Interpreter<'a>,
        done: Interpreter<'a>,
    |
        #![trigger given5(entered, h, rounds, before, done)]
        given5(entered, h, rounds, before, done) && enters_block(pre, entered, h)
            && loop_rounds_sem(entered, l, (depth - 1) as nat, rounds, before) && exists|
            spent: Interpreter<'a>,
            round: ControlFlow,
        |
            #![trigger given2(spent, round)]
            given2(spent, round) && spends_step(before, spent) && block_sem(
                spent,
                l.body@,
                (depth - 1) as nat,
                done,
                round,
            ) && ends_loop(round, control) && exits_block(done, post)
}

/// `rounds` full rounds of a `for` loop: in each, a round of the budget is spent, the test
/// holds, the body asks to go on or to continue, and the update is evaluated.
pub open spec fn for_rounds_sem<'a>(
    pre: Interpreter<'a>,
    f: ForStatement,
    depth: nat,
    rounds: nat,
    post: Interpreter<'a>,
) -> bool
    decreases depth, 2nat, rounds,
{
    if rounds == 0 {
        post == pre
    } else {
        exists|
            before: Interpreter<'a>,
            spent: Interpreter<'a>,
            tested: Interpreter<'a>,
            test: Value,
            bodied: Interpreter<'a>,
        |
            #![trigger given5(before, spent, tested, test, bodied)]
            given5(before, spent, tested, test, bodied) && for_rounds_sem(
                pre,
                f,
                depth,
                (rounds - 1) as nat,
                before,
            ) && spends_step(before, spent) && expression_sem(spent, f.test, depth, tested, test)
                && truthy(test) && exists|round: ControlFlow, updated: Value|
                #![trigger given2(round, updated)]
                given2(round, updated) && block_sem(tested, f.body@, depth, bodied, round) && (
                round is Normal || round is Continue) && expression_sem(
                    bodied,
                    f.update,
                    depth,
                    post,
                    updated,
                )
    }
}

/// A block is entered, the declaration is evaluated in it, then the body and the update as
/// long as the test holds, and the block is exited.
pub open spec fn for_sem<'a>(
    pre: Interpreter<'a>,
    f: ForStatement,
    depth: nat,
    post: Interpreter<'a>,
    control: ControlFlow,
) -> bool
    decreases depth, 0nat, 0nat,
{
    depth > 0 && exists|
        entered: Interpreter<'a>,
        h: Handle,
        started: Interpreter<'a>,
        first: ControlFlow,
        rounds: nat,
    |
        #![trigger given5(entered, h, started, first, rounds)]
        given5(entered, h, started, first, rounds) && enters_block(pre, entered, h)
            && statement_sem(entered, f.init, (depth - 1) as nat, started, first) && exists|
            before: Interpreter<'a>,
            spent: Interpreter<'a>,
            tested: Interpreter<'a>,
            test: Value,
            done: Interpreter<'a>,
        |
            #![trigger given5(before, spent, tested, test, done)]
            given5(before, spent, tested, test, done) && for_rounds_sem(
                started,
                f,
                (depth - 1) as nat,
                rounds,
                before,
            ) && spends_step(before, spent) && expression_sem(
                spent,
                f.test,
                (depth - 1) as nat,
                tested,
                test,
            ) && (if truthy(test) {
                exists|round: ControlFlow| #[trigger]
                    given(round) && block_sem(tested, f.body@, (depth - 1) as nat, done, round)
                        && ends_loop(round, control)
            } else {
                done == tested && control is Normal
            }) && exits_block(done, post)
}

/// `post` is `pre` with the file pushed that an import evaluates: its path and its text.
pub open spec fn opens_file<'a>(
    pre: Interpreter<'a>,
    post: Interpreter<'a>,
    path: Seq<char>,
    source: String,
) -> bool {
    &&& post.store() == pre.store()
    &&& post.steps() == pre.steps()
    &&& post.depth_limit() == pre.depth_limit()
    &&& post.printed() == pre.printed()
    &&& post.failed_imports() == pre.failed_imports()
    &&& post.modules() == pre.modules()
    &&& post.library() == pre.library()
    &&& post.program() == pre.program()
    &&& post.paths().len() == pre.paths().len() + 1
    &&& post.paths().drop_last() == pre.paths()
    &&& post.paths().last()@ == path
    &&& post.sources().drop_last() == pre.sources()
    &&& post.sources().last() == source
}

/// `post` is `pre` without the file that was pushed last.
pub open spec fn closes_file<'a>(pre: Interpreter<'a>, post: Interpreter<'a>) -> bool {
    &&& post.store() == pre.store()
    &&& post.steps() == pre.steps()
    &&& post.depth_limit() == pre.depth_limit()
    &&& post.printed() == pre.printed()
    &&& post.failed_imports() == pre.failed_imports()
    &&& post.modules() == pre.modules()
    &&& post.library() == pre.library()
    &&& post.program() == pre.program()
    &&& pre.paths().len() > 0
    &&& pre.sources().len() > 0
    &&& post.paths() == pre.paths().drop_last()
    &&& post.sources() == pre.sources().drop_last()
}

/// `post` is `pre` with one more failed import reported: that of `name`, for the reason
/// `why`, at the place of the import.
pub open spec fn reports_failure<'a>(
    pre: Interpreter<'a>,
    post: Interpreter<'a>,
    i: ImportStatement,
    why: Seq<char>,
) -> bool {
    &&& post.store() == pre.store()
    &&& post.steps() == pre.steps()
    &&& post.depth_limit() == pre.depth_limit()
    &&& post.printed() == pre.printed()
    &&& post.modules() == pre.modules()
    &&& post.library() == pre.library()
    &&& post.program() == pre.program()
    &&& post.paths() == pre.paths()
    &&& post.sources() == pre.sources()
    &&& post.failed_imports().len() == pre.failed_imports().len() + 1
    &&& post.failed_imports().drop_last() == pre.failed_imports()
    &&& post.failed_imports().last().message@ == "Failed to import module: `"@ + i.source.name@
        + "`\n"@ + why
    &&& post.failed_imports().last().start == i.node.start
    &&& post.failed_imports().last().end == i.node.end
    &&& post.failed_imports().last().path@ == pre.paths().last()@
    &&& post.failed_imports().last().source@ == pre.sources().last()@
}

/// The file that the import names is evaluated in a named scope of its own, which binds
/// `__file__`, `__name__` and `__module__`, and which the importing scope then owns under
/// the name that the import gives it. An import whose file was not provided, or could not be
/// read, is reported and does nothing else.
pub open spec fn import_sem<'a>(
    pre: Interpreter<'a>,
    i: ImportStatement,
    depth: nat,
    post: Interpreter<'a>,
) -> bool
    decreases depth, 0nat, 0nat,
{
    let path = path_of_module(pre.paths().last()@, i.source.name@);
    depth > 0 && match module_at(pre, path, 0) {
        Some(Loaded::Parsed { source, ast }) => exists|
            opened: Interpreter<'a>,
            started: Interpreter<'a>,
            h: Handle,
            prepared: Interpreter<'a>,
            done: Interpreter<'a>,
        |
            #![trigger given5(opened, started, h, prepared, done)]
            given5(opened, started, h, prepared, done) && opens_file(pre, opened, path, source)
                && starts_declaration(opened, started, h, i.as_name.name@) && prepares_module(
                started,
                prepared,
                path,
                i.as_name.name,
            ) && exists|control: ControlFlow, ended: Interpreter<'a>|
                #![trigger given2(control, ended)]
                given2(control, ended) && block_sem(
                    prepared,
                    ast.program.body@,
                    (depth - 1) as nat,
                    done,
                    control,
                ) && ends_declaration(done, ended, h) && closes_file(ended, post),
        Some(Loaded::Unreadable(why)) => reports_failure(pre, post, i, why@),
        Some(Loaded::Malformed(_)) => false,
        None => reports_failure(pre, post, i, "the file was not provided"@),
    }
}

/// `post` is `pre` with the names bound that every module sees: `__file__` to its path,
/// `__name__` to the name that the import gives it, and `__module__` to true.
pub open spec fn prepares_module<'a>(
    pre: Interpreter<'a>,
    post: Interpreter<'a>,
    path: Seq<char>,
    name: String,
) -> bool {
    exists|filed: Interpreter<'a>, named: Interpreter<'a>, file: String|
        #![trigger given3(filed, named, file)]
        given3(filed, named, file) && file@ == path && declares(
            pre,
            filed,
            "__file__"@,
            Value::Str(file),
        ) && declares(filed, named, "__name__"@, Value::Str(name)) && declares(
            named,
            post,
            "__module__"@,
            Value::Bool(true),
        )
}

/// Cleanup: a block statement is evaluated in a block of its own, which was never handed
/// out before, and which is gone when the statement has been evaluated.
pub proof fn law_block_statement_cleans_up<'a>(
    pre: Interpreter<'a>,
    s: Statement,
    depth: nat,
    post: Interpreter<'a>,
    control: ControlFlow,
)
    requires
        s is BlockStatement,
        statement_sem(pre, s, depth, post, control),
    ensures
        exists|h: Handle| #[trigger]
            given(h) && !pre.store().issued(h) && !post.store().live(h),
        post.store().frames() == pre.store().frames(),
{
    let (entered, h, done) = choose|
        entered: Interpreter<'a>,
        h: Handle,
        done: Interpreter<'a>,
    |
        #![trigger given3(entered, h, done)]
        given3(entered, h, done) && enters_block(pre, entered, h) && block_sem(
            entered,
            s->BlockStatement_0@,
            (depth - 1) as nat,
            done,
            control,
        ) && exits_block(done, post);
    assert(done.store().frames() == entered.store().frames()) by {
        if s->BlockStatement_0@.len() == 0 {
            assert(done == entered);
        }
    }
    assert(done.store().frames().last().handle == h);
    assert(given(h));
}

/// A property is looked up through a handle only while the scope that it names is alive:
/// where a member expression evaluates, its object has given a live handle or a value that
/// is no handle.
pub proof fn law_member_needs_a_live_scope<'a>(
    pre: Interpreter<'a>,
    m: MemberExpression,
    depth: nat,
    post: Interpreter<'a>,
    v: Value,
)
    requires
        member_sem(pre, m, depth, post, v),
    ensures
        exists|objected: Interpreter<'a>, object: Value|
            #![trigger given2(objected, object)]
            given2(objected, object) && expression_sem(
                pre,
                m.object,
                (depth - 1) as nat,
                objected,
                object,
            ) && (object is ScopeRef ==> objected.store().live(object->ScopeRef_0)),
{
    let (objected, object, targeted, h, entered) = choose|
        objected: Interpreter<'a>,
        object: Value,
        targeted: Interpreter<'a>,
        h: Handle,
        entered: Interpreter<'a>,
    |
        #![trigger given5(objected, object, targeted, h, entered)]
        given5(objected, object, targeted, h, entered) && expression_sem(
            pre,
            m.object,
            (depth - 1) as nat,
            objected,
            object,
        ) && member_target_sem(objected, object, targeted, h) && enters_scope(
            targeted,
            entered,
            h,
        ) && exists|found: Interpreter<'a>| #[trigger]
            given(found) && property_sem(entered, m, (depth - 1) as nat, found, v)
                && leaves_scope(found, post);
    assert(given2(objected, object));
}

/// Truthiness decides an `if`: where the test gives `None`, zero or `false` the alternate
/// is evaluated, and for any other value the consequent.
pub proof fn law_if_goes_by_truthiness<'a>(
    pre: Interpreter<'a>,
    i: IfStatement,
    depth: nat,
    post: Interpreter<'a>,
    control: ControlFlow,
)
    requires
        if_sem(pre, i, depth, post, control),
    ensures
        exists|tested: Interpreter<'a>, test: Value|
            #![trigger given2(tested, test)]
            given2(tested, test) && expression_sem(pre, i.test, (depth - 1) as nat, tested, test)
                && (if test == Value::Nil || test == Value::Number(0) || test == Value::Bool(
                false,
            ) {
                block_sem(tested, i.alternate@, (depth - 1) as nat, post, control)
            } else {
                block_sem(tested, i.consequent@, (depth - 1) as nat, post, control)
            }),
{
    let (tested, test) = choose|tested: Interpreter<'a>, test: Value|
        #![trigger given2(tested, test)]
        given2(tested, test) && expression_sem(pre, i.test, (depth - 1) as nat, tested, test)
            && block_sem(
            tested,
            if truthy(test) {
                i.consequent@
            } else {
                i.alternate@
            },
            (depth - 1) as nat,
            post,
            control,
        );
    assert(given2(tested, test));
}

/// Binding the parameters of a call leaves the scope stack as it is.
pub proof fn lemma_parameters_keep_the_stack<'a>(
    pre: Interpreter<'a>,
    params: Seq<String>,
    args: Seq<Value>,
    n: nat,
    post: Interpreter<'a>,
)
    requires
        binds_parameters(pre, params, args, n, post),
    ensures
        post.store().frames() == pre.store().frames(),
    decreases n,
{
    if n > 0 {
        let mid = choose|mid: Interpreter<'a>| #[trigger]
            given(mid) && binds_parameters(pre, params, args, (n - 1) as nat, mid) && declares(
                mid,
                post,
                params[n - 1]@,
                args[n - 1],
            );
        lemma_parameters_keep_the_stack(pre, params, args, (n - 1) as nat, mid);
    }
}

/// Isolation of activations: a call of a function of the program binds its parameters and
/// evaluates its body in a block that was never handed out before the call, neither to
/// another activation nor to any other scope, and that is gone when the call has returned.
pub proof fn law_call_has_a_block_of_its_own<'a>(
    pre: Interpreter<'a>,
    c: CallExpression,
    depth: nat,
    post: Interpreter<'a>,
    v: Value,
)
    requires
        call_sem(pre, c, depth, post, v),
    ensures
        exists|looked: Interpreter<'a>, callee: Value, argued: Interpreter<'a>, args: Seq<Value>|
            #![trigger given4(looked, callee, argued, args)]
            given4(looked, callee, argued, args) && variable_sem(
                pre,
                c.callee@,
                (depth - 1) as nat,
                looked,
                callee,
            ) && (callee is Function ==> exists|h: Handle| #[trigger]
                given(h) && !argued.store().issued(h) && !post.store().live(h)),
{
    let (looked, callee, argued, args) = choose|
        looked: Interpreter<'a>,
        callee: Value,
        argued: Interpreter<'a>,
        args: Seq<Value>,
    |
        #![trigger given4(looked, callee, argued, args)]
        given4(looked, callee, argued, args) && variable_sem(
            pre,
            c.callee@,
            (depth - 1) as nat,
            looked,
            callee,
        ) && all_sem(
            looked,
            c.arguments->SequenceExpression_0.expressions@,
            c.arguments->SequenceExpression_0.expressions@.len(),
            (depth - 1) as nat,
            argued,
            args,
        ) && match callee {
            Value::NativeFunction(routine) => native_sem(
                argued,
                routine,
                args,
                (depth - 1) as nat,
                post,
                v,
            ),
            Value::Function(f) => f.params@.len() == args.len() && exists|
                entered: Interpreter<'a>,
                h: Handle,
                bound: Interpreter<'a>,
                done: Interpreter<'a>,
                control: ControlFlow,
            |
                #![trigger given5(entered, h, bound, done, control)]
                given5(entered, h, bound, done, control) && enters_block(argued, entered, h)
                    && binds_parameters(entered, f.params@, args, f.params@.len(), bound)
                    && block_sem(bound, f.body@, (depth - 1) as nat, done, control)
                    && exits_block(done, post) && call_outcome(control, v),
            _ => false,
        };
    if callee is Function {
        let f = callee->Function_0;
        let (entered, h, bound, done, control) = choose|
            entered: Interpreter<'a>,
            h: Handle,
            bound: Interpreter<'a>,
            done: Interpreter<'a>,
            control: ControlFlow,
        |
            #![trigger given5(entered, h, bound, done, control)]
            given5(entered, h, bound, done, control) && enters_block(argued, entered, h)
                && binds_parameters(entered, f.params@, args, f.params@.len(), bound)
                && block_sem(bound, f.body@, (depth - 1) as nat, done, control) && exits_block(
                done,
                post,
            ) && call_outcome(control, v);
        lemma_parameters_keep_the_stack(entered, f.params@, args, f.params@.len(), bound);
        assert(done.store().frames() == bound.store().frames()) by {
            if f.body@.len() == 0 {
                assert(done == bound);
            }
        }
        assert(done.store().frames().last().handle == h);
        assert(given(h));
    }
    assert(given4(looked, callee, argued, args));
}

/// Independence of imports: an import whose file was provided evaluates that file in a
/// named scope that was never handed out before, so that two imports of one file, each
/// evaluating it anew, fill two scopes.
pub proof fn law_import_has_a_scope_of_its_own<'a>(
    pre: Interpreter<'a>,
    i: ImportStatement,
    depth: nat,
    post: Interpreter<'a>,
)
    requires
        import_sem(pre, i, depth, post),
        module_at(pre, path_of_module(pre.paths().last()@, i.source.name@), 0) is Some,
        module_at(pre, path_of_module(pre.paths().last()@, i.source.name@), 0)->Some_0 is Parsed,
    ensures
        exists|h: Handle, started: Interpreter<'a>, body: Interpreter<'a>|
            #![trigger given3(h, started, body)]
            given3(h, started, body) && !pre.store().issued(h) && started.store().live(h)
                && started.store().scope(h).count() == 0 && exists|
                done: Interpreter<'a>,
                control: ControlFlow,
            |
                #![trigger given2(done, control)]
                given2(done, control) && block_sem(
                    body,
                    module_at(
                        pre,
                        path_of_module(pre.paths().last()@, i.source.name@),
                        0,
                    )->Some_0->ast.program.body@,
                    (depth - 1) as nat,
                    done,
                    control,
                ),
{
    let path = path_of_module(pre.paths().last()@, i.source.name@);
    let loaded = module_at(pre, path, 0)->Some_0;
    let source = loaded->source;
    let ast = loaded->ast;
    let (opened, started, h, prepared, done) = choose|
        opened: Interpreter<'a>,
        started: Interpreter<'a>,
        h: Handle,
        prepared: Interpreter<'a>,
        done: Interpreter<'a>,
    |
        #![trigger given5(opened, started, h, prepared, done)]
        given5(opened, started, h, prepared, done) && opens_file(pre, opened, path, source)
            && starts_declaration(opened, started, h, i.as_name.name@) && prepares_module(
            started,
            prepared,
            path,
            i.as_name.name,
        ) && exists|control: ControlFlow, ended: Interpreter<'a>|
            #![trigger given2(control, ended)]
            given2(control, ended) && block_sem(
                prepared,
                ast.program.body@,
                (depth - 1) as nat,
                done,
                control,
            ) && ends_declaration(done, ended, h) && closes_file(ended, post);
    let (control, ended) = choose|control: ControlFlow, ended: Interpreter<'a>|
        #![trigger given2(control, ended)]
        given2(control, ended) && block_sem(
            prepared,
            ast.program.body@,
            (depth - 1) as nat,
            done,
            control,
        ) && ends_declaration(done, ended, h) && closes_file(ended, post);
    assert(given2(done, control));
    assert(given3(h, started, prepared));
}

/// Independence of imports: of two imports whose files were provided, the second made in
/// any vault that comes after the first, each evaluates its file in a named scope of its
/// own. The two scopes are distinct records, neither was ever handed out before its import,
/// and what is bound in one of them leaves the other as it was. So it is where both import
/// one file.
pub proof fn law_imports_do_not_share<'a>(
    before: Interpreter<'a>,
    first: ImportStatement,
    first_depth: nat,
    between: Interpreter<'a>,
    later: Interpreter<'a>,
    second: ImportStatement,
    second_depth: nat,
    after: Interpreter<'a>,
)
    requires
        import_sem(before, first, first_depth, between),
        module_at(before, path_of_module(before.paths().last()@, first.source.name@), 0) is Some,
        module_at(
            before,
            path_of_module(before.paths().last()@, first.source.name@),
            0,
        )->Some_0 is Parsed,
        between.store().precedes(&later.store()),
        import_sem(later, second, second_depth, after),
        module_at(later, path_of_module(later.paths().last()@, second.source.name@), 0) is Some,
        module_at(
            later,
            path_of_module(later.paths().last()@, second.source.name@),
            0,
        )->Some_0 is Parsed,
    ensures
        exists|one: Handle, other: Handle|
            #![trigger given2(one, other)]
            given2(one, other) && one != other && !before.store().issued(one)
                && between.store().live(one) && !later.store().issued(other)
                && after.store().live(other) && forall|pre: Vault, post: Vault|
                #![trigger Vault::rebound(&pre, &post, one)]
                Vault::rebound(&pre, &post, one) && pre.live(other) ==> post.live(other)
                    && post.scope(other) == pre.scope(other),
{
    let one = module_scope(before, first, first_depth, between);
    let other = module_scope(later, second, second_depth, after);
    between.store().lemma_no_return(&later.store(), one);
    assert(given2(one, other));
}

/// The scope in which an import whose file was provided evaluates the file: it was never
/// handed out before the import, and it is live after it.
proof fn module_scope<'a>(
    pre: Interpreter<'a>,
    i: ImportStatement,
    depth: nat,
    post: Interpreter<'a>,
) -> (h: Handle)
    requires
        import_sem(pre, i, depth, post),
        module_at(pre, path_of_module(pre.paths().last()@, i.source.name@), 0) is Some,
        module_at(pre, path_of_module(pre.paths().last()@, i.source.name@), 0)->Some_0 is Parsed,
    ensures
        !pre.store().issued(h),
        post.store().live(h),
{
    let path = path_of_module(pre.paths().last()@, i.source.name@);
    let loaded = module_at(pre, path, 0)->Some_0;
    let source = loaded->source;
    let ast = loaded->ast;
    let (opened, started, h, prepared, done) = choose|
        opened: Interpreter<'a>,
        started: Interpreter<'a>,
        h: Handle,
        prepared: Interpreter<'a>,
        done: Interpreter<'a>,
    |
        #![trigger given5(opened, started, h, prepared, done)]
        given5(opened, started, h, prepared, done) && opens_file(pre, opened, path, source)
            && starts_declaration(opened, started, h, i.as_name.name@) && prepares_module(
            started,
            prepared,
            path,
            i.as_name.name,
        ) && exists|control: ControlFlow, ended: Interpreter<'a>|
            #![trigger given2(control, ended)]
            given2(control, ended) && block_sem(
                prepared,
                ast.program.body@,
                (depth - 1) as nat,
                done,
                control,
            ) && ends_declaration(done, ended, h) && closes_file(ended, post);
    h
}

/// Aliasing, as a program sees it: a field that is read through a name gives what the record
/// holds that the handle under that name names, whichever name holds the handle and through
/// whichever copy of it the value was bound. A formula is not given as it is stored: it is
/// evaluated.
pub proof fn law_a_name_reads_the_record<'a>(
    pre: Interpreter<'a>,
    m: MemberExpression,
    depth: nat,
    post: Interpreter<'a>,
    read: Value,
    record: Handle,
    stored: Value,
)
    requires
        member_sem(pre, m, depth, post, read),
        m.object is Identifier,
        m.property is Identifier,
        !m.is_expr,
        pre.store().resolved(m.object->Identifier_0.name@) == Some(Value::ScopeRef(record)),
        pre.store().live(record),
        pre.store().scope(record).get(m.property->Identifier_0.name@) == Some(stored),
        !(stored is Ast),
    ensures
        read == stored,
{
    let (objected, object, targeted, h, entered) = choose|
        objected: Interpreter<'a>,
        object: Value,
        targeted: Interpreter<'a>,
        h: Handle,
        entered: Interpreter<'a>,
    |
        #![trigger given5(objected, object, targeted, h, entered)]
        given5(objected, object, targeted, h, entered) && expression_sem(
            pre,
            m.object,
            (depth - 1) as nat,
            objected,
            object,
        ) && member_target_sem(objected, object, targeted, h) && enters_scope(
            targeted,
            entered,
            h,
        ) && exists|found: Interpreter<'a>| #[trigger]
            given(found) && property_sem(entered, m, (depth - 1) as nat, found, read)
                && leaves_scope(found, post);
    reveal_with_fuel(expression_sem, 2);
    reveal_with_fuel(property_sem, 2);
    assert(objected == pre && object == Value::ScopeRef(record));
    assert(targeted == pre && h == record);
    let name = m.property->Identifier_0.name@;
    let top = entered.store().frames().len() as int;
    assert(entered.store().frames()[top - 1].handle == record);
    assert(entered.store().scope(record) == pre.store().scope(record));
    assert(entered.store().holder(name) == Some(record));
    assert(entered.store().resolved(name) == Some(stored));
}

/// Isolation of activations, for the parameters: they are bound in the block that the call
/// has entered, which was never handed out before, and binding them leaves every record
/// that was live before the call as it was, those of other activations of the function
/// among them.
pub proof fn law_parameters_are_bound_in_the_new_block<'a>(
    argued: Interpreter<'a>,
    entered: Interpreter<'a>,
    h: Handle,
    params: Seq<String>,
    args: Seq<Value>,
    n: nat,
    bound: Interpreter<'a>,
)
    requires
        enters_block(argued, entered, h),
        binds_parameters(entered, params, args, n, bound),
    ensures
        !argued.store().issued(h),
        bound.store().live(h),
        bound.store().current() == Some(h),
        forall|g: Handle| #[trigger]
            argued.store().live(g) ==> g != h && bound.store().live(g) && bound.store().scope(g)
                == argued.store().scope(g),
        n > 0 ==> bound.store().scope(h).get(params[n - 1]@) == Some(args[n - 1]),
    decreases n,
{
    if n > 0 {
        let mid = choose|mid: Interpreter<'a>| #[trigger]
            given(mid) && binds_parameters(entered, params, args, (n - 1) as nat, mid) && declares(
                mid,
                bound,
                params[n - 1]@,
                args[n - 1],
            );
        law_parameters_are_bound_in_the_new_block(
            argued,
            entered,
            h,
            params,
            args,
            (n - 1) as nat,
            mid,
        );
    }
}

/// Isolation of activations, for declarations: `let` binds its name in the innermost scope,
/// and leaves every other record as it was when the value had been evaluated.
pub proof fn law_let_binds_in_the_innermost_scope<'a>(
    pre: Interpreter<'a>,
    d: crate::ast::VariableDeclarator,
    depth: nat,
    post: Interpreter<'a>,
    control: ControlFlow,
)
    requires
        statement_sem(pre, Statement::VariableDeclaration(d), depth, post, control),
    ensures
        exists|mid: Interpreter<'a>, v: Value|
            #![trigger given2(mid, v)]
            given2(mid, v) && (if d.is_formula {
                mid == pre && v == Value::Ast(d.init)
            } else {
                expression_sem(pre, *d.init, (depth - 1) as nat, mid, v)
            }) && mid.store().current() is Some && post.store().scope(
                mid.store().current()->Some_0,
            ).get(d.id@) == Some(v) && forall|g: Handle|
                g != mid.store().current()->Some_0 && #[trigger] mid.store().live(g)
                    ==> post.store().live(g) && post.store().scope(g) == mid.store().scope(g),
{
    if d.is_formula {
        assert(given2(pre, Value::Ast(d.init)));
    } else {
        let (mid, v) = choose|mid: Interpreter<'a>, v: Value|
            #![trigger given2(mid, v)]
            given2(mid, v) && expression_sem(pre, *d.init, (depth - 1) as nat, mid, v)
                && declares(mid, post, d.id@, v);
        assert(given2(mid, v));
    }
}

} // verus!
