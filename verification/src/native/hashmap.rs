use vstd::prelude::*;
use std::rc::Rc;
use rand::distributions::Alphanumeric;
use rand::Rng;
use crate::ast::{CallExpression, Node};
use crate::interpreter::Interpreter;
use crate::native::expect_args;
use crate::semantics::{binds, given, given2, given4, given5, unbinds};
use crate::render::value_text;
use crate::report::Diagnostic;
use crate::text::{push_char, same_text};
use crate::value::{share, NativeFunction, Value};
use crate::vault::{Handle, ScopeValue, Vault};

verus! {

/// Whether `name` is one of the names that every map instance binds for its own use: `this`
/// and its methods.
pub open spec fn is_method_name(name: Seq<char>) -> bool {
    name == "this"@ || name == "set"@ || name == "get"@ || name == "del"@ || name == "has"@
        || name == "len"@ || name == "keys"@ || name == "values"@ || name == "clear"@
}

/// Whether `name` is one of the names that every map instance binds for its own use.
fn method_name(name: &str) -> (b: bool)
    ensures
        b == is_method_name(name@),
{
    same_text(name, "this") || same_text(name, "set") || same_text(name, "get") || same_text(
        name,
        "del",
    ) || same_text(name, "has") || same_text(name, "len") || same_text(name, "keys")
        || same_text(name, "values") || same_text(name, "clear")
}

/// The names of `names` that are no method names, in order.
pub open spec fn own_keys(names: Seq<Seq<char>>) -> Seq<Seq<char>>
    decreases names.len(),
{
    if names.len() == 0 {
        Seq::empty()
    } else if is_method_name(names.last()) {
        own_keys(names.drop_last())
    } else {
        own_keys(names.drop_last()).push(names.last())
    }
}

/// The values of `values` that are neither functions nor handles, in order.
pub open spec fn own_values(values: Seq<Value>) -> Seq<Value>
    decreases values.len(),
{
    if values.len() == 0 {
        Seq::empty()
    } else if values.last() is Function || values.last() is ScopeRef {
        own_values(values.drop_last())
    } else {
        own_values(values.drop_last()).push(values.last())
    }
}

/// The map instance that a native routine works on: the live scope that its first argument
/// names.
pub open spec fn instance<'a>(interpreter: &Interpreter<'a>, args: Seq<Value>) -> Option<Handle> {
    if args.len() > 0 && args[0] is ScopeRef && interpreter.store().live(args[0]->ScopeRef_0) {
        Some(args[0]->ScopeRef_0)
    } else {
        None
    }
}

/// The scope that a handle value names; any other value is an error.
fn match_scope<'a>(scope_ref: &Value, interpreter: &Interpreter<'a>, call_expr: &CallExpression) -> (r:
    Result<Handle, Diagnostic>)
    requires
        interpreter.wf(),
    ensures
        match r {
            Ok(h) => *scope_ref == Value::ScopeRef(h),
            Err(d) => !(scope_ref is ScopeRef) && crate::interpreter::reported(
                *interpreter,
                d,
                value_text(*scope_ref) + " is not a scope reference"@,
                call_expr.node,
            ),
        },
{
    match scope_ref {
        Value::ScopeRef(h) => Ok(*h),
        got => {
            let mut message = got.to_text();
            message.append(" is not a scope reference");
            Err(interpreter.report(message, call_expr.node.start, call_expr.node.end))
        },
    }
}

/// The live scope that the first of `amount` arguments names.
fn target<'a>(
    amount: usize,
    interpreter: &Interpreter<'a>,
    call_expr: &CallExpression,
    args: &Vec<Value>,
) -> (r: Result<Handle, Diagnostic>)
    requires
        interpreter.wf(),
        amount > 0,
    ensures
        r is Ok <==> args@.len() == amount && instance(interpreter, args@) is Some,
        r matches Ok(h) ==> instance(interpreter, args@) == Some(h),
        r matches Err(d) ==> crate::interpreter::reported(
            *interpreter,
            d,
            if args@.len() != amount {
                "Wrong number of arguments (expected "@ + crate::text::digits(amount as nat) + ")"@
            } else if !(args@[0] is ScopeRef) {
                value_text(args@[0]) + " is not a scope reference"@
            } else {
                crate::interpreter::refusal_text(crate::vault::VaultError::StaleHandle)
            },
            call_expr.node,
        ),
{
    expect_args(amount, interpreter, call_expr, args)?;
    let h = match_scope(&args[0], interpreter, call_expr)?;
    if !interpreter.vault().is_live(h) {
        return Err(
            interpreter.report(
                "The scope is no longer alive".to_owned(),
                call_expr.node.start,
                call_expr.node.end,
            ),
        );
    }
    Ok(h)
}

/// `set[map, key, value]`: binds the key, as it is written, to the value.
pub fn set<'a>(interpreter: &mut Interpreter<'a>, call_expr: &CallExpression, args: &Vec<Value>) -> (r:
    Result<(), Diagnostic>)
    requires
        old(interpreter).wf(),
    ensures
        old(interpreter).evaluated(final(interpreter), r),
        r is Ok <==> args@.len() == 3 && instance(old(interpreter), args@) is Some,
        r is Ok ==> {
            let h = args@[0]->ScopeRef_0;
            let key = value_text(args@[1]);
            &&& Vault::rebound(&old(interpreter).store(), &final(interpreter).store(), h)
            &&& final(interpreter).store().scope(h).get(key) == Some(args@[2])
            &&& forall|n: Seq<char>|
                n != key ==> #[trigger] final(interpreter).store().scope(h).get(n) == old(
                    interpreter,
                ).store().scope(h).get(n)
        },
        r is Err ==> *final(interpreter) == *old(interpreter),
        r is Ok ==> binds(
            *old(interpreter),
            *final(interpreter),
            args@[0]->ScopeRef_0,
            value_text(args@[1]),
            args@[2],
        ),
{
    let h = target(3, interpreter, call_expr, args)?;
    let key = args[1].to_text();
    let value = args[2].duplicate();
    interpreter.set_in_scope(h, key, value, call_expr.node)
}

/// `del[map, key]`: removes the binding of the key.
pub fn del<'a>(interpreter: &mut Interpreter<'a>, call_expr: &CallExpression, args: &Vec<Value>) -> (r:
    Result<(), Diagnostic>)
    requires
        old(interpreter).wf(),
    ensures
        old(interpreter).evaluated(final(interpreter), r),
        r is Ok <==> args@.len() == 2 && instance(old(interpreter), args@) is Some,
        r is Ok ==> {
            let h = args@[0]->ScopeRef_0;
            let key = value_text(args@[1]);
            &&& Vault::rebound(&old(interpreter).store(), &final(interpreter).store(), h)
            &&& forall|n: Seq<char>|
                #[trigger] final(interpreter).store().scope(h).get(n) == (if n == key {
                    None
                } else {
                    old(interpreter).store().scope(h).get(n)
                })
        },
        r is Err ==> *final(interpreter) == *old(interpreter),
        r is Ok ==> unbinds(
            *old(interpreter),
            *final(interpreter),
            args@[0]->ScopeRef_0,
            value_text(args@[1]),
        ),
{
    let h = target(2, interpreter, call_expr, args)?;
    let key = args[1].to_text();
    interpreter.remove_in_scope(h, &key, call_expr.node)
}

/// `has[map, key]`: whether the key is bound.
pub fn has<'a>(interpreter: &mut Interpreter<'a>, call_expr: &CallExpression, args: &Vec<Value>) -> (r:
    Result<Value, Diagnostic>)
    requires
        old(interpreter).wf(),
    ensures
        r matches Err(d) ==> old(interpreter).speaks_of(d) && d.start == call_expr.node.start
            && d.end == call_expr.node.end,
        *final(interpreter) == *old(interpreter),
        r is Ok <==> args@.len() == 2 && instance(old(interpreter), args@) is Some,
        r matches Ok(v) ==> v == Value::Bool(
            old(interpreter).store().scope(args@[0]->ScopeRef_0).get(value_text(args@[1])) is Some,
        ),
{
    let h = target(2, interpreter, call_expr, args)?;
    let key = args[1].to_text();
    match interpreter.vault().get_in(h, &key) {
        Ok(Some(_)) => Ok(Value::Bool(true)),
        _ => Ok(Value::Bool(false)),
    }
}

/// `len[map]`: the number of bindings of the instance, those for its own use included.
pub fn len<'a>(interpreter: &mut Interpreter<'a>, call_expr: &CallExpression, args: &Vec<Value>) -> (r:
    Result<Value, Diagnostic>)
    requires
        old(interpreter).wf(),
    ensures
        r matches Err(d) ==> old(interpreter).speaks_of(d) && d.start == call_expr.node.start
            && d.end == call_expr.node.end,
        *final(interpreter) == *old(interpreter),
        r is Ok <==> args@.len() == 1 && instance(old(interpreter), args@) is Some,
        r matches Ok(v) ==> v == Value::Number(
            crate::value::clamp(old(interpreter).store().scope(args@[0]->ScopeRef_0).count() as int),
        ),
{
    let h = target(1, interpreter, call_expr, args)?;
    match interpreter.vault().record(h) {
        Some(rec) => {
            let n = rec.len();
            if n as u64 > i64::MAX as u64 {
                Ok(Value::Number(i64::MAX))
            } else {
                Ok(Value::Number(n as i64))
            }
        },
        None => Ok(Value::Number(0)),
    }
}

/// `keys[map]`: the keys, as strings, oldest binding first.
pub fn keys<'a>(interpreter: &mut Interpreter<'a>, call_expr: &CallExpression, args: &Vec<Value>) -> (r:
    Result<Value, Diagnostic>)
    requires
        old(interpreter).wf(),
    ensures
        r matches Err(d) ==> old(interpreter).speaks_of(d) && d.start == call_expr.node.start
            && d.end == call_expr.node.end,
        *final(interpreter) == *old(interpreter),
        r is Ok <==> args@.len() == 1 && instance(old(interpreter), args@) is Some,
        r matches Ok(v) ==> {
            let wanted = own_keys(old(interpreter).store().scope(args@[0]->ScopeRef_0).names());
            &&& v is Sequence
            &&& v->Sequence_0@.len() == wanted.len()
            &&& forall|i: int|
                0 <= i < wanted.len() ==> (#[trigger] v->Sequence_0@[i]) is Str
                    && v->Sequence_0@[i]->Str_0@ == wanted[i]
        },
{
    let h = target(1, interpreter, call_expr, args)?;
    let mut found: Vec<Value> = Vec::new();
    match interpreter.vault().record(h) {
        Some(rec) => {
            proof {
                rec.lemma_names();
            }
            let ghost names = rec.names();
            let n = rec.len();
            let mut i: usize = 0;
            proof {
                assert(names.take(0).len() == 0);
            }
            while i < n
                invariant
                    i <= n,
                    n == rec.count(),
                    names == rec.names(),
                    names.len() == n,
                    found@.len() == own_keys(names.take(i as int)).len(),
                    forall|j: int|
                        0 <= j < found@.len() ==> (#[trigger] found@[j]) is Str
                            && found@[j]->Str_0@ == own_keys(names.take(i as int))[j],
                decreases n - i,
            {
                let entry = rec.entry(i);
                proof {
                    assert(names.take(i as int + 1).drop_last() == names.take(i as int));
                    assert(names.take(i as int + 1).last() == entry.name@);
                }
                if !method_name(entry.name.as_str()) {
                    found.push(Value::Str(entry.name.clone()));
                }
                i += 1;
            }
            proof {
                assert(names.take(n as int) == names);
            }
        },
        None => {},
    }
    Ok(Value::Sequence(Rc::new(found)))
}

/// `values[map]`: the values that are neither functions nor handles, oldest binding first.
pub fn values<'a>(
    interpreter: &mut Interpreter<'a>,
    call_expr: &CallExpression,
    args: &Vec<Value>,
) -> (r: Result<Value, Diagnostic>)
    requires
        old(interpreter).wf(),
    ensures
        r matches Err(d) ==> old(interpreter).speaks_of(d) && d.start == call_expr.node.start
            && d.end == call_expr.node.end,
        *final(interpreter) == *old(interpreter),
        r is Ok <==> args@.len() == 1 && instance(old(interpreter), args@) is Some,
        r matches Ok(v) ==> {
            let wanted = own_values(
                old(interpreter).store().scope(args@[0]->ScopeRef_0).bound_values(),
            );
            &&& v is Sequence
            &&& v->Sequence_0@.len() == wanted.len()
            &&& v->Sequence_0@ == wanted
        },
{
    let h = target(1, interpreter, call_expr, args)?;
    let mut found: Vec<Value> = Vec::new();
    match interpreter.vault().record(h) {
        Some(rec) => {
            proof {
                rec.lemma_names();
            }
            let ghost all = rec.bound_values();
            let n = rec.len();
            let mut i: usize = 0;
            proof {
                assert(all.take(0).len() == 0);
            }
            while i < n
                invariant
                    i <= n,
                    n == rec.count(),
                    all == rec.bound_values(),
                    all.len() == n,
                    found@ == own_values(all.take(i as int)),
                decreases n - i,
            {
                let entry = rec.entry(i);
                proof {
                    assert(all.take(i as int + 1).drop_last() == all.take(i as int));
                    assert(all.take(i as int + 1).last() == entry.value);
                }
                match &entry.value {
                    Value::Function(_) | Value::ScopeRef(_) => {},
                    other => {
                        found.push(other.duplicate());
                    },
                }
                i += 1;
            }
            proof {
                assert(all.take(n as int) == all);
            }
        },
        None => {},
    }
    Ok(Value::Sequence(Rc::new(found)))
}

/// `clear[map]`: removes every binding but those that the instance has for its own use.
pub fn clear<'a>(
    interpreter: &mut Interpreter<'a>,
    call_expr: &CallExpression,
    args: &Vec<Value>,
) -> (r: Result<(), Diagnostic>)
    requires
        old(interpreter).wf(),
    ensures
        old(interpreter).evaluated(final(interpreter), r),
        r is Ok <==> args@.len() == 1 && instance(old(interpreter), args@) is Some,
        r is Ok ==> {
            let h = args@[0]->ScopeRef_0;
            &&& Vault::rebound(&old(interpreter).store(), &final(interpreter).store(), h)
            &&& forall|n: Seq<char>|
                #[trigger] final(interpreter).store().scope(h).get(n) == (if is_method_name(n) {
                    old(interpreter).store().scope(h).get(n)
                } else {
                    None
                })
        },
        r is Err ==> *final(interpreter) == *old(interpreter),
        r is Ok ==> crate::semantics::only_scopes_change(*old(interpreter), *final(interpreter)),
{
    let h = target(1, interpreter, call_expr, args)?;
    let mut doomed: Vec<String> = Vec::new();
    match interpreter.vault().record(h) {
        Some(rec) => {
            proof {
                rec.lemma_names();
            }
            let n = rec.len();
            let mut i: usize = 0;
            while i < n
                invariant
                    i <= n,
                    n == rec.count(),
                    rec.names().len() == n,
                    forall|j: int| 0 <= j < doomed@.len() ==> !is_method_name(#[trigger] doomed@[j]@),
                    forall|k: int|
                        0 <= k < i && !is_method_name(rec.names()[k]) ==> exists|j: int|
                            0 <= j < doomed@.len() && #[trigger] doomed@[j]@ == rec.names()[k],
                decreases n - i,
            {
                let entry = rec.entry(i);
                let ghost before = doomed@;
                if !method_name(entry.name.as_str()) {
                    doomed.push(entry.name.clone());
                    proof {
                        let last = doomed@.len() - 1;
                        assert(doomed@[last]@ == rec.names()[i as int]);
                        assert forall|k: int|
                            0 <= k < i + 1 && !is_method_name(rec.names()[k]) implies exists|j: int|
                            0 <= j < doomed@.len() && #[trigger] doomed@[j]@ == rec.names()[k] by {
                            if k < i {
                                let j = choose|j: int|
                                    0 <= j < before.len() && #[trigger] before[j]@ == rec.names()[k];
                                assert(doomed@[j] == before[j]);
                                assert(doomed@[j]@ == rec.names()[k]);
                            } else {
                                assert(doomed@[last]@ == rec.names()[k]);
                            }
                        }
                        assert forall|j: int| 0 <= j < doomed@.len() implies !is_method_name(
                            #[trigger] doomed@[j]@,
                        ) by {
                            if j < last {
                                assert(doomed@[j] == before[j]);
                            }
                        }
                    }
                }
                i += 1;
            }
        },
        None => {},
    }
    proof {
        let rec = old(interpreter).store().scope(h);
        rec.lemma_names();
        assert forall|n: Seq<char>| rec.get(n) is Some && !is_method_name(n) implies exists|
            j: int,
        | 0 <= j < doomed@.len() && #[trigger] doomed@[j]@ == n by {
            rec.lemma_get(n);
            assert(rec.names().contains(n));
            let k = choose|k: int| 0 <= k < rec.names().len() && rec.names()[k] == n;
            assert(!is_method_name(rec.names()[k]));
        }
    }
    let mut j: usize = 0;
    while j < doomed.len()
        invariant
            j <= doomed@.len(),
            old(interpreter).settled(interpreter),
            old(interpreter).store().live(h),
            crate::semantics::only_scopes_change(*old(interpreter), *interpreter),
            Vault::rebound(&old(interpreter).store(), &interpreter.store(), h),
            forall|k: int| 0 <= k < doomed@.len() ==> !is_method_name(#[trigger] doomed@[k]@),
            forall|n: Seq<char>|
                #[trigger] interpreter.store().scope(h).get(n) == (if exists|k: int|
                    0 <= k < j && #[trigger] doomed@[k]@ == n {
                    None
                } else {
                    old(interpreter).store().scope(h).get(n)
                }),
        decreases doomed@.len() - j,
    {
        let ghost entry = *interpreter;
        let done = interpreter.remove_in_scope(h, &doomed[j], call_expr.node);
        proof {
            assert(entry.store().live(h));
            assert(done is Ok);
            assert(Vault::rebound(&old(interpreter).store(), &interpreter.store(), h)) by {
                assert forall|g: Handle| #[trigger]
                    interpreter.store().live(g) == old(interpreter).store().live(g) by {
                    assert(interpreter.store().live(g) == entry.store().live(g));
                }
                assert forall|g: Handle|
                    g != h && #[trigger] old(interpreter).store().live(g) implies interpreter.store().scope(
                    g,
                ) == old(interpreter).store().scope(g) by {
                    assert(entry.store().live(g));
                }
            }
            assert forall|n: Seq<char>|
                #[trigger] interpreter.store().scope(h).get(n) == (if exists|k: int|
                    0 <= k < j + 1 && #[trigger] doomed@[k]@ == n {
                    None
                } else {
                    old(interpreter).store().scope(h).get(n)
                }) by {
                if n == doomed@[j as int]@ {
                    assert(exists|k: int| 0 <= k < j + 1 && #[trigger] doomed@[k]@ == n);
                } else {
                    assert(interpreter.store().scope(h).get(n) == entry.store().scope(h).get(n));
                    if exists|k: int| 0 <= k < j + 1 && #[trigger] doomed@[k]@ == n {
                        let k = choose|k: int| 0 <= k < j + 1 && #[trigger] doomed@[k]@ == n;
                        assert(k < j);
                    }
                }
            }
        }
        j += 1;
    }
    proof {
        assert forall|n: Seq<char>|
            #[trigger] interpreter.store().scope(h).get(n) == (if is_method_name(n) {
                old(interpreter).store().scope(h).get(n)
            } else {
                None
            }) by {
            if exists|k: int| 0 <= k < doomed@.len() && #[trigger] doomed@[k]@ == n {
                let k = choose|k: int| 0 <= k < doomed@.len() && #[trigger] doomed@[k]@ == n;
                assert(!is_method_name(doomed@[k]@));
            }
        }
    }
    Ok(())
}

/// `get[map, key]`: the value bound to the key, or `None` where the key is not bound.
pub fn get<'a>(interpreter: &mut Interpreter<'a>, call_expr: &CallExpression, args: &Vec<Value>) -> (r:
    Result<Value, Diagnostic>)
    requires
        old(interpreter).wf(),
    ensures
        r matches Err(d) ==> old(interpreter).speaks_of(d) && d.start == call_expr.node.start
            && d.end == call_expr.node.end,
        *final(interpreter) == *old(interpreter),
        r is Ok <==> args@.len() == 2 && instance(old(interpreter), args@) is Some,
        r matches Ok(v) ==> match old(interpreter).store().scope(args@[0]->ScopeRef_0).get(
            value_text(args@[1]),
        ) {
            Some(stored) => v == stored,
            None => v == Value::Nil,
        },
{
    let h = target(2, interpreter, call_expr, args)?;
    let key = args[1].to_text();
    match interpreter.vault().get_in(h, &key) {
        Ok(Some(v)) => Ok(v.duplicate()),
        _ => Ok(Value::Nil),
    }
}

/// `rand::Rng::sample` with `rand::distributions::Alphanumeric` on the generator of the
/// thread: one character, drawn at random, that is an ASCII letter or digit.
#[verifier::external_body]
fn random_alphanumeric() -> (c: char)
    ensures
        ('a' <= c <= 'z') || ('A' <= c <= 'Z') || ('0' <= c <= '9'),
{
    char::from(rand::thread_rng().sample(Alphanumeric))
}

/// A name for a scope that has none in the program: sixteen letters and digits drawn at
/// random.
pub fn gen_id() -> (id: String)
    ensures
        id@.len() == 16,
        forall|i: int|
            0 <= i < 16 ==> ('a' <= #[trigger] id@[i] <= 'z') || ('A' <= id@[i] <= 'Z') || ('0'
                <= id@[i] <= '9'),
{
    let mut id = String::new();
    let mut n: usize = 0;
    while n < 16
        invariant
            n <= 16,
            id@.len() == n,
            forall|i: int|
                0 <= i < n ==> ('a' <= #[trigger] id@[i] <= 'z') || ('A' <= id@[i] <= 'Z') || ('0'
                    <= id@[i] <= '9'),
        decreases 16 - n,
    {
        push_char(&mut id, random_alphanumeric());
        n += 1;
    }
    id
}

/// `new[]`: a new map instance. It is a named scope under a name drawn at random, owned by
/// the scope that the call is made in; it binds `this` to itself, and its methods.
pub fn new<'a>(
    interpreter: &mut Interpreter<'a>,
    call_expr: &CallExpression,
    args: &Vec<Value>,
    depth: usize,
) -> (r: Result<Value, Diagnostic>)
    requires
        old(interpreter).wf(),
    ensures
        old(interpreter).evaluated(final(interpreter), r),
        r is Ok ==> args@.len() == 0,
        r is Err ==> args@.len() != 0 || crate::failure::map_new_fails(
            *old(interpreter),
            depth as nat,
        ),
        r matches Ok(v) ==> v is ScopeRef && final(interpreter).store().live(v->ScopeRef_0)
            && !old(interpreter).store().issued(v->ScopeRef_0),
        r matches Ok(v) ==> crate::semantics::map_new_sem(
            *old(interpreter),
            depth as nat,
            *final(interpreter),
            v,
        ),
    decreases depth, 0nat,
{
    expect_args(0, interpreter, call_expr, args)?;
    if depth == 0 {
        return Err(interpreter.too_deep(call_expr.node));
    }
    let name = gen_id();
    let scope = interpreter.start_declaration_of_named_scope(name.as_str());
    let ghost started = *interpreter;
    interpreter.declare_variable("this", Value::ScopeRef(scope), call_expr.node)?;
    let ghost bound = *interpreter;
    let methods = share(&interpreter.std_lang.hashmap);
    proof {
        assert(given4(name@, scope, started, bound));
    }
    let control = interpreter.eval_block(&methods.program.body, depth - 1)?;
    let ghost done = *interpreter;
    proof {
        assert(given2(done, control));
    }
    let ended = interpreter.end_declaration_of_named_scope(call_expr.node)?;
    proof {
        assert(ended == scope);
        assert(given(control));
        assert(given5(name@, scope, started, bound, done));
    }
    Ok(Value::ScopeRef(scope))
}

/// Whether `record` binds the routines of maps.
pub open spec fn binds_map_routines(record: ScopeValue) -> bool {
    &&& record.get("set"@) == Some(Value::NativeFunction(NativeFunction::HMSet))
    &&& record.get("new"@) == Some(Value::NativeFunction(NativeFunction::HMNew))
    &&& record.get("get"@) == Some(Value::NativeFunction(NativeFunction::HMGet))
    &&& record.get("del"@) == Some(Value::NativeFunction(NativeFunction::HMDelete))
    &&& record.get("has"@) == Some(Value::NativeFunction(NativeFunction::HMHas))
    &&& record.get("len"@) == Some(Value::NativeFunction(NativeFunction::HMLen))
    &&& record.get("keys"@) == Some(Value::NativeFunction(NativeFunction::HMKeys))
    &&& record.get("values"@) == Some(Value::NativeFunction(NativeFunction::HMValues))
    &&& record.get("clear"@) == Some(Value::NativeFunction(NativeFunction::HMClear))
}

/// Binds the routines of maps in the scope `scope`.
#[verifier::rlimit(40)]
pub fn inject<'a>(interpreter: &mut Interpreter<'a>, scope: Handle) -> (r: Result<(), Diagnostic>)
    requires
        old(interpreter).wf(),
    ensures
        old(interpreter).evaluated(final(interpreter), r),
        r is Ok <==> old(interpreter).store().live(scope),
        r is Ok ==> {
            &&& crate::semantics::only_scopes_change(*old(interpreter), *final(interpreter))
            &&& Vault::rebound(&old(interpreter).store(), &final(interpreter).store(), scope)
            &&& binds_map_routines(final(interpreter).store().scope(scope))
        },
{
    proof {
        reveal_strlit("set");
        reveal_strlit("new");
        reveal_strlit("get");
        reveal_strlit("del");
        reveal_strlit("has");
        reveal_strlit("len");
        reveal_strlit("keys");
        reveal_strlit("values");
        reveal_strlit("clear");
        assert("set"@[0] == 's' && "new"@[0] == 'n' && "get"@[0] == 'g' && "del"@[0] == 'd'
            && "has"@[0] == 'h' && "len"@[0] == 'l' && "keys"@[0] == 'k' && "values"@[0] == 'v'
            && "clear"@[0] == 'c');
    }
    bind_native(interpreter, scope, "set", NativeFunction::HMSet)?;
    let ghost s1 = *interpreter;
    bind_native(interpreter, scope, "new", NativeFunction::HMNew)?;
    let ghost s2 = *interpreter;
    proof {
        Vault::lemma_rebound_twice(&old(interpreter).store(), &s1.store(), &s2.store(), scope);
    }
    bind_native(interpreter, scope, "get", NativeFunction::HMGet)?;
    let ghost s3 = *interpreter;
    proof {
        Vault::lemma_rebound_twice(&old(interpreter).store(), &s2.store(), &s3.store(), scope);
    }
    bind_native(interpreter, scope, "del", NativeFunction::HMDelete)?;
    let ghost s4 = *interpreter;
    proof {
        Vault::lemma_rebound_twice(&old(interpreter).store(), &s3.store(), &s4.store(), scope);
    }
    bind_native(interpreter, scope, "has", NativeFunction::HMHas)?;
    let ghost s5 = *interpreter;
    proof {
        Vault::lemma_rebound_twice(&old(interpreter).store(), &s4.store(), &s5.store(), scope);
    }
    bind_native(interpreter, scope, "len", NativeFunction::HMLen)?;
    let ghost s6 = *interpreter;
    proof {
        Vault::lemma_rebound_twice(&old(interpreter).store(), &s5.store(), &s6.store(), scope);
    }
    bind_native(interpreter, scope, "keys", NativeFunction::HMKeys)?;
    let ghost s7 = *interpreter;
    proof {
        Vault::lemma_rebound_twice(&old(interpreter).store(), &s6.store(), &s7.store(), scope);
    }
    bind_native(interpreter, scope, "values", NativeFunction::HMValues)?;
    let ghost s8 = *interpreter;
    proof {
        Vault::lemma_rebound_twice(&old(interpreter).store(), &s7.store(), &s8.store(), scope);
    }
    bind_native(interpreter, scope, "clear", NativeFunction::HMClear)?;
    let ghost s9 = *interpreter;
    proof {
        Vault::lemma_rebound_twice(&old(interpreter).store(), &s8.store(), &s9.store(), scope);
    }
    Ok(())
}

/// Binds `name` to the native routine `routine` in the scope `scope`.
fn bind_native<'a>(
    interpreter: &mut Interpreter<'a>,
    scope: Handle,
    name: &str,
    routine: NativeFunction,
) -> (r: Result<(), Diagnostic>)
    requires
        old(interpreter).wf(),
    ensures
        old(interpreter).evaluated(final(interpreter), r),
        r is Ok <==> old(interpreter).store().live(scope),
        r is Ok ==> binds(
            *old(interpreter),
            *final(interpreter),
            scope,
            name@,
            Value::NativeFunction(routine),
        ),
{
    interpreter.set_in_scope(
        scope,
        name.to_owned(),
        Value::NativeFunction(routine),
        Node::new(0, 0),
    )
}

} // verus!
