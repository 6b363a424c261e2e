use vstd::prelude::*;
use crate::ast::{CallExpression, Node};
use crate::interpreter::Interpreter;
use crate::native::expect_args;
use crate::render::value_text;
use crate::report::Diagnostic;
use crate::value::{NativeFunction, Value};
use crate::vault::Handle;

verus! {

/// The value that the innermost scope holds for the native routine that is called.
pub open spec fn value_at_hand<'a>(interpreter: &Interpreter<'a>) -> Option<Value> {
    match interpreter.store().current() {
        Some(h) => if interpreter.store().live(h) {
            interpreter.store().scope(h).get("$value"@)
        } else {
            None
        },
        None => None,
    }
}

/// The value at hand as a string: a string is itself, any other value is as it is written.
pub fn to_string<'a>(
    interpreter: &mut Interpreter<'a>,
    call_expr: &CallExpression,
    args: &Vec<Value>,
) -> (r: Result<Value, Diagnostic>)
    requires
        old(interpreter).wf(),
    ensures
        r matches Err(d) ==> old(interpreter).speaks_of(d) && d.start == call_expr.node.start
            && d.end == call_expr.node.end,
        *final(interpreter) == *old(interpreter),
        r is Ok <==> args@.len() == 0 && value_at_hand(old(interpreter)) is Some,
        r matches Ok(v) ==> v is Str && v->Str_0@ == value_text(
            value_at_hand(old(interpreter))->Some_0,
        ),
{
    expect_args(0, interpreter, call_expr, args)?;
    let value = interpreter.get_cur_value("$value", call_expr.node)?;
    match value {
        Value::Str(_) => Ok(value),
        other => Ok(Value::Str(other.to_text())),
    }
}

/// Whether the value at hand is an error.
pub fn is_err<'a>(
    interpreter: &mut Interpreter<'a>,
    call_expr: &CallExpression,
    args: &Vec<Value>,
) -> (r: Result<Value, Diagnostic>)
    requires
        old(interpreter).wf(),
    ensures
        r matches Err(d) ==> old(interpreter).speaks_of(d) && d.start == call_expr.node.start
            && d.end == call_expr.node.end,
        *final(interpreter) == *old(interpreter),
        r is Ok <==> args@.len() == 0 && value_at_hand(old(interpreter)) is Some,
        r matches Ok(v) ==> v == Value::Bool(value_at_hand(old(interpreter))->Some_0 is Error),
{
    expect_args(0, interpreter, call_expr, args)?;
    let value = interpreter.get_cur_value("$value", call_expr.node)?;
    match value {
        Value::Error(_) => Ok(Value::Bool(true)),
        _ => Ok(Value::Bool(false)),
    }
}

/// Whether `record` binds the methods that every kind of value has.
pub open spec fn binds_conversions(record: crate::vault::ScopeValue) -> bool {
    &&& record.get("to_string"@) == Some(Value::NativeFunction(NativeFunction::ToString))
    &&& record.get("is_err"@) == Some(Value::NativeFunction(NativeFunction::IsError))
}

/// Binds the methods that every kind of value has in the scope `scope`.
pub fn inject_methods<'a>(interpreter: &mut Interpreter<'a>, scope: Handle) -> (r: Result<
    (),
    Diagnostic,
>)
    requires
        old(interpreter).wf(),
    ensures
        old(interpreter).evaluated(final(interpreter), r),
        r is Ok <==> old(interpreter).store().live(scope),
        r is Ok ==> {
            &&& crate::semantics::only_scopes_change(*old(interpreter), *final(interpreter))
            &&& crate::vault::Vault::rebound(
                &old(interpreter).store(),
                &final(interpreter).store(),
                scope,
            )
            &&& binds_conversions(final(interpreter).store().scope(scope))
        },
{
    let node = Node::new(0, 0);
    interpreter.set_in_scope(
        scope,
        "to_string".to_owned(),
        Value::NativeFunction(NativeFunction::ToString),
        node,
    )?;
    let ghost mid = *interpreter;
    interpreter.set_in_scope(
        scope,
        "is_err".to_owned(),
        Value::NativeFunction(NativeFunction::IsError),
        node,
    )?;
    proof {
        crate::vault::Vault::lemma_rebound_twice(
            &old(interpreter).store(),
            &mid.store(),
            &interpreter.store(),
            scope,
        );
    }
    proof {
        reveal_strlit("to_string");
        reveal_strlit("is_err");
        assert("to_string"@ != "is_err"@) by {
            assert("to_string"@.len() == 9);
            assert("is_err"@.len() == 6);
        }
    }
    Ok(())
}

} // verus!
