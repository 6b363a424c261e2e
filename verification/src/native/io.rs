use vstd::prelude::*;
use crate::ast::Node;
use crate::interpreter::{tone_of, Interpreter, Printed, Tone};
use crate::render::value_text;
use crate::report::Diagnostic;
use crate::value::{NativeFunction, Value};
use crate::vault::Handle;

verus! {

/// `pieces` is what printing `values` puts out: each value as it is written, in the tone of
/// its kind, with a blank behind it.
pub open spec fn shows(pieces: Seq<Printed>, values: Seq<Value>) -> bool {
    &&& pieces.len() == 2 * values.len()
    &&& forall|i: int|
        0 <= i < values.len() ==> {
            &&& (#[trigger] pieces[2 * i]).text@ == value_text(values[i])
            &&& pieces[2 * i].tone == tone_of(values[i])
            &&& pieces[2 * i + 1].text@ == " "@
            &&& pieces[2 * i + 1].tone == Tone::Plain
        }
}

/// Prints the values, and ends the line.
pub fn println<'a>(interpreter: &mut Interpreter<'a>, s: &Vec<Value>)
    requires
        old(interpreter).wf(),
    ensures
        old(interpreter).settled(final(interpreter)),
        final(interpreter).store() == old(interpreter).store(),
        final(interpreter).steps() == old(interpreter).steps(),
        final(interpreter).failed_imports() == old(interpreter).failed_imports(),
        final(interpreter).printed().len() == old(interpreter).printed().len() + 2 * s@.len() + 1,
        shows(
            final(interpreter).printed().subrange(
                old(interpreter).printed().len() as int,
                final(interpreter).printed().len() - 1,
            ),
            s@,
        ),
        final(interpreter).printed().last().text@ == "\n"@,
        final(interpreter).printed().last().tone == Tone::Plain,
        crate::semantics::prints(*old(interpreter), *final(interpreter), s@, true),
{
    print(interpreter, s);
    let ghost shown = interpreter.printed();
    interpreter.emit("\n".to_owned(), Tone::Plain);
    proof {
        let start = old(interpreter).printed().len() as int;
        let mid = start + 2 * s@.len();
        assert(interpreter.printed().subrange(start, mid) =~= shown.subrange(start, mid));
        assert(interpreter.printed().take(start) =~= old(interpreter).printed());
    }
}

/// Prints the values: each as it is written, with a blank behind it.
pub fn print<'a>(interpreter: &mut Interpreter<'a>, s: &Vec<Value>)
    requires
        old(interpreter).wf(),
    ensures
        old(interpreter).settled(final(interpreter)),
        final(interpreter).store() == old(interpreter).store(),
        final(interpreter).steps() == old(interpreter).steps(),
        final(interpreter).failed_imports() == old(interpreter).failed_imports(),
        final(interpreter).printed().len() == old(interpreter).printed().len() + 2 * s@.len(),
        shows(
            final(interpreter).printed().subrange(
                old(interpreter).printed().len() as int,
                final(interpreter).printed().len() as int,
            ),
            s@,
        ),
        crate::semantics::prints(*old(interpreter), *final(interpreter), s@, false),
{
    let ghost start = interpreter.printed().len() as int;
    let mut i: usize = 0;
    while i < s.len()
        invariant
            i <= s@.len(),
            old(interpreter).settled(interpreter),
            interpreter.store() == old(interpreter).store(),
            interpreter.steps() == old(interpreter).steps(),
            interpreter.failed_imports() == old(interpreter).failed_imports(),
            start == old(interpreter).printed().len(),
            interpreter.printed().len() == start + 2 * i,
            forall|j: int|
                0 <= j < i ==> {
                    &&& (#[trigger] interpreter.printed()[start + 2 * j]).text@ == value_text(
                        s@[j],
                    )
                    &&& interpreter.printed()[start + 2 * j].tone == tone_of(s@[j])
                    &&& interpreter.printed()[start + 2 * j + 1].text@ == " "@
                    &&& interpreter.printed()[start + 2 * j + 1].tone == Tone::Plain
                },
        decreases s@.len() - i,
    {
        let tone = match &s[i] {
            Value::Nil => Tone::Keyword,
            Value::Bool(_) => Tone::Keyword,
            Value::Number(_) => Tone::Number,
            _ => Tone::Plain,
        };
        let ghost entry = interpreter.printed();
        interpreter.emit(s[i].to_text(), tone);
        interpreter.emit(" ".to_owned(), Tone::Plain);
        proof {
            assert forall|j: int| 0 <= j < i + 1 implies {
                &&& (#[trigger] interpreter.printed()[start + 2 * j]).text@ == value_text(s@[j])
                &&& interpreter.printed()[start + 2 * j].tone == tone_of(s@[j])
                &&& interpreter.printed()[start + 2 * j + 1].text@ == " "@
                &&& interpreter.printed()[start + 2 * j + 1].tone == Tone::Plain
            } by {
                if j < i {
                    assert(interpreter.printed()[start + 2 * j] == entry[start + 2 * j]);
                    assert(interpreter.printed()[start + 2 * j + 1] == entry[start + 2 * j + 1]);
                }
            }
        }
        i += 1;
    }
    proof {
        let end = interpreter.printed().len() as int;
        let pieces = interpreter.printed().subrange(start, end);
        assert forall|j: int| 0 <= j < s@.len() implies {
            &&& (#[trigger] pieces[2 * j]).text@ == value_text(s@[j])
            &&& pieces[2 * j].tone == tone_of(s@[j])
            &&& pieces[2 * j + 1].text@ == " "@
            &&& pieces[2 * j + 1].tone == Tone::Plain
        } by {
            assert(pieces[2 * j] == interpreter.printed()[start + 2 * j]);
            assert(pieces[2 * j + 1] == interpreter.printed()[start + 2 * j + 1]);
        }
        assert(interpreter.printed().take(start) =~= old(interpreter).printed());
    }
}

/// Whether `record` binds the printing routines.
pub open spec fn binds_printing(record: crate::vault::ScopeValue) -> bool {
    &&& record.get("print"@) == Some(Value::NativeFunction(NativeFunction::IOPrint))
    &&& record.get("println"@) == Some(Value::NativeFunction(NativeFunction::IOPrintln))
}

/// Binds the printing routines in the scope `scope`.
pub fn inject<'a>(interpreter: &mut Interpreter<'a>, scope: Handle) -> (r: Result<(), Diagnostic>)
    requires
        old(interpreter).wf(),
    ensures
        old(interpreter).evaluated(final(interpreter), r),
        r is Ok <==> old(interpreter).store().live(scope),
        r is Ok ==> {
            &&& crate::semantics::only_scopes_change(*old(interpreter), *final(interpreter))
            &&& crate::vault::Vault::rebound(
                &old(interpreter).store(),
                &final(interpreter).store(),
                scope,
            )
            &&& binds_printing(final(interpreter).store().scope(scope))
            &&& forall|n: Seq<char>|
                n != "print"@ && n != "println"@ ==> #[trigger] final(interpreter).store().scope(
                    scope,
                ).get(n) == old(interpreter).store().scope(scope).get(n)
        },
{
    let node = Node::new(0, 0);
    interpreter.set_in_scope(
        scope,
        "print".to_owned(),
        Value::NativeFunction(NativeFunction::IOPrint),
        node,
    )?;
    let ghost mid = *interpreter;
    interpreter.set_in_scope(
        scope,
        "println".to_owned(),
        Value::NativeFunction(NativeFunction::IOPrintln),
        node,
    )?;
    proof {
        crate::vault::Vault::lemma_rebound_twice(
            &old(interpreter).store(),
            &mid.store(),
            &interpreter.store(),
            scope,
        );
    }
    proof {
        reveal_strlit("print");
        reveal_strlit("println");
        assert("print"@ != "println"@) by {
            assert("print"@.len() == 5);
            assert("println"@.len() == 7);
        }
    }
    Ok(())
}

} // verus!
