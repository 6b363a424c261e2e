use vstd::prelude::*;
use std::rc::Rc;
use crate::ast::{Ast, CallExpression, Node};
use crate::interpreter::Interpreter;
use crate::report::Diagnostic;
use crate::semantics::{given, only_scopes_change};
use crate::value::{NativeFunction, Value};
use crate::vault::{Handle, ScopeValue, Vault};

pub mod conversions;
pub mod hashmap;
pub mod io;
pub mod lang;

verus! {

/// The parts of the standard library that are written in the language itself.
pub struct StdLang {
    /// The methods of a map instance.
    pub hashmap: Rc<Ast>,
}

/// The parts of the standard library that are written in the language itself. They are
/// always there.
pub fn get_values() -> (r: Result<StdLang, Diagnostic>)
    ensures
        r is Ok,
        lang::hashmap::is_methods(r->Ok_0.hashmap.program.body@),
{
    match lang::hashmap::value() {
        Ok(ast) => Ok(StdLang { hashmap: Rc::new(ast) }),
        Err(d) => Err(d),
    }
}

/// It is an error to call a native routine with a number of arguments other than `amount`.
pub fn expect_args<'a>(
    amount: usize,
    interpreter: &Interpreter<'a>,
    call_expr: &CallExpression,
    args: &Vec<Value>,
) -> (r: Result<(), Diagnostic>)
    requires
        interpreter.wf(),
    ensures
        r is Ok <==> args@.len() == amount,
        r matches Err(d) ==> crate::interpreter::reported(
            *interpreter,
            d,
            "Wrong number of arguments (expected "@ + crate::text::digits(amount as nat) + ")"@,
            call_expr.node,
        ),
{
    if args.len() != amount {
        let mut message = "Wrong number of arguments (expected ".to_owned();
        message.append(crate::text::index_text(amount).as_str());
        message.append(")");
        return Err(interpreter.report(message, call_expr.node.start, call_expr.node.end));
    }
    Ok(())
}

/// Calls the native routine that `native_function` names.
pub fn run_function<'a>(
    interpreter: &mut Interpreter<'a>,
    call_expr: &CallExpression,
    native_function: NativeFunction,
    args: &Vec<Value>,
    depth: usize,
) -> (r: Result<Value, Diagnostic>)
    requires
        old(interpreter).wf(),
    ensures
        old(interpreter).evaluated(final(interpreter), r),
        r is Err ==> crate::failure::native_fails(
            *old(interpreter),
            native_function,
            args@,
            depth as nat,
        ),
        r matches Ok(v) ==> crate::semantics::native_sem(
            *old(interpreter),
            native_function,
            args@,
            depth as nat,
            *final(interpreter),
            v,
        ),
    decreases depth, 1nat,
{
    match native_function {
        NativeFunction::IOPrintln => {
            io::println(interpreter, args);
            Ok(Value::Nil)
        },
        NativeFunction::IOPrint => {
            io::print(interpreter, args);
            Ok(Value::Nil)
        },
        NativeFunction::ToString => conversions::to_string(interpreter, call_expr, args),
        NativeFunction::IsError => conversions::is_err(interpreter, call_expr, args),
        NativeFunction::HMNew => hashmap::new(interpreter, call_expr, args, depth),
        NativeFunction::HMSet => {
            hashmap::set(interpreter, call_expr, args)?;
            Ok(Value::Nil)
        },
        NativeFunction::HMGet => hashmap::get(interpreter, call_expr, args),
        NativeFunction::HMDelete => {
            hashmap::del(interpreter, call_expr, args)?;
            Ok(Value::Nil)
        },
        NativeFunction::HMHas => hashmap::has(interpreter, call_expr, args),
        NativeFunction::HMLen => hashmap::len(interpreter, call_expr, args),
        NativeFunction::HMKeys => hashmap::keys(interpreter, call_expr, args),
        NativeFunction::HMValues => hashmap::values(interpreter, call_expr, args),
        NativeFunction::HMClear => {
            hashmap::clear(interpreter, call_expr, args)?;
            Ok(Value::Nil)
        },
    }
}

/// The families of native routines.
#[derive(Clone, Copy, Debug, PartialEq, Eq, Structural)]
pub enum Library {
    /// Printing.
    Io,
    /// The methods that every kind of value has.
    Conversions,
    /// Maps.
    Hashmap,
}

/// Whether `record` binds the native routines of the family `library`.
pub open spec fn family_bound(record: ScopeValue, library: Library) -> bool {
    match library {
        Library::Io => io::binds_printing(record),
        Library::Conversions => conversions::binds_conversions(record),
        Library::Hashmap => hashmap::binds_map_routines(record),
    }
}

/// Whether the record `owner` binds `name` to a named scope that it owns, and that binds the
/// native routines of the family `library`.
pub open spec fn holds_library(store: Vault, owner: Handle, name: Seq<char>, library: Library) -> bool {
    exists|h: Handle| #[trigger]
        given(h) && h != owner && store.live(owner) && store.live(h) && store.owns(owner, h)
            && store.scope(owner).get(name) == Some(Value::ScopeRef(h)) && family_bound(
            store.scope(h),
            library,
        )
}

/// Whether the record `owner` holds the whole standard library: `io`, a scope for each kind
/// of value that has methods, and `hashmap`.
pub open spec fn holds_standard_library(store: Vault, owner: Handle) -> bool {
    &&& holds_library(store, owner, "io"@, Library::Io)
    &&& holds_library(store, owner, "&number"@, Library::Conversions)
    &&& holds_library(store, owner, "&bool"@, Library::Conversions)
    &&& holds_library(store, owner, "&str"@, Library::Conversions)
    &&& holds_library(store, owner, "&sequence"@, Library::Conversions)
    &&& holds_library(store, owner, "&ast"@, Library::Conversions)
    &&& holds_library(store, owner, "&err"@, Library::Conversions)
    &&& holds_library(store, owner, "&none"@, Library::Conversions)
    &&& holds_library(store, owner, "hashmap"@, Library::Hashmap)
}

/// `post` keeps of `pre` every record but `owner` as it was, and what `owner` owned.
pub open spec fn keeps_around(pre: Vault, post: Vault, owner: Handle) -> bool {
    &&& post.live(owner)
    &&& forall|g: Handle|
        #[trigger] pre.live(g) && g != owner ==> post.live(g) && post.scope(g) == pre.scope(g)
    &&& forall|c: Handle| #[trigger] pre.owns(owner, c) ==> post.owns(owner, c)
}

/// A library stays where it is held while its name is not bound anew and its record is left
/// alone.
pub proof fn lemma_library_kept(
    pre: Vault,
    post: Vault,
    owner: Handle,
    name: Seq<char>,
    library: Library,
)
    requires
        holds_library(pre, owner, name, library),
        keeps_around(pre, post, owner),
        post.scope(owner).get(name) == pre.scope(owner).get(name),
    ensures
        holds_library(post, owner, name, library),
{
    let h = choose|h: Handle| #[trigger]
        given(h) && h != owner && pre.live(owner) && pre.live(h) && pre.owns(owner, h)
            && pre.scope(owner).get(name) == Some(Value::ScopeRef(h)) && family_bound(
            pre.scope(h),
            library,
        );
    assert(pre.live(h) && h != owner);
    assert(pre.owns(owner, h));
    assert(given(h));
}

/// The whole standard library stays where it is held while none of its names is bound anew
/// and its records are left alone.
pub proof fn lemma_standard_library_kept(pre: Vault, post: Vault, owner: Handle)
    requires
        holds_standard_library(pre, owner),
        keeps_around(pre, post, owner),
        forall|n: Seq<char>| #[trigger] post.scope(owner).get(n) == pre.scope(owner).get(n),
    ensures
        holds_standard_library(post, owner),
{
    lemma_library_kept(pre, post, owner, "io"@, Library::Io);
    lemma_library_kept(pre, post, owner, "&number"@, Library::Conversions);
    lemma_library_kept(pre, post, owner, "&bool"@, Library::Conversions);
    lemma_library_kept(pre, post, owner, "&str"@, Library::Conversions);
    lemma_library_kept(pre, post, owner, "&sequence"@, Library::Conversions);
    lemma_library_kept(pre, post, owner, "&ast"@, Library::Conversions);
    lemma_library_kept(pre, post, owner, "&err"@, Library::Conversions);
    lemma_library_kept(pre, post, owner, "&none"@, Library::Conversions);
    lemma_library_kept(pre, post, owner, "hashmap"@, Library::Hashmap);
}

/// Declares, in the innermost scope, the named scopes of the standard library with their
/// native routines: `io`, one scope for each kind of value that has methods, and `hashmap`.
#[verifier::rlimit(60)]
pub fn inject<'a>(interpreter: &mut Interpreter<'a>) -> (r: Result<(), Diagnostic>)
    requires
        old(interpreter).wf(),
    ensures
        old(interpreter).evaluated(final(interpreter), r),
        r is Ok <==> old(interpreter).store().current() is Some && old(interpreter).store().live(
            old(interpreter).store().current()->Some_0,
        ),
        r is Ok ==> {
            &&& only_scopes_change(*old(interpreter), *final(interpreter))
            &&& old(interpreter).store().current() is Some
            &&& holds_standard_library(
                final(interpreter).store(),
                old(interpreter).store().current()->Some_0,
            )
            &&& keeps_around(
                old(interpreter).store(),
                final(interpreter).store(),
                old(interpreter).store().current()->Some_0,
            )
        },
{
    proof {
        reveal_strlit("io");
        reveal_strlit("&number");
        reveal_strlit("&bool");
        reveal_strlit("&str");
        reveal_strlit("&sequence");
        reveal_strlit("&ast");
        reveal_strlit("&err");
        reveal_strlit("&none");
        reveal_strlit("hashmap");
        assert("io"@.len() == 2 && "&number"@.len() == 7 && "&bool"@.len() == 5 && "&str"@.len()
            == 4 && "&sequence"@.len() == 9 && "&ast"@.len() == 4 && "&err"@.len() == 4
            && "&none"@.len() == 5 && "hashmap"@.len() == 7);
        assert("&str"@[1] == 's' && "&ast"@[1] == 'a' && "&err"@[1] == 'e' && "&bool"@[1] == 'b'
            && "&none"@[1] == 'n' && "&number"@[0] == '&' && "hashmap"@[0] == 'h');
    }
    let ghost owner = interpreter.store().current()->Some_0;
    declare_library(interpreter, "io", Library::Io)?;
    let ghost s1 = interpreter.store();
    declare_library(interpreter, "&number", Library::Conversions)?;
    let ghost s2 = interpreter.store();
    proof {
        lemma_library_kept(s1, s2, owner, "io"@, Library::Io);
    }
    declare_library(interpreter, "&bool", Library::Conversions)?;
    let ghost s3 = interpreter.store();
    proof {
        lemma_library_kept(s2, s3, owner, "io"@, Library::Io);
        lemma_library_kept(s2, s3, owner, "&number"@, Library::Conversions);
    }
    declare_library(interpreter, "&str", Library::Conversions)?;
    let ghost s4 = interpreter.store();
    proof {
        lemma_library_kept(s3, s4, owner, "io"@, Library::Io);
        lemma_library_kept(s3, s4, owner, "&number"@, Library::Conversions);
        lemma_library_kept(s3, s4, owner, "&bool"@, Library::Conversions);
    }
    declare_library(interpreter, "&sequence", Library::Conversions)?;
    let ghost s5 = interpreter.store();
    proof {
        lemma_library_kept(s4, s5, owner, "io"@, Library::Io);
        lemma_library_kept(s4, s5, owner, "&number"@, Library::Conversions);
        lemma_library_kept(s4, s5, owner, "&bool"@, Library::Conversions);
        lemma_library_kept(s4, s5, owner, "&str"@, Library::Conversions);
    }
    declare_library(interpreter, "&ast", Library::Conversions)?;
    let ghost s6 = interpreter.store();
    proof {
        lemma_library_kept(s5, s6, owner, "io"@, Library::Io);
        lemma_library_kept(s5, s6, owner, "&number"@, Library::Conversions);
        lemma_library_kept(s5, s6, owner, "&bool"@, Library::Conversions);
        lemma_library_kept(s5, s6, owner, "&str"@, Library::Conversions);
        lemma_library_kept(s5, s6, owner, "&sequence"@, Library::Conversions);
    }
    declare_library(interpreter, "&err", Library::Conversions)?;
    let ghost s7 = interpreter.store();
    proof {
        lemma_library_kept(s6, s7, owner, "io"@, Library::Io);
        lemma_library_kept(s6, s7, owner, "&number"@, Library::Conversions);
        lemma_library_kept(s6, s7, owner, "&bool"@, Library::Conversions);
        lemma_library_kept(s6, s7, owner, "&str"@, Library::Conversions);
        lemma_library_kept(s6, s7, owner, "&sequence"@, Library::Conversions);
        lemma_library_kept(s6, s7, owner, "&ast"@, Library::Conversions);
    }
    declare_library(interpreter, "&none", Library::Conversions)?;
    let ghost s8 = interpreter.store();
    proof {
        lemma_library_kept(s7, s8, owner, "io"@, Library::Io);
        lemma_library_kept(s7, s8, owner, "&number"@, Library::Conversions);
        lemma_library_kept(s7, s8, owner, "&bool"@, Library::Conversions);
        lemma_library_kept(s7, s8, owner, "&str"@, Library::Conversions);
        lemma_library_kept(s7, s8, owner, "&sequence"@, Library::Conversions);
        lemma_library_kept(s7, s8, owner, "&ast"@, Library::Conversions);
        lemma_library_kept(s7, s8, owner, "&err"@, Library::Conversions);
    }
    declare_library(interpreter, "hashmap", Library::Hashmap)?;
    let ghost s9 = interpreter.store();
    proof {
        lemma_library_kept(s8, s9, owner, "io"@, Library::Io);
        lemma_library_kept(s8, s9, owner, "&number"@, Library::Conversions);
        lemma_library_kept(s8, s9, owner, "&bool"@, Library::Conversions);
        lemma_library_kept(s8, s9, owner, "&str"@, Library::Conversions);
        lemma_library_kept(s8, s9, owner, "&sequence"@, Library::Conversions);
        lemma_library_kept(s8, s9, owner, "&ast"@, Library::Conversions);
        lemma_library_kept(s8, s9, owner, "&err"@, Library::Conversions);
        lemma_library_kept(s8, s9, owner, "&none"@, Library::Conversions);
    }
    Ok(())
}

/// Declares the named scope `name` with the native routines of the family `library`.
#[verifier::rlimit(40)]
fn declare_library<'a>(interpreter: &mut Interpreter<'a>, name: &str, library: Library) -> (r:
    Result<(), Diagnostic>)
    requires
        old(interpreter).wf(),
    ensures
        old(interpreter).evaluated(final(interpreter), r),
        r is Ok <==> old(interpreter).store().current() is Some && old(interpreter).store().live(
            old(interpreter).store().current()->Some_0,
        ),
        r is Ok ==> {
            let owner = old(interpreter).store().current()->Some_0;
            &&& only_scopes_change(*old(interpreter), *final(interpreter))
            &&& old(interpreter).store().current() is Some
            &&& final(interpreter).store().current() == old(interpreter).store().current()
            &&& final(interpreter).store().live(owner)
            &&& holds_library(final(interpreter).store(), owner, name@, library)
            &&& keeps_around(old(interpreter).store(), final(interpreter).store(), owner)
            &&& forall|n: Seq<char>|
                n != name@ ==> #[trigger] final(interpreter).store().scope(owner).get(n) == old(
                    interpreter,
                ).store().scope(owner).get(n)
        },
{
    let scope = interpreter.start_declaration_of_named_scope(name);
    let ghost started = interpreter.store();
    match library {
        Library::Io => io::inject(interpreter, scope)?,
        Library::Conversions => conversions::inject_methods(interpreter, scope)?,
        Library::Hashmap => hashmap::inject(interpreter, scope)?,
    }
    let ghost filled = interpreter.store();
    let ended = interpreter.end_declaration_of_named_scope(Node::new(0, 0))?;
    proof {
        let before = old(interpreter).store();
        let after = interpreter.store();
        let owner = before.current()->Some_0;
        assert(ended == scope);
        assert(filled.frames() == before.frames().push(
            crate::vault::Frame { handle: scope, kind: crate::vault::FrameKind::Declaration },
        ));
        assert(filled.frames()[filled.frames().len() - 2] == before.frames().last());
        assert(before.live(owner));
        assert(after.scope(owner).refs().last() == scope);
        assert(after.owns(owner, scope));
        assert(given(scope));
        assert forall|c: Handle| #[trigger] before.owns(owner, c) implies after.owns(owner, c) by {
            let k = choose|k: int|
                0 <= k < before.scope(owner).refs().len() && before.scope(owner).refs()[k] == c;
            assert(after.scope(owner).refs()[k] == c);
        }
    }
    Ok(())
}

} // verus!
