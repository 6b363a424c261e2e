use vstd::prelude::*;
use std::rc::Rc;
use crate::ast::{
    AssignOperator, AssignStatement, Ast, BinaryExpression, BinaryOperator, CallExpression,
    Expression, ForStatement, FunctionDeclarator, IfStatement, ImportStatement, Literal, LoopStatement,
    MemberExpression, Node, Statement, UnaryExpression, UnaryOperator, WhileStatement,
};
use crate::native::StdLang;
use crate::report::Diagnostic;
use crate::semantics::{
    all_sem, assign_sem, binary_sem, binds, binds_parameters, block_prefix_sem, block_sem,
    call_sem, closes_file, declares, ends_declaration, enters_block, enters_scope,
    exits_block, expression_sem, for_rounds_sem, for_sem, given, given2, given3, given4,
    given5, if_sem, import_sem, leaves_scope, literal_sem, loop_rounds_sem, loop_sem,
    member_sem, member_target_sem, module_at, named_property_sem, opens_file,
    prepares_module, property_sem, spends_step, starts_declaration,
    statement_sem, unary_sem, unbinds, variable_sem, while_rounds_sem, while_sem,
};
use crate::text::{chars_of, spells, text_of};
use crate::token::TokenValue;
use crate::value::{share, truthy, ControlFlow, Value};
use crate::vault::{Frame, FrameKind, Handle, Vault, VaultError};

use crate::failure::{
    all_fails, assign_fails, binary_fails, block_fails, call_fails, expression_fails, for_fails,
    if_fails, import_fails, literal_fails, loop_fails, member_fails, named_property_fails,
    native_scope_of, property_fails, run_fails, statement_fails, target_fails, unary_fails,
    variable_fails, while_fails,
};
verus! {

/// How a piece of output is meant to be shown.
#[derive(Clone, Copy, Debug, PartialEq, Eq, Structural)]
pub enum Tone {
    Plain,
    /// `None`, `true` and `false`.
    Keyword,
    Number,
}

/// A piece of what a program has printed.
#[derive(Debug)]
pub struct Printed {
    pub text: String,
    pub tone: Tone,
}

/// What is known of a source file that an import may ask for.
#[derive(Debug)]
pub enum Loaded {
    /// The text of the file, and the syntax tree that it parses to.
    Parsed { source: String, ast: Rc<Ast> },
    /// Why the file could not be read.
    Unreadable(String),
    /// Why the text of the file does not parse.
    Malformed(Diagnostic),
}

/// A source file that an import may ask for.
#[derive(Debug)]
pub struct Module {
    pub path: String,
    pub contents: Loaded,
}

/// Evaluates a syntax tree against a vault of scopes.
pub struct Interpreter<'a> {
    /// Paths of the source files that are being evaluated, that of the innermost import last.
    pub(crate) paths: Vec<String>,
    /// The texts of those files.
    pub(crate) sources: Vec<String>,
    pub(crate) ast: &'a Ast,
    pub(crate) vault: Vault,
    pub(crate) std_lang: StdLang,
    /// The files that imports can find.
    pub(crate) modules: Vec<Module>,
    /// What the program has printed and nobody has taken yet.
    pub(crate) output: Vec<Printed>,
    /// The imports that failed.
    pub(crate) reports: Vec<Diagnostic>,
    /// How many more rounds loops may make.
    pub(crate) steps_left: u64,
    /// How deep evaluation may nest.
    pub(crate) max_depth: usize,
}

/// The length of the part of `path` that names the directory: up to and with the last `/`.
pub open spec fn directory_len(path: Seq<char>) -> nat
    decreases path.len(),
{
    if path.len() == 0 {
        0
    } else if path.last() == '/' {
        path.len()
    } else {
        directory_len(path.drop_last())
    }
}

/// The file name that an import of `name` asks for.
pub open spec fn module_file(name: Seq<char>) -> Seq<char> {
    if name.len() >= 5 && name.subrange(name.len() - 5, name.len() as int) == ".syms"@ {
        name
    } else {
        name + ".syms"@
    }
}

/// The path of the file that an import of `name` asks for in the file at `current`: the file
/// of that name in the same directory.
pub open spec fn path_of_module(current: Seq<char>, name: Seq<char>) -> Seq<char> {
    current.subrange(0, directory_len(current) as int) + module_file(name)
}

/// The path of the file that an import of `name` asks for in the file at `current`.
pub fn import_path(current: &str, name: &str) -> (path: String)
    ensures
        path@ == path_of_module(current@, name@),
{
    let chars = chars_of(current);
    let mut end: usize = chars.len();
    proof {
        assert(chars@.take(chars.len() as int) == chars@);
    }
    while end > 0 && chars[end - 1] != '/'
        invariant
            end <= chars.len(),
            directory_len(chars@) == directory_len(chars@.take(end as int)),
        decreases end,
    {
        proof {
            assert(chars@.take(end as int).drop_last() == chars@.take(end as int - 1));
        }
        end -= 1;
    }
    proof {
        assert(chars@.take(chars.len() as int) == chars@);
        if end > 0 {
            assert(chars@.take(end as int).last() == '/');
        }
    }
    let mut path = text_of(&chars, 0, end);
    let letters = chars_of(name);
    path.append(name);
    if !(letters.len() >= 5 && spells(&letters, letters.len() - 5, letters.len(), ".syms")) {
        path.append(".syms");
    }
    proof {
        assert(path@ =~= path_of_module(current@, name@));
    }
    path
}

/// The names that the imports of `s` ask for, those of the statements within it included, in
/// the order in which they are written.
pub open spec fn imports_in(s: Statement) -> Seq<Seq<char>>
    decreases s,
{
    match s {
        Statement::ImportStatement(i) => seq![i.source.name@],
        Statement::FunctionDeclaration(f) => imports_among(f.body@),
        Statement::ScopeDeclaration(d) => imports_among(d.body@),
        Statement::ContextDeclaration(d) => imports_among(d.body@),
        Statement::IfStatement(i) => imports_among(i.consequent@) + imports_among(i.alternate@),
        Statement::ForStatement(f) => imports_in(f.init) + imports_among(f.body@),
        Statement::WhileStatement(w) => imports_among(w.body@),
        Statement::LoopStatement(l) => imports_among(l.body@),
        Statement::TryStatement(t) => imports_among(t.body@) + imports_among(t.handler@)
            + imports_among(t.finalizer@),
        Statement::BlockStatement(b) => imports_among(b@),
        _ => Seq::empty(),
    }
}

/// The names that the imports of the statements `body` ask for.
pub open spec fn imports_among(body: Seq<Statement>) -> Seq<Seq<char>>
    decreases body,
{
    if body.len() == 0 {
        Seq::empty()
    } else {
        imports_among(body.drop_last()) + imports_in(body.last())
    }
}

/// The views of the strings of `names`.
pub open spec fn names_of(names: Seq<String>) -> Seq<Seq<char>> {
    Seq::new(names.len(), |i: int| names[i]@)
}

/// Appends to `found` the names that the imports of `s` ask for.
fn collect_imports(s: &Statement, found: &mut Vec<String>)
    ensures
        names_of(final(found)@) == names_of(old(found)@) + imports_in(*s),
    decreases s,
{
    match s {
        Statement::ImportStatement(i) => {
            found.push(i.source.name.clone());
            proof {
                assert(names_of(found@) =~= names_of(old(found)@) + imports_in(*s));
            }
        },
        Statement::FunctionDeclaration(f) => collect_imports_among(&f.body, found),
        Statement::ScopeDeclaration(d) => collect_imports_among(&d.body, found),
        Statement::ContextDeclaration(d) => collect_imports_among(&d.body, found),
        Statement::IfStatement(i) => {
            collect_imports_among(&i.consequent, found);
            collect_imports_among(&i.alternate, found);
            proof {
                assert(names_of(found@) =~= names_of(old(found)@) + imports_in(*s));
            }
        },
        Statement::ForStatement(f) => {
            collect_imports(&f.init, found);
            collect_imports_among(&f.body, found);
            proof {
                assert(names_of(found@) =~= names_of(old(found)@) + imports_in(*s));
            }
        },
        Statement::WhileStatement(w) => collect_imports_among(&w.body, found),
        Statement::LoopStatement(l) => collect_imports_among(&l.body, found),
        Statement::TryStatement(t) => {
            collect_imports_among(&t.body, found);
            collect_imports_among(&t.handler, found);
            collect_imports_among(&t.finalizer, found);
            proof {
                assert(names_of(found@) =~= names_of(old(found)@) + imports_in(*s));
            }
        },
        Statement::BlockStatement(b) => collect_imports_among(b, found),
        _ => {
            proof {
                assert(names_of(found@) =~= names_of(old(found)@) + imports_in(*s));
            }
        },
    }
}

/// Appends to `found` the names that the imports of the statements `body` ask for.
fn collect_imports_among(body: &Vec<Statement>, found: &mut Vec<String>)
    ensures
        names_of(final(found)@) == names_of(old(found)@) + imports_among(body@),
    decreases body,
{
    let mut i: usize = 0;
    proof {
        assert(body@.take(0).len() == 0);
        assert(names_of(found@) =~= names_of(old(found)@) + imports_among(body@.take(0)));
    }
    while i < body.len()
        invariant
            i <= body@.len(),
            names_of(found@) == names_of(old(found)@) + imports_among(body@.take(i as int)),
        decreases body@.len() - i,
    {
        assert(decreases_to!(*body => body[i as int]));
        collect_imports(&body[i], found);
        i += 1;
        proof {
            assert(body@.take(i as int).drop_last() == body@.take(i as int - 1));
            assert(body@.take(i as int).last() == body@[i as int - 1]);
            assert(names_of(found@) =~= names_of(old(found)@) + imports_among(
                body@.take(i as int),
            ));
        }
    }
    proof {
        assert(body@.take(body@.len() as int) == body@);
    }
}

/// The names that the imports of a program ask for, in the order in which they are written.
/// The file of each is found with `import_path`.
pub fn imports_of(ast: &Ast) -> (names: Vec<String>)
    ensures
        names_of(names@) == imports_among(ast.program.body@),
{
    let mut found: Vec<String> = Vec::new();
    collect_imports_among(&ast.program.body, &mut found);
    proof {
        assert(names_of(found@) =~= imports_among(ast.program.body@));
    }
    found
}

/// The tone in which a value is printed.
pub open spec fn tone_of(v: Value) -> Tone {
    match v {
        Value::Nil => Tone::Keyword,
        Value::Bool(_) => Tone::Keyword,
        Value::Number(_) => Tone::Number,
        _ => Tone::Plain,
    }
}

/// What a call gives back for what the body of the function asked for: the value of a
/// `return`, an error value with the text of what was thrown, and `None` for all else.
pub open spec fn call_outcome(control: ControlFlow, r: Value) -> bool {
    match control {
        ControlFlow::Return(v) => r == v,
        ControlFlow::Throw(v) => r is Error && r->Error_0@ == crate::render::value_text(v),
        _ => r == Value::Nil,
    }
}

/// What a call gives back for what the body of the function asked for.
pub fn call_result(control: ControlFlow) -> (r: Value)
    ensures
        call_outcome(control, r),
{
    match control {
        ControlFlow::Return(v) => v,
        ControlFlow::Throw(v) => Value::Error(v.to_text()),
        _ => Value::Nil,
    }
}

/// The value of a literal; a name has none.
pub open spec fn literal_value(value: TokenValue) -> Option<Value> {
    match value {
        TokenValue::Absent => Some(Value::Nil),
        TokenValue::Number(n) => Some(Value::Number(n)),
        TokenValue::Str(s) => Some(Value::Str(s)),
        TokenValue::Bool(b) => Some(Value::Bool(b)),
        TokenValue::Identifier(_) => None,
    }
}

/// The result of a unary operator.
pub open spec fn unary_outcome(operator: UnaryOperator, v: Value, r: Value) -> bool {
    match operator {
        UnaryOperator::Plus => r == v,
        UnaryOperator::Minus => r == crate::value::neg_result(v),
        UnaryOperator::Not => r == crate::value::not_result(v),
        UnaryOperator::BitNot => r == crate::value::not_result(v),
        UnaryOperator::PlusPlus => crate::value::add_result(v, Value::Number(1), r),
        UnaryOperator::MinusMinus => crate::value::sub_result(v, Value::Number(1), r),
    }
}

/// Applies a unary operator.
pub fn apply_unary(operator: UnaryOperator, v: Value) -> (r: Value)
    ensures
        unary_outcome(operator, v, r),
{
    match operator {
        UnaryOperator::Plus => v,
        UnaryOperator::Minus => v.neg(),
        UnaryOperator::Not => v.not(),
        UnaryOperator::BitNot => v.not(),
        UnaryOperator::PlusPlus => v.add(Value::Number(1)),
        UnaryOperator::MinusMinus => v.sub(Value::Number(1)),
    }
}

/// The result of a binary operator.
pub open spec fn binary_outcome(operator: BinaryOperator, lhs: Value, rhs: Value, r: Value) -> bool {
    match operator {
        BinaryOperator::Add => crate::value::add_result(lhs, rhs, r),
        BinaryOperator::Substract => crate::value::sub_result(lhs, rhs, r),
        BinaryOperator::Multiply => crate::value::mul_result(lhs, rhs, r),
        BinaryOperator::Divide => crate::value::div_result(lhs, rhs, r),
        BinaryOperator::Power => crate::value::pow_result(lhs, rhs, r),
        BinaryOperator::Range => crate::value::range_result(lhs, rhs, r),
        BinaryOperator::Modulo => crate::value::rem_result(lhs, rhs, r),
        BinaryOperator::And => r == Value::Bool(
            match crate::value::booleans(lhs, rhs) {
                Some((a, b)) => a && b,
                None => false,
            },
        ),
        BinaryOperator::Or => r == Value::Bool(
            match crate::value::booleans(lhs, rhs) {
                Some((a, b)) => a || b,
                None => false,
            },
        ),
        BinaryOperator::Xor => r == Value::Bool(
            match crate::value::booleans(lhs, rhs) {
                Some((a, b)) => a != b,
                None => false,
            },
        ),
        BinaryOperator::BitAnd => r == Value::Number(
            match crate::value::numbers(lhs, rhs) {
                Some((a, b)) => crate::value::signed(
                    crate::value::unsigned(a) & crate::value::unsigned(b),
                ),
                None => 0,
            },
        ),
        BinaryOperator::BitOr => r == Value::Number(
            match crate::value::numbers(lhs, rhs) {
                Some((a, b)) => crate::value::signed(
                    crate::value::unsigned(a) | crate::value::unsigned(b),
                ),
                None => 0,
            },
        ),
        BinaryOperator::BitXor => r == Value::Number(
            match crate::value::numbers(lhs, rhs) {
                Some((a, b)) => crate::value::signed(
                    crate::value::unsigned(a) ^ crate::value::unsigned(b),
                ),
                None => 0,
            },
        ),
        BinaryOperator::BitLeftShift => r == crate::value::shl_result(lhs, rhs),
        BinaryOperator::BitRightShift => r == crate::value::shr_result(lhs, rhs),
        BinaryOperator::Equal => r == Value::Bool(crate::value::same(lhs, rhs)),
        BinaryOperator::NotEqual => r == Value::Bool(!crate::value::same(lhs, rhs)),
        BinaryOperator::Less => r == Value::Bool(
            match crate::value::numbers(lhs, rhs) {
                Some((a, b)) => a < b,
                None => false,
            },
        ),
        BinaryOperator::LessEqual => r == Value::Bool(
            match crate::value::numbers(lhs, rhs) {
                Some((a, b)) => a <= b,
                None => false,
            },
        ),
        BinaryOperator::Greater => r == Value::Bool(
            match crate::value::numbers(lhs, rhs) {
                Some((a, b)) => a > b,
                None => false,
            },
        ),
        BinaryOperator::GreaterEqual => r == Value::Bool(
            match crate::value::numbers(lhs, rhs) {
                Some((a, b)) => a >= b,
                None => false,
            },
        ),
    }
}

/// Applies a binary operator.
pub fn apply_binary(operator: BinaryOperator, lhs: Value, rhs: Value) -> (r: Value)
    ensures
        binary_outcome(operator, lhs, rhs, r),
{
    match operator {
        BinaryOperator::Add => lhs.add(rhs),
        BinaryOperator::Substract => lhs.sub(rhs),
        BinaryOperator::Multiply => lhs.mul(rhs),
        BinaryOperator::Divide => lhs.div(rhs),
        BinaryOperator::Power => lhs.pow(&rhs),
        BinaryOperator::Range => lhs.range(&rhs),
        BinaryOperator::Modulo => lhs.rem(rhs),
        BinaryOperator::And => lhs.and(&rhs),
        BinaryOperator::Or => lhs.or(&rhs),
        BinaryOperator::Xor => lhs.xor(&rhs),
        BinaryOperator::BitAnd => lhs.bit_and(&rhs),
        BinaryOperator::BitOr => lhs.bit_or(&rhs),
        BinaryOperator::BitXor => lhs.bit_xor(&rhs),
        BinaryOperator::BitLeftShift => lhs.shl(rhs),
        BinaryOperator::BitRightShift => lhs.shr(rhs),
        BinaryOperator::Equal => lhs.equal(&rhs),
        BinaryOperator::NotEqual => lhs.not_equal(&rhs),
        BinaryOperator::Less => lhs.less(&rhs),
        BinaryOperator::LessEqual => lhs.less_equal(&rhs),
        BinaryOperator::Greater => lhs.greater(&rhs),
        BinaryOperator::GreaterEqual => lhs.greater_equal(&rhs),
    }
}

/// The new value of a variable under an assignment operator.
pub open spec fn assign_outcome(operator: AssignOperator, current: Value, right: Value, r: Value) -> bool {
    match operator {
        AssignOperator::Assign => r == right,
        AssignOperator::PlusAssign => crate::value::add_result(current, right, r),
        AssignOperator::MinusAssign => crate::value::sub_result(current, right, r),
        AssignOperator::MultiplyAssign => crate::value::mul_result(current, right, r),
        AssignOperator::DivideAssign => crate::value::div_result(current, right, r),
        AssignOperator::PowerAssign => crate::value::pow_result(current, right, r),
        AssignOperator::ModuloAssign => crate::value::rem_result(current, right, r),
    }
}

/// The new value of a variable under an assignment operator.
pub fn apply_assign(operator: AssignOperator, current: Value, right: Value) -> (r: Value)
    ensures
        assign_outcome(operator, current, right, r),
{
    match operator {
        AssignOperator::Assign => right,
        AssignOperator::PlusAssign => current.add(right),
        AssignOperator::MinusAssign => current.sub(right),
        AssignOperator::MultiplyAssign => current.mul(right),
        AssignOperator::DivideAssign => current.div(right),
        AssignOperator::PowerAssign => current.pow(&right),
        AssignOperator::ModuloAssign => current.rem(right),
    }
}

/// `post` is `pre` set up for evaluation: on top of the scope stack stand the new scope
/// `library`, which holds the standard library, and the new global scope, which binds the
/// printing routines, `std` to the library, `__file__` to the path of the program,
/// `__name__` to `main` and `__module__` to false.
pub open spec fn initialized<'a>(pre: Interpreter<'a>, post: Interpreter<'a>) -> bool {
    exists|library: Handle, global: Handle|
        #![trigger given2(library, global)]
        given2(library, global) && set_up_with(pre, post, library, global)
}

/// `post` is `pre` set up for evaluation, with the scopes `library` and `global`.
pub open spec fn set_up_with<'a>(
    pre: Interpreter<'a>,
    post: Interpreter<'a>,
    library: Handle,
    global: Handle,
) -> bool {
    let bound = post.store().scope(global);
    &&& crate::semantics::only_scopes_change(pre, post)
    &&& post.store().frames() == pre.store().frames().push(
        Frame { handle: library, kind: FrameKind::Block },
    ).push(Frame { handle: global, kind: FrameKind::Block })
    &&& !pre.store().issued(library)
    &&& !pre.store().issued(global)
    &&& library != global
    &&& post.store().live(global)
    &&& crate::native::holds_standard_library(post.store(), library)
    &&& crate::native::io::binds_printing(bound)
    &&& bound.get("std"@) == Some(Value::ScopeRef(library))
    &&& bound.get("__module__"@) == Some(Value::Bool(false))
    &&& bound.get("__name__"@) is Some
    &&& bound.get("__name__"@)->Some_0 is Str
    &&& bound.get("__name__"@)->Some_0->Str_0@ == "main"@
    &&& bound.get("__file__"@) == Some(Value::Str(pre.paths()[0]))
}

/// The default number of rounds that loops may make.
pub const DEFAULT_STEPS: u64 = 0xffff_ffff_ffff_ffff;

/// The default depth to which evaluation may nest.
pub const DEFAULT_DEPTH: usize = 2048;

/// The diagnostics `a` and `b` say the same of the same place.
pub open spec fn same_report(a: Diagnostic, b: Diagnostic) -> bool {
    &&& a.path@ == b.path@
    &&& a.source@ == b.source@
    &&& a.message@ == b.message@
    &&& a.start == b.start
    &&& a.end == b.end
}

/// What is said where the vault refuses with `e`.
pub open spec fn refusal_text(e: VaultError) -> Seq<char> {
    match e {
        VaultError::NoActiveScope => "No scope is active"@,
        VaultError::NotABlock => "The innermost scope is not a block"@,
        VaultError::NotADeclaration => "The innermost scope is not being declared"@,
        VaultError::NotEntered => "The innermost scope was not entered"@,
        VaultError::StaleHandle => "The scope is no longer alive"@,
    }
}

/// What is said of a name that no scope on the stack binds.
pub open spec fn unbound_text(name: Seq<char>) -> Seq<char> {
    "Variable `"@ + name + "` not found"@
}

/// What is said of a call that gives `got` arguments to a function that takes `expected`.
pub open spec fn arity_text(expected: nat, got: nat) -> Seq<char> {
    "Expected "@ + crate::text::digits(expected) + " arguments, got "@ + crate::text::digits(got)
}

/// `d` is the fatal error `message` about `node` in the file that `at` is evaluating.
pub open spec fn reported<'a>(at: Interpreter<'a>, d: Diagnostic, message: Seq<char>, node: Node) -> bool {
    &&& d.path@ == at.paths().last()@
    &&& d.source@ == at.sources().last()@
    &&& d.message@ == message
    &&& d.start == node.start
    &&& d.end == node.end
}

impl<'a> Interpreter<'a> {
    /// The vault of scopes.
    pub open(crate) spec fn store(&self) -> Vault {
        self.vault
    }

    /// What the program has printed and nobody has taken yet.
    pub open(crate) spec fn printed(&self) -> Seq<Printed> {
        self.output@
    }

    /// The imports that failed.
    pub open(crate) spec fn failed_imports(&self) -> Seq<Diagnostic> {
        self.reports@
    }

    /// Paths of the source files that are being evaluated, that of the innermost import last.
    pub open(crate) spec fn paths(&self) -> Seq<String> {
        self.paths@
    }

    /// The texts of the source files that are being evaluated.
    pub open(crate) spec fn sources(&self) -> Seq<String> {
        self.sources@
    }

    /// How many more rounds loops may make.
    pub open(crate) spec fn steps(&self) -> nat {
        self.steps_left as nat
    }

    /// How deep evaluation may nest.
    pub open(crate) spec fn depth_limit(&self) -> nat {
        self.max_depth as nat
    }

    /// The files that imports can find.
    pub open(crate) spec fn modules(&self) -> Seq<Module> {
        self.modules@
    }

    /// The parts of the standard library that are written in the language.
    pub open(crate) spec fn library(&self) -> StdLang {
        self.std_lang
    }

    /// The program that `run` evaluates.
    pub open(crate) spec fn program(&self) -> &'a Ast {
        self.ast
    }

    /// The invariant of the interpreter.
    pub open spec fn wf(&self) -> bool {
        &&& self.store().wf()
        &&& self.paths().len() == self.sources().len()
        &&& self.paths().len() >= 1
    }

    /// `later` comes after `self`: the vault has not gone back, nothing that was printed or
    /// reported is lost, and no budget has grown.
    pub open spec fn advances(&self, later: &Interpreter<'a>) -> bool {
        &&& later.wf()
        &&& self.store().precedes(&later.store())
        &&& later.steps() <= self.steps()
        &&& later.depth_limit() == self.depth_limit()
        &&& self.printed().len() <= later.printed().len()
        &&& forall|i: int|
            0 <= i < self.printed().len() ==> #[trigger] later.printed()[i] == self.printed()[i]
        &&& self.failed_imports().len() <= later.failed_imports().len()
        &&& forall|i: int|
            0 <= i < self.failed_imports().len() ==> #[trigger] later.failed_imports()[i]
                == self.failed_imports()[i]
        &&& later.modules() == self.modules()
        &&& later.library() == self.library()
        &&& later.program() == self.program()
    }

    /// `later` can be reached from `self` by evaluation: it comes after `self`, and the scope
    /// stack and the files of `self` are still there, below what has come on top of them.
    pub open spec fn evolves(&self, later: &Interpreter<'a>) -> bool {
        &&& self.advances(later)
        &&& self.store().frames().len() <= later.store().frames().len()
        &&& forall|i: int|
            0 <= i < self.store().frames().len() ==> #[trigger] later.store().frames()[i]
                == self.store().frames()[i]
        &&& self.paths().len() <= later.paths().len()
        &&& forall|i: int|
            0 <= i < self.paths().len() ==> #[trigger] later.paths()[i] == self.paths()[i]
        &&& self.sources().len() <= later.sources().len()
        &&& forall|i: int|
            0 <= i < self.sources().len() ==> #[trigger] later.sources()[i] == self.sources()[i]
    }

    /// `later` can be reached from `self`, and has the scope stack and the files of `self`.
    pub open spec fn settled(&self, later: &Interpreter<'a>) -> bool {
        &&& self.evolves(later)
        &&& later.store().frames() == self.store().frames()
        &&& later.paths() == self.paths()
        &&& later.sources() == self.sources()
    }

    /// The diagnostic `d` speaks of the file that is being evaluated, or it is what was said
    /// against a file that an import names and that does not parse.
    pub open spec fn speaks_of(&self, d: Diagnostic) -> bool {
        ||| d.path@ == self.paths().last()@ && d.source@ == self.sources().last()@
        ||| exists|i: int|
            0 <= i < self.modules().len() && (#[trigger] self.modules()[i]).contents is Malformed
                && same_report(self.modules()[i].contents->Malformed_0, d)
    }

    /// What holds of every evaluation: the interpreter evolves; where the evaluation does not
    /// fail the scope stack is as it was found; where it fails, the interpreter is left as
    /// it was at the failure, and the diagnostic speaks of the file that was being evaluated
    /// then.
    pub open spec fn evaluated<T>(&self, later: &Interpreter<'a>, r: Result<T, Diagnostic>) -> bool {
        &&& self.evolves(later)
        &&& r is Ok ==> self.settled(later)
        &&& r matches Err(d) ==> later.speaks_of(d)
    }

    /// An interpreter for the program `ast`, whose text `source` was read from `path`. Its
    /// vault is empty until `initialize` or `run`. It does not fail.
    pub fn new(path: &'a str, source: &'a str, ast: &'a Ast) -> (r: Result<
        Interpreter<'a>,
        Diagnostic,
    >)
        ensures
            r is Ok,
            match r {
                Ok(interpreter) => {
                    &&& interpreter.wf()
                    &&& interpreter.store().frames().len() == 0
                    &&& interpreter.printed().len() == 0
                    &&& interpreter.failed_imports().len() == 0
                    &&& interpreter.modules().len() == 0
                    &&& interpreter.paths().len() == 1
                    &&& interpreter.paths()[0]@ == path@
                    &&& interpreter.sources()[0]@ == source@
                    &&& interpreter.program() == ast
                    &&& interpreter.steps() == DEFAULT_STEPS
                    &&& interpreter.depth_limit() == DEFAULT_DEPTH
                    &&& crate::native::lang::hashmap::is_methods(
                        interpreter.library().hashmap.program.body@,
                    )
                },
                Err(_) => false,
            },
    {
        let std_lang = crate::native::get_values()?;
        let mut paths: Vec<String> = Vec::new();
        paths.push(path.to_owned());
        let mut sources: Vec<String> = Vec::new();
        sources.push(source.to_owned());
        Ok(
            Interpreter {
                paths,
                sources,
                ast,
                vault: Vault::new(),
                std_lang,
                modules: Vec::new(),
                output: Vec::new(),
                reports: Vec::new(),
                steps_left: DEFAULT_STEPS,
                max_depth: DEFAULT_DEPTH,
            },
        )
    }

    /// Sets how deep evaluation may nest and how many rounds loops may make from now on.
    pub fn set_limits(&mut self, max_depth: usize, steps: u64)
        requires
            old(self).wf(),
        ensures
            final(self).wf(),
            final(self).depth_limit() == max_depth,
            final(self).steps() == steps,
            final(self).store() == old(self).store(),
            final(self).printed() == old(self).printed(),
            final(self).failed_imports() == old(self).failed_imports(),
            final(self).modules() == old(self).modules(),
            final(self).paths() == old(self).paths(),
            final(self).sources() == old(self).sources(),
    {
        self.max_depth = max_depth;
        self.steps_left = steps;
    }

    /// Makes the file at `path` known to imports: its text, which is parsed at once, or the
    /// reason why it could not be read. A text is filed as malformed only where it does not
    /// parse. Of two files with one path, imports find the first.
    pub fn provide_module(&mut self, path: String, contents: Result<String, String>)
        requires
            old(self).wf(),
        ensures
            final(self).wf(),
            final(self).modules().len() == old(self).modules().len() + 1,
            final(self).modules().drop_last() == old(self).modules(),
            final(self).modules().last().path == path,
            match contents {
                Ok(text) => match final(self).modules().last().contents {
                    Loaded::Parsed { source, ast } => source == text && crate::grammar::parses_to(
                        text@,
                        *ast,
                    ),
                    Loaded::Malformed(d) => d.source@ == text@ && d.path@ == path@
                        && crate::parse_failure::parse_fails(text@),
                    Loaded::Unreadable(_) => false,
                },
                Err(why) => final(self).modules().last().contents == Loaded::Unreadable(why),
            },
            final(self).store() == old(self).store(),
            final(self).printed() == old(self).printed(),
            final(self).failed_imports() == old(self).failed_imports(),
            final(self).paths() == old(self).paths(),
            final(self).sources() == old(self).sources(),
            final(self).steps() == old(self).steps(),
            final(self).depth_limit() == old(self).depth_limit(),
    {
        let loaded = match contents {
            Ok(text) => {
                let parsed = crate::parser::parse_source(path.as_str(), text.as_str());
                match parsed {
                    Ok(ast) => Loaded::Parsed { source: text, ast: Rc::new(ast) },
                    Err(d) => Loaded::Malformed(d),
                }
            },
            Err(why) => Loaded::Unreadable(why),
        };
        self.modules.push(Module { path, contents: loaded });
        proof {
            assert(self.modules@.drop_last() =~= old(self).modules@);
        }
    }

    /// The vault of scopes.
    pub fn vault(&self) -> (v: &Vault)
        ensures
            *v == self.store(),
    {
        &self.vault
    }

    /// Hands out what the program has printed since the last call.
    pub fn take_output(&mut self) -> (out: Vec<Printed>)
        requires
            old(self).wf(),
        ensures
            final(self).wf(),
            out@ == old(self).printed(),
            final(self).printed().len() == 0,
            final(self).store() == old(self).store(),
            final(self).failed_imports() == old(self).failed_imports(),
            final(self).modules() == old(self).modules(),
            final(self).paths() == old(self).paths(),
            final(self).sources() == old(self).sources(),
            final(self).steps() == old(self).steps(),
            final(self).depth_limit() == old(self).depth_limit(),
    {
        let mut out: Vec<Printed> = Vec::new();
        std::mem::swap(&mut out, &mut self.output);
        out
    }

    /// Hands out the imports that have failed since the last call.
    pub fn take_reports(&mut self) -> (out: Vec<Diagnostic>)
        requires
            old(self).wf(),
        ensures
            final(self).wf(),
            out@ == old(self).failed_imports(),
            final(self).failed_imports().len() == 0,
            final(self).store() == old(self).store(),
            final(self).printed() == old(self).printed(),
            final(self).modules() == old(self).modules(),
            final(self).paths() == old(self).paths(),
            final(self).sources() == old(self).sources(),
            final(self).steps() == old(self).steps(),
            final(self).depth_limit() == old(self).depth_limit(),
    {
        let mut out: Vec<Diagnostic> = Vec::new();
        std::mem::swap(&mut out, &mut self.reports);
        out
    }

    /// The text that the program has printed and nobody has taken yet.
    pub fn output_text(&self) -> (text: String)
        ensures
            text@ == Interpreter::texts_of(self.printed()),
    {
        let mut text = String::new();
        let mut i: usize = 0;
        proof {
            assert(self.output@.take(0).len() == 0);
        }
        while i < self.output.len()
            invariant
                i <= self.output@.len(),
                text@ == Interpreter::texts_of(self.output@.take(i as int)),
            decreases self.output@.len() - i,
        {
            text.append(self.output[i].text.as_str());
            i += 1;
            proof {
                assert(self.output@.take(i as int).drop_last() == self.output@.take(i as int - 1));
            }
        }
        proof {
            assert(self.output@.take(self.output@.len() as int) == self.output@);
        }
        text
    }

    /// The texts of `pieces`, one after the other.
    pub open spec fn texts_of(pieces: Seq<Printed>) -> Seq<char>
        decreases pieces.len(),
    {
        if pieces.len() == 0 {
            Seq::empty()
        } else {
            Interpreter::texts_of(pieces.drop_last()) + pieces.last().text@
        }
    }

    /// Appends `line` to the text of the file that is being evaluated, as a prompt does with
    /// each line that it reads.
    pub fn append_to_current_source(&mut self, line: &str)
        requires
            old(self).wf(),
        ensures
            final(self).wf(),
            final(self).store() == old(self).store(),
            final(self).printed() == old(self).printed(),
            final(self).failed_imports() == old(self).failed_imports(),
            final(self).modules() == old(self).modules(),
            final(self).paths() == old(self).paths(),
            final(self).steps() == old(self).steps(),
            final(self).depth_limit() == old(self).depth_limit(),
            final(self).sources().len() == old(self).sources().len(),
            final(self).sources().last()@ == old(self).sources().last()@ + line@,
            forall|i: int|
                0 <= i < old(self).sources().len() - 1 ==> final(self).sources()[i] == old(self).sources()[i],
    {
        let last = self.sources.len() - 1;
        self.sources[last].append(line);
    }

    /// A fatal error about the characters `start..end` of the file that is being evaluated.
    pub(crate) fn report(&self, message: String, start: usize, end: usize) -> (d: Diagnostic)
        requires
            self.wf(),
        ensures
            d.path@ == self.paths().last()@,
            d.source@ == self.sources().last()@,
            d.message == message,
            d.start == start,
            d.end == end,
    {
        let path = &self.paths[self.paths.len() - 1];
        let source = &self.sources[self.sources.len() - 1];
        Diagnostic::new(path.as_str(), source.as_str(), message, start, end)
    }

    /// The fatal error that stands for a refusal of the vault.
    pub(crate) fn refused(&self, e: VaultError, node: Node) -> (d: Diagnostic)
        requires
            self.wf(),
        ensures
            reported(*self, d, refusal_text(e), node),
    {
        let message = match e {
            VaultError::NoActiveScope => "No scope is active",
            VaultError::NotABlock => "The innermost scope is not a block",
            VaultError::NotADeclaration => "The innermost scope is not being declared",
            VaultError::NotEntered => "The innermost scope was not entered",
            VaultError::StaleHandle => "The scope is no longer alive",
        };
        self.report(message.to_owned(), node.start, node.end)
    }

    /// Enters a block.
    pub(crate) fn increment_scope(&mut self) -> (h: Handle)
        requires
            old(self).wf(),
        ensures
            old(self).evolves(final(self)),
            Vault::opened(
                &old(self).store(),
                &final(self).store(),
                h,
                FrameKind::Block,
                Seq::empty(),
            ),
            final(self).store().frames().drop_last() == old(self).store().frames(),
            final(self).store().frames().last() == (Frame { handle: h, kind: FrameKind::Block }),
            final(self).paths() == old(self).paths(),
            final(self).sources() == old(self).sources(),
            final(self).steps() == old(self).steps(),
            final(self).printed() == old(self).printed(),
            final(self).failed_imports() == old(self).failed_imports(),
            enters_block(*old(self), *final(self), h),
    {
        let h = self.vault.enter_block();
        proof {
            assert(self.store().frames().drop_last() =~= old(self).store().frames());
        }
        h
    }

    /// Exits the innermost block, and deletes its record with the named scopes that it owns.
    pub(crate) fn decrement_scope(&mut self, node: Node) -> (r: Result<(), Diagnostic>)
        requires
            old(self).wf(),
        ensures
            r matches Err(d) ==> *final(self) == *old(self) && reported(
                *old(self),
                d,
                refusal_text(
                    if old(self).store().frames().len() == 0 {
                        VaultError::NoActiveScope
                    } else {
                        VaultError::NotABlock
                    },
                ),
                node,
            ),
            old(self).advances(final(self)),
            final(self).paths() == old(self).paths(),
            final(self).sources() == old(self).sources(),
            final(self).steps() == old(self).steps(),
            final(self).printed() == old(self).printed(),
            final(self).failed_imports() == old(self).failed_imports(),
            match r {
                Ok(()) => {
                    &&& old(self).store().frames().len() > 0
                    &&& old(self).store().frames().last().kind == FrameKind::Block
                    &&& final(self).store().frames() == old(self).store().frames().drop_last()
                    &&& Vault::released(
                        &old(self).store(),
                        &final(self).store(),
                        old(self).store().frames().last().handle,
                    )
                },
                Err(_) => {
                    &&& final(self).store() == old(self).store()
                    &&& old(self).store().frames().len() > 0 ==> old(self).store().frames().last().kind != FrameKind::Block
                },
            },
            r is Ok ==> exits_block(*old(self), *final(self)),
    {
        match self.vault.exit_block() {
            Ok(()) => Ok(()),
            Err(e) => Err(self.refused(e, node)),
        }
    }

    /// Starts the declaration of a named scope.
    pub(crate) fn start_declaration_of_named_scope(&mut self, name: &str) -> (h: Handle)
        requires
            old(self).wf(),
        ensures
            old(self).evolves(final(self)),
            Vault::opened(
                &old(self).store(),
                &final(self).store(),
                h,
                FrameKind::Declaration,
                name@,
            ),
            final(self).store().frames().drop_last() == old(self).store().frames(),
            final(self).store().frames().last() == (Frame { handle: h, kind: FrameKind::Declaration }),
            final(self).paths() == old(self).paths(),
            final(self).sources() == old(self).sources(),
            final(self).steps() == old(self).steps(),
            final(self).printed() == old(self).printed(),
            final(self).failed_imports() == old(self).failed_imports(),
            starts_declaration(*old(self), *final(self), h, name@),
    {
        let h = self.vault.declare_named_scope(name.to_owned());
        proof {
            assert(self.store().frames().drop_last() =~= old(self).store().frames());
        }
        h
    }

    /// Ends the declaration of the innermost named scope: the scope below owns it from now on
    /// and binds its name to its handle.
    pub(crate) fn end_declaration_of_named_scope(&mut self, node: Node) -> (r: Result<
        Handle,
        Diagnostic,
    >)
        requires
            old(self).wf(),
        ensures
            r matches Err(d) ==> *final(self) == *old(self) && reported(
                *old(self),
                d,
                refusal_text(old(self).store().declaration_refusal()->Some_0),
                node,
            ),
            old(self).advances(final(self)),
            final(self).paths() == old(self).paths(),
            final(self).sources() == old(self).sources(),
            final(self).steps() == old(self).steps(),
            final(self).printed() == old(self).printed(),
            final(self).failed_imports() == old(self).failed_imports(),
            match r {
                Ok(h) => {
                    &&& Vault::adopted(&old(self).store(), &final(self).store(), h)
                    &&& final(self).store().frames() == old(self).store().frames().drop_last()
                },
                Err(_) => final(self).store() == old(self).store() && old(self).store().declaration_refusal() is Some,
            },
            r is Ok ==> old(self).store().declaration_refusal() is None,
            r matches Ok(h) ==> ends_declaration(*old(self), *final(self), h),
    {
        match self.vault.end_declaration() {
            Ok(h) => Ok(h),
            Err(e) => Err(self.refused(e, node)),
        }
    }

    /// Enters the named scope that `h` names.
    pub(crate) fn enter_named_scope(&mut self, h: Handle, node: Node) -> (r: Result<
        (),
        Diagnostic,
    >)
        requires
            old(self).wf(),
        ensures
            r matches Err(d) ==> *final(self) == *old(self) && reported(
                *old(self),
                d,
                refusal_text(VaultError::StaleHandle),
                node,
            ),
            old(self).evolves(final(self)),
            final(self).paths() == old(self).paths(),
            final(self).sources() == old(self).sources(),
            final(self).steps() == old(self).steps(),
            final(self).printed() == old(self).printed(),
            final(self).failed_imports() == old(self).failed_imports(),
            match r {
                Ok(()) => {
                    &&& Vault::entered(&old(self).store(), &final(self).store(), h)
                    &&& final(self).store().frames().drop_last() == old(self).store().frames()
                    &&& final(self).store().frames().last() == Frame {
                        handle: h,
                        kind: FrameKind::Entered,
                    }
                },
                Err(_) => final(self).store() == old(self).store() && !old(self).store().live(h),
            },
            r is Ok ==> enters_scope(*old(self), *final(self), h),
    {
        match self.vault.enter_named_scope(h) {
            Ok(()) => {
                proof {
                    assert(self.store().frames().drop_last() =~= old(self).store().frames());
                }
                Ok(())
            },
            Err(e) => Err(self.refused(e, node)),
        }
    }

    /// Leaves the named scope that was entered last.
    pub(crate) fn exit_named_scope(&mut self, node: Node) -> (r: Result<Handle, Diagnostic>)
        requires
            old(self).wf(),
        ensures
            r matches Err(d) ==> *final(self) == *old(self) && reported(
                *old(self),
                d,
                refusal_text(
                    if old(self).store().frames().len() == 0 {
                        VaultError::NoActiveScope
                    } else {
                        VaultError::NotEntered
                    },
                ),
                node,
            ),
            old(self).advances(final(self)),
            final(self).paths() == old(self).paths(),
            final(self).sources() == old(self).sources(),
            final(self).steps() == old(self).steps(),
            final(self).printed() == old(self).printed(),
            final(self).failed_imports() == old(self).failed_imports(),
            match r {
                Ok(h) => {
                    &&& Vault::left(&old(self).store(), &final(self).store())
                    &&& final(self).store().frames() == old(self).store().frames().drop_last()
                    &&& old(self).store().frames().last() == Frame {
                        handle: h,
                        kind: FrameKind::Entered,
                    }
                },
                Err(_) => {
                    &&& final(self).store() == old(self).store()
                    &&& old(self).store().frames().len() > 0 ==> old(self).store().frames().last().kind
                        != FrameKind::Entered
                },
            },
            r is Ok ==> leaves_scope(*old(self), *final(self)),
    {
        match self.vault.exit_named_scope() {
            Ok(h) => Ok(h),
            Err(e) => Err(self.refused(e, node)),
        }
    }

    /// Binds `name` to `value` in the innermost scope.
    pub(crate) fn declare_variable(&mut self, name: &str, value: Value, node: Node) -> (r:
        Result<(), Diagnostic>)
        requires
            old(self).wf(),
        ensures
            r matches Err(d) ==> *final(self) == *old(self) && reported(
                *old(self),
                d,
                refusal_text(
                    if old(self).store().current() is Some {
                        VaultError::StaleHandle
                    } else {
                        VaultError::NoActiveScope
                    },
                ),
                node,
            ),
            old(self).evaluated(final(self), r),
            final(self).steps() == old(self).steps(),
            final(self).printed() == old(self).printed(),
            final(self).failed_imports() == old(self).failed_imports(),
            match r {
                Ok(()) => {
                    &&& old(self).store().current() matches Some(h)
                    &&& Vault::rebound(&old(self).store(), &final(self).store(), h)
                    &&& forall|n: Seq<char>|
                        #[trigger] final(self).store().scope(h).get(n) == (if n == name@ {
                            Some(value)
                        } else {
                            old(self).store().scope(h).get(n)
                        })
                },
                Err(_) => {
                    &&& final(self).store() == old(self).store()
                    &&& match old(self).store().current() {
                        Some(h) => !old(self).store().live(h),
                        None => true,
                    }
                },
            },
            r is Ok ==> declares(*old(self), *final(self), name@, value),
    {
        match self.vault.declare_variable(name.to_owned(), value) {
            Ok(()) => Ok(()),
            Err(e) => Err(self.refused(e, node)),
        }
    }

    /// Binds `name` to `value` in the record that `h` names.
    pub(crate) fn set_in_scope(&mut self, h: Handle, name: String, value: Value, node: Node) -> (r:
        Result<(), Diagnostic>)
        requires
            old(self).wf(),
        ensures
            r matches Err(d) ==> *final(self) == *old(self) && reported(
                *old(self),
                d,
                refusal_text(VaultError::StaleHandle),
                node,
            ),
            old(self).evaluated(final(self), r),
            final(self).steps() == old(self).steps(),
            final(self).printed() == old(self).printed(),
            final(self).failed_imports() == old(self).failed_imports(),
            match r {
                Ok(()) => {
                    &&& Vault::rebound(&old(self).store(), &final(self).store(), h)
                    &&& forall|n: Seq<char>|
                        #[trigger] final(self).store().scope(h).get(n) == (if n == name@ {
                            Some(value)
                        } else {
                            old(self).store().scope(h).get(n)
                        })
                    &&& final(self).store().scope(h).count() == old(self).store().scope(
                        h,
                    ).count() + (if old(self).store().scope(h).holds(name@) {
                        0nat
                    } else {
                        1nat
                    })
                },
                Err(_) => final(self).store() == old(self).store() && !old(self).store().live(h),
            },
            r is Ok ==> binds(*old(self), *final(self), h, name@, value),
    {
        match self.vault.set_in(h, name, value) {
            Ok(()) => Ok(()),
            Err(e) => Err(self.refused(e, node)),
        }
    }

    /// Removes the binding of `name` from the record that `h` names.
    pub(crate) fn remove_in_scope(&mut self, h: Handle, name: &String, node: Node) -> (r: Result<
        (),
        Diagnostic,
    >)
        requires
            old(self).wf(),
        ensures
            r matches Err(d) ==> *final(self) == *old(self) && reported(
                *old(self),
                d,
                refusal_text(VaultError::StaleHandle),
                node,
            ),
            old(self).evaluated(final(self), r),
            final(self).steps() == old(self).steps(),
            final(self).printed() == old(self).printed(),
            final(self).failed_imports() == old(self).failed_imports(),
            match r {
                Ok(()) => {
                    &&& Vault::rebound(&old(self).store(), &final(self).store(), h)
                    &&& forall|n: Seq<char>|
                        #[trigger] final(self).store().scope(h).get(n) == (if n == name@ {
                            None
                        } else {
                            old(self).store().scope(h).get(n)
                        })
                    &&& final(self).store().scope(h).count() == old(self).store().scope(
                        h,
                    ).count() - (if old(self).store().scope(h).holds(name@) {
                        1nat
                    } else {
                        0nat
                    })
                },
                Err(_) => final(self).store() == old(self).store() && !old(self).store().live(h),
            },
            r is Ok ==> unbinds(*old(self), *final(self), h, name@),
    {
        match self.vault.remove_in(h, name) {
            Ok(()) => Ok(()),
            Err(e) => Err(self.refused(e, node)),
        }
    }

    /// Adds a piece to what the program has printed.
    pub(crate) fn emit(&mut self, text: String, tone: Tone)
        requires
            old(self).wf(),
        ensures
            old(self).settled(final(self)),
            final(self).printed() == old(self).printed().push(Printed { text, tone }),
            final(self).store() == old(self).store(),
            final(self).steps() == old(self).steps(),
            final(self).failed_imports() == old(self).failed_imports(),
    {
        self.output.push(Printed { text, tone });
    }

    /// Uses up one round of the budget of loops.
    pub(crate) fn spend_step(&mut self, node: Node) -> (r: Result<(), Diagnostic>)
        requires
            old(self).wf(),
        ensures
            r matches Err(d) ==> *final(self) == *old(self) && reported(
                *old(self),
                d,
                "The budget of loop rounds is used up"@,
                node,
            ),
            old(self).settled(final(self)),
            final(self).store() == old(self).store(),
            final(self).printed() == old(self).printed(),
            final(self).failed_imports() == old(self).failed_imports(),
            match r {
                Ok(()) => old(self).steps() > 0 && final(self).steps() == old(self).steps() - 1,
                Err(_) => old(self).steps() == 0 && final(self).steps() == 0,
            },
            r is Ok ==> spends_step(*old(self), *final(self)),
    {
        if self.steps_left == 0 {
            return Err(
                self.report("The budget of loop rounds is used up".to_owned(), node.start, node.end),
            );
        }
        self.steps_left = self.steps_left - 1;
        Ok(())
    }

    /// The fatal error that evaluation is nested too deeply.
    pub(crate) fn too_deep(&self, node: Node) -> (d: Diagnostic)
        requires
            self.wf(),
        ensures
            reported(*self, d, "Evaluation is nested too deeply"@, node),
    {
        self.report("Evaluation is nested too deeply".to_owned(), node.start, node.end)
    }

    /// Sets up the vault: the scope of the standard library with its native routines, and on
    /// top of it the global scope, which sees the library under the name `std`. It does not
    /// fail.
    pub fn initialize(&mut self) -> (r: Result<(), Diagnostic>)
        requires
            old(self).wf(),
        ensures
            old(self).evolves(final(self)),
            final(self).paths() == old(self).paths(),
            final(self).sources() == old(self).sources(),
            r is Ok,
            initialized(*old(self), *final(self)),
    {
        self.set_up()
    }

    /// Enters the scope of the standard library and fills it, then enters the global scope
    /// and fills it.
    #[verifier::rlimit(40)]
    fn set_up(&mut self) -> (r: Result<(), Diagnostic>)
        requires
            old(self).wf(),
        ensures
            old(self).evolves(final(self)),
            r is Ok,
            final(self).paths() == old(self).paths(),
            final(self).sources() == old(self).sources(),
            initialized(*old(self), *final(self)),
    {
        let std_scope = self.increment_scope();
        let ghost entered = self.store();
        crate::native::inject(self)?;
        let ghost filled = self.store();
        let global = self.increment_scope();
        let ghost opened = self.store();
        self.fill_global(std_scope)?;
        proof {
            let last = self.store();
            assert(entered.current() == Some(std_scope));
            assert(opened.current() == Some(global));
            assert(filled.live(std_scope));
            assert(std_scope != global);
            assert(opened.live(std_scope));
            assert(last.scope(std_scope) == filled.scope(std_scope));
            assert(crate::native::keeps_around(filled, last, std_scope)) by {
                assert forall|g: Handle|
                    #[trigger] filled.live(g) && g != std_scope implies last.live(g) && last.scope(
                    g,
                ) == filled.scope(g) by {
                    assert(opened.live(g));
                    assert(g != global);
                }
                assert forall|c: Handle| #[trigger] filled.owns(std_scope, c) implies last.owns(
                    std_scope,
                    c,
                ) by {}
            }
            crate::native::lemma_standard_library_kept(filled, last, std_scope);
            assert(last.frames() == old(self).store().frames().push(
                Frame { handle: std_scope, kind: FrameKind::Block },
            ).push(Frame { handle: global, kind: FrameKind::Block }));
            assert(!old(self).store().issued(global)) by {
                old(self).store().lemma_no_return(&filled, global);
            }
            assert(set_up_with(*old(self), *self, std_scope, global));
            assert(given2(std_scope, global));
        }
        Ok(())
    }

    /// Binds, in the innermost scope, what the global scope of a program binds.
    #[verifier::rlimit(40)]
    fn fill_global(&mut self, library: Handle) -> (r: Result<(), Diagnostic>)
        requires
            old(self).wf(),
        ensures
            old(self).evaluated(final(self), r),
            r is Ok <==> old(self).store().current() is Some && old(self).store().live(
                old(self).store().current()->Some_0,
            ),
            r is Ok ==> {
                let global = old(self).store().current()->Some_0;
                let bound = final(self).store().scope(global);
                &&& old(self).store().current() is Some
                &&& crate::semantics::only_scopes_change(*old(self), *final(self))
                &&& Vault::rebound(&old(self).store(), &final(self).store(), global)
                &&& crate::native::io::binds_printing(bound)
                &&& bound.get("std"@) == Some(Value::ScopeRef(library))
                &&& bound.get("__module__"@) == Some(Value::Bool(false))
                &&& bound.get("__name__"@) is Some
                &&& bound.get("__name__"@)->Some_0 is Str
                &&& bound.get("__name__"@)->Some_0->Str_0@ == "main"@
                &&& bound.get("__file__"@) == Some(Value::Str(old(self).paths()[0]))
            },
    {
        proof {
            reveal_strlit("__file__");
            reveal_strlit("__name__");
            reveal_strlit("__module__");
            reveal_strlit("std");
            reveal_strlit("print");
            reveal_strlit("println");
            assert("__file__"@.len() == 8 && "__name__"@.len() == 8 && "__module__"@.len() == 10
                && "std"@.len() == 3 && "print"@.len() == 5 && "println"@.len() == 7);
            assert("__file__"@[2] == 'f' && "__name__"@[2] == 'n');
        }
        let node = Node::new(0, 0);
        let ghost global = self.store().current()->Some_0;
        let ghost opened = self.store();
        let path = self.paths[0].clone();
        self.declare_variable("__file__", Value::Str(path), node)?;
        let ghost s1 = self.store();
        self.declare_variable("__name__", Value::Str("main".to_owned()), node)?;
        let ghost s2 = self.store();
        self.declare_variable("__module__", Value::Bool(false), node)?;
        let ghost s3 = self.store();
        self.declare_variable("std", Value::ScopeRef(library), node)?;
        let ghost s4 = self.store();
        let here = match self.vault.current_scope() {
            Some(h) => h,
            None => {
                return Err(self.refused(VaultError::NoActiveScope, node));
            },
        };
        crate::native::io::inject(self, here)?;
        proof {
            let last = self.store();
            Vault::lemma_rebound_twice(&opened, &s1, &s2, global);
            Vault::lemma_rebound_twice(&opened, &s2, &s3, global);
            Vault::lemma_rebound_twice(&opened, &s3, &s4, global);
            Vault::lemma_rebound_twice(&opened, &s4, &last, global);
        }
        Ok(())
    }

    /// Sets up the vault and evaluates the program.
    pub fn run(&mut self) -> (r: Result<(), Diagnostic>)
        requires
            old(self).wf(),
        ensures
            old(self).evolves(final(self)),
            final(self).paths() == old(self).paths(),
            final(self).sources() == old(self).sources(),
            r is Err ==> run_fails(*old(self)),
            r is Ok ==> exists|ready: Interpreter<'a>, control: ControlFlow|
                #![trigger given2(ready, control)]
                given2(ready, control) && initialized(*old(self), ready) && block_sem(
                    ready,
                    old(self).program().program.body@,
                    old(self).depth_limit(),
                    *final(self),
                    control,
                ),
    {
        self.initialize()?;
        let ghost ready = *self;
        let ast = self.ast;
        let done = self.eval_ast(ast);
        proof {
            assert(given(ready));
            if done is Ok {
                let control = choose|control: ControlFlow| #[trigger]
                    given(control) && block_sem(
                        ready,
                        ast.program.body@,
                        ready.depth_limit(),
                        *self,
                        control,
                    );
                assert(given2(ready, control));
            }
        }
        done
    }

    /// Evaluates the statements of `ast` in the innermost scope. Whether it fails or not, the
    /// scope stack and the files are then as they were found.
    pub fn eval_ast(&mut self, ast: &Ast) -> (r: Result<(), Diagnostic>)
        requires
            old(self).wf(),
        ensures
            old(self).settled(final(self)),
            r is Err ==> block_fails(*old(self), ast.program.body@, old(self).depth_limit()),
            r is Ok ==> exists|control: ControlFlow| #[trigger]
                given(control) && block_sem(
                    *old(self),
                    ast.program.body@,
                    old(self).depth_limit(),
                    *final(self),
                    control,
                ),
    {
        let frames = self.vault.depth();
        let files = self.paths.len();
        let limit = self.max_depth;
        let outcome = self.eval_block(&ast.program.body, limit);
        match outcome {
            Ok(control) => {
                proof {
                    assert(given(control));
                }
                Ok(())
            },
            Err(d) => {
                self.restore(frames, files);
                proof {
                    assert(self.store().frames() =~= old(self).store().frames());
                    assert(self.paths() =~= old(self).paths());
                    assert(self.sources() =~= old(self).sources());
                }
                Err(d)
            },
        }
    }

    /// Removes the frames and the files that an evaluation has left behind when it failed.
    fn restore(&mut self, frames: usize, files: usize)
        requires
            old(self).wf(),
            1 <= files <= old(self).paths().len(),
            frames <= old(self).store().frames().len(),
        ensures
            old(self).advances(final(self)),
            final(self).store().frames() == old(self).store().frames().take(frames as int),
            final(self).paths() == old(self).paths().take(files as int),
            final(self).sources() == old(self).sources().take(files as int),
            final(self).steps() == old(self).steps(),
            final(self).depth_limit() == old(self).depth_limit(),
            final(self).printed() == old(self).printed(),
            final(self).failed_imports() == old(self).failed_imports(),
            final(self).modules() == old(self).modules(),
            final(self).library() == old(self).library(),
            final(self).program() == old(self).program(),
    {
        self.vault.unwind(frames);
        self.paths.truncate(files);
        self.sources.truncate(files);
    }

    /// Evaluates the statements of `body` in order, up to the first that asks for something
    /// other than to go on, and gives what that one asked for.
    pub(crate) fn eval_block(&mut self, body: &Vec<Statement>, depth: usize) -> (r: Result<
        ControlFlow,
        Diagnostic,
    >)
        requires
            old(self).wf(),
        ensures
            old(self).evaluated(final(self), r),
            r is Err ==> block_fails(*old(self), body@, depth as nat),
            body@.len() == 0 ==> r == Ok::<ControlFlow, Diagnostic>(ControlFlow::Normal)
                && *final(self) == *old(self),
            r matches Ok(control) ==> block_sem(
                *old(self),
                body@,
                depth as nat,
                *final(self),
                control,
            ),
        decreases depth, 0nat,
    {
        if depth == 0 {
            if body.len() == 0 {
                return Ok(ControlFlow::Normal);
            }
            proof {
                assert(given2(0nat, *old(self)));
            }
            return Err(self.too_deep(Node::new(0, 0)));
        }
        let mut i: usize = 0;
        while i < body.len()
            invariant
                i <= body@.len(),
                depth > 0,
                old(self).settled(self),
                i == 0 ==> *self == *old(self),
                block_prefix_sem(*old(self), body@, i as nat, depth as nat, *self),
            decreases body@.len() - i,
        {
            let ghost before = *self;
            proof {
                assert(given2(i as nat, before));
            }
            let control = self.eval_statement(&body[i], depth - 1)?;
            match control {
                ControlFlow::Normal => {},
                _ => {
                    proof {
                        assert(given2(i as nat, before));
                    }
                    return Ok(control);
                },
            }
            i += 1;
            proof {
                assert(given(before));
            }
        }
        Ok(ControlFlow::Normal)
    }

    /// Evaluates one statement, and gives what it asks of the statements around it.
    #[verifier::rlimit(40)]
    pub(crate) fn eval_statement(&mut self, statement: &Statement, depth: usize) -> (r: Result<
        ControlFlow,
        Diagnostic,
    >)
        requires
            old(self).wf(),
        ensures
            old(self).evaluated(final(self), r),
            r is Err ==> statement_fails(*old(self), *statement, depth as nat),
            statement is ContinueStatement && depth > 0 ==> r == Ok::<ControlFlow, Diagnostic>(
                ControlFlow::Continue,
            ) && *final(self) == *old(self),
            statement is BreakStatement && depth > 0 ==> r == Ok::<ControlFlow, Diagnostic>(
                ControlFlow::Break,
            ) && *final(self) == *old(self),
            (statement is YieldStatement || statement is TryStatement) ==> r is Err,
            r matches Ok(control) ==> statement_sem(
                *old(self),
                *statement,
                depth as nat,
                *final(self),
                control,
            ),
        decreases depth, 0nat,
    {
        if depth == 0 {
            return Err(self.too_deep(Node::new(0, 0)));
        }
        match statement {
            Statement::ExpressionStatement(expr) => {
                let value = self.eval_expression(expr, depth - 1)?;
                proof {
                    assert(given(value));
                }
                Ok(ControlFlow::Normal)
            },
            Statement::ReturnStatement(v) => {
                let value = self.eval_expression(&v.argument, depth - 1)?;
                Ok(ControlFlow::Return(value))
            },
            Statement::ThrowStatement(v) => {
                let value = self.eval_expression(&v.argument, depth - 1)?;
                Ok(ControlFlow::Throw(value))
            },
            Statement::ContinueStatement(_) => Ok(ControlFlow::Continue),
            Statement::BreakStatement(_) => Ok(ControlFlow::Break),
            Statement::YieldStatement(y) => Err(
                self.report("`yield` is not supported".to_owned(), y.node.start, y.node.end),
            ),
            Statement::VariableDeclaration(decl) => {
                let value = if decl.is_formula {
                    Value::Ast(share(&decl.init))
                } else {
                    self.eval_expression(&decl.init, depth - 1)?
                };
                let ghost mid = *self;
                proof {
                    assert(given2(mid, value));
                }
                self.declare_variable(decl.id.as_str(), value, decl.node)?;
                Ok(ControlFlow::Normal)
            },
            Statement::FunctionDeclaration(decl) => {
                self.declare_variable(decl.id.as_str(), Value::Function(share(decl)), decl.node)?;
                Ok(ControlFlow::Normal)
            },
            Statement::ScopeDeclaration(decl) => {
                let scope = self.start_declaration_of_named_scope(decl.id.as_str());
                let ghost started = *self;
                proof {
                    assert(given2(started, scope));
                }
                let inner = self.eval_block(&decl.body, depth - 1)?;
                let ghost done = *self;
                proof {
                    assert(given2(done, inner));
                }
                let ended = self.end_declaration_of_named_scope(decl.node)?;
                proof {
                    assert(ended == scope);
                    assert(given4(started, scope, done, inner));
                }
                Ok(ControlFlow::Normal)
            },
            Statement::ContextDeclaration(decl) => {
                let scope = self.start_declaration_of_named_scope(decl.id.as_str());
                let ghost started = *self;
                self.declare_variable("this", Value::ScopeRef(scope), decl.node)?;
                let ghost bound = *self;
                proof {
                    assert(given3(started, scope, bound));
                }
                let inner = self.eval_block(&decl.body, depth - 1)?;
                let ghost done = *self;
                proof {
                    assert(given2(done, inner));
                }
                let ended = self.end_declaration_of_named_scope(decl.node)?;
                proof {
                    assert(ended == scope);
                    assert(given5(started, scope, bound, done, inner));
                }
                Ok(ControlFlow::Normal)
            },
            Statement::IfStatement(if_stmt) => self.eval_if_statement(if_stmt, depth - 1),
            Statement::ForStatement(for_stmt) => self.eval_for_statement(for_stmt, depth - 1),
            Statement::WhileStatement(while_stmt) => self.eval_while_statement(
                while_stmt,
                depth - 1,
            ),
            Statement::LoopStatement(loop_stmt) => self.eval_loop_statement(loop_stmt, depth - 1),
            Statement::TryStatement(t) => Err(
                self.report("`try` is not supported".to_owned(), t.node.start, t.node.end),
            ),
            Statement::BlockStatement(body) => {
                let block = self.increment_scope();
                let ghost entered = *self;
                proof {
                    assert(given2(entered, block));
                }
                let control = self.eval_block(body, depth - 1)?;
                let ghost done = *self;
                self.decrement_scope(Node::new(0, 0))?;
                proof {
                    assert(given3(entered, block, done));
                }
                Ok(control)
            },
            Statement::AssignStatement(assign_stmt) => self.eval_assign_statement(
                assign_stmt,
                depth - 1,
            ),
            Statement::ImportStatement(import_stmt) => {
                self.eval_import_statement(import_stmt, depth - 1)?;
                Ok(ControlFlow::Normal)
            },
        }
    }

    /// The module that was provided under `path`.
    fn find_module(&self, path: &String) -> (r: Option<usize>)
        ensures
            match r {
                Some(i) => i < self.modules().len() && self.modules()[i as int].path@ == path@
                    && module_at(*self, path@, 0) == Some(self.modules()[i as int].contents),
                None => module_at(*self, path@, 0) is None,
            },
    {
        let mut i: usize = 0;
        while i < self.modules.len()
            invariant
                i <= self.modules@.len(),
                module_at(*self, path@, 0) == module_at(*self, path@, i as nat),
            decreases self.modules@.len() - i,
        {
            if self.modules[i].path == *path {
                return Some(i);
            }
            i += 1;
        }
        None
    }

    /// Evaluates the file that an import names in a named scope of its own, which the
    /// importing scope then owns under the name that the import gives it. An import whose
    /// file was not provided, or could not be read, is reported and does nothing else.
    #[verifier::rlimit(40)]
    pub(crate) fn eval_import_statement(&mut self, import_stmt: &ImportStatement, depth: usize) -> (r:
        Result<(), Diagnostic>)
        requires
            old(self).wf(),
        ensures
            old(self).evaluated(final(self), r),
            r is Err ==> import_fails(*old(self), *import_stmt, depth as nat),
            r is Ok ==> import_sem(*old(self), *import_stmt, depth as nat, *final(self)),
        decreases depth, 0nat,
    {
        if depth == 0 {
            return Err(self.too_deep(import_stmt.node));
        }
        let current = self.paths[self.paths.len() - 1].clone();
        let file_path = import_path(current.as_str(), import_stmt.source.name.as_str());
        let found = self.find_module(&file_path);
        let failure: String = match found {
            Some(i) => match &self.modules[i].contents {
                Loaded::Parsed { source, ast } => {
                    let text = source.clone();
                    let ast = share(ast);
                    let ghost entry = *self;
                    let ghost wanted = path_of_module(
                        entry.paths().last()@,
                        import_stmt.source.name@,
                    );
                    self.sources.push(text);
                    self.paths.push(file_path.clone());
                    let ghost opened = *self;
                    proof {
                        assert(opened.paths().drop_last() =~= entry.paths());
                        assert(opened.sources().drop_last() =~= entry.sources());
                        assert(opens_file(entry, opened, wanted, *source));
                    }
                    let node = import_stmt.node;
                    let scope = self.start_declaration_of_named_scope(
                        import_stmt.as_name.name.as_str(),
                    );
                    let ghost started = *self;
                    let ghost file = file_path;
                    self.declare_variable("__file__", Value::Str(file_path), node)?;
                    let ghost filed = *self;
                    self.declare_variable(
                        "__name__",
                        Value::Str(import_stmt.as_name.name.clone()),
                        node,
                    )?;
                    let ghost named = *self;
                    self.declare_variable("__module__", Value::Bool(true), node)?;
                    let ghost prepared = *self;
                    proof {
                        assert(given3(filed, named, file));
                        assert(prepares_module(
                            started,
                            prepared,
                            wanted,
                            import_stmt.as_name.name,
                        ));
                    }
                    proof {
                        assert(given4(opened, started, scope, prepared));
                    }
                    let control = self.eval_block(&ast.program.body, depth - 1)?;
                    let ghost done = *self;
                    proof {
                        assert(given2(done, control));
                    }
                    let ended_scope = self.end_declaration_of_named_scope(node)?;
                    let ghost ended = *self;
                    self.paths.pop();
                    self.sources.pop();
                    proof {
                        assert(self.paths@ =~= entry.paths@);
                        assert(self.sources@ =~= entry.sources@);
                        assert(ended_scope == scope);
                        assert(closes_file(ended, *self));
                        assert(given2(control, ended));
                        assert(given5(opened, started, scope, prepared, done));
                    }
                    return Ok(());
                },
                Loaded::Malformed(d) => {
                    return Err(
                        Diagnostic::new(
                            d.path.as_str(),
                            d.source.as_str(),
                            d.message.clone(),
                            d.start,
                            d.end,
                        ),
                    );
                },
                Loaded::Unreadable(why) => why.clone(),
            },
            None => "the file was not provided".to_owned(),
        };
        let mut message = "Failed to import module: `".to_owned();
        message.append(import_stmt.source.name.as_str());
        message.append("`\n");
        message.append(failure.as_str());
        let d = self.report(message, import_stmt.node.start, import_stmt.node.end);
        self.reports.push(d);
        proof {
            assert(self.failed_imports().drop_last() =~= old(self).failed_imports());
        }
        Ok(())
    }

    /// Gives a variable a new value: the given one, or that of the operator applied to its
    /// value so far and the given one.
    pub(crate) fn eval_assign_statement(&mut self, assign_stmt: &AssignStatement, depth: usize) -> (r:
        Result<ControlFlow, Diagnostic>)
        requires
            old(self).wf(),
        ensures
            old(self).evaluated(final(self), r),
            r is Err ==> assign_fails(*old(self), *assign_stmt, depth as nat),
            r matches Ok(control) ==> control is Normal,
            r is Ok ==> assign_sem(*old(self), *assign_stmt, depth as nat, *final(self)),
        decreases depth, 0nat,
    {
        if depth == 0 {
            return Err(self.too_deep(assign_stmt.node));
        }
        let right = self.eval_expression(&assign_stmt.right, depth - 1)?;
        proof {
            assert(given2(*self, right));
        }
        let name = &assign_stmt.left.name;
        let current = match self.vault.resolve(name) {
            Some(v) => v.duplicate(),
            None => {
                let mut message = "Variable `".to_owned();
                message.append(name.as_str());
                message.append("` not found");
                return Err(
                    self.report(message, assign_stmt.left.node.start, assign_stmt.left.node.end),
                );
            },
        };
        let value = apply_assign(assign_stmt.operator, current, right);
        let ghost mid = *self;
        let done = self.vault.assign(name.clone(), value);
        proof {
            assert(given3(mid, right, value));
        }
        Ok(ControlFlow::Normal)
    }

    /// Evaluates the branch that the truth of the test selects.
    pub(crate) fn eval_if_statement(&mut self, if_stmt: &IfStatement, depth: usize) -> (r: Result<
        ControlFlow,
        Diagnostic,
    >)
        requires
            old(self).wf(),
        ensures
            old(self).evaluated(final(self), r),
            r is Err ==> if_fails(*old(self), *if_stmt, depth as nat),
            r matches Ok(control) ==> if_sem(
                *old(self),
                *if_stmt,
                depth as nat,
                *final(self),
                control,
            ),
        decreases depth, 0nat,
    {
        if depth == 0 {
            return Err(self.too_deep(if_stmt.node));
        }
        let test = self.eval_expression(&if_stmt.test, depth - 1)?;
        let ghost tested = *self;
        proof {
            assert(given2(tested, test));
        }
        if test.as_bool() {
            self.eval_block(&if_stmt.consequent, depth - 1)
        } else {
            self.eval_block(&if_stmt.alternate, depth - 1)
        }
    }

    /// Evaluates the body in a block of its own as long as the test holds. `break` ends the
    /// loop and `continue` the round; `return` and `throw` end the loop and go on to the
    /// statements around it.
    #[verifier::rlimit(40)]
    pub(crate) fn eval_while_statement(&mut self, while_stmt: &WhileStatement, depth: usize) -> (r:
        Result<ControlFlow, Diagnostic>)
        requires
            old(self).wf(),
        ensures
            old(self).evaluated(final(self), r),
            r is Err ==> while_fails(*old(self), *while_stmt, depth as nat),
            r matches Ok(control) ==> !(control is Break) && !(control is Continue),
            r matches Ok(control) ==> while_sem(
                *old(self),
                *while_stmt,
                depth as nat,
                *final(self),
                control,
            ),
        decreases depth, 0nat,
    {
        if depth == 0 {
            return Err(self.too_deep(while_stmt.node));
        }
        let block = self.increment_scope();
        let ghost entered = *self;
        let ghost inside = self.store().frames();
        let ghost mut rounds: nat = 0;
        let ghost mut before = *self;
        let ghost mut spent = *self;
        let ghost mut tested = *self;
        let ghost mut test_value = Value::Nil;
        let ghost mut round = ControlFlow::Normal;
        let mut result = ControlFlow::Normal;
        loop
            invariant_except_break
                result is Normal,
                while_rounds_sem(entered, *while_stmt, (depth - 1) as nat, rounds, *self),
            invariant
                enters_block(*old(self), entered, block),
                inside.len() > 0 && inside.last().kind == FrameKind::Block,
                depth > 0,
                old(self).evolves(self),
                self.store().frames() == inside,
                self.paths() == old(self).paths(),
                self.sources() == old(self).sources(),
            ensures
                old(self).evolves(self),
                self.store().frames() == inside,
                self.paths() == old(self).paths(),
                self.sources() == old(self).sources(),
                !(result is Break) && !(result is Continue),
                while_rounds_sem(entered, *while_stmt, (depth - 1) as nat, rounds, before),
                spends_step(before, spent),
                expression_sem(spent, while_stmt.test, (depth - 1) as nat, tested, test_value),
                truthy(test_value) ==> block_sem(
                    tested,
                    while_stmt.body@,
                    (depth - 1) as nat,
                    *self,
                    round,
                ) && crate::semantics::ends_loop(round, result),
                !truthy(test_value) ==> *self == tested && result is Normal,
            decreases self.steps(),
        {
            proof {
                before = *self;
                assert(given4(entered, block, rounds, before));
            }
            self.spend_step(while_stmt.node)?;
            proof {
                spent = *self;
                assert(given(spent));
            }
            let test = self.eval_expression(&while_stmt.test, depth - 1)?;
            proof {
                tested = *self;
                test_value = test;
                assert(given2(tested, test_value));
            }
            if !test.as_bool() {
                break ;
            }
            let control = self.eval_block(&while_stmt.body, depth - 1)?;
            proof {
                round = control;
            }
            match control {
                ControlFlow::Break => {
                    break ;
                },
                ControlFlow::Normal | ControlFlow::Continue => {},
                other => {
                    result = other;
                    break ;
                },
            }
            proof {
                assert(given5(before, spent, tested, test_value, round));
                rounds = rounds + 1;
            }
        }
        let ghost done = *self;
        self.decrement_scope(while_stmt.node)?;
        proof {
            if truthy(test_value) {
                assert(given(round));
            }
            assert(given3(spent, tested, test_value));
            assert(given5(entered, block, rounds, before, done));
        }
        Ok(result)
    }

    /// Evaluates the body in a block of its own until it asks to stop. `break` ends the loop
    /// and `continue` the round; `return` and `throw` end the loop and go on to the
    /// statements around it.
    pub(crate) fn eval_loop_statement(&mut self, loop_stmt: &LoopStatement, depth: usize) -> (r:
        Result<ControlFlow, Diagnostic>)
        requires
            old(self).wf(),
        ensures
            old(self).evaluated(final(self), r),
            r is Err ==> loop_fails(*old(self), *loop_stmt, depth as nat),
            r matches Ok(control) ==> !(control is Break) && !(control is Continue),
            r matches Ok(control) ==> loop_sem(
                *old(self),
                *loop_stmt,
                depth as nat,
                *final(self),
                control,
            ),
        decreases depth, 0nat,
    {
        if depth == 0 {
            return Err(self.too_deep(loop_stmt.node));
        }
        let block = self.increment_scope();
        let ghost entered = *self;
        let ghost inside = self.store().frames();
        let ghost mut rounds: nat = 0;
        let ghost mut before = *self;
        let ghost mut spent = *self;
        let ghost mut round = ControlFlow::Normal;
        let mut result = ControlFlow::Normal;
        loop
            invariant_except_break
                result is Normal,
                loop_rounds_sem(entered, *loop_stmt, (depth - 1) as nat, rounds, *self),
            invariant
                enters_block(*old(self), entered, block),
                inside.len() > 0 && inside.last().kind == FrameKind::Block,
                depth > 0,
                old(self).evolves(self),
                self.store().frames() == inside,
                self.paths() == old(self).paths(),
                self.sources() == old(self).sources(),
            ensures
                old(self).evolves(self),
                self.store().frames() == inside,
                self.paths() == old(self).paths(),
                self.sources() == old(self).sources(),
                !(result is Break) && !(result is Continue),
                loop_rounds_sem(entered, *loop_stmt, (depth - 1) as nat, rounds, before),
                spends_step(before, spent),
                block_sem(spent, loop_stmt.body@, (depth - 1) as nat, *self, round),
                crate::semantics::ends_loop(round, result),
            decreases self.steps(),
        {
            proof {
                before = *self;
                assert(given4(entered, block, rounds, before));
            }
            self.spend_step(loop_stmt.node)?;
            proof {
                spent = *self;
                assert(given(spent));
            }
            let control = self.eval_block(&loop_stmt.body, depth - 1)?;
            proof {
                round = control;
            }
            match control {
                ControlFlow::Break => {
                    break ;
                },
                ControlFlow::Normal | ControlFlow::Continue => {},
                other => {
                    result = other;
                    break ;
                },
            }
            proof {
                assert(given3(before, spent, round));
                rounds = rounds + 1;
            }
        }
        let ghost done = *self;
        self.decrement_scope(loop_stmt.node)?;
        proof {
            assert(given2(spent, round));
            assert(given5(entered, block, rounds, before, done));
        }
        Ok(result)
    }

    /// Evaluates the declaration once, in a block of its own, and then the body and the
    /// update as long as the test holds. `break`, `return` and `throw` do what they do in a
    /// `while` loop; a round that `continue` ends is still followed by the update.
    #[verifier::rlimit(40)]
    pub(crate) fn eval_for_statement(&mut self, for_stmt: &ForStatement, depth: usize) -> (r:
        Result<ControlFlow, Diagnostic>)
        requires
            old(self).wf(),
        ensures
            old(self).evaluated(final(self), r),
            r is Err ==> for_fails(*old(self), *for_stmt, depth as nat),
            r matches Ok(control) ==> !(control is Break) && !(control is Continue),
            r matches Ok(control) ==> for_sem(
                *old(self),
                *for_stmt,
                depth as nat,
                *final(self),
                control,
            ),
        decreases depth, 0nat,
    {
        if depth == 0 {
            return Err(self.too_deep(for_stmt.node));
        }
        let block = self.increment_scope();
        let ghost entered = *self;
        let ghost inside = self.store().frames();
        proof {
            assert(given2(entered, block));
        }
        let first = self.eval_statement(&for_stmt.init, depth - 1)?;
        let ghost started = *self;
        let ghost mut rounds: nat = 0;
        let ghost mut before = *self;
        let ghost mut spent = *self;
        let ghost mut tested = *self;
        let ghost mut test_value = Value::Nil;
        let ghost mut round = ControlFlow::Normal;
        let mut result = ControlFlow::Normal;
        loop
            invariant_except_break
                result is Normal,
                for_rounds_sem(started, *for_stmt, (depth - 1) as nat, rounds, *self),
            invariant
                enters_block(*old(self), entered, block),
                statement_sem(entered, for_stmt.init, (depth - 1) as nat, started, first),
                inside.len() > 0 && inside.last().kind == FrameKind::Block,
                depth > 0,
                old(self).evolves(self),
                self.store().frames() == inside,
                self.paths() == old(self).paths(),
                self.sources() == old(self).sources(),
            ensures
                old(self).evolves(self),
                self.store().frames() == inside,
                self.paths() == old(self).paths(),
                self.sources() == old(self).sources(),
                !(result is Break) && !(result is Continue),
                for_rounds_sem(started, *for_stmt, (depth - 1) as nat, rounds, before),
                spends_step(before, spent),
                expression_sem(spent, for_stmt.test, (depth - 1) as nat, tested, test_value),
                truthy(test_value) ==> block_sem(
                    tested,
                    for_stmt.body@,
                    (depth - 1) as nat,
                    *self,
                    round,
                ) && crate::semantics::ends_loop(round, result),
                !truthy(test_value) ==> *self == tested && result is Normal,
            decreases self.steps(),
        {
            proof {
                before = *self;
                assert(given2(entered, block));
                assert(given4(started, first, rounds, before));
            }
            self.spend_step(for_stmt.node)?;
            proof {
                spent = *self;
                assert(given(spent));
            }
            let test = self.eval_expression(&for_stmt.test, depth - 1)?;
            proof {
                tested = *self;
                test_value = test;
                assert(given2(tested, test_value));
            }
            if !test.as_bool() {
                break ;
            }
            let control = self.eval_block(&for_stmt.body, depth - 1)?;
            let ghost bodied = *self;
            proof {
                round = control;
            }
            match control {
                ControlFlow::Break => {
                    break ;
                },
                ControlFlow::Normal | ControlFlow::Continue => {},
                other => {
                    result = other;
                    break ;
                },
            }
            proof {
                assert(given2(bodied, round));
            }
            let updated = self.eval_expression(&for_stmt.update, depth - 1)?;
            proof {
                assert(given2(round, updated));
                assert(given5(before, spent, tested, test_value, bodied));
                rounds = rounds + 1;
            }
        }
        let ghost done = *self;
        self.decrement_scope(for_stmt.node)?;
        proof {
            if truthy(test_value) {
                assert(given(round));
            }
            assert(given5(before, spent, tested, test_value, done));
            assert(given5(entered, block, started, first, rounds));
        }
        Ok(result)
    }

    /// Evaluates an expression.
    pub(crate) fn eval_expression(&mut self, expression: &Expression, depth: usize) -> (r: Result<
        Value,
        Diagnostic,
    >)
        requires
            old(self).wf(),
        ensures
            old(self).evaluated(final(self), r),
            r is Err ==> expression_fails(*old(self), *expression, depth as nat),
            expression is Empty && depth > 0 ==> r == Ok::<Value, Diagnostic>(Value::Nil)
                && *final(self) == *old(self),
            expression is WordExpression ==> r is Err,
            expression is Identifier && depth > 0 ==> match old(self).store().resolved(
                expression->Identifier_0.name@,
            ) {
                Some(v) => !(v is Ast) ==> r is Ok && r->Ok_0 == v && *final(self) == *old(self),
                None => r is Err && *final(self) == *old(self) && reported(
                    *old(self),
                    r->Err_0,
                    unbound_text(expression->Identifier_0.name@),
                    expression->Identifier_0.node,
                ),
            },
            expression is Literal && depth > 0 ==> match literal_value(
                expression->Literal_0.value,
            ) {
                Some(v) => r is Ok && r->Ok_0 == v && *final(self) == *old(self),
                None => true,
            },
            r matches Ok(v) ==> expression_sem(
                *old(self),
                *expression,
                depth as nat,
                *final(self),
                v,
            ),
        decreases depth, 0nat,
    {
        if depth == 0 {
            return Err(self.too_deep(Node::new(0, 0)));
        }
        match expression {
            Expression::BinaryExpression(binary_expr) => self.eval_binary_expression(
                binary_expr,
                depth - 1,
            ),
            Expression::UnaryExpression(unary_expr) => self.eval_unary_expression(
                unary_expr,
                depth - 1,
            ),
            Expression::ConditionalExpression(c) => {
                let test = self.eval_expression(&c.test, depth - 1)?;
                let ghost tested = *self;
                proof {
                    assert(given2(tested, test));
                }
                if test.as_bool() {
                    self.eval_expression(&c.consequent, depth - 1)
                } else {
                    self.eval_expression(&c.alternate, depth - 1)
                }
            },
            Expression::CallExpression(call_expr) => self.eval_call_expression(
                call_expr,
                depth - 1,
            ),
            Expression::MemberExpression(member_expr) => self.eval_member_expression(
                member_expr,
                depth - 1,
            ),
            Expression::SequenceExpression(seq) => {
                let items = self.eval_all(&seq.expressions, depth - 1)?;
                Ok(Value::Sequence(Rc::new(items)))
            },
            Expression::WordExpression(w) => {
                let mut message = "`".to_owned();
                message.append(w.operator.as_str());
                message.append("` is not supported");
                Err(self.report(message, w.node.start, w.node.end))
            },
            Expression::Literal(val) => self.match_literal(val, depth - 1),
            Expression::Identifier(id) => self.get_variable_value(&id.name, id.node, depth - 1),
            Expression::Empty(_) => Ok(Value::Nil),
        }
    }

    /// Evaluates the expressions of `items` in order.
    pub(crate) fn eval_all(&mut self, items: &Vec<Expression>, depth: usize) -> (r: Result<
        Vec<Value>,
        Diagnostic,
    >)
        requires
            old(self).wf(),
        ensures
            old(self).evaluated(final(self), r),
            r is Err ==> all_fails(*old(self), items@, depth as nat),
            r matches Ok(values) ==> values@.len() == items@.len(),
            r matches Ok(values) ==> all_sem(
                *old(self),
                items@,
                items@.len(),
                depth as nat,
                *final(self),
                values@,
            ),
        decreases depth, 0nat,
    {
        let mut values: Vec<Value> = Vec::new();
        if depth == 0 {
            if items.len() == 0 {
                return Ok(values);
            }
            proof {
                assert(given3(0nat, *old(self), values@));
            }
            return Err(self.too_deep(Node::new(0, 0)));
        }
        let mut i: usize = 0;
        while i < items.len()
            invariant
                i <= items@.len(),
                depth > 0,
                values@.len() == i,
                old(self).settled(self),
                all_sem(*old(self), items@, i as nat, depth as nat, *self, values@),
            decreases items@.len() - i,
        {
            let ghost before = *self;
            let ghost so_far = values@;
            proof {
                assert(given3(i as nat, before, so_far));
            }
            let value = self.eval_expression(&items[i], depth - 1)?;
            values.push(value);
            i += 1;
            proof {
                assert(values@.drop_last() == so_far);
                assert(values@.last() == value);
                assert(given(before));
            }
        }
        Ok(values)
    }

    /// The native scope that stands for values of the kind of `value`, with `value` stored in
    /// it for the native routine that is called next.
    pub(crate) fn native_id(&mut self, value: Value, node: Node) -> (r: Result<Handle, Diagnostic>)
        requires
            old(self).wf(),
        ensures
            old(self).evaluated(final(self), r),
            r is Ok <==> native_scope_of(*old(self), value) is Some,
            r matches Ok(h) ==> final(self).store().live(h) && final(self).store().scope(h).get(
                "$value"@,
            ) == Some(value),
            r matches Ok(h) ==> !(value is ScopeRef) && member_target_sem(
                *old(self),
                value,
                *final(self),
                h,
            ),
    {
        let tag = match &value {
            Value::Sequence(_) => "&sequence",
            Value::Nil => "&none",
            Value::Number(_) => "&number",
            Value::Bool(_) => "&bool",
            Value::Str(_) => "&str",
            Value::Ast(_) => "&ast",
            Value::Error(_) => "&err",
            _ => {
                return Err(self.report("is not a scope".to_owned(), node.start, node.end));
            },
        };
        if self.vault.depth() == 0 {
            return Err(self.refused(VaultError::NoActiveScope, node));
        }
        let library = self.vault.frame(0).handle;
        let found = match self.vault.get_in(library, &tag.to_owned()) {
            Ok(Some(Value::ScopeRef(h))) => Some(*h),
            _ => None,
        };
        match found {
            Some(h) => {
                self.set_in_scope(h, "$value".to_owned(), value, node)?;
                Ok(h)
            },
            None => Err(
                self.report("The standard library is not set up".to_owned(), node.start, node.end),
            ),
        }
    }

    /// Evaluates the object, enters the scope that it names, or the native scope that stands
    /// for values of its kind, looks the property up or calls it there, and leaves the scope.
    #[verifier::rlimit(80)]
    pub(crate) fn eval_member_expression(&mut self, member_expr: &MemberExpression, depth: usize) -> (r:
        Result<Value, Diagnostic>)
        requires
            old(self).wf(),
        ensures
            old(self).evaluated(final(self), r),
            r is Err ==> member_fails(*old(self), *member_expr, depth as nat),
            depth >= 2 && member_expr.object is Identifier ==> match old(self).store().resolved(
                member_expr.object->Identifier_0.name@,
            ) {
                Some(Value::ScopeRef(h)) => !old(self).store().live(h) ==> r is Err && *final(self)
                    == *old(self) && reported(
                    *old(self),
                    r->Err_0,
                    refusal_text(VaultError::StaleHandle),
                    member_expr.node,
                ),
                _ => true,
            },
            r matches Ok(v) ==> member_sem(
                *old(self),
                *member_expr,
                depth as nat,
                *final(self),
                v,
            ),
        decreases depth, 0nat,
    {
        if depth == 0 {
            return Err(self.too_deep(member_expr.node));
        }
        let node = member_expr.node;
        let object = self.eval_expression(&member_expr.object, depth - 1)?;
        let ghost objected = *self;
        let ghost object_value = object;
        proof {
            assert(given2(objected, object_value));
        }
        let target = self.member_target(object, node)?;
        let ghost targeted = *self;
        proof {
            assert(given2(targeted, target));
        }
        let property = self.eval_in_scope(member_expr, target, depth - 1)?;
        proof {
            let entered = choose|entered: Interpreter<'a>| #[trigger]
                given(entered) && enters_scope(targeted, entered, target) && exists|
                    found: Interpreter<'a>,
                | #[trigger]
                    given(found) && property_sem(
                        entered,
                        *member_expr,
                        (depth - 1) as nat,
                        found,
                        property,
                    ) && leaves_scope(found, *self);
            assert(given5(objected, object_value, targeted, target, entered));
        }
        Ok(property)
    }

    /// Enters the scope that `target` names, looks up or calls the property of the member
    /// expression there, nested no deeper than `depth`, and leaves the scope. Where the scope
    /// is gone nothing is done.
    fn eval_in_scope(&mut self, member_expr: &MemberExpression, target: Handle, depth: usize) -> (r:
        Result<Value, Diagnostic>)
        requires
            old(self).wf(),
        ensures
            old(self).evaluated(final(self), r),
            !old(self).store().live(target) ==> r is Err && *final(self) == *old(self) && reported(
                *old(self),
                r->Err_0,
                refusal_text(VaultError::StaleHandle),
                member_expr.node,
            ),
            r is Err ==> !old(self).store().live(target) || exists|entered: Interpreter<'a>|
                #[trigger]
                given(entered) && enters_scope(*old(self), entered, target) && property_fails(
                    entered,
                    *member_expr,
                    depth as nat,
                ),
            r matches Ok(v) ==> exists|entered: Interpreter<'a>| #[trigger]
                given(entered) && enters_scope(*old(self), entered, target) && exists|
                    found: Interpreter<'a>,
                | #[trigger]
                    given(found) && property_sem(entered, *member_expr, depth as nat, found, v)
                        && leaves_scope(found, *final(self)),
        decreases depth, 1nat,
    {
        let node = member_expr.node;
        self.enter_named_scope(target, node)?;
        let ghost entered = *self;
        proof {
            assert(given(entered));
        }
        let property = self.eval_property(member_expr, depth)?;
        let ghost found = *self;
        let _ = self.exit_named_scope(node)?;
        proof {
            assert(given(found));
        }
        Ok(property)
    }

    /// The scope in which the property of `object` is looked up: the one that a handle names,
    /// the native scope of its kind for another value.
    fn member_target(&mut self, object: Value, node: Node) -> (r: Result<Handle, Diagnostic>)
        requires
            old(self).wf(),
        ensures
            old(self).evaluated(final(self), r),
            r is Err ==> target_fails(*old(self), object),
            object is ScopeRef ==> r == Ok::<Handle, Diagnostic>(object->ScopeRef_0) && *final(self) == *old(self),
            r matches Ok(h) ==> member_target_sem(*old(self), object, *final(self), h),
    {
        match object {
            Value::ScopeRef(h) => Ok(h),
            other => self.native_id(other, node),
        }
    }

    /// The value of the property of a member expression in the innermost scope: that of the
    /// name, or of the name that the bracketed expression gives, looked up from there
    /// outwards, or what the call gives.
    fn eval_property(&mut self, member_expr: &MemberExpression, depth: usize) -> (r: Result<
        Value,
        Diagnostic,
    >)
        requires
            old(self).wf(),
        ensures
            old(self).evaluated(final(self), r),
            r is Err ==> property_fails(*old(self), *member_expr, depth as nat),
            r matches Ok(v) ==> property_sem(
                *old(self),
                *member_expr,
                depth as nat,
                *final(self),
                v,
            ),
        decreases depth, 0nat,
    {
        if depth == 0 {
            return Err(self.too_deep(member_expr.node));
        }
        let node = member_expr.node;
        match &member_expr.property {
            Expression::Identifier(id) => {
                if member_expr.is_expr {
                    self.eval_named_property(&member_expr.property, node, depth - 1)
                } else {
                    self.get_variable_value(&id.name, id.node, depth - 1)
                }
            },
            Expression::CallExpression(call_expr) => self.eval_call_expression(
                call_expr,
                depth - 1,
            ),
            _ => self.eval_named_property(&member_expr.property, node, depth - 1),
        }
    }

    /// Evaluates `property` and looks up the name that its value, as it is written, gives.
    fn eval_named_property(&mut self, property: &Expression, node: Node, depth: usize) -> (r:
        Result<Value, Diagnostic>)
        requires
            old(self).wf(),
        ensures
            old(self).evaluated(final(self), r),
            r is Err ==> named_property_fails(*old(self), *property, depth as nat),
            r matches Ok(v) ==> named_property_sem(
                *old(self),
                *property,
                depth as nat,
                *final(self),
                v,
            ),
        decreases depth, 0nat,
    {
        if depth == 0 {
            return Err(self.too_deep(node));
        }
        let named = self.eval_expression(property, depth - 1)?;
        let ghost mid = *self;
        proof {
            assert(given2(mid, named));
        }
        let name = named.to_text();
        self.get_variable_value(&name, node, depth - 1)
    }

    /// Looks the callee up, evaluates the arguments, and calls it: a native routine through
    /// the bridge, a function of the program in a block of its own that binds each parameter
    /// to its argument.
    #[verifier::rlimit(40)]
    pub(crate) fn eval_call_expression(&mut self, call_expr: &CallExpression, depth: usize) -> (r:
        Result<Value, Diagnostic>)
        requires
            old(self).wf(),
        ensures
            old(self).evaluated(final(self), r),
            r is Err ==> call_fails(*old(self), *call_expr, depth as nat),
            r matches Ok(v) ==> call_sem(
                *old(self),
                *call_expr,
                depth as nat,
                *final(self),
                v,
            ),
        decreases depth, 0nat,
    {
        if depth == 0 {
            return Err(self.too_deep(call_expr.node));
        }
        let node = call_expr.node;
        let var = self.get_variable_value(&call_expr.callee, node, depth - 1)?;
        let ghost looked = *self;
        let ghost callee = var;
        proof {
            assert(given2(looked, callee));
        }
        let args = match &call_expr.arguments {
            Expression::SequenceExpression(seq_exp) => self.eval_all(
                &seq_exp.expressions,
                depth - 1,
            )?,
            _ => {
                return Err(
                    self.report(
                        "Arguments can only be sequence expressions".to_owned(),
                        node.start,
                        node.end,
                    ),
                );
            },
        };
        let ghost argued = *self;
        proof {
            assert(given4(looked, callee, argued, args@));
            assert(given2(argued, args@));
        }
        match var {
            Value::NativeFunction(name) => crate::native::run_function(
                self,
                call_expr,
                name,
                &args,
                depth - 1,
            ),
            Value::Function(declarator) => self.call_function(&declarator, &args, node, depth - 1),
            _ => {
                let mut message = "`".to_owned();
                message.append(call_expr.callee.as_str());
                message.append("` is not a function");
                Err(self.report(message, node.start, node.end))
            },
        }
    }

    /// Calls the function `declarator` of the program with the arguments `args`, which have
    /// been evaluated: in a block of its own, which binds each parameter to its argument,
    /// the body is evaluated, nested no deeper than `depth`. Where the number of arguments is
    /// not that of the parameters nothing is done.
    pub(crate) fn call_function(
        &mut self,
        declarator: &FunctionDeclarator,
        args: &Vec<Value>,
        node: Node,
        depth: usize,
    ) -> (r: Result<Value, Diagnostic>)
        requires
            old(self).wf(),
        ensures
            old(self).evaluated(final(self), r),
            declarator.params@.len() != args@.len() ==> r is Err && *final(self) == *old(self)
                && reported(
                *old(self),
                r->Err_0,
                arity_text(declarator.params@.len(), args@.len()),
                node,
            ),
            r is Err ==> declarator.params@.len() != args@.len() || exists|
                entered: Interpreter<'a>,
                h: Handle,
                bound: Interpreter<'a>,
            |
                #![trigger given3(entered, h, bound)]
                given3(entered, h, bound) && enters_block(*old(self), entered, h)
                    && binds_parameters(
                    entered,
                    declarator.params@,
                    args@,
                    declarator.params@.len(),
                    bound,
                ) && block_fails(bound, declarator.body@, depth as nat),
            r matches Ok(v) ==> declarator.params@.len() == args@.len() && exists|
                entered: Interpreter<'a>,
                h: Handle,
                bound: Interpreter<'a>,
                done: Interpreter<'a>,
                control: ControlFlow,
            |
                #![trigger given5(entered, h, bound, done, control)]
                given5(entered, h, bound, done, control) && enters_block(*old(self), entered, h)
                    && binds_parameters(
                    entered,
                    declarator.params@,
                    args@,
                    declarator.params@.len(),
                    bound,
                ) && block_sem(bound, declarator.body@, depth as nat, done, control)
                    && exits_block(done, *final(self)) && call_outcome(control, v),
        decreases depth, 1nat,
    {
        if declarator.params.len() != args.len() {
            let mut message = "Expected ".to_owned();
            message.append(crate::text::index_text(declarator.params.len()).as_str());
            message.append(" arguments, got ");
            message.append(crate::text::index_text(args.len()).as_str());
            return Err(self.report(message, node.start, node.end));
        }
        let block = self.increment_scope();
        let ghost inside = *self;
        let mut i: usize = 0;
        while i < declarator.params.len()
            invariant
                i <= declarator.params@.len(),
                args@.len() == declarator.params@.len(),
                old(self).evolves(&inside),
                inside.settled(self),
                binds_parameters(inside, declarator.params@, args@, i as nat, *self),
                self.store().current() == Some(block),
                self.store().live(block),
            decreases declarator.params@.len() - i,
        {
            let ghost before = *self;
            self.declare_variable(
                declarator.params[i].as_str(),
                args[i].duplicate(),
                node,
            )?;
            i += 1;
            proof {
                assert(given(before));
            }
        }
        let ghost bound = *self;
        proof {
            assert(given3(inside, block, bound));
        }
        let control = self.eval_block(&declarator.body, depth)?;
        let ghost done = *self;
        self.decrement_scope(node)?;
        let value = call_result(control);
        proof {
            assert(given5(inside, block, bound, done, control));
        }
        Ok(value)
    }

    /// Evaluates the operand and applies the operator.
    pub(crate) fn eval_unary_expression(&mut self, expression: &UnaryExpression, depth: usize) -> (r:
        Result<Value, Diagnostic>)
        requires
            old(self).wf(),
        ensures
            old(self).evaluated(final(self), r),
            r is Err ==> unary_fails(*old(self), *expression, depth as nat),
            r matches Ok(v) ==> unary_sem(
                *old(self),
                *expression,
                depth as nat,
                *final(self),
                v,
            ),
        decreases depth, 0nat,
    {
        if depth == 0 {
            return Err(self.too_deep(expression.node));
        }
        let right = self.eval_expression(&expression.right, depth - 1)?;
        proof {
            assert(given(right));
        }
        Ok(apply_unary(expression.operator, right))
    }

    /// Evaluates the left operand, then the right one, and applies the operator.
    pub(crate) fn eval_binary_expression(&mut self, expression: &BinaryExpression, depth: usize) -> (r:
        Result<Value, Diagnostic>)
        requires
            old(self).wf(),
        ensures
            old(self).evaluated(final(self), r),
            r is Err ==> binary_fails(*old(self), *expression, depth as nat),
            r matches Ok(v) ==> binary_sem(
                *old(self),
                *expression,
                depth as nat,
                *final(self),
                v,
            ),
        decreases depth, 0nat,
    {
        if depth == 0 {
            return Err(self.too_deep(expression.node));
        }
        let left = self.eval_expression(&expression.left, depth - 1)?;
        let ghost mid = *self;
        proof {
            assert(given2(mid, left));
        }
        let right = self.eval_expression(&expression.right, depth - 1)?;
        proof {
            assert(given3(mid, left, right));
        }
        Ok(apply_binary(expression.operator, left, right))
    }

    /// The value of a literal; a name is looked up.
    pub(crate) fn match_literal(&mut self, literal: &Literal, depth: usize) -> (r: Result<
        Value,
        Diagnostic,
    >)
        requires
            old(self).wf(),
        ensures
            old(self).evaluated(final(self), r),
            r is Err ==> literal_fails(*old(self), *literal, depth as nat),
            match literal_value(literal.value) {
                Some(v) => r is Ok && r->Ok_0 == v && *final(self) == *old(self),
                None => true,
            },
            r matches Ok(v) ==> literal_sem(
                *old(self),
                *literal,
                depth as nat,
                *final(self),
                v,
            ),
        decreases depth, 1nat,
    {
        match &literal.value {
            TokenValue::Absent => Ok(Value::Nil),
            TokenValue::Number(val) => Ok(Value::Number(*val)),
            TokenValue::Str(val) => Ok(Value::Str(val.clone())),
            TokenValue::Bool(val) => Ok(Value::Bool(*val)),
            TokenValue::Identifier(id) => self.get_variable_value(id, literal.node, depth),
        }
    }

    /// Looks a variable up from the innermost scope outwards. A formula is evaluated anew.
    pub(crate) fn get_variable_value(&mut self, name: &String, node: Node, depth: usize) -> (r:
        Result<Value, Diagnostic>)
        requires
            old(self).wf(),
        ensures
            old(self).evaluated(final(self), r),
            r is Err ==> variable_fails(*old(self), name@, depth as nat),
            old(self).store().resolved(name@) is None ==> r is Err && *final(self) == *old(self)
                && reported(*old(self), r->Err_0, unbound_text(name@), node),
            match old(self).store().resolved(name@) {
                Some(v) => !(v is Ast) ==> r is Ok && r->Ok_0 == v && *final(self) == *old(self),
                None => true,
            },
            r matches Ok(v) ==> variable_sem(
                *old(self),
                name@,
                depth as nat,
                *final(self),
                v,
            ),
        decreases depth, 0nat,
    {
        let found = match self.vault.resolve(name) {
            Some(v) => Some(v.duplicate()),
            None => None,
        };
        match found {
            Some(Value::Ast(formula)) => {
                if depth == 0 {
                    return Err(self.too_deep(node));
                }
                self.eval_expression(&formula, depth - 1)
            },
            Some(value) => Ok(value),
            None => {
                let mut message = "Variable `".to_owned();
                message.append(name.as_str());
                message.append("` not found");
                Err(self.report(message, node.start, node.end))
            },
        }
    }

    /// The value that the innermost scope binds to `name`.
    pub(crate) fn get_cur_value(&self, name: &str, node: Node) -> (r: Result<Value, Diagnostic>)
        requires
            self.wf(),
        ensures
            r matches Err(d) ==> reported(
                *self,
                d,
                match self.store().current() {
                    Some(h) => if self.store().live(h) {
                        "No value is at hand"@
                    } else {
                        refusal_text(VaultError::StaleHandle)
                    },
                    None => refusal_text(VaultError::NoActiveScope),
                },
                node,
            ),
            match r {
                Ok(v) => {
                    &&& self.store().current() matches Some(h)
                    &&& self.store().live(h)
                    &&& self.store().scope(h).get(name@) == Some(v)
                },
                Err(_) => match self.store().current() {
                    Some(h) => !self.store().live(h) || self.store().scope(h).get(name@) is None,
                    None => true,
                },
            },
    {
        match self.vault.current_scope() {
            Some(h) => match self.vault.get_in(h, &name.to_owned()) {
                Ok(Some(v)) => Ok(v.duplicate()),
                Ok(None) => Err(
                    self.report("No value is at hand".to_owned(), node.start, node.end),
                ),
                Err(e) => Err(self.refused(e, node)),
            },
            None => Err(self.refused(VaultError::NoActiveScope, node)),
        }
    }
}

} // verus!
