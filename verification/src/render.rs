use vstd::prelude::*;
use crate::text::{decimal, digits, index_text, number_text};
use crate::value::Value;
use crate::vault::Handle;
use crate::ast::{
    AssignOperator, Ast, BinaryOperator, Expression, Program, Statement, UnaryOperator,
    WordOperator,
};

verus! {

/// `items` in a row, with `separator` between each two.
pub open spec fn joined(items: Seq<Seq<char>>, separator: Seq<char>) -> Seq<char>
    decreases items.len(),
{
    if items.len() == 0 {
        Seq::empty()
    } else if items.len() == 1 {
        items[0]
    } else {
        joined(items.drop_last(), separator) + separator + items.last()
    }
}

/// The views of the strings of `items`.
pub open spec fn texts(items: Seq<String>) -> Seq<Seq<char>> {
    Seq::new(items.len(), |i: int| items[i]@)
}

/// The strings of `vec` in a row, with `separator` between each two.
pub fn format_vec(vec: &Vec<String>, separator: &str) -> (s: String)
    ensures
        s@ == joined(texts(vec@), separator@),
{
    let mut out = String::new();
    let mut i: usize = 0;
    while i < vec.len()
        invariant
            i <= vec.len(),
            out@ == joined(texts(vec@).take(i as int), separator@),
        decreases vec.len() - i,
    {
        if i > 0 {
            out.append(separator);
        }
        out.append(vec[i].as_str());
        i += 1;
        proof {
            let now = texts(vec@).take(i as int);
            assert(now.drop_last() == texts(vec@).take(i as int - 1));
            assert(now.last() == vec@[i as int - 1]@);
            if i == 1 {
                assert(out@ =~= now[0]);
            }
        }
    }
    proof {
        assert(texts(vec@).take(vec.len() as int) == texts(vec@));
    }
    out
}

impl BinaryOperator {
    /// How the operator is written.
    pub open spec fn text(self) -> Seq<char> {
        match self {
            BinaryOperator::Add => "+"@,
            BinaryOperator::Substract => "-"@,
            BinaryOperator::Multiply => "*"@,
            BinaryOperator::Divide => "/"@,
            BinaryOperator::Power => "^"@,
            BinaryOperator::Range => ".."@,
            BinaryOperator::Modulo => "%"@,
            BinaryOperator::And => "&&"@,
            BinaryOperator::Or => "||"@,
            BinaryOperator::Xor => "^"@,
            BinaryOperator::BitAnd => "&"@,
            BinaryOperator::BitOr => "|"@,
            BinaryOperator::BitXor => "bxor"@,
            BinaryOperator::BitLeftShift => "<<"@,
            BinaryOperator::BitRightShift => ">>"@,
            BinaryOperator::Equal => "=="@,
            BinaryOperator::NotEqual => "!="@,
            BinaryOperator::Less => "<"@,
            BinaryOperator::LessEqual => "<="@,
            BinaryOperator::Greater => ">"@,
            BinaryOperator::GreaterEqual => ">="@,
        }
    }

    /// How the operator is written.
    pub fn as_str(self) -> (s: &'static str)
        ensures
            s@ == self.text(),
    {
        match self {
            BinaryOperator::Add => "+",
            BinaryOperator::Substract => "-",
            BinaryOperator::Multiply => "*",
            BinaryOperator::Divide => "/",
            BinaryOperator::Power => "^",
            BinaryOperator::Range => "..",
            BinaryOperator::Modulo => "%",
            BinaryOperator::And => "&&",
            BinaryOperator::Or => "||",
            BinaryOperator::Xor => "^",
            BinaryOperator::BitAnd => "&",
            BinaryOperator::BitOr => "|",
            BinaryOperator::BitXor => "bxor",
            BinaryOperator::BitLeftShift => "<<",
            BinaryOperator::BitRightShift => ">>",
            BinaryOperator::Equal => "==",
            BinaryOperator::NotEqual => "!=",
            BinaryOperator::Less => "<",
            BinaryOperator::LessEqual => "<=",
            BinaryOperator::Greater => ">",
            BinaryOperator::GreaterEqual => ">=",
        }
    }
}

impl UnaryOperator {
    /// How the operator is written.
    pub open spec fn text(self) -> Seq<char> {
        match self {
            UnaryOperator::MinusMinus => "--"@,
            UnaryOperator::BitNot => "~"@,
            UnaryOperator::Not => "!"@,
            UnaryOperator::PlusPlus => "++"@,
            UnaryOperator::Minus => "-"@,
            UnaryOperator::Plus => "+"@,
        }
    }

    /// How the operator is written.
    pub fn as_str(self) -> (s: &'static str)
        ensures
            s@ == self.text(),
    {
        match self {
            UnaryOperator::MinusMinus => "--",
            UnaryOperator::BitNot => "~",
            UnaryOperator::Not => "!",
            UnaryOperator::PlusPlus => "++",
            UnaryOperator::Minus => "-",
            UnaryOperator::Plus => "+",
        }
    }
}

impl AssignOperator {
    /// How the operator is written.
    pub open spec fn text(self) -> Seq<char> {
        match self {
            AssignOperator::Assign => "="@,
            AssignOperator::PlusAssign => "+="@,
            AssignOperator::MinusAssign => "-="@,
            AssignOperator::MultiplyAssign => "*="@,
            AssignOperator::DivideAssign => "/="@,
            AssignOperator::PowerAssign => "^="@,
            AssignOperator::ModuloAssign => "%="@,
        }
    }

    /// How the operator is written.
    pub fn as_str(self) -> (s: &'static str)
        ensures
            s@ == self.text(),
    {
        match self {
            AssignOperator::Assign => "=",
            AssignOperator::PlusAssign => "+=",
            AssignOperator::MinusAssign => "-=",
            AssignOperator::MultiplyAssign => "*=",
            AssignOperator::DivideAssign => "/=",
            AssignOperator::PowerAssign => "^=",
            AssignOperator::ModuloAssign => "%=",
        }
    }
}

impl WordOperator {
    /// How the operator is written.
    pub open spec fn text(self) -> Seq<char> {
        match self {
            WordOperator::Await => "await"@,
            WordOperator::Delete => "delete"@,
        }
    }

    /// How the operator is written.
    pub fn as_str(self) -> (s: &'static str)
        ensures
            s@ == self.text(),
    {
        match self {
            WordOperator::Await => "await",
            WordOperator::Delete => "delete",
        }
    }
}

/// How an expression is written: an operation between round brackets, a sequence between
/// square brackets, a literal and a name bare.
pub open spec fn expression_text(e: Expression) -> Seq<char>
    decreases e,
{
    match e {
        Expression::BinaryExpression(b) => "("@ + expression_text(b.left) + b.operator.text()
            + expression_text(b.right) + ")"@,
        Expression::UnaryExpression(u) => "("@ + u.operator.text() + expression_text(u.right)
            + ")"@,
        Expression::ConditionalExpression(c) => "("@ + expression_text(c.test) + " ? "@
            + expression_text(c.consequent) + " : "@ + expression_text(c.alternate) + ")"@,
        Expression::CallExpression(c) => "("@ + c.callee@ + "["@ + expression_text(c.arguments)
            + "])"@,
        Expression::MemberExpression(m) => "("@ + expression_text(m.object) + (if m.is_expr {
            ".["@
        } else {
            "."@
        }) + expression_text(m.property) + (if m.is_expr {
            "])"@
        } else {
            ")"@
        }),
        Expression::SequenceExpression(s) => "["@ + expressions_text(s.expressions@) + "]"@,
        Expression::WordExpression(w) => "("@ + w.operator.text() + " "@ + expression_text(
            w.argument,
        ) + ")"@,
        Expression::Literal(l) => l.value.text(),
        Expression::Identifier(i) => i.name@,
        Expression::Empty(_) => "None"@,
    }
}

/// How the items of a sequence are written: one after the other, with a comma and a blank
/// between each two.
pub open spec fn expressions_text(items: Seq<Expression>) -> Seq<char>
    decreases items,
{
    if items.len() == 0 {
        Seq::empty()
    } else if items.len() == 1 {
        expression_text(items[0])
    } else {
        expressions_text(items.drop_last()) + ", "@ + expression_text(items.last())
    }
}

/// How a statement is written.
pub open spec fn statement_text(s: Statement) -> Seq<char>
    decreases s,
{
    match s {
        Statement::ExpressionStatement(e) => expression_text(e),
        Statement::ReturnStatement(r) => "return "@ + expression_text(r.argument) + ";"@,
        Statement::ThrowStatement(t) => "throw "@ + expression_text(t.argument) + ";"@,
        Statement::ContinueStatement(_) => "continue;"@,
        Statement::BreakStatement(_) => "break;"@,
        Statement::YieldStatement(y) => "yield "@ + expression_text(y.argument) + ";"@,
        Statement::VariableDeclaration(d) => "let "@ + d.id@ + (if d.is_formula {
            " := "@
        } else {
            " = "@
        }) + expression_text(*d.init) + ";"@,
        Statement::FunctionDeclaration(f) => (if f.is_async {
            "async fn "@
        } else {
            "fn "@
        }) + f.id@ + "("@ + joined(texts(f.params@), ", "@) + ") {\n"@ + block_text(f.body@)
            + "\n}"@,
        Statement::ScopeDeclaration(d) => "scope "@ + d.id@ + " {\n"@ + block_text(d.body@)
            + "\n}"@,
        Statement::ContextDeclaration(d) => "context "@ + d.id@ + " {\n"@ + block_text(d.body@)
            + "\n}"@,
        Statement::IfStatement(i) => "if "@ + expression_text(i.test) + " {\n"@ + block_text(
            i.consequent@,
        ) + "\n} else {\n"@ + block_text(i.alternate@) + "\n}"@,
        Statement::ForStatement(f) => "for ("@ + statement_text(f.init) + " "@ + expression_text(
            f.test,
        ) + "; "@ + expression_text(f.update) + ") {\n"@ + block_text(f.body@) + "\n}"@,
        Statement::WhileStatement(w) => "while ("@ + expression_text(w.test) + ") {\n"@
            + block_text(w.body@) + "\n}"@,
        Statement::LoopStatement(l) => "loop {\n"@ + block_text(l.body@) + "\n}"@,
        Statement::TryStatement(t) => "try {\n"@ + block_text(t.body@) + "\n} catch {\n"@
            + block_text(t.handler@) + "\n} finally {\n"@ + block_text(t.finalizer@) + "\n}"@,
        Statement::BlockStatement(b) => "{\n"@ + block_text(b@) + "\n}"@,
        Statement::AssignStatement(a) => "mut "@ + a.left.name@ + " "@ + a.operator.text() + " "@
            + expression_text(a.right) + ";"@,
        Statement::ImportStatement(i) => "import "@ + i.source.name@ + " as "@ + i.as_name.name@
            + ";"@,
    }
}

/// How a run of statements is written: one per line.
pub open spec fn block_text(items: Seq<Statement>) -> Seq<char>
    decreases items,
{
    if items.len() == 0 {
        Seq::empty()
    } else if items.len() == 1 {
        statement_text(items[0])
    } else {
        block_text(items.drop_last()) + "\n"@ + statement_text(items.last())
    }
}

impl Expression {
    /// How the expression is written.
    pub fn to_text(&self) -> (s: String)
        ensures
            s@ == expression_text(*self),
        decreases self,
    {
        match self {
            Expression::BinaryExpression(b) => {
                let mut out = "(".to_owned();
                out.append(b.left.to_text().as_str());
                out.append(b.operator.as_str());
                out.append(b.right.to_text().as_str());
                out.append(")");
                out
            },
            Expression::UnaryExpression(u) => {
                let mut out = "(".to_owned();
                out.append(u.operator.as_str());
                out.append(u.right.to_text().as_str());
                out.append(")");
                out
            },
            Expression::ConditionalExpression(c) => {
                let mut out = "(".to_owned();
                out.append(c.test.to_text().as_str());
                out.append(" ? ");
                out.append(c.consequent.to_text().as_str());
                out.append(" : ");
                out.append(c.alternate.to_text().as_str());
                out.append(")");
                out
            },
            Expression::CallExpression(c) => {
                let mut out = "(".to_owned();
                out.append(c.callee.as_str());
                out.append("[");
                out.append(c.arguments.to_text().as_str());
                out.append("])");
                out
            },
            Expression::MemberExpression(m) => {
                let mut out = "(".to_owned();
                out.append(m.object.to_text().as_str());
                if m.is_expr {
                    out.append(".[");
                } else {
                    out.append(".");
                }
                out.append(m.property.to_text().as_str());
                if m.is_expr {
                    out.append("])");
                } else {
                    out.append(")");
                }
                out
            },
            Expression::SequenceExpression(s) => {
                let mut out = "[".to_owned();
                out.append(Expression::all_to_text(&s.expressions).as_str());
                out.append("]");
                out
            },
            Expression::WordExpression(w) => {
                let mut out = "(".to_owned();
                out.append(w.operator.as_str());
                out.append(" ");
                out.append(w.argument.to_text().as_str());
                out.append(")");
                out
            },
            Expression::Literal(l) => l.value.to_text(),
            Expression::Identifier(i) => i.name.clone(),
            Expression::Empty(_) => "None".to_owned(),
        }
    }

    /// How the items of a sequence are written.
    pub fn all_to_text(items: &Vec<Expression>) -> (s: String)
        ensures
            s@ == expressions_text(items@),
        decreases items,
    {
        let mut out = String::new();
        let mut i: usize = 0;
        while i < items.len()
            invariant
                i <= items.len(),
                out@ == expressions_text(items@.take(i as int)),
            decreases items.len() - i,
        {
            if i > 0 {
                out.append(", ");
            }
            assert(decreases_to!(*items => items[i as int]));
            out.append(items[i].to_text().as_str());
            i += 1;
            proof {
                let now = items@.take(i as int);
                assert(now.drop_last() == items@.take(i as int - 1));
                assert(now.last() == items@[i as int - 1]);
                if i == 1 {
                    assert(out@ =~= expression_text(now[0]));
                }
            }
        }
        proof {
            assert(items@.take(items.len() as int) == items@);
        }
        out
    }
}

impl Statement {
    /// How the statement is written.
    pub fn to_text(&self) -> (s: String)
        ensures
            s@ == statement_text(*self),
        decreases self,
    {
        match self {
            Statement::ExpressionStatement(e) => e.to_text(),
            Statement::ReturnStatement(r) => {
                let mut out = "return ".to_owned();
                out.append(r.argument.to_text().as_str());
                out.append(";");
                out
            },
            Statement::ThrowStatement(t) => {
                let mut out = "throw ".to_owned();
                out.append(t.argument.to_text().as_str());
                out.append(";");
                out
            },
            Statement::ContinueStatement(_) => "continue;".to_owned(),
            Statement::BreakStatement(_) => "break;".to_owned(),
            Statement::YieldStatement(y) => {
                let mut out = "yield ".to_owned();
                out.append(y.argument.to_text().as_str());
                out.append(";");
                out
            },
            Statement::VariableDeclaration(d) => {
                let mut out = "let ".to_owned();
                out.append(d.id.as_str());
                if d.is_formula {
                    out.append(" := ");
                } else {
                    out.append(" = ");
                }
                out.append(d.init.to_text().as_str());
                out.append(";");
                out
            },
            Statement::FunctionDeclaration(f) => {
                let mut out = if f.is_async {
                    "async fn ".to_owned()
                } else {
                    "fn ".to_owned()
                };
                out.append(f.id.as_str());
                out.append("(");
                out.append(format_vec(&f.params, ", ").as_str());
                out.append(") {\n");
                out.append(Statement::all_to_text(&f.body).as_str());
                out.append("\n}");
                out
            },
            Statement::ScopeDeclaration(d) => {
                let mut out = "scope ".to_owned();
                out.append(d.id.as_str());
                out.append(" {\n");
                out.append(Statement::all_to_text(&d.body).as_str());
                out.append("\n}");
                out
            },
            Statement::ContextDeclaration(d) => {
                let mut out = "context ".to_owned();
                out.append(d.id.as_str());
                out.append(" {\n");
                out.append(Statement::all_to_text(&d.body).as_str());
                out.append("\n}");
                out
            },
            Statement::IfStatement(i) => {
                let mut out = "if ".to_owned();
                out.append(i.test.to_text().as_str());
                out.append(" {\n");
                out.append(Statement::all_to_text(&i.consequent).as_str());
                out.append("\n} else {\n");
                out.append(Statement::all_to_text(&i.alternate).as_str());
                out.append("\n}");
                out
            },
            Statement::ForStatement(f) => {
                let mut out = "for (".to_owned();
                out.append(f.init.to_text().as_str());
                out.append(" ");
                out.append(f.test.to_text().as_str());
                out.append("; ");
                out.append(f.update.to_text().as_str());
                out.append(") {\n");
                out.append(Statement::all_to_text(&f.body).as_str());
                out.append("\n}");
                out
            },
            Statement::WhileStatement(w) => {
                let mut out = "while (".to_owned();
                out.append(w.test.to_text().as_str());
                out.append(") {\n");
                out.append(Statement::all_to_text(&w.body).as_str());
                out.append("\n}");
                out
            },
            Statement::LoopStatement(l) => {
                let mut out = "loop {\n".to_owned();
                out.append(Statement::all_to_text(&l.body).as_str());
                out.append("\n}");
                out
            },
            Statement::TryStatement(t) => {
                let mut out = "try {\n".to_owned();
                out.append(Statement::all_to_text(&t.body).as_str());
                out.append("\n} catch {\n");
                out.append(Statement::all_to_text(&t.handler).as_str());
                out.append("\n} finally {\n");
                out.append(Statement::all_to_text(&t.finalizer).as_str());
                out.append("\n}");
                out
            },
            Statement::BlockStatement(b) => {
                let mut out = "{\n".to_owned();
                out.append(Statement::all_to_text(b).as_str());
                out.append("\n}");
                out
            },
            Statement::AssignStatement(a) => {
                let mut out = "mut ".to_owned();
                out.append(a.left.name.as_str());
                out.append(" ");
                out.append(a.operator.as_str());
                out.append(" ");
                out.append(a.right.to_text().as_str());
                out.append(";");
                out
            },
            Statement::ImportStatement(i) => {
                let mut out = "import ".to_owned();
                out.append(i.source.name.as_str());
                out.append(" as ");
                out.append(i.as_name.name.as_str());
                out.append(";");
                out
            },
        }
    }

    /// How a run of statements is written: one per line.
    pub fn all_to_text(items: &Vec<Statement>) -> (s: String)
        ensures
            s@ == block_text(items@),
        decreases items,
    {
        let mut out = String::new();
        let mut i: usize = 0;
        while i < items.len()
            invariant
                i <= items.len(),
                out@ == block_text(items@.take(i as int)),
            decreases items.len() - i,
        {
            if i > 0 {
                out.append("\n");
            }
            assert(decreases_to!(*items => items[i as int]));
            out.append(items[i].to_text().as_str());
            i += 1;
            proof {
                let now = items@.take(i as int);
                assert(now.drop_last() == items@.take(i as int - 1));
                assert(now.last() == items@[i as int - 1]);
                if i == 1 {
                    assert(out@ =~= statement_text(now[0]));
                }
            }
        }
        proof {
            assert(items@.take(items.len() as int) == items@);
        }
        out
    }
}

impl Program {
    /// How the program is written: one statement per line.
    pub fn to_text(&self) -> (s: String)
        ensures
            s@ == block_text(self.body@),
    {
        Statement::all_to_text(&self.body)
    }
}

impl Ast {
    /// How the program is written: one statement per line.
    pub fn to_text(&self) -> (s: String)
        ensures
            s@ == block_text(self.program.body@),
    {
        self.program.to_text()
    }
}

/// How a handle is written: the slot and the generation.
pub open spec fn handle_text(h: Handle) -> Seq<char> {
    "scope#"@ + digits(h.index as nat) + "."@ + digits(h.generation as nat)
}

/// How a value is written when it is printed, thrown or used as a name.
pub open spec fn value_text(v: Value) -> Seq<char>
    decreases v,
{
    match v {
        Value::Nil => "None"@,
        Value::Number(n) => decimal(n as int),
        Value::Bool(b) => if b {
            "true"@
        } else {
            "false"@
        },
        Value::Str(s) => s@,
        Value::Sequence(items) => "["@ + values_text(items@) + "]"@,
        Value::Ast(e) => expression_text(*e),
        Value::ScopeRef(h) => handle_text(h),
        Value::NativeFunction(_) => "native function"@,
        Value::Function(f) => statement_text(Statement::FunctionDeclaration(f)),
        Value::Error(s) => s@,
    }
}

/// How the items of a sequence value are written.
pub open spec fn values_text(items: Seq<Value>) -> Seq<char>
    decreases items,
{
    if items.len() == 0 {
        Seq::empty()
    } else if items.len() == 1 {
        value_text(items[0])
    } else {
        values_text(items.drop_last()) + ", "@ + value_text(items.last())
    }
}

/// How a handle is written.
pub fn handle_to_text(h: Handle) -> (s: String)
    ensures
        s@ == handle_text(h),
{
    let mut out = "scope#".to_owned();
    out.append(index_text(h.index).as_str());
    out.append(".");
    out.append(generation_text(h.generation).as_str());
    out
}

fn generation_text(n: u64) -> (s: String)
    ensures
        s@ == digits(n as nat),
{
    if n <= i64::MAX as u64 {
        let s = number_text(n as i64);
        s
    } else {
        // beyond the range of a number: the digits of the upper part, then the last digit
        let mut out = number_text((n / 10) as i64);
        out.append(number_text((n % 10) as i64).as_str());
        proof {
            assert(digits(n as nat) == digits((n / 10) as nat).push(
                crate::text::digit_char((n % 10) as int),
            ));
            assert(digits((n % 10) as nat) == seq![crate::text::digit_char((n % 10) as int)]);
            assert(out@ =~= digits(n as nat));
        }
        out
    }
}

impl Value {
    /// How the value is written when it is printed, thrown or used as a name.
    pub fn to_text(&self) -> (s: String)
        ensures
            s@ == value_text(*self),
        decreases self,
    {
        match self {
            Value::Nil => "None".to_owned(),
            Value::Number(n) => number_text(*n),
            Value::Bool(b) => if *b {
                "true".to_owned()
            } else {
                "false".to_owned()
            },
            Value::Str(s) => s.clone(),
            Value::Sequence(items) => {
                let mut out = "[".to_owned();
                let list: &Vec<Value> = &**items;
                out.append(Value::all_to_text(list).as_str());
                out.append("]");
                out
            },
            Value::Ast(e) => e.to_text(),
            Value::ScopeRef(h) => handle_to_text(*h),
            Value::NativeFunction(_) => "native function".to_owned(),
            Value::Function(f) => {
                let mut out = if f.is_async {
                    "async fn ".to_owned()
                } else {
                    "fn ".to_owned()
                };
                out.append(f.id.as_str());
                out.append("(");
                out.append(format_vec(&f.params, ", ").as_str());
                out.append(") {\n");
                out.append(Statement::all_to_text(&f.body).as_str());
                out.append("\n}");
                out
            },
            Value::Error(s) => s.clone(),
        }
    }

    /// How the items of a sequence value are written.
    pub fn all_to_text(items: &Vec<Value>) -> (s: String)
        ensures
            s@ == values_text(items@),
        decreases items,
    {
        let mut out = String::new();
        let mut i: usize = 0;
        while i < items.len()
            invariant
                i <= items.len(),
                out@ == values_text(items@.take(i as int)),
            decreases items.len() - i,
        {
            if i > 0 {
                out.append(", ");
            }
            assert(decreases_to!(*items => items[i as int]));
            out.append(items[i].to_text().as_str());
            i += 1;
            proof {
                let now = items@.take(i as int);
                assert(now.drop_last() == items@.take(i as int - 1));
                assert(now.last() == items@[i as int - 1]);
                if i == 1 {
                    assert(out@ =~= value_text(now[0]));
                }
            }
        }
        proof {
            assert(items@.take(items.len() as int) == items@);
        }
        out
    }
}

} // verus!
