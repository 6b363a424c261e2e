use vstd::prelude::*;
use crate::text::{decimal, number_text};

verus! {

/// The kind of a token.
#[derive(Clone, Copy, Debug, PartialEq, Eq, Structural)]
pub enum TokenKind {
    /// End of the source.
    Eof,
    DocComment,
    Comment,
    Unexpected,
    Skip,
    /// The state of a parser before it has read its first token.
    Start,
    Semicolon,
    Comma,
    Colon,
    Dot,
    // Arithmetic operators
    Plus,
    Minus,
    Star,
    Slash,
    Caret,
    Range,
    Modulo,
    // Bitwise operators
    Ampersand,
    Pipe,
    Tilde,
    BitXor,
    BitLeftShift,
    BitRightShift,
    // Increment and decrement
    PlusPlus,
    MinusMinus,
    // Ternary operator
    Question,
    // Logic operators
    AmpersandAmpersand,
    PipePipe,
    Xor,
    ExclamationMark,
    // Assignment operators
    Assign,
    FormulaAssign,
    PlusAssign,
    MinusAssign,
    MultiplyAssign,
    DivideAssign,
    PowerAssign,
    ModuloAssign,
    // Comparison operators
    Equal,
    NotEqual,
    Less,
    LessEqual,
    Greater,
    GreaterEqual,
    // Brackets
    LParen,
    RParen,
    LAngle,
    RAngle,
    LSquare,
    RSquare,
    Identifier,
    // Literals
    Number,
    Str,
    True,
    False,
    /// The keyword `None`.
    NoneLiteral,
    // Keywords
    If,
    Else,
    While,
    For,
    Loop,
    Let,
    Scope,
    Context,
    Return,
    Yield,
    Break,
    Continue,
    Function,
    In,
    Of,
    Delete,
    Throw,
    Mut,
    Import,
    As,
    Async,
    Await,
    Block,
}

/// The payload of a token.
#[derive(Debug)]
pub enum TokenValue {
    /// The token carries no payload.
    Absent,
    Number(i64),
    Str(String),
    Identifier(String),
    Bool(bool),
}

/// A token with its span in the source, in bytes of its UTF-8 form.
#[derive(Debug)]
pub struct Token {
    pub kind: TokenKind,
    /// Offset in bytes of the first character.
    pub start: usize,
    /// Offset in bytes behind the last character.
    pub end: usize,
    pub value: TokenValue,
}


impl TokenKind {
    /// How the kind is written in messages: an operator or a keyword as in a source, another
    /// kind by its name.
    pub open spec fn text(self) -> Seq<char> {
        match self {
            TokenKind::Eof => "EOF"@,
            TokenKind::DocComment => "DocComment"@,
            TokenKind::Comment => "Comment"@,
            TokenKind::Unexpected => "Unexpected"@,
            TokenKind::Skip => "Skip"@,
            TokenKind::Start => "Start"@,
            TokenKind::Semicolon => ";"@,
            TokenKind::Comma => ","@,
            TokenKind::Colon => ":"@,
            TokenKind::Dot => "."@,
            TokenKind::Plus => "+"@,
            TokenKind::Minus => "-"@,
            TokenKind::Star => "*"@,
            TokenKind::Slash => "/"@,
            TokenKind::Caret => "^"@,
            TokenKind::Range => ".."@,
            TokenKind::Modulo => "%"@,
            TokenKind::Ampersand => "&"@,
            TokenKind::Pipe => "|"@,
            TokenKind::Tilde => "~"@,
            TokenKind::BitXor => "^"@,
            TokenKind::BitLeftShift => "<<"@,
            TokenKind::BitRightShift => ">>"@,
            TokenKind::PlusPlus => "++"@,
            TokenKind::MinusMinus => "--"@,
            TokenKind::Question => "?"@,
            TokenKind::AmpersandAmpersand => "&&"@,
            TokenKind::PipePipe => "||"@,
            TokenKind::Xor => "xor"@,
            TokenKind::ExclamationMark => "!"@,
            TokenKind::Assign => "="@,
            TokenKind::FormulaAssign => ":="@,
            TokenKind::PlusAssign => "+="@,
            TokenKind::MinusAssign => "-="@,
            TokenKind::MultiplyAssign => "*="@,
            TokenKind::DivideAssign => "/="@,
            TokenKind::PowerAssign => "^="@,
            TokenKind::ModuloAssign => "%="@,
            TokenKind::Equal => "=="@,
            TokenKind::NotEqual => "!="@,
            TokenKind::Less => "<"@,
            TokenKind::LessEqual => "<="@,
            TokenKind::Greater => ">"@,
            TokenKind::GreaterEqual => ">="@,
            TokenKind::LParen => "("@,
            TokenKind::RParen => ")"@,
            TokenKind::LAngle => "{"@,
            TokenKind::RAngle => "}"@,
            TokenKind::LSquare => "["@,
            TokenKind::RSquare => "]"@,
            TokenKind::Identifier => "Identifier"@,
            TokenKind::Number => "Number"@,
            TokenKind::Str => "String"@,
            TokenKind::True => "true"@,
            TokenKind::False => "false"@,
            TokenKind::NoneLiteral => "None"@,
            TokenKind::If => "if"@,
            TokenKind::Else => "else"@,
            TokenKind::While => "while"@,
            TokenKind::For => "for"@,
            TokenKind::Loop => "loop"@,
            TokenKind::Let => "let"@,
            TokenKind::Scope => "scope"@,
            TokenKind::Context => "context"@,
            TokenKind::Return => "return"@,
            TokenKind::Yield => "yield"@,
            TokenKind::Break => "break"@,
            TokenKind::Continue => "continue"@,
            TokenKind::Function => "fn"@,
            TokenKind::In => "in"@,
            TokenKind::Of => "of"@,
            TokenKind::Delete => "delete"@,
            TokenKind::Throw => "throw"@,
            TokenKind::Mut => "assign"@,
            TokenKind::Import => "import"@,
            TokenKind::As => "as"@,
            TokenKind::Async => "async"@,
            TokenKind::Await => "await"@,
            TokenKind::Block => "block"@,
        }
    }

    /// How the kind is written in messages.
    pub fn as_str(self) -> (s: &'static str)
        ensures
            s@ == self.text(),
    {
        match self {
            TokenKind::Eof => "EOF",
            TokenKind::DocComment => "DocComment",
            TokenKind::Comment => "Comment",
            TokenKind::Unexpected => "Unexpected",
            TokenKind::Skip => "Skip",
            TokenKind::Start => "Start",
            TokenKind::Semicolon => ";",
            TokenKind::Comma => ",",
            TokenKind::Colon => ":",
            TokenKind::Dot => ".",
            TokenKind::Plus => "+",
            TokenKind::Minus => "-",
            TokenKind::Star => "*",
            TokenKind::Slash => "/",
            TokenKind::Caret => "^",
            TokenKind::Range => "..",
            TokenKind::Modulo => "%",
            TokenKind::Ampersand => "&",
            TokenKind::Pipe => "|",
            TokenKind::Tilde => "~",
            TokenKind::BitXor => "^",
            TokenKind::BitLeftShift => "<<",
            TokenKind::BitRightShift => ">>",
            TokenKind::PlusPlus => "++",
            TokenKind::MinusMinus => "--",
            TokenKind::Question => "?",
            TokenKind::AmpersandAmpersand => "&&",
            TokenKind::PipePipe => "||",
            TokenKind::Xor => "xor",
            TokenKind::ExclamationMark => "!",
            TokenKind::Assign => "=",
            TokenKind::FormulaAssign => ":=",
            TokenKind::PlusAssign => "+=",
            TokenKind::MinusAssign => "-=",
            TokenKind::MultiplyAssign => "*=",
            TokenKind::DivideAssign => "/=",
            TokenKind::PowerAssign => "^=",
            TokenKind::ModuloAssign => "%=",
            TokenKind::Equal => "==",
            TokenKind::NotEqual => "!=",
            TokenKind::Less => "<",
            TokenKind::LessEqual => "<=",
            TokenKind::Greater => ">",
            TokenKind::GreaterEqual => ">=",
            TokenKind::LParen => "(",
            TokenKind::RParen => ")",
            TokenKind::LAngle => "{",
            TokenKind::RAngle => "}",
            TokenKind::LSquare => "[",
            TokenKind::RSquare => "]",
            TokenKind::Identifier => "Identifier",
            TokenKind::Number => "Number",
            TokenKind::Str => "String",
            TokenKind::True => "true",
            TokenKind::False => "false",
            TokenKind::NoneLiteral => "None",
            TokenKind::If => "if",
            TokenKind::Else => "else",
            TokenKind::While => "while",
            TokenKind::For => "for",
            TokenKind::Loop => "loop",
            TokenKind::Let => "let",
            TokenKind::Scope => "scope",
            TokenKind::Context => "context",
            TokenKind::Return => "return",
            TokenKind::Yield => "yield",
            TokenKind::Break => "break",
            TokenKind::Continue => "continue",
            TokenKind::Function => "fn",
            TokenKind::In => "in",
            TokenKind::Of => "of",
            TokenKind::Delete => "delete",
            TokenKind::Throw => "throw",
            TokenKind::Mut => "assign",
            TokenKind::Import => "import",
            TokenKind::As => "as",
            TokenKind::Async => "async",
            TokenKind::Await => "await",
            TokenKind::Block => "block",
        }
    }

    /// How the kind is written in messages.
    pub fn to_text(self) -> (s: String)
        ensures
            s@ == self.text(),
    {
        self.as_str().to_owned()
    }
}

impl TokenValue {
    /// How the payload is written: a string between double quotes, all else bare.
    pub open spec fn text(self) -> Seq<char> {
        match self {
            TokenValue::Absent => Seq::empty(),
            TokenValue::Number(n) => decimal(n as int),
            TokenValue::Str(s) => "\""@ + s@ + "\""@,
            TokenValue::Identifier(s) => s@,
            TokenValue::Bool(b) => if b {
                "true"@
            } else {
                "false"@
            },
        }
    }

    /// How the payload is written.
    pub fn to_text(&self) -> (s: String)
        ensures
            s@ == self.text(),
    {
        match self {
            TokenValue::Absent => String::new(),
            TokenValue::Number(n) => number_text(*n),
            TokenValue::Str(s) => {
                let mut out = "\"".to_owned();
                out.append(s.as_str());
                out.append("\"");
                out
            },
            TokenValue::Identifier(s) => s.clone(),
            TokenValue::Bool(b) => if *b {
                "true".to_owned()
            } else {
                "false".to_owned()
            },
        }
    }

    /// A copy of the payload.
    pub fn duplicate(&self) -> (r: TokenValue)
        ensures
            r == *self,
    {
        match self {
            TokenValue::Absent => TokenValue::Absent,
            TokenValue::Number(n) => TokenValue::Number(*n),
            TokenValue::Str(s) => TokenValue::Str(s.clone()),
            TokenValue::Identifier(s) => TokenValue::Identifier(s.clone()),
            TokenValue::Bool(b) => TokenValue::Bool(*b),
        }
    }
}

impl Token {
    /// How the token is written: by its payload where it has one, by its kind otherwise.
    pub open spec fn text(self) -> Seq<char> {
        match self.value {
            TokenValue::Absent => self.kind.text(),
            _ => self.value.text(),
        }
    }

    /// How the token is written.
    pub fn to_text(&self) -> (s: String)
        ensures
            s@ == self.text(),
    {
        match self.value {
            TokenValue::Absent => self.kind.to_text(),
            _ => self.value.to_text(),
        }
    }

    /// A copy of the token.
    pub fn duplicate(&self) -> (r: Token)
        ensures
            r == *self,
    {
        Token { kind: self.kind, start: self.start, end: self.end, value: self.value.duplicate() }
    }
}

impl Default for Token {
    /// The token that a parser holds before it has read any.
    fn default() -> (token: Token)
        ensures
            token.kind == TokenKind::Start,
            token.start == 0,
            token.end == 0,
            token.value is Absent,
    {
        Token { kind: TokenKind::Start, start: 0, end: 0, value: TokenValue::Absent }
    }
}

} // verus!
