use vstd::prelude::*;
use crate::report::Diagnostic;
use crate::text::{
    byte_of, byte_starts, char_of, chars_of, lemma_byte_of_grows, lemma_byte_of_next,
    lemma_char_of_byte_of, spells, text_of, utf8_width,
};
use crate::token::{Token, TokenKind, TokenValue};

verus! {

/// Splits a source text into tokens.
pub struct Lexer<'a> {
    /// Path of the source file.
    path: &'a str,
    /// Source text.
    source: &'a str,
    /// The characters of the source text.
    chars: Vec<char>,
    /// The offsets in bytes at which the characters start, and the length in bytes.
    starts: Vec<usize>,
    /// Index of the next character to read.
    position: usize,
    /// Whether comments come out as tokens.
    keep_comments: bool,
}

pub open spec fn is_digit(c: char) -> bool {
    '0' <= c <= '9'
}

pub open spec fn is_word_start(c: char) -> bool {
    ('a' <= c <= 'z') || ('A' <= c <= 'Z') || c == '_'
}

pub open spec fn is_word_part(c: char) -> bool {
    is_word_start(c) || is_digit(c)
}

pub open spec fn is_trivia(c: char) -> bool {
    c == ' ' || c == '\t' || c == '\n' || c == '\r'
}

pub open spec fn is_quote(c: char) -> bool {
    c == '"' || c == '\'' || c == '`'
}

/// The number that a run of decimal digits stands for.
pub open spec fn digits_value(s: Seq<char>) -> nat
    decreases s.len(),
{
    if s.len() == 0 {
        0
    } else {
        digits_value(s.drop_last()) * 10 + ((s.last() as u32 - '0' as u32) as nat)
    }
}

/// The kind of the keyword that `text` spells, if it spells one.
pub open spec fn keyword(text: Seq<char>) -> Option<TokenKind> {
    if text == "true"@ {
        Some(TokenKind::True)
    } else if text == "false"@ {
        Some(TokenKind::False)
    } else if text == "None"@ {
        Some(TokenKind::NoneLiteral)
    } else if text == "if"@ {
        Some(TokenKind::If)
    } else if text == "else"@ {
        Some(TokenKind::Else)
    } else if text == "while"@ {
        Some(TokenKind::While)
    } else if text == "loop"@ {
        Some(TokenKind::Loop)
    } else if text == "for"@ {
        Some(TokenKind::For)
    } else if text == "let"@ {
        Some(TokenKind::Let)
    } else if text == "fn"@ {
        Some(TokenKind::Function)
    } else if text == "scope"@ {
        Some(TokenKind::Scope)
    } else if text == "context"@ {
        Some(TokenKind::Context)
    } else if text == "return"@ {
        Some(TokenKind::Return)
    } else if text == "yield"@ {
        Some(TokenKind::Yield)
    } else if text == "break"@ {
        Some(TokenKind::Break)
    } else if text == "continue"@ {
        Some(TokenKind::Continue)
    } else if text == "throw"@ {
        Some(TokenKind::Throw)
    } else if text == "in"@ {
        Some(TokenKind::In)
    } else if text == "of"@ {
        Some(TokenKind::Of)
    } else if text == "delete"@ {
        Some(TokenKind::Delete)
    } else if text == "mut"@ {
        Some(TokenKind::Mut)
    } else if text == "block"@ {
        Some(TokenKind::Block)
    } else if text == "import"@ {
        Some(TokenKind::Import)
    } else if text == "as"@ {
        Some(TokenKind::As)
    } else if text == "async"@ {
        Some(TokenKind::Async)
    } else if text == "await"@ {
        Some(TokenKind::Await)
    } else if text == "band"@ {
        Some(TokenKind::Ampersand)
    } else if text == "bxor"@ {
        Some(TokenKind::BitXor)
    } else if text == "bor"@ {
        Some(TokenKind::Pipe)
    } else if text == "bnot"@ {
        Some(TokenKind::Tilde)
    } else if text == "bshl"@ {
        Some(TokenKind::BitLeftShift)
    } else if text == "bshr"@ {
        Some(TokenKind::BitRightShift)
    } else if text == "xor"@ {
        Some(TokenKind::Xor)
    } else if text == "and"@ {
        Some(TokenKind::AmpersandAmpersand)
    } else if text == "or"@ {
        Some(TokenKind::PipePipe)
    } else if text == "not"@ {
        Some(TokenKind::ExclamationMark)
    } else {
        None
    }
}

/// The operator or bracket that starts with `c`, given the character after it, and the number
/// of characters that it takes. A dot before a digit starts a number instead, and is not
/// listed.
pub open spec fn punctuation(c: char, next: Option<char>) -> Option<(TokenKind, nat)> {
    if c == ';' {
        Some((TokenKind::Semicolon, 1))
    } else if c == ',' {
        Some((TokenKind::Comma, 1))
    } else if c == ':' {
        if next == Some('=') {
            Some((TokenKind::FormulaAssign, 2))
        } else {
            Some((TokenKind::Colon, 1))
        }
    } else if c == '.' {
        if next == Some('.') {
            Some((TokenKind::Range, 2))
        } else if next is Some && is_digit(next->Some_0) {
            None
        } else {
            Some((TokenKind::Dot, 1))
        }
    } else if c == '+' {
        if next == Some('=') {
            Some((TokenKind::PlusAssign, 2))
        } else if next == Some('+') {
            Some((TokenKind::PlusPlus, 2))
        } else {
            Some((TokenKind::Plus, 1))
        }
    } else if c == '-' {
        if next == Some('=') {
            Some((TokenKind::MinusAssign, 2))
        } else if next == Some('-') {
            Some((TokenKind::MinusMinus, 2))
        } else {
            Some((TokenKind::Minus, 1))
        }
    } else if c == '*' {
        if next == Some('=') {
            Some((TokenKind::MultiplyAssign, 2))
        } else {
            Some((TokenKind::Star, 1))
        }
    } else if c == '/' {
        if next == Some('=') {
            Some((TokenKind::DivideAssign, 2))
        } else {
            Some((TokenKind::Slash, 1))
        }
    } else if c == '^' {
        if next == Some('=') {
            Some((TokenKind::PowerAssign, 2))
        } else {
            Some((TokenKind::Caret, 1))
        }
    } else if c == '%' {
        if next == Some('=') {
            Some((TokenKind::ModuloAssign, 2))
        } else {
            Some((TokenKind::Modulo, 1))
        }
    } else if c == '&' {
        if next == Some('&') {
            Some((TokenKind::AmpersandAmpersand, 2))
        } else {
            Some((TokenKind::Ampersand, 1))
        }
    } else if c == '|' {
        if next == Some('|') {
            Some((TokenKind::PipePipe, 2))
        } else {
            Some((TokenKind::Pipe, 1))
        }
    } else if c == '~' {
        Some((TokenKind::Tilde, 1))
    } else if c == '?' {
        Some((TokenKind::Question, 1))
    } else if c == '=' {
        if next == Some('=') {
            Some((TokenKind::Equal, 2))
        } else {
            Some((TokenKind::Assign, 1))
        }
    } else if c == '!' {
        if next == Some('=') {
            Some((TokenKind::NotEqual, 2))
        } else {
            Some((TokenKind::ExclamationMark, 1))
        }
    } else if c == '<' {
        if next == Some('=') {
            Some((TokenKind::LessEqual, 2))
        } else if next == Some('<') {
            Some((TokenKind::BitLeftShift, 2))
        } else {
            Some((TokenKind::Less, 1))
        }
    } else if c == '>' {
        if next == Some('=') {
            Some((TokenKind::GreaterEqual, 2))
        } else if next == Some('>') {
            Some((TokenKind::BitRightShift, 2))
        } else {
            Some((TokenKind::Greater, 1))
        }
    } else if c == '(' {
        Some((TokenKind::LParen, 1))
    } else if c == ')' {
        Some((TokenKind::RParen, 1))
    } else if c == '{' {
        Some((TokenKind::LAngle, 1))
    } else if c == '}' {
        Some((TokenKind::RAngle, 1))
    } else if c == '[' {
        Some((TokenKind::LSquare, 1))
    } else if c == ']' {
        Some((TokenKind::RSquare, 1))
    } else {
        None
    }
}

/// The character of `chars` at `i`, if there is one.
pub open spec fn char_at(chars: Seq<char>, i: int) -> Option<char> {
    if 0 <= i < chars.len() {
        Some(chars[i])
    } else {
        None
    }
}

/// Where the blanks and line ends that start at `from` end.
pub open spec fn trivia_end(chars: Seq<char>, from: int) -> int
    decreases chars.len() - from,
{
    if from < 0 || from >= chars.len() || !is_trivia(chars[from]) {
        from
    } else {
        trivia_end(chars, from + 1)
    }
}

/// Where the letters, digits and underscores that start at `from` end.
pub open spec fn word_end(chars: Seq<char>, from: int) -> int
    decreases chars.len() - from,
{
    if from < 0 || from >= chars.len() || !is_word_part(chars[from]) {
        from
    } else {
        word_end(chars, from + 1)
    }
}

/// Where the digits that start at `from` end.
pub open spec fn digits_end(chars: Seq<char>, from: int) -> int
    decreases chars.len() - from,
{
    if from < 0 || from >= chars.len() || !is_digit(chars[from]) {
        from
    } else {
        digits_end(chars, from + 1)
    }
}

/// Where the string ends whose contents start at `from`: behind the first `quote` that no
/// backslash stands in front of; a backslash takes the character behind it with it.
pub open spec fn string_close(chars: Seq<char>, from: int, quote: char) -> Option<int>
    decreases chars.len() - from,
{
    if from < 0 || from >= chars.len() {
        None
    } else if chars[from] == quote {
        Some(from + 1)
    } else if chars[from] == '\\' && from + 1 < chars.len() {
        string_close(chars, from + 2, quote)
    } else {
        string_close(chars, from + 1, quote)
    }
}

/// Where the line ends that `from` lies on: behind its line feed, or at the end of the text.
pub open spec fn line_end(chars: Seq<char>, from: int) -> int
    decreases chars.len() - from,
{
    if from < 0 || from >= chars.len() {
        from
    } else if chars[from] == '\n' {
        from + 1
    } else {
        line_end(chars, from + 1)
    }
}

/// Where the comment ends whose contents start at `from`, if it is closed: behind the first
/// `/#`.
pub open spec fn comment_close(chars: Seq<char>, from: int) -> Option<int>
    decreases chars.len() - from,
{
    if from < 0 || from >= chars.len() {
        None
    } else if chars[from] == '/' && from + 1 < chars.len() && chars[from + 1] == '#' {
        Some(from + 2)
    } else {
        comment_close(chars, from + 1)
    }
}

/// Where the comment ends whose `#` stands in front of `from`, and its kind: a comment that
/// starts with `#/` reaches to the next `/#`, or to the end of the text where there is none;
/// any other reaches to the end of its line.
pub open spec fn comment_span(chars: Seq<char>, from: int) -> (int, TokenKind) {
    if char_at(chars, from) == Some('/') {
        match comment_close(chars, from + 1) {
            Some(end) => (end, TokenKind::DocComment),
            None => (chars.len() as int, TokenKind::Comment),
        }
    } else {
        (line_end(chars, from), TokenKind::Comment)
    }
}

/// Whether a fraction or an exponent starts at `at`: a dot or an `e` with a digit behind it.
pub open spec fn fraction_at(chars: Seq<char>, at: int) -> bool {
    &&& 0 <= at
    &&& at + 1 < chars.len()
    &&& (chars[at] == '.' || chars[at] == 'e' || chars[at] == 'E')
    &&& is_digit(chars[at + 1])
}

/// Where the digits, fractions and exponents that start at `from` end.
pub open spec fn fraction_end(chars: Seq<char>, from: int) -> int
    decreases chars.len() - from,
{
    if from < 0 || from >= chars.len() {
        from
    } else if is_digit(chars[from]) {
        fraction_end(chars, from + 1)
    } else if fraction_at(chars, from) {
        fraction_end(chars, from + 2)
    } else {
        from
    }
}

/// What the lexer makes of the characters from some offset on.
pub enum Lexed {
    /// A token of the kind `kind` in `start..end`.
    Token { start: int, end: int, kind: TokenKind },
    /// Characters in `start..end` that make no token.
    Failure { start: int, end: int },
}

/// What the lexer makes of the characters from `pos` on: the next token with its place, or
/// the place of what it cannot read. Blanks are passed over, and comments too unless `keep`
/// says otherwise. A word is a keyword or an identifier; a number is a run of digits with
/// no fraction behind it, and not too large; a string reaches to its closing quote.
pub open spec fn lexed(chars: Seq<char>, pos: int, keep: bool) -> Lexed
    decreases chars.len() - pos,
{
    let start = trivia_end(chars, pos);
    if pos < 0 || start >= chars.len() {
        Lexed::Token { start: chars.len() as int, end: chars.len() as int, kind: TokenKind::Eof }
    } else {
        let c = chars[start];
        if c == '#' {
            let span = comment_span(chars, start + 1);
            if keep {
                Lexed::Token { start, end: span.0, kind: span.1 }
            } else if pos < span.0 <= chars.len() {
                lexed(chars, span.0, keep)
            } else {
                Lexed::Failure { start, end: start }
            }
        } else {
            lexed_at(chars, start)
        }
    }
}

/// What the lexer makes of the characters from `start` on, where a token starts that is no
/// comment.
pub open spec fn lexed_at(chars: Seq<char>, start: int) -> Lexed
    recommends
        0 <= start < chars.len(),
{
    let c = chars[start];
    if is_word_start(c) {
        let end = word_end(chars, start + 1);
        Lexed::Token {
            start,
            end,
            kind: match keyword(chars.subrange(start, end)) {
                Some(k) => k,
                None => TokenKind::Identifier,
            },
        }
    } else if is_digit(c) {
        let end = digits_end(chars, start + 1);
        if fraction_at(chars, end) {
            Lexed::Failure { start, end: fraction_end(chars, end) }
        } else if digits_value(chars.subrange(start, end)) > i64::MAX {
            Lexed::Failure { start, end }
        } else {
            Lexed::Token { start, end, kind: TokenKind::Number }
        }
    } else if is_quote(c) {
        match string_close(chars, start + 1, c) {
            Some(end) => Lexed::Token { start, end, kind: TokenKind::Str },
            None => Lexed::Failure { start, end: chars.len() as int },
        }
    } else {
        match punctuation(c, char_at(chars, start + 1)) {
            Some((kind, width)) => Lexed::Token { start, end: start + width, kind },
            None => if c == '.' {
                Lexed::Failure { start, end: fraction_end(chars, start + 1) }
            } else {
                Lexed::Failure { start, end: start + 1 }
            },
        }
    }
}

/// What the lexer says of the characters from `start` on that make no token.
pub open spec fn failure_text(chars: Seq<char>, start: int) -> Seq<char> {
    let c = chars[start];
    if is_digit(c) {
        if fraction_at(chars, digits_end(chars, start + 1)) {
            "Only whole numbers are supported"@
        } else {
            "Number is too large"@
        }
    } else if c == '.' {
        "Only whole numbers are supported"@
    } else {
        "Unexpected token"@
    }
}

/// What the lexer makes of all the characters from `pos` on: the tokens up to the end of the
/// text, if it can read them all.
pub open spec fn all_lexed(chars: Seq<char>, pos: int, keep: bool) -> Option<Seq<Lexed>>
    decreases chars.len() - pos,
{
    match lexed(chars, pos, keep) {
        Lexed::Failure { .. } => None,
        Lexed::Token { start, end, kind } => if kind == TokenKind::Eof {
            Some(Seq::empty())
        } else if pos < end <= chars.len() {
            match all_lexed(chars, end, keep) {
                Some(rest) => Some(seq![lexed(chars, pos, keep)] + rest),
                None => None,
            }
        } else {
            None
        },
    }
}

/// The place and the kind of a token.
pub open spec fn lexed_as(token: Token) -> Lexed {
    Lexed::Token { start: token.start as int, end: token.end as int, kind: token.kind }
}

/// The places and the kinds of tokens.
pub open spec fn all_lexed_as(tokens: Seq<Token>) -> Seq<Lexed> {
    Seq::new(tokens.len(), |i: int| lexed_as(tokens[i]))
}

/// What a token says of the characters `chars[token.start..token.end]` that it was read from.
pub open spec fn token_matches(chars: Seq<char>, token: Token) -> bool {
    let text = chars.subrange(token.start as int, token.end as int);
    &&& token.start <= token.end <= chars.len()
    &&& token.kind == TokenKind::Eof ==> token.start == token.end == chars.len()
    &&& token.kind != TokenKind::Eof ==> token.start < token.end
    &&& token.kind != TokenKind::Unexpected && token.kind != TokenKind::Skip && token.kind
        != TokenKind::Start
    &&& match token.value {
        TokenValue::Absent => true,
        TokenValue::Number(n) => {
            &&& token.kind == TokenKind::Number
            &&& forall|i: int| 0 <= i < text.len() ==> is_digit(#[trigger] text[i])
            &&& n == digits_value(text)
        },
        TokenValue::Identifier(name) => {
            &&& token.kind == TokenKind::Identifier
            &&& name@ == text
            &&& is_word_start(text[0])
            &&& forall|i: int| 0 <= i < text.len() ==> is_word_part(#[trigger] text[i])
            &&& keyword(text) is None
        },
        TokenValue::Str(content) => if token.kind == TokenKind::Str {
            &&& text.len() >= 2
            &&& is_quote(text[0])
            &&& text.last() == text[0]
            &&& content@ == text.subrange(1, text.len() - 1)
        } else {
            &&& (token.kind == TokenKind::DocComment || token.kind == TokenKind::Comment)
            &&& text[0] == '#'
            &&& content@ == text
        },
        TokenValue::Bool(_) => false,
    }
    &&& token.value is Absent ==> token.kind != TokenKind::Number && token.kind
        != TokenKind::Identifier && token.kind != TokenKind::Str && token.kind
        != TokenKind::DocComment && token.kind != TokenKind::Comment
    &&& token.value is Absent && token.kind != TokenKind::Eof ==> {
        ||| keyword(text) == Some(token.kind)
        ||| punctuation(text[0], char_at(chars, token.start + 1)) == Some(
            (token.kind, text.len()),
        )
    }
}

/// The token `token`, whose place is given in bytes of the UTF-8 form of `chars`, with its
/// place in characters.
pub open spec fn in_chars(chars: Seq<char>, token: Token) -> Token {
    Token {
        kind: token.kind,
        start: char_of(chars, token.start as int) as usize,
        end: char_of(chars, token.end as int) as usize,
        value: token.value,
    }
}

/// The tokens `tokens` with their places in characters.
pub open spec fn all_in_chars(chars: Seq<char>, tokens: Seq<Token>) -> Seq<Token> {
    Seq::new(tokens.len(), |i: int| in_chars(chars, tokens[i]))
}

/// The offsets `start` and `end`, in bytes, are those at which the characters `first` and
/// `last` of `chars` start.
pub open spec fn spans_bytes(chars: Seq<char>, start: usize, end: usize, first: int, last: int) -> bool {
    &&& 0 <= first <= last <= chars.len()
    &&& start <= end
    &&& start == byte_of(chars, first)
    &&& end == byte_of(chars, last)
    &&& char_of(chars, start as int) == first
    &&& char_of(chars, end as int) == last
}

impl<'a> Lexer<'a> {
    /// The characters of the source.
    pub closed spec fn text(&self) -> Seq<char> {
        self.chars@
    }

    /// Index of the next character to read: the number of characters before it.
    pub closed spec fn position(&self) -> nat {
        self.position as nat
    }

    /// Offset of the next character to read, in bytes.
    pub open spec fn byte_position(&self) -> nat {
        byte_of(self.text(), self.position() as int)
    }

    /// The path that the lexer was made with.
    pub closed spec fn path(&self) -> Seq<char> {
        self.path@
    }

    /// Whether comments come out as tokens.
    pub closed spec fn keeps_comments(&self) -> bool {
        self.keep_comments
    }

    /// The invariant of the lexer: it holds the characters of its source, and has read no
    /// further than their end.
    pub closed spec fn wf(&self) -> bool {
        &&& self.position <= self.chars@.len()
        &&& self.chars@ == self.source@
        &&& self.starts@.len() == self.chars@.len() + 1
        &&& forall|i: int|
            0 <= i <= self.chars@.len() ==> #[trigger] self.starts@[i] == byte_of(self.chars@, i)
    }

    /// A lexer has read no further than the end of its source.
    pub proof fn lemma_within(&self)
        requires
            self.wf(),
        ensures
            self.position() <= self.text().len(),
            self.byte_position() <= byte_of(self.text(), self.text().len() as int),
    {
        lemma_byte_of_grows(self.text(), self.position() as int, self.text().len() as int);
    }

    /// `later` is `self` after some characters have been read.
    pub open spec fn reads_on(&self, later: &Lexer<'a>) -> bool {
        &&& later.wf()
        &&& later.text() == self.text()
        &&& later.path() == self.path()
        &&& later.keeps_comments() == self.keeps_comments()
        &&& self.position() <= later.position() <= self.text().len()
    }

    /// A lexer at the start of `source`; comments are passed over.
    pub fn new(path: &'a str, source: &'a str) -> (lexer: Lexer<'a>)
        ensures
            lexer.wf(),
            lexer.text() == source@,
            lexer.path() == path@,
            lexer.position() == 0,
            !lexer.keeps_comments(),
    {
        let chars = chars_of(source);
        let starts = byte_starts(source, &chars);
        Lexer { path, source, chars, starts, position: 0, keep_comments: false }
    }

    /// A lexer at the start of `source` that hands out comments as tokens.
    pub fn with_comments(path: &'a str, source: &'a str) -> (lexer: Lexer<'a>)
        ensures
            lexer.wf(),
            lexer.text() == source@,
            lexer.path() == path@,
            lexer.position() == 0,
            lexer.keeps_comments(),
    {
        let chars = chars_of(source);
        let starts = byte_starts(source, &chars);
        Lexer { path, source, chars, starts, position: 0, keep_comments: true }
    }

    /// Offset of the next character to read, in bytes.
    pub fn offset(&self) -> (at: usize)
        requires
            self.wf(),
        ensures
            at == self.byte_position(),
            self.position() <= self.text().len(),
    {
        self.starts[self.position]
    }

    /// The number of characters of the source.
    pub fn len(&self) -> (n: usize)
        ensures
            n == self.text().len(),
    {
        self.chars.len()
    }

    /// The next character, which stays unread.
    pub fn peek(&self) -> (c: Option<char>)
        requires
            self.wf(),
        ensures
            c == char_at(self.text(), self.position() as int),
            self.position() <= self.text().len(),
    {
        if self.position < self.chars.len() {
            Some(self.chars[self.position])
        } else {
            None
        }
    }

    /// The character after the next one; both stay unread.
    pub fn peek_two(&self) -> (c: Option<char>)
        requires
            self.wf(),
        ensures
            c == char_at(self.text(), self.position() as int + 1),
    {
        if self.position < self.chars.len() && self.position + 1 < self.chars.len() {
            Some(self.chars[self.position + 1])
        } else {
            None
        }
    }

    /// Reads the next character.
    pub fn next(&mut self) -> (c: Option<char>)
        requires
            old(self).wf(),
        ensures
            old(self).reads_on(final(self)),
            c == char_at(old(self).text(), old(self).position() as int),
            final(self).position() == old(self).position() + (if c is Some {
                1nat
            } else {
                0nat
            }),
            final(self).byte_position() == old(self).byte_position() + (match c {
                Some(read) => utf8_width(read),
                None => 0nat,
            }),
    {
        if self.position < self.chars.len() {
            let c = self.chars[self.position];
            proof {
                lemma_byte_of_next(self.chars@, self.position as int);
            }
            self.position = self.position + 1;
            Some(c)
        } else {
            None
        }
    }

    /// Reads the next character if it is `ch`.
    pub fn eat(&mut self, ch: char) -> (eaten: bool)
        requires
            old(self).wf(),
        ensures
            old(self).reads_on(final(self)),
            eaten == (char_at(old(self).text(), old(self).position() as int) == Some(ch)),
            final(self).position() == old(self).position() + (if eaten {
                1nat
            } else {
                0nat
            }),
            final(self).byte_position() == old(self).byte_position() + (if eaten {
                utf8_width(ch)
            } else {
                0nat
            }),
    {
        if self.position < self.chars.len() && self.chars[self.position] == ch {
            proof {
                lemma_byte_of_next(self.chars@, self.position as int);
            }
            self.position = self.position + 1;
            true
        } else {
            false
        }
    }

    /// Passes over blanks and line ends.
    pub fn skip_trivia(&mut self)
        requires
            old(self).wf(),
        ensures
            old(self).reads_on(final(self)),
            forall|i: int|
                old(self).position() <= i < final(self).position() ==> is_trivia(
                    #[trigger] old(self).text()[i],
                ),
            match char_at(final(self).text(), final(self).position() as int) {
                Some(c) => !is_trivia(c),
                None => true,
            },
            final(self).position() == trivia_end(old(self).text(), old(self).position() as int),
    {
        while self.position < self.chars.len() && (self.chars[self.position] == ' '
            || self.chars[self.position] == '\t' || self.chars[self.position] == '\n'
            || self.chars[self.position] == '\r')
            invariant
                old(self).reads_on(self),
                self.chars@ == old(self).chars@,
                forall|i: int|
                    old(self).position() <= i < self.position() ==> is_trivia(
                        #[trigger] self.chars@[i],
                    ),
                trivia_end(self.chars@, old(self).position() as int) == trivia_end(
                    self.chars@,
                    self.position() as int,
                ),
            decreases self.chars@.len() - self.position,
        {
            self.position = self.position + 1;
        }
    }

    /// The kind of the word `chars[start..end]`: that of the keyword it spells, or an
    /// identifier.
    fn match_keyword(&self, start: usize, end: usize) -> (kind: TokenKind)
        requires
            self.wf(),
            start <= end <= self.text().len(),
        ensures
            kind == (match keyword(self.text().subrange(start as int, end as int)) {
                Some(k) => k,
                None => TokenKind::Identifier,
            }),
    {
        let chars = &self.chars;
        if spells(chars, start, end, "true") {
            TokenKind::True
        } else if spells(chars, start, end, "false") {
            TokenKind::False
        } else if spells(chars, start, end, "None") {
            TokenKind::NoneLiteral
        } else if spells(chars, start, end, "if") {
            TokenKind::If
        } else if spells(chars, start, end, "else") {
            TokenKind::Else
        } else if spells(chars, start, end, "while") {
            TokenKind::While
        } else if spells(chars, start, end, "loop") {
            TokenKind::Loop
        } else if spells(chars, start, end, "for") {
            TokenKind::For
        } else if spells(chars, start, end, "let") {
            TokenKind::Let
        } else if spells(chars, start, end, "fn") {
            TokenKind::Function
        } else if spells(chars, start, end, "scope") {
            TokenKind::Scope
        } else if spells(chars, start, end, "context") {
            TokenKind::Context
        } else if spells(chars, start, end, "return") {
            TokenKind::Return
        } else if spells(chars, start, end, "yield") {
            TokenKind::Yield
        } else if spells(chars, start, end, "break") {
            TokenKind::Break
        } else if spells(chars, start, end, "continue") {
            TokenKind::Continue
        } else if spells(chars, start, end, "throw") {
            TokenKind::Throw
        } else if spells(chars, start, end, "in") {
            TokenKind::In
        } else if spells(chars, start, end, "of") {
            TokenKind::Of
        } else if spells(chars, start, end, "delete") {
            TokenKind::Delete
        } else if spells(chars, start, end, "mut") {
            TokenKind::Mut
        } else if spells(chars, start, end, "block") {
            TokenKind::Block
        } else if spells(chars, start, end, "import") {
            TokenKind::Import
        } else if spells(chars, start, end, "as") {
            TokenKind::As
        } else if spells(chars, start, end, "async") {
            TokenKind::Async
        } else if spells(chars, start, end, "await") {
            TokenKind::Await
        } else if spells(chars, start, end, "band") {
            TokenKind::Ampersand
        } else if spells(chars, start, end, "bxor") {
            TokenKind::BitXor
        } else if spells(chars, start, end, "bor") {
            TokenKind::Pipe
        } else if spells(chars, start, end, "bnot") {
            TokenKind::Tilde
        } else if spells(chars, start, end, "bshl") {
            TokenKind::BitLeftShift
        } else if spells(chars, start, end, "bshr") {
            TokenKind::BitRightShift
        } else if spells(chars, start, end, "xor") {
            TokenKind::Xor
        } else if spells(chars, start, end, "and") {
            TokenKind::AmpersandAmpersand
        } else if spells(chars, start, end, "or") {
            TokenKind::PipePipe
        } else if spells(chars, start, end, "not") {
            TokenKind::ExclamationMark
        } else {
            TokenKind::Identifier
        }
    }

    /// Reads on to the end of a word.
    fn read_identifier(&mut self)
        requires
            old(self).wf(),
        ensures
            old(self).reads_on(final(self)),
            forall|i: int|
                old(self).position() <= i < final(self).position() ==> is_word_part(
                    #[trigger] old(self).text()[i],
                ),
            final(self).position() == word_end(old(self).text(), old(self).position() as int),
    {
        while self.position < self.chars.len() && Lexer::word_part(self.chars[self.position])
            invariant
                old(self).reads_on(self),
                self.chars@ == old(self).chars@,
                word_end(self.chars@, old(self).position() as int) == word_end(
                    self.chars@,
                    self.position() as int,
                ),
                forall|i: int|
                    old(self).position() <= i < self.position() ==> is_word_part(
                        #[trigger] self.chars@[i],
                    ),
            decreases self.chars@.len() - self.position,
        {
            self.position = self.position + 1;
        }
    }

    fn word_part(c: char) -> (b: bool)
        ensures
            b == is_word_part(c),
    {
        (c >= 'a' && c <= 'z') || (c >= 'A' && c <= 'Z') || c == '_' || (c >= '0' && c <= '9')
    }

    fn digit(c: char) -> (b: bool)
        ensures
            b == is_digit(c),
    {
        c >= '0' && c <= '9'
    }

    /// Reads on to the end of a run of digits that starts at `start`, and gives the number
    /// that the run stands for if it is not too large for a number.
    fn read_number(&mut self, start: usize) -> (value: Option<i64>)
        requires
            old(self).wf(),
            start <= old(self).position(),
            forall|i: int| start <= i < old(self).position() ==> is_digit(
                #[trigger] old(self).text()[i],
            ),
            digits_value(old(self).text().subrange(start as int, old(self).position() as int))
                <= i64::MAX,
        ensures
            old(self).reads_on(final(self)),
            forall|i: int| start <= i < final(self).position() ==> is_digit(
                #[trigger] old(self).text()[i],
            ),
            match char_at(final(self).text(), final(self).position() as int) {
                Some(c) => !is_digit(c),
                None => true,
            },
            final(self).position() == digits_end(old(self).text(), old(self).position() as int),
            match value {
                Some(n) => n == digits_value(
                    old(self).text().subrange(start as int, final(self).position() as int),
                ),
                None => digits_value(
                    old(self).text().subrange(start as int, final(self).position() as int),
                ) > i64::MAX,
            },
    {
        let mut acc: Option<i64> = Some(self.seen_value(start));
        while self.position < self.chars.len() && Lexer::digit(self.chars[self.position])
            invariant
                old(self).reads_on(self),
                self.chars@ == old(self).chars@,
                start <= self.position(),
                digits_end(self.chars@, old(self).position() as int) == digits_end(
                    self.chars@,
                    self.position() as int,
                ),
                forall|i: int| start <= i < self.position() ==> is_digit(
                    #[trigger] self.chars@[i],
                ),
                match acc {
                    Some(n) => n == digits_value(
                        self.chars@.subrange(start as int, self.position() as int),
                    ),
                    None => digits_value(
                        self.chars@.subrange(start as int, self.position() as int),
                    ) > i64::MAX,
                },
            decreases self.chars@.len() - self.position,
        {
            let c = self.chars[self.position];
            let d: i64 = (c as u32 - '0' as u32) as i64;
            let ghost before = self.chars@.subrange(start as int, self.position() as int);
            self.position = self.position + 1;
            proof {
                let now = self.chars@.subrange(start as int, self.position() as int);
                assert(now.drop_last() == before);
                assert(now.last() == c);
                assert(digits_value(now) == digits_value(before) * 10 + d);
            }
            acc = match acc {
                Some(n) => {
                    if n > (i64::MAX - d) / 10 {
                        None
                    } else {
                        Some(n * 10 + d)
                    }
                },
                None => None,
            };
        }
        acc
    }

    /// The number that the digits `chars[start..position]` stand for.
    fn seen_value(&self, start: usize) -> (n: i64)
        requires
            self.wf(),
            start <= self.position(),
            forall|i: int| start <= i < self.position() ==> is_digit(#[trigger] self.text()[i]),
            digits_value(self.text().subrange(start as int, self.position() as int)) <= i64::MAX,
        ensures
            n == digits_value(self.text().subrange(start as int, self.position() as int)),
    {
        let mut n: i64 = 0;
        let mut i: usize = start;
        proof {
            assert(self.chars@.subrange(start as int, start as int).len() == 0);
        }
        while i < self.position
            invariant
                self.wf(),
                start <= i <= self.position(),
                forall|j: int| start <= j < self.position() ==> is_digit(#[trigger] self.chars@[j]),
                digits_value(self.chars@.subrange(start as int, self.position() as int))
                    <= i64::MAX,
                n == digits_value(self.chars@.subrange(start as int, i as int)),
            decreases self.position - i,
        {
            let c = self.chars[i];
            let d: i64 = (c as u32 - '0' as u32) as i64;
            proof {
                let now = self.chars@.subrange(start as int, i as int + 1);
                assert(now.drop_last() == self.chars@.subrange(start as int, i as int));
                assert(now.last() == c);
                assert(digits_value(now) == n * 10 + d);
                lemma_digits_value_grows(
                    self.chars@,
                    start as int,
                    i as int + 1,
                    self.position() as int,
                );
            }
            n = n * 10 + d;
            i = i + 1;
        }
        n
    }

    /// Reads on past the quote that closes a string opened by `quote`; a backslash keeps the
    /// character after it from closing the string.
    fn read_string(&mut self, quote: char) -> (closed: bool)
        requires
            old(self).wf(),
        ensures
            old(self).reads_on(final(self)),
            closed ==> final(self).position() > old(self).position() && old(self).text()[final(self).position() - 1] == quote,
            !closed ==> final(self).position() == old(self).text().len(),
            match string_close(old(self).text(), old(self).position() as int, quote) {
                Some(end) => closed && final(self).position() == end,
                None => !closed,
            },
    {
        while self.position < self.chars.len()
            invariant
                old(self).reads_on(self),
                self.chars@ == old(self).chars@,
                string_close(self.chars@, old(self).position() as int, quote) == string_close(
                    self.chars@,
                    self.position() as int,
                    quote,
                ),
            decreases self.chars@.len() - self.position,
        {
            let c = self.chars[self.position];
            self.position = self.position + 1;
            if c == quote {
                return true;
            }
            if c == '\\' && self.position < self.chars.len() {
                self.position = self.position + 1;
            }
        }
        false
    }

    /// Reads on to the end of a comment whose `#` was read: past `/#` where the comment
    /// starts with `#/` and is closed, past the end of the line otherwise.
    fn read_comment(&mut self) -> (kind: TokenKind)
        requires
            old(self).wf(),
        ensures
            old(self).reads_on(final(self)),
            kind == TokenKind::DocComment || kind == TokenKind::Comment,
            (final(self).position() as int, kind) == comment_span(
                old(self).text(),
                old(self).position() as int,
            ),
    {
        if self.eat('/') {
            let ghost from = self.position() as int;
            while self.position < self.chars.len()
                invariant
                    old(self).reads_on(self),
                    self.chars@ == old(self).chars@,
                    from == old(self).position() + 1,
                    char_at(old(self).text(), old(self).position() as int) == Some('/'),
                    comment_close(self.chars@, from) == comment_close(
                        self.chars@,
                        self.position() as int,
                    ),
                decreases self.chars@.len() - self.position,
            {
                let ghost at = self.position() as int;
                let c = self.chars[self.position];
                self.position = self.position + 1;
                if c == '/' && self.eat('#') {
                    proof {
                        assert(comment_close(self.chars@, at) == Some(at + 2));
                    }
                    return TokenKind::DocComment;
                }
                proof {
                    assert(comment_close(self.chars@, at) == comment_close(self.chars@, at + 1));
                }
            }
            proof {
                assert(comment_close(self.chars@, self.position() as int) is None);
            }
            return TokenKind::Comment;
        }
        while self.position < self.chars.len()
            invariant
                old(self).reads_on(self),
                self.chars@ == old(self).chars@,
                char_at(old(self).text(), old(self).position() as int) != Some('/'),
                line_end(self.chars@, old(self).position() as int) == line_end(
                    self.chars@,
                    self.position() as int,
                ),
            decreases self.chars@.len() - self.position,
        {
            let ghost at = self.position() as int;
            let c = self.chars[self.position];
            self.position = self.position + 1;
            if c == '\n' {
                proof {
                    assert(line_end(self.chars@, at) == at + 1);
                }
                return TokenKind::Comment;
            }
            proof {
                assert(line_end(self.chars@, at) == line_end(self.chars@, at + 1));
            }
        }
        proof {
            assert(line_end(self.chars@, self.position() as int) == self.position());
        }
        TokenKind::Comment
    }

    /// Reads on to the end of the operator or bracket whose first character `c` was read.
    fn read_punctuation(&mut self, c: char) -> (kind: Option<TokenKind>)
        requires
            old(self).wf(),
        ensures
            old(self).reads_on(final(self)),
            match punctuation(c, char_at(old(self).text(), old(self).position() as int)) {
                Some((k, width)) => kind == Some(k) && final(self).position() + 1 == old(self).position() + width,
                None => kind is None && final(self).position() == old(self).position(),
            },
    {
        let next = self.peek();
        if c == ';' {
            Some(TokenKind::Semicolon)
        } else if c == ',' {
            Some(TokenKind::Comma)
        } else if c == ':' {
            Some(self.read_one_more('=', TokenKind::FormulaAssign, TokenKind::Colon))
        } else if c == '.' {
            match next {
                Some(n) => {
                    if n == '.' {
                        let _ = self.eat('.');
                        Some(TokenKind::Range)
                    } else if Lexer::digit(n) {
                        None
                    } else {
                        Some(TokenKind::Dot)
                    }
                },
                None => Some(TokenKind::Dot),
            }
        } else if c == '+' {
            Some(
                self.read_one_more_variants(
                    TokenKind::Plus,
                    '=',
                    TokenKind::PlusAssign,
                    '+',
                    TokenKind::PlusPlus,
                ),
            )
        } else if c == '-' {
            Some(
                self.read_one_more_variants(
                    TokenKind::Minus,
                    '=',
                    TokenKind::MinusAssign,
                    '-',
                    TokenKind::MinusMinus,
                ),
            )
        } else if c == '*' {
            Some(self.read_one_more('=', TokenKind::MultiplyAssign, TokenKind::Star))
        } else if c == '/' {
            Some(self.read_one_more('=', TokenKind::DivideAssign, TokenKind::Slash))
        } else if c == '^' {
            Some(self.read_one_more('=', TokenKind::PowerAssign, TokenKind::Caret))
        } else if c == '%' {
            Some(self.read_one_more('=', TokenKind::ModuloAssign, TokenKind::Modulo))
        } else if c == '&' {
            Some(self.read_one_more('&', TokenKind::AmpersandAmpersand, TokenKind::Ampersand))
        } else if c == '|' {
            Some(self.read_one_more('|', TokenKind::PipePipe, TokenKind::Pipe))
        } else if c == '~' {
            Some(TokenKind::Tilde)
        } else if c == '?' {
            Some(TokenKind::Question)
        } else if c == '=' {
            Some(self.read_one_more('=', TokenKind::Equal, TokenKind::Assign))
        } else if c == '!' {
            Some(self.read_one_more('=', TokenKind::NotEqual, TokenKind::ExclamationMark))
        } else if c == '<' {
            Some(
                self.read_one_more_variants(
                    TokenKind::Less,
                    '=',
                    TokenKind::LessEqual,
                    '<',
                    TokenKind::BitLeftShift,
                ),
            )
        } else if c == '>' {
            Some(
                self.read_one_more_variants(
                    TokenKind::Greater,
                    '=',
                    TokenKind::GreaterEqual,
                    '>',
                    TokenKind::BitRightShift,
                ),
            )
        } else if c == '(' {
            Some(TokenKind::LParen)
        } else if c == ')' {
            Some(TokenKind::RParen)
        } else if c == '{' {
            Some(TokenKind::LAngle)
        } else if c == '}' {
            Some(TokenKind::RAngle)
        } else if c == '[' {
            Some(TokenKind::LSquare)
        } else if c == ']' {
            Some(TokenKind::RSquare)
        } else {
            None
        }
    }

    /// Reads the next character if it is `ch`, and tells by the kind whether it was.
    fn read_one_more(&mut self, ch: char, kind_expected: TokenKind, kind_unexpected: TokenKind) -> (kind:
        TokenKind)
        requires
            old(self).wf(),
        ensures
            old(self).reads_on(final(self)),
            char_at(old(self).text(), old(self).position() as int) == Some(ch) ==> kind
                == kind_expected && final(self).position() == old(self).position() + 1,
            char_at(old(self).text(), old(self).position() as int) != Some(ch) ==> kind
                == kind_unexpected && final(self).position() == old(self).position(),
    {
        if self.eat(ch) {
            kind_expected
        } else {
            kind_unexpected
        }
    }

    /// Reads the next character if it is `first` or `second`, and tells by the kind which.
    fn read_one_more_variants(
        &mut self,
        kind_unexpected: TokenKind,
        first: char,
        kind_first: TokenKind,
        second: char,
        kind_second: TokenKind,
    ) -> (kind: TokenKind)
        requires
            old(self).wf(),
            first != second,
        ensures
            old(self).reads_on(final(self)),
            char_at(old(self).text(), old(self).position() as int) == Some(first) ==> kind
                == kind_first && final(self).position() == old(self).position() + 1,
            char_at(old(self).text(), old(self).position() as int) == Some(second) ==> kind
                == kind_second && final(self).position() == old(self).position() + 1,
            char_at(old(self).text(), old(self).position() as int) != Some(first) && char_at(
                old(self).text(),
                old(self).position() as int,
            ) != Some(second) ==> kind == kind_unexpected && final(self).position() == old(self).position(),
    {
        if self.eat(first) {
            kind_first
        } else if self.eat(second) {
            kind_second
        } else {
            kind_unexpected
        }
    }

    fn fail(&self, message: &str, start: usize, end: usize) -> (d: Diagnostic)
        ensures
            d.path@ == self.path(),
            d.source@ == self.source@,
            d.message@ == message@,
            d.start == start,
            d.end == end,
    {
        Diagnostic::new(self.path, self.source, message.to_owned(), start, end)
    }

    /// Reads the next token, with its place in characters. At the end of the source the
    /// token is `Eof`, again and again.
    pub(crate) fn scan_token(&mut self) -> (r: Result<Token, Diagnostic>)
        requires
            old(self).wf(),
        ensures
            old(self).reads_on(final(self)),
            match r {
                Ok(token) => {
                    &&& token_matches(old(self).text(), token)
                    &&& old(self).position() <= token.start
                    &&& token.end == final(self).position()
                    &&& !old(self).keeps_comments() ==> token.kind != TokenKind::Comment
                        && token.kind != TokenKind::DocComment
                },
                Err(d) => {
                    &&& d.path@ == old(self).path()
                    &&& d.source@ == old(self).text()
                    &&& old(self).position() <= d.start < d.end <= old(self).text().len()
                    &&& d.end == final(self).position()
                },
            },
            match lexed(old(self).text(), old(self).position() as int, old(self).keeps_comments()) {
                Lexed::Token { start, end, kind } => r is Ok && lexed_as(r->Ok_0)
                    == (Lexed::Token { start, end, kind }),
                Lexed::Failure { start, end } => r is Err && r->Err_0.start == start
                    && r->Err_0.end == end && r->Err_0.message@ == failure_text(
                    old(self).text(),
                    start,
                ),
            },
    {
        loop
            invariant
                old(self).reads_on(self),
                self.chars@ == old(self).chars@,
                lexed(self.chars@, old(self).position() as int, self.keep_comments) == lexed(
                    self.chars@,
                    self.position() as int,
                    self.keep_comments,
                ),
            decreases self.chars@.len() - self.position,
        {
            let ghost entry = self.position() as int;
            self.skip_trivia();
            let start = self.position;
            if start >= self.chars.len() {
                return Ok(
                    Token { kind: TokenKind::Eof, start, end: start, value: TokenValue::Absent },
                );
            }
            let c = self.chars[start];
            if c == '#' {
                self.position = self.position + 1;
                let kind = self.read_comment();
                if self.keep_comments {
                    let end = self.position;
                    let content = text_of(&self.chars, start, end);
                    return Ok(Token { kind, start, end, value: TokenValue::Str(content) });
                }
                continue ;
            }
            return self.read_token(start, c);
        }
    }

    /// Reads the token that starts with the character `c` at `start`, which is the next to
    /// read and starts no comment.
    fn read_token(&mut self, start: usize, c: char) -> (r: Result<Token, Diagnostic>)
        requires
            old(self).wf(),
            start == old(self).position(),
            start < old(self).text().len(),
            c == old(self).text()[start as int],
            c != '#',
            !is_trivia(c),
        ensures
            old(self).reads_on(final(self)),
            match r {
                Ok(token) => {
                    &&& token_matches(old(self).text(), token)
                    &&& token.start == start
                    &&& token.end == final(self).position()
                    &&& token.kind != TokenKind::Comment && token.kind != TokenKind::DocComment
                    &&& token.kind != TokenKind::Eof
                },
                Err(d) => {
                    &&& d.path@ == old(self).path()
                    &&& d.source@ == old(self).text()
                    &&& start == d.start < d.end <= old(self).text().len()
                    &&& d.end == final(self).position()
                },
            },
            match lexed_at(old(self).text(), start as int) {
                Lexed::Token { start, end, kind } => r is Ok && lexed_as(r->Ok_0)
                    == (Lexed::Token { start, end, kind }),
                Lexed::Failure { start, end } => r is Err && r->Err_0.start == start
                    && r->Err_0.end == end && r->Err_0.message@ == failure_text(
                    old(self).text(),
                    start,
                ),
            },
    {
        let len = self.chars.len();
        assert(self.position < len);
        self.position = self.position + 1;
        if (c >= 'a' && c <= 'z') || (c >= 'A' && c <= 'Z') || c == '_' {
            self.read_word(start)
        } else if Lexer::digit(c) {
            self.read_digits(start, c)
        } else if c == '"' || c == '\'' || c == '`' {
            self.read_quoted(start, c)
        } else {
            self.read_operator(start, c)
        }
    }

    /// Reads the word whose first character, at `start`, was read.
    fn read_word(&mut self, start: usize) -> (r: Result<Token, Diagnostic>)
        requires
            old(self).wf(),
            start + 1 == old(self).position(),
            is_word_start(old(self).text()[start as int]),
        ensures
            old(self).reads_on(final(self)),
            r is Ok,
            token_matches(old(self).text(), r->Ok_0),
            r->Ok_0.end == final(self).position(),
            r->Ok_0.kind != TokenKind::Comment && r->Ok_0.kind != TokenKind::DocComment
                && r->Ok_0.kind != TokenKind::Eof,
            lexed_as(r->Ok_0) == lexed_at(old(self).text(), start as int),
    {
        let ghost text = self.chars@;
        self.read_identifier();
        let end = self.position;
        let kind = self.match_keyword(start, end);
        proof {
            Lexer::lemma_keyword_kinds(text.subrange(start as int, end as int));
        }
        if kind == TokenKind::Identifier {
            let name = text_of(&self.chars, start, end);
            return Ok(Token { kind, start, end, value: TokenValue::Identifier(name) });
        }
        Ok(Token { kind, start, end, value: TokenValue::Absent })
    }

    /// Reads the number whose first digit `c`, at `start`, was read.
    fn read_digits(&mut self, start: usize, c: char) -> (r: Result<Token, Diagnostic>)
        requires
            old(self).wf(),
            start + 1 == old(self).position(),
            c == old(self).text()[start as int],
            is_digit(c),
        ensures
            old(self).reads_on(final(self)),
            match r {
                Ok(token) => {
                    &&& token_matches(old(self).text(), token)
                    &&& token.start == start
                    &&& token.end == final(self).position()
                    &&& token.kind == TokenKind::Number
                },
                Err(d) => {
                    &&& d.path@ == old(self).path()
                    &&& d.source@ == old(self).text()
                    &&& start == d.start < d.end <= old(self).text().len()
                    &&& d.end == final(self).position()
                },
            },
            match lexed_at(old(self).text(), start as int) {
                Lexed::Token { start, end, kind } => r is Ok && lexed_as(r->Ok_0)
                    == (Lexed::Token { start, end, kind }),
                Lexed::Failure { start, end } => r is Err && r->Err_0.start == start
                    && r->Err_0.end == end && r->Err_0.message@ == failure_text(
                    old(self).text(),
                    start,
                ),
            },
    {
        let ghost text = self.chars@;
        proof {
            let one = text.subrange(start as int, start as int + 1);
            assert(one.drop_last().len() == 0);
            assert(digits_value(one.drop_last()) == 0);
            assert(digits_value(one) == (c as u32 - '0' as u32) as nat);
        }
        let value = self.read_number(start);
        if self.fraction_follows() {
            self.read_fraction();
            return Err(self.fail("Only whole numbers are supported", start, self.position));
        }
        let end = self.position;
        match value {
            Some(n) => Ok(
                Token { kind: TokenKind::Number, start, end, value: TokenValue::Number(n) },
            ),
            None => Err(self.fail("Number is too large", start, end)),
        }
    }

    /// Reads the string whose opening quote `c`, at `start`, was read.
    fn read_quoted(&mut self, start: usize, c: char) -> (r: Result<Token, Diagnostic>)
        requires
            old(self).wf(),
            start + 1 == old(self).position(),
            c == old(self).text()[start as int],
            is_quote(c),
        ensures
            old(self).reads_on(final(self)),
            match r {
                Ok(token) => {
                    &&& token_matches(old(self).text(), token)
                    &&& token.start == start
                    &&& token.end == final(self).position()
                    &&& token.kind == TokenKind::Str
                },
                Err(d) => {
                    &&& d.path@ == old(self).path()
                    &&& d.source@ == old(self).text()
                    &&& start == d.start < d.end <= old(self).text().len()
                    &&& d.end == final(self).position()
                },
            },
            match lexed_at(old(self).text(), start as int) {
                Lexed::Token { start, end, kind } => r is Ok && lexed_as(r->Ok_0)
                    == (Lexed::Token { start, end, kind }),
                Lexed::Failure { start, end } => r is Err && r->Err_0.start == start
                    && r->Err_0.end == end && r->Err_0.message@ == failure_text(
                    old(self).text(),
                    start,
                ),
            },
    {
        let ghost text = self.chars@;
        let closed = self.read_string(c);
        let end = self.position;
        if !closed {
            return Err(self.fail("Unexpected token", start, end));
        }
        let content = text_of(&self.chars, start + 1, end - 1);
        proof {
            let whole = text.subrange(start as int, end as int);
            assert(whole.subrange(1, whole.len() - 1) == text.subrange(
                start as int + 1,
                end as int - 1,
            ));
        }
        Ok(Token { kind: TokenKind::Str, start, end, value: TokenValue::Str(content) })
    }

    /// Reads the operator or bracket whose first character `c`, at `start`, was read.
    fn read_operator(&mut self, start: usize, c: char) -> (r: Result<Token, Diagnostic>)
        requires
            old(self).wf(),
            start + 1 == old(self).position(),
            c == old(self).text()[start as int],
            !is_word_start(c),
            !is_digit(c),
            !is_quote(c),
            c != '#',
            !is_trivia(c),
        ensures
            old(self).reads_on(final(self)),
            match r {
                Ok(token) => {
                    &&& token_matches(old(self).text(), token)
                    &&& token.start == start
                    &&& token.end == final(self).position()
                    &&& token.kind != TokenKind::Comment && token.kind != TokenKind::DocComment
                    &&& token.kind != TokenKind::Eof
                },
                Err(d) => {
                    &&& d.path@ == old(self).path()
                    &&& d.source@ == old(self).text()
                    &&& start == d.start < d.end <= old(self).text().len()
                    &&& d.end == final(self).position()
                },
            },
            match lexed_at(old(self).text(), start as int) {
                Lexed::Token { start, end, kind } => r is Ok && lexed_as(r->Ok_0)
                    == (Lexed::Token { start, end, kind }),
                Lexed::Failure { start, end } => r is Err && r->Err_0.start == start
                    && r->Err_0.end == end && r->Err_0.message@ == failure_text(
                    old(self).text(),
                    start,
                ),
            },
    {
        let ghost text = self.chars@;
        match self.read_punctuation(c) {
            Some(kind) => {
                let end = self.position;
                proof {
                    assert(keyword(text.subrange(start as int, end as int)) is None) by {
                        Lexer::lemma_keywords_are_words(text.subrange(start as int, end as int));
                    }
                }
                Ok(Token { kind, start, end, value: TokenValue::Absent })
            },
            None => {
                if c == '.' {
                    self.read_fraction();
                    return Err(
                        self.fail("Only whole numbers are supported", start, self.position),
                    );
                }
                Err(self.fail("Unexpected token", start, self.position))
            },
        }
    }

    /// No keyword stands for a kind that a token has for other reasons.
    proof fn lemma_keyword_kinds(text: Seq<char>)
        ensures
            match keyword(text) {
                Some(kind) => kind != TokenKind::Identifier && kind != TokenKind::Number && kind
                    != TokenKind::Str && kind != TokenKind::Eof && kind != TokenKind::Comment
                    && kind != TokenKind::DocComment && kind != TokenKind::Unexpected && kind
                    != TokenKind::Skip && kind != TokenKind::Start,
                None => true,
            },
    {
    }

    /// Every keyword starts with a letter.
    proof fn lemma_keywords_are_words(text: Seq<char>)
        ensures
            keyword(text) is Some ==> text.len() > 0 && is_word_start(text[0]),
    {
        reveal_strlit("true");
        reveal_strlit("false");
        reveal_strlit("None");
        reveal_strlit("if");
        reveal_strlit("else");
        reveal_strlit("while");
        reveal_strlit("loop");
        reveal_strlit("for");
        reveal_strlit("let");
        reveal_strlit("fn");
        reveal_strlit("scope");
        reveal_strlit("context");
        reveal_strlit("return");
        reveal_strlit("yield");
        reveal_strlit("break");
        reveal_strlit("continue");
        reveal_strlit("throw");
        reveal_strlit("in");
        reveal_strlit("of");
        reveal_strlit("delete");
        reveal_strlit("mut");
        reveal_strlit("block");
        reveal_strlit("import");
        reveal_strlit("as");
        reveal_strlit("async");
        reveal_strlit("await");
        reveal_strlit("band");
        reveal_strlit("bxor");
        reveal_strlit("bor");
        reveal_strlit("bnot");
        reveal_strlit("bshl");
        reveal_strlit("bshr");
        reveal_strlit("xor");
        reveal_strlit("and");
        reveal_strlit("or");
        reveal_strlit("not");
    }

    /// Whether a fraction or an exponent follows: a dot or an `e` with a digit behind it.
    fn fraction_follows(&self) -> (b: bool)
        requires
            self.wf(),
        ensures
            b == fraction_at(self.text(), self.position() as int),
    {
        match (self.peek(), self.peek_two()) {
            (Some(c), Some(d)) => (c == '.' || c == 'e' || c == 'E') && Lexer::digit(d),
            _ => false,
        }
    }

    /// Reads on past digits, and past each dot or `e` that has a digit behind it.
    fn read_fraction(&mut self)
        requires
            old(self).wf(),
        ensures
            old(self).reads_on(final(self)),
            final(self).position() == fraction_end(old(self).text(), old(self).position() as int),
    {
        while self.position < self.chars.len()
            invariant
                old(self).reads_on(self),
                self.chars@ == old(self).chars@,
                fraction_end(self.chars@, old(self).position() as int) == fraction_end(
                    self.chars@,
                    self.position() as int,
                ),
            decreases self.chars@.len() - self.position,
        {
            let c = self.chars[self.position];
            if Lexer::digit(c) {
                self.position = self.position + 1;
            } else if self.fraction_follows() {
                self.position = self.position + 2;
            } else {
                return ;
            }
        }
    }

    /// Reads all the tokens that are left, up to the end of the source, with their places in
    /// characters.
    pub(crate) fn scan_all(&mut self) -> (r: Result<Vec<Token>, Diagnostic>)
        requires
            old(self).wf(),
        ensures
            old(self).reads_on(final(self)),
            match r {
                Ok(tokens) => {
                    &&& final(self).position() == old(self).text().len()
                    &&& forall|i: int|
                        0 <= i < tokens@.len() ==> token_matches(
                            old(self).text(),
                            #[trigger] tokens@[i],
                        ) && tokens@[i].kind != TokenKind::Eof
                    &&& forall|i: int, j: int|
                        0 <= i < j < tokens@.len() ==> (#[trigger] tokens@[i]).end
                            <= (#[trigger] tokens@[j]).start
                    &&& forall|i: int|
                        0 <= i < tokens@.len() ==> old(self).position()
                            <= (#[trigger] tokens@[i]).start
                },
                Err(d) => {
                    &&& d.path@ == old(self).path()
                    &&& d.source@ == old(self).text()
                    &&& old(self).position() <= d.start < d.end <= old(self).text().len()
                },
            },
            match all_lexed(
                old(self).text(),
                old(self).position() as int,
                old(self).keeps_comments(),
            ) {
                Some(all) => r is Ok && all_lexed_as(r->Ok_0@) == all,
                None => r is Err,
            },
    {
        let mut tokens: Vec<Token> = Vec::new();
        proof {
            assert(all_lexed_as(tokens@) =~= Seq::<Lexed>::empty());
            match all_lexed(self.chars@, self.position() as int, self.keep_comments) {
                Some(rest) => {
                    assert(all_lexed_as(tokens@) + rest =~= rest);
                },
                None => {},
            }
        }
        loop
            invariant
                old(self).reads_on(self),
                self.chars@ == old(self).chars@,
                all_lexed(self.chars@, old(self).position() as int, self.keep_comments) == (
                match all_lexed(self.chars@, self.position() as int, self.keep_comments) {
                    Some(rest) => Some(all_lexed_as(tokens@) + rest),
                    None => None,
                }),
                forall|i: int|
                    0 <= i < tokens@.len() ==> token_matches(self.chars@, #[trigger] tokens@[i])
                        && tokens@[i].kind != TokenKind::Eof,
                forall|i: int, j: int|
                    0 <= i < j < tokens@.len() ==> (#[trigger] tokens@[i]).end
                        <= (#[trigger] tokens@[j]).start,
                forall|i: int|
                    0 <= i < tokens@.len() ==> old(self).position() <= (#[trigger] tokens@[i]).start
                        && tokens@[i].end <= self.position(),
            decreases self.chars@.len() - self.position,
        {
            let ghost entry = *self;
            let ghost so_far = all_lexed_as(tokens@);
            let token = self.scan_token()?;
            proof {
                assert(entry.reads_on(self));
            }
            if token.kind == TokenKind::Eof {
                proof {
                    assert(so_far + Seq::<Lexed>::empty() =~= so_far);
                }
                return Ok(tokens);
            }
            let ghost this = lexed_as(token);
            tokens.push(token);
            proof {
                assert(all_lexed_as(tokens@) =~= so_far.push(this));
                match all_lexed(self.chars@, self.position() as int, self.keep_comments) {
                    Some(rest) => {
                        assert(so_far + (seq![this] + rest) =~= all_lexed_as(tokens@) + rest);
                    },
                    None => {},
                }
            }
        }
    }

    /// The token `seen`, whose place is in characters, with its place in bytes.
    fn token_in_bytes(&self, seen: Token) -> (token: Token)
        requires
            self.wf(),
            seen.start <= seen.end <= self.text().len(),
        ensures
            in_chars(self.text(), token) == seen,
            spans_bytes(self.text(), token.start, token.end, seen.start as int, seen.end as int),
    {
        proof {
            lemma_char_of_byte_of(self.chars@, seen.start as int);
            lemma_char_of_byte_of(self.chars@, seen.end as int);
            lemma_byte_of_grows(self.chars@, seen.start as int, seen.end as int);
        }
        Token {
            kind: seen.kind,
            start: self.starts[seen.start],
            end: self.starts[seen.end],
            value: seen.value,
        }
    }

    /// The diagnostic `seen`, whose place is in characters, with its place in bytes.
    pub(crate) fn diagnostic_in_bytes(&self, seen: Diagnostic) -> (d: Diagnostic)
        requires
            self.wf(),
            seen.start <= seen.end <= self.text().len(),
        ensures
            d.path == seen.path,
            d.source == seen.source,
            d.message == seen.message,
            spans_bytes(self.text(), d.start, d.end, seen.start as int, seen.end as int),
    {
        proof {
            lemma_char_of_byte_of(self.chars@, seen.start as int);
            lemma_char_of_byte_of(self.chars@, seen.end as int);
            lemma_byte_of_grows(self.chars@, seen.start as int, seen.end as int);
        }
        Diagnostic {
            path: seen.path,
            source: seen.source,
            message: seen.message,
            start: self.starts[seen.start],
            end: self.starts[seen.end],
        }
    }

    /// Reads the next token. Its place is given in bytes, as is that of the diagnostic
    /// where the characters make no token. At the end of the source the token is `Eof`,
    /// again and again.
    pub fn next_token(&mut self) -> (r: Result<Token, Diagnostic>)
        requires
            old(self).wf(),
        ensures
            old(self).reads_on(final(self)),
            match r {
                Ok(token) => {
                    let seen = in_chars(old(self).text(), token);
                    &&& token_matches(old(self).text(), seen)
                    &&& old(self).position() <= seen.start
                    &&& seen.end == final(self).position()
                    &&& token.end == final(self).byte_position()
                    &&& !old(self).keeps_comments() ==> token.kind != TokenKind::Comment
                        && token.kind != TokenKind::DocComment
                },
                Err(d) => {
                    &&& d.path@ == old(self).path()
                    &&& d.source@ == old(self).text()
                    &&& d.end == final(self).byte_position()
                },
            },
            match lexed(old(self).text(), old(self).position() as int, old(self).keeps_comments()) {
                Lexed::Token { start, end, kind } => r is Ok && lexed_as(
                    in_chars(old(self).text(), r->Ok_0),
                ) == (Lexed::Token { start, end, kind }) && spans_bytes(
                    old(self).text(),
                    r->Ok_0.start,
                    r->Ok_0.end,
                    start,
                    end,
                ),
                Lexed::Failure { start, end } => r is Err && spans_bytes(
                    old(self).text(),
                    r->Err_0.start,
                    r->Err_0.end,
                    start,
                    end,
                ) && r->Err_0.message@ == failure_text(old(self).text(), start),
            },
    {
        match self.scan_token() {
            Ok(seen) => Ok(self.token_in_bytes(seen)),
            Err(seen) => Err(self.diagnostic_in_bytes(seen)),
        }
    }

    /// Reads all the tokens that are left, up to the end of the source. Their places are
    /// given in bytes.
    pub fn tokenize(&mut self) -> (r: Result<Vec<Token>, Diagnostic>)
        requires
            old(self).wf(),
        ensures
            old(self).reads_on(final(self)),
            match r {
                Ok(tokens) => {
                    &&& final(self).position() == old(self).text().len()
                    &&& forall|i: int|
                        0 <= i < tokens@.len() ==> token_matches(
                            old(self).text(),
                            in_chars(old(self).text(), #[trigger] tokens@[i]),
                        ) && tokens@[i].kind != TokenKind::Eof
                    &&& forall|i: int|
                        0 <= i < tokens@.len() ==> spans_bytes(
                            old(self).text(),
                            (#[trigger] tokens@[i]).start,
                            tokens@[i].end,
                            char_of(old(self).text(), tokens@[i].start as int),
                            char_of(old(self).text(), tokens@[i].end as int),
                        ) && old(self).byte_position() <= tokens@[i].start
                    &&& forall|i: int, j: int|
                        0 <= i < j < tokens@.len() ==> (#[trigger] tokens@[i]).end
                            <= (#[trigger] tokens@[j]).start
                },
                Err(d) => {
                    &&& d.path@ == old(self).path()
                    &&& d.source@ == old(self).text()
                    &&& old(self).byte_position() <= d.start < d.end <= byte_of(
                        old(self).text(),
                        old(self).text().len() as int,
                    )
                },
            },
            match all_lexed(
                old(self).text(),
                old(self).position() as int,
                old(self).keeps_comments(),
            ) {
                Some(all) => r is Ok && all_lexed_as(all_in_chars(old(self).text(), r->Ok_0@))
                    == all,
                None => r is Err,
            },
    {
        let scanned = self.scan_all();
        match scanned {
            Ok(seen) => {
                let mut tokens: Vec<Token> = Vec::new();
                let mut i: usize = 0;
                while i < seen.len()
                    invariant
                        self.wf(),
                        i <= seen@.len(),
                        tokens@.len() == i,
                        forall|k: int|
                            0 <= k < seen@.len() ==> (#[trigger] seen@[k]).start <= seen@[k].end
                                <= self.text().len(),
                        forall|k: int|
                            0 <= k < i ==> in_chars(self.text(), #[trigger] tokens@[k]) == seen@[k]
                                && spans_bytes(
                                self.text(),
                                tokens@[k].start,
                                tokens@[k].end,
                                seen@[k].start as int,
                                seen@[k].end as int,
                            ),
                    decreases seen@.len() - i,
                {
                    let token = self.token_in_bytes(seen[i].duplicate());
                    tokens.push(token);
                    i = i + 1;
                }
                proof {
                    let text = self.text();
                    assert(all_in_chars(text, tokens@) =~= seen@);
                    assert forall|a: int, b: int| 0 <= a < b < tokens@.len() implies (
                    #[trigger] tokens@[a]).end <= (#[trigger] tokens@[b]).start by {
                        lemma_byte_of_grows(text, seen@[a].end as int, seen@[b].start as int);
                    }
                    assert forall|k: int| 0 <= k < tokens@.len() implies old(self).byte_position()
                        <= (#[trigger] tokens@[k]).start by {
                        lemma_byte_of_grows(
                            text,
                            old(self).position() as int,
                            seen@[k].start as int,
                        );
                    }
                }
                Ok(tokens)
            },
            Err(d) => {
                proof {
                    let text = self.text();
                    lemma_byte_of_grows(text, old(self).position() as int, d.start as int);
                    lemma_byte_of_grows(text, d.start as int, d.end as int);
                    lemma_byte_of_grows(text, d.end as int, text.len() as int);
                }
                Err(self.diagnostic_in_bytes(d))
            },
        }
    }
}

/// A longer run of characters stands for a number that is no smaller.
proof fn lemma_digits_value_grows(chars: Seq<char>, start: int, mid: int, end: int)
    requires
        0 <= start <= mid <= end <= chars.len(),
    ensures
        digits_value(chars.subrange(start, mid)) <= digits_value(chars.subrange(start, end)),
    decreases end - mid,
{
    if mid < end {
        lemma_digits_value_grows(chars, start, mid, end - 1);
        assert(chars.subrange(start, end).drop_last() == chars.subrange(start, end - 1));
    }
}

} // verus!
