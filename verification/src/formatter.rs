use vstd::prelude::*;
use crate::lexer::{all_lexed, all_lexed_as, Lexed, Lexer};
use crate::report::Diagnostic;
use crate::text::{chars_of, push_char};
use crate::token::{Token, TokenKind};
use crate::utils::in_order;

verus! {

/// Lays a source text out anew, token by token.
pub struct Formatter<'a> {
    /// Source text.
    source: &'a str,
    lexer: Lexer<'a>,
    cur_indent: usize,
    string: String,
}

/// Four blanks for each level of `indent`.
pub open spec fn blanks(indent: nat) -> Seq<char>
    decreases indent,
{
    if indent == 0 {
        Seq::empty()
    } else {
        blanks((indent - 1) as nat) + "    "@
    }
}

/// The characters of a token, as they stand in the text.
pub open spec fn word_of(text: Seq<char>, token: Lexed) -> Seq<char> {
    match token {
        Lexed::Token { start, end, .. } => text.subrange(start, end),
        Lexed::Failure { .. } => Seq::empty(),
    }
}

/// The kind of a token.
pub open spec fn kind_of(token: Lexed) -> TokenKind {
    match token {
        Lexed::Token { kind, .. } => kind,
        Lexed::Failure { .. } => TokenKind::Unexpected,
    }
}

/// The text of the tokens from `from` on, laid out at the level `indent`. Outside a
/// statement, an opening bracket ends its line and raises the level, a closing one ends its
/// line and lowers it, a semicolon ends its line, a comment is copied, and any other token
/// starts a statement on an indented line; `let` has a blank behind it. Inside a statement,
/// which reaches to the next semicolon, the tokens are copied as they come.
pub open spec fn laid_out(
    text: Seq<char>,
    tokens: Seq<Lexed>,
    from: int,
    indent: nat,
    inside: bool,
) -> Seq<char>
    decreases tokens.len() - from, (if inside {
        0nat
    } else {
        1nat
    }),
{
    if from < 0 || from >= tokens.len() {
        Seq::empty()
    } else {
        let word = word_of(text, tokens[from]);
        let kind = kind_of(tokens[from]);
        if inside {
            if kind == TokenKind::Semicolon {
                word + "\n"@ + laid_out(text, tokens, from + 1, indent, false)
            } else {
                word + laid_out(text, tokens, from + 1, indent, true)
            }
        } else {
            match kind {
                TokenKind::LAngle | TokenKind::LSquare => word + "\n"@ + laid_out(
                    text,
                    tokens,
                    from + 1,
                    indent + 1,
                    false,
                ),
                TokenKind::RAngle | TokenKind::RSquare => word + "\n"@ + laid_out(
                    text,
                    tokens,
                    from + 1,
                    if indent > 0 {
                        (indent - 1) as nat
                    } else {
                        0
                    },
                    false,
                ),
                TokenKind::Semicolon => word + "\n"@ + laid_out(
                    text,
                    tokens,
                    from + 1,
                    indent,
                    false,
                ),
                TokenKind::Comment | TokenKind::DocComment => word + laid_out(
                    text,
                    tokens,
                    from + 1,
                    indent,
                    false,
                ),
                TokenKind::Let => blanks(indent) + word + " "@ + laid_out(
                    text,
                    tokens,
                    from + 1,
                    indent,
                    true,
                ),
                _ => blanks(indent) + laid_out(text, tokens, from, indent, true),
            }
        }
    }
}

impl<'a> Formatter<'a> {
    /// The text that the formatter lays out.
    pub closed spec fn text(&self) -> Seq<char> {
        self.source@
    }

    /// The index of the character from which the formatter reads.
    pub closed spec fn position(&self) -> nat {
        self.lexer.position()
    }

    pub closed spec fn wf(&self) -> bool {
        &&& self.lexer.wf()
        &&& self.lexer.text() == self.source@
        &&& self.lexer.keeps_comments()
    }

    /// A formatter for `source`, which reads it through `lexer`.
    pub fn new(source: &'a str, lexer: Lexer<'a>) -> (formatter: Formatter<'a>)
        requires
            lexer.wf(),
            lexer.text() == source@,
            lexer.keeps_comments(),
        ensures
            formatter.wf(),
            formatter.text() == source@,
            formatter.position() == lexer.position(),
    {
        Formatter { source, lexer, cur_indent: 0, string: String::new() }
    }

    /// A formatter for the whole of `source`.
    pub fn of(path: &'a str, source: &'a str) -> (formatter: Formatter<'a>)
        ensures
            formatter.wf(),
            formatter.text() == source@,
            formatter.position() == 0,
    {
        Formatter::new(source, Lexer::with_comments(path, source))
    }

    /// Lays out what the lexer has not read yet.
    pub fn format(&mut self) -> (r: Result<String, Diagnostic>)
        requires
            old(self).wf(),
        ensures
            final(self).wf(),
            final(self).text() == old(self).text(),
            match all_lexed(old(self).text(), old(self).position() as int, true) {
                Some(tokens) => r is Ok && r->Ok_0@ == laid_out(
                    old(self).text(),
                    tokens,
                    0,
                    0,
                    false,
                ),
                None => r is Err && r->Err_0.source@ == old(self).text(),
            },
    {
        let tokens = match self.lexer.scan_all() {
            Ok(tokens) => tokens,
            Err(d) => {
                return Err(self.lexer.diagnostic_in_bytes(d));
            },
        };
        let chars = chars_of(self.source);
        proof {
            assert(in_order(tokens@, chars@.len())) by {
                assert forall|i: int| 0 <= i < tokens@.len() implies (#[trigger] tokens@[i]).start
                    <= tokens@[i].end <= chars@.len() by {
                    assert(crate::lexer::token_matches(chars@, tokens@[i]));
                }
            }
        }
        self.cur_indent = 0;
        self.string = String::new();
        self.write_all(&chars, &tokens);
        Ok(self.string.clone())
    }

    /// Lays the tokens out, behind what is written already.
    fn write_all(&mut self, chars: &Vec<char>, tokens: &Vec<Token>)
        requires
            old(self).wf(),
            in_order(tokens@, chars@.len()),
            old(self).cur_indent == 0,
            old(self).string@.len() == 0,
        ensures
            final(self).wf(),
            final(self).text() == old(self).text(),
            final(self).string@ == laid_out(chars@, all_lexed_as(tokens@), 0, 0, false),
    {
        let mut i: usize = 0;
        let mut inside = false;
        let ghost whole = laid_out(chars@, all_lexed_as(tokens@), 0, 0, false);
        proof {
            assert(self.string@ + whole =~= whole);
        }
        while i < tokens.len()
            invariant
                i <= tokens@.len(),
                self.wf(),
                self.text() == old(self).text(),
                in_order(tokens@, chars@.len()),
                self.cur_indent <= i,
                whole == self.string@ + laid_out(
                    chars@,
                    all_lexed_as(tokens@),
                    i as int,
                    self.cur_indent as nat,
                    inside,
                ),
            decreases tokens@.len() - i, (if inside {
                0nat
            } else {
                1nat
            }),
        {
            let token = &tokens[i];
            let ghost before = self.string@;
            let ghost rest = laid_out(
                chars@,
                all_lexed_as(tokens@),
                i as int,
                self.cur_indent as nat,
                inside,
            );
            proof {
                assert(all_lexed_as(tokens@)[i as int] == crate::lexer::lexed_as(tokens@[i as int]));
            }
            if inside {
                self.write_cur_token(chars, token);
                if token.kind == TokenKind::Semicolon {
                    self.write("\n");
                    inside = false;
                }
                i = i + 1;
            } else {
                match token.kind {
                    TokenKind::LAngle | TokenKind::LSquare => {
                        self.write_cur_token(chars, token);
                        self.write("\n");
                        self.indent();
                        i = i + 1;
                    },
                    TokenKind::RAngle | TokenKind::RSquare => {
                        self.write_cur_token(chars, token);
                        self.write("\n");
                        self.dedent();
                        i = i + 1;
                    },
                    TokenKind::Semicolon => {
                        self.write_cur_token(chars, token);
                        self.write("\n");
                        i = i + 1;
                    },
                    TokenKind::Comment | TokenKind::DocComment => {
                        self.write_cur_token(chars, token);
                        i = i + 1;
                    },
                    TokenKind::Let => {
                        self.write_indent();
                        self.write_cur_token(chars, token);
                        self.space();
                        inside = true;
                        i = i + 1;
                    },
                    _ => {
                        self.write_indent();
                        inside = true;
                    },
                }
            }
            proof {
                let after = laid_out(
                    chars@,
                    all_lexed_as(tokens@),
                    i as int,
                    self.cur_indent as nat,
                    inside,
                );
                assert(before + rest =~= self.string@ + after);
            }
        }
        proof {
            assert(laid_out(
                chars@,
                all_lexed_as(tokens@),
                i as int,
                self.cur_indent as nat,
                inside,
            ).len() == 0);
            assert(self.string@ + Seq::<char>::empty() =~= self.string@);
        }
    }

    /// Raises the level of indentation.
    fn indent(&mut self)
        requires
            old(self).cur_indent < usize::MAX,
        ensures
            final(self).cur_indent == old(self).cur_indent + 1,
            final(self).string == old(self).string,
            final(self).lexer == old(self).lexer,
            final(self).source == old(self).source,
    {
        self.cur_indent = self.cur_indent + 1;
    }

    /// Lowers the level of indentation, unless it is at its lowest.
    fn dedent(&mut self)
        ensures
            final(self).cur_indent == (if old(self).cur_indent > 0 {
                old(self).cur_indent - 1
            } else {
                0
            }),
            final(self).string == old(self).string,
            final(self).lexer == old(self).lexer,
            final(self).source == old(self).source,
    {
        if self.cur_indent != 0 {
            self.cur_indent = self.cur_indent - 1;
        }
    }

    /// Writes `end`.
    fn write(&mut self, end: &str)
        ensures
            final(self).string@ == old(self).string@ + end@,
            final(self).cur_indent == old(self).cur_indent,
            final(self).lexer == old(self).lexer,
            final(self).source == old(self).source,
    {
        self.string.append(end);
    }

    /// Writes a blank.
    fn space(&mut self)
        ensures
            final(self).string@ == old(self).string@ + " "@,
            final(self).cur_indent == old(self).cur_indent,
            final(self).lexer == old(self).lexer,
            final(self).source == old(self).source,
    {
        self.string.append(" ");
    }

    /// Writes the token as it stands in the source.
    fn write_cur_token(&mut self, chars: &Vec<char>, token: &Token)
        requires
            token.start <= token.end <= chars@.len(),
        ensures
            final(self).string@ == old(self).string@ + chars@.subrange(
                token.start as int,
                token.end as int,
            ),
            final(self).cur_indent == old(self).cur_indent,
            final(self).lexer == old(self).lexer,
            final(self).source == old(self).source,
    {
        let mut i: usize = token.start;
        assert(self.string@ =~= old(self).string@ + chars@.subrange(
            token.start as int,
            token.start as int,
        ));
        while i < token.end
            invariant
                token.start <= i <= token.end <= chars@.len(),
                self.string@ == old(self).string@ + chars@.subrange(token.start as int, i as int),
                self.cur_indent == old(self).cur_indent,
                self.lexer == old(self).lexer,
                self.source == old(self).source,
            decreases token.end - i,
        {
            push_char(&mut self.string, chars[i]);
            i = i + 1;
            assert(self.string@ =~= old(self).string@ + chars@.subrange(
                token.start as int,
                i as int,
            ));
        }
    }

    /// Writes the blanks that stand in front of a line at the current level.
    fn write_indent(&mut self)
        ensures
            final(self).string@ == old(self).string@ + blanks(old(self).cur_indent as nat),
            final(self).cur_indent == old(self).cur_indent,
            final(self).lexer == old(self).lexer,
            final(self).source == old(self).source,
    {
        let mut n: usize = 0;
        assert(self.string@ =~= old(self).string@ + blanks(0));
        while n < self.cur_indent
            invariant
                n <= self.cur_indent,
                self.string@ == old(self).string@ + blanks(n as nat),
                self.cur_indent == old(self).cur_indent,
                self.lexer == old(self).lexer,
                self.source == old(self).source,
            decreases self.cur_indent - n,
        {
            self.string.append("    ");
            n = n + 1;
            assert(self.string@ =~= old(self).string@ + blanks(n as nat));
        }
    }
}

} // verus!
