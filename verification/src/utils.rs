use vstd::prelude::*;
use crate::lexer::{all_in_chars, in_chars};
use crate::text::{byte_of, byte_starts, char_index, char_of, chars_of, text_of};
use crate::token::{Token, TokenKind};

verus! {

/// The colour class of a piece of source text.
#[derive(Clone, Copy, Debug, PartialEq, Eq, Structural)]
pub enum Paint {
    Plain,
    Name,
    Operator,
    Number,
    Bracket,
    Keyword,
    Text,
    Comment,
}

/// A piece of source text with its colour class.
#[derive(Debug)]
pub struct Painted {
    pub text: String,
    pub paint: Paint,
}

/// The colour class of a token of kind `kind`.
pub open spec fn paint_of(kind: TokenKind) -> Paint {
    match kind {
        TokenKind::Identifier => Paint::Name,
        TokenKind::Plus | TokenKind::Minus | TokenKind::Star | TokenKind::Slash | TokenKind::Caret
        | TokenKind::Assign | TokenKind::Equal | TokenKind::Range | TokenKind::FormulaAssign
        | TokenKind::AmpersandAmpersand | TokenKind::PipePipe | TokenKind::Xor
        | TokenKind::ExclamationMark | TokenKind::Ampersand | TokenKind::Pipe | TokenKind::Tilde
        | TokenKind::BitXor | TokenKind::BitLeftShift | TokenKind::BitRightShift => Paint::Operator,
        TokenKind::Number => Paint::Number,
        TokenKind::LParen | TokenKind::RParen | TokenKind::LAngle | TokenKind::RAngle => Paint::Bracket,
        TokenKind::If | TokenKind::Else | TokenKind::While | TokenKind::For | TokenKind::Loop
        | TokenKind::Let | TokenKind::Return | TokenKind::Break | TokenKind::Continue
        | TokenKind::Function | TokenKind::True | TokenKind::False | TokenKind::In => Paint::Keyword,
        TokenKind::Str => Paint::Text,
        TokenKind::DocComment | TokenKind::Comment => Paint::Comment,
        _ => Paint::Plain,
    }
}

/// The colour class of a token of kind `kind`.
pub fn paint(kind: TokenKind) -> (p: Paint)
    ensures
        p == paint_of(kind),
{
    match kind {
        TokenKind::Identifier => Paint::Name,
        TokenKind::Plus | TokenKind::Minus | TokenKind::Star | TokenKind::Slash | TokenKind::Caret
        | TokenKind::Assign | TokenKind::Equal | TokenKind::Range | TokenKind::FormulaAssign
        | TokenKind::AmpersandAmpersand | TokenKind::PipePipe | TokenKind::Xor
        | TokenKind::ExclamationMark | TokenKind::Ampersand | TokenKind::Pipe | TokenKind::Tilde
        | TokenKind::BitXor | TokenKind::BitLeftShift | TokenKind::BitRightShift => Paint::Operator,
        TokenKind::Number => Paint::Number,
        TokenKind::LParen | TokenKind::RParen | TokenKind::LAngle | TokenKind::RAngle => Paint::Bracket,
        TokenKind::If | TokenKind::Else | TokenKind::While | TokenKind::For | TokenKind::Loop
        | TokenKind::Let | TokenKind::Return | TokenKind::Break | TokenKind::Continue
        | TokenKind::Function | TokenKind::True | TokenKind::False | TokenKind::In => Paint::Keyword,
        TokenKind::Str => Paint::Text,
        TokenKind::DocComment | TokenKind::Comment => Paint::Comment,
        _ => Paint::Plain,
    }
}

/// The texts of `pieces`, one after the other.
pub open spec fn painted_text(pieces: Seq<Painted>) -> Seq<char>
    decreases pieces.len(),
{
    if pieces.len() == 0 {
        Seq::empty()
    } else {
        painted_text(pieces.drop_last()) + pieces.last().text@
    }
}

/// Whether the tokens follow one another within a text of `len` characters.
pub open spec fn in_order(tokens: Seq<Token>, len: nat) -> bool {
    &&& forall|i: int|
        0 <= i < tokens.len() ==> (#[trigger] tokens[i]).start <= tokens[i].end <= len
    &&& forall|i: int, j: int|
        0 <= i < j < tokens.len() ==> (#[trigger] tokens[i]).end <= (#[trigger] tokens[j]).start
}

/// Cuts `text` into pieces for printing in colour: each token in the colour class of its
/// kind, and the text between the tokens, and behind the last, plain. With `show_tokens` each
/// token stands between angle brackets. A token that lies outside the text, or before the
/// tokens in front of it, is cut to what is left of it. The places of the tokens are given
/// in bytes, as the lexer hands them out.
pub fn output_tokens_colored(text: &str, tokens: &Vec<Token>, show_tokens: bool) -> (pieces: Vec<
    Painted,
>)
    ensures
        pieces@.len() == 2 * tokens@.len() + 1,
        forall|i: int|
            0 <= i < tokens@.len() ==> (#[trigger] pieces@[2 * i]).paint == Paint::Plain
                && pieces@[2 * i + 1].paint == paint_of(tokens@[i].kind),
        pieces@.last().paint == Paint::Plain,
        !show_tokens ==> painted_text(pieces@) == text@,
        in_order(all_in_chars(text@, tokens@), text@.len()) ==> forall|i: int|
            0 <= i < tokens@.len() ==> (#[trigger] pieces@[2 * i + 1]).text@ == (if show_tokens {
                "<"@ + text@.subrange(
                    char_of(text@, tokens@[i].start as int),
                    char_of(text@, tokens@[i].end as int),
                ) + ">"@
            } else {
                text@.subrange(
                    char_of(text@, tokens@[i].start as int),
                    char_of(text@, tokens@[i].end as int),
                )
            }),
{
    let chars = chars_of(text);
    let starts = byte_starts(text, &chars);
    let mut marks: Vec<Token> = Vec::new();
    let mut i: usize = 0;
    while i < tokens.len()
        invariant
            i <= tokens@.len(),
            chars@ == text@,
            starts@.len() == chars@.len() + 1,
            forall|k: int| 0 <= k <= chars@.len() ==> #[trigger] starts@[k] == byte_of(chars@, k),
            marks@.len() == i,
            forall|k: int|
                0 <= k < i ==> #[trigger] marks@[k] == in_chars(text@, tokens@[k]) && marks@[k].start
                    == char_of(text@, tokens@[k].start as int) && marks@[k].end == char_of(
                    text@,
                    tokens@[k].end as int,
                ),
        decreases tokens@.len() - i,
    {
        let token = &tokens[i];
        marks.push(
            Token {
                kind: token.kind,
                start: char_index(&chars, &starts, token.start),
                end: char_index(&chars, &starts, token.end),
                value: token.value.duplicate(),
            },
        );
        i = i + 1;
    }
    proof {
        assert(marks@ =~= all_in_chars(text@, tokens@));
    }
    let pieces = cut_in_colours(text, &marks, show_tokens);
    proof {
        assert forall|k: int| 0 <= k < tokens@.len() implies (#[trigger] pieces@[2 * k]).paint
            == Paint::Plain && pieces@[2 * k + 1].paint == paint_of(tokens@[k].kind) by {
            assert(marks@[k].kind == tokens@[k].kind);
        }
        if in_order(all_in_chars(text@, tokens@), text@.len()) {
            assert forall|k: int| 0 <= k < tokens@.len() implies (#[trigger] pieces@[2 * k
                + 1]).text@ == (if show_tokens {
                "<"@ + text@.subrange(
                    char_of(text@, tokens@[k].start as int),
                    char_of(text@, tokens@[k].end as int),
                ) + ">"@
            } else {
                text@.subrange(
                    char_of(text@, tokens@[k].start as int),
                    char_of(text@, tokens@[k].end as int),
                )
            }) by {
                assert(marks@[k].start == char_of(text@, tokens@[k].start as int));
                assert(marks@[k].end == char_of(text@, tokens@[k].end as int));
            }
        }
    }
    pieces
}

/// Cuts `text` into pieces as `output_tokens_colored` does, for tokens whose places are given
/// in characters.
fn cut_in_colours(text: &str, tokens: &Vec<Token>, show_tokens: bool) -> (pieces: Vec<Painted>)
    ensures
        pieces@.len() == 2 * tokens@.len() + 1,
        forall|i: int|
            0 <= i < tokens@.len() ==> (#[trigger] pieces@[2 * i]).paint == Paint::Plain
                && pieces@[2 * i + 1].paint == paint_of(tokens@[i].kind),
        pieces@.last().paint == Paint::Plain,
        !show_tokens ==> painted_text(pieces@) == text@,
        in_order(tokens@, text@.len()) ==> forall|i: int|
            0 <= i < tokens@.len() ==> (#[trigger] pieces@[2 * i + 1]).text@ == (if show_tokens {
                "<"@ + text@.subrange(tokens@[i].start as int, tokens@[i].end as int) + ">"@
            } else {
                text@.subrange(tokens@[i].start as int, tokens@[i].end as int)
            }),
{
    let chars = chars_of(text);
    let len = chars.len();
    let mut pieces: Vec<Painted> = Vec::new();
    let mut last_end: usize = 0;
    let mut i: usize = 0;
    while i < tokens.len()
        invariant
            i <= tokens@.len(),
            chars@ == text@,
            len == chars@.len(),
            last_end <= len,
            i == 0 ==> last_end == 0,
            pieces@.len() == 2 * i,
            forall|j: int|
                0 <= j < i ==> (#[trigger] pieces@[2 * j]).paint == Paint::Plain && pieces@[2 * j
                    + 1].paint == paint_of(tokens@[j].kind),
            !show_tokens ==> painted_text(pieces@) == chars@.take(last_end as int),
            in_order(tokens@, len as nat) ==> (i > 0 ==> last_end == tokens@[i - 1].end)
                && forall|j: int|
                0 <= j < i ==> (#[trigger] pieces@[2 * j + 1]).text@ == (if show_tokens {
                    "<"@ + chars@.subrange(tokens@[j].start as int, tokens@[j].end as int) + ">"@
                } else {
                    chars@.subrange(tokens@[j].start as int, tokens@[j].end as int)
                }),
        decreases tokens@.len() - i,
    {
        let token = &tokens[i];
        let from = if token.start < last_end {
            last_end
        } else if token.start > len {
            len
        } else {
            token.start
        };
        let to = if token.end < from {
            from
        } else if token.end > len {
            len
        } else {
            token.end
        };
        let ghost before = pieces@;
        pieces.push(Painted { text: text_of(&chars, last_end, from), paint: Paint::Plain });
        let ghost gap = pieces@;
        let word = text_of(&chars, from, to);
        let shown = if show_tokens {
            let mut s = "<".to_owned();
            s.append(word.as_str());
            s.append(">");
            s
        } else {
            word
        };
        pieces.push(Painted { text: shown, paint: paint(token.kind) });
        proof {
            assert(pieces@.drop_last() == gap);
            assert(gap.drop_last() == before);
            if !show_tokens {
                assert(painted_text(gap) == painted_text(before) + gap.last().text@);
                assert(painted_text(pieces@) == painted_text(gap) + pieces@.last().text@);
                assert(painted_text(pieces@) =~= chars@.take(to as int));
            }
            assert forall|j: int| 0 <= j < i + 1 implies (#[trigger] pieces@[2 * j]).paint
                == Paint::Plain && pieces@[2 * j + 1].paint == paint_of(tokens@[j].kind) by {
                if j < i {
                    assert(pieces@[2 * j] == before[2 * j]);
                    assert(pieces@[2 * j + 1] == before[2 * j + 1]);
                }
            }
            if in_order(tokens@, len as nat) {
                if i > 0 {
                    assert(tokens@[i - 1].end <= tokens@[i as int].start);
                }
                assert(tokens@[i as int].start <= tokens@[i as int].end <= len);
                assert(from == token.start && to == token.end);
                assert forall|j: int| 0 <= j < i + 1 implies (#[trigger] pieces@[2 * j + 1]).text@
                    == (if show_tokens {
                    "<"@ + chars@.subrange(tokens@[j].start as int, tokens@[j].end as int) + ">"@
                } else {
                    chars@.subrange(tokens@[j].start as int, tokens@[j].end as int)
                }) by {
                    if j < i {
                        assert(pieces@[2 * j + 1] == before[2 * j + 1]);
                    }
                }
            }
        }
        last_end = to;
        i = i + 1;
    }
    let ghost before = pieces@;
    pieces.push(Painted { text: text_of(&chars, last_end, len), paint: Paint::Plain });
    proof {
        assert(pieces@.drop_last() == before);
        if !show_tokens {
            assert(painted_text(pieces@) == painted_text(before) + pieces@.last().text@);
            assert(painted_text(pieces@) =~= chars@);
        }
        assert forall|j: int| 0 <= j < tokens@.len() implies (#[trigger] pieces@[2 * j]).paint
            == Paint::Plain && pieces@[2 * j + 1].paint == paint_of(tokens@[j].kind) by {
            assert(pieces@[2 * j] == before[2 * j]);
            assert(pieces@[2 * j + 1] == before[2 * j + 1]);
        }
        if in_order(tokens@, len as nat) {
            assert forall|j: int| 0 <= j < tokens@.len() implies (#[trigger] pieces@[2 * j
                + 1]).text@ == (if show_tokens {
                "<"@ + chars@.subrange(tokens@[j].start as int, tokens@[j].end as int) + ">"@
            } else {
                chars@.subrange(tokens@[j].start as int, tokens@[j].end as int)
            }) by {
                assert(pieces@[2 * j + 1] == before[2 * j + 1]);
            }
        }
    }
    pieces
}

} // verus!
