use vstd::prelude::*;
use crate::text::{
    byte_of, byte_starts, char_index, char_of, chars_of, digits, index_text,
    lemma_byte_of_grows, push_char, text_of,
};

verus! {

/// A fatal error, with the place in the source that it speaks of.
#[derive(Debug)]
pub struct Diagnostic {
    /// Path of the source file.
    pub path: String,
    /// The text of the source file.
    pub source: String,
    pub message: String,
    /// Offset in bytes of the first character that the message is about.
    pub start: usize,
    /// Offset in bytes behind the last such character.
    pub end: usize,
}

/// A diagnostic laid out for a reader: where it is, the lines it speaks of, and the message
/// under a row of carets.
#[derive(Debug)]
pub struct Report {
    /// Line of the first character, counted from 1.
    pub line_start: usize,
    pub column_start: usize,
    /// Line of the last character, counted from 1.
    pub line_end: usize,
    pub column_end: usize,
    /// The path with the place behind it.
    pub header: String,
    /// The lines before the last one, each behind its number.
    pub context: Vec<String>,
    /// The number of the last line, as it stands in front of it.
    pub gutter: String,
    /// The last line, without the blanks at its end.
    pub near: String,
    /// The number of blanks in front of the carets: the width of the gutter and the first
    /// column.
    pub margin: usize,
    /// Blanks up to the first column, then a caret for each column.
    pub pointer: String,
    /// The message, its further lines indented to stand under its first.
    pub message: String,
}

/// The number of lines of `s`: one for each character that stands first in the text or
/// right behind a line feed.
pub open spec fn lines_in(s: Seq<char>) -> nat
    decreases s.len(),
{
    if s.len() == 0 {
        0
    } else if s.len() == 1 || s[s.len() - 2] == '\n' {
        lines_in(s.drop_last()) + 1
    } else {
        lines_in(s.drop_last())
    }
}

/// The offset of the last line feed of `s`, or 0 where it has none.
pub open spec fn last_line_feed(s: Seq<char>) -> nat
    decreases s.len(),
{
    if s.len() == 0 {
        0
    } else if s.last() == '\n' {
        (s.len() - 1) as nat
    } else {
        last_line_feed(s.drop_last())
    }
}

/// The first line of a report: the path, and behind it the place in lines and columns and
/// in offsets.
pub open spec fn header_text(
    path: Seq<char>,
    line_start: nat,
    column_start: nat,
    line_end: nat,
    column_end: nat,
    start: nat,
    end: nat,
) -> Seq<char> {
    "--> "@ + path + ":"@ + digits(line_start) + ":"@ + digits(column_start) + "-"@ + digits(
        line_end,
    ) + ":"@ + digits(column_end) + " ("@ + digits(start) + " - "@ + digits(end) + ")"@
}

/// `error` with each line feed followed by `indent`.
pub open spec fn indented(error: Seq<char>, indent: Seq<char>) -> Seq<char>
    decreases error.len(),
{
    if error.len() == 0 {
        Seq::empty()
    } else if error.last() == '\n' {
        indented(error.drop_last(), indent) + indent
    } else {
        indented(error.drop_last(), indent).push(error.last())
    }
}

/// `n` kept within what the machine can count.
pub open spec fn capped(n: nat) -> nat {
    if n > usize::MAX {
        usize::MAX as nat
    } else {
        n
    }
}

/// The index of the character of `source` at the offset `at` in bytes. An offset beyond the
/// text counts as its end, one inside a character as that of the next.
pub open spec fn index_at(source: Seq<char>, at: usize) -> nat {
    char_of(source, at as int) as nat
}

/// The offset in bytes that a report prints for the offset `at`: that of the character at
/// `at`.
pub open spec fn offset_at(source: Seq<char>, at: usize) -> nat {
    byte_of(source, index_at(source, at) as int)
}

/// The line of the offset `at` in `source`: the number of lines up to it, and 1 at least.
pub open spec fn line_of(source: Seq<char>, at: nat) -> nat {
    let lines = lines_in(source.take(at as int));
    if lines >= 1 {
        lines
    } else {
        1
    }
}

/// The distance in bytes of the character `at` from the last line feed before it.
pub open spec fn distance_of(source: Seq<char>, at: nat) -> nat {
    (byte_of(source, at as int) - byte_of(
        source,
        last_line_feed(source.take(at as int)) as int,
    )) as nat
}

/// The place that a diagnostic about the characters `start..end` of `source` names: the line
/// and the column of its start and of its end, the columns counted in bytes. Where either is
/// on the first line, both columns are counted from 1 (in a text that leaves room to count
/// so).
pub open spec fn place(source: Seq<char>, start: nat, end: nat) -> (nat, nat, nat, nat) {
    let line_start = line_of(source, start);
    let line_end = line_of(source, end);
    let shift = if (line_start == 1 || line_end == 1) && byte_of(source, source.len() as int)
        < usize::MAX {
        1nat
    } else {
        0nat
    };
    let column_start = distance_of(source, start) + shift;
    let column_end = distance_of(source, end) + shift;
    (
        line_start,
        column_start,
        line_end,
        if column_end < column_start {
            column_start
        } else {
            column_end
        },
    )
}

fn count_lines(chars: &Vec<char>, at: usize) -> (n: usize)
    requires
        at <= chars@.len(),
    ensures
        n == lines_in(chars@.take(at as int)),
        n <= at,
{
    let mut n: usize = 0;
    let mut i: usize = 0;
    proof {
        assert(chars@.take(0).len() == 0);
    }
    while i < at
        invariant
            i <= at <= chars@.len(),
            n == lines_in(chars@.take(i as int)),
            n <= i,
        decreases at - i,
    {
        proof {
            let now = chars@.take(i as int + 1);
            assert(now.drop_last() == chars@.take(i as int));
            assert(now.last() == chars@[i as int]);
            if i >= 1 {
                assert(now[now.len() - 2] == chars@[i as int - 1]);
            }
        }
        if i == 0 || chars[i - 1] == '\n' {
            n = n + 1;
        }
        i = i + 1;
    }
    n
}

fn find_last_line_feed(chars: &Vec<char>, at: usize) -> (n: usize)
    requires
        at <= chars@.len(),
    ensures
        n == last_line_feed(chars@.take(at as int)),
        n <= at,
{
    let mut i: usize = at;
    while i > 0
        invariant
            i <= at <= chars@.len(),
            last_line_feed(chars@.take(at as int)) == last_line_feed(chars@.take(i as int)),
        decreases i,
    {
        proof {
            let now = chars@.take(i as int);
            assert(now.drop_last() == chars@.take(i as int - 1));
            assert(now.last() == chars@[i as int - 1]);
        }
        if chars[i - 1] == '\n' {
            return i - 1;
        }
        i = i - 1;
    }
    proof {
        assert(chars@.take(0).len() == 0);
    }
    0
}

/// `count` times the character `c`.
fn run_of(c: char, count: usize) -> (s: String)
    ensures
        s@ == Seq::new(count as nat, |i: int| c),
{
    let mut s = String::new();
    let mut n: usize = 0;
    while n < count
        invariant
            n <= count,
            s@ == Seq::new(n as nat, |i: int| c),
        decreases count - n,
    {
        push_char(&mut s, c);
        n = n + 1;
        assert(s@ =~= Seq::new(n as nat, |i: int| c));
    }
    s
}

/// The number of line feeds in `s`.
pub open spec fn feeds(s: Seq<char>) -> nat
    decreases s.len(),
{
    if s.len() == 0 {
        0
    } else if s.last() == '\n' {
        feeds(s.drop_last()) + 1
    } else {
        feeds(s.drop_last())
    }
}

/// A blank that may stand at the end of a line.
pub open spec fn is_trailing_blank(c: char) -> bool {
    c == ' ' || c == '\t' || c == '\r'
}

/// The offset `start` is where line `line` of `s`, counted from 1, starts: at the start of
/// the text or right behind a line feed, with `line - 1` line feeds before it; or at the end
/// of the text, where it has fewer lines.
pub open spec fn starts_line(s: Seq<char>, line: nat, start: int) -> bool {
    &&& 0 <= start <= s.len()
    &&& if feeds(s.take(start)) + 1 < line {
        start == s.len()
    } else {
        &&& feeds(s.take(start)) + 1 == line || (line == 0 && start == 0)
        &&& start == 0 || s[start - 1] == '\n'
    }
}

/// `start..end` is line `line` of `s` without its line feed and the blanks before that.
pub open spec fn spans_line(s: Seq<char>, line: nat, start: int, end: int) -> bool {
    &&& starts_line(s, line, start)
    &&& start <= end <= s.len()
    &&& forall|k: int| start <= k < end ==> #[trigger] s[k] != '\n'
    &&& end == start || !is_trailing_blank(s[end - 1])
    &&& exists|stop: int|
        end <= stop <= s.len() && #[trigger] given_stop(stop) && (stop == s.len() || s[stop]
            == '\n') && forall|k: int| end <= k < stop ==> is_trailing_blank(#[trigger] s[k])
}

/// Names the offset at which a line stops.
pub open spec fn given_stop(stop: int) -> bool {
    true
}

/// The offsets at which line `line`, counted from 1, starts and ends in `chars`, the line
/// feed and the blanks before it left out; an empty range at the end where there is no such
/// line.
fn line_span(chars: &Vec<char>, line: usize) -> (span: (usize, usize))
    ensures
        spans_line(chars@, line as nat, span.0 as int, span.1 as int),
{
    let mut start: usize = 0;
    let mut seen: usize = 1;
    proof {
        assert(chars@.take(0).len() == 0);
    }
    while start < chars.len() && seen < line
        invariant
            start <= chars@.len(),
            seen == feeds(chars@.take(start as int)) + 1,
            seen <= start + 1,
            seen <= line || start == 0,
            start > 0 ==> seen < line || chars@[start - 1] == '\n',
        decreases chars@.len() - start,
    {
        proof {
            assert(chars@.take(start + 1).drop_last() == chars@.take(start as int));
            assert(chars@.take(start + 1).last() == chars@[start as int]);
        }
        if chars[start] == '\n' {
            seen = seen + 1;
        }
        start = start + 1;
    }
    if seen < line {
        proof {
            assert(given_stop(chars@.len() as int));
        }
        return (chars.len(), chars.len());
    }
    let mut end: usize = start;
    while end < chars.len() && chars[end] != '\n'
        invariant
            start <= end <= chars@.len(),
            forall|k: int| start <= k < end ==> #[trigger] chars@[k] != '\n',
        decreases chars@.len() - end,
    {
        end = end + 1;
    }
    let ghost stop = end as int;
    while end > start && (chars[end - 1] == ' ' || chars[end - 1] == '\t' || chars[end - 1]
        == '\r')
        invariant
            start <= end <= stop <= chars@.len(),
            forall|k: int| end <= k < stop ==> is_trailing_blank(#[trigger] chars@[k]),
        decreases end,
    {
        end = end - 1;
    }
    proof {
        assert(given_stop(stop));
    }
    (start, end)
}

/// `text` is line `line` of `s`, counted from 1, without its line feed and the blanks
/// before that; it is empty where `s` has fewer lines.
pub open spec fn is_line_text(s: Seq<char>, line: nat, text: Seq<char>) -> bool {
    exists|from: int, to: int| #[trigger]
        spans_line(s, line, from, to) && text == s.subrange(from, to)
}

/// Line `line` of `chars`, counted from 1, without its line feed and the blanks before that.
fn line_text(chars: &Vec<char>, line: usize) -> (text: String)
    ensures
        is_line_text(chars@, line as nat, text@),
{
    let (from, to) = line_span(chars, line);
    text_of(chars, from, to)
}

/// `row` is line `line` of `s` behind its number.
pub open spec fn is_row(s: Seq<char>, line: nat, row: Seq<char>) -> bool {
    exists|text: Seq<char>| #[trigger]
        is_line_text(s, line, text) && row == digits(line) + " | "@ + text
}

/// The lines `first..last` of `chars`, each behind its number.
fn rows_of(chars: &Vec<char>, first: usize, last: usize) -> (rows: Vec<String>)
    ensures
        rows@.len() == (if first <= last {
            last - first
        } else {
            0
        }),
        forall|i: int|
            0 <= i < rows@.len() ==> is_row(chars@, (first + i) as nat, #[trigger] rows@[i]@),
{
    let mut rows: Vec<String> = Vec::new();
    let mut line: usize = first;
    while line < last
        invariant
            first <= line,
            line <= last || line == first,
            rows@.len() == line - first,
            forall|i: int|
                0 <= i < rows@.len() ==> is_row(chars@, (first + i) as nat, #[trigger] rows@[i]@),
        decreases last - line,
    {
        let mut row = index_text(line);
        row.append(" | ");
        let text = line_text(chars, line);
        row.append(text.as_str());
        proof {
            assert(is_line_text(chars@, line as nat, text@));
            assert(row@ =~= digits(line as nat) + " | "@ + text@);
        }
        rows.push(row);
        line = line + 1;
    }
    rows
}

impl Diagnostic {
    pub fn new(path: &str, source: &str, message: String, start: usize, end: usize) -> (d:
        Diagnostic)
        ensures
            d.path@ == path@,
            d.source@ == source@,
            d.message == message,
            d.start == start,
            d.end == end,
    {
        Diagnostic { path: path.to_owned(), source: source.to_owned(), message, start, end }
    }

    /// The diagnostic laid out for a reader.
    pub fn report(&self) -> (r: Report)
        ensures
            (r.line_start as nat, r.column_start as nat, r.line_end as nat, r.column_end as nat)
                == place(
                self.source@,
                index_at(self.source@, self.start),
                index_at(self.source@, self.end),
            ),
            r.gutter@ == digits(r.line_end as nat) + " |"@,
            r.margin == capped((r.column_start + r.gutter@.len()) as nat),
            r.pointer@ == Seq::new(r.margin as nat, |i: int| ' ') + Seq::new(
                (r.column_end - r.column_start) as nat,
                |i: int| '^',
            ),
            r.header@ == header_text(
                self.path@,
                r.line_start as nat,
                r.column_start as nat,
                r.line_end as nat,
                r.column_end as nat,
                offset_at(self.source@, self.start),
                offset_at(self.source@, self.end),
            ),
            r.message@ == indented(
                self.message@,
                "\n"@ + Seq::new((r.column_end - r.column_start) as nat, |i: int| ' ') + Seq::new(
                    r.margin as nat,
                    |i: int| ' ',
                ) + " "@,
            ),
            is_line_text(self.source@, r.line_end as nat, r.near@),
            r.context@.len() == (if r.line_start <= r.line_end {
                r.line_end - r.line_start
            } else {
                0
            }),
            forall|i: int|
                0 <= i < r.context@.len() ==> is_row(
                    self.source@,
                    (r.line_start + i) as nat,
                    #[trigger] r.context@[i]@,
                ),
    {
        report_error(
            self.path.as_str(),
            self.source.as_str(),
            self.message.as_str(),
            self.start,
            self.end,
        )
    }
}

/// Lays out, for a reader, the error `error` about the characters `start..end` of the text
/// `source` that was read from `path`. Offsets beyond the text count as its end.
pub fn report_error(path: &str, source: &str, error: &str, start: usize, end: usize) -> (r:
    Report)
    ensures
        (r.line_start as nat, r.column_start as nat, r.line_end as nat, r.column_end as nat)
            == place(source@, index_at(source@, start), index_at(source@, end)),
        r.gutter@ == digits(r.line_end as nat) + " |"@,
        r.margin == capped((r.column_start + r.gutter@.len()) as nat),
        r.pointer@ == Seq::new(r.margin as nat, |i: int| ' ') + Seq::new(
            (r.column_end - r.column_start) as nat,
            |i: int| '^',
        ),
        r.header@ == header_text(
            path@,
            r.line_start as nat,
            r.column_start as nat,
            r.line_end as nat,
            r.column_end as nat,
            offset_at(source@, start),
            offset_at(source@, end),
        ),
        r.message@ == indented(
            error@,
            "\n"@ + Seq::new((r.column_end - r.column_start) as nat, |i: int| ' ') + Seq::new(
                r.margin as nat,
                |i: int| ' ',
            ) + " "@,
        ),
        is_line_text(source@, r.line_end as nat, r.near@),
        r.context@.len() == (if r.line_start <= r.line_end {
            r.line_end - r.line_start
        } else {
            0
        }),
        forall|i: int|
            0 <= i < r.context@.len() ==> is_row(
                source@,
                (r.line_start + i) as nat,
                #[trigger] r.context@[i]@,
            ),
{
    let chars = chars_of(source);
    let starts = byte_starts(source, &chars);
    let len = chars.len();
    let start = char_index(&chars, &starts, start);
    let end = char_index(&chars, &starts, end);
    let counted_start = count_lines(&chars, start);
    let counted_end = count_lines(&chars, end);
    let line_start = if counted_start >= 1 {
        counted_start
    } else {
        1
    };
    let line_end = if counted_end >= 1 {
        counted_end
    } else {
        1
    };
    let feed_start = find_last_line_feed(&chars, start);
    let feed_end = find_last_line_feed(&chars, end);
    proof {
        lemma_byte_of_grows(chars@, feed_start as int, start as int);
        lemma_byte_of_grows(chars@, feed_end as int, end as int);
        lemma_byte_of_grows(chars@, start as int, len as int);
        lemma_byte_of_grows(chars@, end as int, len as int);
    }
    let mut column_start = starts[start] - starts[feed_start];
    let mut column_end = starts[end] - starts[feed_end];
    if (line_start == 1 || line_end == 1) && starts[len] < usize::MAX {
        column_end = column_end + 1;
        column_start = column_start + 1;
    }
    if column_end < column_start {
        column_end = column_start;
    }
    let mut gutter = index_text(line_end);
    gutter.append(" |");
    let gutter_len = gutter.as_str().unicode_len();
    let near = line_text(&chars, line_end);
    let margin = if column_start <= usize::MAX - gutter_len {
        column_start + gutter_len
    } else {
        usize::MAX
    };
    let mut pointer = run_of(' ', margin);
    pointer.append(run_of('^', column_end - column_start).as_str());
    // the further lines of the message stand under its first
    let mut indent = "\n".to_owned();
    indent.append(run_of(' ', column_end - column_start).as_str());
    indent.append(run_of(' ', margin).as_str());
    indent.append(" ");
    let letters = chars_of(error);
    let mut message = String::new();
    let mut i: usize = 0;
    proof {
        assert(letters@.take(0).len() == 0);
    }
    while i < letters.len()
        invariant
            i <= letters@.len(),
            message@ == indented(letters@.take(i as int), indent@),
        decreases letters@.len() - i,
    {
        if letters[i] == '\n' {
            message.append(indent.as_str());
        } else {
            push_char(&mut message, letters[i]);
        }
        i = i + 1;
        proof {
            assert(letters@.take(i as int).drop_last() == letters@.take(i as int - 1));
            assert(letters@.take(i as int).last() == letters@[i as int - 1]);
        }
    }
    proof {
        assert(letters@.take(letters@.len() as int) == letters@);
    }
    let mut header = "--> ".to_owned();
    header.append(path);
    header.append(":");
    header.append(index_text(line_start).as_str());
    header.append(":");
    header.append(index_text(column_start).as_str());
    header.append("-");
    header.append(index_text(line_end).as_str());
    header.append(":");
    header.append(index_text(column_end).as_str());
    header.append(" (");
    header.append(index_text(starts[start]).as_str());
    header.append(" - ");
    header.append(index_text(starts[end]).as_str());
    header.append(")");
    let context = rows_of(&chars, line_start, line_end);
    Report {
        line_start,
        column_start,
        line_end,
        column_end,
        header,
        context,
        gutter,
        near,
        margin,
        pointer,
        message,
    }
}

} // verus!
