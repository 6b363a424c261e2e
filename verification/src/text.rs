use vstd::prelude::*;
use vstd::string::StringSliceAdditionalSpecFns;
use vstd::utf8::{encode_scalar, encode_utf8};

verus! {

/// `String::push`: appends one character to the end of the string.
#[verifier::external_body]
pub(crate) fn push_char(s: &mut String, c: char)
    ensures
        final(s)@ == old(s)@.push(c),
{
    s.push(c)
}

/// The characters of `s`, in order.
pub fn chars_of(s: &str) -> (chars: Vec<char>)
    ensures
        chars@ == s@,
{
    let mut chars: Vec<char> = Vec::new();
    let mut it = s.chars();
    for c in iter: it
        invariant
            chars@ == iter.seq().take(iter.index as int),
    {
        chars.push(c);
    }
    chars
}

/// The text made of `chars[from..to]`.
pub fn text_of(chars: &Vec<char>, from: usize, to: usize) -> (text: String)
    requires
        from <= to <= chars.len(),
    ensures
        text@ == chars@.subrange(from as int, to as int),
{
    let mut text = String::new();
    let mut i: usize = from;
    while i < to
        invariant
            from <= i <= to <= chars.len(),
            text@ == chars@.subrange(from as int, i as int),
        decreases to - i,
    {
        push_char(&mut text, chars[i]);
        i += 1;
        assert(chars@.subrange(from as int, i as int) == chars@.subrange(
            from as int,
            i as int - 1,
        ).push(chars@[i as int - 1]));
    }
    text
}

/// Whether `chars[from..to]` spells `word`.
pub fn spells(chars: &Vec<char>, from: usize, to: usize, word: &str) -> (same: bool)
    requires
        from <= to <= chars.len(),
    ensures
        same == (chars@.subrange(from as int, to as int) == word@),
{
    let n = word.unicode_len();
    if n != to - from {
        return false;
    }
    let mut i: usize = 0;
    while i < n
        invariant
            from <= to <= chars.len(),
            n == to - from,
            n == word@.len(),
            i <= n,
            forall|j: int| 0 <= j < i ==> chars@[from + j] == word@[j],
        decreases n - i,
    {
        if chars[from + i] != word.get_char(i) {
            assert(chars@.subrange(from as int, to as int)[i as int] != word@[i as int]);
            return false;
        }
        i += 1;
    }
    assert(chars@.subrange(from as int, to as int) =~= word@);
    true
}

/// The decimal digit that stands for `d`.
pub open spec fn digit_char(d: int) -> char {
    ((48 + d) as u8) as char
}

/// The decimal digits of `n`, most significant first.
pub open spec fn digits(n: nat) -> Seq<char>
    decreases n,
{
    if n < 10 {
        seq![digit_char(n as int)]
    } else {
        digits(n / 10).push(digit_char((n % 10) as int))
    }
}

/// The decimal notation of `n`, with a leading `-` when it is negative.
pub open spec fn decimal(n: int) -> Seq<char> {
    if n < 0 {
        seq!['-'] + digits((-n) as nat)
    } else {
        digits(n as nat)
    }
}

/// Appends the decimal digits of `n` to `out`.
fn push_digits(out: &mut String, n: u64)
    ensures
        final(out)@ == old(out)@ + digits(n as nat),
    decreases n,
{
    if n >= 10 {
        push_digits(out, n / 10);
    }
    let d: u8 = (n % 10) as u8;
    push_char(out, (48u8 + d) as char);
    proof {
        if n >= 10 {
            assert(old(out)@ + digits(n as nat) =~= (old(out)@ + digits((n / 10) as nat)).push(
                digit_char((n % 10) as int),
            ));
        } else {
            assert(old(out)@ + digits(n as nat) =~= old(out)@.push(digit_char(n as int)));
        }
    }
}

/// The decimal notation of a number.
pub fn number_text(n: i64) -> (text: String)
    ensures
        text@ == decimal(n as int),
{
    let mut text = String::new();
    if n < 0 {
        push_char(&mut text, '-');
        let magnitude: u64 = ((-(n + 1)) as u64) + 1;
        push_digits(&mut text, magnitude);
    } else {
        push_digits(&mut text, n as u64);
    }
    assert(text@ =~= decimal(n as int));
    text
}

/// The decimal notation of an index or a length.
pub fn index_text(n: usize) -> (text: String)
    ensures
        text@ == digits(n as nat),
{
    let mut text = String::new();
    push_digits(&mut text, n as u64);
    assert(text@ =~= digits(n as nat));
    text
}

/// Whether two texts are the same.
pub fn same_text(a: &str, b: &str) -> (same: bool)
    ensures
        same == (a@ == b@),
{
    a.to_owned() == b.to_owned()
}

/// The number of bytes that `c` takes in UTF-8.
pub open spec fn utf8_width(c: char) -> nat {
    encode_scalar(c as u32).len()
}

/// The offset in bytes, in the UTF-8 form of `s`, of its character `n`: the number of bytes
/// that the first `n` characters take. Beyond the end it is the length of `s` in bytes.
pub open spec fn byte_of(s: Seq<char>, n: int) -> nat {
    if n <= 0 {
        0
    } else if n >= s.len() {
        encode_utf8(s).len()
    } else {
        encode_utf8(s.take(n)).len()
    }
}

/// The index of the character of `s` at the offset `b` in bytes: the first, from `i` on,
/// that does not start before `b`; the length of `s` where all of them do.
pub open spec fn index_from(s: Seq<char>, b: int, i: int) -> int
    decreases s.len() - i,
{
    if i < 0 || i >= s.len() || byte_of(s, i) >= b {
        i
    } else {
        index_from(s, b, i + 1)
    }
}

/// The index of the character of `s` at the offset `b` in bytes. An offset inside a
/// character counts as that of the next one, one beyond the text as its end.
pub open spec fn char_of(s: Seq<char>, b: int) -> int {
    index_from(s, b, 0)
}

/// The number of bytes that `c` takes in UTF-8.
pub fn width(c: char) -> (n: usize)
    ensures
        n == utf8_width(c),
        1 <= n <= 4,
{
    let code = c as u32;
    if code <= 0x7F {
        1
    } else if code <= 0x7FF {
        2
    } else if code <= 0xFFFF {
        3
    } else {
        4
    }
}

/// The encoding of a text with one more character is that of the text and then that of the
/// character.
pub proof fn lemma_encode_push(s: Seq<char>, c: char)
    ensures
        encode_utf8(s.push(c)) == encode_utf8(s) + encode_scalar(c as u32),
    decreases s.len(),
{
    if s.len() == 0 {
        assert(s.push(c).drop_first() =~= s);
        assert(encode_utf8(s.push(c)) =~= encode_utf8(s) + encode_scalar(c as u32));
    } else {
        lemma_encode_push(s.drop_first(), c);
        assert(s.push(c).drop_first() =~= s.drop_first().push(c));
        assert(s.push(c)[0] == s[0]);
        assert(encode_utf8(s.push(c)) =~= encode_utf8(s) + encode_scalar(c as u32));
    }
}

/// A character starts where the one before it ends.
pub proof fn lemma_byte_of_next(s: Seq<char>, n: int)
    requires
        0 <= n < s.len(),
    ensures
        byte_of(s, n + 1) == byte_of(s, n) + utf8_width(s[n]),
        1 <= utf8_width(s[n]) <= 4,
{
    lemma_encode_push(s.take(n), s[n]);
    assert(s.take(n + 1) =~= s.take(n).push(s[n]));
    assert(s.take(s.len() as int) =~= s);
    assert(encode_utf8(s.take(0)) =~= Seq::<u8>::empty());
}

/// Later characters start at later offsets.
pub proof fn lemma_byte_of_grows(s: Seq<char>, i: int, j: int)
    requires
        0 <= i <= j <= s.len(),
    ensures
        byte_of(s, i) <= byte_of(s, j),
        i < j ==> byte_of(s, i) < byte_of(s, j),
    decreases j - i,
{
    if i < j {
        lemma_byte_of_grows(s, i, j - 1);
        lemma_byte_of_next(s, j - 1);
    }
}

/// The character at the offset at which character `n` starts is character `n`.
pub proof fn lemma_char_of_byte_of(s: Seq<char>, n: int)
    requires
        0 <= n <= s.len(),
    ensures
        char_of(s, byte_of(s, n) as int) == n,
{
    lemma_index_from(s, n, 0);
}

proof fn lemma_index_from(s: Seq<char>, n: int, i: int)
    requires
        0 <= i <= n <= s.len(),
    ensures
        index_from(s, byte_of(s, n) as int, i) == n,
    decreases n - i,
{
    if i < n {
        lemma_byte_of_grows(s, i, n);
        lemma_index_from(s, n, i + 1);
    }
}

/// The offsets in bytes at which the characters of `chars` start, and behind them the
/// length of the text in bytes.
pub fn byte_starts(source: &str, chars: &Vec<char>) -> (starts: Vec<usize>)
    requires
        chars@ == source@,
    ensures
        starts@.len() == chars@.len() + 1,
        forall|i: int| 0 <= i <= chars@.len() ==> #[trigger] starts@[i] == byte_of(chars@, i),
{
    let total = source.as_bytes().len();
    let mut starts: Vec<usize> = Vec::new();
    let mut at: usize = 0;
    let mut i: usize = 0;
    proof {
        assert(source.spec_bytes() == encode_utf8(source@));
        assert(chars@.len() == 0 ==> encode_utf8(chars@).len() == 0);
        assert(total == byte_of(chars@, chars@.len() as int));
    }
    while i < chars.len()
        invariant
            i <= chars@.len(),
            at == byte_of(chars@, i as int),
            total == byte_of(chars@, chars@.len() as int),
            starts@.len() == i,
            forall|k: int| 0 <= k < i ==> #[trigger] starts@[k] == byte_of(chars@, k),
        decreases chars@.len() - i,
    {
        proof {
            lemma_byte_of_next(chars@, i as int);
            lemma_byte_of_grows(chars@, i + 1, chars@.len() as int);
        }
        starts.push(at);
        at = at + width(chars[i]);
        i = i + 1;
    }
    starts.push(at);
    starts
}

/// The index of the character at the offset `b` in bytes, given the offsets at which the
/// characters start.
pub fn char_index(chars: &Vec<char>, starts: &Vec<usize>, b: usize) -> (i: usize)
    requires
        starts@.len() == chars@.len() + 1,
        forall|i: int| 0 <= i <= chars@.len() ==> #[trigger] starts@[i] == byte_of(chars@, i),
    ensures
        i == char_of(chars@, b as int),
        i <= chars@.len(),
{
    let mut i: usize = 0;
    while i < chars.len() && starts[i] < b
        invariant
            i <= chars@.len(),
            starts@.len() == chars@.len() + 1,
            forall|i: int| 0 <= i <= chars@.len() ==> #[trigger] starts@[i] == byte_of(chars@, i),
            index_from(chars@, b as int, 0) == index_from(chars@, b as int, i as int),
        decreases chars@.len() - i,
    {
        i = i + 1;
    }
    i
}

} // verus!
