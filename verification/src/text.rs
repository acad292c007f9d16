//! Character and byte utilities shared by the parser and the engine:
//! the whitespace character class, string comparison and scanning over
//! character views, splitting program text into lines, and parsing
//! unsigned 32-bit decimal literals from raw bytes.

use vstd::prelude::*;

verus! {

/// True for the characters with the Unicode `White_Space` property.
/// This is the class matched by `\s` in the grammar's patterns and the
/// class used to decide that a line is blank.
pub open spec fn is_white_space(c: char) -> bool {
    ||| c == ' '
    ||| c == '\t'
    ||| c == '\n'
    ||| c == '\u{b}'
    ||| c == '\u{c}'
    ||| c == '\r'
    ||| c == '\u{85}'
    ||| c == '\u{a0}'
    ||| c == '\u{1680}'
    ||| ('\u{2000}' <= c && c <= '\u{200a}')
    ||| c == '\u{2028}'
    ||| c == '\u{2029}'
    ||| c == '\u{202f}'
    ||| c == '\u{205f}'
    ||| c == '\u{3000}'
}

/// Decides [`is_white_space`] for one character.
pub fn white_space_char(c: char) -> (r: bool)
    ensures
        r == is_white_space(c),
{
    c == ' ' || c == '\t' || c == '\n' || c == '\u{b}' || c == '\u{c}' || c == '\r'
        || c == '\u{85}' || c == '\u{a0}' || c == '\u{1680}'
        || ('\u{2000}' <= c && c <= '\u{200a}') || c == '\u{2028}' || c == '\u{2029}'
        || c == '\u{202f}' || c == '\u{205f}' || c == '\u{3000}'
}

/// True when every character of the sequence is whitespace; the
/// condition under which a line is treated as blank.
pub open spec fn is_blank_line(s: Seq<char>) -> bool {
    forall|i: int| 0 <= i < s.len() ==> is_white_space(#[trigger] s[i])
}

/// Decides [`is_blank_line`] for a line of text.
pub fn line_is_blank(line: &str) -> (r: bool)
    ensures
        r == is_blank_line(line@),
{
    let n: usize = line.unicode_len();
    let mut i: usize = 0;
    while i < n
        invariant
            n == line@.len(),
            0 <= i <= n,
            forall|j: int| 0 <= j < i ==> is_white_space(#[trigger] line@[j]),
        decreases n - i,
    {
        if !white_space_char(line.get_char(i)) {
            return false;
        }
        i = i + 1;
    }
    true
}

/// Decides view equality of two string slices.
pub fn str_eq(a: &str, b: &str) -> (r: bool)
    ensures
        r == (a@ == b@),
{
    let alen: usize = a.unicode_len();
    let blen: usize = b.unicode_len();
    if alen != blen {
        return false;
    }
    let mut i: usize = 0;
    while i < alen
        invariant
            alen == a@.len(),
            alen == b@.len(),
            0 <= i <= alen,
            forall|j: int| 0 <= j < i ==> a@[j] == b@[j],
        decreases alen - i,
    {
        if a.get_char(i) != b.get_char(i) {
            return false;
        }
        i = i + 1;
    }
    proof {
        assert(a@ =~= b@);
    }
    true
}

/// True when `pat` occurs in `s` starting at position `at`.
pub open spec fn matches_at(s: Seq<char>, at: int, pat: Seq<char>) -> bool {
    &&& 0 <= at
    &&& at + pat.len() <= s.len()
    &&& s.subrange(at, at + pat.len()) == pat
}

/// Decides [`matches_at`] for a string and a pattern.
pub fn str_matches_at(s: &str, at: usize, pat: &str) -> (r: bool)
    ensures
        r == matches_at(s@, at as int, pat@),
{
    let slen: usize = s.unicode_len();
    let plen: usize = pat.unicode_len();
    if plen > slen || at > slen - plen {
        assert(!(at + pat@.len() <= s@.len()));
        return false;
    }
    let mut i: usize = 0;
    while i < plen
        invariant
            slen == s@.len(),
            plen == pat@.len(),
            at + plen <= slen,
            0 <= i <= plen,
            forall|j: int| 0 <= j < i ==> s@[at + j] == pat@[j],
        decreases plen - i,
    {
        if s.get_char(at + i) != pat.get_char(i) {
            assert(s@.subrange(at as int, at + pat@.len())[i as int] != pat@[i as int]);
            return false;
        }
        i = i + 1;
    }
    proof {
        assert(s@.subrange(at as int, at + pat@.len()) =~= pat@);
    }
    true
}

/// True when no character of `s` in `[from, to)` is whitespace.
pub open spec fn no_white_space_in(s: Seq<char>, from: int, to: int) -> bool {
    forall|i: int| from <= i < to ==> !is_white_space(#[trigger] s[i])
}

/// Decides [`no_white_space_in`] over a character range of a string.
pub fn range_free_of_white_space(s: &str, from: usize, to: usize) -> (r: bool)
    requires
        from <= to <= s@.len(),
    ensures
        r == no_white_space_in(s@, from as int, to as int),
{
    let mut i: usize = from;
    while i < to
        invariant
            from <= i <= to <= s@.len(),
            forall|j: int| from <= j < i ==> !is_white_space(#[trigger] s@[j]),
        decreases to - i,
    {
        if white_space_char(s.get_char(i)) {
            return false;
        }
        i = i + 1;
    }
    true
}

/// True when no character of `s` in `[from, to)` is a line feed.
pub open spec fn no_newline_in(s: Seq<char>, from: int, to: int) -> bool {
    forall|i: int| from <= i < to ==> #[trigger] s[i] != '\n'
}

/// Decides [`no_newline_in`] over a character range of a string.
pub fn range_free_of_newline(s: &str, from: usize, to: usize) -> (r: bool)
    requires
        from <= to <= s@.len(),
    ensures
        r == no_newline_in(s@, from as int, to as int),
{
    let mut i: usize = from;
    while i < to
        invariant
            from <= i <= to <= s@.len(),
            forall|j: int| from <= j < i ==> s@[j] != '\n',
        decreases to - i,
    {
        if s.get_char(i) == '\n' {
            return false;
        }
        i = i + 1;
    }
    true
}

/// Index of the first line feed in `s` at or after `from`, or `s.len()`
/// when there is none.
pub open spec fn find_newline(s: Seq<char>, from: int) -> int
    recommends
        0 <= from <= s.len(),
    decreases s.len() - from when 0 <= from <= s.len()
{
    if from >= s.len() {
        s.len() as int
    } else if s[from] == '\n' {
        from
    } else {
        find_newline(s, from + 1)
    }
}

/// [`find_newline`] only depends on the sequence from `from` on, so a
/// known newline-free prefix locates it.
proof fn lemma_find_newline_at(s: Seq<char>, from: int, at: int)
    requires
        0 <= from <= at <= s.len(),
        forall|i: int| from <= i < at ==> s[i] != '\n',
        at < s.len() ==> s[at] == '\n',
        at == s.len() || s[at] == '\n',
    ensures
        find_newline(s, from) == at,
    decreases at - from,
{
    if from < at {
        lemma_find_newline_at(s, from + 1, at);
    }
}

/// One line as delivered by line splitting: a carriage return at the
/// end of a segment that was terminated by a line feed is dropped.
pub open spec fn strip_carriage_return(line: Seq<char>) -> Seq<char> {
    if line.len() > 0 && line.last() == '\r' {
        line.drop_last()
    } else {
        line
    }
}

/// The lines of a program text. Segments are split at each line feed,
/// a carriage return immediately before a line feed belongs to the
/// terminator, and a final segment left empty by a trailing line feed
/// is not a line.
pub open spec fn split_lines(s: Seq<char>) -> Seq<Seq<char>>
    decreases s.len(),
{
    if s.len() == 0 {
        seq![]
    } else {
        let e = find_newline(s, 0);
        if 0 <= e < s.len() {
            seq![strip_carriage_return(s.subrange(0, e))] + split_lines(
                s.subrange(e + 1, s.len() as int),
            )
        } else {
            seq![s]
        }
    }
}

/// Splits a program text into its lines.
pub fn split_into_lines<'a>(s: &'a str) -> (lines: Vec<&'a str>)
    ensures
        lines.deep_view() == split_lines(s@),
{
    let n: usize = s.unicode_len();
    let mut lines: Vec<&'a str> = Vec::new();
    let mut start: usize = 0;
    let mut i: usize = 0;
    proof {
        assert(s@.subrange(0, n as int) =~= s@);
        assert(lines.deep_view() =~= Seq::<Seq<char>>::empty());
        assert(lines.deep_view() + split_lines(s@) =~= split_lines(s@));
    }
    while i < n
        invariant
            n == s@.len(),
            0 <= start <= i <= n,
            forall|j: int| start <= j < i ==> s@[j] != '\n',
            split_lines(s@) =~= lines.deep_view() + split_lines(s@.subrange(start as int, n as int)),
        decreases n - i,
    {
        if s.get_char(i) == '\n' {
            let end: usize = if i > start && s.get_char(i - 1) == '\r' {
                i - 1
            } else {
                i
            };
            let ghost rest = s@.subrange(start as int, n as int);
            proof {
                lemma_find_newline_at(rest, 0, i - start);
                assert(rest.subrange(0, i - start) =~= s@.subrange(start as int, i as int));
                assert(rest.subrange(i - start + 1, rest.len() as int) =~= s@.subrange(
                    i + 1,
                    n as int,
                ));
                assert(strip_carriage_return(s@.subrange(start as int, i as int)) =~= s@.subrange(
                    start as int,
                    end as int,
                ));
            }
            let piece: &'a str = s.substring_char(start, end);
            let ghost prev = lines.deep_view();
            lines.push(piece);
            proof {
                assert(lines.deep_view() =~= prev.push(piece@));
                assert(prev.push(piece@) + split_lines(s@.subrange(i + 1, n as int)) =~= prev + (
                seq![s@.subrange(start as int, end as int)] + split_lines(
                    s@.subrange(i + 1, n as int),
                )));
            }
            start = i + 1;
        }
        i = i + 1;
    }
    if start < n {
        let ghost rest = s@.subrange(start as int, n as int);
        proof {
            lemma_find_newline_at(rest, 0, rest.len() as int);
        }
        let piece: &'a str = s.substring_char(start, n);
        let ghost prev = lines.deep_view();
        lines.push(piece);
        proof {
            assert(lines.deep_view() =~= prev.push(piece@));
            assert(prev.push(rest) =~= prev + seq![rest]);
            assert(lines.deep_view() =~= split_lines(s@));
        }
    } else {
        proof {
            assert(s@.subrange(start as int, n as int).len() == 0);
            assert(lines.deep_view() + split_lines(s@.subrange(start as int, n as int))
                =~= lines.deep_view());
            assert(lines.deep_view() =~= split_lines(s@));
        }
    }
    lines
}

/// Index of the first line feed byte in `s` at or after `from`, or
/// `s.len()` when there is none.
pub open spec fn find_line_feed(s: Seq<u8>, from: int) -> int
    recommends
        0 <= from <= s.len(),
    decreases s.len() - from when 0 <= from <= s.len()
{
    if from >= s.len() {
        s.len() as int
    } else if s[from] == 0x0a {
        from
    } else {
        find_line_feed(s, from + 1)
    }
}

/// [`find_line_feed`] is determined by a line-feed-free prefix.
proof fn lemma_find_line_feed_at(s: Seq<u8>, from: int, at: int)
    requires
        0 <= from <= at <= s.len(),
        forall|i: int| from <= i < at ==> s[i] != 0x0a,
        at == s.len() || s[at] == 0x0a,
    ensures
        find_line_feed(s, from) == at,
    decreases at - from,
{
    if from < at {
        lemma_find_line_feed_at(s, from + 1, at);
    }
}

/// End of the input line starting at `from`: one past its line feed,
/// or the end of the input when no line feed follows. The line handed
/// to the reader is `s.subrange(from, line_end(s, from))`, terminator
/// included.
pub open spec fn line_end(s: Seq<u8>, from: int) -> int {
    if find_line_feed(s, from) < s.len() {
        find_line_feed(s, from) + 1
    } else {
        find_line_feed(s, from)
    }
}

/// The text of an input line: the line without its terminator, that
/// is, without one trailing line feed and a carriage return directly
/// before it. A carriage return not followed by a line feed stays.
pub open spec fn strip_line_terminator(line: Seq<u8>) -> Seq<u8> {
    if line.len() >= 1 && line.last() == 0x0a {
        if line.len() >= 2 && line[line.len() - 2] == 0x0d {
            line.drop_last().drop_last()
        } else {
            line.drop_last()
        }
    } else {
        line
    }
}

/// Finds [`line_end`] for the input line starting at `from`.
pub fn find_line_end(input: &[u8], from: usize) -> (end: usize)
    requires
        from <= input@.len(),
    ensures
        end as int == line_end(input@, from as int),
        from <= end <= input@.len(),
{
    let n: usize = input.len();
    let mut i: usize = from;
    while i < n
        invariant
            from <= i <= n,
            n == input@.len(),
            forall|j: int| from <= j < i ==> input@[j] != 0x0a,
        decreases n - i,
    {
        if input[i] == 0x0a {
            proof {
                lemma_find_line_feed_at(input@, from as int, i as int);
            }
            return i + 1;
        }
        i = i + 1;
    }
    proof {
        lemma_find_line_feed_at(input@, from as int, n as int);
    }
    n
}

/// Appends the UTF-8 encoding of one character to the output.
pub fn encode_char_utf8(c: char, out: &mut Vec<u8>)
    ensures
        final(out)@ == old(out)@ + vstd::utf8::encode_scalar(c as u32),
{
    let u: u32 = c as u32;
    proof {
        vstd::utf8::char_is_scalar(c);
    }
    if u <= 0x7f {
        assert((u & 0x7f) == u) by (bit_vector)
            requires
                u <= 0x7f,
        ;
        out.push((u & 0x7f) as u8);
        proof {
            assert(final(out)@ =~= old(out)@ + vstd::utf8::encode_scalar(u));
        }
    } else if u <= 0x7ff {
        assert(((u >> 6) & 0x1f) <= 0x1f && (u & 0x3f) <= 0x3f) by (bit_vector);
        let b0: u8 = 0xc0 | (((u >> 6) & 0x1f) as u8);
        let b1: u8 = 0x80 | ((u & 0x3f) as u8);
        out.push(b0);
        out.push(b1);
        proof {
            assert(final(out)@ =~= old(out)@ + vstd::utf8::encode_scalar(u));
        }
    } else if u <= 0xffff {
        assert(((u >> 12) & 0x0f) <= 0x0f && ((u >> 6) & 0x3f) <= 0x3f && (u & 0x3f) <= 0x3f)
            by (bit_vector);
        let b0: u8 = 0xe0 | (((u >> 12) & 0x0f) as u8);
        let b1: u8 = 0x80 | (((u >> 6) & 0x3f) as u8);
        let b2: u8 = 0x80 | ((u & 0x3f) as u8);
        out.push(b0);
        out.push(b1);
        out.push(b2);
        proof {
            assert(final(out)@ =~= old(out)@ + vstd::utf8::encode_scalar(u));
        }
    } else {
        assert(((u >> 18) & 0x07) <= 0x07 && ((u >> 12) & 0x3f) <= 0x3f && ((u >> 6) & 0x3f)
            <= 0x3f && (u & 0x3f) <= 0x3f) by (bit_vector);
        let b0: u8 = 0xf0 | (((u >> 18) & 0x07) as u8);
        let b1: u8 = 0x80 | (((u >> 12) & 0x3f) as u8);
        let b2: u8 = 0x80 | (((u >> 6) & 0x3f) as u8);
        let b3: u8 = 0x80 | ((u & 0x3f) as u8);
        out.push(b0);
        out.push(b1);
        out.push(b2);
        out.push(b3);
        proof {
            assert(final(out)@ =~= old(out)@ + vstd::utf8::encode_scalar(u));
        }
    }
}

/// True for the bytes `'0'` through `'9'`.
pub open spec fn is_dec_digit(b: u8) -> bool {
    0x30 <= b <= 0x39
}

/// Numeric value of a sequence of decimal digit bytes, most
/// significant digit first.
pub open spec fn dec_digits_value(s: Seq<u8>) -> int
    decreases s.len(),
{
    if s.len() == 0 {
        0
    } else {
        dec_digits_value(s.drop_last()) * 10 + (s.last() - 0x30)
    }
}

/// The digit bytes of an unsigned decimal literal: everything after an
/// optional leading `'+'`.
pub open spec fn dec_literal_digits(s: Seq<u8>) -> Seq<u8> {
    if s.len() >= 1 && s[0] == 0x2b {
        s.drop_first()
    } else {
        s
    }
}

/// True when the byte sequence is a decimal literal denoting a value
/// that fits in 32 unsigned bits: an optional `'+'`, then at least one
/// digit, with value at most `u32::MAX`. This is the set of inputs
/// accepted when parsing a pancake from textual input.
pub open spec fn is_u32_literal(s: Seq<u8>) -> bool {
    let digits = dec_literal_digits(s);
    &&& digits.len() >= 1
    &&& forall|i: int| 0 <= i < digits.len() ==> is_dec_digit(#[trigger] digits[i])
    &&& dec_digits_value(digits) <= u32::MAX
}

/// The value denoted by a decimal literal.
pub open spec fn u32_literal_value(s: Seq<u8>) -> int {
    dec_digits_value(dec_literal_digits(s))
}

proof fn lemma_dec_digits_value_bounds(s: Seq<u8>)
    requires
        forall|i: int| 0 <= i < s.len() ==> is_dec_digit(#[trigger] s[i]),
    ensures
        dec_digits_value(s) >= 0,
        s.len() > 0 ==> dec_digits_value(s) >= dec_digits_value(s.drop_last()),
    decreases s.len(),
{
    if s.len() > 0 {
        assert(forall|i: int|
            0 <= i < s.drop_last().len() ==> is_dec_digit(#[trigger] s.drop_last()[i]));
        lemma_dec_digits_value_bounds(s.drop_last());
    }
}

/// Parses a byte sequence as an unsigned 32-bit decimal literal.
/// Returns the value exactly when [`is_u32_literal`] holds.
pub fn parse_u32_decimal(bytes: &[u8]) -> (r: Option<u32>)
    ensures
        match r {
            Some(v) => is_u32_literal(bytes@) && v == u32_literal_value(bytes@),
            None => !is_u32_literal(bytes@),
        },
{
    let n: usize = bytes.len();
    let start: usize = if n >= 1 && bytes[0] == 0x2b {
        1
    } else {
        0
    };
    let ghost digits = dec_literal_digits(bytes@);
    proof {
        assert(digits =~= bytes@.subrange(start as int, n as int));
    }
    if start == n {
        return None;
    }
    let mut acc: u32 = 0;
    let mut i: usize = start;
    while i < n
        invariant
            n == bytes@.len(),
            start <= i <= n,
            digits == dec_literal_digits(bytes@),
            digits =~= bytes@.subrange(start as int, n as int),
            forall|j: int| start <= j < i ==> is_dec_digit(#[trigger] bytes@[j]),
            acc == dec_digits_value(bytes@.subrange(start as int, i as int)),
        decreases n - i,
    {
        let b: u8 = bytes[i];
        if !(0x30 <= b && b <= 0x39) {
            assert(!is_dec_digit(digits[i - start]));
            return None;
        }
        let d: u32 = (b - 0x30) as u32;
        proof {
            assert(bytes@.subrange(start as int, i + 1).drop_last() =~= bytes@.subrange(
                start as int,
                i as int,
            ));
        }
        if acc > (u32::MAX - d) / 10 {
            proof {
                assert(!is_u32_literal(bytes@)) by {
                    if is_u32_literal(bytes@) {
                        let grown = bytes@.subrange(start as int, i + 1);
                        assert(grown =~= digits.subrange(0, i + 1 - start));
                        assert(grown.drop_last() =~= bytes@.subrange(start as int, i as int));
                        assert(grown.last() == b);
                        assert(dec_digits_value(grown) == acc * 10 + d);
                        assert(acc * 10 + d > u32::MAX);
                        lemma_dec_value_prefix(digits, i + 1 - start);
                        assert(false);
                    }
                }
            }
            return None;
        }
        acc = acc * 10 + d;
        i = i + 1;
    }
    proof {
        assert(bytes@.subrange(start as int, n as int) =~= digits);
    }
    Some(acc)
}

/// The value of a digit sequence is at least the value of any prefix.
proof fn lemma_dec_value_prefix(s: Seq<u8>, k: int)
    requires
        0 <= k <= s.len(),
        forall|i: int| 0 <= i < s.len() ==> is_dec_digit(#[trigger] s[i]),
    ensures
        dec_digits_value(s) >= dec_digits_value(s.subrange(0, k)),
    decreases s.len() - k,
{
    if k < s.len() {
        lemma_dec_value_prefix(s, k + 1);
        let p = s.subrange(0, k + 1);
        assert(forall|i: int| 0 <= i < p.len() ==> is_dec_digit(#[trigger] p[i]));
        assert(p.drop_last() =~= s.subrange(0, k));
        lemma_dec_digits_value_bounds(p);
    } else {
        assert(s.subrange(0, k) =~= s);
    }
}

/// The character for one decimal digit.
pub open spec fn digit_char(d: nat) -> char
    recommends
        d < 10,
{
    if d == 0 {
        '0'
    } else if d == 1 {
        '1'
    } else if d == 2 {
        '2'
    } else if d == 3 {
        '3'
    } else if d == 4 {
        '4'
    } else if d == 5 {
        '5'
    } else if d == 6 {
        '6'
    } else if d == 7 {
        '7'
    } else if d == 8 {
        '8'
    } else {
        '9'
    }
}

/// The decimal digits of a value, most significant first, without
/// leading zeros.
pub open spec fn dec_chars_of(v: nat) -> Seq<char>
    decreases v,
{
    if v < 10 {
        seq![digit_char(v)]
    } else {
        dec_chars_of(v / 10) + seq![digit_char(v % 10)]
    }
}

fn digit_string(d: u32) -> (s: String)
    requires
        d < 10,
    ensures
        s@ == seq![digit_char(d as nat)],
{
    let lit: &str = if d == 0 {
        "0"
    } else if d == 1 {
        "1"
    } else if d == 2 {
        "2"
    } else if d == 3 {
        "3"
    } else if d == 4 {
        "4"
    } else if d == 5 {
        "5"
    } else if d == 6 {
        "6"
    } else if d == 7 {
        "7"
    } else if d == 8 {
        "8"
    } else {
        "9"
    };
    proof {
        reveal_strlit("0");
        reveal_strlit("1");
        reveal_strlit("2");
        reveal_strlit("3");
        reveal_strlit("4");
        reveal_strlit("5");
        reveal_strlit("6");
        reveal_strlit("7");
        reveal_strlit("8");
        reveal_strlit("9");
        assert(lit@ =~= seq![digit_char(d as nat)]);
    }
    String::from_str(lit)
}

/// Renders a value in decimal.
pub fn u32_to_decimal(v: u32) -> (s: String)
    ensures
        s@ == dec_chars_of(v as nat),
    decreases v,
{
    if v < 10 {
        digit_string(v)
    } else {
        let mut s = u32_to_decimal(v / 10);
        let low = digit_string(v % 10);
        s.append(low.as_str());
        s
    }
}

} // verus!
