//! Text helpers: equality, decimal spelling, integer parsing, trimming and
//! splitting, each stated over the characters of a string.

use vstd::prelude::*;
use vstd::string::*;
use vstd::utf8::*;

verus! {

/// `String::push` appends the given character to the end of the string.
pub assume_specification[ String::push ](s: &mut String, c: char)
    ensures
        final(s)@ == old(s)@.push(c),
;

/// True when the two strings hold the same characters.
pub fn same_text(a: &str, b: &str) -> (same: bool)
    ensures
        same == (a@ == b@),
{
    let x = a.as_bytes();
    let y = b.as_bytes();
    proof {
        encode_utf8_decode_utf8(a@);
        encode_utf8_decode_utf8(b@);
    }
    if x.len() != y.len() {
        return false;
    }
    let mut i: usize = 0;
    while i < x.len()
        invariant
            0 <= i <= x.len(),
            x.len() == y.len(),
            x@ == encode_utf8(a@),
            y@ == encode_utf8(b@),
            forall|j: int| 0 <= j < i ==> x@[j] == y@[j],
        decreases x.len() - i,
    {
        if x[i] != y[i] {
            return false;
        }
        i = i + 1;
    }
    assert(x@ =~= y@);
    true
}

/// The characters of a string, in order.
pub fn chars_of(s: &str) -> (out: Vec<char>)
    ensures
        out@ == s@,
{
    let mut out: Vec<char> = Vec::new();
    for c in it: s.chars()
        invariant
            out@ == s@.take(it.index() as int),
            it.seq() == s@,
    {
        out.push(c);
        assert(out@ =~= s@.take(it.index() + 1));
    }
    assert(out@ =~= s@);
    out
}

/// The string made of the given characters.
pub fn string_of(chars: &[char]) -> (out: String)
    ensures
        out@ == chars@,
{
    let mut out = String::new();
    let mut i: usize = 0;
    while i < chars.len()
        invariant
            0 <= i <= chars.len(),
            out@ == chars@.take(i as int),
        decreases chars.len() - i,
    {
        out.push(chars[i]);
        i = i + 1;
        assert(out@ =~= chars@.take(i as int));
    }
    assert(out@ =~= chars@);
    out
}

/// The character of a decimal digit.
pub open spec fn digit(d: nat) -> char {
    if d == 0 { '0' } else if d == 1 { '1' } else if d == 2 { '2' } else if d == 3 { '3' }
    else if d == 4 { '4' } else if d == 5 { '5' } else if d == 6 { '6' } else if d == 7 { '7' }
    else if d == 8 { '8' } else { '9' }
}

/// The decimal spelling of a number, without leading zeros.
pub open spec fn decimal(n: nat) -> Seq<char>
    decreases n,
{
    if n < 10 {
        seq![digit(n)]
    } else {
        decimal(n / 10).push(digit(n % 10))
    }
}

fn digit_char(d: u64) -> (c: char)
    requires
        d < 10,
    ensures
        c == digit(d as nat),
{
    if d == 0 { '0' } else if d == 1 { '1' } else if d == 2 { '2' } else if d == 3 { '3' }
    else if d == 4 { '4' } else if d == 5 { '5' } else if d == 6 { '6' } else if d == 7 { '7' }
    else if d == 8 { '8' } else { '9' }
}

/// Appends the decimal spelling of `n`.
pub fn push_decimal(out: &mut String, n: u64)
    ensures
        final(out)@ == old(out)@ + decimal(n as nat),
    decreases n,
{
    if n >= 10 {
        push_decimal(out, n / 10);
    }
    out.push(digit_char(n % 10));
    assert(out@ =~= old(out)@ + decimal(n as nat));
}

/// The decimal spelling of a number that may be negative.
pub open spec fn signed_decimal(n: int) -> Seq<char> {
    if n < 0 {
        "-"@ + decimal((-n) as nat)
    } else {
        decimal(n as nat)
    }
}

/// Appends the decimal spelling of a number that may be negative.
pub fn push_signed(out: &mut String, n: i32)
    ensures
        final(out)@ == old(out)@ + signed_decimal(n as int),
{
    if n < 0 {
        push_text(out, "-");
        push_decimal(out, (-(n as i64)) as u64);
        assert(out@ =~= old(out)@ + signed_decimal(n as int));
    } else {
        push_decimal(out, n as u64);
    }
}

/// Appends the characters of `part`.
pub fn push_text(out: &mut String, part: &str)
    ensures
        final(out)@ == old(out)@ + part@,
{
    out.append(part);
}

/// The concatenation of two strings.
pub fn joined(a: &str, b: &str) -> (out: String)
    ensures
        out@ == a@ + b@,
{
    let mut out = a.to_owned();
    out.append(b);
    out
}

/// The concatenation of three strings.
pub fn joined3(a: &str, b: &str, c: &str) -> (out: String)
    ensures
        out@ == a@ + b@ + c@,
{
    let mut out = a.to_owned();
    out.append(b);
    out.append(c);
    out
}

/// `head`, the decimal spelling of `n`, then `tail`.
pub fn tagged_number(head: &str, n: u64, tail: &str) -> (out: String)
    ensures
        out@ == head@ + decimal(n as nat) + tail@,
{
    let mut out = head.to_owned();
    push_decimal(&mut out, n);
    out.append(tail);
    out
}

/// `head`, the spelling of `n`, `middle`, the spelling of `m`, then `tail`.
pub fn tagged_numbers(head: &str, n: u64, middle: &str, m: u64, tail: &str) -> (out: String)
    ensures
        out@ == head@ + decimal(n as nat) + middle@ + decimal(m as nat) + tail@,
{
    let mut out = tagged_number(head, n, middle);
    push_decimal(&mut out, m);
    out.append(tail);
    out
}

/// `head`, then the decimal spelling of `n`.
pub fn ending_number(head: &str, n: u64) -> (out: String)
    ensures
        out@ == head@ + decimal(n as nat),
{
    let mut out = head.to_owned();
    push_decimal(&mut out, n);
    out
}

/// `head`, the spelling of `n`, `middle`, then the spelling of `m`.
pub fn ending_numbers(head: &str, n: u64, middle: &str, m: u64) -> (out: String)
    ensures
        out@ == head@ + decimal(n as nat) + middle@ + decimal(m as nat),
{
    let mut out = tagged_number(head, n, middle);
    push_decimal(&mut out, m);
    out
}

/// Whether `s` starts with `head`.
pub open spec fn has_head(s: Seq<char>, head: Seq<char>) -> bool {
    head.len() <= s.len() && s.take(head.len() as int) == head
}

/// Whether the characters start with `head`.
pub fn starts_with(s: &[char], head: &str) -> (yes: bool)
    ensures
        yes == has_head(s@, head@),
{
    let h = chars_of(head);
    if h.len() > s.len() {
        return false;
    }
    let mut i: usize = 0;
    while i < h.len()
        invariant
            0 <= i <= h.len() <= s.len(),
            h@ == head@,
            forall|j: int| 0 <= j < i ==> s@[j] == head@[j],
        decreases h.len() - i,
    {
        if s[i] != h[i] {
            assert(s@.take(h@.len() as int)[i as int] != head@[i as int]);
            return false;
        }
        i = i + 1;
    }
    assert(s@.take(h@.len() as int) =~= head@);
    true
}

/// The number of bytes of the UTF-8 spelling.
pub open spec fn byte_len(s: Seq<char>) -> nat {
    encode_utf8(s).len()
}

/// Length of the UTF-8 spelling in bytes.
pub fn byte_count(s: &str) -> (n: usize)
    ensures
        n == byte_len(s@),
{
    s.as_bytes().len()
}

/// The position of the first `c`, or the length when there is none.
pub open spec fn index_of(s: Seq<char>, c: char) -> int
    decreases s.len(),
{
    if s.len() == 0 {
        0
    } else if s[0] == c {
        0
    } else {
        1 + index_of(s.drop_first(), c)
    }
}

/// [`index_of`] names the first occurrence.
pub proof fn index_of_is_first(s: Seq<char>, c: char)
    ensures
        0 <= index_of(s, c) <= s.len(),
        index_of(s, c) < s.len() ==> s[index_of(s, c)] == c,
        forall|j: int| 0 <= j < index_of(s, c) ==> s[j] != c,
        s.contains(c) == (index_of(s, c) < s.len()),
    decreases s.len(),
{
    if s.len() > 0 && s[0] != c {
        let rest = s.drop_first();
        index_of_is_first(rest, c);
        assert forall|j: int| 0 <= j < index_of(s, c) implies s[j] != c by {
            if j > 0 {
                assert(s[j] == rest[j - 1]);
            }
        }
        if s.contains(c) {
            let k = choose|k: int| 0 <= k < s.len() && s[k] == c;
            assert(rest[k - 1] == c);
        }
    }
}

/// A position before which `c` does not occur, and at which it does or the
/// text ends, is the first one.
pub proof fn index_of_unique(s: Seq<char>, c: char, k: int)
    requires
        0 <= k <= s.len(),
        forall|j: int| 0 <= j < k ==> s[j] != c,
        k < s.len() ==> s[k] == c,
    ensures
        index_of(s, c) == k,
{
    index_of_is_first(s, c);
    if index_of(s, c) < k {
        assert(s[index_of(s, c)] != c);
    }
}

/// The pieces of a text between the separators; one piece when there is no
/// separator.
pub open spec fn pieces(s: Seq<char>, sep: char) -> Seq<Seq<char>>
    decreases s.len(),
{
    let k = index_of(s, sep);
    if k >= s.len() {
        seq![s]
    } else {
        proof {
            index_of_is_first(s, sep);
        }
        seq![s.take(k)] + pieces(s.skip(k + 1), sep)
    }
}

/// The characters of each string.
pub open spec fn texts(parts: Seq<Vec<char>>) -> Seq<Seq<char>> {
    parts.map_values(|v: Vec<char>| v@)
}

/// Finds the first `c`.
pub fn find_char(s: &[char], c: char) -> (k: usize)
    ensures
        k == index_of(s@, c),
        k <= s@.len(),
        k < s@.len() ==> s@[k as int] == c,
        forall|j: int| 0 <= j < k ==> s@[j] != c,
        (k < s@.len()) == s@.contains(c),
{
    let mut i: usize = 0;
    while i < s.len()
        invariant
            0 <= i <= s.len(),
            forall|j: int| 0 <= j < i ==> s@[j] != c,
        decreases s.len() - i,
    {
        if s[i] == c {
            proof {
                index_of_unique(s@, c, i as int);
            }
            return i;
        }
        i = i + 1;
    }
    proof {
        index_of_unique(s@, c, i as int);
        index_of_is_first(s@, c);
    }
    i
}

/// The characters from `from` up to `to`.
pub fn part_of(s: &[char], from: usize, to: usize) -> (out: Vec<char>)
    requires
        from <= to <= s@.len(),
    ensures
        out@ == s@.subrange(from as int, to as int),
{
    let mut out: Vec<char> = Vec::new();
    let mut i: usize = from;
    while i < to
        invariant
            from <= i <= to <= s@.len(),
            out@ == s@.subrange(from as int, i as int),
        decreases to - i,
    {
        out.push(s[i]);
        i = i + 1;
        assert(out@ =~= s@.subrange(from as int, i as int));
    }
    out
}

/// Splits a text at every separator.
pub fn split_at_each(s: &[char], sep: char) -> (out: Vec<Vec<char>>)
    ensures
        texts(out@) == pieces(s@, sep),
{
    let mut out: Vec<Vec<char>> = Vec::new();
    let mut start: usize = 0;
    let mut i: usize = 0;
    assert(s@.skip(0) =~= s@);
    assert(texts(out@) + pieces(s@, sep) =~= pieces(s@, sep));
    while i < s.len()
        invariant
            0 <= start <= i <= s.len(),
            forall|j: int| start <= j < i ==> s@[j] != sep,
            texts(out@) + pieces(s@.skip(start as int), sep) == pieces(s@, sep),
        decreases s.len() - i,
    {
        if s[i] == sep {
            let ghost before = texts(out@);
            let ghost rest = s@.skip(start as int);
            out.push(part_of(s, start, i));
            proof {
                index_of_unique(rest, sep, i - start);
                index_of_is_first(rest, sep);
                assert(rest.take(i - start) =~= s@.subrange(start as int, i as int));
                assert(rest.skip(i - start + 1) =~= s@.skip(i + 1));
                assert(texts(out@) =~= before.push(s@.subrange(start as int, i as int)));
                assert(pieces(rest, sep) == seq![rest.take(i - start)] + pieces(
                    s@.skip(i + 1),
                    sep,
                ));
                assert(texts(out@) + pieces(s@.skip(i + 1), sep) =~= before + pieces(rest, sep));
            }
            start = i + 1;
        }
        i = i + 1;
    }
    proof {
        let rest = s@.skip(start as int);
        index_of_unique(rest, sep, rest.len() as int);
        index_of_is_first(rest, sep);
        assert(rest =~= s@.subrange(start as int, s@.len() as int));
    }
    let ghost before = texts(out@);
    out.push(part_of(s, start, s.len()));
    assert(texts(out@) =~= before + pieces(s@.skip(start as int), sep));
    out
}

/// A lowercase ASCII letter.
pub open spec fn is_lower(c: char) -> bool {
    'a' <= c && c <= 'z'
}

/// An ASCII digit.
pub open spec fn is_digit(c: char) -> bool {
    '0' <= c && c <= '9'
}

/// The number that a run of decimal digits spells.
pub open spec fn digits_value(s: Seq<char>) -> nat
    decreases s.len(),
{
    if s.len() == 0 {
        0
    } else {
        (digits_value(s.drop_last()) * 10 + digit_value(s.last())) as nat
    }
}

/// The value of a decimal digit.
pub open spec fn digit_value(c: char) -> int {
    c as int - '0' as int
}

/// The text without one leading plus sign.
pub open spec fn unsigned(s: Seq<char>) -> Seq<char> {
    if s.len() > 0 && s[0] == '+' {
        s.skip(1)
    } else {
        s
    }
}

/// The number that a text spells: at least one decimal digit behind an
/// optional plus sign, and no more than `max`.
pub open spec fn number_in(s: Seq<char>, max: nat) -> Option<nat> {
    let digits = unsigned(s);
    if digits.len() > 0 && (forall|i: int| 0 <= i < digits.len() ==> is_digit(#[trigger] digits[i]))
        && digits_value(digits) <= max {
        Some(digits_value(digits))
    } else {
        None
    }
}

proof fn lemma_digits_grow(s: Seq<char>, k: int)
    requires
        0 <= k <= s.len(),
        forall|i: int| 0 <= i < s.len() ==> is_digit(#[trigger] s[i]),
    ensures
        digits_value(s.take(k)) <= digits_value(s),
    decreases s.len(),
{
    if k == s.len() {
        assert(s.take(k) =~= s);
    } else {
        lemma_digits_grow(s.drop_last(), k);
        assert(s.drop_last().take(k) =~= s.take(k));
        assert(is_digit(s[s.len() - 1]));
    }
}

/// Reads a number of at most `max`.
pub fn parse_number(s: &[char], max: u64) -> (n: Option<u64>)
    ensures
        match n {
            Some(v) => number_in(s@, max as nat) == Some(v as nat),
            None => number_in(s@, max as nat) is None,
        },
{
    let start: usize = if s.len() > 0 && s[0] == '+' {
        1
    } else {
        0
    };
    let ghost digits = unsigned(s@);
    assert(digits =~= s@.skip(start as int));
    if start >= s.len() {
        return None;
    }
    let mut value: u64 = 0;
    let mut i: usize = start;
    while i < s.len()
        invariant
            start <= i <= s.len(),
            start < s.len(),
            digits == s@.skip(start as int),
            digits == unsigned(s@),
            forall|j: int| 0 <= j < i - start ==> is_digit(#[trigger] digits[j]),
            value == digits_value(digits.take(i - start)),
            value <= max,
        decreases s.len() - i,
    {
        let c: char = s[i];
        assert(c == digits[i - start]);
        if !('0' <= c && c <= '9') {
            assert(!is_digit(digits[i - start]));
            return None;
        }
        let d: u64 = (c as u32 - '0' as u32) as u64;
        let ghost longer = digits.take(i - start + 1);
        assert(longer.drop_last() =~= digits.take(i - start));
        assert(digits_value(longer) == value * 10 + d);
        if d > max || value > (max - d) / 10 {
            proof {
                if forall|j: int| 0 <= j < digits.len() ==> is_digit(#[trigger] digits[j]) {
                    lemma_digits_grow(digits, i - start + 1);
                }
            }
            return None;
        }
        value = value * 10 + d;
        i = i + 1;
    }
    assert(digits.take(i - start) =~= digits);
    Some(value)
}

/// A decimal spelling reads back as its number.
pub proof fn decimal_reads_back(n: nat, max: nat)
    requires
        n <= max,
    ensures
        number_in(decimal(n), max) == Some(n),
{
    lemma_decimal(n);
    assert(decimal(n)[0] != '+');
}

/// A decimal spelling is a run of digits.
pub proof fn lemma_decimal(n: nat)
    ensures
        decimal(n).len() >= 1,
        forall|i: int| 0 <= i < decimal(n).len() ==> is_digit(#[trigger] decimal(n)[i]),
        digits_value(decimal(n)) == n,
    decreases n,
{
    if n < 10 {
        assert(decimal(n).drop_last() =~= Seq::<char>::empty());
        assert(decimal(n).last() == digit(n));
        assert(digits_value(decimal(n).drop_last()) == 0);
    } else {
        lemma_decimal(n / 10);
        assert(decimal(n).drop_last() =~= decimal(n / 10));
    }
}

/// A decimal spelling of a 64-bit number has at most twenty digits.
pub proof fn lemma_decimal_len_u64(n: u64)
    ensures
        decimal(n as nat).len() <= 20,
{
    reveal_with_fuel(decimal, 21);
}

/// White space as Unicode defines it.
pub open spec fn is_space(c: char) -> bool {
    ||| '\u{9}' <= c && c <= '\u{d}'
    ||| c == ' ' || c == '\u{85}' || c == '\u{a0}' || c == '\u{1680}'
    ||| '\u{2000}' <= c && c <= '\u{200a}'
    ||| c == '\u{2028}' || c == '\u{2029}' || c == '\u{202f}' || c == '\u{205f}' || c
        == '\u{3000}'
}

fn space(c: char) -> (yes: bool)
    ensures
        yes == is_space(c),
{
    ('\u{9}' <= c && c <= '\u{d}') || c == ' ' || c == '\u{85}' || c == '\u{a0}' || c
        == '\u{1680}' || ('\u{2000}' <= c && c <= '\u{200a}') || c == '\u{2028}' || c
        == '\u{2029}' || c == '\u{202f}' || c == '\u{205f}' || c == '\u{3000}'
}

/// The text without white space at its end.
pub open spec fn trimmed_end(s: Seq<char>) -> Seq<char>
    decreases s.len(),
{
    if s.len() > 0 && is_space(s.last()) {
        trimmed_end(s.drop_last())
    } else {
        s
    }
}

/// The text without white space at either end.
pub open spec fn trimmed(s: Seq<char>) -> Seq<char>
    decreases s.len(),
{
    if s.len() > 0 && is_space(s[0]) {
        trimmed(s.drop_first())
    } else {
        trimmed_end(s)
    }
}

/// Removes white space at the end.
pub fn trim_end(s: &[char]) -> (out: Vec<char>)
    ensures
        out@ == trimmed_end(s@),
{
    let mut to: usize = s.len();
    assert(s@.take(to as int) =~= s@);
    while to > 0 && space(s[to - 1])
        invariant
            to <= s.len(),
            trimmed_end(s@.take(to as int)) == trimmed_end(s@),
        decreases to,
    {
        assert(s@.take(to as int).drop_last() =~= s@.take(to - 1));
        to = to - 1;
    }
    assert(s@.take(to as int) =~= s@.subrange(0, to as int));
    part_of(s, 0, to)
}

/// Removes white space at both ends.
pub fn trim(s: &[char]) -> (out: Vec<char>)
    ensures
        out@ == trimmed(s@),
{
    let mut from: usize = 0;
    assert(s@.skip(0) =~= s@);
    while from < s.len() && space(s[from])
        invariant
            0 <= from <= s.len(),
            trimmed(s@.skip(from as int)) == trimmed(s@),
        decreases s.len() - from,
    {
        assert(s@.skip(from as int).drop_first() =~= s@.skip(from + 1));
        from = from + 1;
    }
    let ghost rest = s@.skip(from as int);
    let mut to: usize = s.len();
    assert(s@.subrange(from as int, to as int) =~= rest);
    while to > from && space(s[to - 1])
        invariant
            from <= to <= s.len(),
            trimmed_end(s@.subrange(from as int, to as int)) == trimmed_end(rest),
        decreases to,
    {
        assert(s@.subrange(from as int, to as int).drop_last() =~= s@.subrange(
            from as int,
            to - 1,
        ));
        to = to - 1;
    }
    part_of(s, from, to)
}

/// A text that starts and ends with something else than white space is left
/// as it is.
pub proof fn trimmed_text_stays(s: Seq<char>)
    requires
        s.len() > 0,
        !is_space(s[0]),
        !is_space(s.last()),
    ensures
        trimmed(s) == s,
{
}

/// The text without one carriage return at its end.
pub open spec fn without_return(s: Seq<char>) -> Seq<char> {
    if s.len() > 0 && s.last() == '\r' {
        s.drop_last()
    } else {
        s
    }
}

/// The lines of a document. A line ends with a line feed, or with a carriage
/// return and a line feed; the end of the last line is optional.
pub open spec fn lines_of(s: Seq<char>) -> Seq<Seq<char>>
    decreases s.len(),
{
    let k = index_of(s, '\n');
    if s.len() == 0 {
        Seq::empty()
    } else if k >= s.len() {
        seq![s]
    } else {
        proof {
            index_of_is_first(s, '\n');
        }
        seq![without_return(s.take(k))] + lines_of(s.skip(k + 1))
    }
}

/// Splits a document into its lines.
pub fn split_lines(s: &[char]) -> (out: Vec<Vec<char>>)
    ensures
        texts(out@) == lines_of(s@),
{
    let mut out: Vec<Vec<char>> = Vec::new();
    let mut start: usize = 0;
    let mut i: usize = 0;
    assert(s@.skip(0) =~= s@);
    assert(texts(out@) + lines_of(s@) =~= lines_of(s@));
    while i < s.len()
        invariant
            0 <= start <= i <= s.len(),
            forall|j: int| start <= j < i ==> s@[j] != '\n',
            texts(out@) + lines_of(s@.skip(start as int)) == lines_of(s@),
        decreases s.len() - i,
    {
        if s[i] == '\n' {
            let ghost before = texts(out@);
            let ghost rest = s@.skip(start as int);
            proof {
                index_of_unique(rest, '\n', i - start);
                index_of_is_first(rest, '\n');
                assert(rest.take(i - start) =~= s@.subrange(start as int, i as int));
                assert(rest.skip(i - start + 1) =~= s@.skip(i + 1));
            }
            let end: usize = if i > start && s[i - 1] == '\r' {
                i - 1
            } else {
                i
            };
            let line = part_of(s, start, end);
            assert(line@ =~= without_return(rest.take(i - start)));
            out.push(line);
            proof {
                assert(texts(out@) =~= before.push(line@));
                assert(lines_of(rest) == seq![without_return(rest.take(i - start))] + lines_of(
                    s@.skip(i + 1),
                ));
                assert(texts(out@) + lines_of(s@.skip(i + 1)) =~= before + lines_of(rest));
            }
            start = i + 1;
        }
        i = i + 1;
    }
    let ghost rest = s@.skip(start as int);
    let ghost before = texts(out@);
    if start < s.len() {
        proof {
            index_of_unique(rest, '\n', rest.len() as int);
            assert(rest =~= s@.subrange(start as int, s@.len() as int));
        }
        out.push(part_of(s, start, s.len()));
        assert(texts(out@) =~= before + lines_of(rest));
    } else {
        assert(rest =~= Seq::<char>::empty());
        assert(texts(out@) =~= before + lines_of(rest));
    }
    out
}

/// The texts with line feeds between them.
pub open spec fn joined_lines(lines: Seq<Seq<char>>) -> Seq<char>
    decreases lines.len(),
{
    if lines.len() == 0 {
        Seq::empty()
    } else if lines.len() == 1 {
        lines[0]
    } else {
        lines[0] + seq!['\n'] + joined_lines(lines.drop_first())
    }
}

/// Joining lines and splitting again gives the lines back, when none of them
/// holds a line feed, none but the last ends with a carriage return, and the
/// last one is not empty.
pub proof fn joined_lines_split_again(lines: Seq<Seq<char>>)
    requires
        forall|i: int| 0 <= i < lines.len() ==> !(#[trigger] lines[i]).contains('\n'),
        forall|i: int|
            0 <= i < lines.len() - 1 ==> ((#[trigger] lines[i]).len() == 0 || lines[i].last()
                != '\r'),
        lines.len() > 0 ==> lines.last().len() > 0,
    ensures
        lines_of(joined_lines(lines)) == lines,
    decreases lines.len(),
{
    let doc = joined_lines(lines);
    if lines.len() == 0 {
        assert(lines_of(doc) =~= lines);
    } else if lines.len() == 1 {
        let line = lines[0];
        index_of_is_first(line, '\n');
        assert(lines_of(doc) =~= lines);
    } else {
        let line = lines[0];
        let rest = lines.drop_first();
        assert forall|i: int| 0 <= i < rest.len() implies !(#[trigger] rest[i]).contains('\n') by {
            assert(rest[i] == lines[i + 1]);
        }
        assert forall|i: int| 0 <= i < rest.len() - 1 implies ((#[trigger] rest[i]).len() == 0
            || rest[i].last() != '\r') by {
            assert(rest[i] == lines[i + 1]);
        }
        joined_lines_split_again(rest);
        assert forall|j: int| 0 <= j < line.len() implies doc[j] != '\n' by {
            assert(doc[j] == line[j]);
            assert(line.contains(line[j]));
        }
        assert(doc[line.len() as int] == '\n');
        index_of_unique(doc, '\n', line.len() as int);
        assert(doc.take(line.len() as int) =~= line);
        assert(doc.skip(line.len() as int + 1) =~= joined_lines(rest));
        assert(lines_of(doc) =~= lines);
    }
}

/// A line without a line feed in front of a document is its first line, without
/// one carriage return at its end.
pub proof fn first_line_splits_off(line: Seq<char>, rest: Seq<char>)
    requires
        !line.contains('\n'),
    ensures
        lines_of(line + seq!['\n'] + rest) == seq![without_return(line)] + lines_of(rest),
{
    let doc = line + seq!['\n'] + rest;
    assert forall|j: int| 0 <= j < line.len() implies doc[j] != '\n' by {
        assert(doc[j] == line[j]);
        assert(line.contains(line[j]));
    }
    index_of_unique(doc, '\n', line.len() as int);
    assert(doc.take(line.len() as int) =~= line);
    assert(doc.skip(line.len() as int + 1) =~= rest);
}

/// The first lines of joined lines split off one by one, when none of them
/// holds a line feed.
pub proof fn first_lines_split_off(lines: Seq<Seq<char>>, k: int)
    requires
        0 <= k < lines.len(),
        forall|i: int| 0 <= i < k ==> !(#[trigger] lines[i]).contains('\n'),
    ensures
        lines_of(joined_lines(lines)) == Seq::new(k as nat, |i: int| without_return(lines[i]))
            + lines_of(joined_lines(lines.skip(k))),
    decreases k,
{
    if k == 0 {
        assert(lines.skip(0) =~= lines);
        assert(lines_of(joined_lines(lines)) =~= Seq::new(
            0,
            |i: int| without_return(lines[i]),
        ) + lines_of(joined_lines(lines)));
    } else {
        let rest = lines.drop_first();
        assert forall|i: int| 0 <= i < k - 1 implies !(#[trigger] rest[i]).contains('\n') by {
            assert(rest[i] == lines[i + 1]);
        }
        first_lines_split_off(rest, k - 1);
        first_line_splits_off(lines[0], joined_lines(rest));
        assert(rest.skip(k - 1) =~= lines.skip(k));
        assert(seq![without_return(lines[0])] + Seq::new(
            (k - 1) as nat,
            |i: int| without_return(rest[i]),
        ) =~= Seq::new(k as nat, |i: int| without_return(lines[i])));
        assert(lines_of(joined_lines(lines)) =~= Seq::new(
            k as nat,
            |i: int| without_return(lines[i]),
        ) + lines_of(joined_lines(lines.skip(k))));
    }
}

/// Lexicographic order by character.
pub open spec fn text_le(a: Seq<char>, b: Seq<char>) -> bool
    decreases a.len(),
{
    if a.len() == 0 {
        true
    } else if b.len() == 0 {
        false
    } else if a[0] != b[0] {
        a[0] < b[0]
    } else {
        text_le(a.drop_first(), b.drop_first())
    }
}

/// The lexicographic order is a total order.
pub proof fn text_le_is_an_order(a: Seq<char>, b: Seq<char>, c: Seq<char>)
    ensures
        text_le(a, a),
        text_le(a, b) || text_le(b, a),
        text_le(a, b) && text_le(b, a) ==> a == b,
        text_le(a, b) && text_le(b, c) ==> text_le(a, c),
    decreases a.len(),
{
    if a.len() > 0 {
        text_le_is_an_order(a.drop_first(), b.drop_first(), c.drop_first());
        if b.len() > 0 && text_le(a, b) && text_le(b, a) {
            assert(a =~= seq![a[0]] + a.drop_first());
            assert(b =~= seq![b[0]] + b.drop_first());
        }
    } else if b.len() == 0 {
        assert(a =~= b);
    }
}

/// Whether the first text comes before the second one or equals it.
pub fn at_most(a: &str, b: &str) -> (yes: bool)
    ensures
        yes == text_le(a@, b@),
{
    let x = chars_of(a);
    let y = chars_of(b);
    let mut i: usize = 0;
    assert(x@.skip(0) =~= x@);
    assert(y@.skip(0) =~= y@);
    while i < x.len() && i < y.len()
        invariant
            0 <= i <= x.len(),
            0 <= i <= y.len(),
            x@ == a@,
            y@ == b@,
            text_le(a@, b@) == text_le(x@.skip(i as int), y@.skip(i as int)),
        decreases x.len() - i,
    {
        if x[i] != y[i] {
            return x[i] < y[i];
        }
        assert(x@.skip(i as int).drop_first() =~= x@.skip(i + 1));
        assert(y@.skip(i as int).drop_first() =~= y@.skip(i + 1));
        i = i + 1;
    }
    i >= x.len()
}

/// Trimming the end leaves the text up to its last character that is no space.
pub proof fn trimming_drops_trailing_spaces(s: Seq<char>)
    ensures
        ({
            let t = trimmed_end(s);
            &&& t.len() <= s.len() && t == s.take(t.len() as int)
            &&& t.len() > 0 ==> !is_space(t.last())
            &&& forall|i: int| t.len() <= i < s.len() ==> is_space(#[trigger] s[i])
        }),
    decreases s.len(),
{
    if s.len() > 0 && is_space(s.last()) {
        trimming_drops_trailing_spaces(s.drop_last());
        let t = trimmed_end(s);
        assert(s.drop_last().take(t.len() as int) =~= s.take(t.len() as int));
        assert forall|i: int| t.len() <= i < s.len() implies is_space(#[trigger] s[i]) by {
            if i < s.len() - 1 {
                assert(s.drop_last()[i] == s[i]);
            }
        }
    } else {
        assert(s.take(s.len() as int) =~= s);
    }
}

/// Trimming leaves the part between the spaces at both ends.
pub proof fn trimming_drops_outer_spaces(s: Seq<char>) -> (from: int)
    ensures
        ({
            let t = trimmed(s);
            &&& 0 <= from <= from + t.len() <= s.len()
            &&& t == s.subrange(from, from + t.len())
            &&& t.len() > 0 ==> !is_space(t[0]) && !is_space(t.last())
            &&& forall|i: int| 0 <= i < from ==> is_space(#[trigger] s[i])
            &&& forall|i: int| from + t.len() <= i < s.len() ==> is_space(#[trigger] s[i])
        }),
    decreases s.len(),
{
    let t = trimmed(s);
    if s.len() > 0 && is_space(s[0]) {
        let rest = s.drop_first();
        let k = trimming_drops_outer_spaces(rest);
        assert(rest.subrange(k, k + t.len()) =~= s.subrange(k + 1, k + 1 + t.len()));
        assert forall|i: int| 0 <= i < k + 1 implies is_space(#[trigger] s[i]) by {
            if i > 0 {
                assert(rest[i - 1] == s[i]);
            }
        }
        assert forall|i: int| k + 1 + t.len() <= i < s.len() implies is_space(#[trigger] s[i]) by {
            assert(rest[i - 1] == s[i]);
        }
        k + 1
    } else {
        trimming_drops_trailing_spaces(s);
        assert(s.take(t.len() as int) =~= s.subrange(0, t.len() as int));
        0
    }
}

/// Texts are ordered by the first character in which they differ, and a text
/// before every longer one that it begins.
pub proof fn texts_order_by_their_first_difference(a: Seq<char>, b: Seq<char>, k: int)
    requires
        0 <= k <= a.len(),
        k <= b.len(),
        forall|i: int| 0 <= i < k ==> a[i] == b[i],
    ensures
        k == a.len() ==> text_le(a, b),
        k == b.len() && k < a.len() ==> !text_le(a, b),
        k < a.len() && k < b.len() && a[k] < b[k] ==> text_le(a, b),
        k < a.len() && k < b.len() && a[k] > b[k] ==> !text_le(a, b),
    decreases k,
{
    if k > 0 {
        let (x, y) = (a.drop_first(), b.drop_first());
        assert forall|i: int| 0 <= i < k - 1 implies x[i] == y[i] by {
            assert(a[i + 1] == b[i + 1]);
        }
        assert(a[0] == b[0]);
        texts_order_by_their_first_difference(x, y, k - 1);
    }
}

/// The pieces of a text hold no separator, and joined by it they are the text.
pub proof fn pieces_join_to_the_text(s: Seq<char>, sep: char)
    ensures
        ({
            let parts = pieces(s, sep);
            &&& parts.len() >= 1
            &&& forall|i: int| 0 <= i < parts.len() ==> !(#[trigger] parts[i]).contains(sep)
            &&& parts.len() == 1 ==> parts[0] == s
            &&& parts.len() > 1 ==> s == parts[0] + seq![sep] + s.skip(parts[0].len() as int + 1)
                && parts.drop_first() == pieces(s.skip(parts[0].len() as int + 1), sep)
        }),
    decreases s.len(),
{
    index_of_is_first(s, sep);
    let k = index_of(s, sep);
    let parts = pieces(s, sep);
    if k >= s.len() {
        assert(!s.contains(sep));
    } else {
        let head = s.take(k);
        let tail = s.skip(k + 1);
        pieces_join_to_the_text(tail, sep);
        assert(!head.contains(sep)) by {
            if head.contains(sep) {
                let j = choose|j: int| 0 <= j < head.len() && head[j] == sep;
                assert(s[j] == sep);
            }
        }
        assert(parts.drop_first() =~= pieces(tail, sep));
        assert(s =~= head + seq![sep] + tail);
        assert forall|i: int| 0 <= i < parts.len() implies !(#[trigger] parts[i]).contains(sep) by {
            if i > 0 {
                assert(parts[i] == pieces(tail, sep)[i - 1]);
            }
        }
    }
}

/// A number is read from digits, with or without a plus before them: each digit
/// counts ten times what stands behind it. Nothing else is a number, nor is one
/// that is too large.
pub proof fn numbers_are_read_digit_by_digit(s: Seq<char>, d: char, max: nat)
    ensures
        number_in(Seq::empty(), max) is None,
        !('0' <= d <= '9') ==> number_in(s.push(d), max) is None,
        '0' <= d <= '9' && s.len() > 0 && s != seq!['+'] ==> number_in(s.push(d), max) == (
        match number_in(s, max) {
            Some(n) => if n * 10 + (d as int - '0' as int) <= max {
                Some((n * 10 + (d as int - '0' as int)) as nat)
            } else {
                None
            },
            None => None,
        }),
        '0' <= d <= '9' && d as int - '0' as int <= max ==> number_in(seq![d], max) == Some(
            (d as int - '0' as int) as nat,
        ) && number_in(seq!['+', d], max) == Some((d as int - '0' as int) as nat),
{
    let all = s.push(d);
    let u = unsigned(s);
    let v = unsigned(all);
    assert(unsigned(Seq::empty()) =~= Seq::<char>::empty());
    if s.len() > 0 {
        assert(v =~= u.push(d));
        assert(v.drop_last() =~= u);
        assert(v[v.len() - 1] == d);
        assert forall|i: int| 0 <= i < u.len() implies v[i] == u[i] by {}
        assert('0' <= d <= '9' ==> digits_value(v) == digits_value(u) * 10 + digit_value(d));
        if s != seq!['+'] {
            assert(u.len() > 0) by {
                if u.len() == 0 {
                    assert(s =~= seq!['+']);
                }
            }
        }
        if '0' <= d <= '9' && (forall|i: int| 0 <= i < u.len() ==> is_digit(#[trigger] u[i])) {
            assert forall|i: int| 0 <= i < v.len() implies is_digit(#[trigger] v[i]) by {
                if i < u.len() {
                    assert(is_digit(u[i]));
                }
            }
        }
        if !(forall|i: int| 0 <= i < u.len() ==> is_digit(#[trigger] u[i])) {
            let i = choose|i: int| 0 <= i < u.len() && !is_digit(#[trigger] u[i]);
            assert(!is_digit(v[i]));
        }
        if !('0' <= d <= '9') {
            assert(!is_digit(v[v.len() - 1]));
        }
    } else {
        assert(all =~= seq![d]);
        if !('0' <= d <= '9') {
            if v.len() > 0 {
                assert(v =~= seq![d]);
                assert(!is_digit(v[0]));
            }
        }
    }
    if '0' <= d <= '9' {
        assert(unsigned(seq![d]) =~= seq![d]);
        assert(unsigned(seq!['+', d]) =~= seq![d]);
        assert(seq![d].drop_last() =~= Seq::<char>::empty());
        reveal_with_fuel(digits_value, 2);
        assert(digits_value(seq![d]) == digit_value(d));
    }
}

/// A line ends at its line feed, and a carriage return right before it belongs to
/// the end of the line.
pub proof fn returns_end_lines_too(line: Seq<char>)
    ensures
        without_return(line.push('\r')) == line,
        line.len() > 0 && line.last() != '\r' ==> without_return(line) == line,
        without_return(Seq::empty()) == Seq::<char>::empty(),
{
    assert(line.push('\r').drop_last() =~= line);
}

/// The digits of a number are those of its tens and then that of its ones.
pub proof fn decimals_are_written_digit_by_digit(tens: nat, ones: nat)
    requires
        ones < 10,
    ensures
        decimal(ones).len() == 1,
        decimal(ones)[0] as int == '0' as int + ones,
        tens > 0 ==> decimal(tens * 10 + ones) == decimal(tens) + decimal(ones),
        tens > 0 ==> signed_decimal(-(tens as int)) == seq!['-'] + decimal(tens),
        signed_decimal(tens as int) == decimal(tens),
{
    reveal_strlit("-");
    assert("-"@ =~= seq!['-']);
    if tens > 0 {
        let n = tens * 10 + ones;
        assert(n / 10 == tens && n % 10 == ones);
        assert(decimal(n) =~= decimal(tens) + decimal(ones));
    }
}

/// A text has a head when it goes on from it.
pub proof fn heads_begin_their_text(head: Seq<char>, rest: Seq<char>, s: Seq<char>)
    ensures
        has_head(head + rest, head),
        has_head(s, head) ==> s == head + s.skip(head.len() as int),
{
    assert((head + rest).take(head.len() as int) =~= head);
    if has_head(s, head) {
        assert(s =~= s.take(head.len() as int) + s.skip(head.len() as int));
    }
}

/// The characters that count as space, by their code points.
pub proof fn spaces_by_code_point(c: char)
    ensures
        ({
            let n = c as int;
            is_space(c) <==> 9 <= n <= 13 || n == 32 || n == 133 || n == 160 || n == 5760 || 8192
                <= n <= 8202 || n == 8232 || n == 8233 || n == 8239 || n == 8287 || n == 12288
        }),
{
}

} // verus!
