//! Text handling shared by the configuration readers and the protocol
//! translators: lines, trimming, decimal numbers and bounded strings.
use vstd::prelude::*;
use vstd::utf8::{decode_utf8, encode_utf8, valid_utf8};

verus! {

/// [`String::push`] appends one character at the end.
pub assume_specification[ String::push ](s: &mut String, c: char)
    ensures
        final(s)@ == old(s)@.push(c),
;

/// What [`String::from_utf8_lossy`] makes of a byte string.
pub uninterp spec fn lossy_utf8(bytes: Seq<u8>) -> Seq<char>;

/// [`String::from_utf8_lossy`]: valid UTF-8 is decoded as it stands; of other
/// input only the name of the outcome is known.
#[verifier::external_body]
pub(crate) fn lossy_string(bytes: &[u8]) -> (text: String)
    ensures
        text@ == lossy_utf8(bytes@),
        valid_utf8(bytes@) ==> text@ == decode_utf8(bytes@),
{
    String::from_utf8_lossy(bytes).into_owned()
}

/// [`String::from_utf8`] takes exactly the valid UTF-8 strings and decodes them.
#[verifier::external_body]
pub(crate) fn utf8_string(bytes: Vec<u8>) -> (text: Option<String>)
    ensures
        text is Some <==> valid_utf8(bytes@),
        text matches Some(t) ==> t@ == decode_utf8(bytes@),
{
    String::from_utf8(bytes).ok()
}

/// The characters with the Unicode property `White_Space`.
pub open spec fn white_space(c: char) -> bool {
    let n = c as u32;
    ||| 0x9 <= n <= 0xd
    ||| n == 0x20
    ||| n == 0x85
    ||| n == 0xa0
    ||| n == 0x1680
    ||| 0x2000 <= n <= 0x200a
    ||| n == 0x2028
    ||| n == 0x2029
    ||| n == 0x202f
    ||| n == 0x205f
    ||| n == 0x3000
}

/// Tells whether a character is Unicode white space.
pub fn is_white_space(c: char) -> (r: bool)
    ensures
        r == white_space(c),
{
    let n: u32 = c as u32;
    (0x9 <= n && n <= 0xd) || n == 0x20 || n == 0x85 || n == 0xa0 || n == 0x1680 || (0x2000 <= n
        && n <= 0x200a) || n == 0x2028 || n == 0x2029 || n == 0x202f || n == 0x205f || n == 0x3000
}

/// The characters of a string.
pub fn chars_of(text: &str) -> (chars: Vec<char>)
    ensures
        chars@ == text@,
{
    let mut chars: Vec<char> = Vec::new();
    for c in it: text.chars()
        invariant
            chars@ == it.seq().take(it.index() as int),
            it.seq() == text@,
    {
        assert(it.seq().take(it.index() + 1) =~= it.seq().take(it.index() as int).push(c));
        chars.push(c);
    }
    assert(text@.take(text@.len() as int) =~= text@);
    chars
}

/// The string made of the given characters.
pub fn string_of(chars: &Vec<char>) -> (text: String)
    ensures
        text@ == chars@,
{
    let mut text = String::new();
    let mut i: usize = 0;
    while i < chars.len()
        invariant
            i <= chars.len(),
            text@ == chars@.take(i as int),
        decreases chars.len() - i,
    {
        assert(chars@.take(i + 1) =~= chars@.take(i as int).push(chars@[i as int]));
        text.push(chars[i]);
        i += 1;
    }
    assert(chars@.take(chars@.len() as int) =~= chars@);
    text
}

/// `s` without its leading white space.
pub open spec fn trim_start(s: Seq<char>) -> Seq<char>
    decreases s.len(),
{
    if s.len() > 0 && white_space(s[0]) {
        trim_start(s.drop_first())
    } else {
        s
    }
}

/// `s` without its trailing white space.
pub open spec fn trim_end(s: Seq<char>) -> Seq<char>
    decreases s.len(),
{
    if s.len() > 0 && white_space(s.last()) {
        trim_end(s.drop_last())
    } else {
        s
    }
}

/// `s` without the white space around it.
pub open spec fn trimmed(s: Seq<char>) -> Seq<char> {
    trim_end(trim_start(s))
}

/// Removes the white space around a text.
pub fn trim(s: &Vec<char>) -> (r: Vec<char>)
    ensures
        r@ == trimmed(s@),
{
    let mut start: usize = 0;
    assert(s@.skip(0) =~= s@);
    while start < s.len() && is_white_space(s[start])
        invariant
            start <= s.len(),
            trim_start(s@.skip(start as int)) == trim_start(s@),
        decreases s.len() - start,
    {
        assert(s@.skip(start as int).drop_first() =~= s@.skip(start + 1));
        start += 1;
    }
    assert(trim_start(s@) == s@.skip(start as int));
    let mut end: usize = s.len();
    assert(s@.subrange(start as int, end as int) =~= s@.skip(start as int));
    while end > start && is_white_space(s[end - 1])
        invariant
            start <= end <= s.len(),
            trim_end(s@.subrange(start as int, end as int)) == trimmed(s@),
        decreases end,
    {
        assert(s@.subrange(start as int, end as int).drop_last() =~= s@.subrange(
            start as int,
            end - 1,
        ));
        end -= 1;
    }
    let mut r: Vec<char> = Vec::new();
    let mut i: usize = start;
    while i < end
        invariant
            start <= i <= end <= s.len(),
            r@ == s@.subrange(start as int, i as int),
        decreases end - i,
    {
        assert(s@.subrange(start as int, i + 1) =~= s@.subrange(start as int, i as int).push(
            s@[i as int],
        ));
        r.push(s[i]);
        i += 1;
    }
    r
}

/// The index of the first line feed, or the length where there is none.
pub open spec fn line_end(s: Seq<char>) -> int
    decreases s.len(),
{
    if s.len() == 0 || s[0] == '\n' {
        0
    } else {
        1 + line_end(s.drop_first())
    }
}

/// A line without the carriage return that ends it.
pub open spec fn without_return(s: Seq<char>) -> Seq<char> {
    if s.len() > 0 && s.last() == '\r' {
        s.drop_last()
    } else {
        s
    }
}

pub proof fn lemma_line_end_bounds(s: Seq<char>)
    ensures
        0 <= line_end(s) <= s.len(),
    decreases s.len(),
{
    if s.len() != 0 && s[0] != '\n' {
        lemma_line_end_bounds(s.drop_first());
    }
}

/// The lines of a text. A line ends with a line feed, which a carriage return
/// may precede; the end of the last line is optional.
pub open spec fn lines_of(s: Seq<char>) -> Seq<Seq<char>>
    decreases s.len(),
    via lines_of_decreases
{
    if s.len() == 0 {
        seq![]
    } else if line_end(s) == s.len() {
        seq![s]
    } else {
        seq![without_return(s.take(line_end(s)))] + lines_of(s.skip(line_end(s) + 1))
    }
}

#[via_fn]
proof fn lines_of_decreases(s: Seq<char>) {
    lemma_line_end_bounds(s);
}

/// The contents of a list of texts.
pub open spec fn texts(list: Seq<Vec<char>>) -> Seq<Seq<char>> {
    list.map_values(|t: Vec<char>| t@)
}

/// A part of a text.
pub(crate) fn copy_range(s: &Vec<char>, from: usize, to: usize) -> (r: Vec<char>)
    requires
        from <= to <= s.len(),
    ensures
        r@ == s@.subrange(from as int, to as int),
{
    let mut r: Vec<char> = Vec::new();
    let mut i: usize = from;
    while i < to
        invariant
            from <= i <= to <= s.len(),
            r@ == s@.subrange(from as int, i as int),
        decreases to - i,
    {
        assert(s@.subrange(from as int, i + 1) =~= s@.subrange(from as int, i as int).push(
            s@[i as int],
        ));
        r.push(s[i]);
        i += 1;
    }
    r
}

/// Splits a text into its lines.
pub fn lines(s: &Vec<char>) -> (r: Vec<Vec<char>>)
    ensures
        texts(r@) == lines_of(s@),
{
    let mut r: Vec<Vec<char>> = Vec::new();
    let mut start: usize = 0;
    assert(s@.skip(0) =~= s@);
    assert(texts(r@) + lines_of(s@) =~= lines_of(s@));
    while start < s.len()
        invariant
            start <= s.len(),
            texts(r@) + lines_of(s@.skip(start as int)) == lines_of(s@),
        decreases s.len() - start,
    {
        let ghost rest = s@.skip(start as int);
        let mut end: usize = start;
        while end < s.len() && s[end] != '\n'
            invariant
                start <= end <= s.len(),
                rest == s@.skip(start as int),
                line_end(rest) == (end - start) + line_end(s@.skip(end as int)),
            decreases s.len() - end,
        {
            assert(s@.skip(end as int).drop_first() =~= s@.skip(end + 1));
            end += 1;
        }
        assert(line_end(s@.skip(end as int)) == 0);
        let ghost before = texts(r@);
        if end == s.len() {
            let line = copy_range(s, start, end);
            assert(line@ =~= rest);
            r.push(line);
            assert(texts(r@) =~= before + seq![rest]);
            assert(lines_of(rest) =~= seq![rest]);
            start = end;
            assert(s@.skip(start as int) =~= Seq::<char>::empty());
            assert(texts(r@) + lines_of(s@.skip(start as int)) =~= texts(r@));
        } else {
            let stop: usize = if end > start && s[end - 1] == '\r' {
                end - 1
            } else {
                end
            };
            let line = copy_range(s, start, stop);
            assert(s@.subrange(start as int, end as int) =~= rest.take(line_end(rest)));
            assert(line@ =~= without_return(rest.take(line_end(rest))));
            let ghost content = line@;
            r.push(line);
            assert(texts(r@) =~= before + seq![content]);
            assert(rest.skip(line_end(rest) + 1) =~= s@.skip(end + 1));
            start = end + 1;
            assert(texts(r@) + lines_of(s@.skip(start as int)) =~= before + lines_of(rest));
        }
    }
    assert(s@.skip(start as int) =~= Seq::<char>::empty());
    assert(texts(r@) + lines_of(s@.skip(start as int)) =~= texts(r@));
    r
}

/// Equality of two texts.
pub fn same_text(a: &Vec<char>, b: &Vec<char>) -> (r: bool)
    ensures
        r == (a@ == b@),
{
    if a.len() != b.len() {
        return false;
    }
    let mut i: usize = 0;
    while i < a.len()
        invariant
            i <= a.len(),
            a.len() == b.len(),
            forall|j: int| 0 <= j < i ==> a@[j] == b@[j],
        decreases a.len() - i,
    {
        if a[i] != b[i] {
            assert(a@[i as int] != b@[i as int]);
            return false;
        }
        i += 1;
    }
    assert(a@ =~= b@);
    true
}

/// Tells whether two byte strings are the same.
pub fn same_bytes(a: &[u8], b: &[u8]) -> (r: bool)
    ensures
        r == (a@ == b@),
{
    if a.len() != b.len() {
        return false;
    }
    let mut i: usize = 0;
    while i < a.len()
        invariant
            i <= a.len(),
            a.len() == b.len(),
            forall|j: int| 0 <= j < i ==> a@[j] == b@[j],
        decreases a.len() - i,
    {
        if a[i] != b[i] {
            return false;
        }
        i += 1;
    }
    assert(a@ =~= b@);
    true
}

/// Tells whether two texts are the same.
pub fn equal(a: &str, b: &str) -> (r: bool)
    ensures
        r == (a@ == b@),
{
    same_text(&chars_of(a), &chars_of(b))
}

/// Appends `more` to a string.
pub fn append(text: &mut String, more: &str)
    ensures
        final(text)@ == old(text)@ + more@,
{
    let chars = chars_of(more);
    let mut i: usize = 0;
    assert(text@ =~= old(text)@ + more@.take(0));
    while i < chars.len()
        invariant
            i <= chars.len(),
            chars@ == more@,
            text@ == old(text)@ + more@.take(i as int),
        decreases chars.len() - i,
    {
        text.push(chars[i]);
        i += 1;
        assert(text@ =~= old(text)@ + more@.take(i as int));
    }
    assert(more@.take(i as int) =~= more@);
}

/// The longest prefix of `s` whose UTF-8 form takes at most `max` bytes.
pub open spec fn bounded(s: Seq<char>, max: nat) -> Seq<char>
    decreases s.len(),
{
    if encode_utf8(s).len() <= max || s.len() == 0 {
        s
    } else {
        bounded(s.drop_last(), max)
    }
}

proof fn lemma_bounded(s: Seq<char>, max: nat)
    ensures
        bounded(s, max).len() <= s.len(),
        bounded(s, max) == s.take(bounded(s, max).len() as int),
        encode_utf8(bounded(s, max)).len() <= max || bounded(s, max).len() == 0,
    decreases s.len(),
{
    if encode_utf8(s).len() <= max || s.len() == 0 {
        assert(s.take(s.len() as int) =~= s);
    } else {
        let shorter = s.drop_last();
        lemma_bounded(shorter, max);
        let n = bounded(shorter, max).len() as int;
        assert(s.take(n) =~= shorter.take(n));
    }
}

/// A bounded text takes at most `max` bytes, and is a beginning of the text.
pub proof fn bounded_text_fits(s: Seq<char>, max: nat)
    ensures
        encode_utf8(bounded(s, max)).len() <= max,
        bounded(s, max).is_prefix_of(s),
{
    lemma_bounded(s, max);
    if bounded(s, max).len() == 0 {
        assert(encode_utf8(bounded(s, max)).len() == 0);
    }
}

/// Cuts a text so that its UTF-8 form takes at most `max` bytes.
pub fn truncate(text: &str, max: usize) -> (r: String)
    ensures
        r@ == bounded(text@, max as nat),
{
    let mut chars = chars_of(text);
    let mut r = string_of(&chars);
    while r.as_str().as_bytes().len() > max && chars.len() > 0
        invariant
            r@ == chars@,
            bounded(chars@, max as nat) == bounded(text@, max as nat),
        decreases chars.len(),
    {
        let ghost before = chars@;
        chars.pop();
        assert(chars@ =~= before.drop_last());
        r = string_of(&chars);
    }
    r
}

/// The decimal digit of a number below ten.
pub open spec fn digit(n: int) -> char {
    ('0' as u32 + n) as char
}

/// A natural number in decimal.
pub open spec fn decimal(n: nat) -> Seq<char>
    decreases n,
{
    if n < 10 {
        seq![digit(n as int)]
    } else {
        decimal(n / 10).push(digit((n % 10) as int))
    }
}

fn digit_char(n: u64) -> (c: char)
    requires
        n < 10,
    ensures
        c == digit(n as int),
{
    (48u8 + n as u8) as char
}

/// Writes a number in decimal.
pub fn format_decimal(n: u64) -> (r: String)
    ensures
        r@ == decimal(n as nat),
    decreases n,
{
    if n < 10 {
        let mut r = String::new();
        r.push(digit_char(n));
        assert(r@ =~= decimal(n as nat));
        r
    } else {
        let mut r = format_decimal(n / 10);
        r.push(digit_char(n % 10));
        r
    }
}

/// The value of a decimal digit.
pub open spec fn digit_value(c: char) -> Option<int> {
    if '0' <= c && c <= '9' {
        Some(c as u32 - '0' as u32)
    } else {
        None
    }
}

/// The number that a non-empty run of decimal digits stands for.
pub open spec fn digits_value(s: Seq<char>) -> Option<int>
    decreases s.len(),
{
    if s.len() == 0 {
        None
    } else if s.len() == 1 {
        digit_value(s[0])
    } else {
        match (digits_value(s.drop_last()), digit_value(s.last())) {
            (Some(high), Some(low)) => Some(high * 10 + low),
            _ => None,
        }
    }
}

/// The natural number that a text stands for: decimal digits after an
/// optional plus sign.
pub open spec fn natural_value(s: Seq<char>) -> Option<int> {
    if s.len() > 0 && s[0] == '+' {
        digits_value(s.drop_first())
    } else {
        digits_value(s)
    }
}

/// The integer that a text stands for: decimal digits after an optional sign.
pub open spec fn integer_value(s: Seq<char>) -> Option<int> {
    if s.len() > 0 && s[0] == '-' {
        match digits_value(s.drop_first()) {
            Some(n) => Some(-n),
            None => None,
        }
    } else {
        natural_value(s)
    }
}

/// A parsed number, where it lies within bounds.
pub open spec fn within(n: Option<int>, low: int, high: int) -> Option<int> {
    match n {
        Some(v) => if low <= v <= high {
            Some(v)
        } else {
            None
        },
        None => None,
    }
}

/// Larger than every number that a parser here returns.
pub const DIGITS_LIMIT: u64 = 0x1_0000_0000_0000;

/// Reads the digits from index `from` on. A value of [`DIGITS_LIMIT`] stands
/// for itself and for everything above.
fn read_digits(s: &Vec<char>, from: usize) -> (r: Option<u64>)
    requires
        from <= s.len(),
    ensures
        match digits_value(s@.skip(from as int)) {
            None => r is None,
            Some(v) => r == Some(if v < DIGITS_LIMIT { v as u64 } else { DIGITS_LIMIT }) && v >= 0,
        },
{
    if from == s.len() {
        return None;
    }
    let mut value: u64 = 0;
    let mut i: usize = from;
    let ghost all = s@.skip(from as int);
    while i < s.len()
        invariant
            from <= i <= s.len(),
            from < s.len(),
            all == s@.skip(from as int),
            i == from ==> value == 0,
            i > from ==> {
                let v = digits_value(all.take(i - from));
                v is Some && v->0 >= 0 && value == (if v->0 < DIGITS_LIMIT { v->0 } else {
                    DIGITS_LIMIT as int
                })
            },
        decreases s.len() - i,
    {
        let c = s[i];
        let ghost next = all.take(i + 1 - from);
        assert(next.drop_last() =~= all.take(i - from));
        assert(next.last() == c);
        if !('0' <= c && c <= '9') {
            proof {
                assert(digits_value(next) is None);
                lemma_bad_prefix(all, i + 1 - from);
            }
            return None;
        }
        let d: u64 = (c as u32 - 48) as u64;
        let sum: u64 = value * 10 + d;
        value = if sum < DIGITS_LIMIT { sum } else { DIGITS_LIMIT };
        i += 1;
        assert(all.take(i - from) == next);
    }
    assert(all.take(i - from) =~= all);
    Some(value)
}

proof fn lemma_bad_prefix(s: Seq<char>, n: int)
    requires
        0 < n <= s.len(),
        digits_value(s.take(n)) is None,
    ensures
        digits_value(s) is None,
    decreases s.len() - n,
{
    if n == s.len() {
        assert(s.take(n) =~= s);
    } else {
        assert(s.take(n + 1).drop_last() =~= s.take(n));
        lemma_bad_prefix(s, n + 1);
    }
}

/// Reads a decimal number of sixteen bits.
pub fn parse_u16(text: &str) -> (r: Option<u16>)
    ensures
        match within(natural_value(text@), 0, u16::MAX as int) {
            Some(v) => r == Some(v as u16),
            None => r is None,
        },
{
    let s = chars_of(text);
    assert(s@.skip(0) =~= s@);
    assert(s@.len() > 0 ==> s@.skip(1) =~= s@.drop_first());
    let from: usize = if s.len() > 0 && s[0] == '+' {
        1
    } else {
        0
    };
    match read_digits(&s, from) {
        Some(v) => if v <= 0xffff {
            Some(v as u16)
        } else {
            None
        },
        None => None,
    }
}

/// Reads a signed decimal number of thirty-two bits.
pub fn parse_i32(text: &str) -> (r: Option<i32>)
    ensures
        match within(integer_value(text@), i32::MIN as int, i32::MAX as int) {
            Some(v) => r == Some(v as i32),
            None => r is None,
        },
{
    let s = chars_of(text);
    assert(s@.skip(0) =~= s@);
    assert(s@.len() > 0 ==> s@.skip(1) =~= s@.drop_first());
    let negative = s.len() > 0 && s[0] == '-';
    let from: usize = if s.len() > 0 && (s[0] == '+' || negative) {
        1
    } else {
        0
    };
    match read_digits(&s, from) {
        Some(v) => if negative {
            if v <= 0x8000_0000 {
                Some((0 - v as i64) as i32)
            } else {
                None
            }
        } else if v <= 0x7fff_ffff {
            Some(v as i32)
        } else {
            None
        },
        None => None,
    }
}

/// `part` is what remains of `s` when it is cut to `max` bytes of UTF-8: a
/// beginning that fits, and no longer one does.
pub open spec fn is_cut(s: Seq<char>, max: int, part: Seq<char>) -> bool {
    &&& part.is_prefix_of(s)
    &&& encode_utf8(part).len() <= max
    &&& part.len() < s.len() ==> encode_utf8(s.take((part.len() + 1) as int)).len() > max
}

pub(crate) proof fn lemma_is_cut(s: Seq<char>, max: nat)
    ensures
        is_cut(s, max as int, bounded(s, max)),
        encode_utf8(s).len() <= max ==> bounded(s, max) == s,
    decreases s.len(),
{
    bounded_text_fits(s, max);
    if !(encode_utf8(s).len() <= max || s.len() == 0) {
        let shorter = s.drop_last();
        lemma_is_cut(shorter, max);
        let n = bounded(shorter, max).len() as int;
        if n < shorter.len() {
            assert(shorter.take(n + 1) =~= s.take(n + 1));
        } else {
            assert(s.take(n + 1) =~= s);
        }
    }
}

/// A text is cut to the longest beginning that fits; one that fits stays
/// whole.
pub proof fn texts_are_cut_as_late_as_possible(text: &str, max: usize, r: String)
    requires
        call_ensures(truncate, (text, max), r),
    ensures
        r@.is_prefix_of(text@),
        encode_utf8(r@).len() <= max,
        encode_utf8(text@).len() <= max ==> r@ == text@,
        r@.len() < text@.len() ==> encode_utf8(text@.take((r@.len() + 1) as int)).len() > max,
{
    lemma_is_cut(text@, max as nat);
}

/// A number of one digit is written as that digit, and a longer one as all
/// but its last digit followed by the last one.
pub proof fn numbers_are_written_in_decimal(n: u64, r: String, head: String)
    requires
        call_ensures(format_decimal, (n,), r),
        call_ensures(format_decimal, (n / 10,), head),
    ensures
        r@.len() > 0,
        r@.last() as u32 == 48 + n % 10,
        n < 10 ==> r@.len() == 1,
        n >= 10 ==> r@.drop_last() == head@,
{
    assert(decimal(n as nat).last() == digit((n % 10) as int));
    if n >= 10 {
        assert(r@.drop_last() =~= decimal((n / 10) as nat));
    }
}

proof fn lemma_decimal_value(n: nat)
    ensures
        digits_value(decimal(n)) == Some(n as int),
        decimal(n).len() > 0,
        '0' <= decimal(n)[0] <= '9',
    decreases n,
{
    if n >= 10 {
        lemma_decimal_value(n / 10);
        let s = decimal(n);
        assert(s.drop_last() =~= decimal(n / 10));
        assert(s.last() == digit((n % 10) as int));
        assert(digit_value(digit((n % 10) as int)) == Some((n % 10) as int));
        assert(s[0] == decimal(n / 10)[0]);
    }
}

/// What is written in decimal reads back as the same number, after a plus
/// sign too, and after a minus sign as its negative. A number that does not
/// fit is refused.
pub proof fn written_numbers_read_back(
    n: u64,
    text: String,
    plain: &str,
    plus: &str,
    minus: &str,
    small: Option<u16>,
    small_plus: Option<u16>,
    small_minus: Option<u16>,
    positive: Option<i32>,
    positive_plus: Option<i32>,
    negative: Option<i32>,
)
    requires
        call_ensures(format_decimal, (n,), text),
        plain@ == text@,
        plus@ == seq!['+'] + text@,
        minus@ == seq!['-'] + text@,
        call_ensures(parse_u16, (plain,), small),
        call_ensures(parse_i32, (plain,), positive),
        call_ensures(parse_u16, (plus,), small_plus),
        call_ensures(parse_u16, (minus,), small_minus),
        call_ensures(parse_i32, (plus,), positive_plus),
        call_ensures(parse_i32, (minus,), negative),
    ensures
        small == if n <= 0xffff {
            Some(n as u16)
        } else {
            None
        },
        small_plus == small,
        small_minus is None,
        positive == if n <= 0x7fff_ffff {
            Some(n as i32)
        } else {
            None
        },
        positive_plus == positive,
        negative == if n <= 0x8000_0000 {
            Some((0 - n) as i32)
        } else {
            None
        },
{
    lemma_decimal_value(n as nat);
    assert(plus@.drop_first() =~= text@);
    assert(minus@.drop_first() =~= text@);
    assert(minus@.len() > 1);
    lemma_bad_first(minus@);
}

proof fn lemma_bad_first(s: Seq<char>)
    requires
        s.len() > 0,
        digit_value(s[0]) is None,
    ensures
        digits_value(s) is None,
{
    assert(s.take(1)[0] == s[0]);
    lemma_bad_prefix(s, 1);
}

/// Only runs of decimal digits after an optional sign are numbers: a text
/// with another character is none, and neither is one without digits.
pub proof fn other_texts_are_no_numbers(text: &str, at: int, small: Option<u16>, full: Option<i32>)
    requires
        call_ensures(parse_u16, (text,), small),
        call_ensures(parse_i32, (text,), full),
        (0 <= at < text@.len() && !('0' <= text@[at] <= '9') && (at > 0 || (text@[0] != '+'
            && text@[0] != '-'))) || text@.len() == 0 || (text@.len() == 1 && !('0' <= text@[0]
            <= '9')),
    ensures
        small is None,
        full is None,
{
    if text@.len() > 1 {
        let rest = text@.drop_first();
        if at > 0 {
            assert(rest[at - 1] == text@[at]);
            lemma_bad_digit(rest, at - 1);
        }
        lemma_bad_digit(text@, at);
    }
}

proof fn lemma_bad_digit(s: Seq<char>, at: int)
    requires
        0 <= at < s.len(),
        !('0' <= s[at] <= '9'),
    ensures
        digits_value(s) is None,
    decreases s.len(),
{
    if s.len() > 1 && at < s.len() - 1 {
        assert(s.drop_last()[at] == s[at]);
        lemma_bad_digit(s.drop_last(), at);
    }
}

/// Trimming removes white space at both ends, all of it and nothing else.
pub proof fn trimming_removes_white_space_around(s: Vec<char>, r: Vec<char>)
    requires
        call_ensures(trim, (&s,), r),
    ensures
        exists|from: int, to: int|
            {
                &&& 0 <= from <= to <= s@.len()
                &&& r@ == #[trigger] s@.subrange(from, to)
                &&& forall|i: int| 0 <= i < from || to <= i < s@.len() ==> white_space(
                    #[trigger] s@[i],
                )
            },
        r@.len() > 0 ==> !white_space(r@[0]) && !white_space(r@.last()),
{
    let from = lemma_trim_start(s@);
    let head = trim_start(s@);
    let len = lemma_trim_end(head);
    assert(head.take(len) =~= s@.subrange(from, from + len));
    assert forall|i: int| 0 <= i < from || from + len <= i < s@.len() implies white_space(
        #[trigger] s@[i],
    ) by {
        if i >= from + len {
            assert(head[i - from] == s@[i]);
        }
    }
    if r@.len() > 0 {
        assert(r@[0] == head[0]);
    }
}

proof fn lemma_trim_start(s: Seq<char>) -> (from: int)
    ensures
        0 <= from <= s.len(),
        trim_start(s) == s.skip(from),
        forall|i: int| 0 <= i < from ==> white_space(#[trigger] s[i]),
        from < s.len() ==> !white_space(s[from]),
    decreases s.len(),
{
    if s.len() > 0 && white_space(s[0]) {
        let rest = s.drop_first();
        let from = lemma_trim_start(rest) + 1;
        assert(rest.skip(from - 1) =~= s.skip(from));
        assert forall|i: int| 0 <= i < from implies white_space(#[trigger] s[i]) by {
            if i > 0 {
                assert(rest[i - 1] == s[i]);
            }
        }
        from
    } else {
        assert(s.skip(0) =~= s);
        0
    }
}

proof fn lemma_trim_end(s: Seq<char>) -> (len: int)
    ensures
        0 <= len <= s.len(),
        trim_end(s) == s.take(len),
        forall|i: int| len <= i < s.len() ==> white_space(#[trigger] s[i]),
        len > 0 ==> !white_space(s[len - 1]),
    decreases s.len(),
{
    if s.len() > 0 && white_space(s.last()) {
        let rest = s.drop_last();
        let len = lemma_trim_end(rest);
        assert(rest.take(len) =~= s.take(len));
        assert forall|i: int| len <= i < s.len() implies white_space(#[trigger] s[i]) by {
            if i < rest.len() {
                assert(rest[i] == s[i]);
            }
        }
        len
    } else {
        assert(s.take(s.len() as int) =~= s);
        s.len() as int
    }
}

/// White space are the characters that Unicode calls so.
pub proof fn white_space_is_unicode_white_space(c: char, r: bool)
    requires
        call_ensures(is_white_space, (c,), r),
    ensures
        c == ' ' || c == '\t' || c == '\n' || c == '\r' ==> r,
        0x21 <= c as u32 <= 0x7e ==> !r,
        r <==> set![
            0x9u32, 0xau32, 0xbu32, 0xcu32, 0xdu32, 0x20u32, 0x85u32, 0xa0u32, 0x1680u32, 0x2000u32,
            0x2001u32, 0x2002u32, 0x2003u32, 0x2004u32, 0x2005u32, 0x2006u32, 0x2007u32, 0x2008u32,
            0x2009u32, 0x200au32, 0x2028u32, 0x2029u32, 0x202fu32, 0x205fu32, 0x3000u32,
        ].contains(c as u32),
{
}

proof fn lemma_line_end_of(a: Seq<char>, b: Seq<char>)
    requires
        forall|i: int| 0 <= i < a.len() ==> #[trigger] a[i] != '\n',
    ensures
        line_end(a) == a.len(),
        line_end(a + seq!['\n'] + b) == a.len(),
    decreases a.len(),
{
    let s = a + seq!['\n'] + b;
    if a.len() > 0 {
        assert forall|i: int| 0 <= i < a.drop_first().len() implies #[trigger] a.drop_first()[i]
            != '\n' by {
            assert(a.drop_first()[i] == a[i + 1]);
        }
        lemma_line_end_of(a.drop_first(), b);
        assert(s.drop_first() =~= a.drop_first() + seq!['\n'] + b);
        assert(s[0] == a[0]);
    } else {
        assert(s[0] == '\n');
    }
}

/// A text without line feeds is one line, unless it is empty: then it has
/// none. Of other texts the first line is what stands before the first line
/// feed, without the carriage return that may end it, and the others are the
/// lines of what follows.
pub proof fn lines_end_at_line_feeds(
    text: Vec<char>,
    line: Seq<char>,
    rest: Vec<char>,
    all: Vec<Vec<char>>,
    others: Vec<Vec<char>>,
)
    requires
        forall|i: int| 0 <= i < line.len() ==> #[trigger] line[i] != '\n',
        call_ensures(lines, (&text,), all),
        call_ensures(lines, (&rest,), others),
    ensures
        text@ == line ==> (line.len() == 0 ==> all@.len() == 0) && (line.len() > 0 ==> all@.len()
            == 1 && all@[0]@ == line),
        text@ == line + seq!['\n'] + rest@ ==> {
            &&& all@.len() == 1 + others@.len()
            &&& line.len() > 0 && line.last() == '\r' ==> all@[0]@ == line.drop_last()
            &&& line.len() == 0 || line.last() != '\r' ==> all@[0]@ == line
            &&& forall|i: int| 0 <= i < others@.len() ==> (#[trigger] all@[i + 1])@ == others@[i]@
        },
{
    lemma_line_end_of(line, rest@);
    assert(texts(all@).len() == all@.len());
    assert(texts(others@).len() == others@.len());
    if text@ == line && line.len() > 0 {
        assert(texts(all@)[0] == all@[0]@);
    }
    if text@ == line + seq!['\n'] + rest@ {
        let s = text@;
        assert(s.take(line.len() as int) =~= line);
        assert(s.skip((line.len() + 1) as int) =~= rest@);
        assert(lines_of(s) == seq![without_return(line)] + lines_of(rest@));
        assert(texts(all@)[0] == all@[0]@);
        assert forall|i: int| 0 <= i < others@.len() implies (#[trigger] all@[i + 1])@
            == others@[i]@ by {
            assert(texts(all@)[i + 1] == texts(others@)[i]);
        }
    }
}

/// The characters of a text make up the same text again.
pub proof fn characters_make_up_their_text(text: &str, chars: Vec<char>, back: String)
    requires
        call_ensures(chars_of, (text,), chars),
        call_ensures(string_of, (&chars,), back),
    ensures
        chars@.len() == text@.len(),
        forall|i: int| 0 <= i < chars@.len() ==> #[trigger] chars@[i] == text@[i],
        back@ == text@,
{
}

/// Texts and bytes are the same exactly if they are as long and nowhere
/// different.
pub proof fn same_means_nowhere_different(
    a: &str,
    b: &str,
    r: bool,
    x: &Vec<char>,
    y: &Vec<char>,
    r2: bool,
    p: &[u8],
    q: &[u8],
    r3: bool,
    i: int,
)
    requires
        call_ensures(equal, (a, b), r),
        call_ensures(same_text, (x, y), r2),
        call_ensures(same_bytes, (p, q), r3),
    ensures
        r && 0 <= i < a@.len() ==> a@.len() == b@.len() && a@[i] == b@[i],
        !r && a@.len() == b@.len() ==> exists|k: int| 0 <= k < a@.len() && a@[k] != b@[k],
        r2 && 0 <= i < x@.len() ==> x@.len() == y@.len() && x@[i] == y@[i],
        !r2 && x@.len() == y@.len() ==> exists|k: int| 0 <= k < x@.len() && x@[k] != y@[k],
        r3 && 0 <= i < p@.len() ==> p@.len() == q@.len() && p@[i] == q@[i],
        !r3 && p@.len() == q@.len() ==> exists|k: int| 0 <= k < p@.len() && p@[k] != q@[k],
{
    if !r && a@.len() == b@.len() && !(exists|k: int| 0 <= k < a@.len() && a@[k] != b@[k]) {
        assert(a@ =~= b@);
    }
    if !r2 && x@.len() == y@.len() && !(exists|k: int| 0 <= k < x@.len() && x@[k] != y@[k]) {
        assert(x@ =~= y@);
    }
    if !r3 && p@.len() == q@.len() && !(exists|k: int| 0 <= k < p@.len() && p@[k] != q@[k]) {
        assert(p@ =~= q@);
    }
}

/// What is appended stands at the end, and nothing before it changes.
pub proof fn appended_text_stands_at_the_end(text: &mut String, more: &str)
    requires
        call_ensures(append, (text, more), ()),
    ensures
        final(text)@.len() == old(text)@.len() + more@.len(),
        old(text)@.is_prefix_of(final(text)@),
        final(text)@.skip(old(text)@.len() as int) == more@,
{
    assert(final(text)@.skip(old(text)@.len() as int) =~= more@);
}

} // verus!
