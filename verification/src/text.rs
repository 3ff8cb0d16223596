//! Plain text: white space, fields, and numbers in decimal digits.
//!
//! The functions here do on sequences of characters what the codecs and
//! the configuration need of text: trimming, splitting at a separator,
//! and reading and writing numbers.

use vstd::prelude::*;
use vstd::string::{StrSliceExecFns, StringExecFns};

verus! {

/// True for the characters that Unicode calls white space.
pub open spec fn is_space(c: char) -> bool {
    let u = c as u32;
    (0x09 <= u <= 0x0D) || u == 0x20 || u == 0x85 || u == 0xA0 || u == 0x1680 || (0x2000 <= u
        <= 0x200A) || u == 0x2028 || u == 0x2029 || u == 0x202F || u == 0x205F || u == 0x3000
}

/// A text without the white space at its two ends.
pub open spec fn trimmed(s: Seq<char>) -> Seq<char>
    decreases s.len(),
{
    if s.len() == 0 {
        s
    } else if is_space(s[0]) {
        trimmed(s.drop_first())
    } else if is_space(s.last()) {
        trimmed(s.drop_last())
    } else {
        s
    }
}

/// The fields of a text: the stretches between separators, in order. A
/// text with n separators has n + 1 fields, some of them empty perhaps.
pub open spec fn fields(s: Seq<char>, separator: char) -> Seq<Seq<char>>
    decreases s.len(),
{
    if s.len() == 0 {
        seq![Seq::empty()]
    } else {
        let before = fields(s.drop_last(), separator);
        if s.last() == separator {
            before.push(Seq::empty())
        } else {
            before.update(before.len() - 1, before.last().push(s.last()))
        }
    }
}

/// The fields of a text, each trimmed.
pub open spec fn tokens_of(s: Seq<char>, separator: char) -> Seq<Seq<char>> {
    Seq::new(fields(s, separator).len(), |i: int| trimmed(fields(s, separator)[i]))
}

/// True for the ten decimal digits.
pub open spec fn is_digit(c: char) -> bool {
    '0' <= c <= '9'
}

/// True when every character is a decimal digit.
pub open spec fn all_digits(s: Seq<char>) -> bool {
    forall|i: int| 0 <= i < s.len() ==> is_digit(#[trigger] s[i])
}

/// The number that a run of decimal digits spells.
pub open spec fn number(s: Seq<char>) -> int
    decreases s.len(),
{
    if s.len() == 0 {
        0
    } else {
        number(s.drop_last()) * 10 + (s.last() as int - '0' as int)
    }
}

/// The number that a run of decimal digits spells, if the run is not
/// empty and the number is at most `max`.
pub open spec fn digits_value(digits: Seq<char>, max: u64) -> Option<u64> {
    if digits.len() > 0 && all_digits(digits) && number(digits) <= max {
        Some(number(digits) as u64)
    } else {
        None
    }
}

/// The number that a text spells: one or more decimal digits, after a plus
/// sign perhaps, whose number is at most `max`.
pub open spec fn parsed_number(s: Seq<char>, max: u64) -> Option<u64> {
    if s.len() > 0 && s[0] == '+' {
        digits_value(s.drop_first(), max)
    } else {
        digits_value(s, max)
    }
}

/// The views of texts, in order.
pub open spec fn texts_view(texts: Seq<String>) -> Seq<Seq<char>> {
    Seq::new(texts.len(), |i: int| texts[i]@)
}

/// The character of a decimal digit.
pub open spec fn digit_char(d: int) -> char {
    (d + 48) as u8 as char
}

/// A number written in decimal digits, without leading zeros.
pub open spec fn decimal(n: nat) -> Seq<char>
    decreases n,
{
    if n < 10 {
        seq![digit_char(n as int)]
    } else {
        decimal(n / 10).push(digit_char((n % 10) as int))
    }
}

/// The characters of a text, in order.
pub fn chars_of(text: &str) -> (chars: Vec<char>)
    ensures
        chars@ == text@,
{
    let mut chars: Vec<char> = Vec::new();
    for c in it: text.chars()
        invariant
            it.seq() == text@,
            chars@ == it.seq().take(it.index()),
    {
        chars.push(c);
        proof {
            assert(it.seq().take(it.index() + 1) =~= it.seq().take(it.index()).push(c));
        }
    }
    proof {
        assert(text@.take(text@.len() as int) =~= text@);
    }
    chars
}

/// Tells whether a character is white space.
fn is_space_char(c: char) -> (b: bool)
    ensures
        b == is_space(c),
{
    let u = c as u32;
    (0x09 <= u && u <= 0x0D) || u == 0x20 || u == 0x85 || u == 0xA0 || u == 0x1680 || (0x2000 <= u
        && u <= 0x200A) || u == 0x2028 || u == 0x2029 || u == 0x202F || u == 0x205F || u == 0x3000
}

/// Between `a` and `b` stands the text without the white space at its
/// ends, where only white space stands before `a` and from `b` on, and the
/// stretch between them neither starts nor ends with white space.
pub proof fn lemma_trimmed_between(s: Seq<char>, a: int, b: int)
    requires
        0 <= a <= b <= s.len(),
        forall|i: int| 0 <= i < a ==> is_space(#[trigger] s[i]),
        forall|i: int| b <= i < s.len() ==> is_space(#[trigger] s[i]),
        a < b ==> !is_space(s[a]) && !is_space(s[b - 1]),
    ensures
        trimmed(s) == s.subrange(a, b),
    decreases s.len(),
{
    if s.len() == 0 {
        assert(s.subrange(a, b) =~= s);
    } else if is_space(s[0]) {
        let rest = s.drop_first();
        if a == 0 {
            assert(b == 0);
            lemma_trimmed_between(rest, 0, 0);
            assert(rest.subrange(0, 0) =~= s.subrange(a, b));
        } else {
            assert forall|i: int| 0 <= i < a - 1 implies is_space(#[trigger] rest[i]) by {
                assert(rest[i] == s[i + 1]);
            }
            assert forall|i: int| b - 1 <= i < rest.len() implies is_space(#[trigger] rest[i]) by {
                assert(rest[i] == s[i + 1]);
            }
            lemma_trimmed_between(rest, a - 1, b - 1);
            assert(rest.subrange(a - 1, b - 1) =~= s.subrange(a, b));
        }
    } else {
        assert(a == 0);
        assert(b > 0);
        if is_space(s.last()) {
            let rest = s.drop_last();
            assert(b < s.len());
            assert forall|i: int| b <= i < rest.len() implies is_space(#[trigger] rest[i]) by {
                assert(rest[i] == s[i]);
            }
            lemma_trimmed_between(rest, 0, b);
            assert(rest.subrange(0, b) =~= s.subrange(a, b));
        } else {
            assert(b == s.len());
            assert(s.subrange(a, b) =~= s);
        }
    }
}

/// Where the stretch of `chars` from `from` to `to` starts and ends once
/// the white space at its ends is left out.
fn trim_bounds(chars: &Vec<char>, from: usize, to: usize) -> (bounds: (usize, usize))
    requires
        from <= to <= chars.len(),
    ensures
        from <= bounds.0 <= bounds.1 <= to,
        chars@.subrange(bounds.0 as int, bounds.1 as int) == trimmed(
            chars@.subrange(from as int, to as int),
        ),
{
    let ghost s = chars@.subrange(from as int, to as int);
    let mut a = from;
    while a < to && is_space_char(chars[a])
        invariant
            from <= a <= to <= chars.len(),
            forall|i: int| from <= i < a ==> is_space(#[trigger] chars@[i]),
        decreases to - a,
    {
        a += 1;
    }
    let mut b = to;
    while b > a && is_space_char(chars[b - 1])
        invariant
            a <= b <= to <= chars.len(),
            forall|i: int| b <= i < to ==> is_space(#[trigger] chars@[i]),
        decreases b - a,
    {
        b -= 1;
    }
    proof {
        assert forall|i: int| 0 <= i < a - from implies is_space(#[trigger] s[i]) by {
            assert(s[i] == chars@[from + i]);
        }
        assert forall|i: int| b - from <= i < s.len() implies is_space(#[trigger] s[i]) by {
            assert(s[i] == chars@[from + i]);
        }
        lemma_trimmed_between(s, a - from, b - from);
        assert(s.subrange(a - from, b - from) =~= chars@.subrange(a as int, b as int));
    }
    (a, b)
}

/// A text without the white space at its two ends.
pub fn trim(text: &str) -> (inner: &str)
    ensures
        inner@ == trimmed(text@),
{
    let chars = chars_of(text);
    let (a, b) = trim_bounds(&chars, 0, chars.len());
    proof {
        assert(chars@.subrange(0, chars.len() as int) =~= chars@);
    }
    text.substring_char(a, b)
}

/// Splits a text at each `separator`.
pub fn split(s: &str, separator: char) -> (parts: Vec<String>)
    ensures
        texts_view(parts@) == fields(s@, separator),
{
    let chars = chars_of(s);
    let mut parts: Vec<String> = Vec::new();
    let mut start: usize = 0;
    let mut i: usize = 0;
    proof {
        assert(chars@.take(0) =~= Seq::<char>::empty());
        assert(fields(chars@.take(0), separator) =~= texts_view(parts@).push(
            chars@.subrange(0, 0),
        ));
    }
    while i < chars.len()
        invariant
            chars@ == s@,
            start <= i <= chars.len(),
            fields(chars@.take(i as int), separator) == texts_view(parts@).push(
                chars@.subrange(start as int, i as int),
            ),
        decreases chars.len() - i,
    {
        let ghost before = fields(chars@.take(i as int), separator);
        let ghost done = texts_view(parts@);
        proof {
            assert(chars@.take(i + 1).drop_last() =~= chars@.take(i as int));
            assert(chars@.take(i + 1).last() == chars@[i as int]);
        }
        if chars[i] == separator {
            parts.push(s.substring_char(start, i).to_owned());
            proof {
                assert(texts_view(parts@) =~= done.push(chars@.subrange(start as int, i as int)));
                assert(chars@.subrange(i + 1, i + 1) =~= Seq::<char>::empty());
                assert(fields(chars@.take(i + 1), separator) == before.push(Seq::empty()));
            }
            start = i + 1;
        } else {
            proof {
                assert(chars@.subrange(start as int, i + 1) =~= chars@.subrange(
                    start as int,
                    i as int,
                ).push(chars@[i as int]));
                assert(fields(chars@.take(i + 1), separator) =~= done.push(
                    chars@.subrange(start as int, i + 1),
                ));
            }
        }
        i += 1;
    }
    let ghost done = texts_view(parts@);
    parts.push(s.substring_char(start, chars.len()).to_owned());
    proof {
        assert(chars@.take(chars.len() as int) =~= chars@);
        assert(texts_view(parts@) =~= done.push(
            chars@.subrange(start as int, chars.len() as int),
        ));
    }
    parts
}

/// A text has at least one field.
pub proof fn lemma_fields_not_empty(s: Seq<char>, separator: char)
    ensures
        fields(s, separator).len() >= 1,
    decreases s.len(),
{
    if s.len() > 0 {
        lemma_fields_not_empty(s.drop_last(), separator);
    }
}

/// The number of a run of digits is not negative.
proof fn lemma_number_not_negative(s: Seq<char>)
    requires
        all_digits(s),
    ensures
        0 <= number(s),
    decreases s.len(),
{
    if s.len() > 0 {
        assert(all_digits(s.drop_last())) by {
            assert forall|i: int| 0 <= i < s.drop_last().len() implies is_digit(
                #[trigger] s.drop_last()[i],
            ) by {
                assert(s.drop_last()[i] == s[i]);
            }
        }
        lemma_number_not_negative(s.drop_last());
        assert(is_digit(s[s.len() - 1]));
    }
}

/// The number of a longer run of digits is at least ten times that of a
/// run it starts with, and never less.
proof fn lemma_number_grows(s: Seq<char>, n: int)
    requires
        all_digits(s),
        0 <= n <= s.len(),
    ensures
        0 <= number(s.take(n)) <= number(s),
    decreases s.len() - n,
{
    if n == 0 {
        assert(s.take(0) =~= Seq::<char>::empty());
        lemma_number_not_negative(s);
    } else if n < s.len() {
        lemma_number_grows(s, n + 1);
        assert(s.take(n + 1).drop_last() =~= s.take(n));
        lemma_number_not_negative(s.take(n));
        assert(is_digit(s[n]));
        assert(s.take(n + 1).last() == s[n]);
    } else {
        assert(s.take(n) =~= s);
        lemma_number_not_negative(s);
    }
}

/// Reads a number written in decimal digits, with a plus sign before them
/// perhaps, that is at most `max`.
pub fn parse_number(s: &str, max: u64) -> (r: Option<u64>)
    ensures
        r == parsed_number(s@, max),
{
    let chars = chars_of(s);
    let start: usize = if chars.len() > 0 && chars[0] == '+' {
        1
    } else {
        0
    };
    let ghost digits = chars@.subrange(start as int, chars.len() as int);
    proof {
        if start == 1 {
            assert(digits =~= s@.drop_first());
        } else {
            assert(digits =~= s@);
        }
    }
    if start == chars.len() {
        return None;
    }
    let mut value: u64 = 0;
    let mut i: usize = start;
    proof {
        assert(digits.take(0) =~= Seq::<char>::empty());
    }
    while i < chars.len()
        invariant
            start <= i <= chars.len(),
            digits == chars@.subrange(start as int, chars.len() as int),
            parsed_number(s@, max) == digits_value(digits, max),
            all_digits(digits.take(i - start)),
            value == number(digits.take(i - start)),
            value <= max,
        decreases chars.len() - i,
    {
        let c = chars[i];
        let ghost shorter = digits.take(i - start);
        let ghost longer = digits.take(i - start + 1);
        proof {
            assert(longer.drop_last() =~= shorter);
            assert(longer.last() == c);
        }
        if !('0' <= c && c <= '9') {
            proof {
                assert(!is_digit(digits[i - start]));
            }
            return None;
        }
        proof {
            assert forall|k: int| 0 <= k < longer.len() implies is_digit(#[trigger] longer[k]) by {
                if k < shorter.len() {
                    assert(longer[k] == shorter[k]);
                }
            }
        }
        let digit = ((c as u32) - ('0' as u32)) as u64;
        let next = match value.checked_mul(10) {
            Some(tens) => tens.checked_add(digit),
            None => None,
        };
        let fits = match next {
            Some(next) => next <= max,
            None => false,
        };
        if !fits {
            proof {
                if all_digits(digits) {
                    lemma_number_grows(digits, i - start + 1);
                }
            }
            return None;
        }
        value = next.unwrap();
        i += 1;
    }
    proof {
        assert(digits.take(i - start) =~= digits);
    }
    Some(value)
}

/// The text of one decimal digit.
fn digit_text(d: u32) -> (text: &'static str)
    requires
        d < 10,
    ensures
        text@ == seq![digit_char(d as int)],
{
    proof {
        reveal_strlit("0");
        reveal_strlit("1");
        reveal_strlit("2");
        reveal_strlit("3");
        reveal_strlit("4");
        reveal_strlit("5");
        reveal_strlit("6");
        reveal_strlit("7");
        reveal_strlit("8");
        reveal_strlit("9");
    }
    let text = match d {
        0 => "0",
        1 => "1",
        2 => "2",
        3 => "3",
        4 => "4",
        5 => "5",
        6 => "6",
        7 => "7",
        8 => "8",
        _ => "9",
    };
    proof {
        assert(text@ =~= seq![digit_char(d as int)]);
    }
    text
}

/// Appends a number in decimal digits.
pub fn push_decimal(out: &mut String, v: u32)
    ensures
        final(out)@ == old(out)@ + decimal(v as nat),
    decreases v,
{
    if v >= 10 {
        push_decimal(out, v / 10);
    }
    out.append(digit_text(v % 10));
    proof {
        assert(out@ =~= old(out)@ + decimal(v as nat));
    }
}

/// The decimal digits of a number are digits, at least one, and spell the
/// number.
pub proof fn lemma_decimal_is_number(n: nat)
    ensures
        decimal(n).len() > 0,
        all_digits(decimal(n)),
        number(decimal(n)) == n,
    decreases n,
{
    if n < 10 {
        let text = decimal(n);
        assert(text.drop_last() =~= Seq::<char>::empty());
        assert(number(text.drop_last()) == 0);
        assert(is_digit(digit_char(n as int)));
    } else {
        lemma_decimal_is_number(n / 10);
        let shorter = decimal(n / 10);
        let text = decimal(n);
        assert(text.drop_last() =~= shorter);
        assert(is_digit(digit_char((n % 10) as int)));
        assert forall|i: int| 0 <= i < text.len() implies is_digit(#[trigger] text[i]) by {
            if i < shorter.len() {
                assert(text[i] == shorter[i]);
            }
        }
    }
}

/// The decimal digits of a number spell that number: what is written is
/// read back, if the number is at most `max`.
pub proof fn lemma_decimal_round_trip(v: u32, max: u64)
    requires
        v <= max,
    ensures
        parsed_number(decimal(v as nat), max) == Some(v as u64),
{
    lemma_decimal_is_number(v as nat);
    let text = decimal(v as nat);
    assert(is_digit(text[0]));
}

} // verus!
