//! Text: characters of a string, numbers in decimal and hexadecimal, file
//! names of Windows paths, and thread names without their numbers.

use vstd::prelude::*;
use vstd::string::StrSliceExecFns;

verus! {

/// `str`'s `==` compares the two strings character by character.
pub assume_specification[ <str as PartialEq>::eq ](a: &str, b: &str) -> (equal: bool)
    ensures
        equal == (a@ == b@),
;

/// `String::push` appends one character to the string.
pub assume_specification[ String::push ](text: &mut String, c: char)
    ensures
        final(text)@ == old(text)@.push(c),
;

/// The characters of a string.
pub fn chars_of(text: &str) -> (chars: Vec<char>)
    ensures
        chars@ == text@,
{
    let mut chars: Vec<char> = Vec::new();
    let n: usize = text.unicode_len();
    let mut i: usize = 0;
    while i < n
        invariant
            n == text@.len(),
            i <= n,
            chars@ == text@.take(i as int),
        decreases n - i,
    {
        chars.push(text.get_char(i));
        i += 1;
    }
    assert(text@.take(n as int) == text@);
    chars
}

/// The string that holds the given characters.
pub fn string_of(chars: &Vec<char>) -> (text: String)
    ensures
        text@ == chars@,
{
    let mut text = String::new();
    let mut i: usize = 0;
    while i < chars.len()
        invariant
            i <= chars.len(),
            text@ == chars@.take(i as int),
        decreases chars.len() - i,
    {
        text.push(chars[i]);
        i += 1;
    }
    assert(chars@.take(chars.len() as int) == chars@);
    text
}

/// Whether two strings hold the same characters.
pub fn same_text(a: &str, b: &str) -> (equal: bool)
    ensures
        equal == (a@ == b@),
{
    *a == *b
}

/// Whether `needle` stands in `text` at position `at`.
pub open spec fn text_at(text: Seq<char>, needle: Seq<char>, at: int) -> bool {
    0 <= at && at + needle.len() <= text.len() && text.subrange(at, at + needle.len()) == needle
}

/// Whether `needle` stands somewhere in `text`.
pub open spec fn contains_text(text: Seq<char>, needle: Seq<char>) -> bool {
    exists|at: int| text_at(text, needle, at)
}

/// Whether `text` begins with `prefix`.
pub open spec fn has_prefix(text: Seq<char>, prefix: Seq<char>) -> bool {
    text_at(text, prefix, 0)
}

/// Whether `needle` stands in `text` at position `at`.
pub fn matches_at(text: &Vec<char>, needle: &Vec<char>, at: usize) -> (found: bool)
    ensures
        found == text_at(text@, needle@, at as int),
{
    if at > text.len() || needle.len() > text.len() - at {
        return false;
    }
    let mut j: usize = 0;
    while j < needle.len()
        invariant
            j <= needle.len(),
            at + needle.len() <= text.len(),
            text@.subrange(at as int, at + j) == needle@.take(j as int),
        decreases needle.len() - j,
    {
        if text[at + j] != needle[j] {
            proof {
                let part = text@.subrange(at as int, at + needle.len());
                assert(part[j as int] == text@[at + j]);
            }
            return false;
        }
        proof {
            assert(text@.subrange(at as int, at + j + 1) == text@.subrange(at as int, at + j).push(
                text@[at + j],
            ));
            assert(needle@.take(j + 1) == needle@.take(j as int).push(needle@[j as int]));
        }
        j += 1;
    }
    assert(needle@.take(needle.len() as int) == needle@);
    true
}

/// Whether `needle` stands somewhere in `text`.
pub fn find_text(text: &Vec<char>, needle: &Vec<char>) -> (found: bool)
    ensures
        found == contains_text(text@, needle@),
{
    if needle.len() > text.len() {
        return false;
    }
    let last: usize = text.len() - needle.len();
    let mut at: usize = 0;
    loop
        invariant
            last == text.len() - needle.len(),
            at <= last,
            forall|k: int| 0 <= k < at ==> !text_at(text@, needle@, k),
        decreases last - at,
    {
        if matches_at(text, needle, at) {
            return true;
        }
        if at == last {
            return false;
        }
        at += 1;
    }
}

/// Whether the text of `text` holds the text of `needle`.
pub fn text_contains(text: &str, needle: &str) -> (found: bool)
    ensures
        found == contains_text(text@, needle@),
{
    let text_chars = chars_of(text);
    let needle_chars = chars_of(needle);
    find_text(&text_chars, &needle_chars)
}

/// The position of the first `c` in `text` at or after `from`; the length
/// of `text` if there is none.
pub open spec fn first_at_or_after(text: Seq<char>, c: char, from: int) -> int
    decreases text.len() - from,
{
    if from < 0 || from >= text.len() {
        text.len() as int
    } else if text[from] == c {
        from
    } else {
        first_at_or_after(text, c, from + 1)
    }
}

/// The position of the first `c` in `text`; the length of `text` if there
/// is none.
pub fn find_char(text: &Vec<char>, c: char) -> (at: usize)
    ensures
        at == first_at_or_after(text@, c, 0),
        at <= text.len(),
{
    let mut at: usize = 0;
    while at < text.len() && text[at] != c
        invariant
            at <= text.len(),
            first_at_or_after(text@, c, 0) == first_at_or_after(text@, c, at as int),
        decreases text.len() - at,
    {
        at += 1;
    }
    at
}

/// Whether a character is white space, as Unicode defines it.
pub open spec fn is_white_space(c: char) -> bool {
    let n = c as u32;
    (0x09 <= n <= 0x0d) || n == 0x20 || n == 0x85 || n == 0xa0 || n == 0x1680 || (0x2000 <= n
        <= 0x200a) || n == 0x2028 || n == 0x2029 || n == 0x202f || n == 0x205f || n == 0x3000
}

pub fn white_space(c: char) -> (white: bool)
    ensures
        white == is_white_space(c),
{
    let n: u32 = c as u32;
    (0x09 <= n && n <= 0x0d) || n == 0x20 || n == 0x85 || n == 0xa0 || n == 0x1680 || (0x2000 <= n
        && n <= 0x200a) || n == 0x2028 || n == 0x2029 || n == 0x202f || n == 0x205f || n == 0x3000
}

/// Where the text begins once the white space in front of it, from `from`
/// on, is left out.
pub open spec fn trimmed_start(text: Seq<char>, from: int) -> int
    decreases text.len() - from,
{
    if from < 0 || from >= text.len() {
        text.len() as int
    } else if !is_white_space(text[from]) {
        from
    } else {
        trimmed_start(text, from + 1)
    }
}

/// Where the text ends once the white space at its end, back to `floor`,
/// is left out.
pub open spec fn trimmed_end(text: Seq<char>, to: int, floor: int) -> int
    decreases to,
{
    if to <= floor || to <= 0 || to > text.len() {
        floor
    } else if !is_white_space(text[to - 1]) {
        to
    } else {
        trimmed_end(text, to - 1, floor)
    }
}

/// The text without the white space at its two ends.
pub open spec fn trimmed(text: Seq<char>) -> Seq<char> {
    let start = trimmed_start(text, 0);
    text.subrange(start, trimmed_end(text, text.len() as int, start))
}

/// Whether a character is a decimal digit.
pub open spec fn is_digit(c: char) -> bool {
    0x30 <= c as u32 <= 0x39
}

/// The number that a text of decimal digits stands for.
pub open spec fn digits_value(digits: Seq<char>) -> int
    decreases digits.len(),
{
    if digits.len() == 0 {
        0
    } else {
        digits_value(digits.drop_last()) * 10 + (digits.last() as u32 - 0x30)
    }
}

/// Whether the text is made of decimal digits only.
pub open spec fn all_digits(text: Seq<char>) -> bool {
    forall|i: int| 0 <= i < text.len() ==> is_digit(#[trigger] text[i])
}

/// Whether the text is a number that fits 32 bits with a sign: decimal
/// digits, at least one, with `+` or `-` in front of them or neither.
pub open spec fn is_i32_text(text: Seq<char>) -> bool {
    let negative = text.len() > 0 && text[0] == '-';
    let signed = text.len() > 0 && (text[0] == '-' || text[0] == '+');
    let digits = if signed {
        text.skip(1)
    } else {
        text
    };
    &&& digits.len() > 0
    &&& all_digits(digits)
    &&& if negative {
        digits_value(digits) <= 0x8000_0000
    } else {
        digits_value(digits) <= 0x7fff_ffff
    }
}

/// Whether the characters of `text` from `from` on are a number that fits
/// 32 bits with a sign.
pub fn parses_as_i32(text: &Vec<char>, from: usize) -> (ok: bool)
    requires
        from <= text.len(),
    ensures
        ok == is_i32_text(text@.skip(from as int)),
{
    let ghost rest = text@.skip(from as int);
    let mut i: usize = from;
    let mut negative: bool = false;
    if i < text.len() && (text[i] == '-' || text[i] == '+') {
        negative = text[i] == '-';
        i += 1;
    }
    let ghost digits = text@.skip(i as int);
    proof {
        if i > from {
            assert(rest[0] == text@[from as int]);
            assert(rest.skip(1) == digits);
        } else if from < text.len() {
            assert(rest[0] == text@[from as int]);
        }
    }
    if i >= text.len() {
        return false;
    }
    let start: usize = i;
    let mut value: u64 = 0;
    assert(digits.take(0) == Seq::<char>::empty());
    assert(is_i32_text(rest) == (digits.len() > 0 && all_digits(digits) && if negative {
        digits_value(digits) <= 0x8000_0000
    } else {
        digits_value(digits) <= 0x7fff_ffff
    }));
    while i < text.len()
        invariant
            start <= i <= text.len(),
            digits == text@.skip(start as int),
            rest == text@.skip(from as int),
            is_i32_text(rest) == (digits.len() > 0 && all_digits(digits) && if negative {
                digits_value(digits) <= 0x8000_0000
            } else {
                digits_value(digits) <= 0x7fff_ffff
            }),
            all_digits(digits.take(i - start)),
            value <= 0x8000_0001,
            value == if digits_value(digits.take(i - start)) <= 0x8000_0001 {
                digits_value(digits.take(i - start))
            } else {
                0x8000_0001
            },
        decreases text.len() - i,
    {
        let c: char = text[i];
        let n: u32 = c as u32;
        proof {
            let next = digits.take(i - start + 1);
            assert(next.drop_last() == digits.take(i - start));
            assert(next.last() == c);
            lemma_digits_value_is_not_negative(digits.take(i - start));
        }
        if n < 0x30 || n > 0x39 {
            proof {
                assert(digits[i - start] == c);
                assert(!is_digit(digits[i - start]));
            }
            return false;
        }
        let grown: u64 = value * 10 + (n - 0x30) as u64;
        value = if grown > 0x8000_0001 {
            0x8000_0001
        } else {
            grown
        };
        proof {
            let next = digits.take(i - start + 1);
            assert forall|k: int| 0 <= k < next.len() implies is_digit(#[trigger] next[k]) by {
                if k < i - start {
                    assert(next[k] == digits.take(i - start)[k]);
                }
            }
        }
        i += 1;
    }
    assert(digits.take(i - start) == digits);
    if negative {
        value <= 0x8000_0000
    } else {
        value <= 0x7fff_ffff
    }
}

/// The value of a text of digits is not negative.
pub proof fn lemma_digits_value_is_not_negative(digits: Seq<char>)
    requires
        all_digits(digits),
    ensures
        digits_value(digits) >= 0,
    decreases digits.len(),
{
    if digits.len() > 0 {
        assert forall|i: int| 0 <= i < digits.drop_last().len() implies is_digit(
            #[trigger] digits.drop_last()[i],
        ) by {
            assert(digits.drop_last()[i] == digits[i]);
        }
        lemma_digits_value_is_not_negative(digits.drop_last());
        assert(is_digit(digits[digits.len() - 1]));
    }
}

/// The position of the last `c` in `text` before `to`; -1 if there is
/// none.
pub open spec fn last_before(text: Seq<char>, c: char, to: int) -> int
    decreases to,
{
    if to <= 0 || to > text.len() {
        -1
    } else if text[to - 1] == c {
        to - 1
    } else {
        last_before(text, c, to - 1)
    }
}

/// The position of the last `c` in `text`, if there is one.
pub fn find_last_char(text: &Vec<char>, c: char) -> (at: Option<usize>)
    ensures
        match at {
            Some(i) => i < text.len() && i == last_before(text@, c, text@.len() as int),
            None => last_before(text@, c, text@.len() as int) == -1,
        },
{
    let mut to: usize = text.len();
    while to > 0
        invariant
            to <= text.len(),
            last_before(text@, c, text@.len() as int) == last_before(text@, c, to as int),
        decreases to,
    {
        if text[to - 1] == c {
            return Some(to - 1);
        }
        to -= 1;
    }
    None
}

/// A thread name without the number at its end: where the text behind
/// the last `#` is a number, the name is what stands before that `#`,
/// without the white space at its ends. Any other name stays.
pub open spec fn stripped_thread_name(name: Seq<char>) -> Seq<char> {
    let hash = last_before(name, '#', name.len() as int);
    if hash >= 0 && is_i32_text(name.skip(hash + 1)) {
        trimmed(name.take(hash))
    } else {
        name
    }
}

pub fn strip_thread_numbers(name: &str) -> (stripped: &str)
    ensures
        stripped@ == stripped_thread_name(name@),
{
    let chars = chars_of(name);
    let hash: usize = match find_last_char(&chars, '#') {
        Some(hash) => hash,
        None => {
            return name;
        },
    };
    if parses_as_i32(&chars, hash + 1) {
        let ghost front = name@.take(hash as int);
        let mut start: usize = 0;
        while start < hash && white_space(chars[start])
            invariant
                start <= hash <= chars.len(),
                chars@ == name@,
                front == name@.take(hash as int),
                trimmed_start(front, 0) == trimmed_start(front, start as int),
            decreases hash - start,
        {
            assert(front[start as int] == chars@[start as int]);
            start += 1;
        }
        proof {
            if start < hash {
                assert(front[start as int] == chars@[start as int]);
            }
        }
        let mut end: usize = hash;
        while end > start && white_space(chars[end - 1])
            invariant
                start <= end <= hash <= chars.len(),
                chars@ == name@,
                front == name@.take(hash as int),
                trimmed_end(front, hash as int, start as int) == trimmed_end(
                    front,
                    end as int,
                    start as int,
                ),
            decreases end,
        {
            assert(front[end - 1] == chars@[end - 1]);
            end -= 1;
        }
        proof {
            if end > start {
                assert(front[end - 1] == chars@[end - 1]);
            }
            assert(front.subrange(start as int, end as int) == name@.subrange(
                start as int,
                end as int,
            ));
        }
        name.substring_char(start, end)
    } else {
        name
    }
}

/// The character of a digit below sixteen, ten to fifteen as small
/// letters.
pub open spec fn lower_digit(d: int) -> char {
    if d == 0 {
        '0'
    } else if d == 1 {
        '1'
    } else if d == 2 {
        '2'
    } else if d == 3 {
        '3'
    } else if d == 4 {
        '4'
    } else if d == 5 {
        '5'
    } else if d == 6 {
        '6'
    } else if d == 7 {
        '7'
    } else if d == 8 {
        '8'
    } else if d == 9 {
        '9'
    } else if d == 10 {
        'a'
    } else if d == 11 {
        'b'
    } else if d == 12 {
        'c'
    } else if d == 13 {
        'd'
    } else if d == 14 {
        'e'
    } else {
        'f'
    }
}

/// The character of a digit below sixteen, ten to fifteen as capital
/// letters.
pub open spec fn upper_digit(d: int) -> char {
    if d == 10 {
        'A'
    } else if d == 11 {
        'B'
    } else if d == 12 {
        'C'
    } else if d == 13 {
        'D'
    } else if d == 14 {
        'E'
    } else if d == 15 {
        'F'
    } else {
        lower_digit(d)
    }
}

fn digit_char(d: u64, capital: bool) -> (c: char)
    requires
        d < 16,
    ensures
        c == if capital {
            upper_digit(d as int)
        } else {
            lower_digit(d as int)
        },
{
    if d == 0 {
        '0'
    } else if d == 1 {
        '1'
    } else if d == 2 {
        '2'
    } else if d == 3 {
        '3'
    } else if d == 4 {
        '4'
    } else if d == 5 {
        '5'
    } else if d == 6 {
        '6'
    } else if d == 7 {
        '7'
    } else if d == 8 {
        '8'
    } else if d == 9 {
        '9'
    } else if d == 10 {
        if capital {
            'A'
        } else {
            'a'
        }
    } else if d == 11 {
        if capital {
            'B'
        } else {
            'b'
        }
    } else if d == 12 {
        if capital {
            'C'
        } else {
            'c'
        }
    } else if d == 13 {
        if capital {
            'D'
        } else {
            'd'
        }
    } else if d == 14 {
        if capital {
            'E'
        } else {
            'e'
        }
    } else {
        if capital {
            'F'
        } else {
            'f'
        }
    }
}

/// `n` in decimal, without leading zeros; zero is one digit.
pub open spec fn decimal(n: nat) -> Seq<char>
    decreases n,
{
    if n < 10 {
        seq![lower_digit(n as int)]
    } else {
        decimal(n / 10).push(lower_digit((n % 10) as int))
    }
}

/// `n` in hexadecimal with small letters, without leading zeros; zero is
/// one digit.
pub open spec fn lower_hex(n: nat) -> Seq<char>
    decreases n,
{
    if n < 16 {
        seq![lower_digit(n as int)]
    } else {
        lower_hex(n / 16).push(lower_digit((n % 16) as int))
    }
}

/// The lowest `width` hexadecimal digits of `n` with capital letters,
/// zeros in front where `n` has fewer.
pub open spec fn upper_hex_padded(n: nat, width: nat) -> Seq<char>
    decreases width,
{
    if width == 0 {
        Seq::empty()
    } else {
        upper_hex_padded(n / 16, (width - 1) as nat).push(upper_digit((n % 16) as int))
    }
}

/// Appends the characters of `reversed`, the last one first.
fn push_reversed(text: &mut Vec<char>, reversed: &Vec<char>)
    ensures
        final(text)@ == old(text)@ + reversed@.reverse(),
{
    let mut i: usize = reversed.len();
    assert(reversed@.reverse().take(0) == Seq::<char>::empty());
    while i > 0
        invariant
            i <= reversed.len(),
            text@ == old(text)@ + reversed@.reverse().take(reversed.len() - i),
        decreases i,
    {
        i -= 1;
        assert(reversed@.reverse()[reversed.len() - i - 1] == reversed@[i as int]);
        assert(reversed@.reverse().take(reversed.len() - i) == reversed@.reverse().take(
            reversed.len() - i - 1,
        ).push(reversed@[i as int]));
        text.push(reversed[i]);
    }
    assert(reversed@.reverse().take(reversed.len() as int) == reversed@.reverse());
}

/// Appends `n` in decimal to `text`.
pub fn push_decimal(text: &mut Vec<char>, n: u64)
    ensures
        final(text)@ == old(text)@ + decimal(n as nat),
{
    let mut rest: u64 = n;
    let mut reversed: Vec<char> = Vec::new();
    assert(reversed@.reverse() == Seq::<char>::empty());
    while rest >= 10
        invariant
            decimal(n as nat) == decimal(rest as nat) + reversed@.reverse(),
        decreases rest,
    {
        let d: u64 = rest % 10;
        let c: char = digit_char(d, false);
        proof {
            let tail = reversed@.reverse();
            assert(reversed@.push(c).reverse() == seq![c] + tail);
            let front = decimal((rest / 10) as nat);
            assert(front.push(c) + tail == front + (seq![c] + tail));
        }
        reversed.push(c);
        rest = rest / 10;
    }
    let c: char = digit_char(rest, false);
    proof {
        let tail = reversed@.reverse();
        assert(reversed@.push(c).reverse() == seq![c] + tail);
    }
    reversed.push(c);
    push_reversed(text, &reversed);
}

/// Appends `n` in hexadecimal with small letters to `text`.
pub fn push_lower_hex(text: &mut Vec<char>, n: u64)
    ensures
        final(text)@ == old(text)@ + lower_hex(n as nat),
{
    let mut rest: u64 = n;
    let mut reversed: Vec<char> = Vec::new();
    assert(reversed@.reverse() == Seq::<char>::empty());
    while rest >= 16
        invariant
            lower_hex(n as nat) == lower_hex(rest as nat) + reversed@.reverse(),
        decreases rest,
    {
        let d: u64 = rest % 16;
        let c: char = digit_char(d, false);
        proof {
            let tail = reversed@.reverse();
            assert(reversed@.push(c).reverse() == seq![c] + tail);
            let front = lower_hex((rest / 16) as nat);
            assert(front.push(c) + tail == front + (seq![c] + tail));
        }
        reversed.push(c);
        rest = rest / 16;
    }
    let c: char = digit_char(rest, false);
    proof {
        let tail = reversed@.reverse();
        assert(reversed@.push(c).reverse() == seq![c] + tail);
    }
    reversed.push(c);
    push_reversed(text, &reversed);
}

/// Appends the eight hexadecimal digits of `n` to `text`, with capital
/// letters and with zeros in front.
pub fn push_upper_hex_8(text: &mut Vec<char>, n: u32)
    ensures
        final(text)@ == old(text)@ + upper_hex_padded(n as nat, 8),
{
    let mut rest: u64 = n as u64;
    let mut reversed: Vec<char> = Vec::new();
    let mut i: usize = 0;
    assert(reversed@.reverse() == Seq::<char>::empty());
    while i < 8
        invariant
            i <= 8,
            upper_hex_padded(n as nat, 8) == upper_hex_padded(rest as nat, (8 - i) as nat)
                + reversed@.reverse(),
        decreases 8 - i,
    {
        let d: u64 = rest % 16;
        let c: char = digit_char(d, true);
        proof {
            let tail = reversed@.reverse();
            assert(reversed@.push(c).reverse() == seq![c] + tail);
            let front = upper_hex_padded((rest / 16) as nat, (8 - i - 1) as nat);
            assert(front.push(c) + tail == front + (seq![c] + tail));
        }
        reversed.push(c);
        rest = rest / 16;
        i += 1;
    }
    push_reversed(text, &reversed);
}

/// Appends the characters of `tail` to `text`.
pub fn push_text(text: &mut Vec<char>, tail: &str)
    ensures
        final(text)@ == old(text)@ + tail@,
{
    let chars = chars_of(tail);
    let mut i: usize = 0;
    while i < chars.len()
        invariant
            i <= chars.len(),
            chars@ == tail@,
            text@ == old(text)@ + chars@.take(i as int),
        decreases chars.len() - i,
    {
        text.push(chars[i]);
        i += 1;
    }
    assert(chars@.take(chars.len() as int) == chars@);
}

/// Whether a character parts the components of a Windows path.
pub open spec fn is_separator(c: char) -> bool {
    c == '\\' || c == '/'
}

/// Where the last component of a path ends: before the separators at
/// the end of the first `to` characters.
pub open spec fn component_end(path: Seq<char>, to: int) -> int
    decreases to,
{
    if to <= 0 || to > path.len() {
        0
    } else if !is_separator(path[to - 1]) {
        to
    } else {
        component_end(path, to - 1)
    }
}

/// Where the component begins that ends at `to`: behind the last
/// separator before `to`, or at the start.
pub open spec fn after_last_separator(path: Seq<char>, to: int) -> int
    decreases to,
{
    if to <= 0 || to > path.len() {
        0
    } else if is_separator(path[to - 1]) {
        to
    } else {
        after_last_separator(path, to - 1)
    }
}

/// The last component of a Windows path that is not empty: separators at
/// the end of the path are left out, and the name is what stands between
/// the last separator before them and them. A path without a component
/// gives the empty text.
pub open spec fn file_name_of(path: Seq<char>) -> Seq<char> {
    let end = component_end(path, path.len() as int);
    path.subrange(after_last_separator(path, end), end)
}

/// The last component of a Windows path that is not empty.
pub fn file_name(path: &str) -> (name: String)
    ensures
        name@ == file_name_of(path@),
{
    let chars = chars_of(path);
    let mut end: usize = chars.len();
    while end > 0 && (chars[end - 1] == '\\' || chars[end - 1] == '/')
        invariant
            end <= chars.len(),
            chars@ == path@,
            component_end(path@, path@.len() as int) == component_end(path@, end as int),
        decreases end,
    {
        end -= 1;
    }
    let mut start: usize = end;
    while start > 0 && chars[start - 1] != '\\' && chars[start - 1] != '/'
        invariant
            start <= end <= chars.len(),
            chars@ == path@,
            after_last_separator(path@, end as int) == after_last_separator(path@, start as int),
        decreases start,
    {
        start -= 1;
    }
    let mut name: Vec<char> = Vec::new();
    let mut i: usize = start;
    while i < end
        invariant
            start <= i <= end <= chars.len(),
            name@ == chars@.subrange(start as int, i as int),
        decreases end - i,
    {
        name.push(chars[i]);
        i += 1;
    }
    string_of(&name)
}

} // verus!
