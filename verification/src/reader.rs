//! Reading the tokens of the grammar from a text held as a vector of
//! characters. Each function starts at an index and reports the index after
//! what it read.

use crate::facts::{lemma_digits_len_bounds, lemma_digits_value_grows};
use crate::grammar::{
    digits_len, digits_value, escape, exponent_end, fraction_end, has_at, hex4, hex_value,
    integer_part_end, is_digit, is_space, keyword, number, number_len, spaces_len, string,
    string_body, trim, unsigned, with_first,
};
use vstd::prelude::*;

verus! {

broadcast use vstd::seq_lib::lemma_seq_skip_of_skip;

/// The characters of `text`, in order.
pub fn characters(text: &str) -> (chars: Vec<char>)
    ensures
        chars@ == text@,
{
    let mut chars: Vec<char> = Vec::new();
    for c in it: text.chars()
        invariant
            it.seq() == text@,
            chars@ == text@.take(it.index()),
    {
        chars.push(c);
        assert(text@.take(it.index() + 1) =~= text@.take(it.index()).push(c));
    }
    assert(text@.take(text@.len() as int) =~= text@);
    chars
}

fn space_at(text: &Vec<char>, i: usize) -> (found: bool)
    requires
        i <= text.len(),
    ensures
        found == (i < text.len() && is_space(text[i as int])),
{
    i < text.len() && (text[i] == ' ' || text[i] == '\n' || text[i] == '\t' || text[i] == '\r')
}

fn digit_at(text: &Vec<char>, i: usize) -> (found: bool)
    requires
        i <= text.len(),
    ensures
        found == (i < text.len() && is_digit(text[i as int])),
{
    if i < text.len() {
        let code: u32 = text[i] as u32;
        0x30 <= code && code <= 0x39
    } else {
        false
    }
}

/// Whether the character at index `i` of `text` exists and is `c`.
pub fn char_at(text: &Vec<char>, i: usize, c: char) -> (found: bool)
    requires
        i <= text.len(),
    ensures
        found == (i < text.len() && text[i as int] == c),
        found == has_at(text@.skip(i as int), 0, c),
{
    i < text.len() && text[i] == c
}

/// Goes past the separating characters at `pos`.
pub fn skip_spaces(text: &Vec<char>, pos: usize) -> (next: usize)
    requires
        pos <= text.len(),
    ensures
        pos <= next <= text.len(),
        next - pos == spaces_len(text@.skip(pos as int)),
        text@.skip(next as int) == trim(text@.skip(pos as int)),
{
    let mut i = pos;
    while space_at(text, i)
        invariant
            pos <= i <= text.len(),
            spaces_len(text@.skip(pos as int)) == (i - pos) + spaces_len(text@.skip(i as int)),
        decreases text.len() - i,
    {
        i += 1;
    }
    i
}

/// Goes past the decimal digits at `pos`.
pub fn skip_digits(text: &Vec<char>, pos: usize) -> (next: usize)
    requires
        pos <= text.len(),
    ensures
        pos <= next <= text.len(),
        next - pos == digits_len(text@.skip(pos as int)),
{
    let mut i = pos;
    while digit_at(text, i)
        invariant
            pos <= i <= text.len(),
            digits_len(text@.skip(pos as int)) == (i - pos) + digits_len(text@.skip(i as int)),
        decreases text.len() - i,
    {
        i += 1;
    }
    i
}

/// Reads an unsigned integer no greater than `max` at `pos`.
pub fn read_unsigned(text: &Vec<char>, pos: usize, max: u32) -> (r: Option<(u32, usize)>)
    requires
        pos <= text.len(),
    ensures
        match unsigned(text@.skip(pos as int), max as nat) {
            Some((value, rest)) => r matches Some((v, next)) && v == value && pos < next
                <= text.len() && text@.skip(next as int) == rest,
            None => r is None,
        },
{
    let ghost s = text@.skip(pos as int);
    let end = skip_digits(text, pos);
    if end == pos {
        return None;
    }
    if end - pos > 1 && text[pos] == '0' {
        return None;
    }
    if char_at(text, end, '.') || char_at(text, end, 'e') || char_at(text, end, 'E') {
        return None;
    }
    let ghost n = (end - pos) as int;
    let mut value: u64 = 0;
    let mut i = pos;
    while i < end
        invariant
            pos <= i <= end <= text.len(),
            s == text@.skip(pos as int),
            n == end - pos == digits_len(s),
            value == digits_value(s.take(i - pos)),
            value <= max,
        decreases end - i,
    {
        proof {
            lemma_digits_len_bounds(s);
            assert(is_digit(s[i - pos]));
            assert(s.take(i - pos + 1).drop_last() =~= s.take(i - pos));
        }
        let digit: u64 = (text[i] as u32 - 0x30) as u64;
        value = value * 10 + digit;
        if value > max as u64 {
            proof {
                lemma_digits_value_grows(s, i - pos + 1, n);
            }
            return None;
        }
        i += 1;
    }
    Some((value as u32, end))
}

fn read_integer_part(text: &Vec<char>, pos: usize) -> (r: Option<usize>)
    requires
        pos <= text.len(),
    ensures
        match integer_part_end(text@.skip(pos as int)) {
            Some(n) => r == Some((pos + n) as usize) && pos < pos + n <= text.len(),
            None => r is None,
        },
{
    let start = if char_at(text, pos, '-') {
        pos + 1
    } else {
        pos
    };
    let end = skip_digits(text, start);
    if end == start {
        None
    } else if end - start > 1 && text[start] == '0' {
        None
    } else {
        Some(end)
    }
}

fn read_fraction(text: &Vec<char>, pos: usize, from: usize) -> (r: Option<usize>)
    requires
        pos <= from <= text.len(),
    ensures
        match fraction_end(text@.skip(pos as int), from - pos) {
            Some(n) => r == Some((pos + n) as usize) && from <= pos + n <= text.len(),
            None => r is None,
        },
{
    if char_at(text, from, '.') {
        let end = skip_digits(text, from + 1);
        if end == from + 1 {
            None
        } else {
            Some(end)
        }
    } else {
        Some(from)
    }
}

fn read_exponent(text: &Vec<char>, pos: usize, from: usize) -> (r: Option<usize>)
    requires
        pos <= from <= text.len(),
    ensures
        match exponent_end(text@.skip(pos as int), from - pos) {
            Some(n) => r == Some((pos + n) as usize) && from <= pos + n <= text.len(),
            None => r is None,
        },
{
    if char_at(text, from, 'e') || char_at(text, from, 'E') {
        let digits = if char_at(text, from + 1, '+') || char_at(text, from + 1, '-') {
            from + 2
        } else {
            from + 1
        };
        let end = skip_digits(text, digits);
        if end == digits {
            None
        } else {
            Some(end)
        }
    } else {
        Some(from)
    }
}

/// Finds the end of the number at `pos`.
pub fn number_end(text: &Vec<char>, pos: usize) -> (r: Option<usize>)
    requires
        pos <= text.len(),
    ensures
        match number_len(text@.skip(pos as int)) {
            Some(n) => r == Some((pos + n) as usize) && pos < pos + n <= text.len(),
            None => r is None,
        },
{
    match read_integer_part(text, pos) {
        None => None,
        Some(whole) => match read_fraction(text, pos, whole) {
            None => None,
            Some(fraction) => read_exponent(text, pos, fraction),
        },
    }
}

/// Reads the number at `pos` as it is written.
pub fn read_number(text: &Vec<char>, pos: usize) -> (r: Option<(String, usize)>)
    requires
        pos <= text.len(),
    ensures
        match number(text@.skip(pos as int)) {
            Some((literal, rest)) => r matches Some((found, next)) && found@ == literal && pos
                < next <= text.len() && text@.skip(next as int) == rest,
            None => r is None,
        },
{
    match number_end(text, pos) {
        None => None,
        Some(end) => {
            let literal = copy_out(text, pos, end);
            assert(text@.subrange(pos as int, end as int) =~= text@.skip(pos as int).take(
                end - pos,
            ));
            Some((literal, end))
        },
    }
}

/// The characters of `text` from `from` up to `to`, as a string.
pub fn copy_out(text: &Vec<char>, from: usize, to: usize) -> (copy: String)
    requires
        from <= to <= text.len(),
    ensures
        copy@ == text@.subrange(from as int, to as int),
{
    let mut copy = String::new();
    let mut i = from;
    while i < to
        invariant
            from <= i <= to <= text.len(),
            copy@ == text@.subrange(from as int, i as int),
        decreases to - i,
    {
        copy.push(text[i]);
        assert(text@.subrange(from as int, i + 1) =~= text@.subrange(from as int, i as int).push(
            text[i as int],
        ));
        i += 1;
    }
    copy
}

/// `found` with the characters `front` put before the characters it holds.
pub open spec fn with_front(front: Seq<char>, found: Option<(Seq<char>, Seq<char>)>) -> Option<
    (Seq<char>, Seq<char>),
> {
    match found {
        None => None,
        Some((value, rest)) => Some((front + value, rest)),
    }
}

proof fn lemma_with_front_push(front: Seq<char>, c: char, found: Option<(Seq<char>, Seq<char>)>)
    ensures
        with_front(front, with_first(c, found)) == with_front(front.push(c), found),
{
    if let Some((value, rest)) = found {
        assert(front + (seq![c] + value) =~= front.push(c) + value);
    }
}

fn read_hex_digit(text: &Vec<char>, i: usize) -> (r: Option<u32>)
    requires
        i < text.len(),
    ensures
        match hex_value(text[i as int]) {
            Some(v) => r == Some(v as u32) && v < 16,
            None => r is None,
        },
{
    let code: u32 = text[i] as u32;
    if 0x30 <= code && code <= 0x39 {
        Some(code - 0x30)
    } else if 0x41 <= code && code <= 0x46 {
        Some(code - 0x41 + 10)
    } else if 0x61 <= code && code <= 0x66 {
        Some(code - 0x61 + 10)
    } else {
        None
    }
}

/// Reads the value of the four hexadecimal digits at `pos`.
pub fn read_hex4(text: &Vec<char>, pos: usize) -> (r: Option<u32>)
    requires
        pos <= text.len(),
    ensures
        match hex4(text@.skip(pos as int)) {
            Some(v) => r == Some(v as u32) && v <= 0xFFFF && pos + 4 <= text.len(),
            None => r is None,
        },
{
    if text.len() - pos < 4 {
        return None;
    }
    match (
        read_hex_digit(text, pos),
        read_hex_digit(text, pos + 1),
        read_hex_digit(text, pos + 2),
        read_hex_digit(text, pos + 3),
    ) {
        (Some(a), Some(b), Some(c), Some(d)) => Some(a * 4096 + b * 256 + c * 16 + d),
        _ => None,
    }
}

fn read_unicode_escape(text: &Vec<char>, pos: usize) -> (r: Option<(char, usize)>)
    requires
        pos < text.len(),
        text[pos as int] == 'u',
    ensures
        match escape(text@.skip(pos as int)) {
            Some((c, n)) => r == Some((c, (pos + n) as usize)) && pos < pos + n <= text.len(),
            None => r is None,
        },
{
    let unit = match read_hex4(text, pos + 1) {
        None => { return None; },
        Some(unit) => unit,
    };
    if unit < 0xD800 || unit > 0xDFFF {
        match char::from_u32(unit) {
            None => None,
            Some(c) => Some((c, pos + 5)),
        }
    } else if unit >= 0xDC00 {
        None
    } else if char_at(text, pos + 5, '\\') && char_at(text, pos + 6, 'u') {
        match read_hex4(text, pos + 7) {
            None => None,
            Some(low) => if 0xDC00 <= low && low <= 0xDFFF {
                match char::from_u32(0x10000 + (unit - 0xD800) * 0x400 + (low - 0xDC00)) {
                    None => None,
                    Some(c) => Some((c, pos + 11)),
                }
            } else {
                None
            },
        }
    } else {
        None
    }
}

/// Reads the escape at `pos`, which is the index after a backslash.
pub fn read_escape(text: &Vec<char>, pos: usize) -> (r: Option<(char, usize)>)
    requires
        pos <= text.len(),
    ensures
        match escape(text@.skip(pos as int)) {
            Some((c, n)) => r == Some((c, (pos + n) as usize)) && pos < pos + n <= text.len(),
            None => r is None,
        },
{
    if pos >= text.len() {
        return None;
    }
    let c = text[pos];
    if c == '"' {
        Some(('"', pos + 1))
    } else if c == '\\' {
        Some(('\\', pos + 1))
    } else if c == '/' {
        Some(('/', pos + 1))
    } else if c == 'b' {
        Some(('\u{8}', pos + 1))
    } else if c == 'f' {
        Some(('\u{c}', pos + 1))
    } else if c == 'n' {
        Some(('\n', pos + 1))
    } else if c == 'r' {
        Some(('\r', pos + 1))
    } else if c == 't' {
        Some(('\t', pos + 1))
    } else if c == 'u' {
        read_unicode_escape(text, pos)
    } else {
        None
    }
}

/// Reads the string at `pos`.
pub fn read_string(text: &Vec<char>, pos: usize) -> (r: Option<(String, usize)>)
    requires
        pos <= text.len(),
    ensures
        match string(text@.skip(pos as int)) {
            Some((value, rest)) => r matches Some((found, next)) && found@ == value && pos < next
                <= text.len() && text@.skip(next as int) == rest,
            None => r is None,
        },
{
    if !char_at(text, pos, '"') {
        return None;
    }
    let ghost body = text@.skip(pos + 1);
    let mut value = String::new();
    let mut i = pos + 1;
    assert(text@.skip(pos as int).skip(1) =~= body);
    assert(string_body(body) == with_front(value@, string_body(text@.skip(i as int)))) by {
        if let Some((v, rest)) = string_body(body) {
            assert(value@ + v =~= v);
        }
    }
    loop
        invariant
            pos < i <= text.len(),
            string(text@.skip(pos as int)) == string_body(body),
            string_body(body) == with_front(value@, string_body(text@.skip(i as int))),
        decreases text.len() - i,
    {
        if i >= text.len() {
            return None;
        }
        let c = text[i];
        let code: u32 = c as u32;
        if c == '"' {
            assert(string_body(text@.skip(i as int)) == Some(
                (Seq::<char>::empty(), text@.skip(i + 1)),
            ));
            assert(value@ + Seq::<char>::empty() =~= value@);
            return Some((value, i + 1));
        } else if c == '\\' {
            match read_escape(text, i + 1) {
                None => {
                    return None;
                },
                Some((e, next)) => {
                    proof {
                        lemma_with_front_push(value@, e, string_body(text@.skip(next as int)));
                    }
                    value.push(e);
                    i = next;
                },
            }
        } else if code < 0x20 {
            return None;
        } else {
            proof {
                lemma_with_front_push(value@, c, string_body(text@.skip(i + 1)));
            }
            value.push(c);
            i += 1;
        }
    }
}

/// Goes past the word `word` at `pos`, where the text has it there.
pub fn read_keyword(text: &Vec<char>, pos: usize, word: &str) -> (r: Option<usize>)
    requires
        pos <= text.len(),
    ensures
        match keyword(text@.skip(pos as int), word@) {
            Some(rest) => r matches Some(next) && pos <= next <= text.len() && next - pos
                == word@.len() && text@.skip(next as int) == rest,
            None => r is None,
        },
{
    let ghost s = text@.skip(pos as int);
    let letters = characters(word);
    if text.len() - pos < letters.len() {
        return None;
    }
    let mut i: usize = 0;
    while i < letters.len()
        invariant
            i <= letters.len() <= text.len() - pos,
            letters@ == word@,
            s == text@.skip(pos as int),
            s.take(i as int) == letters@.take(i as int),
        decreases letters.len() - i,
    {
        if text[pos + i] != letters[i] {
            assert(s.take(letters.len() as int)[i as int] == s[i as int]);
            assert(s[i as int] == text[pos + i]);
            return None;
        }
        assert(s.take(i + 1) =~= s.take(i as int).push(s[i as int]));
        assert(letters@.take(i + 1) =~= letters@.take(i as int).push(letters@[i as int]));
        i += 1;
    }
    assert(letters@.take(letters.len() as int) =~= letters@);
    Some(pos + letters.len())
}

} // verus!
