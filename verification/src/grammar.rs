//! The lexical grammar of JSON text, as mathematical functions on sequences of
//! characters.
//!
//! Every function here looks at the front of a sequence. One that recognises a
//! token returns what the token stands for together with the text that follows
//! it, or `None` where the front of the sequence is no such token.

use vstd::prelude::*;

verus! {

/// The four characters that may separate tokens.
pub open spec fn is_space(c: char) -> bool {
    c == ' ' || c == '\n' || c == '\t' || c == '\r'
}

/// The decimal digits.
pub open spec fn is_digit(c: char) -> bool {
    0x30 <= c as u32 <= 0x39
}

/// The number that a decimal digit stands for.
pub open spec fn digit_value(c: char) -> nat {
    (c as u32 - 0x30) as nat
}

/// How many separating characters stand at the front of `s`.
pub open spec fn spaces_len(s: Seq<char>) -> nat
    decreases s.len(),
{
    if s.len() > 0 && is_space(s[0]) {
        1 + spaces_len(s.skip(1))
    } else {
        0
    }
}

/// `s` without the separating characters at its front.
pub open spec fn trim(s: Seq<char>) -> Seq<char> {
    s.skip(spaces_len(s) as int)
}

/// How many decimal digits stand at the front of `s`.
pub open spec fn digits_len(s: Seq<char>) -> nat
    decreases s.len(),
{
    if s.len() > 0 && is_digit(s[0]) {
        1 + digits_len(s.skip(1))
    } else {
        0
    }
}

/// The number written by a sequence of decimal digits, the most significant
/// digit first. The empty sequence writes zero.
pub open spec fn digits_value(s: Seq<char>) -> nat
    decreases s.len(),
{
    if s.len() == 0 {
        0
    } else {
        digits_value(s.drop_last()) * 10 + digit_value(s.last())
    }
}

/// Whether `s` has a character at index `i` and it is `c`.
pub open spec fn has_at(s: Seq<char>, i: int, c: char) -> bool {
    0 <= i < s.len() && s[i] == c
}

/// An unsigned integer at the front of `s`, no greater than `max`.
///
/// The integer is the longest run of digits at the front. It is refused where
/// the run is empty, where it has more than one digit and starts with `0`,
/// where a fraction or an exponent follows it (the token is then no integer),
/// and where its value exceeds `max`.
pub open spec fn unsigned(s: Seq<char>, max: nat) -> Option<(nat, Seq<char>)> {
    let n = digits_len(s) as int;
    if n == 0 {
        None
    } else if n > 1 && s[0] == '0' {
        None
    } else if has_at(s, n, '.') || has_at(s, n, 'e') || has_at(s, n, 'E') {
        None
    } else if digits_value(s.take(n)) > max {
        None
    } else {
        Some((digits_value(s.take(n)), s.skip(n)))
    }
}

/// Where the integer part of a number ends, counted from the front of `s`:
/// an optional minus sign, then either a single `0` or a run of digits that
/// starts with a digit other than `0`.
pub open spec fn integer_part_end(s: Seq<char>) -> Option<int> {
    let start: int = if has_at(s, 0, '-') { 1 } else { 0 };
    let n = digits_len(s.skip(start)) as int;
    if n == 0 {
        None
    } else if n > 1 && s[start] == '0' {
        None
    } else {
        Some(start + n)
    }
}

/// Where the fraction of a number ends, if one starts at index `from`: a
/// point and at least one digit. Without a point the fraction is empty and
/// ends at `from`.
pub open spec fn fraction_end(s: Seq<char>, from: int) -> Option<int> {
    if has_at(s, from, '.') {
        let n = digits_len(s.skip(from + 1)) as int;
        if n == 0 {
            None
        } else {
            Some(from + 1 + n)
        }
    } else {
        Some(from)
    }
}

/// Where the exponent of a number ends, if one starts at index `from`: `e` or
/// `E`, an optional sign, and at least one digit. Without the letter the
/// exponent is empty and ends at `from`.
pub open spec fn exponent_end(s: Seq<char>, from: int) -> Option<int> {
    if has_at(s, from, 'e') || has_at(s, from, 'E') {
        let digits: int = if has_at(s, from + 1, '+') || has_at(s, from + 1, '-') {
            from + 2
        } else {
            from + 1
        };
        let n = digits_len(s.skip(digits)) as int;
        if n == 0 {
            None
        } else {
            Some(digits + n)
        }
    } else {
        Some(from)
    }
}

/// The length of the number at the front of `s`: integer part, fraction and
/// exponent, each as long as it can be.
pub open spec fn number_len(s: Seq<char>) -> Option<int> {
    match integer_part_end(s) {
        None => None,
        Some(a) => match fraction_end(s, a) {
            None => None,
            Some(b) => exponent_end(s, b),
        },
    }
}

/// Whether the whole of `s` is one number.
pub open spec fn is_number(s: Seq<char>) -> bool {
    number_len(s) == Some(s.len() as int)
}

/// The number at the front of `s`, as it is written, and the text after it.
pub open spec fn number(s: Seq<char>) -> Option<(Seq<char>, Seq<char>)> {
    match number_len(s) {
        None => None,
        Some(n) => Some((s.take(n), s.skip(n))),
    }
}

/// The value of a hexadecimal digit of either case.
pub open spec fn hex_value(c: char) -> Option<nat> {
    let code = c as u32;
    if 0x30 <= code <= 0x39 {
        Some((code - 0x30) as nat)
    } else if 0x41 <= code <= 0x46 {
        Some((code - 0x41 + 10) as nat)
    } else if 0x61 <= code <= 0x66 {
        Some((code - 0x61 + 10) as nat)
    } else {
        None
    }
}

/// The value of the four hexadecimal digits at the front of `s`.
pub open spec fn hex4(s: Seq<char>) -> Option<nat> {
    if s.len() < 4 {
        None
    } else {
        match (hex_value(s[0]), hex_value(s[1]), hex_value(s[2]), hex_value(s[3])) {
            (Some(a), Some(b), Some(c), Some(d)) => Some(a * 4096 + b * 256 + c * 16 + d),
            _ => None,
        }
    }
}

/// The character that two UTF-16 surrogates stand for.
pub open spec fn surrogate_pair(high: nat, low: nat) -> char {
    (0x10000 + (high - 0xD800) * 0x400 + (low - 0xDC00)) as char
}

/// The escape at the front of `s`, which is the text after a backslash: the
/// character it stands for and the number of characters it takes.
///
/// A `u` escape gives a UTF-16 code unit. A unit that is no surrogate is the
/// character itself. A leading surrogate must be followed at once by a second
/// `u` escape with a trailing surrogate, and the two stand for one character.
/// A trailing surrogate on its own is refused.
pub open spec fn escape(s: Seq<char>) -> Option<(char, int)> {
    if s.len() == 0 {
        None
    } else if s[0] == '"' {
        Some(('"', 1))
    } else if s[0] == '\\' {
        Some(('\\', 1))
    } else if s[0] == '/' {
        Some(('/', 1))
    } else if s[0] == 'b' {
        Some(('\u{8}', 1))
    } else if s[0] == 'f' {
        Some(('\u{c}', 1))
    } else if s[0] == 'n' {
        Some(('\n', 1))
    } else if s[0] == 'r' {
        Some(('\r', 1))
    } else if s[0] == 't' {
        Some(('\t', 1))
    } else if s[0] == 'u' {
        match hex4(s.skip(1)) {
            None => None,
            Some(unit) => if unit < 0xD800 || unit > 0xDFFF {
                Some((unit as char, 5))
            } else if unit >= 0xDC00 {
                None
            } else if has_at(s, 5, '\\') && has_at(s, 6, 'u') {
                match hex4(s.skip(7)) {
                    None => None,
                    Some(low) => if 0xDC00 <= low <= 0xDFFF {
                        Some((surrogate_pair(unit, low), 11))
                    } else {
                        None
                    },
                }
            } else {
                None
            },
        }
    } else {
        None
    }
}

/// An escape lies within the text that it was read from.
pub proof fn lemma_escape_in_bounds(s: Seq<char>)
    ensures
        escape(s) matches Some((_, n)) ==> 1 <= n <= s.len(),
{
}

/// `found` with `c` put in front of the characters it holds.
pub open spec fn with_first(c: char, found: Option<(Seq<char>, Seq<char>)>) -> Option<
    (Seq<char>, Seq<char>),
> {
    match found {
        None => None,
        Some((value, rest)) => Some((seq![c] + value, rest)),
    }
}

/// The rest of a string whose opening quote has been read: the characters it
/// holds, escapes resolved, and the text after its closing quote.
///
/// A character below U+0020 may not stand in a string unescaped.
pub open spec fn string_body(s: Seq<char>) -> Option<(Seq<char>, Seq<char>)>
    decreases s.len(),
{
    if s.len() == 0 {
        None
    } else if s[0] == '"' {
        Some((Seq::empty(), s.skip(1)))
    } else if s[0] == '\\' {
        match escape(s.skip(1)) {
            None => None,
            Some((c, n)) => {
                proof {
                    lemma_escape_in_bounds(s.skip(1));
                }
                with_first(c, string_body(s.skip(1 + n)))
            },
        }
    } else if (s[0] as u32) < 0x20 {
        None
    } else {
        with_first(s[0], string_body(s.skip(1)))
    }
}

/// The string at the front of `s`: the characters between its quotes, escapes
/// resolved, and the text after it.
pub open spec fn string(s: Seq<char>) -> Option<(Seq<char>, Seq<char>)> {
    if has_at(s, 0, '"') {
        string_body(s.skip(1))
    } else {
        None
    }
}

/// The text after the word `word`, where `s` starts with it.
pub open spec fn keyword(s: Seq<char>, word: Seq<char>) -> Option<Seq<char>> {
    if word.len() <= s.len() && s.take(word.len() as int) == word {
        Some(s.skip(word.len() as int))
    } else {
        None
    }
}

/// The escape at the front of `s`, which is the text after a backslash, where
/// only its length matters: a `u` escape is four hexadecimal digits of any
/// value.
pub open spec fn passed_escape_len(s: Seq<char>) -> Option<int> {
    if s.len() == 0 {
        None
    } else if s[0] == '"' || s[0] == '\\' || s[0] == '/' || s[0] == 'b' || s[0] == 'f' || s[0]
        == 'n' || s[0] == 'r' || s[0] == 't' {
        Some(1)
    } else if s[0] == 'u' && hex4(s.skip(1)) is Some {
        Some(5)
    } else {
        None
    }
}

/// The text after the closing quote of a string whose opening quote has been
/// read and whose characters are not wanted.
pub open spec fn passed_string_body(s: Seq<char>) -> Option<Seq<char>>
    decreases s.len(),
{
    if s.len() == 0 {
        None
    } else if s[0] == '"' {
        Some(s.skip(1))
    } else if s[0] == '\\' {
        match passed_escape_len(s.skip(1)) {
            None => None,
            Some(n) => passed_string_body(s.skip(1 + n)),
        }
    } else if (s[0] as u32) < 0x20 {
        None
    } else {
        passed_string_body(s.skip(1))
    }
}

/// How deep the arrays and objects of a value that is passed over may nest.
pub const MAX_NESTING: usize = 128;

/// The text after the value at the front of `s`, where the value is not
/// wanted: a string, a number, `true`, `false`, `null`, an array or an object.
/// Arrays and objects may nest `depth` deep.
pub open spec fn passed_value(s: Seq<char>, depth: nat) -> Option<Seq<char>>
    decreases depth, s.len(), 0nat,
{
    if s.len() == 0 {
        None
    } else if s[0] == '"' {
        passed_string_body(s.skip(1))
    } else if s[0] == '[' || s[0] == '{' {
        if depth == 0 {
            None
        } else {
            passed_entries(trim(s.skip(1)), (depth - 1) as nat, s[0] == '{', true)
        }
    } else if s[0] == 't' {
        keyword(s, "true"@)
    } else if s[0] == 'f' {
        keyword(s, "false"@)
    } else if s[0] == 'n' {
        keyword(s, "null"@)
    } else {
        match number_len(s) {
            None => None,
            Some(n) => Some(s.skip(n)),
        }
    }
}

/// The text after the colon that follows the key of a member which is passed
/// over, spaces skipped.
pub open spec fn passed_key(s: Seq<char>) -> Option<Seq<char>> {
    if has_at(s, 0, '"') {
        match passed_string_body(s.skip(1)) {
            None => None,
            Some(rest) => if has_at(trim(rest), 0, ':') {
                Some(trim(trim(rest).skip(1)))
            } else {
                None
            },
        }
    } else {
        None
    }
}

/// The text after the closing bracket of an array or an object that is passed
/// over. `s` starts, spaces skipped, after the opening bracket (`first`) or
/// after an entry. Entries are separated by commas; an entry of an object
/// is a key, a colon and a value. The test on the lengths only shows that the
/// reading ends: an entry is never empty.
pub open spec fn passed_entries(s: Seq<char>, depth: nat, object: bool, first: bool) -> Option<
    Seq<char>,
>
    decreases depth, s.len(), 1nat,
{
    if has_at(s, 0, if object { '}' } else { ']' }) {
        Some(s.skip(1))
    } else if !first && !has_at(s, 0, ',') {
        None
    } else {
        let entry = if first { s } else { trim(s.skip(1)) };
        let value = if object { passed_key(entry) } else { Some(entry) };
        match value {
            None => None,
            Some(value) => if value.len() <= s.len() {
                match passed_value(value, depth) {
                    None => None,
                    Some(rest) => if trim(rest).len() < s.len() {
                        passed_entries(trim(rest), depth, object, false)
                    } else {
                        None
                    },
                }
            } else {
                None
            },
        }
    }
}

/// The character that writes the decimal digit `n`.
pub open spec fn digit_char(n: nat) -> char {
    (0x30 + n) as char
}

/// The lower-case character that writes the hexadecimal digit `n`.
pub open spec fn hex_char(n: nat) -> char {
    if n < 10 {
        (0x30 + n) as char
    } else {
        (0x61 + n - 10) as char
    }
}

/// The decimal notation of `n`, without leading zeros.
pub open spec fn decimal(n: nat) -> Seq<char>
    decreases n,
{
    if n < 10 {
        seq![digit_char(n)]
    } else {
        decimal(n / 10).push(digit_char(n % 10))
    }
}

/// How a character is written inside a string: the quote and the backslash
/// after a backslash, a character below U+0020 by its short escape where it
/// has one and else as `u00` and two hexadecimal digits after a backslash,
/// and any other character as itself.
pub open spec fn escaped_char(c: char) -> Seq<char> {
    if c == '"' {
        seq!['\\', '"']
    } else if c == '\\' {
        seq!['\\', '\\']
    } else if c == '\u{8}' {
        seq!['\\', 'b']
    } else if c == '\u{c}' {
        seq!['\\', 'f']
    } else if c == '\n' {
        seq!['\\', 'n']
    } else if c == '\r' {
        seq!['\\', 'r']
    } else if c == '\t' {
        seq!['\\', 't']
    } else if (c as u32) < 0x20 {
        seq![
            '\\',
            'u',
            '0',
            '0',
            hex_char((c as u32 / 16) as nat),
            hex_char((c as u32 % 16) as nat),
        ]
    } else {
        seq![c]
    }
}

/// The characters of `s`, each written as it stands inside a string.
pub open spec fn escaped(s: Seq<char>) -> Seq<char>
    decreases s.len(),
{
    if s.len() == 0 {
        Seq::empty()
    } else {
        escaped_char(s[0]) + escaped(s.skip(1))
    }
}

/// The string that holds the characters `s`, between quotes.
pub open spec fn quoted(s: Seq<char>) -> Seq<char> {
    seq!['"'] + escaped(s) + seq!['"']
}

} // verus!
