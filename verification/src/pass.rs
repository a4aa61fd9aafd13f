//! Going past a value that is not wanted.

use crate::grammar::{
    passed_entries, passed_escape_len, passed_key, passed_string_body, passed_value,
};
use crate::reader::{char_at, number_end, read_hex4, read_keyword, skip_spaces};
use vstd::prelude::*;

verus! {

broadcast use vstd::seq_lib::lemma_seq_skip_of_skip;

fn pass_escape(text: &Vec<char>, pos: usize) -> (r: Option<usize>)
    requires
        pos <= text.len(),
    ensures
        match passed_escape_len(text@.skip(pos as int)) {
            Some(n) => r == Some((pos + n) as usize) && pos < pos + n <= text.len(),
            None => r is None,
        },
{
    if pos >= text.len() {
        return None;
    }
    let c = text[pos];
    if c == '"' || c == '\\' || c == '/' || c == 'b' || c == 'f' || c == 'n' || c == 'r' || c
        == 't' {
        Some(pos + 1)
    } else if c == 'u' {
        match read_hex4(text, pos + 1) {
            Some(_) => Some(pos + 5),
            None => None,
        }
    } else {
        None
    }
}

/// Goes past the rest of a string whose opening quote stands before `pos`.
pub fn pass_string_body(text: &Vec<char>, pos: usize) -> (r: Option<usize>)
    requires
        pos <= text.len(),
    ensures
        match passed_string_body(text@.skip(pos as int)) {
            Some(rest) => r matches Some(next) && pos < next <= text.len() && text@.skip(
                next as int,
            ) == rest,
            None => r is None,
        },
{
    let mut i = pos;
    loop
        invariant
            pos <= i <= text.len(),
            passed_string_body(text@.skip(pos as int)) == passed_string_body(text@.skip(i as int)),
        decreases text.len() - i,
    {
        if i >= text.len() {
            return None;
        }
        let c = text[i];
        let code: u32 = c as u32;
        if c == '"' {
            return Some(i + 1);
        } else if c == '\\' {
            match pass_escape(text, i + 1) {
                None => {
                    return None;
                },
                Some(next) => {
                    i = next;
                },
            }
        } else if code < 0x20 {
            return None;
        } else {
            i += 1;
        }
    }
}

fn pass_key(text: &Vec<char>, pos: usize) -> (r: Option<usize>)
    requires
        pos <= text.len(),
    ensures
        match passed_key(text@.skip(pos as int)) {
            Some(rest) => r matches Some(next) && pos < next <= text.len() && text@.skip(
                next as int,
            ) == rest,
            None => r is None,
        },
{
    if !char_at(text, pos, '"') {
        return None;
    }
    match pass_string_body(text, pos + 1) {
        None => None,
        Some(end) => {
            let colon = skip_spaces(text, end);
            if char_at(text, colon, ':') {
                Some(skip_spaces(text, colon + 1))
            } else {
                None
            }
        },
    }
}

/// Goes past the value at `pos`, whose arrays and objects may nest `depth`
/// deep.
pub fn pass_value(text: &Vec<char>, pos: usize, depth: usize) -> (r: Option<usize>)
    requires
        pos <= text.len(),
    ensures
        match passed_value(text@.skip(pos as int), depth as nat) {
            Some(rest) => r matches Some(next) && pos < next <= text.len() && text@.skip(
                next as int,
            ) == rest,
            None => r is None,
        },
    decreases depth, 0nat,
{
    if pos >= text.len() {
        return None;
    }
    let c = text[pos];
    if c == '"' {
        pass_string_body(text, pos + 1)
    } else if c == '[' || c == '{' {
        if depth == 0 {
            None
        } else {
            let first = skip_spaces(text, pos + 1);
            pass_entries(text, first, depth - 1, c == '{')
        }
    } else if c == 't' {
        let r = read_keyword(text, pos, "true");
        proof {
            reveal_strlit("true");
        }
        r
    } else if c == 'f' {
        let r = read_keyword(text, pos, "false");
        proof {
            reveal_strlit("false");
        }
        r
    } else if c == 'n' {
        let r = read_keyword(text, pos, "null");
        proof {
            reveal_strlit("null");
        }
        r
    } else {
        number_end(text, pos)
    }
}

fn pass_entries(text: &Vec<char>, pos: usize, depth: usize, object: bool) -> (r: Option<usize>)
    requires
        pos <= text.len(),
    ensures
        match passed_entries(text@.skip(pos as int), depth as nat, object, true) {
            Some(rest) => r matches Some(next) && pos < next <= text.len() && text@.skip(
                next as int,
            ) == rest,
            None => r is None,
        },
    decreases depth, 1nat,
{
    let close = if object {
        '}'
    } else {
        ']'
    };
    let mut i = pos;
    let mut first = true;
    loop
        invariant
            pos <= i <= text.len(),
            close == if object {
                '}'
            } else {
                ']'
            },
            passed_entries(text@.skip(pos as int), depth as nat, object, true) == passed_entries(
                text@.skip(i as int),
                depth as nat,
                object,
                first,
            ),
        decreases text.len() - i,
    {
        if char_at(text, i, close) {
            return Some(i + 1);
        }
        if !first && !char_at(text, i, ',') {
            return None;
        }
        let entry = if first {
            i
        } else {
            skip_spaces(text, i + 1)
        };
        let value = if object {
            match pass_key(text, entry) {
                None => {
                    return None;
                },
                Some(value) => value,
            }
        } else {
            entry
        };
        match pass_value(text, value, depth) {
            None => {
                return None;
            },
            Some(rest) => {
                i = skip_spaces(text, rest);
                first = false;
            },
        }
    }
}

} // verus!
