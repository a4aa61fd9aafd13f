//! Reading looks no further than it must.
//!
//! The laws of this module say that what is read at the front of a text stays
//! the same when more text is put behind it: a token that ends at a quote or a
//! bracket as it is, and a number or an integer where at least one character
//! followed it before. It follows that no text goes on after an expense, and
//! that the text of an expense cut short is no expense.

use crate::facts::{
    lemma_digits_len_bounds, lemma_digits_len_take, lemma_number_alone, lemma_trim_len,
};
use crate::grammar::{
    digits_len, escape, exponent_end, fraction_end, has_at, hex4, integer_part_end, is_space,
    keyword, number, number_len, passed_entries, passed_escape_len, passed_key,
    passed_string_body, passed_value, spaces_len, string, string_body, trim, unsigned,
    MAX_NESTING,
};
use crate::data_types::ExpenseView;
use crate::round_trip::lemma_round_trip;
use crate::wire::{
    date, date_items, date_key, date_member, date_members, date_parts, description, expense,
    expense_items, expense_key, expense_member, expense_members, expense_parts, expense_text,
    member_key, no_date_members, no_expense_members, DateMembers, ExpenseMembers,
};
use vstd::prelude::*;

verus! {

/// Spaces that are followed by another character are followed by it still.
pub proof fn lemma_spaces_extend(s: Seq<char>, x: Seq<char>)
    requires
        spaces_len(s) < s.len(),
    ensures
        spaces_len(s + x) == spaces_len(s),
        trim(s + x) == trim(s) + x,
    decreases s.len(),
{
    assert((s + x)[0] == s[0]);
    if is_space(s[0]) {
        assert((s + x).skip(1) =~= s.skip(1) + x);
        lemma_spaces_extend(s.skip(1), x);
    }
    lemma_trim_len(s);
    assert((s + x).skip(spaces_len(s) as int) =~= s.skip(spaces_len(s) as int) + x);
}

/// Behind nothing but spaces, the spaces of what follows count as well.
pub proof fn lemma_spaces_go_on(s: Seq<char>, x: Seq<char>)
    requires
        spaces_len(s) == s.len(),
    ensures
        spaces_len(s + x) == s.len() + spaces_len(x),
    decreases s.len(),
{
    if s.len() == 0 {
        assert(s + x =~= x);
    } else {
        assert((s + x)[0] == s[0]);
        assert((s + x).skip(1) =~= s.skip(1) + x);
        lemma_spaces_go_on(s.skip(1), x);
    }
}

/// Digits that are followed by another character are followed by it still.
pub proof fn lemma_digits_extend(s: Seq<char>, x: Seq<char>)
    requires
        digits_len(s) < s.len(),
    ensures
        digits_len(s + x) == digits_len(s),
{
    lemma_digits_len_take(s + x, s.len() as int);
    assert((s + x).take(s.len() as int) =~= s);
}

/// The digits from `from` on, where another character follows them.
proof fn lemma_digits_extend_from(s: Seq<char>, x: Seq<char>, from: int)
    requires
        0 <= from <= s.len(),
        from + digits_len(s.skip(from)) < s.len(),
    ensures
        digits_len((s + x).skip(from)) == digits_len(s.skip(from)),
{
    assert((s + x).skip(from) =~= s.skip(from) + x);
    lemma_digits_extend(s.skip(from), x);
}

/// An integer that is followed by another character is read as before.
pub proof fn lemma_unsigned_extends(s: Seq<char>, x: Seq<char>, max: nat)
    requires
        unsigned(s, max) matches Some((_, rest)) && rest.len() > 0,
    ensures
        unsigned(s, max) matches Some((value, rest)) ==> unsigned(s + x, max) == Some(
            (value, rest + x),
        ),
{
    let n = digits_len(s) as int;
    lemma_digits_len_bounds(s);
    lemma_digits_extend(s, x);
    assert((s + x)[0] == s[0]);
    assert((s + x)[n] == s[n]);
    assert((s + x).take(n) =~= s.take(n));
    assert((s + x).skip(n) =~= s.skip(n) + x);
}

/// A number that is followed by another character ends where it did.
pub proof fn lemma_number_len_extends(s: Seq<char>, x: Seq<char>)
    requires
        number_len(s) matches Some(n) && n < s.len(),
    ensures
        number_len(s + x) == number_len(s),
{
    let t = s + x;
    let n = number_len(s)->0;
    let a = integer_part_end(s)->0;
    let b = fraction_end(s, a)->0;
    lemma_number_alone(s);
    let start: int = if has_at(s, 0, '-') { 1 } else { 0 };
    lemma_digits_len_bounds(s.skip(start));
    if has_at(s, a, '.') {
        lemma_digits_len_bounds(s.skip(a + 1));
    }
    let digits: int = if has_at(s, b + 1, '+') || has_at(s, b + 1, '-') {
        b + 2
    } else {
        b + 1
    };
    if has_at(s, b, 'e') || has_at(s, b, 'E') {
        lemma_digits_len_bounds(s.skip(digits));
    }
    assert(0 < a <= b <= n < s.len());
    assert forall|i: int| 0 <= i <= n implies t[i] == s[i] by {}
    lemma_digits_extend_from(s, x, start);
    assert(integer_part_end(t) == Some(a));
    if has_at(s, a, '.') {
        lemma_digits_extend_from(s, x, a + 1);
    }
    assert(fraction_end(t, a) == Some(b));
    if has_at(s, b, 'e') || has_at(s, b, 'E') {
        lemma_digits_extend_from(s, x, digits);
    }
    assert(exponent_end(t, b) == Some(n));
}

/// A number that is followed by another character is read as before.
pub proof fn lemma_number_extends(s: Seq<char>, x: Seq<char>)
    requires
        number(s) matches Some((_, rest)) && rest.len() > 0,
    ensures
        number(s + x) == followed_by(number(s), x),
{
    let n = number_len(s)->0;
    lemma_number_alone(s);
    lemma_number_len_extends(s, x);
    assert((s + x).take(n) =~= s.take(n));
    assert((s + x).skip(n) =~= s.skip(n) + x);
}

/// A word is read as before.
pub proof fn lemma_keyword_extends(s: Seq<char>, x: Seq<char>, word: Seq<char>)
    requires
        keyword(s, word) is Some,
    ensures
        keyword(s + x, word) == Some(keyword(s, word)->0 + x),
{
    let n = word.len() as int;
    assert((s + x).take(n) =~= s.take(n));
    assert((s + x).skip(n) =~= s.skip(n) + x);
}

/// An escape is read as before.
pub proof fn lemma_escape_extends(s: Seq<char>, x: Seq<char>)
    requires
        escape(s) is Some,
    ensures
        escape(s + x) == escape(s),
{
    let t = s + x;
    assert(t[0] == s[0]);
    if s[0] == 'u' {
        lemma_hex4_extends(s.skip(1), x);
        assert(t.skip(1) =~= s.skip(1) + x);
        let unit = hex4(s.skip(1))->0;
        if 0xD800 <= unit < 0xDC00 {
            assert(t[5] == s[5] && t[6] == s[6]);
            lemma_hex4_extends(s.skip(7), x);
            assert(t.skip(7) =~= s.skip(7) + x);
        }
    }
}

/// Four hexadecimal digits are read as before.
pub proof fn lemma_hex4_extends(s: Seq<char>, x: Seq<char>)
    requires
        hex4(s) is Some,
    ensures
        hex4(s + x) == hex4(s),
{
    let t = s + x;
    assert(t[0] == s[0] && t[1] == s[1] && t[2] == s[2] && t[3] == s[3]);
}

/// `found` with `x` put behind the text that follows.
pub open spec fn followed_by<T>(found: Option<(T, Seq<char>)>, x: Seq<char>) -> Option<
    (T, Seq<char>),
> {
    match found {
        None => None,
        Some((value, rest)) => Some((value, rest + x)),
    }
}

/// The rest of a string is read as before.
pub proof fn lemma_string_body_extends(s: Seq<char>, x: Seq<char>)
    requires
        string_body(s) is Some,
    ensures
        string_body(s + x) == followed_by(string_body(s), x),
    decreases s.len(),
{
    let t = s + x;
    assert(t[0] == s[0]);
    if s[0] == '"' {
        assert(t.skip(1) =~= s.skip(1) + x);
    } else if s[0] == '\\' {
        let n = match escape(s.skip(1)) {
            Some((_, n)) => n,
            None => 0,
        };
        crate::grammar::lemma_escape_in_bounds(s.skip(1));
        lemma_escape_extends(s.skip(1), x);
        assert(t.skip(1) =~= s.skip(1) + x);
        lemma_string_body_extends(s.skip(1 + n), x);
        assert(t.skip(1 + n) =~= s.skip(1 + n) + x);
    } else {
        lemma_string_body_extends(s.skip(1), x);
        assert(t.skip(1) =~= s.skip(1) + x);
    }
}

/// A string is read as before.
pub proof fn lemma_string_extends(s: Seq<char>, x: Seq<char>)
    requires
        string(s) is Some,
    ensures
        string(s + x) == followed_by(string(s), x),
{
    assert((s + x)[0] == s[0]);
    assert((s + x).skip(1) =~= s.skip(1) + x);
    lemma_string_body_extends(s.skip(1), x);
}

/// The rest of a string that is passed over is passed over as before.
pub proof fn lemma_passed_string_body_extends(s: Seq<char>, x: Seq<char>)
    requires
        passed_string_body(s) is Some,
    ensures
        passed_string_body(s + x) == Some(passed_string_body(s)->0 + x),
    decreases s.len(),
{
    let t = s + x;
    assert(t[0] == s[0]);
    if s[0] == '"' {
        assert(t.skip(1) =~= s.skip(1) + x);
    } else if s[0] == '\\' {
        let e = s.skip(1);
        let n = passed_escape_len(e)->0;
        assert(t.skip(1) =~= e + x);
        assert((e + x)[0] == e[0]);
        if e[0] == 'u' {
            lemma_hex4_extends(e.skip(1), x);
            assert((e + x).skip(1) =~= e.skip(1) + x);
        }
        assert(passed_escape_len(e + x) == Some(n));
        lemma_passed_string_body_extends(s.skip(1 + n), x);
        assert(t.skip(1 + n) =~= s.skip(1 + n) + x);
    } else {
        lemma_passed_string_body_extends(s.skip(1), x);
        assert(t.skip(1) =~= s.skip(1) + x);
    }
}

/// `found` with `x` put behind it.
pub open spec fn before(found: Option<Seq<char>>, x: Seq<char>) -> Option<Seq<char>> {
    match found {
        None => None,
        Some(rest) => Some(rest + x),
    }
}

/// The key of a member that is passed over is passed over as before, where
/// its value follows.
pub proof fn lemma_passed_key_extends(s: Seq<char>, x: Seq<char>)
    requires
        passed_key(s) matches Some(value) && value.len() > 0,
    ensures
        passed_key(s + x) == before(passed_key(s), x),
{
    let t = s + x;
    let body = s.skip(1);
    let rest = passed_string_body(body)->0;
    assert(t[0] == s[0]);
    assert(t.skip(1) =~= body + x);
    lemma_passed_string_body_extends(body, x);
    lemma_trim_len(rest);
    lemma_spaces_extend(rest, x);
    let colon = trim(rest);
    assert((colon + x)[0] == colon[0]);
    assert((colon + x).skip(1) =~= colon.skip(1) + x);
    lemma_trim_len(colon.skip(1));
    lemma_spaces_extend(colon.skip(1), x);
}

/// An array or an object does not end without its closing bracket.
proof fn lemma_passed_entries_not_empty(s: Seq<char>, depth: nat, object: bool, first: bool)
    ensures
        passed_entries(s, depth, object, first) is Some ==> s.len() > 0,
{
}

/// The members of a date do not end without the closing brace.
proof fn lemma_date_members_not_empty(s: Seq<char>, members: DateMembers, first: bool)
    ensures
        date_members(s, members, first) is Some ==> trim(s).len() > 0,
{
    lemma_trim_len(trim(s).skip(1));
}

/// The members of an expense do not end without the closing brace.
proof fn lemma_expense_members_not_empty(s: Seq<char>, members: ExpenseMembers, first: bool)
    ensures
        expense_members(s, members, first) is Some ==> trim(s).len() > 0,
{
    lemma_trim_len(trim(s).skip(1));
}

/// A value that is passed over and followed by another character is passed
/// over as before.
pub proof fn lemma_passed_value_extends(s: Seq<char>, x: Seq<char>, depth: nat)
    requires
        passed_value(s, depth) matches Some(rest) && rest.len() > 0,
    ensures
        passed_value(s + x, depth) == before(passed_value(s, depth), x),
    decreases depth, s.len(), 0nat,
{
    let t = s + x;
    assert(t[0] == s[0]);
    if s[0] == '"' {
        assert(t.skip(1) =~= s.skip(1) + x);
        lemma_passed_string_body_extends(s.skip(1), x);
    } else if s[0] == '[' || s[0] == '{' {
        let inner = trim(s.skip(1));
        assert(t.skip(1) =~= s.skip(1) + x);
        lemma_trim_len(s.skip(1));
        lemma_spaces_extend(s.skip(1), x);
        lemma_passed_entries_extends(inner, x, (depth - 1) as nat, s[0] == '{', true);
    } else if s[0] == 't' {
        lemma_keyword_extends(s, x, "true"@);
    } else if s[0] == 'f' {
        lemma_keyword_extends(s, x, "false"@);
    } else if s[0] == 'n' {
        lemma_keyword_extends(s, x, "null"@);
    } else {
        let n = number_len(s)->0;
        lemma_number_alone(s);
        lemma_number_len_extends(s, x);
        assert(t.skip(n) =~= s.skip(n) + x);
    }
}

/// An array or an object that is passed over is passed over as before.
pub proof fn lemma_passed_entries_extends(
    s: Seq<char>,
    x: Seq<char>,
    depth: nat,
    object: bool,
    first: bool,
)
    requires
        passed_entries(s, depth, object, first) is Some,
    ensures
        passed_entries(s + x, depth, object, first) == before(
            passed_entries(s, depth, object, first),
            x,
        ),
    decreases depth, s.len(), 1nat,
{
    let t = s + x;
    assert(s.len() > 0);
    assert(t[0] == s[0]);
    if has_at(s, 0, if object { '}' } else { ']' }) {
        assert(t.skip(1) =~= s.skip(1) + x);
    } else {
        let entry = if first { s } else { trim(s.skip(1)) };
        let value = (if object { passed_key(entry) } else { Some(entry) })->0;
        let rest = passed_value(value, depth)->0;
        assert(value.len() > 0);
        if !first {
            assert(t.skip(1) =~= s.skip(1) + x);
            lemma_trim_len(s.skip(1));
            lemma_spaces_extend(s.skip(1), x);
        }
        if object {
            lemma_passed_key_extends(entry, x);
        }
        lemma_trim_len(rest);
        lemma_passed_entries_not_empty(trim(rest), depth, object, false);
        lemma_passed_value_extends(value, x, depth);
        lemma_spaces_extend(rest, x);
        lemma_passed_entries_extends(trim(rest), x, depth, object, false);
    }
}

/// The key of a member is read as before, where its value follows.
pub proof fn lemma_member_key_extends(s: Seq<char>, x: Seq<char>)
    requires
        member_key(s) matches Some((_, value)) && value.len() > 0,
    ensures
        member_key(s + x) == followed_by(member_key(s), x),
{
    let rest = match string(s) {
        Some((_, rest)) => rest,
        None => s,
    };
    lemma_string_extends(s, x);
    lemma_trim_len(rest);
    lemma_spaces_extend(rest, x);
    let colon = trim(rest);
    assert((colon + x)[0] == colon[0]);
    assert((colon + x).skip(1) =~= colon.skip(1) + x);
    lemma_trim_len(colon.skip(1));
    lemma_spaces_extend(colon.skip(1), x);
}

/// A member of a date that is followed by another character is read as
/// before.
pub proof fn lemma_date_member_extends(
    key: Seq<char>,
    s: Seq<char>,
    x: Seq<char>,
    members: DateMembers,
)
    requires
        date_member(key, s, members) matches Some((_, rest)) && rest.len() > 0,
    ensures
        date_member(key, s + x, members) == followed_by(date_member(key, s, members), x),
{
    reveal(date_member);
    if key == "day"@ || key == "month"@ {
        lemma_unsigned_extends(s, x, 0xFF);
    } else if key == "year"@ {
        lemma_unsigned_extends(s, x, 0xFFFF);
    } else {
        lemma_passed_value_extends(s, x, MAX_NESTING as nat);
    }
}

/// The members of a date are read as before.
pub proof fn lemma_date_members_extend(
    s: Seq<char>,
    x: Seq<char>,
    members: DateMembers,
    first: bool,
)
    requires
        date_members(s, members, first) is Some,
    ensures
        date_members(s + x, members, first) == followed_by(date_members(s, members, first), x),
    decreases s.len(),
{
    let t = trim(s);
    lemma_trim_len(s);
    assert(t.len() > 0);
    lemma_spaces_extend(s, x);
    assert((t + x)[0] == t[0]);
    assert((t + x).skip(1) =~= t.skip(1) + x);
    if has_at(t, 0, '}') {
    } else {
        let at = if first { t } else { trim(t.skip(1)) };
        if !first {
            lemma_trim_len(t.skip(1));
            lemma_spaces_extend(t.skip(1), x);
        }
        if let Some((key, value)) = member_key(at) {
            if let Some((more, rest)) = date_member(key, value, members) {
                crate::facts::lemma_member_key_shrinks(at);
                crate::facts::lemma_date_member_shrinks(key, value, members);
                lemma_trim_len(rest);
                lemma_date_members_not_empty(rest, more, false);
                lemma_member_key_extends(at, x);
                lemma_date_member_extends(key, value, x, members);
                lemma_date_members_extend(rest, x, more, false);
            }
        }
    }
}

/// The values of a date do not end without the closing bracket.
proof fn lemma_date_items_not_empty(s: Seq<char>, members: DateMembers, index: nat)
    ensures
        date_items(s, members, index) is Some ==> trim(s).len() > 0,
{
    let t = trim(s);
    if index < 3 {
        let at = if index == 0 { t } else { trim(t.skip(1)) };
        lemma_trim_len(t.skip(1));
        crate::facts::lemma_date_member_shrinks(date_key(index), at, members);
    }
}

/// The values of a date are read as before.
pub proof fn lemma_date_items_extend(s: Seq<char>, x: Seq<char>, members: DateMembers, index: nat)
    requires
        date_items(s, members, index) is Some,
    ensures
        date_items(s + x, members, index) == followed_by(date_items(s, members, index), x),
    decreases 3 - index,
{
    let t = trim(s);
    lemma_trim_len(s);
    lemma_date_items_not_empty(s, members, index);
    lemma_spaces_extend(s, x);
    assert((t + x)[0] == t[0]);
    assert((t + x).skip(1) =~= t.skip(1) + x);
    if index < 3 {
        let at = if index == 0 { t } else { trim(t.skip(1)) };
        let key = date_key(index);
        crate::facts::lemma_date_member_shrinks(key, at, members);
        if index > 0 {
            lemma_trim_len(t.skip(1));
            lemma_spaces_extend(t.skip(1), x);
        }
        if let Some((more, rest)) = date_member(key, at, members) {
            lemma_trim_len(rest);
            lemma_date_items_not_empty(rest, more, index + 1);
            lemma_date_member_extends(key, at, x, members);
            lemma_date_items_extend(rest, x, more, index + 1);
        }
    }
}

/// A date is read as before.
pub proof fn lemma_date_extends(s: Seq<char>, x: Seq<char>)
    requires
        date(s) is Some,
    ensures
        date_parts(s + x) == followed_by(date_parts(s), x),
        date(s + x) == followed_by(date(s), x),
{
    assert((s + x)[0] == s[0]);
    assert((s + x).skip(1) =~= s.skip(1) + x);
    if has_at(s, 0, '{') {
        lemma_date_members_extend(s.skip(1), x, no_date_members(), true);
    } else {
        lemma_date_items_extend(s.skip(1), x, no_date_members(), 0);
    }
}

/// A description is read as before.
pub proof fn lemma_description_extends(s: Seq<char>, x: Seq<char>)
    requires
        description(s) is Some,
    ensures
        description(s + x) == followed_by(description(s), x),
{
    assert((s + x)[0] == s[0]);
    if has_at(s, 0, 'n') {
        lemma_keyword_extends(s, x, "null"@);
    } else {
        lemma_string_extends(s, x);
    }
}

/// A member of an expense that is followed by another character is read as
/// before.
pub proof fn lemma_expense_member_extends(
    key: Seq<char>,
    s: Seq<char>,
    x: Seq<char>,
    members: ExpenseMembers,
)
    requires
        expense_member(key, s, members) matches Some((_, rest)) && rest.len() > 0,
    ensures
        expense_member(key, s + x, members) == followed_by(expense_member(key, s, members), x),
{
    reveal(expense_member);
    if key == "id"@ {
        lemma_unsigned_extends(s, x, 0xFFFF_FFFF);
    } else if key == "amount"@ {
        lemma_number_extends(s, x);
    } else if key == "category"@ {
        lemma_string_extends(s, x);
    } else if key == "date"@ {
        lemma_date_extends(s, x);
    } else if key == "description"@ {
        lemma_description_extends(s, x);
    } else {
        lemma_passed_value_extends(s, x, MAX_NESTING as nat);
    }
}

/// The members of an expense are read as before.
pub proof fn lemma_expense_members_extend(
    s: Seq<char>,
    x: Seq<char>,
    members: ExpenseMembers,
    first: bool,
)
    requires
        expense_members(s, members, first) is Some,
    ensures
        expense_members(s + x, members, first) == followed_by(
            expense_members(s, members, first),
            x,
        ),
    decreases s.len(),
{
    let t = trim(s);
    lemma_trim_len(s);
    assert(t.len() > 0);
    lemma_spaces_extend(s, x);
    assert((t + x)[0] == t[0]);
    assert((t + x).skip(1) =~= t.skip(1) + x);
    if has_at(t, 0, '}') {
    } else {
        let at = if first { t } else { trim(t.skip(1)) };
        if !first {
            lemma_trim_len(t.skip(1));
            lemma_spaces_extend(t.skip(1), x);
        }
        if let Some((key, value)) = member_key(at) {
            if let Some((more, rest)) = expense_member(key, value, members) {
                crate::facts::lemma_member_key_shrinks(at);
                crate::facts::lemma_expense_member_shrinks(key, value, members);
                lemma_trim_len(rest);
                lemma_expense_members_not_empty(rest, more, false);
                lemma_member_key_extends(at, x);
                lemma_expense_member_extends(key, value, x, members);
                lemma_expense_members_extend(rest, x, more, false);
            }
        }
    }
}

/// The values of an expense do not end without the closing bracket.
proof fn lemma_expense_items_not_empty(s: Seq<char>, members: ExpenseMembers, index: nat)
    ensures
        expense_items(s, members, index) is Some ==> trim(s).len() > 0,
{
    let t = trim(s);
    if index < 5 {
        let at = if index == 0 { t } else { trim(t.skip(1)) };
        lemma_trim_len(t.skip(1));
        crate::facts::lemma_expense_member_shrinks(expense_key(index), at, members);
    }
}

/// The values of an expense are read as before.
pub proof fn lemma_expense_items_extend(
    s: Seq<char>,
    x: Seq<char>,
    members: ExpenseMembers,
    index: nat,
)
    requires
        expense_items(s, members, index) is Some,
    ensures
        expense_items(s + x, members, index) == followed_by(
            expense_items(s, members, index),
            x,
        ),
    decreases 5 - index,
{
    let t = trim(s);
    lemma_trim_len(s);
    lemma_expense_items_not_empty(s, members, index);
    lemma_spaces_extend(s, x);
    assert((t + x)[0] == t[0]);
    assert((t + x).skip(1) =~= t.skip(1) + x);
    if index < 5 {
        let at = if index == 0 { t } else { trim(t.skip(1)) };
        let key = expense_key(index);
        crate::facts::lemma_expense_member_shrinks(key, at, members);
        if index > 0 {
            lemma_trim_len(t.skip(1));
            lemma_spaces_extend(t.skip(1), x);
        }
        if let Some((more, rest)) = expense_member(key, at, members) {
            lemma_trim_len(rest);
            lemma_expense_items_not_empty(rest, more, index + 1);
            lemma_expense_member_extends(key, at, x, members);
            lemma_expense_items_extend(rest, x, more, index + 1);
        }
    }
}

/// An object or an array that holds an expense is read as before.
pub proof fn lemma_expense_parts_extend(s: Seq<char>, x: Seq<char>)
    requires
        expense_parts(s) is Some,
    ensures
        expense_parts(s + x) == followed_by(expense_parts(s), x),
{
    assert((s + x)[0] == s[0]);
    assert((s + x).skip(1) =~= s.skip(1) + x);
    if has_at(s, 0, '{') {
        lemma_expense_members_extend(s.skip(1), x, no_expense_members(), true);
    } else {
        lemma_expense_items_extend(s.skip(1), x, no_expense_members(), 0);
    }
}

/// Only spaces follow an expense: where a text is an expense, and is one
/// still with more text behind it, that text holds nothing but spaces.
pub proof fn lemma_nothing_follows(s: Seq<char>, x: Seq<char>)
    requires
        expense(s) is Some,
        expense(s + x) is Some,
    ensures
        spaces_len(x) == x.len(),
{
    let t = trim(s);
    lemma_trim_len(s);
    lemma_spaces_extend(s, x);
    lemma_expense_parts_extend(t, x);
    if let Some((_, rest)) = expense_parts(t) {
        lemma_trim_len(rest);
        lemma_trim_len(rest + x);
        lemma_spaces_go_on(rest, x);
    }
}

/// A text that is an expense, cut before a character of it that is no space,
/// is no expense.
pub proof fn lemma_cut_is_refused(s: Seq<char>, n: int)
    requires
        expense(s) is Some,
        0 <= n <= s.len(),
        spaces_len(s.skip(n)) < s.len() - n,
    ensures
        expense(s.take(n)) is None,
{
    assert(s.take(n) + s.skip(n) =~= s);
    if expense(s.take(n)) is Some {
        lemma_nothing_follows(s.take(n), s.skip(n));
    }
}

/// A text that holds nothing but spaces ends with a space.
proof fn lemma_spaces_to_the_end(s: Seq<char>)
    requires
        s.len() > 0,
        spaces_len(s) == s.len(),
    ensures
        is_space(s.last()),
    decreases s.len(),
{
    if s.len() > 1 {
        lemma_trim_len(s.skip(1));
        lemma_spaces_to_the_end(s.skip(1));
        assert(s.skip(1).last() == s.last());
    }
}

/// The text of an expense, cut short, is no expense.
pub proof fn lemma_cut_short_is_refused(value: ExpenseView, n: int)
    requires
        value.amount is Finite,
        value.amount.well_formed(),
        0 <= n < expense_text(value).len(),
    ensures
        expense(expense_text(value).take(n)) is None,
{
    let text = expense_text(value);
    let cut = text.skip(n);
    lemma_round_trip(value);
    reveal_strlit("}");
    assert(text.last() == '}');
    assert(cut.last() == text.last());
    lemma_trim_len(cut);
    if spaces_len(cut) == cut.len() {
        lemma_spaces_to_the_end(cut);
    }
    lemma_cut_is_refused(text, n);
}

} // verus!
