//! Facts about the grammar: what a number depends on, that reading moves
//! forward through the text, and that what is read is whole.

use crate::grammar::{
    digit_value, digits_len, digits_value, escape, exponent_end, fraction_end, has_at,
    integer_part_end, is_digit, is_number, is_space, number, number_len, passed_entries,
    passed_escape_len, passed_key, passed_string_body, passed_value, spaces_len, string,
    string_body, trim, unsigned,
};
use crate::wire::{
    date, date_items, date_key, date_member, date_members, expense, expense_items, expense_key,
    expense_member, expense_members, expense_of, member_key, no_date_members,
    no_expense_members, DateMembers, ExpenseMembers,
};
use vstd::prelude::*;

verus! {

/// Every character before the end of the run of digits is a digit.
pub proof fn lemma_digits_len_bounds(s: Seq<char>)
    ensures
        digits_len(s) <= s.len(),
        forall|i: int| 0 <= i < digits_len(s) ==> is_digit(#[trigger] s[i]),
        !digit_at_front(s.skip(digits_len(s) as int)),
    decreases s.len(),
{
    if s.len() > 0 && is_digit(s[0]) {
        lemma_digits_len_bounds(s.skip(1));
        assert forall|i: int| 0 <= i < digits_len(s) implies is_digit(#[trigger] s[i]) by {
            if i > 0 {
                assert(s[i] == s.skip(1)[i - 1]);
            }
        }
        assert(s.skip(1).skip(digits_len(s.skip(1)) as int) =~= s.skip(digits_len(s) as int));
    } else {
        assert(s.skip(0) =~= s);
    }
}

/// Whether `s` starts with a decimal digit.
pub open spec fn digit_at_front(s: Seq<char>) -> bool {
    s.len() > 0 && is_digit(s[0])
}

/// A longer run of digits writes a number that is no smaller.
pub proof fn lemma_digits_value_grows(s: Seq<char>, k: int, n: int)
    requires
        0 <= k <= n <= s.len(),
    ensures
        digits_value(s.take(k)) <= digits_value(s.take(n)),
    decreases n - k,
{
    if k < n {
        lemma_digits_value_grows(s, k, n - 1);
        assert(s.take(n).drop_last() =~= s.take(n - 1));
        assert(digits_value(s.take(n)) >= digits_value(s.take(n - 1)) * 10) by {
            assert(digits_value(s.take(n)) == digits_value(s.take(n).drop_last()) * 10
                + digit_value(s.take(n).last()));
        }
    }
}

/// The run of digits at the front of `s` ends before the first character that
/// is no digit.
pub proof fn lemma_digits_len_stops(s: Seq<char>, i: int)
    requires
        0 <= i < s.len(),
        !is_digit(s[i]),
    ensures
        digits_len(s) <= i,
    decreases i,
{
    if i > 0 && is_digit(s[0]) {
        lemma_digits_len_stops(s.skip(1), i - 1);
    }
}

/// The run of digits at the front of the first `k` characters of `s` is the
/// run at the front of `s`, cut at `k`.
pub proof fn lemma_digits_len_take(s: Seq<char>, k: int)
    requires
        0 <= k <= s.len(),
    ensures
        digits_len(s.take(k)) == if digits_len(s) <= k {
            digits_len(s)
        } else {
            k as nat
        },
    decreases k,
{
    if k > 0 && is_digit(s[0]) {
        lemma_digits_len_take(s.skip(1), k - 1);
        assert(s.take(k).skip(1) =~= s.skip(1).take(k - 1));
    }
}

/// The run of digits that starts at `from` in the first `n` characters of `s`
/// is the run that starts there in `s`, cut at `n`.
pub proof fn lemma_digits_len_within(s: Seq<char>, n: int, from: int)
    requires
        0 <= from <= n <= s.len(),
    ensures
        digits_len(s.take(n).skip(from)) == if digits_len(s.skip(from)) <= n - from {
            digits_len(s.skip(from))
        } else {
            (n - from) as nat
        },
{
    lemma_digits_len_take(s.skip(from), n - from);
    assert(s.take(n).skip(from) =~= s.skip(from).take(n - from));
}

/// A character that cannot go on a number: no digit, point or exponent letter.
pub open spec fn ends_number(s: Seq<char>, n: int) -> bool {
    n == s.len() || (0 <= n < s.len() && !is_digit(s[n]) && s[n] != '.' && s[n] != 'e' && s[n]
        != 'E')
}

/// The run of digits from `from` is the same in `s` and in its first `n`
/// characters, where it ends by `n` in either and no digit stands at `n`.
pub proof fn lemma_digits_len_same(s: Seq<char>, n: int, from: int)
    requires
        0 <= from <= n <= s.len(),
        n < s.len() ==> !is_digit(s[n]),
    ensures
        digits_len(s.take(n).skip(from)) == digits_len(s.skip(from)),
        from + digits_len(s.skip(from)) <= n,
{
    lemma_digits_len_within(s, n, from);
    if n < s.len() {
        lemma_digits_len_stops(s.skip(from), n - from);
    } else {
        lemma_digits_len_bounds(s.skip(from));
    }
}

/// The number at the front of `s` is a number by itself.
pub proof fn lemma_number_alone(s: Seq<char>)
    requires
        number_len(s) is Some,
    ensures
        0 < number_len(s)->0 <= s.len(),
        is_number(s.take(number_len(s)->0)),
{
    let n = number_len(s)->0;
    let a = integer_part_end(s)->0;
    let b = fraction_end(s, a)->0;
    let start: int = if has_at(s, 0, '-') { 1 } else { 0 };
    lemma_digits_len_bounds(s.skip(start));
    if has_at(s, a, '.') {
        lemma_digits_len_bounds(s.skip(a + 1));
    }
    assert(0 < a <= b <= n <= s.len()) by {
        if has_at(s, b, 'e') || has_at(s, b, 'E') {
            let digits: int = if has_at(s, b + 1, '+') || has_at(s, b + 1, '-') {
                b + 2
            } else {
                b + 1
            };
            lemma_digits_len_bounds(s.skip(digits));
        }
    }
    let p = s.take(n);
    lemma_digits_len_within(s, n, start);
    assert(integer_part_end(p) == Some(a));
    if has_at(s, a, '.') {
        lemma_digits_len_within(s, n, a + 1);
    }
    assert(fraction_end(p, a) == Some(b));
    if has_at(s, b, 'e') || has_at(s, b, 'E') {
        let digits: int = if has_at(s, b + 1, '+') || has_at(s, b + 1, '-') {
            b + 2
        } else {
            b + 1
        };
        lemma_digits_len_within(s, n, digits);
    }
    assert(exponent_end(p, b) == Some(n));
}

/// A number that is followed by a character which cannot go on a number is
/// read to its end.
pub proof fn lemma_number_before(s: Seq<char>, n: int)
    requires
        0 <= n <= s.len(),
        is_number(s.take(n)),
        ends_number(s, n),
    ensures
        number_len(s) == Some(n),
{
    let p = s.take(n);
    let a = integer_part_end(p)->0;
    let b = fraction_end(p, a)->0;
    let start: int = if has_at(p, 0, '-') { 1 } else { 0 };
    lemma_digits_len_bounds(p.skip(start));
    lemma_digits_len_same(s, n, start);
    assert(integer_part_end(s) == Some(a));
    if has_at(p, a, '.') {
        lemma_digits_len_bounds(p.skip(a + 1));
        lemma_digits_len_same(s, n, a + 1);
    }
    assert(fraction_end(s, a) == Some(b));
    if has_at(p, b, 'e') || has_at(p, b, 'E') {
        let digits: int = if has_at(p, b + 1, '+') || has_at(p, b + 1, '-') {
            b + 2
        } else {
            b + 1
        };
        if digits <= n {
            lemma_digits_len_bounds(p.skip(digits));
            lemma_digits_len_same(s, n, digits);
        } else {
            assert(p.skip(digits).len() == 0);
        }
    }
    assert(exponent_end(s, b) == Some(n));
}

/// Trimming takes characters away and adds none.
pub proof fn lemma_trim_len(s: Seq<char>)
    ensures
        spaces_len(s) <= s.len(),
        trim(s).len() <= s.len(),
    decreases s.len(),
{
    if s.len() > 0 && is_space(s[0]) {
        lemma_trim_len(s.skip(1));
    }
}

/// What follows a string is shorter than the text that holds the string.
pub proof fn lemma_string_body_shrinks(s: Seq<char>)
    ensures
        string_body(s) matches Some((_, rest)) ==> rest.len() < s.len(),
    decreases s.len(),
{
    if s.len() == 0 || s[0] == '"' {
    } else if s[0] == '\\' {
        if let Some((_, n)) = escape(s.skip(1)) {
            crate::grammar::lemma_escape_in_bounds(s.skip(1));
            lemma_string_body_shrinks(s.skip(1 + n));
        }
    } else {
        lemma_string_body_shrinks(s.skip(1));
    }
}

/// What follows a string is shorter than the text that starts with the
/// string.
pub proof fn lemma_string_shrinks(s: Seq<char>)
    ensures
        string(s) matches Some((_, rest)) ==> rest.len() < s.len(),
{
    if has_at(s, 0, '"') {
        lemma_string_body_shrinks(s.skip(1));
    }
}

/// What follows an integer is shorter than the text that starts with it.
pub proof fn lemma_unsigned_shrinks(s: Seq<char>, max: nat)
    ensures
        unsigned(s, max) matches Some((_, rest)) ==> rest.len() < s.len(),
{
    lemma_digits_len_bounds(s);
}

/// What follows a number is shorter than the text that starts with it.
pub proof fn lemma_number_shrinks(s: Seq<char>)
    ensures
        number_len(s) matches Some(n) ==> 0 < n <= s.len(),
        number(s) matches Some((_, rest)) ==> rest.len() < s.len(),
{
    if number_len(s) is Some {
        lemma_number_alone(s);
    }
}

/// What follows a string that is passed over is shorter than the text that
/// holds the string.
pub proof fn lemma_passed_string_body_shrinks(s: Seq<char>)
    ensures
        passed_string_body(s) matches Some(rest) ==> rest.len() < s.len(),
    decreases s.len(),
{
    if s.len() == 0 || s[0] == '"' {
    } else if s[0] == '\\' {
        if let Some(n) = passed_escape_len(s.skip(1)) {
            lemma_passed_string_body_shrinks(s.skip(1 + n));
        }
    } else {
        lemma_passed_string_body_shrinks(s.skip(1));
    }
}

/// The value of a member that is passed over starts after its key.
pub proof fn lemma_passed_key_shrinks(s: Seq<char>)
    ensures
        passed_key(s) matches Some(rest) ==> rest.len() < s.len(),
{
    if has_at(s, 0, '"') {
        lemma_passed_string_body_shrinks(s.skip(1));
        if let Some(rest) = passed_string_body(s.skip(1)) {
            lemma_trim_len(rest);
            if has_at(trim(rest), 0, ':') {
                lemma_trim_len(trim(rest).skip(1));
            }
        }
    }
}

/// What follows a value that is passed over is shorter than the text that
/// starts with the value.
pub proof fn lemma_passed_value_shrinks(s: Seq<char>, depth: nat)
    ensures
        passed_value(s, depth) matches Some(rest) ==> rest.len() < s.len(),
    decreases depth, s.len(), 0nat,
{
    if s.len() == 0 {
    } else if s[0] == '"' {
        lemma_passed_string_body_shrinks(s.skip(1));
    } else if s[0] == '[' || s[0] == '{' {
        if depth > 0 {
            lemma_trim_len(s.skip(1));
            lemma_passed_entries_shrinks(trim(s.skip(1)), (depth - 1) as nat, s[0] == '{', true);
        }
    } else if s[0] == 't' || s[0] == 'f' || s[0] == 'n' {
        reveal_strlit("true");
        reveal_strlit("false");
        reveal_strlit("null");
    } else {
        lemma_number_shrinks(s);
    }
}

/// What follows an array or an object that is passed over is shorter than
/// the text that holds its entries, and the tests on the lengths in
/// [`passed_entries`] never fail.
pub proof fn lemma_passed_entries_shrinks(s: Seq<char>, depth: nat, object: bool, first: bool)
    ensures
        passed_entries(s, depth, object, first) matches Some(rest) ==> rest.len() < s.len(),
        ({
            let entry = if first { s } else { trim(s.skip(1)) };
            let value = if object { passed_key(entry) } else { Some(entry) };
            (first || has_at(s, 0, ',')) ==> (value matches Some(value) ==> value.len() <= s.len()
                && (passed_value(value, depth) matches Some(rest) ==> trim(rest).len()
                < s.len()))
        }),
    decreases depth, s.len(), 1nat,
{
    let entry = if first { s } else { trim(s.skip(1)) };
    let value = if object { passed_key(entry) } else { Some(entry) };
    if first || has_at(s, 0, ',') {
        if !first {
            lemma_trim_len(s.skip(1));
        }
        lemma_passed_key_shrinks(entry);
        if let Some(value) = value {
            lemma_passed_value_shrinks(value, depth);
            if let Some(rest) = passed_value(value, depth) {
                lemma_trim_len(rest);
                lemma_passed_entries_shrinks(trim(rest), depth, object, false);
            }
        }
    }
}

/// The value of a member starts after its key.
pub proof fn lemma_member_key_shrinks(s: Seq<char>)
    ensures
        member_key(s) matches Some((_, value)) ==> value.len() < s.len(),
{
    lemma_string_shrinks(s);
    if let Some((_, rest)) = string(s) {
        lemma_trim_len(rest);
        if has_at(trim(rest), 0, ':') {
            lemma_trim_len(trim(rest).skip(1));
        }
    }
}

/// What follows a member of a date is shorter than the text that starts with
/// its value.
pub proof fn lemma_date_member_shrinks(
    key: Seq<char>,
    s: Seq<char>,
    members: DateMembers,
)
    ensures
        date_member(key, s, members) matches Some((_, rest)) ==> rest.len() < s.len(),
{
    reveal(date_member);
    lemma_unsigned_shrinks(s, 0xFF);
    lemma_unsigned_shrinks(s, 0xFFFF);
    lemma_passed_value_shrinks(s, crate::grammar::MAX_NESTING as nat);
}

/// What follows the members of a date is shorter than the text that holds
/// them.
pub proof fn lemma_date_members_shrink(s: Seq<char>, members: DateMembers, first: bool)
    ensures
        date_members(s, members, first) matches Some((_, rest)) ==> rest.len() < s.len(),
    decreases s.len(),
{
    let t = trim(s);
    lemma_trim_len(s);
    if has_at(t, 0, '}') {
    } else if !first && !has_at(t, 0, ',') {
    } else {
        let at = if first { t } else { trim(t.skip(1)) };
        if !first {
            lemma_trim_len(t.skip(1));
        }
        lemma_member_key_shrinks(at);
        if let Some((key, value)) = member_key(at) {
            lemma_date_member_shrinks(key, value, members);
            if let Some((more, rest)) = date_member(key, value, members) {
                lemma_date_members_shrink(rest, more, false);
            }
        }
    }
}

/// What follows the values of a date is shorter than the text that holds
/// them.
pub proof fn lemma_date_items_shrink(s: Seq<char>, members: DateMembers, index: nat)
    ensures
        date_items(s, members, index) matches Some((_, rest)) ==> rest.len() < s.len(),
    decreases 3 - index,
{
    let t = trim(s);
    lemma_trim_len(s);
    if index < 3 && (index == 0 || has_at(t, 0, ',')) {
        let at = if index == 0 { t } else { trim(t.skip(1)) };
        if index > 0 {
            lemma_trim_len(t.skip(1));
        }
        lemma_date_member_shrinks(date_key(index), at, members);
        if let Some((more, rest)) = date_member(date_key(index), at, members) {
            lemma_date_items_shrink(rest, more, index + 1);
        }
    }
}

/// What follows a date is shorter than the text that starts with it.
pub proof fn lemma_date_shrinks(s: Seq<char>)
    ensures
        date(s) matches Some((_, rest)) ==> rest.len() < s.len(),
{
    if has_at(s, 0, '{') {
        lemma_date_members_shrink(s.skip(1), no_date_members(), true);
    } else if has_at(s, 0, '[') {
        lemma_date_items_shrink(s.skip(1), no_date_members(), 0);
    }
}

/// What follows a member of an expense is shorter than the text that starts
/// with its value.
pub proof fn lemma_expense_member_shrinks(
    key: Seq<char>,
    s: Seq<char>,
    members: ExpenseMembers,
)
    ensures
        expense_member(key, s, members) matches Some((_, rest)) ==> rest.len() < s.len(),
{
    reveal(expense_member);
    reveal_strlit("null");
    lemma_unsigned_shrinks(s, 0xFFFF_FFFF);
    lemma_number_shrinks(s);
    lemma_string_shrinks(s);
    lemma_date_shrinks(s);
    lemma_passed_value_shrinks(s, crate::grammar::MAX_NESTING as nat);
}

/// The amount among the members, where there is one, is a number.
pub open spec fn amount_is_number(members: ExpenseMembers) -> bool {
    members.amount matches Some(literal) ==> is_number(literal)
}

/// The amount among the members that were read is a number.
pub proof fn lemma_expense_members_amount(s: Seq<char>, members: ExpenseMembers, first: bool)
    requires
        amount_is_number(members),
    ensures
        expense_members(s, members, first) matches Some((found, _)) ==> amount_is_number(found),
    decreases s.len(),
{
    let t = trim(s);
    if has_at(t, 0, '}') {
    } else if !first && !has_at(t, 0, ',') {
    } else {
        let at = if first { t } else { trim(t.skip(1)) };
        if let Some((key, value)) = member_key(at) {
            if let Some((more, rest)) = expense_member(key, value, members) {
                assert(amount_is_number(more)) by {
                    reveal(expense_member);
                    if number_len(value) is Some {
                        lemma_number_alone(value);
                    }
                }
                lemma_trim_len(s);
                lemma_trim_len(t.skip(1));
                lemma_member_key_shrinks(at);
                lemma_expense_member_shrinks(key, value, members);
                lemma_expense_members_amount(rest, more, false);
            }
        }
    }
}

/// The amount among the values that were read is a number.
pub proof fn lemma_expense_items_amount(s: Seq<char>, members: ExpenseMembers, index: nat)
    requires
        amount_is_number(members),
    ensures
        expense_items(s, members, index) matches Some((found, _)) ==> amount_is_number(found),
    decreases 5 - index,
{
    let t = trim(s);
    if index < 5 && (index == 0 || has_at(t, 0, ',')) {
        let at = if index == 0 { t } else { trim(t.skip(1)) };
        if let Some((more, rest)) = expense_member(expense_key(index), at, members) {
            assert(amount_is_number(more)) by {
                reveal(expense_member);
                if number_len(at) is Some {
                    lemma_number_alone(at);
                }
            }
            lemma_expense_items_amount(rest, more, index + 1);
        }
    }
}

/// The members make an expense exactly where `id`, `amount`, `category` and
/// `date` are among them: with one of them missing there is no expense.
pub proof fn lemma_required_members(members: ExpenseMembers)
    ensures
        expense_of(members) is Some <==> members.id is Some && members.amount is Some
            && members.category is Some && members.date is Some,
{
}

/// A text is read as a whole expense or not at all: what is read has a finite
/// amount, and that amount is a number.
pub proof fn lemma_read_is_well_formed(s: Seq<char>)
    ensures
        expense(s) matches Some(value) ==> value.amount is Finite && value.amount.well_formed(),
{
    let t = trim(s);
    if has_at(t, 0, '{') {
        lemma_expense_members_amount(t.skip(1), no_expense_members(), true);
    } else if has_at(t, 0, '[') {
        lemma_expense_items_amount(t.skip(1), no_expense_members(), 0);
    }
}

} // verus!
