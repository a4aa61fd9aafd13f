//! What is written is read back.
//!
//! The laws of this module say, token by token and then of a whole expense,
//! that reading the text which the library writes for a value gives that
//! value and leaves the text that followed it.

use crate::data_types::{DateView, ExpenseView};
use crate::facts::{lemma_number_before, lemma_read_is_well_formed};
use crate::grammar::{
    decimal, digit_char, digit_value, digits_len, digits_value, escape, escaped, escaped_char,
    has_at, hex4, hex_char, hex_value, integer_part_end, is_digit, is_number, is_space, number,
    quoted, string, string_body, trim, unsigned, with_first,
};
use crate::wire::{
    amount_text, date, date_member, date_members, date_text, description, description_text,
    expense, expense_member, expense_members, expense_of, expense_text, member_key,
    no_date_members, no_expense_members, DateMembers, ExpenseMembers,
};
use vstd::prelude::*;

verus! {

/// A text that does not start with a space is trimmed already.
proof fn lemma_trim_nothing(s: Seq<char>)
    requires
        s.len() == 0 || !is_space(s[0]),
    ensures
        trim(s) == s,
{
    assert(s.skip(0) =~= s);
}

/// A run of exactly `k` digits at the front of `s`.
proof fn lemma_digits_len_exact(s: Seq<char>, k: int)
    requires
        0 <= k <= s.len(),
        forall|i: int| 0 <= i < k ==> is_digit(#[trigger] s[i]),
        k < s.len() ==> !is_digit(s[k]),
    ensures
        digits_len(s) == k,
    decreases k,
{
    if k > 0 {
        assert(is_digit(s[0]));
        assert forall|i: int| 0 <= i < k - 1 implies is_digit(#[trigger] s.skip(1)[i]) by {
            assert(s.skip(1)[i] == s[i + 1]);
        }
        lemma_digits_len_exact(s.skip(1), k - 1);
    }
}

/// The decimal notation of `n` is made of digits, starts with `0` only for
/// zero, and writes `n`.
pub proof fn lemma_decimal(n: nat)
    ensures
        decimal(n).len() >= 1,
        forall|i: int| 0 <= i < decimal(n).len() ==> is_digit(#[trigger] decimal(n)[i]),
        decimal(n).len() > 1 ==> decimal(n)[0] != '0',
        digits_value(decimal(n)) == n,
    decreases n,
{
    if n < 10 {
        assert(decimal(n).drop_last() =~= Seq::<char>::empty());
        assert(digits_value(decimal(n).drop_last()) == 0);
        assert(digit_value(digit_char(n)) == n);
    } else {
        lemma_decimal(n / 10);
        assert(decimal(n).drop_last() =~= decimal(n / 10));
        assert(digit_value(digit_char(n % 10)) == n % 10);
        assert(decimal(n)[0] == decimal(n / 10)[0]);
        if decimal(n / 10).len() == 1 {
            assert(digits_value(decimal(n / 10).drop_last()) == 0);
            assert(digit_value(decimal(n / 10)[0]) == n / 10);
        }
    }
}

/// Whether a value may be followed by `s`: by a comma or a closing brace.
pub open spec fn after_value(s: Seq<char>) -> bool {
    has_at(s, 0, ',') || has_at(s, 0, '}')
}

/// An integer that was written is read back.
pub proof fn lemma_unsigned_decimal(n: nat, max: nat, rest: Seq<char>)
    requires
        n <= max,
        after_value(rest),
    ensures
        unsigned(decimal(n) + rest, max) == Some((n, rest)),
{
    let s = decimal(n) + rest;
    let k = decimal(n).len() as int;
    lemma_decimal(n);
    assert forall|i: int| 0 <= i < k implies is_digit(#[trigger] s[i]) by {
        assert(s[i] == decimal(n)[i]);
    }
    assert(s[k] == rest[0]);
    lemma_digits_len_exact(s, k);
    assert(s.take(k) =~= decimal(n));
    assert(s.skip(k) =~= rest);
    assert(s[0] == decimal(n)[0]);
}

/// A number that was written is read back.
pub proof fn lemma_number_written(literal: Seq<char>, rest: Seq<char>)
    requires
        is_number(literal),
        after_value(rest),
    ensures
        number(literal + rest) == Some((literal, rest)),
{
    let s = literal + rest;
    let n = literal.len() as int;
    assert(s.take(n) =~= literal);
    assert(s.skip(n) =~= rest);
    assert(s[n] == rest[0]);
    lemma_number_before(s, n);
}

/// The value of the hexadecimal digit that was written for `n`.
proof fn lemma_hex_char(n: nat)
    requires
        n < 16,
    ensures
        hex_value(hex_char(n)) == Some(n),
{
}

/// A character that was written inside a string is read back.
proof fn lemma_escaped_char_read(c: char, rest: Seq<char>)
    ensures
        string_body(escaped_char(c) + rest) == with_first(c, string_body(rest)),
{
    let s = escaped_char(c) + rest;
    let code = c as u32;
    if c == '"' || c == '\\' || c == '\u{8}' || c == '\u{c}' || c == '\n' || c == '\r' || c
        == '\t' {
        assert(s[0] == '\\');
        assert(s.skip(1)[0] == escaped_char(c)[1]);
        assert(escape(s.skip(1)) == Some((c, 1int)));
        assert(s.skip(2) =~= rest);
    } else if code < 0x20 {
        let high = (code / 16) as nat;
        let low = (code % 16) as nat;
        lemma_hex_char(high);
        lemma_hex_char(low);
        assert(s[0] == '\\');
        let e = s.skip(1);
        assert(e[0] == 'u');
        let h = e.skip(1);
        assert(h[0] == '0' && h[1] == '0' && h[2] == hex_char(high) && h[3] == hex_char(low));
        assert(hex_value('0') == Some(0nat));
        assert(hex4(h) == Some(0 * 4096 + 0 * 256 + high * 16 + low));
        assert(high * 16 + low == code);
        assert((code as nat) as char == c);
        assert(escape(e) == Some((c, 5int)));
        assert(s.skip(6) =~= rest);
    } else {
        assert(s[0] == c);
        assert(s.skip(1) =~= rest);
    }
}

/// The characters that were written inside a string are read back.
proof fn lemma_escaped_read(text: Seq<char>, rest: Seq<char>)
    ensures
        string_body(escaped(text) + (seq!['"'] + rest)) == Some((text, rest)),
    decreases text.len(),
{
    let tail = seq!['"'] + rest;
    if text.len() == 0 {
        assert(escaped(text) + tail =~= tail);
        assert(tail.skip(1) =~= rest);
        assert(text =~= Seq::<char>::empty());
    } else {
        let more = escaped(text.skip(1)) + tail;
        lemma_escaped_read(text.skip(1), rest);
        lemma_escaped_char_read(text[0], more);
        assert(escaped(text) + tail =~= escaped_char(text[0]) + more);
        assert(seq![text[0]] + text.skip(1) =~= text);
    }
}

/// A string that was written is read back.
pub proof fn lemma_quoted_read(text: Seq<char>, rest: Seq<char>)
    ensures
        string(quoted(text) + rest) == Some((text, rest)),
{
    let s = quoted(text) + rest;
    lemma_escaped_read(text, rest);
    assert(s[0] == '"');
    assert(s.skip(1) =~= escaped(text) + (seq!['"'] + rest));
}

/// A key and the colon after it are read back.
proof fn lemma_key_read(key: Seq<char>, value: Seq<char>)
    requires
        value.len() > 0,
        !is_space(value[0]),
    ensures
        member_key(quoted(key) + (seq![':'] + value)) == Some((key, value)),
{
    let after = seq![':'] + value;
    lemma_quoted_read(key, after);
    lemma_trim_nothing(after);
    assert(after.skip(1) =~= value);
    lemma_trim_nothing(value);
}

/// What stands between two members, and nothing before the first.
spec fn separator(first: bool) -> Seq<char> {
    if first {
        Seq::empty()
    } else {
        seq![',']
    }
}

/// A member as it is written, and the text `value` that starts with its value.
spec fn member_text(first: bool, key: Seq<char>, value: Seq<char>) -> Seq<char> {
    separator(first) + (quoted(key) + (seq![':'] + value))
}

/// A key without a character that is written as an escape.
spec fn plain(key: Seq<char>) -> bool {
    forall|i: int|
        0 <= i < key.len() ==> (#[trigger] key[i]) != '"' && key[i] != '\\' && key[i] as u32
            >= 0x20
}

/// A plain key is written as it is.
proof fn lemma_plain_escaped(key: Seq<char>)
    requires
        plain(key),
    ensures
        escaped(key) == key,
    decreases key.len(),
{
    if key.len() > 0 {
        assert(plain(key.skip(1))) by {
            assert forall|i: int| 0 <= i < key.skip(1).len() implies (#[trigger] key.skip(1)[i])
                != '"' && key.skip(1)[i] != '\\' && key.skip(1)[i] as u32 >= 0x20 by {
                assert(key.skip(1)[i] == key[i + 1]);
            }
        }
        lemma_plain_escaped(key.skip(1));
        assert(escaped_char(key[0]) =~= seq![key[0]]);
        assert(seq![key[0]] + key.skip(1) =~= key);
    } else {
        assert(key =~= Seq::<char>::empty());
    }
}

/// One member of a date is read, and the reading goes on after it.
proof fn lemma_date_member_read(
    first: bool,
    key: Seq<char>,
    value: Seq<char>,
    members: DateMembers,
    more: DateMembers,
    rest: Seq<char>,
)
    requires
        value.len() > 0,
        !is_space(value[0]),
        date_member(key, value, members) == Some((more, rest)),
    ensures
        date_members(member_text(first, key, value), members, first) == date_members(
            rest,
            more,
            false,
        ),
{
    let member = quoted(key) + (seq![':'] + value);
    let s = member_text(first, key, value);
    lemma_key_read(key, value);
    assert(member[0] == '"');
    lemma_trim_nothing(member);
    if first {
        assert(s =~= member);
    } else {
        assert(s[0] == ',');
        lemma_trim_nothing(s);
        assert(s.skip(1) =~= member);
    }
}

/// One member of an expense is read, and the reading goes on after it.
proof fn lemma_expense_member_read(
    first: bool,
    key: Seq<char>,
    value: Seq<char>,
    members: ExpenseMembers,
    more: ExpenseMembers,
    rest: Seq<char>,
)
    requires
        value.len() > 0,
        !is_space(value[0]),
        expense_member(key, value, members) == Some((more, rest)),
    ensures
        expense_members(member_text(first, key, value), members, first) == expense_members(
            rest,
            more,
            false,
        ),
{
    let member = quoted(key) + (seq![':'] + value);
    let s = member_text(first, key, value);
    lemma_key_read(key, value);
    assert(member[0] == '"');
    lemma_trim_nothing(member);
    if first {
        assert(s =~= member);
    } else {
        assert(s[0] == ',');
        lemma_trim_nothing(s);
        assert(s.skip(1) =~= member);
    }
}

/// A member that stands in the middle of a text.
proof fn lemma_member_within(
    before: Seq<char>,
    piece: Seq<char>,
    key: Seq<char>,
    value: Seq<char>,
    tail: Seq<char>,
)
    requires
        piece == seq![','] + quoted(key) + seq![':'],
    ensures
        before + piece + value + tail == before + member_text(false, key, value + tail),
{
    assert(before + piece + value + tail =~= before + member_text(false, key, value + tail));
}

/// The first member of an object, after the opening brace.
proof fn lemma_member_first(piece: Seq<char>, key: Seq<char>, value: Seq<char>, tail: Seq<char>)
    requires
        piece == seq!['{'] + quoted(key) + seq![':'],
    ensures
        piece + value + tail == seq!['{'] + member_text(true, key, value + tail),
{
    assert(piece + value + tail =~= seq!['{'] + member_text(true, key, value + tail));
}

/// The text of a date and the text `rest` after it, member by member.
spec fn date_text_by_member(date: DateView, rest: Seq<char>) -> Seq<char> {
    seq!['{'] + member_text(
        true,
        "day"@,
        decimal(date.day as nat) + member_text(
            false,
            "month"@,
            decimal(date.month as nat) + member_text(
                false,
                "year"@,
                decimal(date.year as nat) + (seq!['}'] + rest),
            ),
        ),
    )
}

/// The text of an expense, member by member.
spec fn expense_text_by_member(expense: ExpenseView) -> Seq<char> {
    seq!['{'] + member_text(
        true,
        "id"@,
        decimal(expense.id as nat) + member_text(
            false,
            "amount"@,
            amount_text(expense.amount) + member_text(
                false,
                "category"@,
                quoted(expense.category) + member_text(
                    false,
                    "date"@,
                    date_text(expense.date) + member_text(
                        false,
                        "description"@,
                        description_text(expense.description) + seq!['}'],
                    ),
                ),
            ),
        ),
    )
}

proof fn lemma_date_keys()
    ensures
        "{\"day\":"@ == seq!['{'] + quoted("day"@) + seq![':'],
        ",\"month\":"@ == seq![','] + quoted("month"@) + seq![':'],
        ",\"year\":"@ == seq![','] + quoted("year"@) + seq![':'],
        "}"@ == seq!['}'],
        "day"@ != "month"@,
        "day"@ != "year"@,
        "month"@ != "year"@,
{
    reveal_strlit("{\"day\":");
    reveal_strlit(",\"month\":");
    reveal_strlit(",\"year\":");
    reveal_strlit("}");
    reveal_strlit("day");
    reveal_strlit("month");
    reveal_strlit("year");
    lemma_plain_escaped("day"@);
    lemma_plain_escaped("month"@);
    lemma_plain_escaped("year"@);
    assert("{\"day\":"@ =~= seq!['{'] + quoted("day"@) + seq![':']);
    assert(",\"month\":"@ =~= seq![','] + quoted("month"@) + seq![':']);
    assert(",\"year\":"@ =~= seq![','] + quoted("year"@) + seq![':']);
    assert("}"@ =~= seq!['}']);
}

/// The text of a date is made of its three members.
proof fn lemma_date_text_by_member(date: DateView, rest: Seq<char>)
    ensures
        date_text(date) + rest == date_text_by_member(date, rest),
{
    lemma_date_keys();
    let close = seq!['}'] + rest;
    let day = decimal(date.day as nat);
    let month = decimal(date.month as nat);
    let year = decimal(date.year as nat);
    let to_month = "{\"day\":"@ + day + ",\"month\":"@ + month;
    assert(date_text(date) + rest =~= to_month + ",\"year\":"@ + year + close);
    lemma_member_within(to_month, ",\"year\":"@, "year"@, year, close);
    let after_month = member_text(false, "year"@, year + close);
    lemma_member_within("{\"day\":"@ + day, ",\"month\":"@, "month"@, month, after_month);
    let after_day = member_text(false, "month"@, month + after_month);
    lemma_member_first("{\"day\":"@, "day"@, day, after_day);
}

/// A decimal notation starts with a digit.
proof fn lemma_decimal_front(n: nat, rest: Seq<char>)
    ensures
        !is_space((decimal(n) + rest)[0]),
{
    lemma_decimal(n);
    assert((decimal(n) + rest)[0] == decimal(n)[0]);
    assert(is_digit(decimal(n)[0]));
}

proof fn lemma_day_read(day: u8, members: DateMembers, rest: Seq<char>)
    requires
        members.day is None,
        after_value(rest),
    ensures
        date_member("day"@, decimal(day as nat) + rest, members) == Some(
            (DateMembers { day: Some(day), ..members }, rest),
        ),
{
    reveal(date_member);
    lemma_unsigned_decimal(day as nat, 0xFF, rest);
}

proof fn lemma_month_read(month: u8, members: DateMembers, rest: Seq<char>)
    requires
        members.month is None,
        after_value(rest),
    ensures
        date_member("month"@, decimal(month as nat) + rest, members) == Some(
            (DateMembers { month: Some(month), ..members }, rest),
        ),
{
    reveal(date_member);
    lemma_date_keys();
    lemma_unsigned_decimal(month as nat, 0xFF, rest);
}

proof fn lemma_year_read(year: u16, members: DateMembers, rest: Seq<char>)
    requires
        members.year is None,
        after_value(rest),
    ensures
        date_member("year"@, decimal(year as nat) + rest, members) == Some(
            (DateMembers { year: Some(year), ..members }, rest),
        ),
{
    reveal(date_member);
    lemma_date_keys();
    lemma_unsigned_decimal(year as nat, 0xFFFF, rest);
}

/// A date that was written is read back.
pub proof fn lemma_date_read(value: DateView, rest: Seq<char>)
    requires
        after_value(rest),
    ensures
        date(date_text(value) + rest) == Some((value, rest)),
        (date_text(value) + rest)[0] == '{',
{
    lemma_date_text_by_member(value, rest);
    let close = seq!['}'] + rest;
    let year_value = decimal(value.year as nat) + close;
    let after_month = member_text(false, "year"@, year_value);
    let month_value = decimal(value.month as nat) + after_month;
    let after_day = member_text(false, "month"@, month_value);
    let day_value = decimal(value.day as nat) + after_day;
    let members = member_text(true, "day"@, day_value);
    let s = date_text(value) + rest;
    assert(s == seq!['{'] + members);
    assert(s.skip(1) =~= members);
    let none = no_date_members();
    let day = DateMembers { day: Some(value.day), ..none };
    let month = DateMembers { month: Some(value.month), ..day };
    let year = DateMembers { year: Some(value.year), ..month };
    assert(date_members(members, none, true) == date_members(after_day, day, false)) by {
        assert(after_day[0] == ',');
        lemma_day_read(value.day, none, after_day);
        lemma_decimal_front(value.day as nat, after_day);
        lemma_date_member_read(true, "day"@, day_value, none, day, after_day);
    }
    assert(date_members(after_day, day, false) == date_members(after_month, month, false)) by {
        assert(after_month[0] == ',');
        lemma_month_read(value.month, day, after_month);
        lemma_decimal_front(value.month as nat, after_month);
        lemma_date_member_read(false, "month"@, month_value, day, month, after_month);
    }
    assert(date_members(after_month, month, false) == date_members(close, year, false)) by {
        assert(close[0] == '}');
        lemma_year_read(value.year, month, close);
        lemma_decimal_front(value.year as nat, close);
        lemma_date_member_read(false, "year"@, year_value, month, year, close);
    }
    assert(date_members(close, year, false) == Some((year, rest))) by {
        assert(close[0] == '}');
        lemma_trim_nothing(close);
        assert(close.skip(1) =~= rest);
    }
}

/// A description that was written is read back.
pub proof fn lemma_description_read(value: Option<Seq<char>>, rest: Seq<char>)
    ensures
        description(description_text(value) + rest) == Some((value, rest)),
        !is_space((description_text(value) + rest)[0]),
{
    let s = description_text(value) + rest;
    match value {
        Some(text) => {
            assert(s[0] == '"');
            lemma_quoted_read(text, rest);
        },
        None => {
            reveal_strlit("null");
            assert(s[0] == 'n');
            assert(s.take(4) =~= "null"@);
            assert(s.skip(4) =~= rest);
        },
    }
}

/// A number starts with a minus sign or a digit.
proof fn lemma_number_front(literal: Seq<char>, rest: Seq<char>)
    requires
        is_number(literal),
    ensures
        !is_space((literal + rest)[0]),
{
    assert(integer_part_end(literal) is Some);
    if !has_at(literal, 0, '-') {
        assert(literal.skip(0) =~= literal);
    }
    assert(literal.len() > 0);
    assert((literal + rest)[0] == literal[0]);
}

proof fn lemma_expense_keys()
    ensures
        "{\"id\":"@ == seq!['{'] + quoted("id"@) + seq![':'],
        ",\"amount\":"@ == seq![','] + quoted("amount"@) + seq![':'],
        ",\"category\":"@ == seq![','] + quoted("category"@) + seq![':'],
        ",\"date\":"@ == seq![','] + quoted("date"@) + seq![':'],
        ",\"description\":"@ == seq![','] + quoted("description"@) + seq![':'],
        "}"@ == seq!['}'],
        "id"@.len() == 2,
        "amount"@.len() == 6,
        "category"@.len() == 8,
        "date"@.len() == 4,
        "description"@.len() == 11,
{
    reveal_strlit("{\"id\":");
    reveal_strlit(",\"amount\":");
    reveal_strlit(",\"category\":");
    reveal_strlit(",\"date\":");
    reveal_strlit(",\"description\":");
    reveal_strlit("}");
    reveal_strlit("id");
    reveal_strlit("amount");
    reveal_strlit("category");
    reveal_strlit("date");
    reveal_strlit("description");
    lemma_plain_escaped("id"@);
    lemma_plain_escaped("amount"@);
    lemma_plain_escaped("category"@);
    lemma_plain_escaped("date"@);
    lemma_plain_escaped("description"@);
    assert("{\"id\":"@ =~= seq!['{'] + quoted("id"@) + seq![':']);
    assert(",\"amount\":"@ =~= seq![','] + quoted("amount"@) + seq![':']);
    assert(",\"category\":"@ =~= seq![','] + quoted("category"@) + seq![':']);
    assert(",\"date\":"@ =~= seq![','] + quoted("date"@) + seq![':']);
    assert(",\"description\":"@ =~= seq![','] + quoted("description"@) + seq![':']);
    assert("}"@ =~= seq!['}']);
}

/// The text of an expense is made of its five members.
proof fn lemma_expense_text_by_member(expense: ExpenseView)
    ensures
        expense_text(expense) == expense_text_by_member(expense),
{
    lemma_expense_keys();
    let close = seq!['}'];
    let id = decimal(expense.id as nat);
    let amount = amount_text(expense.amount);
    let category = quoted(expense.category);
    let date = date_text(expense.date);
    let description = description_text(expense.description);
    let to_id = "{\"id\":"@ + id;
    let to_amount = to_id + ",\"amount\":"@ + amount;
    let to_category = to_amount + ",\"category\":"@ + category;
    let to_date = to_category + ",\"date\":"@ + date;
    assert(expense_text(expense) == to_date + ",\"description\":"@ + description + close);
    lemma_member_within(to_date, ",\"description\":"@, "description"@, description, close);
    let after_date = member_text(false, "description"@, description + close);
    lemma_member_within(to_category, ",\"date\":"@, "date"@, date, after_date);
    let after_category = member_text(false, "date"@, date + after_date);
    lemma_member_within(to_amount, ",\"category\":"@, "category"@, category, after_category);
    let after_amount = member_text(false, "category"@, category + after_category);
    lemma_member_within(to_id, ",\"amount\":"@, "amount"@, amount, after_amount);
    let after_id = member_text(false, "amount"@, amount + after_amount);
    lemma_member_first("{\"id\":"@, "id"@, id, after_id);
}

proof fn lemma_id_read(id: u32, members: ExpenseMembers, rest: Seq<char>)
    requires
        members.id is None,
        after_value(rest),
    ensures
        expense_member("id"@, decimal(id as nat) + rest, members) == Some(
            (ExpenseMembers { id: Some(id), ..members }, rest),
        ),
{
    reveal(expense_member);
    lemma_unsigned_decimal(id as nat, 0xFFFF_FFFF, rest);
}

proof fn lemma_amount_read(literal: Seq<char>, members: ExpenseMembers, rest: Seq<char>)
    requires
        members.amount is None,
        is_number(literal),
        after_value(rest),
    ensures
        expense_member("amount"@, literal + rest, members) == Some(
            (ExpenseMembers { amount: Some(literal), ..members }, rest),
        ),
{
    reveal(expense_member);
    lemma_expense_keys();
    lemma_number_written(literal, rest);
}

proof fn lemma_category_read(category: Seq<char>, members: ExpenseMembers, rest: Seq<char>)
    requires
        members.category is None,
    ensures
        expense_member("category"@, quoted(category) + rest, members) == Some(
            (ExpenseMembers { category: Some(category), ..members }, rest),
        ),
{
    reveal(expense_member);
    lemma_expense_keys();
    lemma_quoted_read(category, rest);
}

proof fn lemma_date_member_of_expense_read(
    value: DateView,
    members: ExpenseMembers,
    rest: Seq<char>,
)
    requires
        members.date is None,
        after_value(rest),
    ensures
        expense_member("date"@, date_text(value) + rest, members) == Some(
            (ExpenseMembers { date: Some(value), ..members }, rest),
        ),
{
    reveal(expense_member);
    lemma_expense_keys();
    lemma_date_read(value, rest);
}

proof fn lemma_description_member_read(
    value: Option<Seq<char>>,
    members: ExpenseMembers,
    rest: Seq<char>,
)
    requires
        members.description is None,
    ensures
        expense_member("description"@, description_text(value) + rest, members) == Some(
            (ExpenseMembers { description: Some(value), ..members }, rest),
        ),
{
    reveal(expense_member);
    lemma_expense_keys();
    lemma_description_read(value, rest);
}

/// Reading the text of an expense gives the expense back, field by field.
///
/// This holds of every expense whose amount is finite. An amount that is not
/// finite is written as `null`, which is not read as an amount.
pub proof fn lemma_round_trip(value: ExpenseView)
    requires
        value.amount is Finite,
        value.amount.well_formed(),
    ensures
        expense(expense_text(value)) == Some(value),
{
    lemma_expense_text_by_member(value);
    let literal = value.amount->Finite_0;
    let close = seq!['}'];
    let description_value = description_text(value.description) + close;
    let after_date = member_text(false, "description"@, description_value);
    let date_value = date_text(value.date) + after_date;
    let after_category = member_text(false, "date"@, date_value);
    let category_value = quoted(value.category) + after_category;
    let after_amount = member_text(false, "category"@, category_value);
    let amount_value = literal + after_amount;
    let after_id = member_text(false, "amount"@, amount_value);
    let id_value = decimal(value.id as nat) + after_id;
    let members = member_text(true, "id"@, id_value);
    let s = expense_text(value);
    assert(s == seq!['{'] + members);
    assert(s[0] == '{');
    lemma_trim_nothing(s);
    assert(s.skip(1) =~= members);
    let none = no_expense_members();
    let id = ExpenseMembers { id: Some(value.id), ..none };
    let amount = ExpenseMembers { amount: Some(literal), ..id };
    let category = ExpenseMembers { category: Some(value.category), ..amount };
    let date = ExpenseMembers { date: Some(value.date), ..category };
    let all = ExpenseMembers { description: Some(value.description), ..date };
    assert(expense_members(members, none, true) == expense_members(after_id, id, false)) by {
        assert(after_id[0] == ',');
        lemma_id_read(value.id, none, after_id);
        lemma_decimal_front(value.id as nat, after_id);
        lemma_expense_member_read(true, "id"@, id_value, none, id, after_id);
    }
    assert(expense_members(after_id, id, false) == expense_members(after_amount, amount, false))
        by {
        assert(after_amount[0] == ',');
        lemma_amount_read(literal, id, after_amount);
        lemma_number_front(literal, after_amount);
        lemma_expense_member_read(false, "amount"@, amount_value, id, amount, after_amount);
    }
    assert(expense_members(after_amount, amount, false) == expense_members(
        after_category,
        category,
        false,
    )) by {
        lemma_category_read(value.category, amount, after_category);
        assert(category_value[0] == '"');
        lemma_expense_member_read(
            false,
            "category"@,
            category_value,
            amount,
            category,
            after_category,
        );
    }
    assert(expense_members(after_category, category, false) == expense_members(
        after_date,
        date,
        false,
    )) by {
        assert(after_date[0] == ',');
        lemma_date_member_of_expense_read(value.date, category, after_date);
        lemma_date_read(value.date, after_date);
        lemma_expense_member_read(false, "date"@, date_value, category, date, after_date);
    }
    assert(expense_members(after_date, date, false) == expense_members(close, all, false)) by {
        lemma_description_member_read(value.description, date, close);
        lemma_description_read(value.description, close);
        lemma_expense_member_read(false, "description"@, description_value, date, all, close);
    }
    assert(expense_members(close, all, false) == Some((all, Seq::<char>::empty()))) by {
        lemma_trim_nothing(close);
        assert(close.skip(1) =~= Seq::<char>::empty());
    }
    assert(trim(Seq::<char>::empty()).len() == 0) by {
        lemma_trim_nothing(Seq::<char>::empty());
    }
    assert(expense_of(all) == Some(value));
}

/// An amount that is not finite is not read back: its text holds `null`
/// where a number must stand.
pub proof fn lemma_not_finite_is_refused(value: ExpenseView)
    requires
        !(value.amount is Finite),
    ensures
        expense(expense_text(value)) is None,
{
    lemma_expense_text_by_member(value);
    reveal_strlit("null");
    let close = seq!['}'];
    let description_value = description_text(value.description) + close;
    let after_date = member_text(false, "description"@, description_value);
    let date_value = date_text(value.date) + after_date;
    let after_category = member_text(false, "date"@, date_value);
    let category_value = quoted(value.category) + after_category;
    let after_amount = member_text(false, "category"@, category_value);
    let amount_value = "null"@ + after_amount;
    let after_id = member_text(false, "amount"@, amount_value);
    let id_value = decimal(value.id as nat) + after_id;
    let members = member_text(true, "id"@, id_value);
    let s = expense_text(value);
    assert(s == seq!['{'] + members);
    assert(s[0] == '{');
    lemma_trim_nothing(s);
    assert(s.skip(1) =~= members);
    let none = no_expense_members();
    let id = ExpenseMembers { id: Some(value.id), ..none };
    assert(expense_members(members, none, true) == expense_members(after_id, id, false)) by {
        assert(after_id[0] == ',');
        lemma_id_read(value.id, none, after_id);
        lemma_decimal_front(value.id as nat, after_id);
        lemma_expense_member_read(true, "id"@, id_value, none, id, after_id);
    }
    assert(expense_members(after_id, id, false) is None) by {
        assert(after_id[0] == ',');
        lemma_trim_nothing(after_id);
        let member = quoted("amount"@) + (seq![':'] + amount_value);
        assert(after_id.skip(1) =~= member);
        assert(member[0] == '"');
        lemma_trim_nothing(member);
        assert(amount_value[0] == 'n');
        lemma_key_read("amount"@, amount_value);
        assert(expense_member("amount"@, amount_value, id) is None) by {
            reveal(expense_member);
            lemma_expense_keys();
            assert(amount_value.skip(0) =~= amount_value);
            assert(digits_len(amount_value) == 0);
        }
    }
}

/// What was read is written and read again without change.
pub proof fn lemma_read_written_read(s: Seq<char>)
    ensures
        expense(s) matches Some(value) ==> expense(expense_text(value)) == Some(value),
{
    if let Some(value) = expense(s) {
        lemma_read_is_well_formed(s);
        lemma_round_trip(value);
    }
}

} // verus!
