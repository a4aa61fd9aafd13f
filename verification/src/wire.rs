//! The JSON form of an expense: the text that is written for one, and the
//! texts that are read as one.
//!
//! An expense is written as one object, its members in a fixed order and
//! without spaces. Reading is more liberal: the members may come in any order
//! and with spaces between the tokens, a member with another key is passed
//! over, and the description may be left out. A key that comes twice, a
//! missing member and a value of the wrong kind are refused.
//!
//! In place of an object an array is read as well, which holds the values
//! alone: those of a date in the order day, month, year, and those of an
//! expense in the order id, amount, category, date, description. Such an
//! array holds each value, and no other.

use crate::amount::AmountView;
use crate::data_types::{DateView, ExpenseView};
use crate::facts::{
    lemma_date_member_shrinks, lemma_expense_member_shrinks, lemma_member_key_shrinks,
    lemma_trim_len,
};
use crate::grammar::{
    decimal, has_at, keyword, number, passed_value, quoted, string, trim, unsigned, MAX_NESTING,
};
use vstd::prelude::*;

verus! {

/// The text of a date.
pub open spec fn date_text(date: DateView) -> Seq<char> {
    "{\"day\":"@ + decimal(date.day as nat) + ",\"month\":"@ + decimal(date.month as nat)
        + ",\"year\":"@ + decimal(date.year as nat) + "}"@
}

/// The text of an amount: the number as it is written, or `null` for an
/// amount that is not finite.
pub open spec fn amount_text(amount: AmountView) -> Seq<char> {
    match amount {
        AmountView::Finite(literal) => literal,
        _ => "null"@,
    }
}

/// The text of a description: a string, or `null` where there is none.
pub open spec fn description_text(description: Option<Seq<char>>) -> Seq<char> {
    match description {
        Some(text) => quoted(text),
        None => "null"@,
    }
}

/// The text of an expense.
pub open spec fn expense_text(expense: ExpenseView) -> Seq<char> {
    "{\"id\":"@ + decimal(expense.id as nat) + ",\"amount\":"@ + amount_text(expense.amount)
        + ",\"category\":"@ + quoted(expense.category) + ",\"date\":"@ + date_text(expense.date)
        + ",\"description\":"@ + description_text(expense.description) + "}"@
}

/// The key of a member at the front of `s` and the text at which its value
/// starts: a string, a colon, and spaces around the colon.
pub open spec fn member_key(s: Seq<char>) -> Option<(Seq<char>, Seq<char>)> {
    match string(s) {
        None => None,
        Some((key, rest)) => if has_at(trim(rest), 0, ':') {
            Some((key, trim(trim(rest).skip(1))))
        } else {
            None
        },
    }
}

/// The members of a date that have been read so far.
pub struct DateMembers {
    pub day: Option<u8>,
    pub month: Option<u8>,
    pub year: Option<u16>,
}

/// The members of an expense that have been read so far.
pub struct ExpenseMembers {
    pub id: Option<u32>,
    pub amount: Option<Seq<char>>,
    pub category: Option<Seq<char>>,
    pub date: Option<DateView>,
    pub description: Option<Option<Seq<char>>>,
}

/// No member of a date.
pub open spec fn no_date_members() -> DateMembers {
    DateMembers { day: None, month: None, year: None }
}

/// No member of an expense.
pub open spec fn no_expense_members() -> ExpenseMembers {
    ExpenseMembers { id: None, amount: None, category: None, date: None, description: None }
}

/// The members with the member `key` added, whose value stands at the front
/// of `s`, and the text after that value. `day` and `month` are integers up
/// to 255 and `year` is one up to 65535; the value of any other key is passed
/// over.
#[verifier::opaque]
pub open spec fn date_member(key: Seq<char>, s: Seq<char>, members: DateMembers) -> Option<
    (DateMembers, Seq<char>),
> {
    if key == "day"@ {
        match unsigned(s, 0xFF) {
            Some((day, rest)) if members.day is None => Some(
                (DateMembers { day: Some(day as u8), ..members }, rest),
            ),
            _ => None,
        }
    } else if key == "month"@ {
        match unsigned(s, 0xFF) {
            Some((month, rest)) if members.month is None => Some(
                (DateMembers { month: Some(month as u8), ..members }, rest),
            ),
            _ => None,
        }
    } else if key == "year"@ {
        match unsigned(s, 0xFFFF) {
            Some((year, rest)) if members.year is None => Some(
                (DateMembers { year: Some(year as u16), ..members }, rest),
            ),
            _ => None,
        }
    } else {
        match passed_value(s, MAX_NESTING as nat) {
            Some(rest) => Some((members, rest)),
            None => None,
        }
    }
}

/// The members of a date and the text after its closing brace. `s` starts
/// after the opening brace (`first`) or after a member; members are separated
/// by commas.
pub open spec fn date_members(s: Seq<char>, members: DateMembers, first: bool) -> Option<
    (DateMembers, Seq<char>),
>
    decreases s.len(),
{
    let t = trim(s);
    if has_at(t, 0, '}') {
        Some((members, t.skip(1)))
    } else if !first && !has_at(t, 0, ',') {
        None
    } else {
        let at = if first { t } else { trim(t.skip(1)) };
        match member_key(at) {
            None => None,
            Some((key, value)) => match date_member(key, value, members) {
                None => None,
                Some((more, rest)) => {
                    proof {
                        lemma_trim_len(s);
                        lemma_trim_len(t.skip(1));
                        lemma_member_key_shrinks(at);
                        lemma_date_member_shrinks(key, value, members);
                    }
                    date_members(rest, more, false)
                },
            },
        }
    }
}

/// The key that the value at the place `index` of an array stands for.
pub open spec fn date_key(index: nat) -> Seq<char> {
    if index == 0 {
        "day"@
    } else if index == 1 {
        "month"@
    } else {
        "year"@
    }
}

/// The values of a date that is written as an array, and the text after its
/// closing bracket. `s` starts after the opening bracket (`index` is 0) or
/// after the value at the place `index - 1`; values are separated by commas,
/// and after the third the array ends.
pub open spec fn date_items(s: Seq<char>, members: DateMembers, index: nat) -> Option<
    (DateMembers, Seq<char>),
>
    decreases 3 - index,
{
    let t = trim(s);
    if index >= 3 {
        if has_at(t, 0, ']') {
            Some((members, t.skip(1)))
        } else {
            None
        }
    } else if index > 0 && !has_at(t, 0, ',') {
        None
    } else {
        let at = if index == 0 { t } else { trim(t.skip(1)) };
        match date_member(date_key(index), at, members) {
            None => None,
            Some((more, rest)) => date_items(rest, more, index + 1),
        }
    }
}

/// The date that the members make: each of `day`, `month` and `year` must be
/// there.
pub open spec fn date_of(members: DateMembers) -> Option<DateView> {
    match members {
        DateMembers { day: Some(day), month: Some(month), year: Some(year) } => Some(
            DateView { day, month, year },
        ),
        _ => None,
    }
}

/// The members of the date at the front of `s`, which is an object or an
/// array, and the text after it.
pub open spec fn date_parts(s: Seq<char>) -> Option<(DateMembers, Seq<char>)> {
    if has_at(s, 0, '{') {
        date_members(s.skip(1), no_date_members(), true)
    } else if has_at(s, 0, '[') {
        date_items(s.skip(1), no_date_members(), 0)
    } else {
        None
    }
}

/// The date at the front of `s` and the text after it: an object that has
/// each of `day`, `month` and `year` once, or an array of the three values.
pub open spec fn date(s: Seq<char>) -> Option<(DateView, Seq<char>)> {
    match date_parts(s) {
        None => None,
        Some((members, rest)) => match date_of(members) {
            None => None,
            Some(date) => Some((date, rest)),
        },
    }
}

/// The description at the front of `s` and the text after it: `null` for
/// none, or a string.
pub open spec fn description(s: Seq<char>) -> Option<(Option<Seq<char>>, Seq<char>)> {
    if has_at(s, 0, 'n') {
        match keyword(s, "null"@) {
            Some(rest) => Some((None, rest)),
            None => None,
        }
    } else {
        match string(s) {
            Some((text, rest)) => Some((Some(text), rest)),
            None => None,
        }
    }
}

/// The members with the member `key` added, whose value stands at the front
/// of `s`, and the text after that value. `id` is an integer up to
/// 4294967295, `amount` a number, `category` a string, `date` a date and
/// `description` a string or `null`; the value of any other key is passed
/// over.
#[verifier::opaque]
pub open spec fn expense_member(key: Seq<char>, s: Seq<char>, members: ExpenseMembers) -> Option<
    (ExpenseMembers, Seq<char>),
> {
    if key == "id"@ {
        match unsigned(s, 0xFFFF_FFFF) {
            Some((id, rest)) if members.id is None => Some(
                (ExpenseMembers { id: Some(id as u32), ..members }, rest),
            ),
            _ => None,
        }
    } else if key == "amount"@ {
        match number(s) {
            Some((amount, rest)) if members.amount is None => Some(
                (ExpenseMembers { amount: Some(amount), ..members }, rest),
            ),
            _ => None,
        }
    } else if key == "category"@ {
        match string(s) {
            Some((category, rest)) if members.category is None => Some(
                (ExpenseMembers { category: Some(category), ..members }, rest),
            ),
            _ => None,
        }
    } else if key == "date"@ {
        match date(s) {
            Some((date, rest)) if members.date is None => Some(
                (ExpenseMembers { date: Some(date), ..members }, rest),
            ),
            _ => None,
        }
    } else if key == "description"@ {
        match description(s) {
            Some((description, rest)) if members.description is None => Some(
                (ExpenseMembers { description: Some(description), ..members }, rest),
            ),
            _ => None,
        }
    } else {
        match passed_value(s, MAX_NESTING as nat) {
            Some(rest) => Some((members, rest)),
            None => None,
        }
    }
}

/// The members of an expense and the text after its closing brace. `s`
/// starts after the opening brace (`first`) or after a member; members are
/// separated by commas.
pub open spec fn expense_members(s: Seq<char>, members: ExpenseMembers, first: bool) -> Option<
    (ExpenseMembers, Seq<char>),
>
    decreases s.len(),
{
    let t = trim(s);
    if has_at(t, 0, '}') {
        Some((members, t.skip(1)))
    } else if !first && !has_at(t, 0, ',') {
        None
    } else {
        let at = if first { t } else { trim(t.skip(1)) };
        match member_key(at) {
            None => None,
            Some((key, value)) => match expense_member(key, value, members) {
                None => None,
                Some((more, rest)) => {
                    proof {
                        lemma_trim_len(s);
                        lemma_trim_len(t.skip(1));
                        lemma_member_key_shrinks(at);
                        lemma_expense_member_shrinks(key, value, members);
                    }
                    expense_members(rest, more, false)
                },
            },
        }
    }
}

/// The expense that the members make: `id`, `amount`, `category` and `date`
/// must be there, and a description that was left out is none.
pub open spec fn expense_of(members: ExpenseMembers) -> Option<ExpenseView> {
    match members {
        ExpenseMembers {
            id: Some(id),
            amount: Some(amount),
            category: Some(category),
            date: Some(date),
            description,
        } => Some(
            ExpenseView {
                id,
                amount: AmountView::Finite(amount),
                category,
                date,
                description: match description {
                    Some(description) => description,
                    None => None,
                },
            },
        ),
        _ => None,
    }
}

/// The key that the value at the place `index` of an array stands for.
pub open spec fn expense_key(index: nat) -> Seq<char> {
    if index == 0 {
        "id"@
    } else if index == 1 {
        "amount"@
    } else if index == 2 {
        "category"@
    } else if index == 3 {
        "date"@
    } else {
        "description"@
    }
}

/// The values of an expense that is written as an array, and the text after
/// its closing bracket. `s` starts after the opening bracket (`index` is 0)
/// or after the value at the place `index - 1`; values are separated by
/// commas, and after the fifth the array ends.
pub open spec fn expense_items(s: Seq<char>, members: ExpenseMembers, index: nat) -> Option<
    (ExpenseMembers, Seq<char>),
>
    decreases 5 - index,
{
    let t = trim(s);
    if index >= 5 {
        if has_at(t, 0, ']') {
            Some((members, t.skip(1)))
        } else {
            None
        }
    } else if index > 0 && !has_at(t, 0, ',') {
        None
    } else {
        let at = if index == 0 { t } else { trim(t.skip(1)) };
        match expense_member(expense_key(index), at, members) {
            None => None,
            Some((more, rest)) => expense_items(rest, more, index + 1),
        }
    }
}

/// The members of the expense at the front of `s`, which is an object or an
/// array, and the text after it.
pub open spec fn expense_parts(s: Seq<char>) -> Option<(ExpenseMembers, Seq<char>)> {
    if has_at(s, 0, '{') {
        expense_members(s.skip(1), no_expense_members(), true)
    } else if has_at(s, 0, '[') {
        expense_items(s.skip(1), no_expense_members(), 0)
    } else {
        None
    }
}

/// The expense that the whole of `s` describes: one object or one array, with
/// nothing but spaces before and after it.
pub open spec fn expense(s: Seq<char>) -> Option<ExpenseView> {
    match expense_parts(trim(s)) {
        Some((members, rest)) if trim(rest).len() == 0 => expense_of(members),
        _ => None,
    }
}

} // verus!
