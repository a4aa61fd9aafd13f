//! Reading an expense from JSON text.

use crate::amount::{Amount, Decimal};
use crate::data_types::{optional_view, Date, Expense};
use crate::facts::lemma_number_alone;
use crate::grammar::MAX_NESTING;
use crate::pass::pass_value;
use crate::reader::{
    char_at, characters, read_keyword, read_number, read_string, read_unsigned, skip_spaces,
};
use crate::wire::{
    date, date_items, date_key, date_member, date_members, description, expense, expense_items,
    expense_key, expense_member, expense_members, expense_of, member_key, no_date_members,
    no_expense_members, DateMembers, ExpenseMembers,
};
use vstd::prelude::*;

verus! {

broadcast use vstd::seq_lib::lemma_seq_skip_of_skip;

/// Whether the key is `name`.
fn is_key(key: &String, name: &str) -> (same: bool)
    ensures
        same == (key@ == name@),
{
    let a = characters(key.as_str());
    let b = characters(name);
    if a.len() != b.len() {
        return false;
    }
    let mut i: usize = 0;
    while i < a.len()
        invariant
            i <= a.len() == b.len(),
            a@ == key@,
            b@ == name@,
            forall|j: int| 0 <= j < i ==> a[j] == b[j],
        decreases a.len() - i,
    {
        if a[i] != b[i] {
            assert(key@[i as int] != name@[i as int]);
            return false;
        }
        i += 1;
    }
    assert(a@ =~= b@);
    true
}

fn read_member_key(text: &Vec<char>, pos: usize) -> (r: Option<(String, usize)>)
    requires
        pos <= text.len(),
    ensures
        match member_key(text@.skip(pos as int)) {
            Some((key, value)) => r matches Some((found, next)) && found@ == key && pos < next
                <= text.len() && text@.skip(next as int) == value,
            None => r is None,
        },
{
    match read_string(text, pos) {
        None => None,
        Some((key, end)) => {
            let colon = skip_spaces(text, end);
            if char_at(text, colon, ':') {
                Some((key, skip_spaces(text, colon + 1)))
            } else {
                None
            }
        },
    }
}

struct DateParts {
    day: Option<u8>,
    month: Option<u8>,
    year: Option<u16>,
}

impl View for DateParts {
    type V = DateMembers;

    closed spec fn view(&self) -> DateMembers {
        DateMembers { day: self.day, month: self.month, year: self.year }
    }
}

fn read_date_member(text: &Vec<char>, pos: usize, key: &String, parts: DateParts) -> (r: Option<
    (DateParts, usize),
>)
    requires
        pos <= text.len(),
    ensures
        match date_member(key@, text@.skip(pos as int), parts@) {
            Some((members, rest)) => r matches Some((found, next)) && found@ == members && pos
                <= next <= text.len() && text@.skip(next as int) == rest,
            None => r is None,
        },
{
    reveal(date_member);
    if is_key(key, "day") {
        match read_unsigned(text, pos, 0xFF) {
            Some((day, next)) if parts.day.is_none() => Some(
                (DateParts { day: Some(day as u8), month: parts.month, year: parts.year }, next),
            ),
            _ => None,
        }
    } else if is_key(key, "month") {
        match read_unsigned(text, pos, 0xFF) {
            Some((month, next)) if parts.month.is_none() => Some(
                (DateParts { day: parts.day, month: Some(month as u8), year: parts.year }, next),
            ),
            _ => None,
        }
    } else if is_key(key, "year") {
        match read_unsigned(text, pos, 0xFFFF) {
            Some((year, next)) if parts.year.is_none() => Some(
                (DateParts { day: parts.day, month: parts.month, year: Some(year as u16) }, next),
            ),
            _ => None,
        }
    } else {
        match pass_value(text, pos, MAX_NESTING) {
            Some(next) => Some((parts, next)),
            None => None,
        }
    }
}

fn read_date_members(text: &Vec<char>, pos: usize) -> (r: Option<(DateParts, usize)>)
    requires
        pos <= text.len(),
    ensures
        match date_members(text@.skip(pos as int), no_date_members(), true) {
            Some((members, rest)) => r matches Some((found, next)) && found@ == members && pos
                < next <= text.len() && text@.skip(next as int) == rest,
            None => r is None,
        },
{
    let mut parts = DateParts { day: None, month: None, year: None };
    let mut first = true;
    let mut i = pos;
    loop
        invariant
            pos <= i <= text.len(),
            date_members(text@.skip(pos as int), no_date_members(), true) == date_members(
                text@.skip(i as int),
                parts@,
                first,
            ),
        decreases text.len() - i,
    {
        let at = skip_spaces(text, i);
        if char_at(text, at, '}') {
            return Some((parts, at + 1));
        }
        if !first && !char_at(text, at, ',') {
            return None;
        }
        let key_at = if first {
            at
        } else {
            skip_spaces(text, at + 1)
        };
        let (key, value_at) = match read_member_key(text, key_at) {
            None => {
                return None;
            },
            Some(found) => found,
        };
        match read_date_member(text, value_at, &key, parts) {
            None => {
                return None;
            },
            Some((more, next)) => {
                parts = more;
                first = false;
                i = next;
            },
        }
    }
}

fn date_key_at(index: usize) -> (key: String)
    ensures
        key@ == date_key(index as nat),
{
    if index == 0 {
        "day".to_owned()
    } else if index == 1 {
        "month".to_owned()
    } else {
        "year".to_owned()
    }
}

fn read_date_items(text: &Vec<char>, pos: usize) -> (r: Option<(DateParts, usize)>)
    requires
        pos <= text.len(),
    ensures
        match date_items(text@.skip(pos as int), no_date_members(), 0) {
            Some((members, rest)) => r matches Some((found, next)) && found@ == members && pos
                < next <= text.len() && text@.skip(next as int) == rest,
            None => r is None,
        },
{
    let mut parts = DateParts { day: None, month: None, year: None };
    let mut index: usize = 0;
    let mut i = pos;
    while index < 3
        invariant
            index <= 3,
            pos <= i <= text.len(),
            date_items(text@.skip(pos as int), no_date_members(), 0) == date_items(
                text@.skip(i as int),
                parts@,
                index as nat,
            ),
        decreases 3 - index,
    {
        let at = skip_spaces(text, i);
        if index > 0 && !char_at(text, at, ',') {
            return None;
        }
        let value_at = if index == 0 {
            at
        } else {
            skip_spaces(text, at + 1)
        };
        let key = date_key_at(index);
        match read_date_member(text, value_at, &key, parts) {
            None => {
                return None;
            },
            Some((more, next)) => {
                parts = more;
                index += 1;
                i = next;
            },
        }
    }
    let at = skip_spaces(text, i);
    if char_at(text, at, ']') {
        Some((parts, at + 1))
    } else {
        None
    }
}

/// Reads the date at `pos`.
pub fn read_date(text: &Vec<char>, pos: usize) -> (r: Option<(Date, usize)>)
    requires
        pos <= text.len(),
    ensures
        match date(text@.skip(pos as int)) {
            Some((value, rest)) => r matches Some((found, next)) && found@ == value && pos < next
                <= text.len() && text@.skip(next as int) == rest,
            None => r is None,
        },
{
    let parts = if char_at(text, pos, '{') {
        read_date_members(text, pos + 1)
    } else if char_at(text, pos, '[') {
        read_date_items(text, pos + 1)
    } else {
        None
    };
    match parts {
        Some((DateParts { day: Some(day), month: Some(month), year: Some(year) }, next)) => Some(
            (Date::new(day, month, year), next),
        ),
        _ => None,
    }
}

fn read_description(text: &Vec<char>, pos: usize) -> (r: Option<(Option<String>, usize)>)
    requires
        pos <= text.len(),
    ensures
        match description(text@.skip(pos as int)) {
            Some((value, rest)) => r matches Some((found, next)) && optional_view(found) == value
                && pos <= next <= text.len() && text@.skip(next as int) == rest,
            None => r is None,
        },
{
    if char_at(text, pos, 'n') {
        match read_keyword(text, pos, "null") {
            Some(next) => Some((None, next)),
            None => None,
        }
    } else {
        match read_string(text, pos) {
            Some((found, next)) => Some((Some(found), next)),
            None => None,
        }
    }
}

struct ExpenseParts {
    id: Option<u32>,
    amount: Option<Decimal>,
    category: Option<String>,
    date: Option<Date>,
    description: Option<Option<String>>,
}

impl View for ExpenseParts {
    type V = ExpenseMembers;

    closed spec fn view(&self) -> ExpenseMembers {
        ExpenseMembers {
            id: self.id,
            amount: match self.amount {
                Some(amount) => Some(amount@),
                None => None,
            },
            category: optional_view(self.category),
            date: match self.date {
                Some(date) => Some(date@),
                None => None,
            },
            description: match self.description {
                Some(description) => Some(optional_view(description)),
                None => None,
            },
        }
    }
}

fn read_expense_member(text: &Vec<char>, pos: usize, key: &String, parts: ExpenseParts) -> (r:
    Option<(ExpenseParts, usize)>)
    requires
        pos <= text.len(),
    ensures
        match expense_member(key@, text@.skip(pos as int), parts@) {
            Some((members, rest)) => r matches Some((found, next)) && found@ == members && pos
                <= next <= text.len() && text@.skip(next as int) == rest,
            None => r is None,
        },
{
    reveal(expense_member);
    let ExpenseParts { id, amount, category, date, description } = parts;
    if is_key(key, "id") {
        match read_unsigned(text, pos, 0xFFFF_FFFF) {
            Some((found, next)) if id.is_none() => Some(
                (ExpenseParts { id: Some(found), amount, category, date, description }, next),
            ),
            _ => None,
        }
    } else if is_key(key, "amount") {
        match read_number(text, pos) {
            Some((found, next)) if amount.is_none() => {
                proof {
                    lemma_number_alone(text@.skip(pos as int));
                }
                Some(
                    (
                        ExpenseParts {
                            id,
                            amount: Some(Decimal::from_number(found)),
                            category,
                            date,
                            description,
                        },
                        next,
                    ),
                )
            },
            _ => None,
        }
    } else if is_key(key, "category") {
        match read_string(text, pos) {
            Some((found, next)) if category.is_none() => Some(
                (ExpenseParts { id, amount, category: Some(found), date, description }, next),
            ),
            _ => None,
        }
    } else if is_key(key, "date") {
        match read_date(text, pos) {
            Some((found, next)) if date.is_none() => Some(
                (ExpenseParts { id, amount, category, date: Some(found), description }, next),
            ),
            _ => None,
        }
    } else if is_key(key, "description") {
        match read_description(text, pos) {
            Some((found, next)) if description.is_none() => Some(
                (ExpenseParts { id, amount, category, date, description: Some(found) }, next),
            ),
            _ => None,
        }
    } else {
        match pass_value(text, pos, MAX_NESTING) {
            Some(next) => Some(
                (ExpenseParts { id, amount, category, date, description }, next),
            ),
            None => None,
        }
    }
}

fn finish_expense(parts: ExpenseParts) -> (r: Option<Expense>)
    ensures
        match expense_of(parts@) {
            Some(value) => r matches Some(found) && found@ == value,
            None => r is None,
        },
{
    match parts {
        ExpenseParts {
            id: Some(id),
            amount: Some(amount),
            category: Some(category),
            date: Some(date),
            description,
        } => Some(
            Expense::new(
                id,
                Amount::Finite(amount),
                category,
                date,
                match description {
                    Some(description) => description,
                    None => None,
                },
            ),
        ),
        _ => None,
    }
}

fn read_expense_members(text: &Vec<char>, pos: usize) -> (r: Option<(ExpenseParts, usize)>)
    requires
        pos <= text.len(),
    ensures
        match expense_members(text@.skip(pos as int), no_expense_members(), true) {
            Some((members, rest)) => r matches Some((found, next)) && found@ == members && pos
                < next <= text.len() && text@.skip(next as int) == rest,
            None => r is None,
        },
{
    let mut parts = ExpenseParts {
        id: None,
        amount: None,
        category: None,
        date: None,
        description: None,
    };
    let mut first = true;
    let mut i = pos;
    loop
        invariant
            pos <= i <= text.len(),
            expense_members(text@.skip(pos as int), no_expense_members(), true) == expense_members(
                text@.skip(i as int),
                parts@,
                first,
            ),
        decreases text.len() - i,
    {
        let at = skip_spaces(text, i);
        if char_at(text, at, '}') {
            return Some((parts, at + 1));
        }
        if !first && !char_at(text, at, ',') {
            return None;
        }
        let key_at = if first {
            at
        } else {
            skip_spaces(text, at + 1)
        };
        let (key, value_at) = match read_member_key(text, key_at) {
            None => {
                return None;
            },
            Some(found) => found,
        };
        match read_expense_member(text, value_at, &key, parts) {
            None => {
                return None;
            },
            Some((more, next)) => {
                parts = more;
                first = false;
                i = next;
            },
        }
    }
}

fn expense_key_at(index: usize) -> (key: String)
    ensures
        key@ == expense_key(index as nat),
{
    if index == 0 {
        "id".to_owned()
    } else if index == 1 {
        "amount".to_owned()
    } else if index == 2 {
        "category".to_owned()
    } else if index == 3 {
        "date".to_owned()
    } else {
        "description".to_owned()
    }
}

fn read_expense_items(text: &Vec<char>, pos: usize) -> (r: Option<(ExpenseParts, usize)>)
    requires
        pos <= text.len(),
    ensures
        match expense_items(text@.skip(pos as int), no_expense_members(), 0) {
            Some((members, rest)) => r matches Some((found, next)) && found@ == members && pos
                < next <= text.len() && text@.skip(next as int) == rest,
            None => r is None,
        },
{
    let mut parts = ExpenseParts {
        id: None,
        amount: None,
        category: None,
        date: None,
        description: None,
    };
    let mut index: usize = 0;
    let mut i = pos;
    while index < 5
        invariant
            index <= 5,
            pos <= i <= text.len(),
            expense_items(text@.skip(pos as int), no_expense_members(), 0) == expense_items(
                text@.skip(i as int),
                parts@,
                index as nat,
            ),
        decreases 5 - index,
    {
        let at = skip_spaces(text, i);
        if index > 0 && !char_at(text, at, ',') {
            return None;
        }
        let value_at = if index == 0 {
            at
        } else {
            skip_spaces(text, at + 1)
        };
        let key = expense_key_at(index);
        match read_expense_member(text, value_at, &key, parts) {
            None => {
                return None;
            },
            Some((more, next)) => {
                parts = more;
                index += 1;
                i = next;
            },
        }
    }
    let at = skip_spaces(text, i);
    if char_at(text, at, ']') {
        Some((parts, at + 1))
    } else {
        None
    }
}

/// Reads the expense that the whole of `text` describes.
pub fn read_expense(text: &Vec<char>) -> (r: Option<Expense>)
    ensures
        match expense(text@) {
            Some(value) => r matches Some(found) && found@ == value,
            None => r is None,
        },
{
    assert(text@.skip(0) =~= text@);
    let open = skip_spaces(text, 0);
    let parts = if char_at(text, open, '{') {
        read_expense_members(text, open + 1)
    } else if char_at(text, open, '[') {
        read_expense_items(text, open + 1)
    } else {
        None
    };
    match parts {
        None => None,
        Some((parts, close)) => if skip_spaces(text, close) == text.len() {
            finish_expense(parts)
        } else {
            None
        },
    }
}

} // verus!
