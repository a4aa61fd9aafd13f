//! Writing an expense as JSON text.

use crate::amount::Amount;
use crate::data_types::{Date, Expense};
use crate::grammar::{decimal, quoted};
use crate::wire::{amount_text, date_text, description_text, expense_text};
use vstd::prelude::*;
use vstd::string::*;

verus! {

/// `serde_json::to_string` on a string slice: the characters between two
/// quotes, where the quote and the backslash follow a backslash, a character
/// below U+0020 is written by its short escape or as `u00` and two lower-case
/// hexadecimal digits after a backslash, and every other character stands as
/// it is. The call cannot fail on a string slice.
#[verifier::external_body]
fn json_string(text: &str) -> (json: String)
    ensures
        json@ == quoted(text@),
{
    serde_json::to_string(text).unwrap_or_default()
}

/// `serde_json::to_string` on an unsigned integer: its decimal digits,
/// without sign and without leading zeros. The call cannot fail on an
/// integer.
#[verifier::external_body]
fn json_integer(n: u32) -> (json: String)
    ensures
        json@ == decimal(n as nat),
{
    serde_json::to_string(&n).unwrap_or_default()
}

fn write_date(out: &mut String, date: Date)
    ensures
        final(out)@ == old(out)@ + date_text(date@),
{
    let ghost before = out@;
    out.append("{\"day\":");
    out.append(json_integer(date.day() as u32).as_str());
    out.append(",\"month\":");
    out.append(json_integer(date.month() as u32).as_str());
    out.append(",\"year\":");
    out.append(json_integer(date.year() as u32).as_str());
    out.append("}");
    assert(out@ =~= before + date_text(date@));
}

fn write_amount(out: &mut String, amount: &Amount)
    ensures
        final(out)@ == old(out)@ + amount_text(amount@),
{
    match amount.literal() {
        Some(literal) => out.append(literal),
        None => out.append("null"),
    }
}

fn write_description(out: &mut String, description: Option<&str>)
    ensures
        final(out)@ == old(out)@ + description_text(
            match description {
                Some(text) => Some(text@),
                None => None,
            },
        ),
{
    match description {
        Some(text) => out.append(json_string(text).as_str()),
        None => out.append("null"),
    }
}

/// The JSON text of an expense.
pub fn write_expense(expense: &Expense) -> (json: String)
    ensures
        json@ == expense_text(expense@),
{
    let mut out = String::new();
    out.append("{\"id\":");
    out.append(json_integer(expense.id()).as_str());
    out.append(",\"amount\":");
    write_amount(&mut out, expense.amount());
    out.append(",\"category\":");
    out.append(json_string(expense.category()).as_str());
    out.append(",\"date\":");
    write_date(&mut out, expense.date());
    out.append(",\"description\":");
    write_description(&mut out, expense.description());
    out.append("}");
    assert(out@ =~= expense_text(expense@));
    out
}

} // verus!
