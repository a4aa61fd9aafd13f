//! The records: dates, expenses, incomes, credit cards, investments, deposits
//! and accounts.
//!
//! A record is a plain value. Nothing is checked when one is made: a date may
//! name the 99th day of the 13th month, a category may be empty.

use crate::amount::{Amount, AmountView};
use crate::decode::read_expense;
use crate::encode::write_expense;
use crate::facts::lemma_read_is_well_formed;
use crate::reader::characters;
use crate::round_trip::{lemma_not_finite_is_refused, lemma_round_trip};
use crate::wire::expense_text;
use vstd::prelude::*;

verus! {

/// A calendar date.
#[derive(Debug, Clone, Copy)]
pub struct Date {
    day: u8,
    month: u8,
    year: u16,
}

/// What a [`Date`] holds.
pub struct DateView {
    pub day: u8,
    pub month: u8,
    pub year: u16,
}

impl View for Date {
    type V = DateView;

    closed spec fn view(&self) -> DateView {
        DateView { day: self.day, month: self.month, year: self.year }
    }
}

impl Date {
    /// The date with the given day, month and year.
    pub fn new(day: u8, month: u8, year: u16) -> (date: Date)
        ensures
            date@ == (DateView { day, month, year }),
    {
        Date { day, month, year }
    }

    /// The day of the month.
    pub fn day(&self) -> (day: u8)
        ensures
            day == self@.day,
    {
        self.day
    }

    /// The month of the year.
    pub fn month(&self) -> (month: u8)
        ensures
            month == self@.month,
    {
        self.month
    }

    /// The year.
    pub fn year(&self) -> (year: u16)
        ensures
            year == self@.year,
    {
        self.year
    }
}

/// What an optional string holds.
pub open spec fn optional_view(text: Option<String>) -> Option<Seq<char>> {
    match text {
        Some(text) => Some(text@),
        None => None,
    }
}

/// Money that was spent.
pub struct Expense {
    id: u32,
    amount: Amount,
    category: String,
    date: Date,
    description: Option<String>,
}

/// What an [`Expense`] holds.
pub struct ExpenseView {
    pub id: u32,
    pub amount: AmountView,
    pub category: Seq<char>,
    pub date: DateView,
    pub description: Option<Seq<char>>,
}

impl View for Expense {
    type V = ExpenseView;

    closed spec fn view(&self) -> ExpenseView {
        ExpenseView {
            id: self.id,
            amount: self.amount@,
            category: self.category@,
            date: self.date@,
            description: optional_view(self.description),
        }
    }
}

impl Expense {
    /// The expense with the given fields.
    pub fn new(
        id: u32,
        amount: Amount,
        category: String,
        date: Date,
        description: Option<String>,
    ) -> (expense: Expense)
        ensures
            expense@ == (ExpenseView {
                id,
                amount: amount@,
                category: category@,
                date: date@,
                description: optional_view(description),
            }),
    {
        Expense { id, amount, category, date, description }
    }

    /// Replaces the amount and leaves the other fields as they are.
    pub fn update_amount(&mut self, new_amount: Amount)
        ensures
            final(self)@ == (ExpenseView { amount: new_amount@, ..old(self)@ }),
    {
        self.amount = new_amount;
    }

    /// The number that identifies the expense.
    pub fn id(&self) -> (id: u32)
        ensures
            id == self@.id,
    {
        self.id
    }

    /// The amount that was spent.
    pub fn amount(&self) -> (amount: &Amount)
        ensures
            amount@ == self@.amount,
    {
        &self.amount
    }

    /// The category that the expense falls under.
    pub fn category(&self) -> (category: &str)
        ensures
            category@ == self@.category,
    {
        self.category.as_str()
    }

    /// The day on which the money was spent.
    pub fn date(&self) -> (date: Date)
        ensures
            date@ == self@.date,
    {
        self.date
    }

    /// What was bought, where that was noted.
    pub fn description(&self) -> (description: Option<&str>)
        ensures
            match self@.description {
                Some(text) => description matches Some(found) && found@ == text,
                None => description is None,
            },
    {
        match &self.description {
            Some(text) => Some(text.as_str()),
            None => None,
        }
    }
}

/// Money that came in.
#[derive(Debug, Clone)]
#[allow(dead_code)]
pub struct Income {
    id: u32,
    amount: Amount,
    category: String,
    date: Date,
    description: Option<String>,
}

/// A credit card.
#[derive(Debug, Clone)]
#[allow(dead_code)]
pub struct CreditCard {
    card_number: String,
    expiration_date: Date,
    cardholder_name: String,
    cvv: u16,
    balance: Amount,
    limit: Amount,
}

/// Money that was invested. The type is a free label: stocks, bonds, real
/// estate and so on.
#[derive(Debug, Clone)]
#[allow(dead_code)]
pub struct Investment {
    id: u32,
    type_: String,
    amount: Amount,
    date: Date,
}

/// Money held at a bank at interest. `iik` is the number of the account and
/// `bik` the code of the bank.
#[derive(Debug, Clone)]
#[allow(dead_code)]
pub struct Deposit {
    id: u32,
    type_: String,
    amount: Amount,
    interest: Amount,
    date: Date,
    bank_name: String,
    iik: String,
    bik: String,
}

/// An account and the records that belong to it. The balance is kept as it
/// was given: nothing holds it to the sum of the records.
#[allow(dead_code)]
pub struct Account {
    id: u32,
    type_: String,
    balance: Amount,
    deposits: Vec<Deposit>,
    expenses: Vec<Expense>,
    incomes: Vec<Income>,
    investments: Vec<Investment>,
    credit_cards: Vec<CreditCard>,
}

/// The categories of expenses.
#[allow(non_camel_case_types)]
pub enum ExpenseCategory {
    additional_services,
    food,
    shopping,
    technology,
    games,
    transport,
    personal_care,
    streaming,
    education,
    communication,
    clothes,
    hobbies,
    apple_services,
    healthcare_fitness,
    entertainment_culture,
    gifts,
}

#[allow(dead_code)]
enum IncomeSources {
    Work,
    Stipendium,
    Transfers,
    FromInvestition,
    SideHustle,
}

/// The text is no expense in JSON.
#[derive(Debug, Clone, Copy, PartialEq, Eq)]
pub struct MalformedJson {}

/// The JSON text of an expense: one object with the members `id`, `amount`,
/// `category`, `date` and `description`, in this order and without spaces.
///
/// The text of an expense with a finite amount is read back as that expense.
/// An amount that is not finite is written as `null`, and the text is then
/// not read as an expense.
pub fn get_expense_as_json(expense: &Expense) -> (json: String)
    ensures
        json@ == expense_text(expense@),
        crate::wire::expense(json@) == if expense@.amount is Finite {
            Some(expense@)
        } else {
            None
        },
{
    let finite = expense.amount.is_finite();
    proof {
        if finite {
            lemma_round_trip(expense@);
        } else {
            lemma_not_finite_is_refused(expense@);
        }
    }
    write_expense(expense)
}

/// The expense that a JSON text describes.
///
/// The text is accepted where [`crate::wire::expense`] says so, and the
/// result then holds exactly what it names: an expense is read whole or not
/// at all. Any other text is malformed.
pub fn create_expense_from_json(json_data: &str) -> (r: Result<Expense, MalformedJson>)
    ensures
        match crate::wire::expense(json_data@) {
            Some(found) => r matches Ok(e) && e@ == found && found.amount is Finite
                && found.amount.well_formed(),
            None => r is Err,
        },
{
    proof {
        lemma_read_is_well_formed(json_data@);
    }
    let text = characters(json_data);
    match read_expense(&text) {
        Some(expense) => Ok(expense),
        None => Err(MalformedJson {  }),
    }
}

} // verus!
