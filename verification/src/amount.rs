//! Amounts of money.
//!
//! An amount is a number that may have a fraction. The library never computes
//! with amounts: it stores them, replaces them and writes them into JSON text.
//! So a finite amount is held as the decimal number that stands in the text,
//! and the three values that have no decimal notation each have a name.

use crate::grammar::is_number;
use crate::reader::{characters, number_end};
use vstd::prelude::*;

verus! {

/// A finite number in the decimal notation of JSON: an optional minus sign,
/// an integer part without leading zeros, an optional fraction and an optional
/// exponent.
#[derive(Debug)]
pub struct Decimal {
    literal: String,
}

impl View for Decimal {
    type V = Seq<char>;

    closed spec fn view(&self) -> Seq<char> {
        self.literal@
    }
}

impl Decimal {
    #[verifier::type_invariant]
    spec fn well_formed(self) -> bool {
        is_number(self.literal@)
    }

    /// The number that `text` writes, where the whole of `text` is a number.
    pub fn parse(text: &str) -> (r: Option<Decimal>)
        ensures
            match r {
                Some(decimal) => is_number(text@) && decimal@ == text@,
                None => !is_number(text@),
            },
    {
        let chars = characters(text);
        assert(chars@.skip(0) =~= chars@);
        match number_end(&chars, 0) {
            Some(end) if end == chars.len() => Some(Decimal { literal: text.to_owned() }),
            _ => None,
        }
    }

    /// The number that `literal` writes.
    pub(crate) fn from_number(literal: String) -> (decimal: Decimal)
        requires
            is_number(literal@),
        ensures
            decimal@ == literal@,
    {
        Decimal { literal }
    }

    /// The number as it is written.
    pub fn as_str(&self) -> (literal: &str)
        ensures
            literal@ == self@,
            is_number(literal@),
    {
        proof {
            use_type_invariant(self);
        }
        self.literal.as_str()
    }
}

impl Clone for Decimal {
    fn clone(&self) -> (copy: Decimal)
        ensures
            copy@ == self@,
    {
        proof {
            use_type_invariant(self);
        }
        Decimal { literal: self.literal.clone() }
    }
}

/// An amount: a finite number, or one of the three values that are not.
#[derive(Debug)]
pub enum Amount {
    /// A finite amount.
    Finite(Decimal),
    /// The result of an undefined operation.
    NotANumber,
    /// An amount greater than every finite one.
    Infinity,
    /// An amount smaller than every finite one.
    NegInfinity,
}

/// What an [`Amount`] holds.
pub enum AmountView {
    Finite(Seq<char>),
    NotANumber,
    Infinity,
    NegInfinity,
}

impl AmountView {
    /// A finite amount is written as a number.
    pub open spec fn well_formed(self) -> bool {
        self matches AmountView::Finite(literal) ==> is_number(literal)
    }
}

impl View for Amount {
    type V = AmountView;

    open spec fn view(&self) -> AmountView {
        match self {
            Amount::Finite(decimal) => AmountView::Finite(decimal@),
            Amount::NotANumber => AmountView::NotANumber,
            Amount::Infinity => AmountView::Infinity,
            Amount::NegInfinity => AmountView::NegInfinity,
        }
    }
}

impl Clone for Amount {
    fn clone(&self) -> (copy: Amount)
        ensures
            copy@ == self@,
    {
        match self {
            Amount::Finite(decimal) => Amount::Finite(decimal.clone()),
            Amount::NotANumber => Amount::NotANumber,
            Amount::Infinity => Amount::Infinity,
            Amount::NegInfinity => Amount::NegInfinity,
        }
    }
}

impl Amount {
    /// The finite amount that `text` writes, where the whole of `text` is a
    /// number.
    pub fn finite(text: &str) -> (r: Option<Amount>)
        ensures
            match r {
                Some(amount) => is_number(text@) && amount@ == AmountView::Finite(text@),
                None => !is_number(text@),
            },
    {
        match Decimal::parse(text) {
            Some(decimal) => Some(Amount::Finite(decimal)),
            None => None,
        }
    }

    /// Whether the amount is a finite number.
    pub fn is_finite(&self) -> (finite: bool)
        ensures
            finite == (self@ is Finite),
            self@.well_formed(),
    {
        match self {
            Amount::Finite(decimal) => {
                proof {
                    use_type_invariant(decimal);
                }
                true
            },
            _ => false,
        }
    }

    /// The decimal notation of a finite amount.
    pub fn literal(&self) -> (r: Option<&str>)
        ensures
            match self@ {
                AmountView::Finite(literal) => r matches Some(text) && text@ == literal
                    && is_number(literal),
                _ => r is None,
            },
    {
        match self {
            Amount::Finite(decimal) => Some(decimal.as_str()),
            _ => None,
        }
    }
}

} // verus!
