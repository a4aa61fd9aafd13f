//! Financial records and the JSON form of an expense.
//!
//! The records are in [`data_types`], with the two functions that turn an
//! expense into JSON text and back. An amount of money is held as the decimal
//! number that stands in the text ([`amount`]).
//!
//! What the text of an expense is, and which texts are read as an expense, is
//! stated in [`wire`] over the tokens of [`grammar`]. [`encode`] writes that
//! text; [`reader`], [`pass`] and [`decode`] read it. [`facts`],
//! [`round_trip`] and [`extend`] hold what is proved of the two: above all
//! that the text of an expense is read back as the same expense, and that the
//! same text cut short is refused.

pub mod amount;
pub mod data_types;
pub mod decode;
pub mod encode;
pub mod extend;
pub mod facts;
pub mod grammar;
pub mod pass;
pub mod reader;
pub mod round_trip;
pub mod std_text;
pub mod wire;
