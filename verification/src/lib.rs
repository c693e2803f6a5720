//! Reminders: how long ago, or how far ahead, a list of dated events lies,
//! told in years, months and days and laid out as an aligned text table.

use vstd::prelude::*;

pub mod cli;
pub mod config;
pub mod date;
pub mod duration;
pub mod laws;
pub mod phrase;
pub mod report;
pub mod table;
pub mod text;

verus! {

/// `std::io::Error`, carried through as it came.
#[verifier::external_type_specification]
#[verifier::external_body]
pub struct ExIoError(std::io::Error);

/// Why a list of reminders could not be had.
#[derive(Debug)]
pub enum Error {
    /// Reading failed.
    IO(std::io::Error),
    /// A line is not an event; the text says which line and why.
    Config(String),
}

} // verus!
