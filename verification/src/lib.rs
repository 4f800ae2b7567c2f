use vstd::prelude::*;

pub mod balances;
pub mod chart;
pub mod client;
pub mod clmm;
pub mod coingecko;
pub mod metadata;
pub mod mint_map;
pub mod price;
pub mod pubkeys;
pub mod transactions;
pub mod types;
pub mod utils;

verus! {

/// Error kinds surfaced by every fallible operation of this crate.
#[derive(Debug, Clone, Copy, PartialEq, Eq, Structural)]
pub enum Error {
    InvalidAddress,
    InvalidIndex,
    InvalidTimeframe,
    FetchError,
    ParseError,
    TooManyRequests,
}

/// A half-open pagination window over a signature list.
#[derive(Debug, Clone, Copy, PartialEq, Eq, Structural)]
pub struct Page {
    pub start_idx: usize,
    pub end_idx: usize,
}

impl Error {
    /// Short stable name of the error kind, for logging and transport.
    pub fn as_str(&self) -> (r: &'static str)
        ensures
            self is InvalidAddress ==> r@ == "InvalidAddress"@,
            self is InvalidIndex ==> r@ == "InvalidIndex"@,
            self is InvalidTimeframe ==> r@ == "InvalidTimeframe"@,
            self is FetchError ==> r@ == "FetchError"@,
            self is ParseError ==> r@ == "ParseError"@,
            self is TooManyRequests ==> r@ == "TooManyRequests"@,
    {
        match self {
            Error::InvalidAddress => "InvalidAddress",
            Error::InvalidIndex => "InvalidIndex",
            Error::InvalidTimeframe => "InvalidTimeframe",
            Error::FetchError => "FetchError",
            Error::ParseError => "ParseError",
            Error::TooManyRequests => "TooManyRequests",
        }
    }
}

} // verus!
