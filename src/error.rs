use vstd::prelude::*;

verus! {

/// Why a request, or a lookup in a rate table, produced no result.
#[derive(Clone, Copy, Debug, PartialEq, Eq, Structural)]
pub enum RequestError {
    /// The address could not be formed from the configured base URL.
    BadUrl,
    /// The service could not be reached.
    Transport,
    /// The response body was not JSON.
    Undecodable,
    /// The response was JSON, but not of the expected shape.
    Malformed,
    /// No rates are known for the requested base currency.
    InvalidBase,
    /// A currency of the pair is not in the rate table.
    UnknownCurrency,
    /// The conversion response carried no value.
    NoValue,
    /// The converted amount does not fit a `Decimal`.
    Overflow,
}

} // verus!
