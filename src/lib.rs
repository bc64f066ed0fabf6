//! A client library for a currency-exchange web service: it forms the
//! addresses of the service's four requests (liveness, currency list, rates of
//! a base currency, conversion) and interprets the decoded replies into typed
//! results. Sending the requests is left to the caller. A `RateTable` models
//! rates held locally: listing the rates of a base and converting amounts,
//! rounded to the nearest hundredth.
use vstd::prelude::*;

pub mod codes;
pub mod decimal;
pub mod error;
pub mod json;
pub mod outcome;
pub mod rates;
pub mod requests;

verus! {

} // verus!
