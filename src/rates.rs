use vstd::prelude::*;
use crate::codes::{upper_code, upper_code_spec};
use crate::decimal::{
    lemma_round_half_up_nearest, multiply_rounded, pow10, product_hundredths, Decimal,
};
use crate::error::RequestError;
use crate::json::{lookup, lookup_entry};

verus! {

/// Exchange rates by base currency: each base maps quote currencies to the
/// price of one unit of the base in that currency. Codes are stored upper-case.
pub struct RateTable {
    pub bases: Vec<(String, Vec<(String, Decimal)>)>,
}

/// The rate from `from` to `to` in `table`, codes taken without regard to case.
pub open spec fn rate_of(
    table: Seq<(String, Vec<(String, Decimal)>)>,
    from: Seq<char>,
    to: Seq<char>,
) -> Option<Decimal> {
    match lookup(table, upper_code_spec(from)) {
        Some(row) => lookup(row@, upper_code_spec(to)),
        None => None,
    }
}

/// What converting `amount` from `from` to `to` yields.
pub open spec fn conversion(
    table: Seq<(String, Vec<(String, Decimal)>)>,
    amount: Decimal,
    from: Seq<char>,
    to: Seq<char>,
) -> Result<Decimal, RequestError> {
    match rate_of(table, from, to) {
        None => Err(RequestError::UnknownCurrency),
        Some(rate) => if product_hundredths(amount, rate) <= u64::MAX {
            Ok(Decimal { digits: product_hundredths(amount, rate) as u64, scale: 2 })
        } else {
            Err(RequestError::Overflow)
        },
    }
}

impl RateTable {
    /// Every rate has a bounded number of fractional digits.
    pub open spec fn wf(&self) -> bool {
        forall|i: int, j: int|
            0 <= i < self.bases@.len() && 0 <= j < self.bases@[i].1@.len() ==> (
            #[trigger] self.bases@[i].1@[j]).1.wf()
    }

    pub fn new(bases: Vec<(String, Vec<(String, Decimal)>)>) -> (r: RateTable)
        ensures
            r.bases == bases,
    {
        RateTable { bases }
    }

    /// The rates listed for `base`: exactly the row stored for that currency.
    pub fn ratios(&self, base: &str) -> (r: Result<&Vec<(String, Decimal)>, RequestError>)
        ensures
            match lookup(self.bases@, upper_code_spec(base@)) {
                Some(row) => r == Ok::<&Vec<(String, Decimal)>, RequestError>(&row),
                None => r == Err::<&Vec<(String, Decimal)>, RequestError>(RequestError::InvalidBase),
            },
    {
        let code = upper_code(base);
        match lookup_entry(&self.bases, code.as_str()) {
            Some(row) => Ok(row),
            None => Err(RequestError::InvalidBase),
        }
    }

    /// Converts `amount` from `from` to `to`: the amount times the rate,
    /// rounded to two decimals with halves rounding up.
    pub fn convert(&self, amount: Decimal, from: &str, to: &str) -> (r: Result<Decimal, RequestError>)
        requires
            self.wf(),
            amount.wf(),
        ensures
            r == conversion(self.bases@, amount, from@, to@),
    {
        let from_code = upper_code(from);
        let to_code = upper_code(to);
        let row = match lookup_entry(&self.bases, from_code.as_str()) {
            Some(row) => row,
            None => return Err(RequestError::UnknownCurrency),
        };
        let rate = match lookup_entry(row, to_code.as_str()) {
            Some(rate) => *rate,
            None => return Err(RequestError::UnknownCurrency),
        };
        proof {
            lemma_lookup_in(self.bases@, from_code@);
            let i = choose|i: int| 0 <= i < self.bases@.len() && self.bases@[i].1 == *row;
            lemma_lookup_in(row@, to_code@);
            let j = choose|j: int| 0 <= j < row@.len() && row@[j].1 == rate;
            assert(self.bases@[i].1@[j].1.wf());
        }
        match multiply_rounded(amount, rate) {
            Some(d) => Ok(d),
            None => Err(RequestError::Overflow),
        }
    }
}

/// Converting between two currencies of the table gives the amount times the
/// rate to the nearest hundredth: the result is within half a hundredth of
/// the exact product, a half going up.
pub proof fn lemma_conversion_nearest(
    table: Seq<(String, Vec<(String, Decimal)>)>,
    amount: Decimal,
    from: Seq<char>,
    to: Seq<char>,
)
    requires
        rate_of(table, from, to) is Some,
        product_hundredths(amount, rate_of(table, from, to)->0) <= u64::MAX,
    ensures
        ({
            let rate = rate_of(table, from, to)->0;
            let exact = 100 * amount.digits * rate.digits;
            let unit = pow10((amount.scale + rate.scale) as nat);
            conversion(table, amount, from, to) matches Ok(r) && r.scale == 2 && (2 * r.digits - 1)
                * unit <= 2 * exact && 2 * exact < (2 * r.digits + 1) * unit
        }),
{
    let rate = rate_of(table, from, to)->0;
    let exact = (100 * amount.digits * rate.digits) as nat;
    let unit = pow10((amount.scale + rate.scale) as nat);
    lemma_pow10_positive((amount.scale + rate.scale) as nat);
    lemma_round_half_up_nearest(exact, unit);
}

/// A conversion that involves a currency missing from the table fails with
/// `UnknownCurrency`, whatever the amount.
pub proof fn lemma_conversion_unknown(
    table: Seq<(String, Vec<(String, Decimal)>)>,
    amount: Decimal,
    from: Seq<char>,
    to: Seq<char>,
)
    requires
        rate_of(table, from, to) is None,
    ensures
        conversion(table, amount, from, to) == Err::<Decimal, RequestError>(
            RequestError::UnknownCurrency,
        ),
{
}

proof fn lemma_pow10_positive(n: nat)
    ensures
        pow10(n) > 0,
    decreases n,
{
    if n > 0 {
        lemma_pow10_positive((n - 1) as nat);
    }
}

/// A value found by `lookup` is stored in one of the entries.
pub proof fn lemma_lookup_in<V>(entries: Seq<(String, V)>, key: Seq<char>)
    ensures
        lookup(entries, key) matches Some(v) ==> exists|i: int|
            0 <= i < entries.len() && entries[i].1 == v,
    decreases entries.len(),
{
    if entries.len() > 0 && entries[0].0@ != key {
        lemma_lookup_in(entries.drop_first(), key);
        if lookup(entries, key) is Some {
            let i = choose|i: int|
                0 <= i < entries.drop_first().len() && entries.drop_first()[i].1 == lookup(
                    entries,
                    key,
                )->0;
            assert(entries[i + 1].1 == lookup(entries, key)->0);
        }
    } else if entries.len() > 0 {
        assert(entries[0].1 == lookup(entries, key)->0);
    }
}

} // verus!
