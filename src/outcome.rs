use vstd::prelude::*;
use crate::decimal::{decimal_of, parse_decimal, Decimal};
use crate::error::RequestError;
use crate::json::{lookup_index, member, Json};
use vstd::string::*;

verus! {

/// What came back from the service for one request.
#[derive(Debug)]
pub enum Reply {
    /// The service could not be reached.
    Unreachable,
    /// A response came, but its body was not JSON.
    Undecodable,
    /// A response whose body decoded to this document.
    Body(Json),
}

/// What a request yields on success.
#[derive(Debug)]
pub enum Payload {
    /// The service answered.
    Alive,
    /// Currency codes with their display names, in the order listed.
    Currencies(Vec<(String, String)>),
    /// Rates of the base currency, by quote currency.
    Ratios(Vec<(String, Json)>),
    /// The converted amount.
    Converted(Decimal),
}

pub enum PayloadView {
    Alive,
    Currencies(Seq<(Seq<char>, Seq<char>)>),
    Ratios(Seq<(String, Json)>),
    Converted(Decimal),
}

impl View for Payload {
    type V = PayloadView;

    open spec fn view(&self) -> PayloadView {
        match self {
            Payload::Alive => PayloadView::Alive,
            Payload::Currencies(v) => PayloadView::Currencies(
                v@.map_values(|p: (String, String)| (p.0@, p.1@)),
            ),
            Payload::Ratios(v) => PayloadView::Ratios(v@),
            Payload::Converted(d) => PayloadView::Converted(*d),
        }
    }
}

/// One listed currency: skipped (`Some(None)`) when its `short_code` is
/// missing or null, its code and name when both are strings, and `None` when
/// the entry is of another shape.
pub open spec fn currency_row(v: Json) -> Option<Option<(Seq<char>, Seq<char>)>> {
    match member(v, "short_code"@) {
        None => Some(None),
        Some(Json::Null) => Some(None),
        Some(Json::Text(code)) => match member(v, "name"@) {
            Some(Json::Text(name)) => Some(Some((code@, name@))),
            _ => None,
        },
        _ => None,
    }
}

/// The currencies of a currency list, in order; `None` when an entry is malformed.
pub open spec fn currency_rows(entries: Seq<(String, Json)>) -> Option<
    Seq<(Seq<char>, Seq<char>)>,
>
    decreases entries.len(),
{
    if entries.len() == 0 {
        Some(seq![])
    } else {
        match currency_rows(entries.drop_last()) {
            None => None,
            Some(rows) => match currency_row(entries.last().1) {
                None => None,
                Some(None) => Some(rows),
                Some(Some(row)) => Some(rows.push(row)),
            },
        }
    }
}

/// A `rates` member counts when it is neither null nor an empty array or object.
pub open spec fn has_rates(r: Json) -> bool {
    match r {
        Json::Null => false,
        Json::Array(a) => a@.len() > 0,
        Json::Object(m) => m@.len() > 0,
        _ => true,
    }
}

pub open spec fn rates_of(v: Json) -> Option<Json> {
    match member(v, "rates"@) {
        Some(r) => if has_rates(r) {
            Some(r)
        } else {
            None
        },
        None => None,
    }
}

/// The `rates` of the first entry that has some.
pub open spec fn first_rates(entries: Seq<(String, Json)>) -> Option<Json>
    decreases entries.len(),
{
    if entries.len() == 0 {
        None
    } else {
        match rates_of(entries[0].1) {
            Some(r) => Some(r),
            None => first_rates(entries.drop_first()),
        }
    }
}

/// The rates that a rates response carries.
pub open spec fn ratios_of(entries: Seq<(String, Json)>) -> Result<Seq<(String, Json)>, RequestError> {
    match first_rates(entries) {
        None => Err(RequestError::InvalidBase),
        Some(Json::Object(rates)) => Ok(rates@),
        Some(_) => Err(RequestError::Malformed),
    }
}

pub open spec fn number_value(t: Seq<char>) -> Result<Decimal, RequestError> {
    match decimal_of(t) {
        Some(d) => Ok(d),
        None => Err(RequestError::Malformed),
    }
}

/// The amount at `response.value` of a conversion response. A missing, null or
/// empty value is reported as `NoValue` rather than read as zero.
pub open spec fn converted_value(v: Json) -> Result<Decimal, RequestError> {
    match member(v, "response"@) {
        None => Err(RequestError::NoValue),
        Some(resp) => match member(resp, "value"@) {
            None => Err(RequestError::NoValue),
            Some(Json::Null) => Err(RequestError::NoValue),
            Some(Json::Array(a)) => if a@.len() == 0 {
                Err(RequestError::NoValue)
            } else {
                Err(RequestError::Malformed)
            },
            Some(Json::Number(t)) => number_value(t@),
            Some(Json::Text(t)) => if t@.len() == 0 {
                Err(RequestError::NoValue)
            } else {
                number_value(t@)
            },
            Some(_) => Err(RequestError::Malformed),
        },
    }
}

/// The currency list holds, in order, one row for each entry whose
/// `short_code` is a string, with that code and the entry's `name`; entries
/// whose `short_code` is missing or null are left out.
pub proof fn lemma_currency_rows(entries: Seq<(String, Json)>)
    requires
        currency_rows(entries) is Some,
    ensures
        ({
            let rows = currency_rows(entries)->0;
            &&& forall|i: int| 0 <= i < entries.len() ==> #[trigger] currency_row(entries[i].1) is Some
            &&& forall|k: int|
                0 <= k < rows.len() ==> exists|i: int|
                    0 <= i < entries.len() && #[trigger] currency_row(entries[i].1) == Some(
                        Some(#[trigger] rows[k]),
                    )
            &&& forall|i: int|
                0 <= i < entries.len() && #[trigger] currency_row(entries[i].1) is Some ==> (
                currency_row(entries[i].1)->0 matches Some(row) ==> rows.contains(row))
        }),
    decreases entries.len(),
{
    if entries.len() > 0 {
        let init = entries.drop_last();
        lemma_currency_rows(init);
        let rows0 = currency_rows(init)->0;
        let rows = currency_rows(entries)->0;
        let n = entries.len() - 1;
        assert forall|i: int| 0 <= i < entries.len() implies #[trigger] currency_row(
            entries[i].1,
        ) is Some by {
            if i < n {
                assert(entries[i] == init[i]);
            }
        }
        assert forall|k: int| 0 <= k < rows.len() implies exists|i: int|
            0 <= i < entries.len() && #[trigger] currency_row(entries[i].1) == Some(
                Some(#[trigger] rows[k]),
            ) by {
            if k < rows0.len() {
                assert(rows[k] == rows0[k]);
                let i = choose|i: int|
                    0 <= i < init.len() && #[trigger] currency_row(init[i].1) == Some(
                        Some(rows0[k]),
                    );
                assert(entries[i] == init[i]);
            } else {
                assert(currency_row(entries[n].1) == Some(Some(rows[k])));
            }
        }
        assert forall|i: int|
            0 <= i < entries.len() && #[trigger] currency_row(entries[i].1) is Some implies (
            currency_row(entries[i].1)->0 matches Some(row) ==> rows.contains(row)) by {
            if let Some(row) = currency_row(entries[i].1)->0 {
                if i < n {
                    assert(entries[i] == init[i]);
                    let k = choose|k: int| 0 <= k < rows0.len() && rows0[k] == row;
                    if rows != rows0 {
                        assert(rows[k] == rows0[k]);
                    }
                } else {
                    assert(rows[rows.len() - 1] == row);
                }
            }
        }
    }
}

/// Reads the currencies of a currency list.
pub fn currency_list(entries: &Vec<(String, Json)>) -> (r: Result<Vec<(String, String)>, RequestError>)
    ensures
        match currency_rows(entries@) {
            Some(rows) => r matches Ok(v) && v@.map_values(|p: (String, String)| (p.0@, p.1@))
                == rows,
            None => r == Err::<Vec<(String, String)>, RequestError>(RequestError::Malformed),
        },
{
    let mut out: Vec<(String, String)> = Vec::new();
    let mut i: usize = 0;
    assert(entries@.take(0) =~= Seq::<(String, Json)>::empty());
    while i < entries.len()
        invariant
            i <= entries.len(),
            currency_rows(entries@.take(i as int)) == Some(
                out@.map_values(|p: (String, String)| (p.0@, p.1@)),
            ),
        decreases entries.len() - i,
    {
        let v = &entries[i].1;
        let ghost before = out@;
        assert(entries@.take(i + 1).drop_last() =~= entries@.take(i as int));
        assert(entries@.take(i + 1).last() == entries@[i as int]);
        match v.get("short_code") {
            None => {},
            Some(Json::Null) => {},
            Some(Json::Text(code)) => match v.get("name") {
                Some(Json::Text(name)) => {
                    out.push((code.clone(), name.clone()));
                    assert(out@.map_values(|p: (String, String)| (p.0@, p.1@)) =~= before.map_values(
                        |p: (String, String)| (p.0@, p.1@),
                    ).push((code@, name@)));
                },
                _ => {
                    proof {
                        lemma_rows_stay_none(entries@, (i + 1) as int);
                    }
                    return Err(RequestError::Malformed);
                },
            },
            _ => {
                proof {
                    lemma_rows_stay_none(entries@, (i + 1) as int);
                }
                return Err(RequestError::Malformed);
            },
        }
        i = i + 1;
    }
    assert(entries@.take(entries@.len() as int) =~= entries@);
    Ok(out)
}

/// Once an entry is malformed, so is every longer prefix.
proof fn lemma_rows_stay_none(entries: Seq<(String, Json)>, k: int)
    requires
        0 <= k <= entries.len(),
        currency_rows(entries.take(k)) is None,
    ensures
        currency_rows(entries) is None,
    decreases entries.len() - k,
{
    if k < entries.len() {
        assert(entries.take(k + 1).drop_last() =~= entries.take(k));
        lemma_rows_stay_none(entries, k + 1);
    } else {
        assert(entries.take(k) =~= entries);
    }
}

/// Takes the rates out of a rates response: those of the first entry with a
/// non-empty `rates` member.
pub fn take_rates(response: Vec<(String, Json)>) -> (r: Result<Vec<(String, Json)>, RequestError>)
    ensures
        match ratios_of(response@) {
            Ok(rates) => r matches Ok(v) && v@ == rates,
            Err(e) => r == Err::<Vec<(String, Json)>, RequestError>(e),
        },
{
    let mut entries = response;
    let ghost all = entries@;
    let mut i: usize = 0;
    assert(all.subrange(0, all.len() as int) =~= all);
    while i < entries.len()
        invariant
            entries@ == all,
            all == response@,
            i <= all.len(),
            first_rates(all) == first_rates(all.subrange(i as int, all.len() as int)),
        decreases all.len() - i,
    {
        let ghost rest = all.subrange(i as int, all.len() as int);
        assert(rest[0] == all[i as int]);
        let found = match entries[i].1.get("rates") {
            Some(Json::Null) => false,
            Some(Json::Array(a)) => a.len() > 0,
            Some(Json::Object(m)) => m.len() > 0,
            Some(_) => true,
            None => false,
        };
        if found {
            assert(rates_of(all[i as int].1) is Some);
            assert(first_rates(rest) == rates_of(all[i as int].1));
            let entry = entries.remove(i);
            assert(entry == all[i as int]);
            match entry.1 {
                Json::Object(members) => {
                    let mut members = members;
                    match lookup_index(&members, "rates") {
                        Some(j) => {
                            let ghost whole = members@;
                            let member = members.remove(j);
                            assert(member == whole[j as int]);
                            assert(rates_of(all[i as int].1) == Some(member.1));
                            assert(first_rates(all) == Some(member.1));
                            match member.1 {
                                Json::Object(rates) => {
                                    return Ok(rates);
                                },
                                _ => return Err(RequestError::Malformed),
                            }
                        },
                        None => return Err(RequestError::Malformed),
                    }
                },
                _ => return Err(RequestError::Malformed),
            }
        }
        assert(rest.drop_first() =~= all.subrange(i + 1, all.len() as int));
        i = i + 1;
    }
    Err(RequestError::InvalidBase)
}

/// Reads the converted amount of a conversion response.
pub fn read_converted(v: &Json) -> (r: Result<Decimal, RequestError>)
    ensures
        r == converted_value(*v),
{
    let resp = match v.get("response") {
        Some(resp) => resp,
        None => return Err(RequestError::NoValue),
    };
    match resp.get("value") {
        None => Err(RequestError::NoValue),
        Some(Json::Null) => Err(RequestError::NoValue),
        Some(Json::Array(a)) => if a.len() == 0 {
            Err(RequestError::NoValue)
        } else {
            Err(RequestError::Malformed)
        },
        Some(Json::Number(t)) => match parse_decimal(t.as_str()) {
            Some(d) => Ok(d),
            None => Err(RequestError::Malformed),
        },
        Some(Json::Text(t)) => if t.as_str().unicode_len() == 0 {
            Err(RequestError::NoValue)
        } else {
            match parse_decimal(t.as_str()) {
                Some(d) => Ok(d),
                None => Err(RequestError::Malformed),
            }
        },
        Some(_) => Err(RequestError::Malformed),
    }
}

} // verus!
