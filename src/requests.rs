use vstd::prelude::*;
use vstd::string::StringExecFns;
use crate::codes::{upper_code, upper_code_spec};
use crate::decimal::{decimal_text, Decimal};
use crate::error::RequestError;
use crate::json::Json;
use crate::outcome::{
    converted_value, currency_list, currency_rows, ratios_of, read_converted, take_rates, Payload,
    PayloadView, Reply,
};

verus! {

/// Where the service lives and the key that opens it.
pub struct Credentials {
    pub url: String,
    pub api_key: String,
}

impl Credentials {
    pub fn new(url: String, api_key: String) -> (r: Credentials)
        ensures
            r.url == url,
            r.api_key == api_key,
    {
        Credentials { url, api_key }
    }
}

/// The base currency whose rates are listed.
pub struct RatiosListArguments {
    pub base: String,
}

/// A conversion of `amount` from one currency to another.
pub struct ExchangeCurrencyArguments {
    pub from: String,
    pub to: String,
    pub amount: Decimal,
}

/// Checks that the service answers.
pub struct Request<'a> {
    pub credentials: &'a Credentials,
}

/// Lists the supported currencies.
pub struct CurrencyListRequest<'a> {
    pub credentials: &'a Credentials,
}

/// Lists the exchange rates of one base currency.
pub struct RatiosListRequest<'a> {
    pub args: RatiosListArguments,
    pub credentials: &'a Credentials,
}

/// Converts an amount between two currencies.
pub struct ExchangeCurrencyRequest<'a> {
    pub args: ExchangeCurrencyArguments,
    pub credentials: &'a Credentials,
}

/// The text of each name and value.
pub open spec fn text_pairs(v: Seq<(String, String)>) -> Seq<(Seq<char>, Seq<char>)> {
    v.map_values(|p: (String, String)| (p.0@, p.1@))
}

/// The address `base` with the `pairs` appended to its query, form-encoded;
/// nothing when `base` is not an absolute URL.
pub uninterp spec fn url_with_query(
    base: Seq<char>,
    pairs: Seq<(Seq<char>, Seq<char>)>,
) -> Option<Seq<char>>;

/// Relies on reqwest::Url::parse_with_params (the url crate's `Url`): it parses
/// `base` and appends `pairs` to the query; the outcome depends on the
/// arguments alone.
#[verifier::external_body]
fn encode_url(base: &str, pairs: &Vec<(String, String)>) -> (r: Option<String>)
    ensures
        r is Some <==> url_with_query(base@, text_pairs(pairs@)) is Some,
        r matches Some(u) ==> u@ == url_with_query(base@, text_pairs(pairs@))->0,
{
    reqwest::Url::parse_with_params(base, pairs.iter()).ok().map(String::from)
}

/// `a` followed by `b`.
fn joined(a: &str, b: &str) -> (r: String)
    ensures
        r@ == a@ + b@,
{
    let mut s = String::from_str(a);
    s.append(b);
    s
}

/// A name and value for a query.
fn query_pair(name: &str, value: String) -> (r: (String, String))
    ensures
        r.0@ == name@,
        r.1@ == value@,
{
    (String::from_str(name), value)
}

/// The address of the liveness check.
pub open spec fn alive_target(c: Credentials) -> Seq<char> {
    c.url@ + "?api_key="@ + c.api_key@
}

/// The address of the currency list.
pub open spec fn currencies_target(c: Credentials) -> Seq<char> {
    c.url@ + "/v1/currencies?api_key="@ + c.api_key@
}

/// The address of the rates of `base`.
pub open spec fn ratios_target(c: Credentials, base: Seq<char>) -> Option<Seq<char>> {
    url_with_query(
        c.url@ + "/v1/latest"@,
        seq![("api_key"@, c.api_key@), ("base"@, upper_code_spec(base))],
    )
}

/// The address of a conversion.
pub open spec fn exchange_target(c: Credentials, a: ExchangeCurrencyArguments) -> Option<Seq<char>> {
    url_with_query(
        c.url@ + "/v1/convert"@,
        seq![
            ("api_key"@, c.api_key@),
            ("from"@, upper_code_spec(a.from@)),
            ("to"@, upper_code_spec(a.to@)),
            ("amount"@, decimal_text(a.amount)),
        ],
    )
}

/// The contract shared by every request: the address it is sent to, and what
/// it yields for each reply. Sending it is left to the caller.
pub trait Requests {
    /// The address, when one can be formed.
    spec fn target_spec(&self) -> Option<Seq<char>>;

    /// The result for `reply`.
    spec fn outcome_spec(&self, reply: Reply) -> Result<PayloadView, RequestError>;

    /// What the request needs of its own fields.
    spec fn ready(&self) -> bool;

    /// The address to send the request to; `BadUrl` when the configured base
    /// URL cannot carry a query.
    fn target(&self) -> (r: Result<String, RequestError>)
        requires
            self.ready(),
        ensures
            match self.target_spec() {
                Some(u) => r matches Ok(s) && s@ == u,
                None => r == Err::<String, RequestError>(RequestError::BadUrl),
            },
    ;

    /// Interprets what came back.
    fn outcome(&self, reply: Reply) -> (r: Result<Payload, RequestError>)
        ensures
            match r {
                Ok(p) => self.outcome_spec(reply) == Ok::<PayloadView, RequestError>(p@),
                Err(e) => self.outcome_spec(reply) == Err::<PayloadView, RequestError>(e),
            },
    ;
}

/// Transport failures and undecodable bodies, common to the requests that read
/// a body; `None` when there is a document to read.
pub open spec fn reply_error(reply: Reply) -> Option<RequestError> {
    match reply {
        Reply::Unreachable => Some(RequestError::Transport),
        Reply::Undecodable => Some(RequestError::Undecodable),
        Reply::Body(_) => None,
    }
}

fn url_or_bad(u: Option<String>) -> (r: Result<String, RequestError>)
    ensures
        match u {
            Some(s) => r == Ok::<String, RequestError>(s),
            None => r == Err::<String, RequestError>(RequestError::BadUrl),
        },
{
    match u {
        Some(s) => Ok(s),
        None => Err(RequestError::BadUrl),
    }
}

impl Requests for Request<'_> {
    open spec fn target_spec(&self) -> Option<Seq<char>> {
        Some(alive_target(*self.credentials))
    }

    /// Any response at all shows the service alive.
    open spec fn outcome_spec(&self, reply: Reply) -> Result<PayloadView, RequestError> {
        match reply {
            Reply::Unreachable => Err(RequestError::Transport),
            _ => Ok(PayloadView::Alive),
        }
    }

    open spec fn ready(&self) -> bool {
        true
    }

    fn target(&self) -> (r: Result<String, RequestError>) {
        let mut s = joined(self.credentials.url.as_str(), "?api_key=");
        s.append(self.credentials.api_key.as_str());
        Ok(s)
    }

    fn outcome(&self, reply: Reply) -> (r: Result<Payload, RequestError>) {
        match reply {
            Reply::Unreachable => Err(RequestError::Transport),
            _ => Ok(Payload::Alive),
        }
    }
}

impl Requests for CurrencyListRequest<'_> {
    open spec fn target_spec(&self) -> Option<Seq<char>> {
        Some(currencies_target(*self.credentials))
    }

    open spec fn outcome_spec(&self, reply: Reply) -> Result<PayloadView, RequestError> {
        match reply {
            Reply::Body(Json::Object(entries)) => match currency_rows(entries@) {
                Some(rows) => Ok(PayloadView::Currencies(rows)),
                None => Err(RequestError::Malformed),
            },
            Reply::Body(_) => Err(RequestError::Malformed),
            _ => Err(reply_error(reply)->0),
        }
    }

    open spec fn ready(&self) -> bool {
        true
    }

    fn target(&self) -> (r: Result<String, RequestError>) {
        let mut s = joined(self.credentials.url.as_str(), "/v1/currencies?api_key=");
        s.append(self.credentials.api_key.as_str());
        Ok(s)
    }

    fn outcome(&self, reply: Reply) -> (r: Result<Payload, RequestError>) {
        match reply {
            Reply::Unreachable => Err(RequestError::Transport),
            Reply::Undecodable => Err(RequestError::Undecodable),
            Reply::Body(Json::Object(entries)) => match currency_list(&entries) {
                Ok(v) => Ok(Payload::Currencies(v)),
                Err(e) => Err(e),
            },
            Reply::Body(_) => Err(RequestError::Malformed),
        }
    }
}

impl Requests for RatiosListRequest<'_> {
    open spec fn target_spec(&self) -> Option<Seq<char>> {
        ratios_target(*self.credentials, self.args.base@)
    }

    /// An unknown base shows as a response without rates: `InvalidBase`.
    open spec fn outcome_spec(&self, reply: Reply) -> Result<PayloadView, RequestError> {
        match reply {
            Reply::Body(Json::Object(entries)) => match ratios_of(entries@) {
                Ok(rates) => Ok(PayloadView::Ratios(rates)),
                Err(e) => Err(e),
            },
            Reply::Body(_) => Err(RequestError::Malformed),
            _ => Err(reply_error(reply)->0),
        }
    }

    open spec fn ready(&self) -> bool {
        true
    }

    fn target(&self) -> (r: Result<String, RequestError>) {
        let base = joined(self.credentials.url.as_str(), "/v1/latest");
        let mut pairs: Vec<(String, String)> = Vec::new();
        pairs.push(query_pair("api_key", self.credentials.api_key.clone()));
        pairs.push(query_pair("base", upper_code(self.args.base.as_str())));
        assert(text_pairs(pairs@) =~= seq![
            ("api_key"@, self.credentials.api_key@),
            ("base"@, upper_code_spec(self.args.base@)),
        ]);
        url_or_bad(encode_url(base.as_str(), &pairs))
    }

    fn outcome(&self, reply: Reply) -> (r: Result<Payload, RequestError>) {
        match reply {
            Reply::Unreachable => Err(RequestError::Transport),
            Reply::Undecodable => Err(RequestError::Undecodable),
            Reply::Body(Json::Object(entries)) => match take_rates(entries) {
                Ok(v) => Ok(Payload::Ratios(v)),
                Err(e) => Err(e),
            },
            Reply::Body(_) => Err(RequestError::Malformed),
        }
    }
}

impl Requests for ExchangeCurrencyRequest<'_> {
    open spec fn target_spec(&self) -> Option<Seq<char>> {
        exchange_target(*self.credentials, self.args)
    }

    open spec fn outcome_spec(&self, reply: Reply) -> Result<PayloadView, RequestError> {
        match reply {
            Reply::Body(v) => match converted_value(v) {
                Ok(d) => Ok(PayloadView::Converted(d)),
                Err(e) => Err(e),
            },
            _ => Err(reply_error(reply)->0),
        }
    }

    open spec fn ready(&self) -> bool {
        self.args.amount.wf()
    }

    fn target(&self) -> (r: Result<String, RequestError>) {
        let base = joined(self.credentials.url.as_str(), "/v1/convert");
        let mut pairs: Vec<(String, String)> = Vec::new();
        pairs.push(query_pair("api_key", self.credentials.api_key.clone()));
        pairs.push(query_pair("from", upper_code(self.args.from.as_str())));
        pairs.push(query_pair("to", upper_code(self.args.to.as_str())));
        pairs.push(query_pair("amount", self.args.amount.to_text()));
        assert(text_pairs(pairs@) =~= seq![
            ("api_key"@, self.credentials.api_key@),
            ("from"@, upper_code_spec(self.args.from@)),
            ("to"@, upper_code_spec(self.args.to@)),
            ("amount"@, decimal_text(self.args.amount)),
        ]);
        url_or_bad(encode_url(base.as_str(), &pairs))
    }

    fn outcome(&self, reply: Reply) -> (r: Result<Payload, RequestError>) {
        match reply {
            Reply::Unreachable => Err(RequestError::Transport),
            Reply::Undecodable => Err(RequestError::Undecodable),
            Reply::Body(v) => match read_converted(&v) {
                Ok(d) => Ok(Payload::Converted(d)),
                Err(e) => Err(e),
            },
        }
    }
}

} // verus!
