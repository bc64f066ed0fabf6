use currency_client::decimal::Decimal;
use currency_client::error::RequestError;
use currency_client::json::Json;
use currency_client::outcome::{Payload, Reply};
use currency_client::requests::{
    CurrencyListRequest, Credentials, ExchangeCurrencyArguments, ExchangeCurrencyRequest,
    RatiosListArguments, RatiosListRequest, Request, Requests,
};

fn same(a: Result<Payload, RequestError>, b: Result<Payload, RequestError>) {
    assert_eq!(format!("{:?}", a), format!("{:?}", b));
}

fn creds() -> Credentials {
    Credentials::new("https://api.example.com".to_string(), "k3y".to_string())
}

fn text(s: &str) -> Json {
    Json::Text(s.to_string())
}

fn num(s: &str) -> Json {
    Json::Number(s.to_string())
}

fn obj(members: Vec<(&str, Json)>) -> Json {
    Json::Object(members.into_iter().map(|(k, v)| (k.to_string(), v)).collect())
}

fn currency(code: Json, name: &str) -> Json {
    obj(vec![("short_code", code), ("name", text(name))])
}

fn currency_body() -> Json {
    obj(vec![
        ("USD", currency(text("USD"), "United States dollar")),
        ("PLN", currency(text("PLN"), "Polish Zloty")),
        ("AUD", currency(text("AUD"), "Australian dollar")),
        ("EUR", currency(text("EUR"), "Euro")),
    ])
}

fn pairs(p: &[(&str, &str)]) -> Vec<(String, String)> {
    p.iter().map(|(a, b)| (a.to_string(), b.to_string())).collect()
}

#[test]
fn test_currency_list_request_succesful() {
    let c = creds();
    let req = CurrencyListRequest { credentials: &c };
    let got = req.outcome(Reply::Body(currency_body()));
    same(
        got,
        Ok(Payload::Currencies(pairs(&[
            ("USD", "United States dollar"),
            ("PLN", "Polish Zloty"),
            ("AUD", "Australian dollar"),
            ("EUR", "Euro"),
        ]))),
    );
}

#[test]
fn currency_list_single_entry() {
    let c = creds();
    let req = CurrencyListRequest { credentials: &c };
    let body = obj(vec![("USD", currency(text("USD"), "United States dollar"))]);
    same(
        req.outcome(Reply::Body(body)),
        Ok(Payload::Currencies(pairs(&[("USD", "United States dollar")])))
    );
}

#[test]
fn currency_list_skips_missing_codes() {
    let c = creds();
    let req = CurrencyListRequest { credentials: &c };
    let body = obj(vec![
        ("XXX", currency(Json::Null, "Nothing")),
        ("USD", currency(text("USD"), "United States dollar")),
        ("YYY", obj(vec![("name", text("No code"))])),
    ]);
    same(
        req.outcome(Reply::Body(body)),
        Ok(Payload::Currencies(pairs(&[("USD", "United States dollar")])))
    );
}

#[test]
fn currency_list_errors() {
    let c = creds();
    let req = CurrencyListRequest { credentials: &c };
    same(req.outcome(Reply::Unreachable), Err(RequestError::Transport));
    same(req.outcome(Reply::Undecodable), Err(RequestError::Undecodable));
    same(req.outcome(Reply::Body(Json::Array(Vec::new()))), Err(RequestError::Malformed));
    let bad = obj(vec![("USD", currency(num("5"), "Five"))]);
    same(req.outcome(Reply::Body(bad)), Err(RequestError::Malformed));
}

#[test]
fn currency_list_target() {
    let c = creds();
    let req = CurrencyListRequest { credentials: &c };
    assert_eq!(req.target().unwrap(), "https://api.example.com/v1/currencies?api_key=k3y");
}

#[test]
fn liveness_request() {
    let c = creds();
    let req = Request { credentials: &c };
    assert_eq!(req.target().unwrap(), "https://api.example.com?api_key=k3y");
    same(req.outcome(Reply::Undecodable), Ok(Payload::Alive));
    same(req.outcome(Reply::Body(Json::Null)), Ok(Payload::Alive));
    same(req.outcome(Reply::Unreachable), Err(RequestError::Transport));
}

fn ratios_request<'a>(c: &'a Credentials, base: &str) -> RatiosListRequest<'a> {
    RatiosListRequest {
        args: RatiosListArguments { base: base.to_string() },
        credentials: c,
    }
}

#[test]
fn ratios_target_uppercases_base() {
    let c = creds();
    let req = ratios_request(&c, "usd");
    assert_eq!(req.target().unwrap(), "https://api.example.com/v1/latest?api_key=k3y&base=USD");
}

#[test]
fn ratios_target_encodes_query() {
    let c = Credentials::new("https://api.example.com".to_string(), "a b&c".to_string());
    let req = ratios_request(&c, "usd");
    assert_eq!(
        req.target().unwrap(),
        "https://api.example.com/v1/latest?api_key=a+b%26c&base=USD"
    );
}

#[test]
fn ratios_target_bad_url() {
    let c = Credentials::new("not a url".to_string(), "k".to_string());
    let req = ratios_request(&c, "usd");
    assert_eq!(req.target(), Err(RequestError::BadUrl));
}

#[test]
fn ratios_takes_first_rates() {
    let c = creds();
    let req = ratios_request(&c, "USD");
    let rates = || obj(vec![("AUD", num("1.52")), ("EUR", num("0.92"))]);
    let body = obj(vec![
        ("meta", obj(vec![("code", num("200"))])),
        ("response", obj(vec![("rates", rates()), ("base", text("USD"))])),
    ]);
    let expected = match rates() {
        Json::Object(m) => m,
        _ => unreachable!(),
    };
    same(req.outcome(Reply::Body(body)), Ok(Payload::Ratios(expected)));
}

#[test]
fn ratios_unknown_base_is_invalid() {
    let c = creds();
    let req = ratios_request(&c, "xd");
    let body = obj(vec![
        ("meta", obj(vec![("code", num("200"))])),
        ("response", obj(vec![("rates", Json::Array(Vec::new()))])),
    ]);
    same(req.outcome(Reply::Body(body)), Err(RequestError::InvalidBase));
    same(req.outcome(Reply::Unreachable), Err(RequestError::Transport));
    same(req.outcome(Reply::Body(text("x"))), Err(RequestError::Malformed));
}

fn exchange_request(c: &Credentials) -> ExchangeCurrencyRequest<'_> {
    ExchangeCurrencyRequest {
        args: ExchangeCurrencyArguments {
            from: "usd".to_string(),
            to: "Aud".to_string(),
            amount: Decimal { digits: 1216, scale: 1 },
        },
        credentials: c,
    }
}

#[test]
fn exchange_target() {
    let c = creds();
    let req = exchange_request(&c);
    assert_eq!(
        req.target().unwrap(),
        "https://api.example.com/v1/convert?api_key=k3y&from=USD&to=AUD&amount=121.6"
    );
}

#[test]
fn exchange_reads_value() {
    let c = creds();
    let req = exchange_request(&c);
    let body = obj(vec![("response", obj(vec![("value", num("184.83"))]))]);
    same(
        req.outcome(Reply::Body(body)),
        Ok(Payload::Converted(Decimal { digits: 18483, scale: 2 }))
    );
    let quoted = obj(vec![("response", obj(vec![("value", text("184.832"))]))]);
    same(
        req.outcome(Reply::Body(quoted)),
        Ok(Payload::Converted(Decimal { digits: 184832, scale: 3 }))
    );
}

#[test]
fn exchange_without_value() {
    let c = creds();
    let req = exchange_request(&c);
    let empty = obj(vec![("response", obj(vec![("value", Json::Array(Vec::new()))]))]);
    same(req.outcome(Reply::Body(empty)), Err(RequestError::NoValue));
    same(req.outcome(Reply::Body(obj(vec![]))), Err(RequestError::NoValue));
    let odd = obj(vec![("response", obj(vec![("value", text("many"))]))]);
    same(req.outcome(Reply::Body(odd)), Err(RequestError::Malformed));
    same(req.outcome(Reply::Undecodable), Err(RequestError::Undecodable));
}
