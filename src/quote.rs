use vstd::prelude::*;
use crate::decimal::{decimal_micros, parse_decimal, parse_price, price_micros, Amount};

verus! {

/// JSON pointer to the last sale price in a quote response.
pub const PRICE_POINTER: &'static str = "/data/primaryData/lastSalePrice";

/// JSON pointer to today's net change in a quote response.
pub const CHANGE_POINTER: &'static str = "/data/primaryData/netChange";

/// Start of every quote request URL.
pub const QUOTE_ENDPOINT: &'static str = "https://api.nasdaq.com/api/quote/";

/// Between the symbol and the asset class in a quote request URL.
pub const CLASS_QUERY: &'static str = "/info?assetclass=";

/// Last sale price and today's absolute change for one symbol.
#[derive(Clone, Copy, Debug, PartialEq, Eq, Structural)]
pub struct Quote {
    pub price: Amount,
    pub net_change: Amount,
}

impl Quote {
    pub open spec fn wf(self) -> bool {
        self.price.wf() && self.net_change.wf()
    }

    /// The quote used when no lookup succeeded.
    pub fn zero() -> (r: Quote)
        ensures
            r.price.micros == 0,
            r.net_change.micros == 0,
            r.wf(),
    {
        Quote { price: Amount::zero(), net_change: Amount::zero() }
    }
}

/// Which classification a lookup asks the endpoint for.
#[derive(Clone, Copy, Debug, PartialEq, Eq, Structural)]
pub enum AssetClass {
    Stocks,
    Etf,
}

pub open spec fn class_text(c: AssetClass) -> Seq<char> {
    match c {
        AssetClass::Stocks => "stocks"@,
        AssetClass::Etf => "etf"@,
    }
}

/// What to do once a lookup has answered.
#[derive(Clone, Copy, Debug, PartialEq, Eq, Structural)]
pub enum Next {
    /// The symbol's quote is settled.
    Done(Quote),
    /// Look the symbol up again under this classification.
    Retry(AssetClass),
}

/// The text of the classification as the endpoint expects it.
pub fn class_name(c: AssetClass) -> (r: String)
    ensures
        r@ == class_text(c),
{
    match c {
        AssetClass::Stocks => String::from_str("stocks"),
        AssetClass::Etf => String::from_str("etf"),
    }
}

/// The request URL for looking `symbol` up under classification `c`.
pub open spec fn url_text(symbol: Seq<char>, c: AssetClass) -> Seq<char> {
    QUOTE_ENDPOINT@ + symbol + CLASS_QUERY@ + class_text(c)
}

pub fn lookup_url(symbol: &str, c: AssetClass) -> (r: String)
    ensures
        r@ == url_text(symbol@, c),
{
    let mut url = String::from_str(QUOTE_ENDPOINT);
    url.append(symbol);
    url.append(CLASS_QUERY);
    let name = class_name(c);
    url.append(name.as_str());
    url
}

/// The first lookup asks for a common stock.
pub fn first_lookup() -> (r: AssetClass)
    ensures
        r == AssetClass::Stocks,
{
    AssetClass::Stocks
}

/// The decision after a lookup under `c` answered with `found`: a found quote
/// settles the symbol; a failed stock lookup is retried as an ETF; a failed
/// ETF lookup settles the symbol with the zero quote.
pub fn after_lookup(c: AssetClass, found: Option<Quote>) -> (r: Next)
    ensures
        match found {
            Some(q) => r == Next::Done(q),
            None => match c {
                AssetClass::Stocks => r == Next::Retry(AssetClass::Etf),
                AssetClass::Etf => r == Next::Done(
                    Quote { price: Amount { micros: 0 }, net_change: Amount { micros: 0 } },
                ),
            },
        },
{
    match found {
        Some(q) => Next::Done(q),
        None => match c {
            AssetClass::Stocks => Next::Retry(AssetClass::Etf),
            AssetClass::Etf => Next::Done(Quote::zero()),
        },
    }
}

/// The quote read from a price field and a net-change field.
pub open spec fn fields_quote(price: Seq<char>, change: Seq<char>) -> Option<(int, int)> {
    match (price_micros(price), decimal_micros(change)) {
        (Some(p), Some(c)) => Some((p, c)),
        _ => None,
    }
}

pub open spec fn quote_value(q: Quote) -> (int, int) {
    (q.price.micros as int, q.net_change.micros as int)
}

/// Reads a quote from its price text (`$` and a number) and its net-change
/// text (a signed number); `None` when either does not parse.
pub fn quote_from_fields(price: &str, change: &str) -> (r: Option<Quote>)
    ensures
        match r {
            Some(q) => fields_quote(price@, change@) == Some(quote_value(q)) && q.wf(),
            None => fields_quote(price@, change@) is None,
        },
{
    let p = match parse_price(price) {
        Some(p) => p,
        None => return None,
    };
    let c = match parse_decimal(change) {
        Some(c) => c,
        None => return None,
    };
    Some(Quote { price: p, net_change: c })
}

/// The text found at a JSON pointer in a JSON document, when the document
/// parses and the value there is a string.
pub uninterp spec fn json_text(doc: Seq<char>, pointer: Seq<char>) -> Option<Seq<char>>;

/// Relies on serde_json::from_str (into a `Value`), `Value::pointer` and
/// `Value::as_str`: the string value at `pointer` in the document `doc`, if
/// `doc` is JSON and a string stands there. The result depends on the two
/// texts alone.
#[verifier::external_body]
fn text_at(doc: &str, pointer: &str) -> (r: Option<String>)
    ensures
        match r {
            Some(t) => json_text(doc@, pointer@) == Some(t@),
            None => json_text(doc@, pointer@) is None,
        },
{
    let v: serde_json::Value = serde_json::from_str(doc).ok()?;
    let text = v.pointer(pointer)?.as_str()?;
    Some(text.to_string())
}

/// The quote a response body holds, if any.
pub open spec fn body_quote(body: Seq<char>) -> Option<(int, int)> {
    match (json_text(body, PRICE_POINTER@), json_text(body, CHANGE_POINTER@)) {
        (Some(p), Some(c)) => fields_quote(p, c),
        _ => None,
    }
}

/// Reads the quote out of a quote endpoint's response body. A body that is
/// not JSON, lacks either field, or holds one that does not parse gives
/// `None`.
pub fn quote_from_body(body: &str) -> (r: Option<Quote>)
    ensures
        match r {
            Some(q) => body_quote(body@) == Some(quote_value(q)) && q.wf(),
            None => body_quote(body@) is None,
        },
{
    let price = match text_at(body, PRICE_POINTER) {
        Some(t) => t,
        None => return None,
    };
    let change = match text_at(body, CHANGE_POINTER) {
        Some(t) => t,
        None => return None,
    };
    quote_from_fields(price.as_str(), change.as_str())
}

} // verus!
