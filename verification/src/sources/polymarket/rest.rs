//! Addresses of the market-data API requests.
use vstd::prelude::*;
use vstd::string::*;

verus! {

/// Base address of the market-data API.
pub open spec fn gamma_api_base() -> Seq<char> {
    "https://gamma-api.polymarket.com"@
}

/// Base address of the round open-price API.
pub open spec fn crypto_price_base() -> Seq<char> {
    "https://polymarket.com/api/crypto/crypto-price"@
}

/// Address of the market with a given slug: `<base>/markets/slug/<slug>`.
pub fn market_by_slug_url(slug: &str) -> (r: String)
    ensures
        r@ == gamma_api_base() + "/markets/slug/"@ + slug@,
{
    let mut url = String::from_str("https://gamma-api.polymarket.com");
    url.append("/markets/slug/");
    url.append(slug);
    url
}

/// Address of the open price of a round:
/// `<base>?symbol=..&eventStartTime=..&endDate=..&variant=..`.
pub fn crypto_price_url(symbol: &str, event_start_time: &str, end_date: &str, variant: &str) -> (r:
    String)
    ensures
        r@ == crypto_price_base() + "?symbol="@ + symbol@ + "&eventStartTime="@ + event_start_time@
            + "&endDate="@ + end_date@ + "&variant="@ + variant@,
{
    let mut url = String::from_str("https://polymarket.com/api/crypto/crypto-price");
    url.append("?symbol=");
    url.append(symbol);
    url.append("&eventStartTime=");
    url.append(event_start_time);
    url.append("&endDate=");
    url.append(end_date);
    url.append("&variant=");
    url.append(variant);
    url
}

} // verus!
