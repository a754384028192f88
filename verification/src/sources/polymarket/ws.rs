//! Subscription to the order-book feed.
use vstd::prelude::*;
use vstd::string::*;

verus! {

/// A hexadecimal digit, in lower case.
pub open spec fn hex_digit(d: nat) -> char {
    if d < 10 {
        (('0' as nat) + d) as char
    } else {
        (('a' as nat) + d - 10) as char
    }
}

/// A character inside a JSON string as `serde_json` writes it: `"` and `\`
/// and the control characters below U+0020 are escaped (the short forms
/// `\b \t \n \f \r`, otherwise `\u00XX` in lower-case hex); every other
/// character is written as it is.
pub open spec fn json_escaped_char(c: char) -> Seq<char> {
    let u = c as u32;
    if c == '"' {
        seq!['\\', '"']
    } else if c == '\\' {
        seq!['\\', '\\']
    } else if u == 0x08 {
        seq!['\\', 'b']
    } else if u == 0x09 {
        seq!['\\', 't']
    } else if u == 0x0a {
        seq!['\\', 'n']
    } else if u == 0x0c {
        seq!['\\', 'f']
    } else if u == 0x0d {
        seq!['\\', 'r']
    } else if u < 0x20 {
        seq!['\\', 'u', '0', '0', hex_digit((u / 16) as nat), hex_digit((u % 16) as nat)]
    } else {
        seq![c]
    }
}

/// The characters of a text, each escaped for a JSON string.
pub open spec fn json_escaped(s: Seq<char>) -> Seq<char>
    decreases s.len(),
{
    if s.len() == 0 {
        Seq::empty()
    } else {
        json_escaped(s.drop_last()) + json_escaped_char(s.last())
    }
}

/// A text as a JSON string: quoted, with its characters escaped.
pub open spec fn json_string_text(s: Seq<char>) -> Seq<char> {
    seq!['"'] + json_escaped(s) + seq!['"']
}

/// The JSON strings of a list of texts, separated by commas.
pub open spec fn json_items(items: Seq<Seq<char>>) -> Seq<char>
    decreases items.len(),
{
    if items.len() == 0 {
        Seq::empty()
    } else if items.len() == 1 {
        json_string_text(items[0])
    } else {
        json_items(items.drop_last()) + seq![','] + json_string_text(items.last())
    }
}

/// A list of texts as a compact JSON array of strings.
pub open spec fn json_text_of_strings(items: Seq<Seq<char>>) -> Seq<char> {
    seq!['['] + json_items(items) + seq![']']
}

/// Calls `serde_json::to_string` on a list of strings. Trusted: the result
/// is the compact JSON array `json_text_of_strings` describes (`[`, the
/// strings quoted and escaped as the crate's default formatter does,
/// separated by `,`, then `]`); serializing a list of strings cannot fail
/// (the crate fails only for a `Serialize` impl that fails or a map with
/// non-string keys), so the error arm is never taken.
#[verifier::external_body]
fn json_array_of_strings(items: &Vec<String>) -> (r: String)
    ensures
        r@ == json_text_of_strings(items@.map_values(|s: String| s@)),
{
    serde_json::to_string(items).unwrap_or_default()
}

/// Address of the order-book feed.
pub open spec fn polymarket_ws_url() -> Seq<char> {
    "wss://ws-subscriptions-clob.polymarket.com/ws/market"@
}

pub struct PolymarketWsClient {
    pub asset_ids: Vec<String>,
}

impl PolymarketWsClient {
    pub fn new(asset_ids: Vec<String>) -> (c: Self)
        ensures
            c.asset_ids == asset_ids,
    {
        PolymarketWsClient { asset_ids }
    }

    /// Address of the order-book feed.
    pub fn url() -> (r: &'static str)
        ensures
            r@ == polymarket_ws_url(),
    {
        "wss://ws-subscriptions-clob.polymarket.com/ws/market"
    }

    /// The message that subscribes to one asset's market channel:
    /// `{"assets_ids":["<asset id>"],"type":"market"}`, the id escaped as a
    /// JSON string.
    pub fn subscription_message(asset_id: &str) -> (r: String)
        ensures
            r@ == "{\"assets_ids\":["@ + json_string_text(asset_id@) + "],\"type\":\"market\"}"@,
    {
        let mut ids: Vec<String> = Vec::new();
        ids.push(String::from_str(asset_id));
        assert(ids@.map_values(|s: String| s@) =~= seq![asset_id@]);
        let mut msg = String::from_str("{\"assets_ids\":");
        let list = json_array_of_strings(&ids);
        msg.append(list.as_str());
        msg.append(",\"type\":\"market\"}");
        proof {
            reveal_strlit("{\"assets_ids\":");
            reveal_strlit(",\"type\":\"market\"}");
            reveal_strlit("{\"assets_ids\":[");
            reveal_strlit("],\"type\":\"market\"}");
            assert(json_items(seq![asset_id@]) == json_string_text(asset_id@));
            assert(msg@ =~= "{\"assets_ids\":["@ + json_string_text(asset_id@) + "],\"type\":\"market\"}"@);
        }
        msg
    }
}

} // verus!
