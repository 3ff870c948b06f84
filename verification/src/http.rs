//! HTTP as plain values: the parts of header fields that the library reads,
//! the requests that it makes out, and the answers that it gives.
use vstd::prelude::*;

use actix_web::http::header::HttpDate;
use reqwest::header::HeaderValue;
use std::str::FromStr;
use std::time::SystemTime;

verus! {

/// Whether a byte of a header value is a visible ASCII character, a space or a
/// tab.
pub open spec fn visible_ascii(b: u8) -> bool {
    32 <= b < 127 || b == 9
}

/// The text of a header value that holds visible ASCII alone; `None` where it
/// holds anything else.
pub open spec fn visible_text(bytes: Seq<u8>) -> Option<Seq<char>> {
    if forall|i: int| 0 <= i < bytes.len() ==> visible_ascii(#[trigger] bytes[i]) {
        Some(bytes.map_values(|b: u8| b as char))
    } else {
        None
    }
}

/// Calls `HeaderValue::to_str` on the header value that `bytes` make up: it
/// gives the bytes as text where each is visible ASCII, a space or a tab, and
/// fails on every other header value. Bytes that make up no header value give
/// `None` too: none of these is visible.
#[verifier::external_body]
pub(crate) fn header_text(bytes: &Vec<u8>) -> (text: Option<String>)
    ensures
        match text {
            Some(t) => visible_text(bytes@) == Some(t@),
            None => visible_text(bytes@) is None,
        },
{
    let value = HeaderValue::from_bytes(bytes.as_slice()).ok()?;
    value.to_str().ok().map(String::from)
}

/// Whether a text can be sent as the value of a header: it holds no control
/// character but the tab.
pub open spec fn header_value_text(text: Seq<char>) -> bool {
    forall|i: int|
        0 <= i < text.len() ==> (#[trigger] text[i] >= ' ' && text[i] != '\u{7f}') || text[i]
            == '\t'
}

/// Calls `HeaderValue::from_str`, which takes every text whose bytes are at
/// least 32 and not 127, or a tab, and no other. In UTF-8 the bytes below 128
/// are the ASCII characters of the text.
#[verifier::external_body]
pub(crate) fn header_value_accepts(text: &str) -> (accepted: bool)
    ensures
        accepted == header_value_text(text@),
{
    HeaderValue::from_str(text).is_ok()
}

/// The seconds from the start of 1970 to the date that an HTTP header names;
/// `None` where the text is no such date.
pub uninterp spec fn http_date(text: Seq<char>) -> Option<u64>;

/// Calls `HttpDate::from_str`, which reads the three date forms of HTTP, to
/// the second. The name `http_date` stands for what it finds.
#[verifier::external_body]
pub(crate) fn parse_http_date(text: &str) -> (date: Option<u64>)
    ensures
        date == http_date(text@),
{
    let time = SystemTime::from(HttpDate::from_str(text).ok()?);
    let since = time.duration_since(SystemTime::UNIX_EPOCH).ok()?;
    Some(since.as_secs())
}

/// What a request does.
#[derive(Clone, Copy, Debug, PartialEq, Eq, Structural)]
pub enum Method {
    /// It reads.
    Get,
    /// It submits.
    Post,
    /// It changes.
    Patch,
}

/// A request to a service.
pub struct ApiRequest<B> {
    /// What it does.
    pub method: Method,
    /// Where it goes.
    pub url: String,
    /// Whether it says that its body is JSON.
    pub json: bool,
    /// The token that entitles to it.
    pub bearer: Option<String>,
    /// Its body.
    pub body: B,
}

/// Whether a request reads what is at `url` with the token `token`.
pub open spec fn fetches(request: ApiRequest<()>, url: Seq<char>, token: Seq<char>) -> bool {
    &&& request.method == Method::Get
    &&& request.url@ == url
    &&& !request.json
    &&& request.bearer matches Some(bearer) && bearer@ == token
}

/// The request that reads what is at `url` with the token `token`.
pub fn fetch(url: String, token: &String) -> (request: ApiRequest<()>)
    ensures
        fetches(request, url@, token@),
        request.method == Method::Get,
        request.url@ == url@,
        !request.json,
        request.bearer matches Some(bearer) && bearer@ == token@,
{
    ApiRequest { method: Method::Get, url, json: false, bearer: Some(token.clone()), body: () }
}

/// The value of the header `Authorization` for a token.
pub open spec fn bearer(token: Seq<char>) -> Seq<char> {
    "Bearer "@ + token
}

/// Writes the value of the header `Authorization` for a token.
pub fn authorization(token: &str) -> (value: String)
    ensures
        value@ == bearer(token@),
        value@ == "Bearer "@ + token@,
{
    "Bearer ".to_owned().concat(token)
}

/// Whether a token can be sent.
pub fn is_sendable(token: &str) -> (sendable: bool)
    ensures
        sendable == header_value_text(bearer(token@)),
{
    header_value_accepts(authorization(token).as_str())
}

/// The status of an answer that sends the client elsewhere.
pub const FOUND: u16 = 302;

/// A cookie for the client to keep.
pub struct SetCookie {
    /// Its name.
    pub name: String,
    /// Its value.
    pub value: String,
    /// Whether scripts cannot read it.
    pub http_only: bool,
    /// Whether it is sent over encrypted connections alone.
    pub secure: bool,
    /// Whether other sites cause it to be sent by links alone.
    pub same_site_lax: bool,
    /// For how many seconds the client keeps it.
    pub lifetime: u64,
}

impl SetCookie {
    /// Whether this is the cookie with that name, value and lifetime, out of
    /// the reach of scripts, unencrypted connections and other sites.
    pub open spec fn guards(&self, name: Seq<char>, value: Seq<char>, lifetime: int) -> bool {
        &&& self.name@ == name
        &&& self.value@ == value
        &&& self.http_only
        &&& self.secure
        &&& self.same_site_lax
        &&& self.lifetime == lifetime
    }
}

/// An answer that sends the client elsewhere.
pub struct Redirect {
    /// Its status.
    pub status: u16,
    /// Where it sends the client.
    pub location: String,
    /// The cookie that goes with it.
    pub cookie: Option<SetCookie>,
    /// Its body.
    pub body: Option<String>,
}

/// The text of a header value has one character for each byte, with the same
/// number, and there is one exactly where no byte is a control character other
/// than a tab, or not of ASCII.
pub proof fn header_text_is_its_bytes(bytes: Seq<u8>)
    ensures
        visible_text(bytes) is None <==> exists|i: int|
            0 <= i < bytes.len() && !(32 <= #[trigger] bytes[i] <= 126 || bytes[i] == 9),
        visible_text(bytes) matches Some(text) ==> text.len() == bytes.len() && forall|i: int|
            0 <= i < bytes.len() ==> #[trigger] text[i] as int == bytes[i] as int,
{
    if exists|i: int| 0 <= i < bytes.len() && !(32 <= #[trigger] bytes[i] <= 126 || bytes[i] == 9) {
        let i = choose|i: int|
            0 <= i < bytes.len() && !(32 <= #[trigger] bytes[i] <= 126 || bytes[i] == 9);
        assert(!visible_ascii(bytes[i]));
    }
}

/// A token can be sent exactly where it holds no control character other than
/// a tab.
pub proof fn tokens_without_control_characters_are_sent(token: Seq<char>)
    ensures
        header_value_text(bearer(token)) <==> forall|i: int|
            0 <= i < token.len() ==> ((#[trigger] token[i]) >= ' ' && token[i] != '\u{7f}') || token[i]
                == '\u{9}',
{
    reveal_strlit("Bearer ");
    let value = bearer(token);
    assert forall|i: int| 0 <= i < token.len() implies #[trigger] token[i] == value[i + 7] by {}
    if forall|i: int|
        0 <= i < token.len() ==> ((#[trigger] token[i]) >= ' ' && token[i] != '\u{7f}') || token[i]
            == '\u{9}' {
        assert forall|i: int| 0 <= i < value.len() implies (#[trigger] value[i] >= ' ' && value[i]
            != '\u{7f}') || value[i] == '\t' by {
            if i >= 7 {
                assert(token[i - 7] == value[i]);
            } else {
                assert(value[i] == "Bearer "@[i]);
            }
        }
    }
}

/// A request fetches what is at an address with a token exactly where it reads
/// that address, names that token, and does not claim to hold anything.
pub proof fn fetching_names_address_and_token(
    request: ApiRequest<()>,
    url: Seq<char>,
    token: Seq<char>,
)
    ensures
        fetches(request, url, token) <==> request.url@ == url && request.bearer is Some && (
        request.bearer->0)@ == token && request.method is Get && !request.json,
{
}

} // verus!
