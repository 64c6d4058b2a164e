//! Logging in and opening a scraping session: the token request URL, the
//! access token in the reply, and the first messages of a session.
use crate::json::{json_get, Json};
use crate::text::{
    chars_of, push_all, push_signed_decimal, push_str, signed_decimal, string_from_chars, trim_end,
    trim_end_spec,
};
use vstd::prelude::*;

verus! {

/// The URL that asks for an access token with a user name and password;
/// both are taken without trailing white space and put in as they are.
pub open spec fn auth_url_spec(username: Seq<char>, password: Seq<char>) -> Seq<char> {
    "https://www.reddit.com/api/v1/access_token?grant_type=password&username="@ + trim_end_spec(
        username,
    ) + "&password="@ + trim_end_spec(password)
}

/// Builds the token request URL.
pub fn auth_url(username: &str, password: &str) -> (url: String)
    ensures
        url@ == auth_url_spec(username@, password@),
{
    let mut out: Vec<char> = Vec::new();
    push_str(&mut out, "https://www.reddit.com/api/v1/access_token?grant_type=password&username=");
    push_all(&mut out, &trim_end(&chars_of(username)));
    push_str(&mut out, "&password=");
    push_all(&mut out, &trim_end(&chars_of(password)));
    string_from_chars(out)
}

/// `s` without trailing white space.
pub fn trim_end_str(s: &str) -> (out: String)
    ensures
        out@ == trim_end_spec(s@),
{
    string_from_chars(trim_end(&chars_of(s)))
}

/// The access token of the token reply, or the error to report.
pub open spec fn access_token_spec(reply: Json) -> Result<Seq<char>, Seq<char>> {
    if !(reply is Object) {
        Err("fail json->as_object"@)
    } else {
        match json_get(reply, "access_token"@) {
            None => Err("fail json->access_token"@),
            Some(Json::Text(t)) => Ok(t@),
            Some(_) => Err("fail json->access_token->as_str"@),
        }
    }
}

/// Reads the access token out of the token reply.
pub fn access_token(reply: &Json) -> (r: Result<String, String>)
    ensures
        match access_token_spec(*reply) {
            Ok(t) => r is Ok && (r->Ok_0)@ == t,
            Err(e) => r is Err && (r->Err_0)@ == e,
        },
{
    if !reply.is_object() {
        return Err(String::from_str("fail json->as_object"));
    }
    match reply.get("access_token") {
        None => Err(String::from_str("fail json->access_token")),
        Some(v) => match v.as_str() {
            Some(t) => Ok(t.clone()),
            None => Err(String::from_str("fail json->access_token->as_str")),
        },
    }
}

/// The authorization value for a token.
pub fn bearer(token: &str) -> (s: String)
    ensures
        s@ == "Bearer "@ + token@,
{
    let mut out: Vec<char> = Vec::new();
    push_str(&mut out, "Bearer ");
    push_str(&mut out, token);
    string_from_chars(out)
}

/// The first message of a session, carrying the authorization value.
pub open spec fn connection_init_spec(authorization: Seq<char>) -> Seq<char> {
    "{ \"type\": \"connection_init\", \"payload\": { \"Authorization\": \""@ + authorization
        + "\"} }"@
}

/// Builds the first message of a session.
pub fn connection_init(authorization: &str) -> (s: String)
    ensures
        s@ == connection_init_spec(authorization@),
{
    let mut out: Vec<char> = Vec::new();
    push_str(&mut out, "{ \"type\": \"connection_init\", \"payload\": { \"Authorization\": \"");
    push_str(&mut out, authorization);
    push_str(&mut out, "\"} }");
    string_from_chars(out)
}

/// The log line that opens a session started at `millis`.
pub fn session_start_line(millis: i64) -> (s: String)
    ensures
        s@ == "start session "@ + signed_decimal(millis as int) + "\n"@,
{
    let mut out: Vec<char> = Vec::new();
    push_str(&mut out, "start session ");
    push_signed_decimal(&mut out, millis);
    push_str(&mut out, "\n");
    string_from_chars(out)
}

/// Seconds to wait before opening the next session: ten after a session
/// that ended in an error, none after one that ended cleanly.
pub fn reconnect_delay_secs(failed: bool) -> (secs: u64)
    ensures
        secs == (if failed {
            10u64
        } else {
            0u64
        }),
{
    if failed {
        10
    } else {
        0
    }
}

} // verus!
