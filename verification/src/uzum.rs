//! uzum.uz client: bearer tokens, product ids, shutdown flag, health report.
use vstd::prelude::*;
use crate::json::JsonValue;
use crate::text::{chars_of, has_prefix, starts_with, string_of, trim, trim_chars};

verus! {

/// Whether an HTTP status means that the bearer token was refused.
pub open spec fn spec_status_refuses_token(status: u16) -> bool {
    status == 401 || status == 403
}

/// Check if a response status indicates token expiry (401/403).
/// Returns true if the token is expired.
pub fn is_token_expired(status: u16) -> (r: bool)
    ensures
        r == spec_status_refuses_token(status),
{
    status == 401 || status == 403
}

/// A token with the `Bearer ` scheme in front, added when missing.
pub open spec fn bearer(t: Seq<char>) -> Seq<char> {
    if has_prefix(t, "Bearer "@) {
        t
    } else {
        "Bearer "@ + t
    }
}

/// Ensure the token has the "Bearer " prefix.
pub fn normalize_token(t: String) -> (r: String)
    ensures
        r@ == bearer(t@),
{
    let cs = chars_of(t.as_str());
    let prefix = chars_of("Bearer ");
    if starts_with(cs.as_slice(), prefix.as_slice()) {
        t
    } else {
        let mut out = prefix;
        crate::numtext::append_chars(&mut out, cs.as_slice());
        string_of(out.as_slice())
    }
}

/// The token that a `UZUM_TOKEN` value gives: trimmed, with `Bearer ` added;
/// none when the trimmed value is empty.
pub open spec fn env_token(value: Seq<char>) -> Option<Seq<char>> {
    if trim(value).len() == 0 {
        None
    } else {
        Some(bearer(trim(value)))
    }
}

/// The first source of `resolve_token`: the token in the `UZUM_TOKEN` value.
pub fn token_from_env_value(value: &str) -> (r: Option<String>)
    ensures
        match r {
            Some(t) => env_token(value@) == Some(t@),
            None => env_token(value@) is None,
        },
{
    let cs = chars_of(value);
    let t = trim_chars(cs.as_slice());
    if t.len() == 0 {
        None
    } else {
        Some(normalize_token(string_of(t.as_slice())))
    }
}

/// A token cache file's token: trimmed, non-empty and already starting with `Bearer `.
pub open spec fn cache_file_token(contents: Seq<char>) -> Option<Seq<char>> {
    let t = trim(contents);
    if t.len() == 0 || !has_prefix(t, "Bearer "@) {
        None
    } else {
        Some(t)
    }
}

/// The token in the cache file's contents (`read_cached_token` after the read).
pub fn token_from_cache_contents(contents: &str) -> (r: Option<String>)
    ensures
        match r {
            Some(t) => cache_file_token(contents@) == Some(t@),
            None => cache_file_token(contents@) is None,
        },
{
    let cs = chars_of(contents);
    let t = trim_chars(cs.as_slice());
    let prefix = chars_of("Bearer ");
    if t.len() == 0 || !starts_with(t.as_slice(), prefix.as_slice()) {
        None
    } else {
        Some(string_of(t.as_slice()))
    }
}

/// What the browser-cookie helper's output gives: `None` when it is not
/// UTF-8 (the search stops there); otherwise the trimmed text with `Bearer `
/// added when it is a non-empty JWT (`eyJ...`), or nothing.
pub open spec fn browser_output_token(stdout: Seq<u8>) -> Option<Option<Seq<char>>> {
    if vstd::utf8::valid_utf8(stdout) {
        let t = trim(vstd::utf8::decode_utf8(stdout));
        if t.len() > 0 && has_prefix(t, "eyJ"@) {
            Some(Some(bearer(t)))
        } else {
            Some(None)
        }
    } else {
        None
    }
}

/// The token in the output of a successful browser-cookie helper run (the
/// part of `browser_token` after the helper ran): `None` when the output is
/// not UTF-8, `Some(None)` when it holds no token.
pub fn token_from_browser_output(stdout: Vec<u8>) -> (r: Option<Option<String>>)
    ensures
        match r {
            None => browser_output_token(stdout@) is None,
            Some(None) => browser_output_token(stdout@) == Some(None::<Seq<char>>),
            Some(Some(t)) => browser_output_token(stdout@) == Some(Some(t@)),
        },
{
    let text = match crate::text::utf8_to_string(stdout) {
        Some(s) => s,
        None => return None,
    };
    let cs = chars_of(text.as_str());
    let t = trim_chars(cs.as_slice());
    let jwt = chars_of("eyJ");
    if t.len() > 0 && starts_with(t.as_slice(), jwt.as_slice()) {
        Some(Some(normalize_token(string_of(t.as_slice()))))
    } else {
        Some(None)
    }
}

/// In Uzum's GraphQL response, the product ID is nested under `catalogCard.id`.
pub fn extract_id(item: &JsonValue) -> (r: Option<u64>)
    ensures
        r == match item.spec_get("catalogCard"@) {
            Some(c) => c.spec_u64_at("id"@),
            None => None,
        },
{
    match item.get("catalogCard") {
        Some(c) => c.u64_at("id"),
        None => None,
    }
}

/// Returns true if the shutdown flag has been set. The flag is written by a
/// signal handler, so nothing can be stated of the result.
pub fn shutdown_requested(flag: &std::sync::atomic::AtomicBool) -> bool {
    flag.load(std::sync::atomic::Ordering::Relaxed)
}

/// The content of `health.json`.
#[derive(Debug)]
pub struct HealthReport {
    pub timestamp: u64,
    pub status: String,
    pub phase: String,
    pub max_id: u64,
    pub total_products: u64,
    pub poll_count: u32,
    pub new_since_last_poll: u32,
}

/// Whether the log file is rotated before opening: it is larger than the limit.
pub fn log_needs_rotation(current_len: u64, max_size_bytes: u64) -> (r: bool)
    ensures
        r == (current_len > max_size_bytes),
{
    current_len > max_size_bytes
}

/// The name a rotated log file gets: `uzum-<seconds>.log`.
pub fn rotated_log_name(secs: u64) -> (r: String)
    ensures
        r@ == "uzum-"@ + crate::numtext::decimal(secs as nat) + ".log"@,
{
    let mut v = chars_of("uzum-");
    crate::numtext::append_chars(&mut v, crate::numtext::decimal_chars(secs).as_slice());
    crate::numtext::append_chars(&mut v, chars_of(".log").as_slice());
    string_of(v.as_slice())
}

} // verus!

verus! {

/// Adding the `Bearer ` scheme is idempotent, and its result always carries it.
pub proof fn lemma_bearer_idempotent(t: Seq<char>)
    ensures
        has_prefix(bearer(t), "Bearer "@),
        bearer(bearer(t)) == bearer(t),
{
    if !has_prefix(t, "Bearer "@) {
        let b = "Bearer "@ + t;
        assert(b.take("Bearer "@.len() as int) =~= "Bearer "@);
    }
}

} // verus!
