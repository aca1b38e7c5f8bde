//! birbir.uz watcher: state, token fallbacks, feed paging and polling.
use vstd::prelude::*;
use crate::birbir::{b64_bytes, b64_values, access_token_after_j, access_token_of_json, cached_token, str_at_or_empty};
use crate::json::{json_parse_bytes, parse_json_bytes, JsonNumber, JsonValue};
use crate::text::{
    chars_of, char_pos, contains_char, eq_ignore_ascii_case, find_char, has_prefix, lines,
    lines_of, lower, lower_chars, skip_chars, starts_with, string_of, take_chars, trim,
    trim_chars,
};
use crate::watermark::{
    IdKey,
    ids_of, lemma_ids_below_mark, lemma_ids_push, lemma_max_with_push, lemma_newer_push,
    lemma_none_newer, max_with, newer_positions, with_id_positions,
};

verus! {

/// Offers asked for per feed page.
pub const PAGE_SIZE: u64 = 40;

/// Last feed page the initial collection reads.
pub const MAX_PAGE: u64 = 10000;

/// The state file's format version when the file does not give one.
pub fn default_version() -> (r: u64)
    ensures
        r == 1,
{
    1
}

/// What the watcher remembers between runs.
#[derive(Debug, Clone, Copy, PartialEq, Eq, Structural)]
pub struct State {
    pub version: u64,
    pub max_id: u64,
    pub initial_complete: bool,
}

impl Default for State {
    fn default() -> (r: Self)
        ensures
            r.version == 1,
            r.max_id == 0,
            !r.initial_complete,
    {
        State { version: 1, max_id: 0, initial_complete: false }
    }
}

/// Paging block of a feed response, as the watcher reads it.
#[derive(Debug, Clone, Copy, PartialEq, Eq, Structural)]
pub struct Paginator {
    pub next_page_exists: bool,
}

/// Response wrapper for the feed endpoint.
#[derive(Debug)]
pub struct FeedResponse {
    pub content: Option<FeedContent>,
}

/// Body of a feed response.
#[derive(Debug)]
pub struct FeedContent {
    pub items: Option<Vec<JsonValue>>,
    pub paginator: Option<Paginator>,
}

// ── Auth ─────────────────────────────────────────────────────────────

/// A symbol of the standard base64 alphabet (`A-Z`, `a-z`, `0-9`, `+`, `/`).
pub open spec fn standard_symbol(c: char) -> bool {
    crate::birbir::b64_sextet(c) is Some && c != '-' && c != '_'
}

/// The bits after the last whole byte of 6-bit values are all zero.
pub open spec fn trailing_bits_zero(v: Seq<u8>) -> bool {
    &&& v.len() % 4 == 2 ==> v.last() % 16 == 0
    &&& v.len() % 4 == 3 ==> v.last() % 4 == 0
}

/// Canonical unpadded standard base64: only alphabet symbols, a length that
/// is not 1 more than a multiple of 4, and zero bits after the last byte.
pub open spec fn canonical_unpadded(s: Seq<char>) -> bool {
    &&& forall|i: int| 0 <= i < s.len() ==> #[trigger] standard_symbol(s[i])
    &&& s.len() % 4 != 1
    &&& b64_values(s) matches Some(v) && trailing_bits_zero(v)
}

/// The `=` padding that brings a length up to a multiple of 4.
pub open spec fn padding_for(len: nat) -> Seq<char> {
    Seq::new(((4 - len % 4) % 4) as nat, |i: int| '=')
}

/// A text without its trailing `=` characters.
pub open spec fn strip_padding(s: Seq<char>) -> Seq<char>
    decreases s.len(),
{
    if s.len() > 0 && s.last() == '=' {
        strip_padding(s.drop_last())
    } else {
        s
    }
}

/// The bytes that canonical standard base64 text stands for (the 6-bit
/// values' bit stream, `=` ignored).
pub open spec fn canonical_bytes(s: Seq<char>) -> Seq<u8> {
    b64_bytes(b64_values(s).unwrap())
}

/// Canonical padded standard base64: canonical unpadded text followed by
/// exactly the `=` padding its length calls for.
pub open spec fn canonical_padded(s: Seq<char>) -> bool {
    let body = strip_padding(s);
    canonical_unpadded(body) && s == body + padding_for(body.len())
}

/// What `base64::engine::general_purpose::STANDARD.decode` gives for a text:
/// the bytes of canonical padded text, and an error (`None`) for any other.
pub open spec fn standard_decoded(s: Seq<char>) -> Option<Seq<u8>> {
    if canonical_padded(s) {
        Some(canonical_bytes(strip_padding(s)))
    } else {
        None
    }
}

/// What `base64::engine::general_purpose::STANDARD_NO_PAD.decode` gives for
/// a text: the bytes of canonical unpadded text, and an error (`None`) for
/// any other.
pub open spec fn standard_no_pad_decoded(s: Seq<char>) -> Option<Seq<u8>> {
    if canonical_unpadded(s) {
        Some(canonical_bytes(s))
    } else {
        None
    }
}

/// Calls `base64::Engine::decode` with the `STANDARD` engine. Trusted: the
/// engine (standard alphabet, padding required and canonical, no set bits
/// after the last byte) accepts exactly canonical padded text and gives its
/// bytes; it refuses any other text.
#[verifier::external_body]
fn base64_standard_decode(text: &str) -> (r: Option<Vec<u8>>)
    ensures
        match r {
            Some(b) => standard_decoded(text@) == Some(b@),
            None => standard_decoded(text@) is None,
        },
{
    base64::Engine::decode(&base64::engine::general_purpose::STANDARD, text).ok()
}

/// Calls `base64::Engine::decode` with the `STANDARD_NO_PAD` engine. Trusted:
/// the engine (standard alphabet, no padding allowed, no set bits after the
/// last byte) accepts exactly canonical unpadded text and gives its bytes; it
/// refuses any other text.
#[verifier::external_body]
fn base64_standard_no_pad_decode(text: &str) -> (r: Option<Vec<u8>>)
    ensures
        match r {
            Some(b) => standard_no_pad_decoded(text@) == Some(b@),
            None => standard_no_pad_decoded(text@) is None,
        },
{
    base64::Engine::decode(&base64::engine::general_purpose::STANDARD_NO_PAD, text).ok()
}

/// The bytes of a JWT payload part: padded text is read with the padded
/// engine, text without `=` with the unpadded one.
pub open spec fn payload_bytes(p: Seq<char>) -> Option<Seq<u8>> {
    if p.contains('=') {
        standard_decoded(p)
    } else {
        standard_no_pad_decoded(p)
    }
}

/// Decodes a JWT payload part, padded or not.
fn decode_payload(p: &str) -> (r: Option<Vec<u8>>)
    ensures
        match r {
            Some(b) => payload_bytes(p@) == Some(b@),
            None => payload_bytes(p@) is None,
        },
        canonical_unpadded(p@) ==> (r is Some && r.unwrap()@ == canonical_bytes(p@)),
{
    let cs = chars_of(p);
    proof {
        if canonical_unpadded(p@) {
            assert(!p@.contains('=')) by {
                if p@.contains('=') {
                    let i = choose|i: int| 0 <= i < p@.len() && p@[i] == '=';
                    assert(standard_symbol(p@[i]));
                }
            }
        }
    }
    if contains_char(cs.as_slice(), '=') {
        base64_standard_decode(p)
    } else {
        base64_standard_no_pad_decode(p)
    }
}

/// What `token_expired_at` gives: the payload decoded as standard base64,
/// padded or not, and its `exp` claim compared with `now`.
pub open spec fn token_expired(token: Seq<char>, now: u64) -> bool {
    match crate::birbir::jwt_payload(token) {
        None => true,
        Some(p) => match payload_bytes(p) {
            None => true,
            Some(bytes) => crate::birbir::expired_with(crate::birbir::exp_claim(bytes), now),
        },
    }
}

/// A JWT whose payload part is canonical unpadded standard base64.
pub open spec fn readable_payload(token: Seq<char>) -> bool {
    crate::birbir::jwt_payload(token) matches Some(p) && canonical_unpadded(p)
}

/// Whether a token with a readable payload is expired at `now`: its decoded
/// `exp` claim decides.
pub open spec fn readable_token_expired(token: Seq<char>, now: u64) -> bool {
    crate::birbir::expired_with(
        crate::birbir::exp_claim(canonical_bytes(crate::birbir::jwt_payload(token).unwrap())),
        now,
    )
}

/// A token whose payload part is missing or is not canonical standard
/// base64, padded or not, counts as expired whatever the time.
pub proof fn lemma_unreadable_payload_is_expired(token: Seq<char>, now: u64)
    requires
        match crate::birbir::jwt_payload(token) {
            Some(p) => !canonical_padded(p) && !canonical_unpadded(p),
            None => true,
        },
    ensures
        token_expired(token, now),
{
}

/// Whether a JWT is expired or about to expire (within 60s) at time `now`.
pub fn token_expired_at(token: &str, now: u64) -> (r: bool)
    ensures
        r == token_expired(token@, now),
        readable_payload(token@) ==> r == readable_token_expired(token@, now),
{
    let part = match crate::birbir::jwt_payload_part(token) {
        Some(p) => p,
        None => return true,
    };
    let bytes = match decode_payload(part.as_str()) {
        Some(b) => b,
        None => return true,
    };
    let exp = crate::birbir::read_exp_claim(bytes);
    crate::birbir::expired_with_exec(exp, now)
}

/// Whether a JWT is expired or about to expire (within 60s) now.
pub fn is_token_expired(token: &str) -> (r: bool)
    ensures
        exists|now: u64| {
            &&& r == token_expired(token@, now)
            &&& readable_payload(token@) ==> r == readable_token_expired(token@, now)
        },
{
    let now = crate::clock::unix_time_secs();
    token_expired_at(token, now)
}

/// What `urlencoding::decode` gives for a text (`None` where the decoded
/// bytes are not UTF-8).
pub uninterp spec fn percent_decoded(text: Seq<char>) -> Option<Seq<char>>;

/// Calls `urlencoding::decode`. Trusted: the result is named
/// `percent_decoded` of the text; a text without `%` comes back unchanged
/// (its source returns the input itself then).
#[verifier::external_body]
fn percent_decode(text: &str) -> (r: Option<String>)
    ensures
        match r {
            Some(d) => percent_decoded(text@) == Some(d@),
            None => percent_decoded(text@) is None,
        },
        !text@.contains('%') ==> (r is Some && r.unwrap()@ == text@),
{
    urlencoding::decode(text).ok().map(|d| d.into_owned())
}

/// What `parse_session_token` gives: the cookie percent-decoded when it holds
/// a `%`, then `j:` and a JSON object whose `accessToken` is the token.
pub open spec fn session_token(raw: Seq<char>) -> Option<Seq<char>> {
    if has_prefix(raw, "j%3A"@) || raw.contains('%') {
        match percent_decoded(raw) {
            Some(d) => access_token_of_json(d),
            None => None,
        }
    } else {
        access_token_of_json(raw)
    }
}

/// Parse a session cookie value and extract the Bearer access token.
/// Handles both raw (j:JSON) and URL-encoded (j%3A...) formats.
pub fn parse_session_token(raw: &str) -> (r: Option<String>)
    ensures
        match r {
            Some(t) => session_token(raw@) == Some(t@),
            None => session_token(raw@) is None,
        },
{
    let cs = chars_of(raw);
    let p = chars_of("j%3A");
    let decoded = if starts_with(cs.as_slice(), p.as_slice()) || contains_char(cs.as_slice(), '%') {
        match percent_decode(raw) {
            Some(d) => chars_of(d.as_str()),
            None => return None,
        }
    } else {
        cs
    };
    access_token_after_j(decoded.as_slice())
}

/// A `Set-Cookie: session=...` header line, read as `scan_headers_for_token`
/// reads it: the value of the `session` cookie up to the first `;`.
pub open spec fn session_cookie_of_line(line: Seq<char>) -> Option<Seq<char>> {
    if has_prefix(trim(lower(line)), "set-cookie:"@) {
        let k = char_pos(line, ':');
        let rest = trim(if k < line.len() { line.skip(k + 1) } else { line });
        if has_prefix(rest, "session="@) {
            let cookie_val = rest.skip("session="@.len() as int);
            Some(cookie_val.take(char_pos(cookie_val, ';')))
        } else {
            None
        }
    } else {
        None
    }
}

/// A header line `<name>: session=<v>;<rest>` is read as a session cookie
/// with value `v` for every spelling of `<name>` that lowercases to
/// `set-cookie` (HTTP/2 replies write header names in lowercase), whatever
/// follows the `;`.
pub proof fn lemma_set_cookie_name_any_case(name: Seq<char>, v: Seq<char>, rest: Seq<char>)
    requires
        lower(name) == "set-cookie"@,
        !v.contains(';'),
    ensures
        session_cookie_of_line(name + seq![':', ' '] + "session="@ + v + seq![';'] + rest) == Some(v),
{
    reveal_strlit("set-cookie");
    reveal_strlit("set-cookie:");
    reveal_strlit("session=");
    let sess = "session="@;
    let tail = v + seq![';'] + rest;
    let y = sess + tail;
    let line = name + seq![':', ' '] + y;
    assert(name + seq![':', ' '] + "session="@ + v + seq![';'] + rest =~= line);
    assert(lower(name).len() == name.len());
    assert("set-cookie"@.len() == 10);
    assert(name.len() == 10);
    // the header name, lowercased and trimmed
    let low = lower(line);
    assert forall|i: int| 0 <= i < 10 implies low[i] == "set-cookie:"@[i] by {
        assert(line[i] == name[i]);
        assert(lower(name)[i] == crate::text::ascii_lower(name[i]));
    }
    assert(low[10] == ':');
    let semi: int = 20 + v.len() as int;
    assert(line[semi] == ';') by {
        assert(tail[v.len() as int] == ';');
        assert(y[8 + v.len() as int] == ';');
    }
    assert(low[semi] == ';');
    assert(low[0] == 's');
    crate::text::lemma_trim_start_nonblank(low);
    crate::text::lemma_trim_end_keeps(low, semi);
    let tl = trim(low);
    assert(tl.take(11) =~= "set-cookie:"@);
    assert(has_prefix(tl, "set-cookie:"@));
    // the first ':' ends the name
    assert(!name.contains(':')) by {
        if name.contains(':') {
            let j = choose|j: int| 0 <= j < name.len() && name[j] == ':';
            assert(lower(name)[j] == ':');
            assert("set-cookie"@[j] != ':');
        }
    }
    crate::text::lemma_char_pos_append(name, seq![':', ' '] + y, ':');
    assert((seq![':', ' '] + y)[0] == ':');
    assert(char_pos(seq![':', ' '] + y, ':') == 0);
    assert(line =~= name + (seq![':', ' '] + y));
    assert(char_pos(line, ':') == 10);
    let after = line.skip(11);
    assert(after =~= seq![' '] + y);
    // the value part, trimmed
    assert(crate::text::trim_start(after) == crate::text::trim_start(y)) by {
        assert(crate::text::is_ws(after[0]));
        assert(after.drop_first() =~= y);
    }
    assert(y[0] == 's');
    crate::text::lemma_trim_start_nonblank(y);
    assert(y[8 + v.len() as int] == ';') by {
        assert(tail[v.len() as int] == ';');
    }
    crate::text::lemma_trim_end_keeps(y, 8 + v.len() as int);
    let r = trim(after);
    assert(r == crate::text::trim_end(y));
    assert(r.take(8) =~= sess);
    let cookie_val = r.skip(8);
    assert(cookie_val =~= tail.take(r.len() - 8));
    crate::text::lemma_char_pos_append(v, seq![';'] + rest, ';');
    assert(cookie_val =~= v + (seq![';'] + rest).take(r.len() - 8 - v.len()));
    crate::text::lemma_char_pos_append(v, (seq![';'] + rest).take(r.len() - 8 - v.len()), ';');
    assert(((seq![';'] + rest).take(r.len() - 8 - v.len()))[0] == ';');
    assert(cookie_val.take(v.len() as int) =~= v);
}

/// What `scan_headers_for_token` gives: the first `session` cookie starting
/// with `j%` or `j:` decides.
pub open spec fn header_lines_token(ls: Seq<Seq<char>>) -> Option<Seq<char>>
    decreases ls.len(),
{
    if ls.len() == 0 {
        None
    } else {
        match session_cookie_of_line(ls[0]) {
            Some(val) => if has_prefix(val, "j%"@) || has_prefix(val, "j:"@) {
                session_token(val)
            } else {
                header_lines_token(ls.drop_first())
            },
            None => header_lines_token(ls.drop_first()),
        }
    }
}

/// A header block whose first line is `<name>: session=<v>;<rest>`, with
/// `<name>` any spelling of `set-cookie` and `v` starting with `j%` or `j:`,
/// gives the token that `v` holds, whatever the later lines say.
pub proof fn lemma_scan_reads_set_cookie_any_case(
    name: Seq<char>,
    v: Seq<char>,
    rest: Seq<char>,
    more: Seq<Seq<char>>,
)
    requires
        lower(name) == "set-cookie"@,
        !v.contains(';'),
        has_prefix(v, "j%"@) || has_prefix(v, "j:"@),
    ensures
        header_lines_token(seq![name + seq![':', ' '] + "session="@ + v + seq![';'] + rest] + more)
            == session_token(v),
{
    let line = name + seq![':', ' '] + "session="@ + v + seq![';'] + rest;
    lemma_set_cookie_name_any_case(name, v, rest);
    let ls = seq![line] + more;
    assert(ls[0] == line);
}

fn session_cookie_in_line(line: &[char]) -> (r: Option<Vec<char>>)
    ensures
        match r {
            Some(v) => session_cookie_of_line(line@) == Some(v@),
            None => session_cookie_of_line(line@) is None,
        },
{
    let lowered = lower_chars(line);
    let lower_trimmed = trim_chars(lowered.as_slice());
    let marker = chars_of("set-cookie:");
    if !starts_with(lower_trimmed.as_slice(), marker.as_slice()) {
        return None;
    }
    let k = find_char(line, ':');
    let after = if k < line.len() { skip_chars(line, k + 1) } else { skip_chars(line, 0) };
    proof {
        assert(line@.skip(0) =~= line@);
    }
    let rest = trim_chars(after.as_slice());
    let key = chars_of("session=");
    match crate::text::strip_prefix(rest.as_slice(), key.as_slice()) {
        None => None,
        Some(cookie_val) => {
            let end = find_char(cookie_val.as_slice(), ';');
            Some(take_chars(cookie_val.as_slice(), end))
        },
    }
}

/// Scan raw HTTP response headers for Set-Cookie: session=...
pub fn scan_headers_for_token(headers: &str) -> (r: Option<String>)
    ensures
        match r {
            Some(t) => header_lines_token(lines(headers@)) == Some(t@),
            None => header_lines_token(lines(headers@)) is None,
        },
{
    let cs = chars_of(headers);
    let ls = lines_of(cs.as_slice());
    let p1 = chars_of("j%");
    let p2 = chars_of("j:");
    let ghost all = crate::text::views(ls@);
    let mut i: usize = 0;
    assert(all.skip(0) =~= all);
    while i < ls.len()
        invariant
            0 <= i <= ls@.len(),
            all == crate::text::views(ls@),
            all == lines(headers@),
            p1@ == "j%"@,
            p2@ == "j:"@,
            header_lines_token(all) == header_lines_token(all.skip(i as int)),
        decreases ls@.len() - i,
    {
        let ghost rest = all.skip(i as int);
        assert(rest[0] == ls@[i as int]@);
        assert(rest.drop_first() =~= all.skip(i + 1));
        match session_cookie_in_line(ls[i].as_slice()) {
            Some(val) => {
                if starts_with(val.as_slice(), p1.as_slice()) || starts_with(val.as_slice(), p2.as_slice()) {
                    let vs = string_of(val.as_slice());
                    return parse_session_token(vs.as_str());
                }
            },
            None => {},
        }
        i = i + 1;
    }
    None
}

/// What the agent-browser cookie list gives: the first cookie named
/// `session` (any case) with a string value that yields a token.
pub open spec fn cookie_list_token(cookies: Seq<JsonValue>) -> Option<Seq<char>>
    decreases cookies.len(),
{
    if cookies.len() == 0 {
        None
    } else {
        let c = cookies[0];
        let next = cookie_list_token(cookies.drop_first());
        if lower(str_at_or_empty(c, "name"@)) == lower("session"@) {
            match c.spec_str_at("value"@) {
                Some(v) => match session_token(v) {
                    Some(t) => Some(t),
                    None => next,
                },
                None => next,
            }
        } else {
            next
        }
    }
}

/// What `token_from_cookie_output` gives for agent-browser's standard output.
pub open spec fn cookie_output_token(stdout: Seq<u8>) -> Option<Seq<char>> {
    match json_parse_bytes(stdout) {
        Some(JsonValue::Array(cookies)) => cookie_list_token(cookies@),
        _ => None,
    }
}

/// The session token in `agent-browser cookies get --json` output (the part
/// of `fetch_token_via_agent_browser` after the command ran).
pub fn token_from_cookie_output(stdout: &[u8]) -> (r: Option<String>)
    ensures
        match r {
            Some(t) => cookie_output_token(stdout@) == Some(t@),
            None => cookie_output_token(stdout@) is None,
        },
{
    let parsed = parse_json_bytes(stdout);
    let cookies = match &parsed {
        Some(JsonValue::Array(c)) => c,
        _ => return None,
    };
    let session = chars_of("session");
    let mut i: usize = 0;
    assert(cookies@.skip(0) =~= cookies@);
    while i < cookies.len()
        invariant
            0 <= i <= cookies@.len(),
            session@ == "session"@,
            cookie_output_token(stdout@) == cookie_list_token(cookies@.skip(i as int)),
        decreases cookies@.len() - i,
    {
        let cookie = &cookies[i];
        let ghost rest = cookies@.skip(i as int);
        assert(rest[0] == *cookie);
        assert(rest.drop_first() =~= cookies@.skip(i + 1));
        let name = match cookie.get("name") {
            Some(m) => match m.as_str() {
                Some(s) => chars_of(s),
                None => Vec::new(),
            },
            None => Vec::new(),
        };
        if eq_ignore_ascii_case(name.as_slice(), session.as_slice()) {
            match cookie.get("value") {
                Some(m) => match m.as_str() {
                    Some(val) => match parse_session_token(val) {
                        Some(token) => return Some(token),
                        None => {},
                    },
                    None => {},
                },
                None => {},
            }
        }
        i = i + 1;
    }
    None
}

/// The cached token when it is non-empty and not expired at `now`.
pub open spec fn usable_cached_token(contents: Seq<char>, now: u64) -> Option<Seq<char>> {
    let t = trim(contents);
    if t.len() > 0 && !token_expired(t, now) {
        Some(t)
    } else {
        None
    }
}

/// The fast path of `get_token`: a cache file's token when non-empty and fresh at `now`.
pub fn fresh_cached_token(contents: &str, now: u64) -> (r: Option<String>)
    ensures
        match r {
            Some(t) => usable_cached_token(contents@, now) == Some(t@),
            None => usable_cached_token(contents@, now) is None,
        },
{
    let cs = chars_of(contents);
    let t = trim_chars(cs.as_slice());
    if t.len() == 0 {
        return None;
    }
    let token = string_of(t.as_slice());
    if token_expired_at(token.as_str(), now) {
        None
    } else {
        Some(token)
    }
}

/// The degraded path of `get_token`: a cache file's token even if expired,
/// when it is non-empty.
pub fn stale_cached_token(contents: &str) -> (r: Option<String>)
    ensures
        match r {
            Some(t) => cached_token(contents@) == Some(t@),
            None => cached_token(contents@) is None,
        },
{
    crate::birbir::cached_token_of(contents)
}

} // verus!

verus! {

// ── Feed paging ──────────────────────────────────────────────────────

/// The request body of feed page `page`:
/// `{"page": page, "perPage": 40, "region": "all", "sort": 2}`.
pub fn feed_request(page: u64) -> (r: JsonValue)
    ensures
        r.spec_u64_at("page"@) == Some(page),
        r.spec_u64_at("perPage"@) == Some(PAGE_SIZE),
        r.spec_str_at("region"@) == Some("all"@),
        r.spec_u64_at("sort"@) == Some(2u64),
{
    let mut members: Vec<(String, JsonValue)> = Vec::new();
    members.push(("page".to_owned(), JsonValue::Number(JsonNumber::UInt(page))));
    members.push(("perPage".to_owned(), JsonValue::Number(JsonNumber::UInt(PAGE_SIZE))));
    members.push(("region".to_owned(), JsonValue::Str("all".to_owned())));
    members.push(("sort".to_owned(), JsonValue::Number(JsonNumber::UInt(2))));
    proof {
        reveal_strlit("page");
        reveal_strlit("perPage");
        reveal_strlit("region");
        reveal_strlit("sort");
        let m = members@;
        let m1 = m.drop_first();
        let m2 = m1.drop_first();
        let m3 = m2.drop_first();
        assert(m[0].0@ == "page"@);
        assert(m1[0].0@ == "perPage"@);
        assert(m2[0].0@ == "region"@);
        assert(m3[0].0@ == "sort"@);
        assert("page"@.len() == 4 && "perPage"@.len() == 7 && "region"@.len() == 6);
        assert("page"@[0] == 'p' && "sort"@[0] == 's' && "sort"@.len() == 4);
        assert("page"@ != "sort"@);
        assert(crate::json::lookup(m, "perPage"@) == crate::json::lookup(m1, "perPage"@));
        assert(crate::json::lookup(m, "region"@) == crate::json::lookup(m1, "region"@));
        assert(crate::json::lookup(m1, "region"@) == crate::json::lookup(m2, "region"@));
        assert(crate::json::lookup(m, "sort"@) == crate::json::lookup(m1, "sort"@));
        assert(crate::json::lookup(m1, "sort"@) == crate::json::lookup(m2, "sort"@));
        assert(crate::json::lookup(m2, "sort"@) == crate::json::lookup(m3, "sort"@));
    }
    JsonValue::Object(members)
}

/// The offers of a feed reply and whether another page exists; an
/// unreadable reply (`None`) gives no offers and no next page.
pub open spec fn feed_page_of(feed: Option<FeedResponse>) -> (Seq<JsonValue>, bool) {
    match feed {
        None => (Seq::empty(), false),
        Some(f) => match f.content {
            None => (Seq::empty(), false),
            Some(c) => (
                match c.items {
                    Some(items) => items@,
                    None => Seq::empty(),
                },
                match c.paginator {
                    Some(p) => p.next_page_exists,
                    None => false,
                },
            ),
        },
    }
}

/// The offers and the next-page flag of a feed reply (the end of `fetch_page`).
pub fn feed_page(feed: Option<FeedResponse>) -> (r: (Vec<JsonValue>, bool))
    ensures
        (r.0@, r.1) == feed_page_of(feed),
        r.1 == (feed matches Some(f) && f.content matches Some(c) && c.paginator matches Some(p)
            && p.next_page_exists),
{
    proof { lemma_feed_page_reads_reply(feed); }
    match feed {
        None => (Vec::new(), false),
        Some(f) => match f.content {
            None => (Vec::new(), false),
            Some(c) => {
                let has_more = match c.paginator {
                    Some(p) => p.next_page_exists,
                    None => false,
                };
                let items = match c.items {
                    Some(items) => items,
                    None => Vec::new(),
                };
                (items, has_more)
            },
        },
    }
}

/// A feed reply's page holds exactly the reply's items (none when the reply,
/// its content or its items are missing), and another page follows exactly
/// when the reply's paginator says `nextPageExists`.
pub proof fn lemma_feed_page_reads_reply(feed: Option<FeedResponse>)
    ensures
        feed_page_of(feed).1 == (feed matches Some(f) && f.content matches Some(c)
            && c.paginator matches Some(p) && p.next_page_exists),
        feed matches Some(f) ==> (f.content matches Some(c) ==> (c.items matches Some(items)
            ==> feed_page_of(feed).0 == items@)),
        !(feed matches Some(f) && f.content matches Some(c) && c.items is Some)
            ==> feed_page_of(feed).0.len() == 0,
{
}

/// The page after `page` in the initial collection, if it reads one.
pub open spec fn next_initial_page(page: u64, page_was_empty: bool, has_more: bool) -> Option<u64> {
    if page_was_empty || !has_more || page >= MAX_PAGE {
        None
    } else {
        Some((page + 1) as u64)
    }
}

/// The initial collection reads the next page only after a non-empty page
/// that says more pages exist, below the page limit.
pub proof fn lemma_initial_paging_stops(page: u64, page_was_empty: bool, has_more: bool)
    ensures
        !has_more ==> next_initial_page(page, page_was_empty, has_more) is None,
        page_was_empty ==> next_initial_page(page, page_was_empty, has_more) is None,
        next_initial_page(page, page_was_empty, has_more) matches Some(p) ==> p == page + 1 && p <= MAX_PAGE,
        (has_more && !page_was_empty && page < MAX_PAGE) ==> next_initial_page(page, page_was_empty, has_more) is Some,
{
}

/// One page of the initial full collection: every offer with an id is
/// written, in order, and raises `max_id`; then the next page to read, if any.
/// An empty page ends the collection.
pub fn initial_page(state: &mut State, offers: &Vec<JsonValue>, has_more: bool, page: u64)
    -> (r: (Vec<usize>, Option<u64>))
    ensures
        r.0@ == with_id_positions(IdKey::Offer, offers@),
        final(state).max_id == max_with(old(state).max_id, ids_of(IdKey::Offer, offers@)),
        final(state).version == old(state).version,
        final(state).initial_complete == old(state).initial_complete,
        r.1 == next_initial_page(page, offers@.len() == 0, has_more),
{
    let mut written: Vec<usize> = Vec::new();
    let ghost start = state.max_id;
    let mut i: usize = 0;
    assert(offers@.take(0) =~= Seq::<JsonValue>::empty());
    while i < offers.len()
        invariant
            0 <= i <= offers@.len(),
            written@ == with_id_positions(IdKey::Offer, offers@.take(i as int)),
            state.max_id == max_with(start, ids_of(IdKey::Offer, offers@.take(i as int))),
            state.version == old(state).version,
            state.initial_complete == old(state).initial_complete,
        decreases offers@.len() - i,
    {
        proof { lemma_ids_push(IdKey::Offer, offers@, i as int); }
        match crate::birbir::extract_id(&offers[i]) {
            Some(oid) => {
                proof { lemma_max_with_push(start, ids_of(IdKey::Offer, offers@.take(i as int)), oid); }
                if oid > state.max_id {
                    state.max_id = oid;
                }
                written.push(i);
            },
            None => {},
        }
        i = i + 1;
    }
    assert(offers@.take(offers@.len() as int) =~= offers@);
    let next = if offers.len() == 0 || !has_more || page >= MAX_PAGE {
        None
    } else {
        Some(page + 1)
    };
    (written, next)
}

/// The page a poll cycle reads after `page`, if any: paging goes on while a
/// page holds new offers and the feed has more, up to `MAX_PAGE`.
pub open spec fn spec_next_poll_page(page: u64, n_new: u64, has_more: bool) -> Option<u64> {
    if n_new == 0 || !has_more || page >= MAX_PAGE {
        None
    } else {
        Some((page + 1) as u64)
    }
}

/// The page a poll cycle reads after `page`, given how many new offers that
/// page held and whether the feed has more: a page of only known offers ends
/// the cycle.
pub fn next_poll_page(page: u64, n_new: u64, has_more: bool) -> (r: Option<u64>)
    ensures
        r == spec_next_poll_page(page, n_new, has_more),
{
    if n_new == 0 || !has_more || page >= MAX_PAGE {
        None
    } else {
        Some(page + 1)
    }
}

/// A poll cycle goes on to the next page only when the page held a new
/// offer, the feed says more pages exist, and the page limit is not reached;
/// a reply without a next page always ends it.
pub proof fn lemma_poll_paging_stops(page: u64, n_new: u64, has_more: bool)
    ensures
        !has_more ==> spec_next_poll_page(page, n_new, has_more) is None,
        n_new == 0 ==> spec_next_poll_page(page, n_new, has_more) is None,
        spec_next_poll_page(page, n_new, has_more) matches Some(p) ==> p == page + 1 && p <= MAX_PAGE,
        (has_more && n_new > 0 && page < MAX_PAGE) ==> spec_next_poll_page(page, n_new, has_more) is Some,
{
}

/// One poll cycle of the feed: pages are read from page 1 on while they hold
/// offers newer than the mark the cycle started with.
#[derive(Debug)]
pub struct FeedPoll {
    /// `max_id` when the cycle started; offers above it are new.
    pub mark: u64,
    /// The largest id seen in this cycle (at least `mark`).
    pub cycle_max: u64,
    /// The page due next, while the cycle goes on.
    pub page: u64,
    /// New offers written so far.
    pub new_count: u64,
    /// Whether the cycle is over.
    pub done: bool,
}

impl FeedPoll {
    /// A cycle starting from the state's `max_id` at page 1.
    pub fn new(state: &State) -> (r: FeedPoll)
        ensures
            r.mark == state.max_id,
            r.cycle_max == state.max_id,
            r.page == 1,
            r.new_count == 0,
            !r.done,
    {
        FeedPoll { mark: state.max_id, cycle_max: state.max_id, page: 1, new_count: 0, done: false }
    }

    /// Takes the page due: writes the offers newer than the cycle's mark, in
    /// order, and moves to the next page or ends the cycle.
    pub fn absorb(&mut self, offers: &Vec<JsonValue>, has_more: bool) -> (r: Vec<usize>)
        requires
            !old(self).done,
            old(self).cycle_max >= old(self).mark,
            old(self).new_count + offers@.len() <= u64::MAX,
        ensures
            r@ == newer_positions(IdKey::Offer, offers@, old(self).mark),
            final(self).mark == old(self).mark,
            final(self).cycle_max == max_with(old(self).cycle_max, ids_of(IdKey::Offer, offers@)),
            final(self).cycle_max >= final(self).mark,
            final(self).new_count == old(self).new_count + r@.len(),
            match spec_next_poll_page(old(self).page, r@.len() as u64, has_more) {
                Some(p) => !final(self).done && final(self).page == p,
                None => final(self).done && final(self).page == old(self).page,
            },
    {
        let mark = self.mark;
        let c0 = self.cycle_max;
        let mut written: Vec<usize> = Vec::new();
        let mut i: usize = 0;
        assert(offers@.take(0) =~= Seq::<JsonValue>::empty());
        while i < offers.len()
            invariant
                0 <= i <= offers@.len(),
                mark == old(self).mark,
                c0 == old(self).cycle_max,
                c0 >= mark,
                self.mark == mark,
                self.page == old(self).page,
                self.done == old(self).done,
                self.new_count == old(self).new_count,
                written@ == newer_positions(IdKey::Offer, offers@.take(i as int), mark),
                written@.len() <= i,
                self.cycle_max == max_with(c0, ids_of(IdKey::Offer, offers@.take(i as int))),
            decreases offers@.len() - i,
        {
            proof {
                lemma_ids_push(IdKey::Offer, offers@, i as int);
                lemma_newer_push(IdKey::Offer, offers@, mark, i as int);
            }
            match crate::birbir::extract_id(&offers[i]) {
                Some(oid) => {
                    proof {
                        lemma_max_with_push(c0, ids_of(IdKey::Offer, offers@.take(i as int)), oid);
                        crate::watermark::lemma_max_with(c0, ids_of(IdKey::Offer, offers@.take(i as int)));
                    }
                    if oid > mark {
                        if oid > self.cycle_max {
                            self.cycle_max = oid;
                        }
                        written.push(i);
                    }
                },
                None => {},
            }
            i = i + 1;
        }
        assert(offers@.take(offers@.len() as int) =~= offers@);
        proof { crate::watermark::lemma_max_with(c0, ids_of(IdKey::Offer, offers@)); }
        let n_new = written.len() as u64;
        self.new_count = self.new_count + n_new;
        match next_poll_page(self.page, n_new, has_more) {
            Some(p) => { self.page = p; },
            None => { self.done = true; },
        }
        written
    }

    /// Ends the cycle: `max_id` becomes the largest id seen when new offers
    /// were written, and stays otherwise. Returns the number of new offers.
    pub fn finish(&self, state: &mut State) -> (r: u64)
        ensures
            r == self.new_count,
            final(state).max_id == (if self.new_count > 0 { self.cycle_max } else { old(state).max_id }),
            final(state).version == old(state).version,
            final(state).initial_complete == old(state).initial_complete,
    {
        if self.new_count > 0 {
            state.max_id = self.cycle_max;
        }
        self.new_count
    }
}

/// Polling the same page twice writes nothing the second time: after a poll
/// no offer of the page is newer than `max_id`.
pub proof fn lemma_poll_is_idempotent(mark: u64, offers: Seq<JsonValue>)
    ensures
        newer_positions(IdKey::Offer, offers, max_with(mark, ids_of(IdKey::Offer, offers))) == Seq::<usize>::empty(),
        max_with(max_with(mark, ids_of(IdKey::Offer, offers)), ids_of(IdKey::Offer, offers)) == max_with(mark, ids_of(IdKey::Offer, offers)),
{
    lemma_ids_below_mark(IdKey::Offer, mark, offers);
    lemma_none_newer(IdKey::Offer, offers, max_with(mark, ids_of(IdKey::Offer, offers)));
    crate::watermark::lemma_no_newer_keeps_mark(IdKey::Offer, offers, max_with(mark, ids_of(IdKey::Offer, offers)));
}

/// `max_id` never goes down across a poll or an initial page.
pub proof fn lemma_mark_never_decreases(mark: u64, offers: Seq<JsonValue>)
    ensures
        max_with(mark, ids_of(IdKey::Offer, offers)) >= mark,
{
    lemma_ids_below_mark(IdKey::Offer, mark, offers);
}

/// Finish the initial collection.
pub fn complete_initial(state: &mut State)
    ensures
        final(state).initial_complete,
        final(state).max_id == old(state).max_id,
        final(state).version == old(state).version,
{
    state.initial_complete = true;
}

} // verus!
